//! Orientation of the left lateral segment inside a horizontal slice.
use vstd::prelude::*;

verus! {

/// Reasons for which a sector cannot be built.
#[derive(Copy, Clone, Debug, PartialEq)]
pub enum InitSectorError {
    /// The apex cannot be represented.
    CenterOutOfBound,
    /// An arc lies outside `[0, 2 * PI)`.
    ArcOutOfRange,
    /// Both rays coincide.
    EmptyRange,
}

/// Direction of the fixed ray of a sector, in the height-width plane.
///
/// Seen from the pixel `(10, 10)`, `(11, 10)` lies towards `HeightPos`,
/// `(9, 10)` towards `HeightNeg`, `(10, 11)` towards `WidthPos` and `(10, 9)`
/// towards `WidthNeg`.
#[derive(Copy, Clone, Debug)]
pub enum AxisDirection {
    /// Growing height.
    HeightPos,
    /// Shrinking height.
    HeightNeg,
    /// Growing width.
    WidthPos,
    /// Shrinking width.
    WidthNeg,
}

/// Sense in which the free ray of a sector lies, seen from the fixed ray.
#[derive(Copy, Clone, Debug)]
pub enum Orientation {
    /// Clockwise.
    Clockwise,
    /// Counter-clockwise.
    CounterClockwise,
}

/// Reasons for which the orientation of a volume cannot be told.
#[derive(Copy, Clone, Debug)]
pub enum InitLlsPatternError {
    /// The quaternion of the header is no axis vector.
    NotAxisVector,
    /// The combination `(qform_code, (quatern_b, quatern_c, quatern_d))` is not known.
    Unknown(i16, (i8, i8, i8)),
}

/// The orientation that a header with the given codes describes, if it is known.
pub open spec fn pattern_of(qform_code: i16, quatern: (i8, i8, i8)) -> Option<
    (AxisDirection, Orientation),
> {
    if (qform_code == 0 && quatern == (0i8, 0i8, 0i8)) || (qform_code == 1 && quatern == (
        0i8,
        1i8,
        0i8,
    )) || (qform_code == 2 && quatern == (0i8, 1i8, 0i8)) {
        Some((AxisDirection::HeightPos, Orientation::CounterClockwise))
    } else if qform_code == 2 && quatern == (0i8, 0i8, 0i8) {
        Some((AxisDirection::HeightPos, Orientation::Clockwise))
    } else if qform_code == 2 && quatern == (0i8, 0i8, 1i8) {
        Some((AxisDirection::HeightNeg, Orientation::Clockwise))
    } else {
        None
    }
}

/// What is read off the header of a volume: the size `[width, height, slice
/// distance]` of a voxel in micrometres, the `qform_code`, and the quaternion
/// `(b, c, d)` where its components are integers.
#[derive(Copy, Clone, Debug)]
pub struct Header {
    /// Width, height and slice distance of a voxel, in micrometres.
    pub pix_dim: [u32; 3],
    /// The `qform_code`.
    pub qform_code: i16,
    /// The quaternion `(b, c, d)`, or `None` where a component is no integer.
    pub quatern: Option<(i8, i8, i8)>,
}

/// The orientation that a header describes, if it is known.
pub open spec fn pattern_of_header(header: Header) -> Option<(AxisDirection, Orientation)> {
    match header.quatern {
        Some(q) => pattern_of(header.qform_code, q),
        None => None,
    }
}

/// The combinations of fixed ray and sense that occur.
pub open spec fn known_pattern(axis: AxisDirection, o: Orientation) -> bool {
    ||| (axis is HeightPos && o is CounterClockwise)
    ||| (axis is HeightPos && o is Clockwise)
    ||| (axis is HeightNeg && o is Clockwise)
}

/// Where the left lateral segment lies in the slices of a volume.
#[derive(Copy, Clone)]
pub struct LlsSectorPattern {
    /// Direction of the fixed ray.
    axis: AxisDirection,
    /// Sense of the free ray, seen from the fixed ray.
    o: Orientation,
}

impl LlsSectorPattern {
    #[verifier::type_invariant]
    spec fn well_formed(self) -> bool {
        known_pattern(self.axis, self.o)
    }

    /// Direction of the fixed ray.
    pub closed spec fn axis(self) -> AxisDirection {
        self.axis
    }

    /// Sense of the free ray.
    pub closed spec fn sense(self) -> Orientation {
        self.o
    }

    /// Reads the orientation off the codes of a header: `qform_code` and the
    /// quaternion components `(b, c, d)` rounded to integers.
    pub fn from_codes(qform_code: i16, quatern: (i8, i8, i8)) -> (r: Result<
        Self,
        InitLlsPatternError,
    >)
        ensures
            match r {
                Ok(p) => pattern_of(qform_code, quatern) == Some((p.axis(), p.sense())),
                Err(e) => pattern_of(qform_code, quatern) is None && e
                    == InitLlsPatternError::Unknown(qform_code, quatern),
            },
    {
        match (qform_code, quatern) {
            (0, (0, 0, 0)) | (1, (0, 1, 0)) | (2, (0, 1, 0)) => Ok(
                LlsSectorPattern {
                    axis: AxisDirection::HeightPos,
                    o: Orientation::CounterClockwise,
                },
            ),
            (2, (0, 0, 0)) => Ok(
                LlsSectorPattern { axis: AxisDirection::HeightPos, o: Orientation::Clockwise },
            ),
            (2, (0, 0, 1)) => Ok(
                LlsSectorPattern { axis: AxisDirection::HeightNeg, o: Orientation::Clockwise },
            ),
            (qform, tup) => Err(InitLlsPatternError::Unknown(qform, tup)),
        }
    }

    /// Reads the orientation off a header.
    ///
    /// Fails with `NotAxisVector` when a component of the quaternion is no
    /// integer, and with `Unknown` when the combination of codes is not one
    /// of the known ones.
    pub fn from_header(header: &Header) -> (r: Result<Self, InitLlsPatternError>)
        ensures
            match r {
                Ok(p) => pattern_of_header(*header) == Some((p.axis(), p.sense())),
                Err(InitLlsPatternError::NotAxisVector) => header.quatern is None,
                Err(InitLlsPatternError::Unknown(c, q)) => header.quatern == Some(q) && c
                    == header.qform_code && pattern_of_header(*header) is None,
            },
    {
        match header.quatern {
            None => Err(InitLlsPatternError::NotAxisVector),
            Some(q) => Self::from_codes(header.qform_code, q),
        }
    }

    /// Direction of the fixed ray.
    #[inline]
    pub fn quadrant(&self) -> (r: AxisDirection)
        ensures
            r == self.axis(),
            known_pattern(self.axis(), self.sense()),
    {
        proof {
            use_type_invariant(self);
        }
        self.axis
    }

    /// Sense of the free ray, seen from the fixed ray.
    #[inline]
    pub fn orientation(&self) -> (r: Orientation)
        ensures
            r == self.sense(),
            known_pattern(self.axis(), self.sense()),
    {
        proof {
            use_type_invariant(self);
        }
        self.o
    }
}

} // verus!
