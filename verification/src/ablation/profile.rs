//! Statistics of the runs of an algorithm.
use crate::ablation::clock::clock_elapsed;
use crate::ablation::clock::clock_now;
use crate::ablation::clock::duration_as_nanos;
use crate::ablation::clock::nanos_of;
use std::time::Duration;
use std::time::Instant;
use vstd::prelude::*;

verus! {

/// The sum of two lengths of time, or the longest time that can be kept
/// when the sum is longer.
pub open spec fn add_time(total: u128, more: u128) -> u128 {
    if total + more <= u128::MAX {
        (total + more) as u128
    } else {
        u128::MAX
    }
}

/// A stop watch that adds up the spans it has timed.
pub struct AccTimer {
    consumed: u128,
    since: Instant,
}

impl AccTimer {
    /// The time added up so far, in nanoseconds.
    pub closed spec fn total(self) -> u128 {
        self.consumed
    }

    /// A watch that has timed nothing yet and is running.
    #[inline]
    pub fn new() -> (r: Self)
        ensures
            r.total() == 0,
    {
        AccTimer { consumed: 0, since: clock_now() }
    }

    /// Starts a span now.  A span that was running is forgotten.
    #[inline]
    pub fn start(&mut self)
        ensures
            final(self).total() == old(self).total(),
    {
        self.since = clock_now();
    }

    /// Ends the running span, adds it to the total, and returns it.
    #[inline]
    pub fn elapsed(&mut self) -> (d: Duration)
        ensures
            final(self).total() == add_time(old(self).total(), nanos_of(d)),
    {
        let d = clock_elapsed(&self.since);
        self.accumulate(&d);
        d
    }

    /// Adds the span `d` to the total.
    pub fn accumulate(&mut self, d: &Duration)
        ensures
            final(self).total() == add_time(old(self).total(), nanos_of(*d)),
    {
        let more = duration_as_nanos(d);
        self.consumed = match self.consumed.checked_add(more) {
            Some(sum) => sum,
            None => u128::MAX,
        };
    }

    /// The whole microseconds of the total, cut to 64 bits.
    #[inline]
    pub fn get_total_us(&self) -> (r: u64)
        ensures
            r == (self.total() / 1000) % 0x1_0000_0000_0000_0000,
    {
        ((self.consumed / 1000) % 0x1_0000_0000_0000_0000) as u64
    }

    /// The whole milliseconds of the total, cut to 64 bits.
    #[inline]
    pub fn get_total_ms(&self) -> (r: u64)
        ensures
            r == (self.total() / 1_000_000) % 0x1_0000_0000_0000_0000,
    {
        ((self.consumed / 1_000_000) % 0x1_0000_0000_0000_0000) as u64
    }

    /// The total in nanoseconds.
    #[inline]
    pub fn get_total_ns(&self) -> (r: u128)
        ensures
            r == self.total(),
    {
        self.consumed
    }
}

/// What a profile has counted and timed.
pub struct Stats {
    /// Number of slices without foreground.
    pub trivial: u64,
    /// Number of slices with foreground.
    pub target: u64,
    /// Time spent on slices with foreground, in nanoseconds.
    pub target_ns: u128,
    /// Time spent in all, in nanoseconds.
    pub real_ns: u128,
    /// The longest time spent on one slice with foreground, in nanoseconds.
    pub most_ns: Option<u128>,
    /// Number of foreground pixels that the algorithm lost.
    pub eroded: u64,
}

/// The statistics after a slice with foreground took the time `d`.
pub open spec fn timed(before: Stats, d: u128) -> Stats {
    Stats {
        target_ns: add_time(before.target_ns, d),
        most_ns: Some(
            match before.most_ns {
                Some(once) => if d >= once {
                    d
                } else {
                    once
                },
                None => d,
            },
        ),
        ..before
    }
}

/// The statistics after all timing was ended, `d` after the profile was made.
pub open spec fn finished(before: Stats, d: u128) -> Stats {
    Stats { real_ns: add_time(before.real_ns, d), ..before }
}

/// Counts and times the runs of an algorithm over many slices.
pub struct Profile {
    trivial: u64,
    target: u64,
    target_time: AccTimer,
    real_time: AccTimer,
    most: Option<Duration>,
    eroded: u64,
}

impl View for Profile {
    type V = Stats;

    closed spec fn view(&self) -> Stats {
        Stats {
            trivial: self.trivial,
            target: self.target,
            target_ns: self.target_time.total(),
            real_ns: self.real_time.total(),
            most_ns: match self.most {
                Some(d) => Some(nanos_of(d)),
                None => None,
            },
            eroded: self.eroded,
        }
    }
}

impl Profile {
    /// A profile that has counted nothing; its clocks are running.
    #[inline]
    pub fn new() -> (r: Self)
        ensures
            r@ == (Stats {
                trivial: 0,
                target: 0,
                target_ns: 0,
                real_ns: 0,
                most_ns: None,
                eroded: 0,
            }),
    {
        Profile {
            trivial: 0,
            target: 0,
            target_time: AccTimer::new(),
            real_time: AccTimer::new(),
            most: None,
            eroded: 0,
        }
    }

    /// Counts a slice without foreground.
    #[inline]
    pub fn count_trivial(&mut self)
        requires
            old(self)@.trivial < u64::MAX,
        ensures
            final(self)@ == (Stats { trivial: (old(self)@.trivial + 1) as u64, ..old(self)@ }),
    {
        self.trivial += 1;
    }

    /// Counts a slice with foreground, and starts timing it if `start`.
    #[inline]
    pub fn count_target(&mut self, start: bool)
        requires
            old(self)@.target < u64::MAX,
        ensures
            final(self)@ == (Stats { target: (old(self)@.target + 1) as u64, ..old(self)@ }),
    {
        self.target += 1;
        if start {
            self.target_start();
        }
    }

    /// Starts timing a slice with foreground.
    #[inline]
    pub fn target_start(&mut self)
        ensures
            final(self)@ == old(self)@,
    {
        self.target_time.start();
    }

    /// Ends timing a slice with foreground: the time it took is added to
    /// the time spent on such slices, and kept if none took longer.
    #[inline]
    pub fn target_elapsed(&mut self)
        ensures
            exists|d: u128| final(self)@ == #[trigger] timed(old(self)@, d),
    {
        let d = self.target_time.elapsed();
        self.keep_longest(d);
        proof {
            assert(self@ == timed(old(self)@, nanos_of(d)));
        }
    }

    /// Keeps the span `d` if no slice took longer.
    fn keep_longest(&mut self, d: Duration)
        ensures
            final(self)@ == (Stats {
                most_ns: Some(
                    match old(self)@.most_ns {
                        Some(once) => if nanos_of(d) >= once {
                            nanos_of(d)
                        } else {
                            once
                        },
                        None => nanos_of(d),
                    },
                ),
                ..old(self)@
            }),
    {
        self.most = match self.most {
            None => Some(d),
            Some(once) => if duration_as_nanos(&d) >= duration_as_nanos(&once) {
                Some(d)
            } else {
                Some(once)
            },
        };
    }

    /// Adds `count` to the number of lost foreground pixels.
    #[inline]
    pub fn count_eroded(&mut self, count: u64)
        requires
            old(self)@.eroded + count <= u64::MAX,
        ensures
            final(self)@ == (Stats { eroded: (old(self)@.eroded + count) as u64, ..old(self)@ }),
    {
        self.eroded += count;
    }

    /// Ends all timing: the time since the profile was made is added to the time spent in all.
    #[inline]
    pub fn finish(self) -> (r: Self)
        ensures
            exists|d: u128| r@ == #[trigger] finished(self@, d),
    {
        let mut done = self;
        let d = done.real_time.elapsed();
        proof {
            assert(done@ == finished(self@, nanos_of(d)));
        }
        done
    }

    /// Number of lost foreground pixels.
    #[inline]
    pub fn get_eroded(&self) -> (r: u64)
        ensures
            r == self@.eroded,
    {
        self.eroded
    }

    /// Number of slices without foreground.
    #[inline]
    pub fn get_trivial(&self) -> (r: u64)
        ensures
            r == self@.trivial,
    {
        self.trivial
    }

    /// Number of slices with foreground.
    #[inline]
    pub fn get_target(&self) -> (r: u64)
        ensures
            r == self@.target,
    {
        self.target
    }

    /// Time spent on slices with foreground: its whole microseconds, cut to 64 bits.
    #[inline]
    pub fn get_target_time_us(&self) -> (r: u64)
        ensures
            r == (self@.target_ns / 1000) % 0x1_0000_0000_0000_0000,
    {
        self.target_time.get_total_us()
    }

    /// Time spent in all: its whole microseconds, cut to 64 bits.
    #[inline]
    pub fn get_real_time_us(&self) -> (r: u64)
        ensures
            r == (self@.real_ns / 1000) % 0x1_0000_0000_0000_0000,
    {
        self.real_time.get_total_us()
    }

    /// The longest time spent on one slice with foreground, if any was timed.
    pub fn get_most_time_consuming(&self) -> (r: Option<Duration>)
        ensures
            match r {
                Some(d) => self@.most_ns == Some(nanos_of(d)),
                None => self@.most_ns is None,
            },
    {
        self.most
    }
}

} // verus!
