use ct_berry::data::morph_3d::roi::RoiGenerator;
use ct_berry::data::CtLabel;
use std::collections::BTreeSet;
use std::collections::HashMap;
use std::collections::HashSet;

type Idx3d = (usize, usize, usize);

struct Plain {
    shape: Idx3d,
    labels: Vec<u8>,
    pix_dim: [u32; 3],
}

impl Plain {
    fn at(&self, (z, h, w): Idx3d) -> u8 {
        self.labels[(z * self.shape.1 + h) * self.shape.2 + w]
    }

    fn fg(&self, p: Idx3d) -> bool {
        let l = self.at(p);
        l == 1 || l == 2
    }

    fn all(&self) -> Vec<Idx3d> {
        let mut out = vec![];
        for z in 0..self.shape.0 {
            for h in 0..self.shape.1 {
                for w in 0..self.shape.2 {
                    out.push((z, h, w));
                }
            }
        }
        out
    }

    fn around(&self, (z, h, w): Idx3d, along_z: bool, in_plane: bool) -> Vec<Idx3d> {
        let mut out = vec![];
        if along_z {
            if z > 0 {
                out.push((z - 1, h, w));
            }
            if z + 1 < self.shape.0 {
                out.push((z + 1, h, w));
            }
        }
        if in_plane {
            if h > 0 {
                out.push((z, h - 1, w));
            }
            if h + 1 < self.shape.1 {
                out.push((z, h + 1, w));
            }
            if w > 0 {
                out.push((z, h, w - 1));
            }
            if w + 1 < self.shape.2 {
                out.push((z, h, w + 1));
            }
        }
        out
    }

    /// The peeling told round by round with sets; stops after many rounds without an end.
    fn center(&self, anisotropic: bool) -> Option<(Idx3d, u64, u64)> {
        let mut remaining: BTreeSet<Idx3d> = self.all().into_iter().filter(|p| self.fg(*p)).collect();
        if remaining.is_empty() {
            return None;
        }
        let mut frontier: BTreeSet<Idx3d> = remaining
            .iter()
            .copied()
            .filter(|p| self.around(*p, true, true).iter().any(|q| !self.fg(*q)))
            .collect();
        let (h_um, z_um) = (u64::from(self.pix_dim[1]), u64::from(self.pix_dim[2]));
        let (step, barrier, along_z) = if anisotropic && h_um > z_um {
            (z_um, h_um, true)
        } else if anisotropic && z_um > h_um {
            (h_um, z_um, false)
        } else {
            (1, 1, true)
        };
        let mut cur = 0u64;
        let mut eroded = 0u64;
        for _ in 0..100_000 {
            cur += step;
            let full = cur >= barrier;
            if full {
                cur -= barrier;
            }
            let gone: BTreeSet<Idx3d> = frontier
                .iter()
                .copied()
                .filter(|p| {
                    full || !self
                        .around(*p, along_z, !along_z)
                        .iter()
                        .all(|q| remaining.contains(q))
                })
                .collect();
            if gone.len() == remaining.len() {
                return Some((*gone.iter().next().unwrap(), eroded, gone.len() as u64));
            }
            let left: BTreeSet<Idx3d> = remaining.difference(&gone).copied().collect();
            let mut next: BTreeSet<Idx3d> = frontier.difference(&gone).copied().collect();
            for g in gone.iter() {
                for q in self.around(*g, true, true) {
                    if left.contains(&q) {
                        next.insert(q);
                    }
                }
            }
            eroded += gone.len() as u64;
            remaining = left;
            frontier = next;
        }
        None
    }

    fn roi(&self, c: Idx3d, radius: u64, include_tumor: bool, planar: bool) -> Vec<Idx3d> {
        let hm = u128::from(self.pix_dim[1]);
        let zm = u128::from(self.pix_dim[2]);
        let r2 = u128::from(radius) * u128::from(radius);
        self.all()
            .into_iter()
            .filter(|p| !planar || p.0 == c.0)
            .filter(|p| {
                let l = self.at(*p);
                l == 1 || (include_tumor && l == 2)
            })
            .filter(|p| {
                let dz = p.0.abs_diff(c.0) as u128;
                let dh = p.1.abs_diff(c.1) as u128;
                let dw = p.2.abs_diff(c.2) as u128;
                (dh * dh + dw * dw) * hm * hm + dz * dz * zm * zm <= r2
            })
            .collect()
    }
}

struct Dice(u64);

impl Dice {
    fn roll(&mut self, sides: u64) -> u64 {
        self.0 = self.0.wrapping_mul(6364136223846793005).wrapping_add(1442695040888963407);
        (self.0 >> 33) % sides
    }
}

/// A volume with a few boxes of liver and tumor in it.
fn scattered(dice: &mut Dice) -> Plain {
    scattered_with(dice, 3)
}

/// A volume with a few boxes in it, whose labels lie between 1 and `kinds`.
fn scattered_with(dice: &mut Dice, kinds: u64) -> Plain {
    let shape = (
        2 + dice.roll(7) as usize,
        2 + dice.roll(9) as usize,
        2 + dice.roll(9) as usize,
    );
    let mut labels = vec![0u8; shape.0 * shape.1 * shape.2];
    for _ in 0..1 + dice.roll(4) {
        let label = 1 + dice.roll(kinds) as u8;
        let lo = (
            dice.roll(shape.0 as u64) as usize,
            dice.roll(shape.1 as u64) as usize,
            dice.roll(shape.2 as u64) as usize,
        );
        let hi = (
            (lo.0 + dice.roll(5) as usize).min(shape.0 - 1),
            (lo.1 + dice.roll(6) as usize).min(shape.1 - 1),
            (lo.2 + dice.roll(6) as usize).min(shape.2 - 1),
        );
        for z in lo.0..=hi.0 {
            for h in lo.1..=hi.1 {
                for w in lo.2..=hi.2 {
                    labels[(z * shape.1 + h) * shape.2 + w] = label;
                }
            }
        }
    }
    let side = 1 + dice.roll(5) as u32;
    let gap = 1 + dice.roll(5) as u32;
    Plain { shape, labels, pix_dim: [side, side, gap] }
}

#[test]
fn peeling_agrees_with_the_rounds_told_by_sets() {
    let mut dice = Dice(20240229);
    for _ in 0..300 {
        let plain = scattered(&mut dice);
        let label = CtLabel::new(plain.shape, plain.labels.clone(), plain.pix_dim, 0, None).unwrap();
        for anisotropic in [false, true] {
            let found = label.erosion(anisotropic).map(|e| (e.center, e.eroded, e.last));
            assert_eq!(found, plain.center(anisotropic));
            assert_eq!(label.center(anisotropic), found.map(|f| f.0));
        }
    }
}

#[test]
fn regions_agree_with_the_distances_of_all_voxels() {
    let mut dice = Dice(77);
    for _ in 0..200 {
        let plain = scattered(&mut dice);
        let label = CtLabel::new(plain.shape, plain.labels.clone(), plain.pix_dim, 0, None).unwrap();
        let c = (
            dice.roll(plain.shape.0 as u64) as usize,
            dice.roll(plain.shape.1 as u64) as usize,
            dice.roll(plain.shape.2 as u64) as usize,
        );
        let radius = dice.roll(12);
        for include_tumor in [false, true] {
            let mut found = RoiGenerator::new(&label, &c).extract_roi_3d(radius, include_tumor);
            found.sort();
            assert_eq!(found, plain.roi(c, radius, include_tumor, false));
            let mut flat = RoiGenerator::new(&label, &c).extract_roi_2d(radius, include_tumor);
            flat.sort();
            let expected: Vec<(usize, usize)> = plain
                .roi(c, radius, include_tumor, true)
                .into_iter()
                .map(|p| (p.1, p.2))
                .collect();
            assert_eq!(flat, expected);
        }
    }
}

/// The records of a peeling, kept in hash tables.
struct Records {
    visited: HashSet<Idx3d>,
    data: HashMap<Idx3d, bool>,
    surf1: HashSet<Idx3d>,
    surf2: HashSet<Idx3d>,
}

/// The peeling carried out step by step on hash tables, candidate by
/// candidate in the order in which the tables hand them out.
fn stepwise_center(plain: &Plain, anisotropic: bool) -> Option<Idx3d> {
    let mut db = Records {
        visited: HashSet::new(),
        data: HashMap::new(),
        surf1: HashSet::new(),
        surf2: HashSet::new(),
    };
    let mut vox_cnt = 0usize;
    for pos in plain.all() {
        if !plain.fg(pos) {
            continue;
        }
        vox_cnt += 1;
        db.data.insert(pos, true);
        let mut is_surface = false;
        for n in plain.around(pos, true, true) {
            if plain.at(n) == 0 {
                is_surface = true;
                db.data.insert(n, false);
            }
        }
        if is_surface {
            db.surf1.insert(pos);
        }
    }
    if vox_cnt == 0 {
        return None;
    }
    let (h_um, z_um) = (u64::from(plain.pix_dim[1]), u64::from(plain.pix_dim[2]));
    let (step, barrier, along_z) = if anisotropic && h_um > z_um {
        (z_um, h_um, true)
    } else if anisotropic && z_um > h_um {
        (h_um, z_um, false)
    } else {
        (1, 1, true)
    };
    let mut cur_step = 0u64;
    for _ in 0..100_000 {
        cur_step += step;
        let fpos_set = std::mem::take(&mut db.surf1);
        let mut to_erode = vec![];
        let full = cur_step >= barrier;
        for fpos in fpos_set.iter().copied() {
            if db.visited.contains(&fpos) {
                continue;
            }
            if !full && plain.around(fpos, along_z, !along_z).iter().all(|p| db.data[p]) {
                db.surf2.insert(fpos);
                continue;
            }
            db.visited.insert(fpos);
            to_erode.push(fpos);
            for dia in plain.around(fpos, true, true) {
                if !db.visited.contains(&dia) && db.data[&dia] {
                    db.surf2.insert(dia);
                }
            }
        }
        if full {
            cur_step -= barrier;
        }
        if to_erode.len() == vox_cnt {
            return to_erode.iter().min().copied();
        }
        for pos in to_erode.iter() {
            db.data.insert(*pos, false);
        }
        vox_cnt -= to_erode.len();
        db.surf1.clear();
        std::mem::swap(&mut db.surf1, &mut db.surf2);
    }
    None
}

#[test]
fn peeling_agrees_with_the_steps_on_hash_tables() {
    let mut dice = Dice(314159);
    for _ in 0..300 {
        let plain = scattered_with(&mut dice, 2);
        let label = CtLabel::new(plain.shape, plain.labels.clone(), plain.pix_dim, 0, None).unwrap();
        for anisotropic in [false, true] {
            assert_eq!(label.center(anisotropic), stepwise_center(&plain, anisotropic));
        }
    }
}
