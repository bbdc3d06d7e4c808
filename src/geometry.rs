//! Points and boxes on the ground plane.
//!
//! Every position the clipmap produces lies on a half-unit lattice, so each
//! coordinate is stored doubled and all arithmetic stays exact.
use vstd::prelude::*;

verus! {

/// A point on the ground plane (height zero), both coordinates doubled.
#[derive(Clone, Copy, Debug, PartialEq, Eq, Structural)]
pub struct HalfPoint {
    pub x2: i64,
    pub z2: i64,
}

/// The point `(x, z)` in world units, stored doubled.
pub open spec fn half_point(x: int, z: int) -> HalfPoint {
    HalfPoint { x2: (2 * x) as i64, z2: (2 * z) as i64 }
}

/// An axis-aligned box over the ground plane, in doubled units.
#[derive(Clone, Copy, Debug, PartialEq, Eq, Structural)]
pub struct Bounds {
    pub min_x2: i64,
    pub min_z2: i64,
    pub max_x2: i64,
    pub max_z2: i64,
}

impl Bounds {
    pub open spec fn contains(self, p: HalfPoint) -> bool {
        self.min_x2 <= p.x2 <= self.max_x2 && self.min_z2 <= p.z2 <= self.max_z2
    }

    /// The smallest box that holds `self` and `p`.
    pub open spec fn expanded(self, p: HalfPoint) -> Bounds {
        Bounds {
            min_x2: if p.x2 < self.min_x2 { p.x2 } else { self.min_x2 },
            min_z2: if p.z2 < self.min_z2 { p.z2 } else { self.min_z2 },
            max_x2: if p.x2 > self.max_x2 { p.x2 } else { self.max_x2 },
            max_z2: if p.z2 > self.max_z2 { p.z2 } else { self.max_z2 },
        }
    }

    /// Grows the box just enough to hold `p`.
    pub fn expand(&mut self, p: HalfPoint)
        ensures
            *final(self) == old(self).expanded(p),
    {
        if p.x2 < self.min_x2 {
            self.min_x2 = p.x2;
        }
        if p.z2 < self.min_z2 {
            self.min_z2 = p.z2;
        }
        if p.x2 > self.max_x2 {
            self.max_x2 = p.x2;
        }
        if p.z2 > self.max_z2 {
            self.max_z2 = p.z2;
        }
    }
}

/// `b` grown by every point of `ps`, in order.
pub open spec fn hull(b: Bounds, ps: Seq<HalfPoint>) -> Bounds
    decreases ps.len(),
{
    if ps.len() == 0 {
        b
    } else {
        hull(b, ps.drop_last()).expanded(ps.last())
    }
}

/// Grows `b` by every point of `ps`.
pub fn expand_over(b: Bounds, ps: &Vec<HalfPoint>) -> (r: Bounds)
    ensures
        r == hull(b, ps@),
{
    let mut r = b;
    let mut i: usize = 0;
    while i < ps.len()
        invariant
            i <= ps@.len(),
            r == hull(b, ps@.take(i as int)),
        decreases ps@.len() - i,
    {
        proof {
            assert(ps@.take(i as int + 1).drop_last() =~= ps@.take(i as int));
        }
        r.expand(ps[i]);
        i += 1;
    }
    proof {
        assert(ps@.take(ps@.len() as int) =~= ps@);
    }
    r
}

/// Whether the box holds every point of `ps`.
pub open spec fn contains_all(b: Bounds, ps: Seq<HalfPoint>) -> bool {
    forall|i: int| 0 <= i < ps.len() ==> #[trigger] b.contains(ps[i])
}

/// A grown box holds the box it grew from and every point it grew by.
pub proof fn lemma_hull_contains(b: Bounds, ps: Seq<HalfPoint>)
    requires
        b.min_x2 <= b.max_x2,
        b.min_z2 <= b.max_z2,
    ensures
        contains_all(hull(b, ps), ps),
        hull(b, ps).min_x2 <= b.min_x2,
        hull(b, ps).min_z2 <= b.min_z2,
        hull(b, ps).max_x2 >= b.max_x2,
        hull(b, ps).max_z2 >= b.max_z2,
    decreases ps.len(),
{
    if ps.len() > 0 {
        lemma_hull_contains(b, ps.drop_last());
        assert forall|i: int| 0 <= i < ps.len() implies #[trigger] hull(b, ps).contains(ps[i]) by {
            if i < ps.len() - 1 {
                assert(ps.drop_last()[i] == ps[i]);
                assert(hull(b, ps.drop_last()).contains(ps.drop_last()[i]));
            }
        }
    }
}

} // verus!
