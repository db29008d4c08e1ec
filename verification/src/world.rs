//! The world: a fixed light angle, a bounded collection of inhabitants, and
//! the shadows they throw — with the merged total of all covered ground.

use vstd::prelude::*;

use crate::error::InputError;
use crate::flatlander::{Flatlander, MAX_H, MAX_X, MIN_H, MIN_X};
use crate::merge::{
    lemma_map_values_multiset, lemma_total_len_permutation, merged_total, sort_shadows,
    spec_total_len, sweep, SpecTotal,
};
use crate::shadow::{
    end_max, lemma_projection_bounds, lemma_shadow_order_total, lemma_tan_num_range, shadow_order,
    spec_project, spec_tan_num, tan_num, Shadow, ShadowEnd, TAN_DEN,
};

verus! {

/// Lowest admissible light angle, in degrees above the horizon.
pub const MIN_ANG: i32 = 10;

/// Highest admissible light angle, in degrees above the horizon.
pub const MAX_ANG: i32 = 80;

/// Lowest admissible capacity.
pub const MIN_FLATLANDERS: u32 = 1;

/// Highest admissible capacity.
pub const MAX_FLATLANDERS: u32 = 100_000;

/// A total covered ground length, as the exact fraction `num / den`, or
/// infinite when some shadow reaches to infinity.
#[derive(Debug, Clone, Copy, PartialEq, Eq, Structural)]
pub enum ShadowLen {
    Finite { num: u64, den: u64 },
    Infinite,
}

/// Projection of inhabitants under the world's own light: the tangent comes
/// from the fixed-point table for the world's angle.
pub open spec fn world_projection(ang: int) -> spec_fn(Flatlander) -> Shadow {
    |f: Flatlander| spec_project(f, spec_tan_num(ang), TAN_DEN as int)
}

/// The world: a validated light angle and capacity, the inhabitants in
/// arrival order, and — index for index — the shadows they throw.
#[derive(Debug)]
pub struct World {
    light_ang: i32,
    flatlanders: Vec<Flatlander>,
    shadows: Vec<Shadow>,
    capacity: u32,
}

impl World {
    /// The light angle, in degrees.
    pub closed spec fn angle(self) -> int {
        self.light_ang as int
    }

    /// The largest number of inhabitants this world accepts.
    pub closed spec fn cap(self) -> int {
        self.capacity as int
    }

    /// The stored inhabitants, in arrival order.
    pub closed spec fn flatlanders_seq(self) -> Seq<Flatlander> {
        self.flatlanders@
    }

    /// The stored shadows, aligned index for index with the inhabitants.
    pub closed spec fn shadows_seq(self) -> Seq<Shadow> {
        self.shadows@
    }

    /// The world's invariant: angle and capacity are in range, the collection
    /// respects the capacity, every inhabitant is valid, and the shadows are
    /// exactly the projections of the inhabitants under the world's light.
    pub open spec fn wf(self) -> bool {
        &&& MIN_ANG <= self.angle() <= MAX_ANG
        &&& MIN_FLATLANDERS <= self.cap() <= MAX_FLATLANDERS
        &&& self.flatlanders_seq().len() <= self.cap()
        &&& forall|i: int|
            0 <= i < self.flatlanders_seq().len() ==> (#[trigger] self.flatlanders_seq()[i]).wf()
        &&& self.shadows_seq() == self.flatlanders_seq().map_values(world_projection(self.angle()))
    }

    /// Creates an empty world, accepting exactly the angles in
    /// `[MIN_ANG, MAX_ANG]` degrees and the capacities in
    /// `[MIN_FLATLANDERS, MAX_FLATLANDERS]`; anything else is rejected with
    /// `OutOfRange`.
    pub fn new(ang: i32, capacity: u32) -> (r: Result<World, InputError>)
        ensures
            r is Ok <==> (MIN_ANG <= ang <= MAX_ANG && MIN_FLATLANDERS <= capacity
                <= MAX_FLATLANDERS),
            r matches Ok(w) ==> w.wf() && w.angle() == ang && w.cap() == capacity
                && w.flatlanders_seq() == Seq::<Flatlander>::empty() && w.shadows_seq()
                == Seq::<Shadow>::empty(),
            r matches Err(e) ==> e == InputError::OutOfRange,
    {
        if ang < MIN_ANG || ang > MAX_ANG {
            return Err(InputError::OutOfRange);
        }
        if capacity < MIN_FLATLANDERS || capacity > MAX_FLATLANDERS {
            return Err(InputError::OutOfRange);
        }
        let w = World { light_ang: ang, flatlanders: Vec::new(), shadows: Vec::new(), capacity };
        proof {
            assert(w.flatlanders_seq() =~= Seq::<Flatlander>::empty());
            assert(w.shadows_seq() =~= Seq::<Shadow>::empty());
            assert(w.flatlanders_seq().map_values(world_projection(w.angle()))
                =~= Seq::<Shadow>::empty());
        }
        Ok(w)
    }

    /// Adds one inhabitant and its freshly projected shadow. Fails with
    /// `OutOfRange` — leaving the world untouched — when the world is already
    /// at capacity or when the pair is out of bounds; succeeds exactly
    /// otherwise, appending the inhabitant and its shadow.
    pub fn add_flatlander(&mut self, x: i32, hight: u32) -> (r: Result<(), InputError>)
        requires
            old(self).wf(),
        ensures
            final(self).wf(),
            final(self).angle() == old(self).angle(),
            final(self).cap() == old(self).cap(),
            r is Ok <==> (old(self).flatlanders_seq().len() < old(self).cap() && MIN_X <= x
                <= MAX_X && MIN_H <= hight <= MAX_H),
            r matches Ok(_) ==> ({
                &&& final(self).flatlanders_seq().len() == old(self).flatlanders_seq().len() + 1
                &&& final(self).flatlanders_seq().drop_last() == old(self).flatlanders_seq()
                &&& final(self).flatlanders_seq().last().pos() == x
                &&& final(self).flatlanders_seq().last().hight_spec() == hight
                &&& final(self).shadows_seq() == old(self).shadows_seq().push(
                    spec_project(
                        final(self).flatlanders_seq().last(),
                        spec_tan_num(old(self).angle()),
                        TAN_DEN as int,
                    ),
                )
            }),
            r matches Err(e) ==> e == InputError::OutOfRange && *final(self) == *old(self),
    {
        if self.flatlanders.len() >= self.capacity as usize {
            return Err(InputError::OutOfRange);
        }
        match Flatlander::new(x, hight) {
            Ok(flat) => {
                let tn = tan_num(self.light_ang);
                let shadow = Shadow::new(&flat, tn, TAN_DEN);
                self.shadows.push(shadow);
                self.flatlanders.push(flat);
                proof {
                    let g = world_projection(self.angle());
                    assert(old(self).flatlanders_seq().push(flat).map_values(g)
                        =~= old(self).flatlanders_seq().map_values(g).push(shadow));
                    assert(self.flatlanders_seq().drop_last() =~= old(self).flatlanders_seq());
                }
                Ok(())
            },
            Err(err) => Err(err),
        }
    }

    /// The number of inhabitants added so far.
    pub fn len_flatlanders(&self) -> (r: u32)
        requires
            self.wf(),
        ensures
            r == self.flatlanders_seq().len(),
    {
        self.flatlanders.len() as u32
    }

    /// Every shadow of a well-formed world is a finite interval of strictly
    /// positive scaled length at nonnegative coordinates.
    proof fn lemma_shadow_bounds(self)
        requires
            self.wf(),
        ensures
            forall|i: int|
                0 <= i < self.shadows_seq().len() ==> shadow_in_bounds(
                    #[trigger] self.shadows_seq()[i],
                ),
    {
        assert forall|i: int|
            0 <= i < self.shadows_seq().len() implies shadow_in_bounds(
            #[trigger] self.shadows_seq()[i],
        ) by {
            let f = self.flatlanders_seq()[i];
            lemma_tan_num_range(self.angle());
            lemma_projection_bounds(f, spec_tan_num(self.angle()), TAN_DEN as int);
            assert(self.shadows_seq()[i] == spec_project(
                f,
                spec_tan_num(self.angle()),
                TAN_DEN as int,
            ));
        }
    }

    /// Computes the total ground length covered by the union of all stored
    /// shadows, as the exact fraction of the result over the world's scaled
    /// tangent: overlapping shadows are merged by the sweep of `merged_total`
    /// and counted once. The world itself is left exactly as it was, so
    /// repeated calls return the same value.
    pub fn total_shadows_len(&mut self) -> (r: ShadowLen)
        requires
            old(self).wf(),
        ensures
            *final(self) == *old(self),
            ({
                let t = spec_total_len(old(self).shadows_seq());
                match r {
                    ShadowLen::Finite { num, den } => t == SpecTotal::Finite(num as int) && den
                        == spec_tan_num(old(self).angle()),
                    ShadowLen::Infinite => t == SpecTotal::Infinite,
                }
            }),
            r is Finite,
            old(self).flatlanders_seq().len() == 0 ==> (r matches ShadowLen::Finite { num, den }
                && num == 0),
    {
        let tn = tan_num(self.light_ang);
        if self.shadows.len() == 0 {
            proof {
                lemma_shadow_order_total();
                self.shadows@.lemma_sort_by_ensures(shadow_order());
                broadcast use vstd::seq_lib::group_to_multiset_ensures;

                let srt = self.shadows@.sort_by(shadow_order());
                assert(srt.to_multiset().len() == srt.len());
                assert(self.shadows@.to_multiset().len() == self.shadows@.len());
                assert(srt.len() == 0);
            }
            return ShadowLen::Finite { num: 0, den: tn as u64 };
        }
        let sorted = sort_shadows(&self.shadows);
        proof {
            broadcast use vstd::seq_lib::group_to_multiset_ensures;

            self.lemma_shadow_bounds();
            assert(sorted@.to_multiset().len() == sorted@.len());
            assert(self.shadows@.to_multiset().len() == self.shadows@.len());
            assert(sorted@.len() == self.shadows@.len());
            assert forall|i: int| 0 <= i < sorted@.len() implies shadow_in_bounds(
                #[trigger] sorted@[i],
            ) by {
                assert(sorted@.contains(sorted@[i]));
                assert(sorted@.to_multiset().count(sorted@[i]) > 0);
                assert(self.shadows@.contains(sorted@[i]));
                let j = choose|j: int|
                    0 <= j < self.shadows@.len() && self.shadows@[j] == sorted@[i];
                assert(shadow_in_bounds(self.shadows@[j]));
            }
        }
        let first = sorted[0];
        let mut cur_start: i64 = first.start;
        let mut cur_end: i64 = match first.end {
            ShadowEnd::Fin(e) => e,
            ShadowEnd::Inf => {
                proof {
                    assert(false);
                }
                0
            },
        };
        let mut acc: u64 = 0;
        let mut i: usize = 1;
        while i < sorted.len()
            invariant
                1 <= i <= sorted@.len(),
                forall|k: int| 0 <= k < sorted@.len() ==> shadow_in_bounds(#[trigger] sorted@[k]),
                0 <= cur_start <= cur_end,
                acc <= cur_start,
                merged_total(sorted@) == sweep(
                    sorted@,
                    i as int,
                    cur_start as int,
                    ShadowEnd::Fin(cur_end),
                    acc as int,
                ),
            decreases sorted@.len() - i,
        {
            let s = sorted[i];
            let e = match s.end {
                ShadowEnd::Fin(e) => e,
                ShadowEnd::Inf => {
                    proof {
                        assert(false);
                    }
                    0
                },
            };
            let ghost prev_end = cur_end;
            if s.start <= cur_end {
                if e > cur_end {
                    cur_end = e;
                }
                proof {
                    assert(end_max(ShadowEnd::Fin(prev_end), s.end) == ShadowEnd::Fin(cur_end));
                }
            } else {
                let piece = cur_end - cur_start;
                acc = acc + (piece as u64);
                cur_start = s.start;
                cur_end = e;
            }
            i += 1;
        }
        let piece = cur_end - cur_start;
        let num = acc + (piece as u64);
        ShadowLen::Finite { num, den: tn as u64 }
    }
}

/// A shadow whose interval is finite, of strictly positive scaled length,
/// and at nonnegative coordinates — as every shadow of a well-formed world is.
pub open spec fn shadow_in_bounds(s: Shadow) -> bool {
    &&& 0 <= s.start
    &&& s.end matches ShadowEnd::Fin(e) && s.start < e
}

/// A world holding exactly one inhabitant covers exactly that inhabitant's
/// own shadow length — strictly positive: the height times the tangent
/// scale, over the world's scaled tangent as denominator.
pub proof fn lemma_total_one_inhabitant(w: World)
    requires
        w.wf(),
        w.flatlanders_seq().len() == 1,
    ensures
        spec_total_len(w.shadows_seq()) == SpecTotal::Finite(
            w.flatlanders_seq()[0].hight_spec() * (TAN_DEN as int),
        ),
        w.flatlanders_seq()[0].hight_spec() * (TAN_DEN as int) > 0,
{
    broadcast use vstd::seq_lib::group_to_multiset_ensures;

    let f = w.flatlanders_seq()[0];
    lemma_tan_num_range(w.angle());
    lemma_projection_bounds(f, spec_tan_num(w.angle()), TAN_DEN as int);
    let s = w.shadows_seq()[0];
    assert(w.shadows_seq().len() == 1);
    assert(s == spec_project(f, spec_tan_num(w.angle()), TAN_DEN as int));
    lemma_shadow_order_total();
    let ord = shadow_order();
    w.shadows_seq().lemma_sort_by_ensures(ord);
    let srt = w.shadows_seq().sort_by(ord);
    assert(srt.to_multiset().len() == srt.len());
    assert(w.shadows_seq().to_multiset().len() == 1);
    assert(srt.len() == 1);
    assert(srt.contains(srt[0]));
    assert(srt.to_multiset().count(srt[0]) > 0);
    assert(w.shadows_seq().contains(srt[0]));
    assert(srt[0] == s);
    assert(merged_total(srt) == sweep(srt, 1, s.start as int, s.end, 0));
    assert(s.end matches ShadowEnd::Fin(e) && sweep(srt, 1, s.start as int, s.end, 0)
        == SpecTotal::Finite(e - s.start));
}

/// The world's covered total does not depend on the order in which its
/// inhabitants arrived: two worlds under the same light, holding the same
/// inhabitants in any two orders, cover the same total.
pub proof fn lemma_total_insertion_order(w1: World, w2: World)
    requires
        w1.wf(),
        w2.wf(),
        w1.angle() == w2.angle(),
        w1.flatlanders_seq().to_multiset() == w2.flatlanders_seq().to_multiset(),
    ensures
        spec_total_len(w1.shadows_seq()) == spec_total_len(w2.shadows_seq()),
{
    lemma_map_values_multiset(
        w1.flatlanders_seq(),
        w2.flatlanders_seq(),
        world_projection(w1.angle()),
    );
    lemma_total_len_permutation(w1.shadows_seq(), w2.shadows_seq());
}

} // verus!
