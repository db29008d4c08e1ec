//! Shadow projection: an inhabitant and a light direction give a closed
//! interval on the ground line.
//!
//! The light direction enters as the tangent of its elevation angle, written
//! as an exact fraction `tan_num / tan_den`. An inhabitant at position `p`
//! with height `h` throws a shadow of ground reach `h / (tan_num / tan_den)`;
//! the interval is normalized so that its start never exceeds its end, and a
//! tangent of exactly zero throws a shadow to positive infinity.
//!
//! To keep every quantity an integer, a shadow stores its endpoints scaled by
//! its own positive denominator `den`: the interval covered on the ground is
//! `[start / den, end / den]`. All shadows produced with one and the same
//! tangent share one `den`, so they compare and merge by their scaled
//! endpoints alone.

use vstd::prelude::*;
use vstd::relations::total_ordering;

use crate::flatlander::Flatlander;

verus! {

/// Fixed-point scale of the tangent table: nine decimal digits.
pub const TAN_DEN: u64 = 1_000_000_000;

/// The tangent of `deg` degrees, scaled by `TAN_DEN` and rounded to the
/// nearest integer, for the world's admissible angles; zero outside them.
pub open spec fn spec_tan_num(deg: int) -> int {
    if deg == 10 { 176_326_981 }
    else if deg == 11 { 194_380_309 }
    else if deg == 12 { 212_556_562 }
    else if deg == 13 { 230_868_191 }
    else if deg == 14 { 249_328_003 }
    else if deg == 15 { 267_949_192 }
    else if deg == 16 { 286_745_386 }
    else if deg == 17 { 305_730_681 }
    else if deg == 18 { 324_919_696 }
    else if deg == 19 { 344_327_613 }
    else if deg == 20 { 363_970_234 }
    else if deg == 21 { 383_864_035 }
    else if deg == 22 { 404_026_226 }
    else if deg == 23 { 424_474_816 }
    else if deg == 24 { 445_228_685 }
    else if deg == 25 { 466_307_658 }
    else if deg == 26 { 487_732_589 }
    else if deg == 27 { 509_525_449 }
    else if deg == 28 { 531_709_432 }
    else if deg == 29 { 554_309_051 }
    else if deg == 30 { 577_350_269 }
    else if deg == 31 { 600_860_619 }
    else if deg == 32 { 624_869_352 }
    else if deg == 33 { 649_407_593 }
    else if deg == 34 { 674_508_517 }
    else if deg == 35 { 700_207_538 }
    else if deg == 36 { 726_542_528 }
    else if deg == 37 { 753_554_050 }
    else if deg == 38 { 781_285_627 }
    else if deg == 39 { 809_784_033 }
    else if deg == 40 { 839_099_631 }
    else if deg == 41 { 869_286_738 }
    else if deg == 42 { 900_404_044 }
    else if deg == 43 { 932_515_086 }
    else if deg == 44 { 965_688_775 }
    else if deg == 45 { 1_000_000_000 }
    else if deg == 46 { 1_035_530_314 }
    else if deg == 47 { 1_072_368_710 }
    else if deg == 48 { 1_110_612_515 }
    else if deg == 49 { 1_150_368_407 }
    else if deg == 50 { 1_191_753_593 }
    else if deg == 51 { 1_234_897_157 }
    else if deg == 52 { 1_279_941_632 }
    else if deg == 53 { 1_327_044_822 }
    else if deg == 54 { 1_376_381_920 }
    else if deg == 55 { 1_428_148_007 }
    else if deg == 56 { 1_482_560_969 }
    else if deg == 57 { 1_539_864_964 }
    else if deg == 58 { 1_600_334_529 }
    else if deg == 59 { 1_664_279_482 }
    else if deg == 60 { 1_732_050_808 }
    else if deg == 61 { 1_804_047_755 }
    else if deg == 62 { 1_880_726_465 }
    else if deg == 63 { 1_962_610_506 }
    else if deg == 64 { 2_050_303_842 }
    else if deg == 65 { 2_144_506_921 }
    else if deg == 66 { 2_246_036_774 }
    else if deg == 67 { 2_355_852_366 }
    else if deg == 68 { 2_475_086_853 }
    else if deg == 69 { 2_605_089_065 }
    else if deg == 70 { 2_747_477_419 }
    else if deg == 71 { 2_904_210_878 }
    else if deg == 72 { 3_077_683_537 }
    else if deg == 73 { 3_270_852_618 }
    else if deg == 74 { 3_487_414_444 }
    else if deg == 75 { 3_732_050_808 }
    else if deg == 76 { 4_010_780_934 }
    else if deg == 77 { 4_331_475_874 }
    else if deg == 78 { 4_704_630_109 }
    else if deg == 79 { 5_144_554_016 }
    else if deg == 80 { 5_671_281_820 }
    else { 0 }
}

/// Looks up the scaled tangent of an admissible angle.
pub fn tan_num(deg: i32) -> (r: i64)
    requires
        10 <= deg <= 80,
    ensures
        r == spec_tan_num(deg as int),
        176_326_981 <= r <= 5_671_281_820,
{
    if deg == 10 { 176_326_981 }
    else if deg == 11 { 194_380_309 }
    else if deg == 12 { 212_556_562 }
    else if deg == 13 { 230_868_191 }
    else if deg == 14 { 249_328_003 }
    else if deg == 15 { 267_949_192 }
    else if deg == 16 { 286_745_386 }
    else if deg == 17 { 305_730_681 }
    else if deg == 18 { 324_919_696 }
    else if deg == 19 { 344_327_613 }
    else if deg == 20 { 363_970_234 }
    else if deg == 21 { 383_864_035 }
    else if deg == 22 { 404_026_226 }
    else if deg == 23 { 424_474_816 }
    else if deg == 24 { 445_228_685 }
    else if deg == 25 { 466_307_658 }
    else if deg == 26 { 487_732_589 }
    else if deg == 27 { 509_525_449 }
    else if deg == 28 { 531_709_432 }
    else if deg == 29 { 554_309_051 }
    else if deg == 30 { 577_350_269 }
    else if deg == 31 { 600_860_619 }
    else if deg == 32 { 624_869_352 }
    else if deg == 33 { 649_407_593 }
    else if deg == 34 { 674_508_517 }
    else if deg == 35 { 700_207_538 }
    else if deg == 36 { 726_542_528 }
    else if deg == 37 { 753_554_050 }
    else if deg == 38 { 781_285_627 }
    else if deg == 39 { 809_784_033 }
    else if deg == 40 { 839_099_631 }
    else if deg == 41 { 869_286_738 }
    else if deg == 42 { 900_404_044 }
    else if deg == 43 { 932_515_086 }
    else if deg == 44 { 965_688_775 }
    else if deg == 45 { 1_000_000_000 }
    else if deg == 46 { 1_035_530_314 }
    else if deg == 47 { 1_072_368_710 }
    else if deg == 48 { 1_110_612_515 }
    else if deg == 49 { 1_150_368_407 }
    else if deg == 50 { 1_191_753_593 }
    else if deg == 51 { 1_234_897_157 }
    else if deg == 52 { 1_279_941_632 }
    else if deg == 53 { 1_327_044_822 }
    else if deg == 54 { 1_376_381_920 }
    else if deg == 55 { 1_428_148_007 }
    else if deg == 56 { 1_482_560_969 }
    else if deg == 57 { 1_539_864_964 }
    else if deg == 58 { 1_600_334_529 }
    else if deg == 59 { 1_664_279_482 }
    else if deg == 60 { 1_732_050_808 }
    else if deg == 61 { 1_804_047_755 }
    else if deg == 62 { 1_880_726_465 }
    else if deg == 63 { 1_962_610_506 }
    else if deg == 64 { 2_050_303_842 }
    else if deg == 65 { 2_144_506_921 }
    else if deg == 66 { 2_246_036_774 }
    else if deg == 67 { 2_355_852_366 }
    else if deg == 68 { 2_475_086_853 }
    else if deg == 69 { 2_605_089_065 }
    else if deg == 70 { 2_747_477_419 }
    else if deg == 71 { 2_904_210_878 }
    else if deg == 72 { 3_077_683_537 }
    else if deg == 73 { 3_270_852_618 }
    else if deg == 74 { 3_487_414_444 }
    else if deg == 75 { 3_732_050_808 }
    else if deg == 76 { 4_010_780_934 }
    else if deg == 77 { 4_331_475_874 }
    else if deg == 78 { 4_704_630_109 }
    else if deg == 79 { 5_144_554_016 }
    else if deg == 80 { 5_671_281_820 }
    else { 0 }
}

/// The scaled tangent is positive and bounded over the whole admissible range.
pub proof fn lemma_tan_num_range(deg: int)
    requires
        10 <= deg <= 80,
    ensures
        176_326_981 <= spec_tan_num(deg) <= 5_671_281_820,
{
}

/// The far endpoint of a shadow: a scaled coordinate, or positive infinity
/// for the degenerate horizontal-light case.
#[derive(Debug, Clone, Copy, PartialEq, Eq, Structural)]
pub enum ShadowEnd {
    Fin(i64),
    Inf,
}

/// A shadow interval on the ground line, covering `[start / den, end / den]`.
#[derive(Debug, Clone, Copy, PartialEq, Eq, Structural)]
pub struct Shadow {
    /// Near endpoint, scaled by `den`; always finite.
    pub start: i64,
    /// Far endpoint, scaled by `den`, or positive infinity.
    pub end: ShadowEnd,
    /// The positive scale that both endpoints are multiplied by.
    pub den: u64,
}

/// Order on far endpoints: finite values by magnitude, infinity above all.
pub open spec fn end_le(a: ShadowEnd, b: ShadowEnd) -> bool {
    match (a, b) {
        (ShadowEnd::Fin(x), ShadowEnd::Fin(y)) => x <= y,
        (ShadowEnd::Fin(_), ShadowEnd::Inf) => true,
        (ShadowEnd::Inf, ShadowEnd::Fin(_)) => false,
        (ShadowEnd::Inf, ShadowEnd::Inf) => true,
    }
}

/// Strict order on far endpoints.
pub open spec fn end_lt(a: ShadowEnd, b: ShadowEnd) -> bool {
    end_le(a, b) && a != b
}

/// The larger of two far endpoints.
pub open spec fn end_max(a: ShadowEnd, b: ShadowEnd) -> ShadowEnd {
    if end_le(a, b) {
        b
    } else {
        a
    }
}

/// The total order the merge sorts by: start ascending, ties by end
/// ascending, and last by the scale, so that equal orderings both ways
/// happen only between equal shadows.
pub open spec fn shadow_leq(a: Shadow, b: Shadow) -> bool {
    ||| a.start < b.start
    ||| (a.start == b.start && end_lt(a.end, b.end))
    ||| (a.start == b.start && a.end == b.end && a.den <= b.den)
}

/// `shadow_leq` as a first-class relation, for sorting.
pub open spec fn shadow_order() -> spec_fn(Shadow, Shadow) -> bool {
    |a: Shadow, b: Shadow| shadow_leq(a, b)
}

/// `shadow_order` is a total order, as sorting requires.
pub proof fn lemma_shadow_order_total()
    ensures
        total_ordering(shadow_order()),
{
    let leq = shadow_order();
    assert forall|a: Shadow, b: Shadow| #[trigger] leq(a, b) && #[trigger] leq(b, a) implies a
        == b by {
        assert(a.start == b.start && a.end == b.end && a.den == b.den);
    }
    assert forall|a: Shadow, b: Shadow| #[trigger] leq(a, b) || #[trigger] leq(b, a) by {
        if !(a.start < b.start) && !(b.start < a.start) {
            assert(a.start == b.start);
            if a.end == b.end {
                assert(a.den <= b.den || b.den <= a.den);
            } else {
                assert(end_le(a.end, b.end) || end_le(b.end, a.end));
            }
        }
    }
    assert forall|a: Shadow, b: Shadow, c: Shadow|
        #[trigger] leq(a, b) && #[trigger] leq(b, c) implies leq(a, c) by {
        if a.start == b.start && b.start == c.start {
            assert(end_le(a.end, b.end) && end_le(b.end, c.end) ==> end_le(a.end, c.end));
        }
    }
}

/// The shadow of an inhabitant under a light of tangent `tn / td`:
/// reach `h * td / tn` in scaled coordinates, the interval ordered so that
/// start never exceeds end, and a zero tangent reaching positive infinity.
pub open spec fn spec_project(f: Flatlander, tn: int, td: int) -> Shadow {
    if tn > 0 {
        Shadow {
            start: (f.pos() * tn) as i64,
            end: ShadowEnd::Fin((f.pos() * tn + f.hight_spec() * td) as i64),
            den: tn as u64,
        }
    } else if tn < 0 {
        Shadow {
            start: (f.pos() * (-tn) - f.hight_spec() * td) as i64,
            end: ShadowEnd::Fin((f.pos() * (-tn)) as i64),
            den: (-tn) as u64,
        }
    } else {
        Shadow { start: (f.pos() * td) as i64, end: ShadowEnd::Inf, den: td as u64 }
    }
}

impl Shadow {
    /// The start lies at or before the end, and the scale is positive.
    pub open spec fn wf(self) -> bool {
        &&& 1 <= self.den
        &&& match self.end {
            ShadowEnd::Fin(e) => self.start <= e,
            ShadowEnd::Inf => true,
        }
    }

    /// Projects the shadow that `flatlander` throws under a light whose
    /// elevation has tangent `tan_num / tan_den`. A negative tangent throws
    /// the shadow backwards and the interval is normalized; a zero tangent
    /// yields an infinite shadow. The bounds on the tangent keep every
    /// scaled endpoint representable.
    pub fn new(flatlander: &Flatlander, tan_num: i64, tan_den: u64) -> (s: Shadow)
        requires
            flatlander.wf(),
            -10_000_000_000 <= tan_num <= 10_000_000_000,
            1 <= tan_den <= 1_000_000_000,
        ensures
            s == spec_project(*flatlander, tan_num as int, tan_den as int),
            s.wf(),
            tan_num == 0 <==> s.end is Inf,
    {
        let xi = flatlander.get_pos() as i64;
        let hi = flatlander.get_hight() as i64;
        let td = tan_den as i64;
        proof {
            assert(1 <= hi * td <= 1_000_000_000_000) by (nonlinear_arith)
                requires
                    1 <= hi <= 1000,
                    1 <= td <= 1_000_000_000,
            ;
        }
        if tan_num > 0 {
            proof {
                assert(0 <= xi * tan_num <= 3_000_000_000_000_000) by (nonlinear_arith)
                    requires
                        0 <= xi <= 300_000,
                        0 < tan_num <= 10_000_000_000,
                ;
            }
            let start = xi * tan_num;
            let end = start + hi * td;
            Shadow { start, end: ShadowEnd::Fin(end), den: tan_num as u64 }
        } else if tan_num < 0 {
            let scale = -tan_num;
            proof {
                assert(0 <= xi * scale <= 3_000_000_000_000_000) by (nonlinear_arith)
                    requires
                        0 <= xi <= 300_000,
                        0 < scale <= 10_000_000_000,
                ;
            }
            let far = xi * scale;
            let start = far - hi * td;
            Shadow { start, end: ShadowEnd::Fin(far), den: scale as u64 }
        } else {
            proof {
                assert(0 <= xi * td <= 300_000_000_000_000) by (nonlinear_arith)
                    requires
                        0 <= xi <= 300_000,
                        1 <= td <= 1_000_000_000,
                ;
            }
            Shadow { start: xi * td, end: ShadowEnd::Inf, den: tan_den }
        }
    }

    /// Compares two shadows for sorting: by start, ties by end, under a
    /// total order in which an infinite end sits above every finite one.
    pub fn compare(a: &Self, b: &Self) -> (r: core::cmp::Ordering)
        ensures
            r == core::cmp::Ordering::Less <==> (a.start < b.start || (a.start == b.start
                && end_lt(a.end, b.end))),
            r == core::cmp::Ordering::Greater <==> (b.start < a.start || (a.start == b.start
                && end_lt(b.end, a.end))),
            r == core::cmp::Ordering::Equal <==> (a.start == b.start && a.end == b.end),
    {
        if a.start < b.start {
            core::cmp::Ordering::Less
        } else if b.start < a.start {
            core::cmp::Ordering::Greater
        } else {
            match (a.end, b.end) {
                (ShadowEnd::Fin(x), ShadowEnd::Fin(y)) => {
                    if x < y {
                        core::cmp::Ordering::Less
                    } else if y < x {
                        core::cmp::Ordering::Greater
                    } else {
                        core::cmp::Ordering::Equal
                    }
                },
                (ShadowEnd::Fin(_), ShadowEnd::Inf) => core::cmp::Ordering::Less,
                (ShadowEnd::Inf, ShadowEnd::Fin(_)) => core::cmp::Ordering::Greater,
                (ShadowEnd::Inf, ShadowEnd::Inf) => core::cmp::Ordering::Equal,
            }
        }
    }
}

/// Under a positive bounded tangent, a projected shadow is a well-formed
/// finite interval of strictly positive scaled length `h * td`, lying at
/// nonnegative coordinates.
pub proof fn lemma_projection_bounds(f: Flatlander, tn: int, td: int)
    requires
        f.wf(),
        1 <= tn <= 10_000_000_000,
        1 <= td <= 1_000_000_000,
    ensures
        ({
            let s = spec_project(f, tn, td);
            &&& s.start == f.pos() * tn
            &&& s.end == ShadowEnd::Fin((f.pos() * tn + f.hight_spec() * td) as i64)
            &&& s.end matches ShadowEnd::Fin(e) && e == s.start + f.hight_spec() * td && s.start
                < e
            &&& 0 <= s.start
            &&& s.den == tn
        }),
{
    assert(0 <= f.pos() * tn <= 3_000_000_000_000_000) by (nonlinear_arith)
        requires
            0 <= f.pos() <= 300_000,
            0 < tn <= 10_000_000_000,
    ;
    assert(1 <= f.hight_spec() * td <= 1_000_000_000_000) by (nonlinear_arith)
        requires
            1 <= f.hight_spec() <= 1000,
            1 <= td <= 1_000_000_000,
    ;
}

/// Decides `shadow_leq` on concrete shadows.
pub fn shadow_le(a: &Shadow, b: &Shadow) -> (r: bool)
    ensures
        r == shadow_leq(*a, *b),
{
    if a.start < b.start {
        true
    } else if b.start < a.start {
        false
    } else {
        match (a.end, b.end) {
            (ShadowEnd::Fin(x), ShadowEnd::Fin(y)) => {
                if x < y {
                    true
                } else if y < x {
                    false
                } else {
                    a.den <= b.den
                }
            },
            (ShadowEnd::Fin(_), ShadowEnd::Inf) => true,
            (ShadowEnd::Inf, ShadowEnd::Fin(_)) => false,
            (ShadowEnd::Inf, ShadowEnd::Inf) => a.den <= b.den,
        }
    }
}

} // verus!
