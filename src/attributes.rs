//! A beatmap's difficulty settings, and how mods adjust them.
use vstd::prelude::*;

use crate::num::{Num, SCALE};
use vstd::arithmetic::div_mod::{
    lemma_div_basics, lemma_div_is_ordered_by_denominator, lemma_div_pos_is_pos,
};

verus! {

/// Division of `a` by a positive `b`, rounding towards zero.
pub open spec fn tdiv(a: int, b: int) -> int {
    if a >= 0 {
        a / b
    } else {
        -((-a) / b)
    }
}

pub fn tdiv_exec(a: i128, b: i128) -> (r: i128)
    requires
        b > 0,
        a > i128::MIN,
    ensures
        r == tdiv(a as int, b as int),
{
    if a >= 0 {
        a / b
    } else {
        -((-a) / b)
    }
}

/// The numbers that a combination of mods supplies.
#[derive(Clone, Copy, Debug, PartialEq, Eq, Structural)]
pub struct Mods {
    /// Whether the mods change the map's attributes at all.
    pub change_map: bool,
    /// The speed factor of the clock.
    pub clock_rate: Num,
    /// The factor on OD, AR and HP.
    pub multiplier: Num,
    /// A mod that makes circles larger by 30%.
    pub hr: bool,
    /// A mod that halves circle size.
    pub ez: bool,
}

impl Mods {
    /// Values that the adjustment can work with: a positive clock rate, and
    /// factors in the range of literals.
    pub open spec fn valid(self) -> bool {
        self.clock_rate.units > 0 && self.clock_rate.in_range() && self.multiplier.in_range()
    }
}

/// A beatmap's difficulty attributes, with the clock rate they hold at.
#[derive(Clone, Copy, Debug, PartialEq, Eq, Structural)]
pub struct BeatmapAttributes {
    /// The approach rate.
    pub ar: Num,
    /// The overall difficulty.
    pub od: Num,
    /// The circle size.
    pub cs: Num,
    /// The health drain rate.
    pub hp: Num,
    /// The clock rate with respect to mods.
    pub clock_rate: Num,
}

/// Milliseconds of approach at AR 0, 5 and 10.
pub const AR0_MS: i128 = 1800;
pub const AR5_MS: i128 = 1200;
pub const AR10_MS: i128 = 450;
/// Milliseconds per AR step below and above AR 5.
pub const AR_MS_STEP_1: i128 = 120;
pub const AR_MS_STEP_2: i128 = 150;

/// The approach time in units of ms for an AR of `ar` units, before clamping.
pub open spec fn ar_to_ms(ar: int) -> int {
    if ar <= 5 * SCALE {
        AR0_MS * SCALE - AR_MS_STEP_1 * ar
    } else {
        AR5_MS * SCALE - AR_MS_STEP_2 * (ar - 5 * SCALE)
    }
}

/// `v` limited to `[lo, hi]`.
pub open spec fn clamp(v: int, lo: int, hi: int) -> int {
    if v < lo {
        lo
    } else if v > hi {
        hi
    } else {
        v
    }
}

/// The AR, in units, of an approach time of `ms` units of ms.
pub open spec fn ms_to_ar(ms: int) -> int {
    if ms > AR5_MS * SCALE {
        tdiv(AR0_MS * SCALE - ms, AR_MS_STEP_1 as int)
    } else {
        5 * SCALE + tdiv(AR5_MS * SCALE - ms, AR_MS_STEP_2 as int)
    }
}

/// `a * b` for numbers, rounded towards zero.
pub open spec fn times(a: Num, b: Num) -> int {
    tdiv(a.units * b.units, SCALE as int)
}

/// At most 10.
pub open spec fn cap10(v: int) -> int {
    if v > 10 * SCALE {
        10 * SCALE
    } else {
        v
    }
}

/// The attributes under `mods`. AR goes through its approach time, which the
/// clock rate divides; OD, CS and HP are scaled and capped at 10.
pub open spec fn adjusted(a: BeatmapAttributes, mods: Mods) -> BeatmapAttributes {
    if !mods.change_map {
        a
    } else {
        let ms = clamp(ar_to_ms(times(a.ar, mods.multiplier)), AR10_MS * SCALE, AR0_MS * SCALE);
        let ms = tdiv(ms * SCALE, mods.clock_rate.units as int);
        let cs = if mods.hr {
            tdiv(a.cs.units * 13, 10)
        } else if mods.ez {
            tdiv(a.cs.units as int, 2)
        } else {
            a.cs.units as int
        };
        BeatmapAttributes {
            ar: Num { units: ms_to_ar(ms) as i128 },
            od: Num { units: cap10(times(a.od, mods.multiplier)) as i128 },
            cs: Num { units: cap10(cs) as i128 },
            hp: Num { units: cap10(times(a.hp, mods.multiplier)) as i128 },
            clock_rate: mods.clock_rate,
        }
    }
}

/// `a * b` for numbers in range, rounded towards zero.
fn times_exec(a: Num, b: Num) -> (r: i128)
    requires
        a.in_range(),
        b.in_range(),
    ensures
        r == times(a, b),
        -1_000_000_000_000_000_000_000_000_000 <= r <= 1_000_000_000_000_000_000_000_000_000,
{
    assert(-1_000_000_000_000_000_000_000_000_000_000_000_000 <= a.units * b.units
        <= 1_000_000_000_000_000_000_000_000_000_000_000_000) by (nonlinear_arith)
        requires
            -1_000_000_000_000_000_000 < a.units < 1_000_000_000_000_000_000,
            -1_000_000_000_000_000_000 < b.units < 1_000_000_000_000_000_000,
    ;
    let p = a.units * b.units;
    tdiv_exec(p, SCALE)
}

impl BeatmapAttributes {
    /// The attributes of a map without mods: clock rate 1.
    pub fn new(ar: Num, od: Num, cs: Num, hp: Num) -> (r: BeatmapAttributes)
        ensures
            r == (BeatmapAttributes { ar, od, cs, hp, clock_rate: Num { units: SCALE } }),
    {
        BeatmapAttributes { ar, od, cs, hp, clock_rate: Num { units: SCALE } }
    }

    /// All four attributes lie in the range of literals.
    pub open spec fn in_range(self) -> bool {
        self.ar.in_range() && self.od.in_range() && self.cs.in_range() && self.hp.in_range()
    }

    /// Adjusts the attributes for `mods`. AR is adjusted through its approach
    /// time; OD is not adjusted through its hit window.
    pub fn mods(self, mods: Mods) -> (r: BeatmapAttributes)
        requires
            self.in_range(),
            mods.change_map ==> mods.valid(),
        ensures
            r == adjusted(self, mods),
    {
        if !mods.change_map {
            return self;
        }
        let s = SCALE;
        let ar = times_exec(self.ar, mods.multiplier);
        let mut ms: i128 = if ar <= 5 * s {
            AR0_MS * s - AR_MS_STEP_1 * ar
        } else {
            AR5_MS * s - AR_MS_STEP_2 * (ar - 5 * s)
        };
        if ms < AR10_MS * s {
            ms = AR10_MS * s;
        } else if ms > AR0_MS * s {
            ms = AR0_MS * s;
        }
        let scaled = ms * s;
        ms = tdiv_exec(scaled, mods.clock_rate.units);
        proof {
            lemma_div_is_ordered_by_denominator(scaled as int, 1, mods.clock_rate.units as int);
            lemma_div_pos_is_pos(scaled as int, mods.clock_rate.units as int);
            lemma_div_basics(scaled as int);
        }
        let ar = if ms > AR5_MS * s {
            tdiv_exec(AR0_MS * s - ms, AR_MS_STEP_1)
        } else {
            5 * s + tdiv_exec(AR5_MS * s - ms, AR_MS_STEP_2)
        };
        let od = times_exec(self.od, mods.multiplier);
        let od = if od > 10 * s {
            10 * s
        } else {
            od
        };
        let cs = if mods.hr {
            tdiv_exec(self.cs.units * 13, 10)
        } else if mods.ez {
            tdiv_exec(self.cs.units, 2)
        } else {
            self.cs.units
        };
        let cs = if cs > 10 * s {
            10 * s
        } else {
            cs
        };
        let hp = times_exec(self.hp, mods.multiplier);
        let hp = if hp > 10 * s {
            10 * s
        } else {
            hp
        };
        BeatmapAttributes {
            ar: Num { units: ar },
            od: Num { units: od },
            cs: Num { units: cs },
            hp: Num { units: hp },
            clock_rate: mods.clock_rate,
        }
    }
}

/// The clock rate has no effect on OD: mods that differ only in clock rate
/// give the same OD.
pub proof fn lemma_od_ignores_clock_rate(a: BeatmapAttributes, m1: Mods, m2: Mods)
    requires
        m1.change_map == m2.change_map,
        m1.multiplier == m2.multiplier,
    ensures
        adjusted(a, m1).od == adjusted(a, m2).od,
{
}

/// The value that `val` (on the 0 to 10 scale) maps to, where 0, 5 and 10 map
/// to `min`, `avg` and `max`, linearly in between, rounding towards zero.
pub open spec fn difficulty_range_spec(val: Num, max: Num, avg: Num, min: Num) -> int {
    if val.units > 5 * SCALE {
        avg.units + tdiv((max.units - avg.units) * (val.units - 5 * SCALE), 5 * SCALE)
    } else if val.units < 5 * SCALE {
        avg.units - tdiv((avg.units - min.units) * (5 * SCALE - val.units), 5 * SCALE)
    } else {
        avg.units as int
    }
}

/// Maps a difficulty value onto the range given by its values at 0, 5 and 10.
pub fn difficulty_range(val: Num, max: Num, avg: Num, min: Num) -> (r: Num)
    requires
        val.in_range(),
        max.in_range(),
        avg.in_range(),
        min.in_range(),
    ensures
        r.units == difficulty_range_spec(val, max, avg, min),
{
    let s = SCALE;
    if val.units > 5 * s {
        let a = max.units - avg.units;
        let b = val.units - 5 * s;
        assert(-4_000_000_000_000_000_000_000_000_000_000_000_000 <= a * b
            <= 4_000_000_000_000_000_000_000_000_000_000_000_000) by (nonlinear_arith)
            requires
                -2_000_000_000_000_000_000 < a < 2_000_000_000_000_000_000,
                -2_000_000_000_000_000_000 < b < 2_000_000_000_000_000_000,
        ;
        Num { units: avg.units + tdiv_exec(a * b, 5 * s) }
    } else if val.units < 5 * s {
        let a = avg.units - min.units;
        let b = 5 * s - val.units;
        assert(-4_000_000_000_000_000_000_000_000_000_000_000_000 <= a * b
            <= 4_000_000_000_000_000_000_000_000_000_000_000_000) by (nonlinear_arith)
            requires
                -2_000_000_000_000_000_000 < a < 2_000_000_000_000_000_000,
                -2_000_000_000_000_000_000 < b < 2_000_000_000_000_000_000,
        ;
        Num { units: avg.units - tdiv_exec(a * b, 5 * s) }
    } else {
        Num { units: avg.units }
    }
}

} // verus!
