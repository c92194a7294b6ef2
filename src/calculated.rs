//! The results that difficulty and performance calculation hand back, one
//! variant per game mode.
use vstd::prelude::*;

use crate::num::Num;

verus! {

/// Difficulty attributes of an osu!ctb map.
#[derive(Clone, Copy, Debug, PartialEq, Eq, Structural)]
pub struct FruitsDifficultyAttributes {
    /// The star rating.
    pub stars: Num,
    /// The maximum combo.
    pub max_combo: usize,
}

/// Difficulty attributes of an osu!mania map.
#[derive(Clone, Copy, Debug, PartialEq, Eq, Structural)]
pub struct ManiaDifficultyAttributes {
    /// The star rating.
    pub stars: Num,
}

/// Difficulty attributes of an osu!standard map.
#[derive(Clone, Copy, Debug, PartialEq, Eq, Structural)]
pub struct OsuDifficultyAttributes {
    /// The star rating.
    pub stars: Num,
    /// The maximum combo.
    pub max_combo: usize,
}

/// Difficulty attributes of an osu!taiko map.
#[derive(Clone, Copy, Debug, PartialEq, Eq, Structural)]
pub struct TaikoDifficultyAttributes {
    /// The star rating.
    pub stars: Num,
    /// The maximum combo.
    pub max_combo: usize,
}

/// The result of a difficulty calculation, by mode.
#[derive(Clone, Copy, Debug, PartialEq, Eq, Structural)]
pub enum DifficultyAttributes {
    Fruits(FruitsDifficultyAttributes),
    Mania(ManiaDifficultyAttributes),
    Osu(OsuDifficultyAttributes),
    Taiko(TaikoDifficultyAttributes),
}

/// The maximum combo of the map; osu!mania attributes hold none.
pub open spec fn max_combo_of(d: DifficultyAttributes) -> Option<usize> {
    match d {
        DifficultyAttributes::Fruits(a) => Some(a.max_combo),
        DifficultyAttributes::Mania(_) => None,
        DifficultyAttributes::Osu(a) => Some(a.max_combo),
        DifficultyAttributes::Taiko(a) => Some(a.max_combo),
    }
}

impl DifficultyAttributes {
    /// The star rating.
    pub fn stars(&self) -> (r: Num)
        ensures
            r == match *self {
                DifficultyAttributes::Fruits(a) => a.stars,
                DifficultyAttributes::Mania(a) => a.stars,
                DifficultyAttributes::Osu(a) => a.stars,
                DifficultyAttributes::Taiko(a) => a.stars,
            },
    {
        match self {
            DifficultyAttributes::Fruits(a) => a.stars,
            DifficultyAttributes::Mania(a) => a.stars,
            DifficultyAttributes::Osu(a) => a.stars,
            DifficultyAttributes::Taiko(a) => a.stars,
        }
    }

    /// The maximum combo of the map; `None` only for osu!mania.
    pub fn max_combo(&self) -> (r: Option<usize>)
        ensures
            r == max_combo_of(*self),
    {
        match self {
            DifficultyAttributes::Fruits(a) => Some(a.max_combo),
            DifficultyAttributes::Mania(_) => None,
            DifficultyAttributes::Osu(a) => Some(a.max_combo),
            DifficultyAttributes::Taiko(a) => Some(a.max_combo),
        }
    }
}

/// Performance attributes of an osu!ctb score.
#[derive(Clone, Copy, Debug, PartialEq, Eq, Structural)]
pub struct FruitsPerformanceAttributes {
    pub difficulty: FruitsDifficultyAttributes,
    /// The performance points.
    pub pp: Num,
}

/// Performance attributes of an osu!mania score.
#[derive(Clone, Copy, Debug, PartialEq, Eq, Structural)]
pub struct ManiaPerformanceAttributes {
    pub difficulty: ManiaDifficultyAttributes,
    /// The performance points.
    pub pp: Num,
}

/// Performance attributes of an osu!standard score.
#[derive(Clone, Copy, Debug, PartialEq, Eq, Structural)]
pub struct OsuPerformanceAttributes {
    pub difficulty: OsuDifficultyAttributes,
    /// The performance points.
    pub pp: Num,
}

/// Performance attributes of an osu!taiko score.
#[derive(Clone, Copy, Debug, PartialEq, Eq, Structural)]
pub struct TaikoPerformanceAttributes {
    pub difficulty: TaikoDifficultyAttributes,
    /// The performance points.
    pub pp: Num,
}

/// The result of a performance calculation, by mode.
#[derive(Clone, Copy, Debug, PartialEq, Eq, Structural)]
pub enum PerformanceAttributes {
    Fruits(FruitsPerformanceAttributes),
    Mania(ManiaPerformanceAttributes),
    Osu(OsuPerformanceAttributes),
    Taiko(TaikoPerformanceAttributes),
}

/// The difficulty attributes that a performance calculation used.
pub open spec fn difficulty_of(p: PerformanceAttributes) -> DifficultyAttributes {
    match p {
        PerformanceAttributes::Fruits(a) => DifficultyAttributes::Fruits(a.difficulty),
        PerformanceAttributes::Mania(a) => DifficultyAttributes::Mania(a.difficulty),
        PerformanceAttributes::Osu(a) => DifficultyAttributes::Osu(a.difficulty),
        PerformanceAttributes::Taiko(a) => DifficultyAttributes::Taiko(a.difficulty),
    }
}

impl PerformanceAttributes {
    /// The performance points.
    pub fn pp(&self) -> (r: Num)
        ensures
            r == match *self {
                PerformanceAttributes::Fruits(a) => a.pp,
                PerformanceAttributes::Mania(a) => a.pp,
                PerformanceAttributes::Osu(a) => a.pp,
                PerformanceAttributes::Taiko(a) => a.pp,
            },
    {
        match self {
            PerformanceAttributes::Fruits(a) => a.pp,
            PerformanceAttributes::Mania(a) => a.pp,
            PerformanceAttributes::Osu(a) => a.pp,
            PerformanceAttributes::Taiko(a) => a.pp,
        }
    }

    /// The star rating of the difficulty attributes used.
    pub fn stars(&self) -> (r: Num)
        ensures
            r == match difficulty_of(*self) {
                DifficultyAttributes::Fruits(a) => a.stars,
                DifficultyAttributes::Mania(a) => a.stars,
                DifficultyAttributes::Osu(a) => a.stars,
                DifficultyAttributes::Taiko(a) => a.stars,
            },
    {
        self.difficulty_attributes().stars()
    }

    /// The difficulty attributes that the calculation used.
    pub fn difficulty_attributes(&self) -> (r: DifficultyAttributes)
        ensures
            r == difficulty_of(*self),
    {
        match self {
            PerformanceAttributes::Fruits(a) => DifficultyAttributes::Fruits(a.difficulty),
            PerformanceAttributes::Mania(a) => DifficultyAttributes::Mania(a.difficulty),
            PerformanceAttributes::Osu(a) => DifficultyAttributes::Osu(a.difficulty),
            PerformanceAttributes::Taiko(a) => DifficultyAttributes::Taiko(a.difficulty),
        }
    }

    /// The maximum combo of the map; `None` only for osu!mania.
    pub fn max_combo(&self) -> (r: Option<usize>)
        ensures
            r == max_combo_of(difficulty_of(*self)),
    {
        self.difficulty_attributes().max_combo()
    }
}

impl From<PerformanceAttributes> for DifficultyAttributes {
    fn from(p: PerformanceAttributes) -> (r: DifficultyAttributes) {
        match p {
            PerformanceAttributes::Fruits(a) => DifficultyAttributes::Fruits(a.difficulty),
            PerformanceAttributes::Mania(a) => DifficultyAttributes::Mania(a.difficulty),
            PerformanceAttributes::Osu(a) => DifficultyAttributes::Osu(a.difficulty),
            PerformanceAttributes::Taiko(a) => DifficultyAttributes::Taiko(a.difficulty),
        }
    }
}

impl vstd::std_specs::convert::FromSpecImpl<PerformanceAttributes> for DifficultyAttributes {
    open spec fn obeys_from_spec() -> bool {
        true
    }

    open spec fn from_spec(p: PerformanceAttributes) -> DifficultyAttributes {
        difficulty_of(p)
    }
}

} // verus!
