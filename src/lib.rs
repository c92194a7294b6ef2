//! Parsing of `.osu` beatmap files into a structured, exactly specified model.
//!
//! Numbers read from a file are held as fixed-point values ([`num::Num`]) so that
//! every comparison and every derived value is exact and proved.
pub mod attributes;
pub mod beatmap;
pub mod calculated;
pub mod curve;
pub mod error;
pub mod hitobject;
pub mod num;
pub mod parser;
pub mod sort;
pub mod text;
pub mod words;

pub use attributes::{BeatmapAttributes, Mods};
pub use beatmap::{Beatmap, GameMode};
pub use calculated::{DifficultyAttributes, PerformanceAttributes};
pub use curve::{PathControlPoint, PathType, Pos2};
pub use error::{Field, ParseError};
pub use hitobject::{DifficultyPoint, HitObject, HitObjectKind, TimingPoint};
pub use num::Num;
