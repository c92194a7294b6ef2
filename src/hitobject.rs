//! Hit objects, timing points and difficulty points.
use vstd::prelude::*;

use crate::curve::{PathControlPoint, Pos2};
use crate::num::Num;
use crate::sort::{lead_earlier, stable_sort, Timed};

verus! {

/// Further data of specific kinds of hit object.
#[derive(Clone, Debug, PartialEq)]
pub enum HitObjectKind {
    /// A circle.
    Circle,
    /// A slider.
    Slider {
        /// Total length of the slider in pixels.
        pixel_len: Num,
        /// The number of repeats: the spans of the slider, less one.
        repeats: usize,
        /// The control points of the slider's path.
        control_points: Vec<PathControlPoint>,
    },
    /// A spinner.
    Spinner {
        /// The end time of the spinner.
        end_time: Num,
    },
    /// A hold note of osu!mania.
    Hold {
        /// The end time of the hold note.
        end_time: Num,
    },
}

/// A [`HitObjectKind`] with its control points as a sequence.
pub enum HitObjectKindView {
    Circle,
    Slider { pixel_len: Num, repeats: usize, control_points: Seq<PathControlPoint> },
    Spinner { end_time: Num },
    Hold { end_time: Num },
}

impl View for HitObjectKind {
    type V = HitObjectKindView;

    open spec fn view(&self) -> HitObjectKindView {
        match self {
            HitObjectKind::Circle => HitObjectKindView::Circle,
            HitObjectKind::Slider { pixel_len, repeats, control_points } => HitObjectKindView::Slider {
                pixel_len: *pixel_len,
                repeats: *repeats,
                control_points: control_points@,
            },
            HitObjectKind::Spinner { end_time } => HitObjectKindView::Spinner { end_time: *end_time },
            HitObjectKind::Hold { end_time } => HitObjectKindView::Hold { end_time: *end_time },
        }
    }
}

/// A hit object as read from a beatmap file.
#[derive(Clone, Debug, PartialEq)]
pub struct HitObject {
    /// The position of the object.
    pub pos: Pos2,
    /// The start time of the object.
    pub start_time: Num,
    /// The kind of the object.
    pub kind: HitObjectKind,
    /// The hitsound of the object; a color in osu!taiko.
    pub sound: u8,
}

/// A [`HitObject`] with its kind as a [`HitObjectKindView`].
pub struct HitObjectView {
    pub pos: Pos2,
    pub start_time: Num,
    pub kind: HitObjectKindView,
    pub sound: u8,
}

impl View for HitObject {
    type V = HitObjectView;

    open spec fn view(&self) -> HitObjectView {
        HitObjectView { pos: self.pos, start_time: self.start_time, kind: self.kind@, sound: self.sound }
    }
}

/// The end time of an object of kind `k` that starts at `start`.
pub open spec fn end_time_of(start: Num, k: HitObjectKindView) -> Num {
    match k {
        HitObjectKindView::Spinner { end_time } => end_time,
        HitObjectKindView::Hold { end_time } => end_time,
        _ => start,
    }
}

impl HitObject {
    /// The end time of the object: the start time of circles and sliders.
    pub fn end_time(&self) -> (r: Num)
        ensures
            r == end_time_of(self.start_time, self.kind@),
    {
        match &self.kind {
            HitObjectKind::Spinner { end_time } => *end_time,
            HitObjectKind::Hold { end_time } => *end_time,
            _ => self.start_time,
        }
    }

    /// Whether the object is a circle.
    pub fn is_circle(&self) -> (r: bool)
        ensures
            r == self.kind@ is Circle,
    {
        matches!(self.kind, HitObjectKind::Circle)
    }

    /// Whether the object is a slider.
    pub fn is_slider(&self) -> (r: bool)
        ensures
            r == self.kind@ is Slider,
    {
        matches!(self.kind, HitObjectKind::Slider { .. })
    }

    /// Whether the object is a spinner.
    pub fn is_spinner(&self) -> (r: bool)
        ensures
            r == self.kind@ is Spinner,
    {
        matches!(self.kind, HitObjectKind::Spinner { .. })
    }
}

impl Timed for HitObject {
    open spec fn time_of(&self) -> int {
        self.start_time.units as int
    }

    fn time(&self) -> (r: i128) {
        self.start_time.units
    }
}

impl Timed for HitObjectView {
    open spec fn time_of(&self) -> int {
        self.start_time.units as int
    }

    fn time(&self) -> (r: i128) {
        self.start_time.units
    }
}

/// The views of a sequence of hit objects.
pub open spec fn views(s: Seq<HitObject>) -> Seq<HitObjectView> {
    s.map_values(|h: HitObject| h@)
}

proof fn lemma_lead_earlier_views(s: Seq<HitObject>, t: int)
    ensures
        lead_earlier(views(s), t) == lead_earlier(s, t),
    decreases s.len(),
{
    if s.len() > 0 {
        assert(views(s).drop_first() =~= views(s.drop_first()));
        lemma_lead_earlier_views(s.drop_first(), t);
    }
}

/// Sorting hit objects and taking their views commute.
pub proof fn lemma_sort_views(s: Seq<HitObject>)
    ensures
        views(stable_sort(s)) == stable_sort(views(s)),
    decreases s.len(),
{
    if s.len() > 0 {
        let r = stable_sort(s.drop_first());
        lemma_sort_views(s.drop_first());
        assert(views(s).drop_first() =~= views(s.drop_first()));
        lemma_lead_earlier_views(r, s[0].time_of());
        crate::sort::lemma_stable_sort_len(s.drop_first());
        let j = lead_earlier(r, s[0].time_of());
        crate::sort::lemma_lead_earlier(r, s[0].time_of());
        assert(views(r.insert(j, s[0])) =~= views(r).insert(j, s[0]@));
    } else {
        assert(views(s) =~= Seq::<HitObjectView>::empty());
    }
}

/// A point that starts a timing section.
#[derive(Clone, Copy, Debug, PartialEq, Eq, Structural)]
pub struct TimingPoint {
    /// The time of the point.
    pub time: Num,
    /// The length of a beat in ms.
    pub beat_len: Num,
}

/// A point that changes the slider speed.
#[derive(Clone, Copy, Debug, PartialEq, Eq, Structural)]
pub struct DifficultyPoint {
    /// The time of the point.
    pub time: Num,
    /// The factor on slider speed, between 0.1 and 10.
    pub speed_multiplier: Num,
}

impl Timed for TimingPoint {
    open spec fn time_of(&self) -> int {
        self.time.units as int
    }

    fn time(&self) -> (r: i128) {
        self.time.units
    }
}

impl Timed for DifficultyPoint {
    open spec fn time_of(&self) -> int {
        self.time.units as int
    }

    fn time(&self) -> (r: i128) {
        self.time.units
    }
}

} // verus!
