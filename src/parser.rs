//! The section state machine: one step per line of the file, and the work
//! done when a section ends.
use vstd::prelude::*;

use crate::attributes::{clamp, tdiv, tdiv_exec};
use crate::beatmap::{
    blank_line, empty_map, header_version, is_blank, is_section_header, prepare_line, prepared,
    find_bytes, find_seq, read_header, section_of, Beatmap, BeatmapView, GameMode, Section,
};
use crate::curve::{read_slider_path, slider_path, Pos2};
use crate::error::{Field, ParseError};
use crate::hitobject::{
    lemma_sort_views, views, DifficultyPoint, HitObject, HitObjectKind, HitObjectKindView,
    HitObjectView, TimingPoint,
};
use crate::num::{decimal_literal, parse_decimal, parse_uint, uint_literal, Num, SCALE};
use crate::sort::{
    at_time, lemma_stable_sort_keeps_sorted, lemma_stable_sort_sorted, lemma_stable_sort_stable,
    sort_by_time, sorted_by_time, stable_sort, Timed,
};
use crate::text::{pieces, split, split_bytes, trim, trim_bytes};
use crate::words::{
    approach_rate_word, circle_size_word, hp_drain_rate_word, is_approach_rate, is_circle_size,
    is_hp_drain_rate, is_mode, is_overall_difficulty, is_slider_multiplier, is_slider_tick_rate,
    is_stack_leniency, mode_word, overall_difficulty_word, slider_multiplier_word,
    slider_tick_rate_word, stack_leniency_word, file_header_word,
};

verus! {

/// What the section being read has gathered so far.
#[derive(Clone, Copy, Debug, PartialEq, Eq, Structural)]
pub struct SectionState {
    pub mode: Option<GameMode>,
    pub stack_leniency: Option<Num>,
    pub ar: Option<Num>,
    pub od: Option<Num>,
    pub cs: Option<Num>,
    pub hp: Option<Num>,
    pub slider_mult: Option<Num>,
    pub tick_rate: Option<Num>,
    pub unsorted_timings: bool,
    pub unsorted_difficulties: bool,
    pub prev_timing: Num,
    pub prev_difficulty: Num,
    pub unsorted_objects: bool,
    pub prev_object: Num,
}

pub open spec fn fresh_state() -> SectionState {
    SectionState {
        mode: None,
        stack_leniency: None,
        ar: None,
        od: None,
        cs: None,
        hp: None,
        slider_mult: None,
        tick_rate: None,
        unsorted_timings: false,
        unsorted_difficulties: false,
        prev_timing: Num { units: 0 },
        prev_difficulty: Num { units: 0 },
        unsorted_objects: false,
        prev_object: Num { units: 0 },
    }
}

fn new_state() -> (r: SectionState)
    ensures
        r == fresh_state(),
{
    SectionState {
        mode: None,
        stack_leniency: None,
        ar: None,
        od: None,
        cs: None,
        hp: None,
        slider_mult: None,
        tick_rate: None,
        unsorted_timings: false,
        unsorted_difficulties: false,
        prev_timing: Num { units: 0 },
        prev_difficulty: Num { units: 0 },
        unsorted_objects: false,
        prev_object: Num { units: 0 },
    }
}

/// A beatmap being read, line by line.
pub struct Parser {
    pub map: Beatmap,
    pub section: Section,
    pub state: SectionState,
}

pub struct ParserView {
    pub map: BeatmapView,
    pub section: Section,
    pub state: SectionState,
}

impl View for Parser {
    type V = ParserView;

    open spec fn view(&self) -> ParserView {
        ParserView { map: self.map@, section: self.section, state: self.state }
    }
}

pub open spec fn initial(version: u8) -> ParserView {
    ParserView { map: empty_map(version), section: Section::Other, state: fresh_state() }
}

/// The key before the first colon and the trimmed rest of the line after it.
pub open spec fn key_value(l: Seq<u8>) -> Option<(Seq<u8>, Seq<u8>)> {
    let i = find_seq(l, seq![58u8]);
    if i < 0 {
        None
    } else {
        Some((l.subrange(0, i), trim(l.subrange(i + 1, l.len() as int))))
    }
}

fn split_colon(l: &[u8]) -> (r: Option<(&[u8], &[u8])>)
    ensures
        match key_value(l@) {
            Some((k, v)) => r is Some && r->Some_0.0@ == k && r->Some_0.1@ == v,
            None => r is None,
        },
{
    let colon: [u8; 1] = [58];
    assert(colon@ =~= seq![58u8]);
    match find_bytes(l, colon.as_slice()) {
        None => None,
        Some(i) => {
            let n = l.len();
            Some((&l[0..i], trim_bytes(&l[i + 1..n])))
        },
    }
}

/// The mode that a `Mode` value names: `0` to `3`.
pub open spec fn mode_value(v: Seq<u8>) -> Option<GameMode> {
    if v == seq![48u8] {
        Some(GameMode::STD)
    } else if v == seq![49u8] {
        Some(GameMode::TKO)
    } else if v == seq![50u8] {
        Some(GameMode::CTB)
    } else if v == seq![51u8] {
        Some(GameMode::MNA)
    } else {
        None
    }
}

fn read_mode(v: &[u8]) -> (r: Option<GameMode>)
    ensures
        r == mode_value(v@),
{
    if v.len() != 1 {
        return None;
    }
    assert(v@ =~= seq![v@[0]]);
    if v[0] == 48 {
        Some(GameMode::STD)
    } else if v[0] == 49 {
        Some(GameMode::TKO)
    } else if v[0] == 50 {
        Some(GameMode::CTB)
    } else if v[0] == 51 {
        Some(GameMode::MNA)
    } else {
        None
    }
}

/// A line of the General section.
pub open spec fn general_step(st: ParserView, l: Seq<u8>) -> Result<ParserView, ParseError> {
    match key_value(l) {
        None => Err(ParseError::BadLine),
        Some((k, v)) => if k == mode_word() {
            match mode_value(v) {
                None => Err(ParseError::InvalidMode),
                Some(m) => Ok(ParserView { state: SectionState { mode: Some(m), ..st.state }, ..st }),
            }
        } else if k == stack_leniency_word() {
            match decimal_literal(v) {
                Err(e) => Err(e),
                Ok(n) => Ok(
                    ParserView { state: SectionState { stack_leniency: Some(n), ..st.state }, ..st },
                ),
            }
        } else {
            Ok(st)
        },
    }
}

/// A line of the Difficulty section.
pub open spec fn difficulty_step(st: ParserView, l: Seq<u8>) -> Result<ParserView, ParseError> {
    match key_value(l) {
        None => Err(ParseError::BadLine),
        Some((k, v)) => if k == approach_rate_word() || k == overall_difficulty_word() || k
            == circle_size_word() || k == hp_drain_rate_word() || k == slider_tick_rate_word() || k
            == slider_multiplier_word() {
            match decimal_literal(v) {
                Err(e) => Err(e),
                Ok(n) => {
                    let s = st.state;
                    let s = if k == approach_rate_word() {
                        SectionState { ar: Some(n), ..s }
                    } else if k == overall_difficulty_word() {
                        SectionState { od: Some(n), ..s }
                    } else if k == circle_size_word() {
                        SectionState { cs: Some(n), ..s }
                    } else if k == hp_drain_rate_word() {
                        SectionState { hp: Some(n), ..s }
                    } else if k == slider_tick_rate_word() {
                        SectionState { tick_rate: Some(n), ..s }
                    } else {
                        SectionState { slider_mult: Some(n), ..s }
                    };
                    Ok(ParserView { state: s, ..st })
                },
            }
        } else {
            Ok(st)
        },
    }
}

/// The speed factor that a negative beat length `b` encodes: `-100 / b`,
/// limited to `[0.1, 10]`.
pub open spec fn speed_of(b: int) -> int {
    clamp((100 * SCALE * SCALE) / (-b), SCALE / 10, 10 * SCALE)
}

/// A line of the TimingPoints section: a time and a beat length; a negative
/// beat length makes a difficulty point.
pub open spec fn timing_step(st: ParserView, l: Seq<u8>) -> Result<ParserView, ParseError> {
    let f = split(l, 44);
    match decimal_literal(trim(f[0])) {
        Err(e) => Err(e),
        Ok(time) => if f.len() < 2 {
            Err(ParseError::MissingField(Field::BeatLen))
        } else {
            match decimal_literal(trim(f[1])) {
                Err(e) => Err(e),
                Ok(b) => if b.units < 0 {
                    let p = DifficultyPoint {
                        time,
                        speed_multiplier: Num { units: speed_of(b.units as int) as i128 },
                    };
                    let late = time.units < st.state.prev_difficulty.units;
                    Ok(
                        ParserView {
                            map: BeatmapView {
                                difficulty_points: st.map.difficulty_points.push(p),
                                ..st.map
                            },
                            state: SectionState {
                                unsorted_difficulties: st.state.unsorted_difficulties || late,
                                prev_difficulty: if late {
                                    st.state.prev_difficulty
                                } else {
                                    time
                                },
                                ..st.state
                            },
                            ..st
                        },
                    )
                } else {
                    let p = TimingPoint { time, beat_len: b };
                    let late = time.units < st.state.prev_timing.units;
                    Ok(
                        ParserView {
                            map: BeatmapView {
                                timing_points: st.map.timing_points.push(p),
                                ..st.map
                            },
                            state: SectionState {
                                unsorted_timings: st.state.unsorted_timings || late,
                                prev_timing: if late {
                                    st.state.prev_timing
                                } else {
                                    time
                                },
                                ..st.state
                            },
                            ..st
                        },
                    )
                },
            }
        },
    }
}

/// The largest pixel length of a slider.
pub const MAX_COORDINATE_VALUE: i128 = 131_072;

/// The kind of a hit object with type bits `k`, from its fields `f`. Bit 0
/// makes a circle, bit 1 a slider, bit 3 a spinner and bit 7 a hold note, the
/// lowest set bit deciding. A slider without control points is a circle.
pub open spec fn object_kind(f: Seq<Seq<u8>>, k: int, pos: Pos2, time: Num) -> Result<
    HitObjectKindView,
    ParseError,
> {
    if k % 2 == 1 {
        Ok(HitObjectKindView::Circle)
    } else if (k / 2) % 2 == 1 {
        if f.len() < 6 {
            Err(ParseError::MissingField(Field::ControlPoints))
        } else if f.len() < 7 {
            Err(ParseError::MissingField(Field::Repeats))
        } else {
            match uint_literal(f[6], u64::MAX as int) {
                None => Err(ParseError::InvalidInteger),
                Some(r) => if r > 9000 {
                    Err(ParseError::TooManyRepeats)
                } else {
                    match slider_path(split(f[5], 124), pos) {
                        Err(e) => Err(e),
                        Ok(cps) => if cps.len() == 0 {
                            Ok(HitObjectKindView::Circle)
                        } else if f.len() < 8 {
                            Err(ParseError::MissingField(Field::PixelLen))
                        } else {
                            match decimal_literal(f[7]) {
                                Err(e) => Err(e),
                                Ok(pl) => Ok(
                                    HitObjectKindView::Slider {
                                        pixel_len: Num {
                                            units: clamp(
                                                pl.units as int,
                                                0,
                                                MAX_COORDINATE_VALUE * SCALE,
                                            ) as i128,
                                        },
                                        repeats: if r > 0 {
                                            (r - 1) as usize
                                        } else {
                                            0
                                        },
                                        control_points: cps,
                                    },
                                ),
                            }
                        },
                    }
                },
            }
        }
    } else if (k / 8) % 2 == 1 {
        if f.len() < 6 {
            Err(ParseError::MissingField(Field::SpinnerEndTime))
        } else {
            match decimal_literal(f[5]) {
                Err(e) => Err(e),
                Ok(e) => Ok(HitObjectKindView::Spinner { end_time: e }),
            }
        }
    } else if k >= 128 {
        if f.len() < 6 {
            Ok(HitObjectKindView::Hold { end_time: time })
        } else {
            match decimal_literal(split(f[5], 58)[0]) {
                Err(e) => Err(e),
                Ok(e) => Ok(
                    HitObjectKindView::Hold {
                        end_time: if e.units > time.units {
                            e
                        } else {
                            time
                        },
                    },
                ),
            }
        }
    } else {
        Err(ParseError::UnknownHitObjectKind)
    }
}

/// Which count an object with type bits `k` adds to: 1 circles, 2 sliders,
/// 3 spinners, 4 hold notes (which count as sliders).
pub open spec fn kind_class(k: int) -> int {
    if k % 2 == 1 {
        1
    } else if (k / 2) % 2 == 1 {
        2
    } else if (k / 8) % 2 == 1 {
        3
    } else {
        4
    }
}

/// A line of the HitObjects section: `x,y,time,type,sound,...`.
pub open spec fn hit_object_line(l: Seq<u8>) -> Result<(HitObjectView, int), ParseError> {
    let f = split(l, 44);
    match decimal_literal(f[0]) {
        Err(e) => Err(e),
        Ok(x) => if f.len() < 2 {
            Err(ParseError::MissingField(Field::YPos))
        } else {
            match decimal_literal(f[1]) {
                Err(e) => Err(e),
                Ok(y) => if f.len() < 3 {
                    Err(ParseError::MissingField(Field::HitObjectTime))
                } else {
                    match decimal_literal(trim(f[2])) {
                        Err(e) => Err(e),
                        Ok(time) => if f.len() < 4 {
                            Err(ParseError::MissingField(Field::HitObjectKind))
                        } else {
                            match uint_literal(f[3], 255) {
                                None => Err(ParseError::InvalidInteger),
                                Some(k) => {
                                    let sound = if f.len() < 5 {
                                        Some(0int)
                                    } else {
                                        uint_literal(f[4], 255)
                                    };
                                    match sound {
                                        None => Err(ParseError::InvalidInteger),
                                        Some(sound) => {
                                            let pos = Pos2 { x, y };
                                            match object_kind(f, k, pos, time) {
                                                Err(e) => Err(e),
                                                Ok(kind) => Ok(
                                                    (
                                                        HitObjectView {
                                                            pos,
                                                            start_time: time,
                                                            kind,
                                                            sound: sound as u8,
                                                        },
                                                        kind_class(k),
                                                    ),
                                                ),
                                            }
                                        },
                                    }
                                },
                            }
                        },
                    }
                },
            }
        },
    }
}

/// `n + 1`, staying at the largest value.
pub open spec fn sat_inc(n: u32) -> u32 {
    if n < u32::MAX {
        (n + 1) as u32
    } else {
        n
    }
}

fn sat_inc_exec(n: u32) -> (r: u32)
    ensures
        r == sat_inc(n),
{
    if n < u32::MAX {
        n + 1
    } else {
        n
    }
}

pub open spec fn hit_object_step(st: ParserView, l: Seq<u8>) -> Result<ParserView, ParseError> {
    match hit_object_line(l) {
        Err(e) => Err(e),
        Ok((h, c)) => Ok(
            ParserView {
                map: BeatmapView {
                    n_circles: if c == 1 {
                        sat_inc(st.map.n_circles)
                    } else {
                        st.map.n_circles
                    },
                    n_sliders: if c == 2 || c == 4 {
                        sat_inc(st.map.n_sliders)
                    } else {
                        st.map.n_sliders
                    },
                    n_spinners: if c == 3 {
                        sat_inc(st.map.n_spinners)
                    } else {
                        st.map.n_spinners
                    },
                    hit_objects: st.map.hit_objects.push(h),
                    ..st.map
                },
                state: SectionState {
                    unsorted_objects: st.state.unsorted_objects || (st.map.hit_objects.len() > 0
                        && h.start_time.units < st.state.prev_object.units),
                    prev_object: h.start_time,
                    ..st.state
                },
                ..st
            },
        ),
    }
}

/// A line that is not a section header.
pub open spec fn line_step(st: ParserView, l: Seq<u8>) -> Result<ParserView, ParseError> {
    match st.section {
        Section::Other => Ok(st),
        Section::General => general_step(st, l),
        Section::Difficulty => difficulty_step(st, l),
        Section::TimingPoints => timing_step(st, l),
        Section::HitObjects => hit_object_step(st, l),
    }
}

/// The work done when a section ends: General settles mode and stack
/// leniency, Difficulty demands its fields, and the lists are ordered.
pub open spec fn finish_section(st: ParserView) -> Result<ParserView, ParseError> {
    let s = st.state;
    match st.section {
        Section::Other => Ok(st),
        Section::General => Ok(
            ParserView {
                map: BeatmapView {
                    mode: match s.mode {
                        Some(m) => m,
                        None => GameMode::STD,
                    },
                    stack_leniency: match s.stack_leniency {
                        Some(n) => n,
                        None => Num { units: 700_000_000 },
                    },
                    ..st.map
                },
                ..st
            },
        ),
        Section::Difficulty => if s.od is None {
            Err(ParseError::MissingField(Field::Od))
        } else if s.cs is None {
            Err(ParseError::MissingField(Field::Cs))
        } else if s.hp is None {
            Err(ParseError::MissingField(Field::Hp))
        } else if s.slider_mult is None {
            Err(ParseError::MissingField(Field::SliderMultiplier))
        } else if s.tick_rate is None {
            Err(ParseError::MissingField(Field::TickRate))
        } else {
            Ok(
                ParserView {
                    map: BeatmapView {
                        od: s.od->Some_0,
                        cs: s.cs->Some_0,
                        hp: s.hp->Some_0,
                        ar: match s.ar {
                            Some(a) => a,
                            None => s.od->Some_0,
                        },
                        slider_mult: s.slider_mult->Some_0,
                        tick_rate: s.tick_rate->Some_0,
                        ..st.map
                    },
                    ..st
                },
            )
        },
        Section::TimingPoints => Ok(
            ParserView {
                map: BeatmapView {
                    timing_points: if s.unsorted_timings {
                        stable_sort(st.map.timing_points)
                    } else {
                        st.map.timing_points
                    },
                    difficulty_points: if s.unsorted_difficulties {
                        stable_sort(st.map.difficulty_points)
                    } else {
                        st.map.difficulty_points
                    },
                    ..st.map
                },
                ..st
            },
        ),
        Section::HitObjects => Ok(
            ParserView {
                map: BeatmapView {
                    hit_objects: if st.map.mode == GameMode::MNA || s.unsorted_objects {
                        stable_sort(st.map.hit_objects)
                    } else {
                        st.map.hit_objects
                    },
                    ..st.map
                },
                ..st
            },
        ),
    }
}

/// One line of the file, after the header line.
#[verifier::opaque]
pub open spec fn feed(st: ParserView, raw: Seq<u8>) -> Result<ParserView, ParseError> {
    match prepared(raw) {
        None => Ok(st),
        Some(l) => if is_section_header(l) {
            match finish_section(st) {
                Err(e) => Err(e),
                Ok(s) => Ok(
                    ParserView {
                        map: s.map,
                        section: section_of(l.subrange(1, l.len() - 1)),
                        state: fresh_state(),
                    },
                ),
            }
        } else {
            line_step(st, l)
        },
    }
}

/// Whether `r` is the outcome `expected`, with `after` the state on success.
pub open spec fn outcome(
    r: Result<(), ParseError>,
    after: ParserView,
    expected: Result<ParserView, ParseError>,
) -> bool {
    match expected {
        Ok(s) => r is Ok && after == s,
        Err(e) => r == Err::<(), ParseError>(e),
    }
}

fn read_object_kind(f: &Vec<&[u8]>, k: u8, pos: Pos2, time: Num) -> (r: Result<
    HitObjectKind,
    ParseError,
>)
    requires
        pos.in_range(),
    ensures
        match object_kind(pieces(f@), k as int, pos, time) {
            Ok(kv) => r is Ok && r->Ok_0@ == kv,
            Err(e) => r == Err::<HitObjectKind, ParseError>(e),
        },
{
    let ghost fs = pieces(f@);
    assert(forall|i: int| 0 <= i < f@.len() ==> fs[i] == (#[trigger] f@[i])@);
    if k % 2 == 1 {
        Ok(HitObjectKind::Circle)
    } else if (k / 2) % 2 == 1 {
        if f.len() < 6 {
            return Err(ParseError::MissingField(Field::ControlPoints));
        }
        if f.len() < 7 {
            return Err(ParseError::MissingField(Field::Repeats));
        }
        let r = match parse_uint(f[6], u64::MAX) {
            None => {
                return Err(ParseError::InvalidInteger);
            },
            Some(r) => r,
        };
        if r > 9000 {
            return Err(ParseError::TooManyRepeats);
        }
        let tokens = split_bytes(f[5], 124);
        proof {
            crate::text::lemma_split_nonempty(f@[5]@, 124);
            assert(pieces(tokens@) =~= split(fs[5], 124));
        }
        let cps = match read_slider_path(tokens.as_slice(), pos) {
            Err(e) => {
                return Err(e);
            },
            Ok(c) => c,
        };
        if cps.len() == 0 {
            return Ok(HitObjectKind::Circle);
        }
        if f.len() < 8 {
            return Err(ParseError::MissingField(Field::PixelLen));
        }
        let pl = match parse_decimal(f[7]) {
            Err(e) => {
                return Err(e);
            },
            Ok(pl) => pl,
        };
        let max = MAX_COORDINATE_VALUE * SCALE;
        let units = if pl.units < 0 {
            0
        } else if pl.units > max {
            max
        } else {
            pl.units
        };
        let repeats: usize = if r > 0 {
            (r - 1) as usize
        } else {
            0
        };
        Ok(HitObjectKind::Slider { pixel_len: Num { units }, repeats, control_points: cps })
    } else if (k / 8) % 2 == 1 {
        if f.len() < 6 {
            return Err(ParseError::MissingField(Field::SpinnerEndTime));
        }
        match parse_decimal(f[5]) {
            Err(e) => Err(e),
            Ok(e) => Ok(HitObjectKind::Spinner { end_time: e }),
        }
    } else if k >= 128 {
        if f.len() < 6 {
            return Ok(HitObjectKind::Hold { end_time: time });
        }
        let sub = split_bytes(f[5], 58);
        proof {
            crate::text::lemma_split_nonempty(f@[5]@, 58);
        }
        match parse_decimal(sub[0]) {
            Err(e) => Err(e),
            Ok(e) => Ok(
                HitObjectKind::Hold {
                    end_time: if e.units > time.units {
                        e
                    } else {
                        time
                    },
                },
            ),
        }
    } else {
        Err(ParseError::UnknownHitObjectKind)
    }
}

fn read_hit_object(l: &[u8]) -> (r: Result<(HitObject, u8), ParseError>)
    ensures
        match hit_object_line(l@) {
            Ok((h, c)) => r is Ok && r->Ok_0.0@ == h && r->Ok_0.1 as int == c,
            Err(e) => r == Err::<(HitObject, u8), ParseError>(e),
        },
{
    let f = split_bytes(l, 44);
    let ghost fs = split(l@, 44);
    proof {
        crate::text::lemma_split_nonempty(l@, 44);
        assert(pieces(f@) =~= fs);
    }
    let x = match parse_decimal(f[0]) {
        Err(e) => {
            return Err(e);
        },
        Ok(x) => x,
    };
    if f.len() < 2 {
        return Err(ParseError::MissingField(Field::YPos));
    }
    let y = match parse_decimal(f[1]) {
        Err(e) => {
            return Err(e);
        },
        Ok(y) => y,
    };
    if f.len() < 3 {
        return Err(ParseError::MissingField(Field::HitObjectTime));
    }
    let time = match parse_decimal(trim_bytes(f[2])) {
        Err(e) => {
            return Err(e);
        },
        Ok(t) => t,
    };
    if f.len() < 4 {
        return Err(ParseError::MissingField(Field::HitObjectKind));
    }
    let k = match parse_uint(f[3], 255) {
        None => {
            return Err(ParseError::InvalidInteger);
        },
        Some(k) => k as u8,
    };
    let sound: u8 = if f.len() < 5 {
        0
    } else {
        match parse_uint(f[4], 255) {
            None => {
                return Err(ParseError::InvalidInteger);
            },
            Some(s) => s as u8,
        }
    };
    let pos = Pos2 { x, y };
    let kind = match read_object_kind(&f, k, pos, time) {
        Err(e) => {
            return Err(e);
        },
        Ok(kind) => kind,
    };
    let class: u8 = if k % 2 == 1 {
        1
    } else if (k / 2) % 2 == 1 {
        2
    } else if (k / 8) % 2 == 1 {
        3
    } else {
        4
    };
    Ok((HitObject { pos, start_time: time, kind, sound }, class))
}

impl Parser {
    /// A parser for a file of the given format version, before any section.
    pub fn new(version: u8) -> (r: Parser)
        ensures
            r@ == initial(version),
    {
        Parser { map: Beatmap::empty(version), section: Section::Other, state: new_state() }
    }

    fn general_line(&mut self, l: &[u8]) -> (r: Result<(), ParseError>)
        ensures
            outcome(r, final(self)@, general_step(old(self)@, l@)),
    {
        let (k, v) = match split_colon(l) {
            Some(kv) => kv,
            None => {
                return Err(ParseError::BadLine);
            },
        };
        if is_mode(k) {
            match read_mode(v) {
                None => Err(ParseError::InvalidMode),
                Some(m) => {
                    self.state.mode = Some(m);
                    Ok(())
                },
            }
        } else if is_stack_leniency(k) {
            match parse_decimal(v) {
                Err(e) => Err(e),
                Ok(n) => {
                    self.state.stack_leniency = Some(n);
                    Ok(())
                },
            }
        } else {
            Ok(())
        }
    }

    fn difficulty_line(&mut self, l: &[u8]) -> (r: Result<(), ParseError>)
        ensures
            outcome(r, final(self)@, difficulty_step(old(self)@, l@)),
    {
        let (k, v) = match split_colon(l) {
            Some(kv) => kv,
            None => {
                return Err(ParseError::BadLine);
            },
        };
        let ar = is_approach_rate(k);
        let od = is_overall_difficulty(k);
        let cs = is_circle_size(k);
        let hp = is_hp_drain_rate(k);
        let tick = is_slider_tick_rate(k);
        let sv = is_slider_multiplier(k);
        if !(ar || od || cs || hp || tick || sv) {
            return Ok(());
        }
        let n = match parse_decimal(v) {
            Err(e) => {
                return Err(e);
            },
            Ok(n) => n,
        };
        if ar {
            self.state.ar = Some(n);
        } else if od {
            self.state.od = Some(n);
        } else if cs {
            self.state.cs = Some(n);
        } else if hp {
            self.state.hp = Some(n);
        } else if tick {
            self.state.tick_rate = Some(n);
        } else {
            self.state.slider_mult = Some(n);
        }
        Ok(())
    }

    fn timing_line(&mut self, l: &[u8]) -> (r: Result<(), ParseError>)
        ensures
            outcome(r, final(self)@, timing_step(old(self)@, l@)),
    {
        let f = split_bytes(l, 44);
        proof {
            crate::text::lemma_split_nonempty(l@, 44);
        }
        let time = match parse_decimal(trim_bytes(f[0])) {
            Err(e) => {
                return Err(e);
            },
            Ok(t) => t,
        };
        if f.len() < 2 {
            return Err(ParseError::MissingField(Field::BeatLen));
        }
        let b = match parse_decimal(trim_bytes(f[1])) {
            Err(e) => {
                return Err(e);
            },
            Ok(b) => b,
        };
        if b.units < 0 {
            let q = (100 * SCALE * SCALE) / (-b.units);
            let sm = if q < SCALE / 10 {
                SCALE / 10
            } else if q > 10 * SCALE {
                10 * SCALE
            } else {
                q
            };
            let p = DifficultyPoint { time, speed_multiplier: Num { units: sm } };
            self.map.difficulty_points.push(p);
            if time.units < self.state.prev_difficulty.units {
                self.state.unsorted_difficulties = true;
            } else {
                self.state.prev_difficulty = time;
            }
        } else {
            let p = TimingPoint { time, beat_len: b };
            self.map.timing_points.push(p);
            if time.units < self.state.prev_timing.units {
                self.state.unsorted_timings = true;
            } else {
                self.state.prev_timing = time;
            }
        }
        Ok(())
    }

    fn hit_object_line(&mut self, l: &[u8]) -> (r: Result<(), ParseError>)
        ensures
            outcome(r, final(self)@, hit_object_step(old(self)@, l@)),
    {
        let (h, c) = match read_hit_object(l) {
            Err(e) => {
                return Err(e);
            },
            Ok(hc) => hc,
        };
        let late = self.map.hit_objects.len() > 0 && h.start_time.units
            < self.state.prev_object.units;
        if c == 1 {
            self.map.n_circles = sat_inc_exec(self.map.n_circles);
        } else if c == 2 || c == 4 {
            self.map.n_sliders = sat_inc_exec(self.map.n_sliders);
        } else if c == 3 {
            self.map.n_spinners = sat_inc_exec(self.map.n_spinners);
        }
        if late {
            self.state.unsorted_objects = true;
        }
        self.state.prev_object = h.start_time;
        let ghost before = self.map.hit_objects@;
        let ghost hv = h@;
        self.map.hit_objects.push(h);
        assert(views(self.map.hit_objects@) =~= views(before).push(hv));
        Ok(())
    }

    fn line_step(&mut self, l: &[u8]) -> (r: Result<(), ParseError>)
        ensures
            outcome(r, final(self)@, line_step(old(self)@, l@)),
    {
        match self.section {
            Section::Other => Ok(()),
            Section::General => self.general_line(l),
            Section::Difficulty => self.difficulty_line(l),
            Section::TimingPoints => self.timing_line(l),
            Section::HitObjects => self.hit_object_line(l),
        }
    }

    /// Ends the current section.
    pub fn finish_section(&mut self) -> (r: Result<(), ParseError>)
        ensures
            outcome(r, final(self)@, finish_section(old(self)@)),
    {
        match self.section {
            Section::Other => Ok(()),
            Section::General => {
                self.map.mode = match self.state.mode {
                    Some(m) => m,
                    None => GameMode::STD,
                };
                self.map.stack_leniency = match self.state.stack_leniency {
                    Some(n) => n,
                    None => Num { units: 700_000_000 },
                };
                Ok(())
            },
            Section::Difficulty => {
                let od = match self.state.od {
                    Some(n) => n,
                    None => {
                        return Err(ParseError::MissingField(Field::Od));
                    },
                };
                let cs = match self.state.cs {
                    Some(n) => n,
                    None => {
                        return Err(ParseError::MissingField(Field::Cs));
                    },
                };
                let hp = match self.state.hp {
                    Some(n) => n,
                    None => {
                        return Err(ParseError::MissingField(Field::Hp));
                    },
                };
                let sv = match self.state.slider_mult {
                    Some(n) => n,
                    None => {
                        return Err(ParseError::MissingField(Field::SliderMultiplier));
                    },
                };
                let tick = match self.state.tick_rate {
                    Some(n) => n,
                    None => {
                        return Err(ParseError::MissingField(Field::TickRate));
                    },
                };
                self.map.od = od;
                self.map.cs = cs;
                self.map.hp = hp;
                self.map.ar = match self.state.ar {
                    Some(a) => a,
                    None => od,
                };
                self.map.slider_mult = sv;
                self.map.tick_rate = tick;
                Ok(())
            },
            Section::TimingPoints => {
                if self.state.unsorted_timings {
                    sort_by_time(&mut self.map.timing_points);
                }
                if self.state.unsorted_difficulties {
                    sort_by_time(&mut self.map.difficulty_points);
                }
                Ok(())
            },
            Section::HitObjects => {
                if self.map.mode == GameMode::MNA || self.state.unsorted_objects {
                    let ghost before = self.map.hit_objects@;
                    sort_by_time(&mut self.map.hit_objects);
                    proof {
                        lemma_sort_views(before);
                    }
                }
                Ok(())
            },
        }
    }

    /// Reads one line of the file, after the header line.
    pub fn feed_line(&mut self, raw: &[u8]) -> (r: Result<(), ParseError>)
        ensures
            outcome(r, final(self)@, feed(old(self)@, raw@)),
    {
        reveal(feed);
        let prepared_line = prepare_line(raw);
        match prepared_line {
            None => Ok(()),
            Some(l) => {
                let n = l.len();
                if n > 0 && l[0] == 91 && l[n - 1] == 93 {
                    match self.finish_section() {
                        Err(e) => {
                            return Err(e);
                        },
                        Ok(()) => {},
                    }
                    let name = &l[1..n - 1];
                    self.section = Section::from_str(name);
                    self.state = new_state();
                    Ok(())
                } else {
                    self.line_step(l)
                }
            },
        }
    }
}

/// The state after reading `lines` from `st` on; the first failure wins.
pub open spec fn run(st: ParserView, lines: Seq<Seq<u8>>) -> Result<ParserView, ParseError>
    decreases lines.len(),
{
    if lines.len() == 0 {
        Ok(st)
    } else {
        match run(st, lines.drop_last()) {
            Err(e) => Err(e),
            Ok(s) => feed(s, lines.last()),
        }
    }
}

proof fn lemma_run_err_extends(st: ParserView, lines: Seq<Seq<u8>>, i: int)
    requires
        0 <= i <= lines.len(),
        run(st, lines.subrange(0, i)) is Err,
    ensures
        run(st, lines) == run(st, lines.subrange(0, i)),
    decreases lines.len() - i,
{
    if i < lines.len() {
        assert(lines.subrange(0, i + 1).drop_last() =~= lines.subrange(0, i));
        lemma_run_err_extends(st, lines, i + 1);
    } else {
        assert(lines.subrange(0, i) =~= lines);
    }
}

/// A line that carries nothing before the header: blank, commented out, or
/// skipped as a line that starts with a space or an underscore.
pub open spec fn is_filler(raw: Seq<u8>) -> bool {
    is_blank(raw) || prepared(raw) is None
}

/// The index of the first line that is not filler, or the number of lines.
pub open spec fn first_content(ls: Seq<Seq<u8>>) -> int
    decreases ls.len(),
{
    if ls.len() == 0 || !is_filler(ls[0]) {
        0
    } else {
        1 + first_content(ls.drop_first())
    }
}

proof fn lemma_first_content(ls: Seq<Seq<u8>>, h: int)
    requires
        0 <= h <= ls.len(),
        forall|j: int| 0 <= j < h ==> is_filler(#[trigger] ls[j]),
        h < ls.len() ==> !is_filler(ls[h]),
    ensures
        first_content(ls) == h,
    decreases ls.len(),
{
    if h > 0 {
        assert forall|j: int| 0 <= j < h - 1 implies is_filler(#[trigger] ls.drop_first()[j]) by {
            assert(ls.drop_first()[j] == ls[j + 1]);
        }
        lemma_first_content(ls.drop_first(), h - 1);
    }
}

/// What a whole file reads as. The first line that is not filler must hold
/// the file header; the lines after it are read section by section, and the
/// last section is ended with the file.
pub open spec fn parse_spec(input: Seq<u8>) -> Result<BeatmapView, ParseError> {
    let ls = split(input, 10);
    let h = first_content(ls);
    if h >= ls.len() {
        Err(ParseError::IncorrectFileHeader)
    } else {
        match header_version(ls[h]) {
            Err(e) => Err(e),
            Ok(v) => match run(initial(v), ls.subrange(h + 1, ls.len() as int)) {
                Err(e) => Err(e),
                Ok(s) => match finish_section(s) {
                    Err(e) => Err(e),
                    Ok(f) => Ok(f.map),
                },
            },
        }
    }
}

impl Beatmap {
    /// Parses a beatmap from the bytes of a `.osu` file.
    pub fn parse(input: &[u8]) -> (r: Result<Beatmap, ParseError>)
        ensures
            match parse_spec(input@) {
                Ok(m) => r is Ok && r->Ok_0@ == m,
                Err(e) => r == Err::<Beatmap, ParseError>(e),
            },
    {
        let lines = split_bytes(input, 10);
        let ghost ls = split(input@, 10);
        proof {
            assert(pieces(lines@) =~= ls);
        }
        let n = lines.len();
        let mut h: usize = 0;
        while h < n && (blank_line(lines[h]) || prepare_line(lines[h]).is_none())
            invariant
                n == lines@.len() == ls.len(),
                h <= n,
                forall|k: int| 0 <= k < lines@.len() ==> (#[trigger] lines@[k])@ == ls[k],
                forall|j: int| 0 <= j < h ==> is_filler(#[trigger] ls[j]),
            decreases n - h,
        {
            h = h + 1;
        }
        proof {
            lemma_first_content(ls, h as int);
        }
        if h >= n {
            return Err(ParseError::IncorrectFileHeader);
        }
        let version = match read_header(lines[h]) {
            Err(e) => {
                return Err(e);
            },
            Ok(v) => v,
        };
        let mut p = Parser::new(version);
        let ghost rest = ls.subrange(h + 1, n as int);
        let mut i: usize = h + 1;
        assert(rest.subrange(0, 0) =~= Seq::<Seq<u8>>::empty());
        while i < n
            invariant
                n == lines@.len() == ls.len(),
                h < i <= n,
                ls == split(input@, 10),
                first_content(ls) == h,
                header_version(ls[h as int]) == Ok::<u8, ParseError>(version),
                rest == ls.subrange(h + 1, n as int),
                forall|k: int| 0 <= k < lines@.len() ==> (#[trigger] lines@[k])@ == ls[k],
                run(initial(version), rest.subrange(0, i - h - 1)) == Ok::<ParserView, ParseError>(p@),
            decreases n - i,
        {
            assert(rest.subrange(0, i - h).drop_last() =~= rest.subrange(0, i - h - 1));
            assert(rest.subrange(0, i - h).last() == ls[i as int]);
            let ghost before = p@;
            match p.feed_line(lines[i]) {
                Err(e) => {
                    proof {
                        assert(feed(before, ls[i as int]) == Err::<ParserView, ParseError>(e));
                        assert(run(initial(version), rest.subrange(0, i - h)) == Err::<
                            ParserView,
                            ParseError,
                        >(e));
                        lemma_run_err_extends(initial(version), rest, i - h);
                    }
                    return Err(e);
                },
                Ok(()) => {},
            }
            i = i + 1;
        }
        assert(rest.subrange(0, n - h - 1) =~= rest);
        match p.finish_section() {
            Err(e) => Err(e),
            Ok(()) => Ok(p.map),
        }
    }

    /// The tempo of the first timing section, in beats per minute: zero for
    /// a map without timing points, and `None` where the first beat length is
    /// zero (an infinite tempo).
    pub fn bpm(&self) -> (r: Option<Num>)
        ensures
            self.timing_points@.len() == 0 ==> r == Some(Num { units: 0 }),
            self.timing_points@.len() > 0 ==> r == bpm_of(self.timing_points@[0].beat_len),
    {
        if self.timing_points.len() == 0 {
            Some(Num { units: 0 })
        } else {
            bpm(self.timing_points[0].beat_len)
        }
    }
}

/// Beats per minute times 10^18: the numerator of `60000 / b` in units.
pub const BPM_NUMERATOR: i128 = 60_000_000_000_000_000_000_000;

/// The tempo of a beat length `b`: `60000 / b`, rounded towards zero, and
/// negative for a negative beat length; none for a beat length of zero.
pub open spec fn bpm_of(b: Num) -> Option<Num> {
    if b.units == 0 {
        None
    } else if b.units > 0 {
        Some(Num { units: ((BPM_NUMERATOR as int) / (b.units as int)) as i128 })
    } else {
        Some(Num { units: (-((BPM_NUMERATOR as int) / (-(b.units as int)))) as i128 })
    }
}

/// The tempo in beats per minute of a beat length in ms.
pub fn bpm(beat_len: Num) -> (r: Option<Num>)
    ensures
        r == bpm_of(beat_len),
{
    let b = beat_len.units;
    if b == 0 {
        None
    } else if b > 0 {
        Some(Num { units: BPM_NUMERATOR / b })
    } else if b < -BPM_NUMERATOR {
        assert((BPM_NUMERATOR as int) / (-(b as int)) == 0) by {
            vstd::arithmetic::div_mod::lemma_basic_div(BPM_NUMERATOR as int, -(b as int));
        }
        Some(Num { units: 0 })
    } else {
        Some(Num { units: -(BPM_NUMERATOR / (-b)) })
    }
}

/// The hit objects agree with the record of their order: unless one arrived
/// earlier than its predecessor, they are ordered by time and the last one is
/// at the time recorded.
pub open spec fn objects_tracked(st: ParserView) -> bool {
    !st.state.unsorted_objects ==> sorted_by_time(st.map.hit_objects) && (st.map.hit_objects.len()
        > 0 ==> st.map.hit_objects.last().start_time == st.state.prev_object)
}

/// No line of `lines` is a section header.
pub open spec fn no_headers(lines: Seq<Seq<u8>>) -> bool {
    forall|i: int|
        0 <= i < lines.len() ==> match prepared(#[trigger] lines[i]) {
            Some(l) => !is_section_header(l),
            None => true,
        }
}

proof fn lemma_hit_object_step_tracked(st: ParserView, l: Seq<u8>)
    requires
        objects_tracked(st),
        hit_object_step(st, l) is Ok,
    ensures
        objects_tracked(hit_object_step(st, l)->Ok_0),
        hit_object_step(st, l)->Ok_0.section == st.section,
        hit_object_step(st, l)->Ok_0.map.mode == st.map.mode,
{
    let h = hit_object_line(l)->Ok_0.0;
    let s = hit_object_step(st, l)->Ok_0;
    let old_objs = st.map.hit_objects;
    assert(s.map.hit_objects == old_objs.push(h));
    if !s.state.unsorted_objects {
        assert forall|a: int, b: int| 0 <= a < b < s.map.hit_objects.len() implies
            s.map.hit_objects[a].time_of() <= s.map.hit_objects[b].time_of() by {
            if b < old_objs.len() {
                assert(s.map.hit_objects[a] == old_objs[a]);
                assert(s.map.hit_objects[b] == old_objs[b]);
            } else {
                assert(s.map.hit_objects[a] == old_objs[a]);
                assert(old_objs[a].time_of() <= old_objs.last().time_of());
            }
        }
    }
}

proof fn lemma_run_tracked(st: ParserView, lines: Seq<Seq<u8>>)
    requires
        st.section == Section::HitObjects,
        objects_tracked(st),
        no_headers(lines),
        run(st, lines) is Ok,
    ensures
        run(st, lines)->Ok_0.section == Section::HitObjects,
        run(st, lines)->Ok_0.map.mode == st.map.mode,
        objects_tracked(run(st, lines)->Ok_0),
    decreases lines.len(),
{
    if lines.len() > 0 {
        let pre = lines.drop_last();
        assert(no_headers(pre)) by {
            assert forall|i: int| 0 <= i < pre.len() implies match prepared(#[trigger] pre[i]) {
                Some(l) => !is_section_header(l),
                None => true,
            } by {
                assert(pre[i] == lines[i]);
            }
        }
        lemma_run_tracked(st, pre);
        let s = run(st, pre)->Ok_0;
        reveal(feed);
        let last = lines[lines.len() - 1];
        assert(lines.last() == last);
        match prepared(last) {
            None => {},
            Some(l) => {
                lemma_hit_object_step_tracked(s, l);
            },
        }
    }
}

/// A section of hit objects that begins with none ends with them ordered by
/// time; in osu!mania, objects of equal time keep the order of the file.
pub proof fn lemma_hit_objects_ordered(st: ParserView, lines: Seq<Seq<u8>>)
    requires
        st.section == Section::HitObjects,
        st.state == fresh_state(),
        st.map.hit_objects.len() == 0,
        no_headers(lines),
        run(st, lines) is Ok,
    ensures
        ({
            let s = run(st, lines)->Ok_0;
            &&& finish_section(s) is Ok
            &&& sorted_by_time(finish_section(s)->Ok_0.map.hit_objects)
            &&& s.map.mode == GameMode::MNA ==> forall|t: int|
                #[trigger] at_time(finish_section(s)->Ok_0.map.hit_objects, t) == at_time(
                    s.map.hit_objects,
                    t,
                )
        }),
{
    lemma_run_tracked(st, lines);
    let s = run(st, lines)->Ok_0;
    if s.map.mode == GameMode::MNA || s.state.unsorted_objects {
        lemma_stable_sort_sorted(s.map.hit_objects);
        assert forall|t: int|
            #[trigger] at_time(stable_sort(s.map.hit_objects), t) == at_time(s.map.hit_objects, t) by {
            lemma_stable_sort_stable(s.map.hit_objects, t);
        }
    }
}

/// Timing and difficulty points that arrived ordered by time keep the order
/// in which they arrived when their section ends.
pub proof fn lemma_sorted_points_kept(st: ParserView)
    requires
        st.section == Section::TimingPoints,
    ensures
        finish_section(st) is Ok,
        sorted_by_time(st.map.timing_points) ==> finish_section(st)->Ok_0.map.timing_points
            == st.map.timing_points,
        sorted_by_time(st.map.difficulty_points) ==> finish_section(st)->Ok_0.map.difficulty_points
            == st.map.difficulty_points,
{
    if sorted_by_time(st.map.timing_points) {
        lemma_stable_sort_keeps_sorted(st.map.timing_points);
    }
    if sorted_by_time(st.map.difficulty_points) {
        lemma_stable_sort_keeps_sorted(st.map.difficulty_points);
    }
}

/// A file whose first meaningful line (neither blank, commented out nor
/// skipped) lacks the header token is refused with the incorrect-header
/// error, and no beatmap is produced.
pub proof fn lemma_missing_header(input: Seq<u8>)
    requires
        ({
            let ls = split(input, 10);
            first_content(ls) < ls.len() ==> find_seq(ls[first_content(ls)], file_header_word()) < 0
        }),
    ensures
        parse_spec(input) == Err::<BeatmapView, ParseError>(ParseError::IncorrectFileHeader),
{
}

/// A slider with more than 9000 repeats is refused with the too-many-repeats
/// error, whatever its control points hold: the result does not depend on
/// `slider_path`, so no control point is reconstructed (`convert_points` is
/// never reached).
pub proof fn lemma_too_many_repeats(f: Seq<Seq<u8>>, k: int, pos: Pos2, time: Num, r: int)
    requires
        k % 2 == 0,
        (k / 2) % 2 == 1,
        f.len() >= 7,
        uint_literal(f[6], u64::MAX as int) == Some(r),
        r > 9000,
    ensures
        object_kind(f, k, pos, time) == Err::<HitObjectKindView, ParseError>(
            ParseError::TooManyRepeats,
        ),
{
}

} // verus!
