//! The beatmap model, and the reading of lines: comments, blank lines,
//! section headers and the file header.
use vstd::prelude::*;

use crate::attributes::BeatmapAttributes;
use crate::hitobject::{views, DifficultyPoint, HitObject, HitObjectView, TimingPoint};
use crate::num::{parse_uint, uint_literal, Num, SCALE};
use crate::text::{is_space, starts_with, trim_end, bytes_start_with, trim_end_bytes};
use crate::words::{
    comment_bytes, comment_word, difficulty_word, file_header_bytes, file_header_word, general_word, hit_objects_word, is_difficulty, is_general, is_hit_objects, is_timing_points, timing_points_word,
};

verus! {

/// The mode of a beatmap.
#[derive(Clone, Copy, Debug, PartialEq, Eq, Hash, Structural)]
#[allow(clippy::upper_case_acronyms)]
pub enum GameMode {
    /// osu!standard
    STD,
    /// osu!taiko
    TKO,
    /// osu!ctb
    CTB,
    /// osu!mania
    MNA,
}

impl Default for GameMode {
    fn default() -> (r: GameMode)
        ensures
            r == GameMode::STD,
    {
        GameMode::STD
    }
}

/// The section of the file that lines belong to.
#[derive(Clone, Copy, Debug, PartialEq, Eq, Structural)]
pub enum Section {
    /// Before the first section, or in one that is not read.
    Other,
    General,
    Difficulty,
    TimingPoints,
    HitObjects,
}

/// The section that a header `[name]` opens; unknown names open none.
pub open spec fn section_of(name: Seq<u8>) -> Section {
    if name == general_word() {
        Section::General
    } else if name == difficulty_word() {
        Section::Difficulty
    } else if name == timing_points_word() {
        Section::TimingPoints
    } else if name == hit_objects_word() {
        Section::HitObjects
    } else {
        Section::Other
    }
}

impl Section {
    /// The section that a header `[name]` opens.
    pub fn from_str(name: &[u8]) -> (r: Section)
        ensures
            r == section_of(name@),
    {
        if is_general(name) {
            Section::General
        } else if is_difficulty(name) {
            Section::Difficulty
        } else if is_timing_points(name) {
            Section::TimingPoints
        } else if is_hit_objects(name) {
            Section::HitObjects
        } else {
            Section::Other
        }
    }
}

/// The data of a beatmap that difficulty and performance calculation needs.
#[derive(Clone, Debug)]
pub struct Beatmap {
    /// The game mode.
    pub mode: GameMode,
    /// The version of the file format.
    pub version: u8,
    /// The number of circles.
    pub n_circles: u32,
    /// The number of sliders (hold notes included).
    pub n_sliders: u32,
    /// The number of spinners.
    pub n_spinners: u32,
    /// The approach rate.
    pub ar: Num,
    /// The overall difficulty.
    pub od: Num,
    /// The circle size.
    pub cs: Num,
    /// The health drain rate.
    pub hp: Num,
    /// Base slider velocity in pixels per beat.
    pub slider_mult: Num,
    /// Slider ticks per beat.
    pub tick_rate: Num,
    /// The hit objects.
    pub hit_objects: Vec<HitObject>,
    /// The points that start timing sections.
    pub timing_points: Vec<TimingPoint>,
    /// The points that change slider speed.
    pub difficulty_points: Vec<DifficultyPoint>,
    /// The stack leniency of osu!standard.
    pub stack_leniency: Num,
}

/// A [`Beatmap`] with its lists as sequences.
pub struct BeatmapView {
    pub mode: GameMode,
    pub version: u8,
    pub n_circles: u32,
    pub n_sliders: u32,
    pub n_spinners: u32,
    pub ar: Num,
    pub od: Num,
    pub cs: Num,
    pub hp: Num,
    pub slider_mult: Num,
    pub tick_rate: Num,
    pub hit_objects: Seq<HitObjectView>,
    pub timing_points: Seq<TimingPoint>,
    pub difficulty_points: Seq<DifficultyPoint>,
    pub stack_leniency: Num,
}

impl View for Beatmap {
    type V = BeatmapView;

    open spec fn view(&self) -> BeatmapView {
        BeatmapView {
            mode: self.mode,
            version: self.version,
            n_circles: self.n_circles,
            n_sliders: self.n_sliders,
            n_spinners: self.n_spinners,
            ar: self.ar,
            od: self.od,
            cs: self.cs,
            hp: self.hp,
            slider_mult: self.slider_mult,
            tick_rate: self.tick_rate,
            hit_objects: views(self.hit_objects@),
            timing_points: self.timing_points@,
            difficulty_points: self.difficulty_points@,
            stack_leniency: self.stack_leniency,
        }
    }
}

/// A beatmap before any section is read: all values zero, no objects.
pub open spec fn empty_map(version: u8) -> BeatmapView {
    BeatmapView {
        mode: GameMode::STD,
        version,
        n_circles: 0,
        n_sliders: 0,
        n_spinners: 0,
        ar: Num { units: 0 },
        od: Num { units: 0 },
        cs: Num { units: 0 },
        hp: Num { units: 0 },
        slider_mult: Num { units: 0 },
        tick_rate: Num { units: 0 },
        hit_objects: Seq::empty(),
        timing_points: Seq::empty(),
        difficulty_points: Seq::empty(),
        stack_leniency: Num { units: 0 },
    }
}

impl Default for Beatmap {
    /// A beatmap of format version 0 with all values zero and no objects.
    fn default() -> (r: Beatmap)
        ensures
            r@ == empty_map(0),
    {
        Beatmap::empty(0)
    }
}

impl Beatmap {
    /// A beatmap of the given format version with all values zero and no objects.
    pub fn empty(version: u8) -> (r: Beatmap)
        ensures
            r@ == empty_map(version),
    {
        let r = Beatmap {
            mode: GameMode::STD,
            version,
            n_circles: 0,
            n_sliders: 0,
            n_spinners: 0,
            ar: Num { units: 0 },
            od: Num { units: 0 },
            cs: Num { units: 0 },
            hp: Num { units: 0 },
            slider_mult: Num { units: 0 },
            tick_rate: Num { units: 0 },
            hit_objects: Vec::new(),
            timing_points: Vec::new(),
            difficulty_points: Vec::new(),
            stack_leniency: Num { units: 0 },
        };
        assert(r@.hit_objects =~= Seq::<HitObjectView>::empty());
        r
    }

    /// The map's attributes, without mods.
    pub fn attributes(&self) -> (r: BeatmapAttributes)
        ensures
            r == (BeatmapAttributes {
                ar: self.ar,
                od: self.od,
                cs: self.cs,
                hp: self.hp,
                clock_rate: Num { units: SCALE },
            }),
    {
        BeatmapAttributes::new(self.ar, self.od, self.cs, self.hp)
    }
}

/// The index of the first occurrence of `p` in `s`, or -1.
pub open spec fn find_seq(s: Seq<u8>, p: Seq<u8>) -> int
    decreases s.len(),
{
    if starts_with(s, p) {
        0
    } else if s.len() == 0 {
        -1
    } else {
        let r = find_seq(s.drop_first(), p);
        if r < 0 {
            -1
        } else {
            r + 1
        }
    }
}

proof fn lemma_find_seq(s: Seq<u8>, p: Seq<u8>, i: int)
    requires
        0 <= i <= s.len(),
        forall|j: int| 0 <= j < i ==> !starts_with(#[trigger] s.subrange(j, s.len() as int), p),
    ensures
        starts_with(s.subrange(i, s.len() as int), p) ==> find_seq(s, p) == i,
        (forall|j: int| i <= j <= s.len() ==> !starts_with(#[trigger] s.subrange(j, s.len() as int), p))
            ==> find_seq(s, p) == -1,
    decreases s.len(),
{
    assert(s.subrange(0, s.len() as int) =~= s);
    if s.len() > 0 {
        let t = s.drop_first();
        if i > 0 {
            assert(!starts_with(s.subrange(0, s.len() as int), p));
            assert forall|j: int| 0 <= j < i - 1 implies !starts_with(#[trigger] t.subrange(j, t.len() as int), p) by {
                assert(t.subrange(j, t.len() as int) =~= s.subrange(j + 1, s.len() as int));
            }
            assert(t.subrange(i - 1, t.len() as int) =~= s.subrange(i, s.len() as int));
            lemma_find_seq(t, p, i - 1);
            if forall|j: int| i <= j <= s.len() ==> !starts_with(#[trigger] s.subrange(j, s.len() as int), p) {
                assert forall|j: int| i - 1 <= j <= t.len() implies !starts_with(#[trigger] t.subrange(j, t.len() as int), p) by {
                    assert(t.subrange(j, t.len() as int) =~= s.subrange(j + 1, s.len() as int));
                }
            }
        } else {
            if forall|j: int| i <= j <= s.len() ==> !starts_with(#[trigger] s.subrange(j, s.len() as int), p) {
                assert(!starts_with(s.subrange(0, s.len() as int), p));
                assert forall|j: int| 0 <= j <= t.len() implies !starts_with(#[trigger] t.subrange(j, t.len() as int), p) by {
                    assert(t.subrange(j, t.len() as int) =~= s.subrange(j + 1, s.len() as int));
                }
                lemma_find_seq(t, p, 0);
            }
        }
    } else {
        if forall|j: int| i <= j <= s.len() ==> !starts_with(#[trigger] s.subrange(j, s.len() as int), p) {
            assert(!starts_with(s.subrange(0, 0), p));
        }
    }
}

/// The index of the first occurrence of `p` in `s`.
pub fn find_bytes(s: &[u8], p: &[u8]) -> (r: Option<usize>)
    ensures
        match r {
            Some(i) => find_seq(s@, p@) == i as int && i + p@.len() <= s@.len(),
            None => find_seq(s@, p@) == -1,
        },
{
    let mut i: usize = 0;
    while i < s.len()
        invariant
            i <= s@.len(),
            forall|j: int| 0 <= j < i ==> !starts_with(#[trigger] s@.subrange(j, s@.len() as int), p@),
        decreases s.len() - i,
    {
        let rest = &s[i..s.len()];
        if bytes_start_with(rest, p) {
            proof {
                lemma_find_seq(s@, p@, i as int);
            }
            return Some(i);
        }
        i = i + 1;
    }
    if p.len() == 0 {
        proof {
            assert(s@.subrange(i as int, s@.len() as int).subrange(0, 0) =~= p@);
            lemma_find_seq(s@, p@, i as int);
        }
        return Some(i);
    }
    proof {
        lemma_find_seq(s@, p@, s@.len() as int);
    }
    None
}

/// Lines that are empty, commented out, or start with a space or an underscore.
pub open spec fn skip_line(l: Seq<u8>) -> bool {
    l.len() == 0 || starts_with(l, comment_word()) || l[0] == 32 || l[0] == 95
}

/// The content of a line as read from the file: trailing whitespace and any
/// comment removed; `None` for a line that is skipped.
pub open spec fn prepared(raw: Seq<u8>) -> Option<Seq<u8>> {
    let l = trim_end(raw);
    if skip_line(l) {
        None
    } else {
        let i = find_seq(l, comment_word());
        Some(
            if i < 0 {
                l
            } else {
                l.subrange(0, i)
            },
        )
    }
}

/// Prepares a line as read from the file.
pub fn prepare_line(raw: &[u8]) -> (r: Option<&[u8]>)
    ensures
        opt_bytes(r) == prepared(raw@),
{
    let l = trim_end_bytes(raw);
    let c = comment_bytes();
    if l.len() == 0 || bytes_start_with(l, c.as_slice()) || l[0] == 32 || l[0] == 95 {
        return None;
    }
    match find_bytes(l, c.as_slice()) {
        Some(i) => Some(&l[0..i]),
        None => Some(l),
    }
}

pub open spec fn opt_bytes(o: Option<&[u8]>) -> Option<Seq<u8>> {
    match o {
        Some(p) => Some(p@),
        None => None,
    }
}

/// A line of the form `[name]`.
pub open spec fn is_section_header(l: Seq<u8>) -> bool {
    l.len() > 0 && l[0] == 91 && l.last() == 93
}

/// The byte-order mark U+FEFF in UTF-8.
pub open spec fn bom() -> Seq<u8> {
    seq![0xEFu8, 0xBB, 0xBF]
}

/// A line holding nothing but whitespace and byte-order marks.
pub open spec fn is_blank(raw: Seq<u8>) -> bool
    decreases raw.len(),
{
    if raw.len() == 0 {
        true
    } else if is_space(raw[0]) {
        is_blank(raw.drop_first())
    } else if starts_with(raw, bom()) {
        is_blank(raw.subrange(3, raw.len() as int))
    } else {
        false
    }
}

pub fn blank_line(raw: &[u8]) -> (r: bool)
    ensures
        r == is_blank(raw@),
{
    let n = raw.len();
    let mut i: usize = 0;
    assert(raw@.subrange(0, n as int) =~= raw@);
    while i < n
        invariant
            n == raw@.len(),
            i <= n,
            is_blank(raw@.subrange(i as int, n as int)) == is_blank(raw@),
        decreases n - i,
    {
        let ghost rest = raw@.subrange(i as int, n as int);
        let b = raw[i];
        assert(rest[0] == b);
        if b == 32 || (9 <= b && b <= 13) {
            assert(rest.drop_first() =~= raw@.subrange(i + 1, n as int));
            i = i + 1;
        } else if n - i >= 3 && b == 0xEF && raw[i + 1] == 0xBB && raw[i + 2] == 0xBF {
            assert(rest.subrange(0, 3) =~= bom());
            assert(rest.subrange(3, rest.len() as int) =~= raw@.subrange(i + 3, n as int));
            i = i + 3;
        } else {
            assert(!starts_with(rest, bom())) by {
                if rest.len() >= 3 {
                    assert(rest.subrange(0, 3)[0] == rest[0]);
                    assert(rest.subrange(0, 3)[1] == rest[1]);
                    assert(rest.subrange(0, 3)[2] == rest[2]);
                }
            }
            return false;
        }
    }
    assert(raw@.subrange(i as int, n as int) =~= Seq::<u8>::empty());
    true
}

/// The version that the header line `l` declares.
pub open spec fn header_version(l: Seq<u8>) -> Result<u8, crate::error::ParseError> {
    let i = find_seq(l, file_header_word());
    if i < 0 {
        Err(crate::error::ParseError::IncorrectFileHeader)
    } else {
        match uint_literal(trim_end(l.subrange(i + 17, l.len() as int)), 255) {
            Some(v) => Ok(v as u8),
            None => Err(crate::error::ParseError::InvalidInteger),
        }
    }
}

/// Reads the version from the header line.
pub fn read_header(l: &[u8]) -> (r: Result<u8, crate::error::ParseError>)
    ensures
        r == header_version(l@),
{
    let h = file_header_bytes();
    let hs = h.as_slice();
    assert(hs@.len() == 17);
    let found = find_bytes(l, hs);
    match found {
        None => Err(crate::error::ParseError::IncorrectFileHeader),
        Some(i) => {
            let n = l.len();
            assert(i + 17 <= n);
            let rest = trim_end_bytes(&l[i + 17..n]);
            match parse_uint(rest, 255) {
                Some(v) => Ok(v as u8),
                None => Err(crate::error::ParseError::InvalidInteger),
            }
        },
    }
}

} // verus!
