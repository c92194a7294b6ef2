//! Slider paths: control points read from a hit object's `|`-separated point
//! list, split into typed segments.
use vstd::prelude::*;

use crate::error::ParseError;
use crate::num::{decimal_literal, parse_decimal, Num, UNIT_LIMIT};
use crate::text::{opt_piece, pieces, split, split_bytes};

verus! {

/// A position on the playfield.
#[derive(Clone, Copy, Debug, PartialEq, Eq, Structural)]
pub struct Pos2 {
    pub x: Num,
    pub y: Num,
}

impl Pos2 {
    /// Both coordinates lie in the range that literals are read into.
    pub open spec fn in_range(self) -> bool {
        self.x.in_range() && self.y.in_range()
    }

    /// Both coordinates are differences of two positions in range.
    pub open spec fn in_relative_range(self) -> bool {
        -2 * UNIT_LIMIT < self.x.units < 2 * UNIT_LIMIT && -2 * UNIT_LIMIT < self.y.units < 2
            * UNIT_LIMIT
    }
}

/// The type of curve of a slider segment.
#[derive(Clone, Copy, Debug, PartialEq, Eq, Structural)]
pub enum PathType {
    Catmull,
    Bezier,
    Linear,
    PerfectCurve,
}

/// What a one-letter type token denotes: `L`, `B` and `P`; anything else is Catmull.
pub open spec fn path_type_of(s: Seq<u8>) -> PathType {
    if s == seq![76u8] {
        PathType::Linear
    } else if s == seq![66u8] {
        PathType::Bezier
    } else if s == seq![80u8] {
        PathType::PerfectCurve
    } else {
        PathType::Catmull
    }
}

impl PathType {
    /// Decodes a type token.
    pub fn from_str(s: &[u8]) -> (r: PathType)
        ensures
            r == path_type_of(s@),
    {
        if s.len() == 1 {
            assert(s@ =~= seq![s@[0]]);
            if s[0] == 76 {
                PathType::Linear
            } else if s[0] == 66 {
                PathType::Bezier
            } else if s[0] == 80 {
                PathType::PerfectCurve
            } else {
                PathType::Catmull
            }
        } else {
            PathType::Catmull
        }
    }
}

/// A control point of a slider path, relative to the slider's head.
#[derive(Clone, Copy, Debug, PartialEq, Eq, Structural)]
pub struct PathControlPoint {
    /// The position, relative to the hit object.
    pub pos: Pos2,
    /// The curve type; set on the first point of each segment.
    pub kind: Option<PathType>,
}

impl PathControlPoint {
    /// A point without a curve type.
    pub fn from(pos: Pos2) -> (r: PathControlPoint)
        ensures
            r == (PathControlPoint { pos, kind: None }),
    {
        PathControlPoint { pos, kind: None }
    }

    pub open spec fn with_kind(self, k: PathType) -> PathControlPoint {
        PathControlPoint { pos: self.pos, kind: Some(k) }
    }
}

/// Twice the area of the triangle `p0 p1 p2`, in squared units.
pub open spec fn cross(p0: Pos2, p1: Pos2, p2: Pos2) -> int {
    (p1.x.units - p0.x.units) * (p2.y.units - p0.y.units) - (p1.y.units - p0.y.units) * (
    p2.x.units - p0.x.units)
}

/// The tolerance of the collinearity test: 2^-23 expressed in squared units
/// (10^-18), rounded down.
pub const LINEAR_TOLERANCE: i128 = 119_209_289_550;

/// Whether three points lie on one line, up to the tolerance.
pub open spec fn collinear(p0: Pos2, p1: Pos2, p2: Pos2) -> bool {
    -LINEAR_TOLERANCE <= cross(p0, p1, p2) <= LINEAR_TOLERANCE
}

/// Whether three points lie on one line, up to the tolerance.
pub fn is_linear(p0: Pos2, p1: Pos2, p2: Pos2) -> (r: bool)
    requires
        p0.in_relative_range(),
        p1.in_relative_range(),
        p2.in_relative_range(),
    ensures
        r == collinear(p0, p1, p2),
{
    let ax = p1.x.units - p0.x.units;
    let ay = p1.y.units - p0.y.units;
    let bx = p2.x.units - p0.x.units;
    let by = p2.y.units - p0.y.units;
    assert(-16_000_000_000_000_000_000_000_000_000_000_000_000 < ax * by
        < 16_000_000_000_000_000_000_000_000_000_000_000_000) by (nonlinear_arith)
        requires
            -4_000_000_000_000_000_000 < ax < 4_000_000_000_000_000_000,
            -4_000_000_000_000_000_000 < by < 4_000_000_000_000_000_000,
    ;
    assert(-16_000_000_000_000_000_000_000_000_000_000_000_000 < ay * bx
        < 16_000_000_000_000_000_000_000_000_000_000_000_000) by (nonlinear_arith)
        requires
            -4_000_000_000_000_000_000 < ay < 4_000_000_000_000_000_000,
            -4_000_000_000_000_000_000 < bx < 4_000_000_000_000_000_000,
    ;
    let c = ax * by - ay * bx;
    -LINEAR_TOLERANCE <= c && c <= LINEAR_TOLERANCE
}

/// What a point token `x:y` reads as, relative to `anchor`. Pieces after the
/// second are ignored.
pub open spec fn point_literal(s: Seq<u8>, anchor: Pos2) -> Result<PathControlPoint, ParseError> {
    let parts = split(s, 58);
    if parts.len() >= 2 && decimal_literal(parts[0]) is Ok && decimal_literal(parts[1]) is Ok {
        Ok(
            PathControlPoint {
                pos: Pos2 {
                    x: Num {
                        units: (decimal_literal(parts[0])->Ok_0.units - anchor.x.units) as i128,
                    },
                    y: Num {
                        units: (decimal_literal(parts[1])->Ok_0.units - anchor.y.units) as i128,
                    },
                },
                kind: None,
            },
        )
    } else {
        Err(ParseError::InvalidCurvePoints)
    }
}

/// Reads a point token relative to `anchor`.
pub fn read_point(s: &[u8], anchor: Pos2) -> (r: Result<PathControlPoint, ParseError>)
    requires
        anchor.in_range(),
    ensures
        r == point_literal(s@, anchor),
        r matches Ok(p) ==> p.pos.in_relative_range(),
{
    let parts = split_bytes(s, 58);
    if parts.len() < 2 {
        return Err(ParseError::InvalidCurvePoints);
    }
    let x = parse_decimal(parts[0]);
    let y = parse_decimal(parts[1]);
    match (x, y) {
        (Ok(x), Ok(y)) => Ok(
            PathControlPoint {
                pos: Pos2 {
                    x: Num { units: x.units - anchor.x.units },
                    y: Num { units: y.units - anchor.y.units },
                },
                kind: None,
            },
        ),
        _ => Err(ParseError::InvalidCurvePoints),
    }
}

/// The points of a list of tokens, read in order; the first failure wins.
pub open spec fn read_points(toks: Seq<Seq<u8>>, anchor: Pos2) -> Result<
    Seq<PathControlPoint>,
    ParseError,
>
    decreases toks.len(),
{
    if toks.len() == 0 {
        Ok(Seq::empty())
    } else {
        match read_points(toks.drop_last(), anchor) {
            Err(e) => Err(e),
            Ok(ps) => match point_literal(toks.last(), anchor) {
                Err(e) => Err(e),
                Ok(p) => Ok(ps.push(p)),
            },
        }
    }
}

/// `s` with its last point marked with the curve type `k`.
pub open spec fn mark_last(s: Seq<PathControlPoint>, k: PathType) -> Seq<PathControlPoint> {
    if s.len() == 0 {
        s
    } else {
        s.update(s.len() - 1, s.last().with_kind(k))
    }
}

/// The implicit segments of the vertex list `v` from index `end` on, where the
/// current segment began at `start` and `limit` bounds the scan. A point at the
/// same position as its predecessor ends a segment (its predecessor is marked
/// with `k`, and the point itself is dropped), unless it is the last point scanned.
pub open spec fn segments(
    v: Seq<PathControlPoint>,
    k: PathType,
    limit: int,
    start: int,
    end: int,
) -> Seq<PathControlPoint>
    decreases limit - end,
{
    if end >= limit {
        if end > start {
            v.subrange(start, end)
        } else {
            Seq::empty()
        }
    } else if v[end].pos == v[end - 1].pos && end != limit - 1 {
        mark_last(v.subrange(start, end), k) + segments(v, k, limit, end + 1, end + 1)
    } else {
        segments(v, k, limit, start, end + 1)
    }
}

/// The curve type of a segment: PerfectCurve becomes `perfect`, what the
/// whole object allows.
pub open spec fn resolve(k: PathType, perfect: PathType) -> PathType {
    if k == PathType::PerfectCurve {
        perfect
    } else {
        k
    }
}

/// The vertices of one explicit segment: the segment's points and the point
/// that starts the next segment, read relative to `anchor`.
pub open spec fn segment_vertices(
    points: Seq<Seq<u8>>,
    end_point: Option<Seq<u8>>,
    anchor: Pos2,
) -> Result<Seq<PathControlPoint>, ParseError> {
    let toks = match end_point {
        Some(e) => points.drop_first().push(e),
        None => points.drop_first(),
    };
    read_points(toks, anchor)
}

/// The control points that one explicit segment (`points[0]` is its type
/// token) contributes.
pub open spec fn converted(
    points: Seq<Seq<u8>>,
    end_point: Option<Seq<u8>>,
    anchor: Pos2,
    perfect: PathType,
) -> Result<Seq<PathControlPoint>, ParseError> {
    match segment_vertices(points, end_point, anchor) {
        Err(e) => Err(e),
        Ok(v) => if v.len() == 0 {
            Ok(Seq::empty())
        } else {
            let k = resolve(path_type_of(points[0]), perfect);
            let limit = if end_point is Some {
                v.len() - 1
            } else {
                v.len() as int
            };
            Ok(segments(v.update(0, v[0].with_kind(k)), k, limit, 0, 1))
        },
    }
}

fn read_segment_vertices(points: &[&[u8]], end_point: Option<&[u8]>, anchor: Pos2) -> (r: Result<
    Vec<PathControlPoint>,
    ParseError,
>)
    requires
        points@.len() >= 1,
        anchor.in_range(),
    ensures
        segment_vertices(pieces(points@), opt_piece(end_point), anchor) == match r {
            Ok(v) => Ok(v@),
            Err(e) => Err::<Seq<PathControlPoint>, ParseError>(e),
        },
        r matches Ok(v) ==> forall|i: int| 0 <= i < v@.len() ==> (#[trigger] v@[i]).pos.in_relative_range(),
{
    let ghost pts = pieces(points@);
    let ghost toks = match end_point {
        Some(e) => pts.drop_first().push(e@),
        None => pts.drop_first(),
    };
    let mut v: Vec<PathControlPoint> = Vec::new();
    let n_toks: usize = match end_point {
        Some(_) => points.len(),
        None => points.len() - 1,
    };
    let mut i: usize = 0;
    assert(toks.subrange(0, 0) =~= Seq::<Seq<u8>>::empty());
    assert(v@ =~= Seq::<PathControlPoint>::empty());
    while i < n_toks
        invariant
            i <= n_toks == toks.len(),
            pts == pieces(points@),
            toks == match end_point {
                Some(e) => pts.drop_first().push(e@),
                None => pts.drop_first(),
            },
            points@.len() >= 1,
            anchor.in_range(),
            read_points(toks.subrange(0, i as int), anchor) == Ok::<
                Seq<PathControlPoint>,
                ParseError,
            >(v@),
            forall|j: int| 0 <= j < v@.len() ==> (#[trigger] v@[j]).pos.in_relative_range(),
        decreases n_toks - i,
    {
        let tok: &[u8] = if i + 1 < points.len() {
            points[i + 1]
        } else {
            match end_point {
                Some(e) => e,
                None => points[0],
            }
        };
        assert(tok@ == toks[i as int]);
        assert(toks.subrange(0, i + 1).drop_last() =~= toks.subrange(0, i as int));
        match read_point(tok, anchor) {
            Ok(p) => {
                v.push(p);
            },
            Err(e) => {
                proof {
                    lemma_read_points_err_extends(toks, anchor, i as int + 1);
                }
                return Err(e);
            },
        }
        i = i + 1;
    }
    assert(toks.subrange(0, toks.len() as int) =~= toks);
    Ok(v)
}

/// Once reading a prefix fails, reading the whole list fails the same way.
proof fn lemma_read_points_err_extends(toks: Seq<Seq<u8>>, anchor: Pos2, i: int)
    requires
        0 <= i <= toks.len(),
        read_points(toks.subrange(0, i), anchor) is Err,
    ensures
        read_points(toks, anchor) == read_points(toks.subrange(0, i), anchor),
    decreases toks.len() - i,
{
    if i < toks.len() {
        assert(toks.subrange(0, i + 1).drop_last() =~= toks.subrange(0, i));
        lemma_read_points_err_extends(toks, anchor, i + 1);
    } else {
        assert(toks.subrange(0, i) =~= toks);
    }
}

/// Appends the control points of one explicit segment to `curve_points`.
/// `points[0]` is the segment's type token; `end_point` starts the next segment.
pub fn convert_points(
    points: &[&[u8]],
    end_point: Option<&[u8]>,
    anchor: Pos2,
    perfect: PathType,
    curve_points: &mut Vec<PathControlPoint>,
) -> (r: Result<(), ParseError>)
    requires
        points@.len() >= 1,
        anchor.in_range(),
    ensures
        match converted(pieces(points@), opt_piece(end_point), anchor, perfect) {
            Ok(c) => r is Ok && final(curve_points)@ == old(curve_points)@ + c,
            Err(e) => r == Err::<(), ParseError>(e) && final(curve_points)@ == old(curve_points)@,
        },
{
    let mut v = match read_segment_vertices(points, end_point, anchor) {
        Ok(v) => v,
        Err(e) => return Err(e),
    };
    if v.len() == 0 {
        assert(old(curve_points)@ + Seq::<PathControlPoint>::empty() =~= curve_points@);
        return Ok(());
    }
    let declared = PathType::from_str(points[0]);
    let kind = if declared == PathType::PerfectCurve {
        perfect
    } else {
        declared
    };
    let lead = PathControlPoint { pos: v[0].pos, kind: Some(kind) };
    v.set(0, lead);
    let limit: usize = match end_point {
        Some(_) => v.len() - 1,
        None => v.len(),
    };
    let ghost vs = v@;
    let ghost total = segments(vs, kind, limit as int, 0, 1);
    let ghost base = old(curve_points)@;
    assert(base + total == curve_points@ + total);
    let mut start: usize = 0;
    let mut end: usize = 1;
    while end < limit
        invariant
            v@ == vs,
            vs.len() >= 1,
            limit <= vs.len(),
            start <= end,
            1 <= end,
            end <= limit || (limit == 0 && end == 1),
            base + total == curve_points@ + segments(vs, kind, limit as int, start as int, end as int),
        decreases limit - end,
    {
        if v[end].pos.x.units == v[end - 1].pos.x.units && v[end].pos.y.units == v[end - 1].pos.y.units
            && end != limit - 1 {
            assert(vs[end as int].pos == vs[end - 1].pos);
            let ghost before = curve_points@;
            if end > start {
                append_range(&v, start, end - 1, curve_points);
                let p = PathControlPoint { pos: v[end - 1].pos, kind: Some(kind) };
                curve_points.push(p);
                assert(mark_last(vs.subrange(start as int, end as int), kind) =~= vs.subrange(
                    start as int,
                    end - 1,
                ).push(p));
                assert(curve_points@ =~= before + mark_last(
                    vs.subrange(start as int, end as int),
                    kind,
                ));
            } else {
                assert(mark_last(vs.subrange(start as int, end as int), kind) =~= Seq::<
                    PathControlPoint,
                >::empty());
                assert(curve_points@ =~= before + mark_last(
                    vs.subrange(start as int, end as int),
                    kind,
                ));
            }
            start = end + 1;
            end = end + 1;
        } else {
            end = end + 1;
        }
    }
    if end > start {
        append_range(&v, start, end, curve_points);
    } else {
        assert(curve_points@ + Seq::<PathControlPoint>::empty() =~= curve_points@);
    }
    Ok(())
}

/// Appends `v[from..to]` to `out`.
fn append_range(v: &Vec<PathControlPoint>, from: usize, to: usize, out: &mut Vec<PathControlPoint>)
    requires
        from <= to <= v@.len(),
    ensures
        final(out)@ == old(out)@ + v@.subrange(from as int, to as int),
{
    let mut j: usize = from;
    while j < to
        invariant
            from <= j <= to <= v@.len(),
            out@ == old(out)@ + v@.subrange(from as int, j as int),
        decreases to - j,
    {
        out.push(v[j]);
        j = j + 1;
        assert(out@ =~= old(out)@ + v@.subrange(from as int, j as int));
    }
}

/// The tokens of more than one byte: the points, as opposed to type tokens.
pub open spec fn point_tokens(t: Seq<Seq<u8>>) -> Seq<Seq<u8>>
    decreases t.len(),
{
    if t.len() == 0 {
        Seq::empty()
    } else if t.last().len() > 1 {
        point_tokens(t.drop_last()).push(t.last())
    } else {
        point_tokens(t.drop_last())
    }
}

/// What a PerfectCurve segment of the object with tokens `t` becomes. The
/// object's whole point set (its point tokens) decides: with other than three
/// points the curve is a Bezier; three collinear points make it Linear.
pub open spec fn perfect_resolution(t: Seq<Seq<u8>>, anchor: Pos2) -> PathType {
    let pts = point_tokens(t.drop_first());
    if pts.len() != 3 {
        PathType::Bezier
    } else {
        match (
            point_literal(pts[0], anchor),
            point_literal(pts[1], anchor),
            point_literal(pts[2], anchor),
        ) {
            (Ok(a), Ok(b), Ok(c)) => if collinear(a.pos, b.pos, c.pos) {
                PathType::Linear
            } else {
                PathType::PerfectCurve
            },
            _ => PathType::Bezier,
        }
    }
}

/// `acc` followed by the points of `r`, if `r` succeeded.
pub open spec fn after(acc: Seq<PathControlPoint>, r: Result<Seq<PathControlPoint>, ParseError>) -> Result<
    Seq<PathControlPoint>,
    ParseError,
> {
    match r {
        Ok(s) => Ok(acc + s),
        Err(e) => Err(e),
    }
}

/// The control points of the explicit segments of `t` from index `end` on; the
/// current segment began at `start`. A token of at most one byte after the
/// first starts a new segment.
pub open spec fn object_segments(
    t: Seq<Seq<u8>>,
    anchor: Pos2,
    perfect: PathType,
    start: int,
    end: int,
) -> Result<Seq<PathControlPoint>, ParseError>
    decreases t.len() - end,
{
    if end >= t.len() {
        if end > start {
            converted(t.subrange(start, t.len() as int), None, anchor, perfect)
        } else {
            Ok(Seq::empty())
        }
    } else if t[end].len() > 1 {
        object_segments(t, anchor, perfect, start, end + 1)
    } else {
        let next = if end + 1 < t.len() {
            Some(t[end + 1])
        } else {
            None
        };
        match converted(t.subrange(start, end), next, anchor, perfect) {
            Err(e) => Err(e),
            Ok(ps) => after(ps, object_segments(t, anchor, perfect, end, end + 1)),
        }
    }
}

/// The control points of a slider whose `|`-separated token list is `t`.
pub open spec fn slider_path(t: Seq<Seq<u8>>, anchor: Pos2) -> Result<
    Seq<PathControlPoint>,
    ParseError,
> {
    object_segments(t, anchor, perfect_resolution(t, anchor), 0, 1)
}

fn collect_point_tokens<'a>(tokens: &[&'a [u8]]) -> (r: Vec<&'a [u8]>)
    requires
        tokens@.len() >= 1,
    ensures
        pieces(r@) == point_tokens(pieces(tokens@).drop_first()),
{
    let ghost t = pieces(tokens@).drop_first();
    let mut r: Vec<&'a [u8]> = Vec::new();
    let mut i: usize = 1;
    assert(t.subrange(0, 0) =~= Seq::<Seq<u8>>::empty());
    assert(pieces(r@) =~= Seq::<Seq<u8>>::empty());
    while i < tokens.len()
        invariant
            1 <= i <= tokens@.len(),
            t == pieces(tokens@).drop_first(),
            pieces(r@) == point_tokens(t.subrange(0, i - 1)),
        decreases tokens.len() - i,
    {
        assert(t.subrange(0, i as int).drop_last() =~= t.subrange(0, i - 1));
        assert(t[i - 1] == tokens@[i as int]@);
        if tokens[i].len() > 1 {
            r.push(tokens[i]);
            assert(pieces(r@) =~= point_tokens(t.subrange(0, i - 1)).push(tokens@[i as int]@));
        }
        i = i + 1;
    }
    assert(t.subrange(0, t.len() as int) =~= t);
    r
}

/// What a PerfectCurve segment of the object with tokens `tokens` becomes.
fn resolve_perfect(tokens: &[&[u8]], anchor: Pos2) -> (r: PathType)
    requires
        tokens@.len() >= 1,
        anchor.in_range(),
    ensures
        r == perfect_resolution(pieces(tokens@), anchor),
{
    let pts = collect_point_tokens(tokens);
    if pts.len() != 3 {
        return PathType::Bezier;
    }
    assert(pts@[0]@ == pieces(pts@)[0]);
    assert(pts@[1]@ == pieces(pts@)[1]);
    assert(pts@[2]@ == pieces(pts@)[2]);
    match (read_point(pts[0], anchor), read_point(pts[1], anchor), read_point(pts[2], anchor)) {
        (Ok(a), Ok(b), Ok(c)) => {
            if is_linear(a.pos, b.pos, c.pos) {
                PathType::Linear
            } else {
                PathType::PerfectCurve
            }
        },
        _ => PathType::Bezier,
    }
}

/// Reads the control points of a slider from its `|`-separated token list;
/// the first token gives the type of the first segment.
#[verifier::rlimit(50)]
pub fn read_slider_path(tokens: &[&[u8]], anchor: Pos2) -> (r: Result<
    Vec<PathControlPoint>,
    ParseError,
>)
    requires
        tokens@.len() >= 1,
        anchor.in_range(),
    ensures
        slider_path(pieces(tokens@), anchor) == match r {
            Ok(v) => Ok(v@),
            Err(e) => Err::<Seq<PathControlPoint>, ParseError>(e),
        },
{
    let ghost t = pieces(tokens@);
    let perfect = resolve_perfect(tokens, anchor);
    let mut out: Vec<PathControlPoint> = Vec::new();
    let mut start: usize = 0;
    let mut end: usize = 1;
    assert(Seq::<PathControlPoint>::empty() + Seq::<PathControlPoint>::empty() =~= Seq::<PathControlPoint>::empty());
    assert(after(out@, slider_path(t, anchor)) =~= slider_path(t, anchor)) by {
        match slider_path(t, anchor) {
            Ok(s) => {
                assert(out@ + s =~= s);
            },
            Err(_) => {},
        }
    }
    while end < tokens.len()
        invariant
            t == pieces(tokens@),
            tokens@.len() >= 1,
            anchor.in_range(),
            perfect == perfect_resolution(t, anchor),
            start < end <= tokens@.len(),
            slider_path(t, anchor) == after(out@, object_segments(t, anchor, perfect, start as int, end as int)),
        decreases tokens.len() - end,
    {
        if tokens[end].len() > 1 {
            end = end + 1;
        } else {
            let next: Option<&[u8]> = if end + 1 < tokens.len() {
                Some(tokens[end + 1])
            } else {
                None
            };
            let seg = &tokens[start..end];
            assert(pieces(seg@) =~= t.subrange(start as int, end as int));
            let ghost before = out@;
            let ghost conv = converted(t.subrange(start as int, end as int), opt_piece(next), anchor, perfect);
            match convert_points(seg, next, anchor, perfect, &mut out) {
                Ok(()) => {},
                Err(e) => {
                    return Err(e);
                },
            }
            proof {
                let ps = conv->Ok_0;
                match object_segments(t, anchor, perfect, end as int, end + 1) {
                    Ok(rest) => {
                        assert(before + (ps + rest) =~= out@ + rest);
                    },
                    Err(_) => {},
                }
            }
            start = end;
            end = end + 1;
        }
    }
    let seg = &tokens[start..tokens.len()];
    assert(pieces(seg@) =~= t.subrange(start as int, t.len() as int));
    let ghost before = out@;
    match convert_points(seg, None, anchor, perfect, &mut out) {
        Ok(()) => {},
        Err(e) => {
            return Err(e);
        },
    }
    Ok(out)
}

proof fn lemma_segments_head(v: Seq<PathControlPoint>, k: PathType, limit: int, e: int)
    requires
        v.len() >= 1,
        v[0].kind == Some(k),
        1 <= e,
        e <= limit || e == 1,
        limit <= v.len(),
    ensures
        segments(v, k, limit, 0, e).len() > 0,
        segments(v, k, limit, 0, e)[0] == v[0],
    decreases limit - e,
{
    if e >= limit {
        assert(v.subrange(0, e)[0] == v[0]);
    } else if v[e].pos == v[e - 1].pos && e != limit - 1 {
        let m = mark_last(v.subrange(0, e), k);
        assert(m[0] == v[0]);
        assert((m + segments(v, k, limit, e + 1, e + 1))[0] == m[0]);
    } else {
        lemma_segments_head(v, k, limit, e + 1);
    }
}

proof fn lemma_read_points_ok(toks: Seq<Seq<u8>>, anchor: Pos2)
    requires
        read_points(toks, anchor) is Ok,
    ensures
        read_points(toks, anchor)->Ok_0.len() == toks.len(),
        forall|i: int|
            0 <= i < toks.len() ==> point_literal(#[trigger] toks[i], anchor) is Ok
                && read_points(toks, anchor)->Ok_0[i] == point_literal(toks[i], anchor)->Ok_0,
    decreases toks.len(),
{
    if toks.len() > 0 {
        let pre = toks.drop_last();
        lemma_read_points_ok(pre, anchor);
        assert forall|i: int| 0 <= i < toks.len() implies point_literal(#[trigger] toks[i], anchor) is Ok
            && read_points(toks, anchor)->Ok_0[i] == point_literal(toks[i], anchor)->Ok_0 by {
            if i < pre.len() {
                assert(toks[i] == pre[i]);
            }
        }
    }
}

proof fn lemma_first_segment_lead(
    points: Seq<Seq<u8>>,
    end_point: Option<Seq<u8>>,
    anchor: Pos2,
    perfect: PathType,
)
    requires
        points.len() >= 2,
        converted(points, end_point, anchor, perfect) is Ok,
    ensures
        point_literal(points[1], anchor) is Ok,
        converted(points, end_point, anchor, perfect)->Ok_0.len() > 0,
        converted(points, end_point, anchor, perfect)->Ok_0[0] == point_literal(
            points[1],
            anchor,
        )->Ok_0.with_kind(resolve(path_type_of(points[0]), perfect)),
{
    let toks = match end_point {
        Some(e) => points.drop_first().push(e),
        None => points.drop_first(),
    };
    lemma_read_points_ok(toks, anchor);
    assert(toks[0] == points[1]);
    let v = segment_vertices(points, end_point, anchor)->Ok_0;
    let k = resolve(path_type_of(points[0]), perfect);
    let limit = if end_point is Some {
        v.len() - 1
    } else {
        v.len() as int
    };
    let w = v.update(0, v[0].with_kind(k));
    lemma_segments_head(w, k, limit, 1);
}

proof fn lemma_object_lead(t: Seq<Seq<u8>>, anchor: Pos2, perfect: PathType, e: int)
    requires
        2 <= e <= t.len(),
        object_segments(t, anchor, perfect, 0, e) is Ok,
    ensures
        point_literal(t[1], anchor) is Ok,
        object_segments(t, anchor, perfect, 0, e)->Ok_0.len() > 0,
        object_segments(t, anchor, perfect, 0, e)->Ok_0[0] == point_literal(t[1], anchor)->Ok_0.with_kind(
            resolve(path_type_of(t[0]), perfect),
        ),
    decreases t.len() - e,
{
    if e >= t.len() {
        let pts = t.subrange(0, t.len() as int);
        assert(pts[0] == t[0] && pts[1] == t[1]);
        lemma_first_segment_lead(pts, None, anchor, perfect);
    } else if t[e].len() > 1 {
        lemma_object_lead(t, anchor, perfect, e + 1);
    } else {
        let pts = t.subrange(0, e);
        assert(pts[0] == t[0] && pts[1] == t[1]);
        let next = if e + 1 < t.len() {
            Some(t[e + 1])
        } else {
            None
        };
        lemma_first_segment_lead(pts, next, anchor, perfect);
        let ps = converted(pts, next, anchor, perfect)->Ok_0;
        let rest = object_segments(t, anchor, perfect, e, e + 1)->Ok_0;
        assert((ps + rest)[0] == ps[0]);
    }
}

/// The first control point of a slider whose type token is `P` followed by a
/// point is that point, carrying the type that the object's whole point set
/// allows: PerfectCurve for three points not on one line, Linear for three
/// points on one line, and Bezier for any other number of points.
pub proof fn lemma_perfect_curve_type(t: Seq<Seq<u8>>, anchor: Pos2)
    requires
        t.len() >= 2,
        t[0] == seq![80u8],
        t[1].len() > 1,
        slider_path(t, anchor) is Ok,
        point_tokens(t.drop_first()).len() == 3 ==> point_literal(
            point_tokens(t.drop_first())[0],
            anchor,
        ) is Ok && point_literal(point_tokens(t.drop_first())[1], anchor) is Ok && point_literal(
            point_tokens(t.drop_first())[2],
            anchor,
        ) is Ok,
    ensures
        ({
            let cps = slider_path(t, anchor)->Ok_0;
            let pts = point_tokens(t.drop_first());
            &&& cps.len() > 0
            &&& cps[0].pos == point_literal(t[1], anchor)->Ok_0.pos
            &&& cps[0].kind == Some(
                if pts.len() != 3 {
                    PathType::Bezier
                } else if collinear(
                    point_literal(pts[0], anchor)->Ok_0.pos,
                    point_literal(pts[1], anchor)->Ok_0.pos,
                    point_literal(pts[2], anchor)->Ok_0.pos,
                ) {
                    PathType::Linear
                } else {
                    PathType::PerfectCurve
                },
            )
        }),
{
    let perfect = perfect_resolution(t, anchor);
    assert(slider_path(t, anchor) == object_segments(t, anchor, perfect, 0, 2));
    lemma_object_lead(t, anchor, perfect, 2);
    assert(seq![80u8][0] != seq![76u8][0]);
    assert(seq![80u8][0] != seq![66u8][0]);
    assert(t[0] != seq![76u8]);
    assert(t[0] != seq![66u8]);
    assert(path_type_of(t[0]) == PathType::PerfectCurve);
}

} // verus!
