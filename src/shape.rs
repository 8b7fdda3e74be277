//! Shape definitions and their normalization into per-style paths.
use crate::geom::{flipped, point_add, Line, Point};
use crate::path::{is_chain, lemma_untangled_chain, untangled, StyledPath};
use vstd::prelude::*;

verus! {

/// A color with straight (not premultiplied) alpha.
#[derive(Copy, Clone, Debug, PartialEq, Eq, Structural)]
pub struct Rgba {
    pub r: u8,
    pub g: u8,
    pub b: u8,
    pub a: u8,
}

/// One color of a gradient, at `ratio` (0 to 255) along it.
#[derive(Copy, Clone, Debug, PartialEq, Eq, Structural)]
pub struct ColorStop {
    pub ratio: u8,
    pub color: Rgba,
}

#[derive(Debug)]
pub enum FillStyle {
    Solid(Rgba),
    LinearGradient(Vec<ColorStop>),
    RadialGradient(Vec<ColorStop>),
    FocalGradient(Vec<ColorStop>),
    /// A fill with the bitmap character of this id.
    Bitmap(u16),
}

#[derive(Debug)]
pub struct LineStyle {
    pub width: u16,
    pub no_close: bool,
    pub fill: FillStyle,
}

/// A table of styles; style indices in records are 1-based into the table
/// that is active when the record is read.
#[derive(Debug)]
pub struct ShapeStyles {
    pub fill: Vec<FillStyle>,
    pub line: Vec<LineStyle>,
}

#[derive(Debug)]
pub struct StyleChange {
    pub move_to: Option<Point>,
    pub left_fill: Option<usize>,
    pub right_fill: Option<usize>,
    pub line_style: Option<usize>,
    pub new_styles: Option<ShapeStyles>,
}

/// An edge given relative to the pen position.
#[derive(Copy, Clone, Debug, PartialEq, Eq, Structural)]
pub struct Edge {
    pub delta: Point,
    pub control_delta: Option<Point>,
}

#[derive(Debug)]
pub enum ShapeRecord {
    Edge(Edge),
    StyleChange(StyleChange),
}

#[derive(Copy, Clone, Debug, PartialEq, Eq, Structural)]
pub struct Rect {
    pub x_min: i32,
    pub x_max: i32,
    pub y_min: i32,
    pub y_max: i32,
}

#[derive(Debug)]
pub struct DefineShape {
    pub id: u16,
    pub bounds: Rect,
    pub initial_styles: ShapeStyles,
    pub records: Vec<ShapeRecord>,
}

/// A shape as per-style lists of directed edges in absolute coordinates.
#[derive(Debug)]
pub struct Shape<'a> {
    pub center: Point,
    pub fill: Vec<StyledPath<&'a FillStyle>>,
    pub stroke: Vec<StyledPath<&'a LineStyle>>,
}

/// The pen while the records of a shape are read: its position, the start
/// of the active style tables, the styles in use (as indices into all the
/// styles defined so far), the edges gathered per style, and the edges drawn
/// since the last style change.
pub struct Pen {
    pub pos: Point,
    pub fill_start: int,
    pub stroke_start: int,
    pub fill0: Option<int>,
    pub fill1: Option<int>,
    pub stroke: Option<int>,
    pub fills: Seq<Seq<Line>>,
    pub strokes: Seq<Seq<Line>>,
    pub path: Seq<Line>,
}

/// The edges of `path` in reverse order, each walked the other way.
pub open spec fn reversed_flipped(path: Seq<Line>) -> Seq<Line> {
    Seq::new(path.len(), |k: int| flipped(path[path.len() - 1 - k]))
}

/// A 1-based style index read against the active table, which starts at
/// `start` and ends at `len`: 0 and indices past the table select no style.
pub open spec fn resolve(i: usize, start: int, len: int) -> Option<int> {
    if i == 0 || start + i - 1 >= len {
        None
    } else {
        Some(start + i - 1)
    }
}

/// The edge that `e` draws from `pos`.
pub open spec fn edge_line(pos: Point, e: Edge) -> Line {
    Line {
        from: pos,
        bezier_control: match e.control_delta {
            Some(c) => Some(point_add(pos, c)),
            None => None,
        },
        to: point_add(pos, e.delta),
    }
}

pub open spec fn empty_paths(n: nat) -> Seq<Seq<Line>> {
    Seq::new(n, |j: int| Seq::<Line>::empty())
}

/// Hands the edges drawn since the last style change to the styles in use:
/// the right fill (`fill1`) gets them as drawn, the left fill (`fill0`) gets
/// them reversed and flipped, so both sides of an edge are walked with the
/// filled region on the same hand; the stroke gets them as drawn.
pub open spec fn flush(s: Pen) -> Pen {
    Pen {
        fills: flush_fills(s.fills, s.path, s.fill0, s.fill1),
        strokes: flush_strokes(s.strokes, s.path, s.stroke),
        path: seq![],
        ..s
    }
}

pub open spec fn flush_fills(
    fills: Seq<Seq<Line>>,
    path: Seq<Line>,
    fill0: Option<int>,
    fill1: Option<int>,
) -> Seq<Seq<Line>> {
    let f0 = match fill0 {
        Some(a) => fills.update(a, fills[a] + reversed_flipped(path)),
        None => fills,
    };
    match fill1 {
        Some(b) => f0.update(b, f0[b] + path),
        None => f0,
    }
}

pub open spec fn flush_strokes(strokes: Seq<Seq<Line>>, path: Seq<Line>, stroke: Option<int>) -> Seq<
    Seq<Line>,
> {
    match stroke {
        Some(c) => strokes.update(c, strokes[c] + path),
        None => strokes,
    }
}

pub open spec fn changes_style(c: StyleChange) -> bool {
    c.left_fill is Some || c.right_fill is Some || c.line_style is Some
}

pub open spec fn step(s: Pen, r: ShapeRecord) -> Pen {
    match r {
        ShapeRecord::Edge(e) => {
            let line = edge_line(s.pos, e);
            Pen { path: s.path.push(line), pos: line.to, ..s }
        },
        ShapeRecord::StyleChange(c) => {
            let s1 = if changes_style(c) {
                flush(s)
            } else {
                s
            };
            let s2 = match c.new_styles {
                Some(ns) => Pen {
                    fill_start: s1.fills.len() as int,
                    fills: s1.fills + empty_paths(ns.fill@.len()),
                    stroke_start: s1.strokes.len() as int,
                    strokes: s1.strokes + empty_paths(ns.line@.len()),
                    ..s1
                },
                None => s1,
            };
            Pen {
                pos: match c.move_to {
                    Some(p) => p,
                    None => s2.pos,
                },
                fill0: match c.left_fill {
                    Some(i) => resolve(i, s2.fill_start, s2.fills.len() as int),
                    None => s2.fill0,
                },
                fill1: match c.right_fill {
                    Some(i) => resolve(i, s2.fill_start, s2.fills.len() as int),
                    None => s2.fill1,
                },
                stroke: match c.line_style {
                    Some(i) => resolve(i, s2.stroke_start, s2.strokes.len() as int),
                    None => s2.stroke,
                },
                ..s2
            }
        },
    }
}

pub open spec fn initial_pen(n_fill: nat, n_line: nat) -> Pen {
    Pen {
        pos: Point { x: 0, y: 0 },
        fill_start: 0,
        stroke_start: 0,
        fill0: None,
        fill1: None,
        stroke: None,
        fills: empty_paths(n_fill),
        strokes: empty_paths(n_line),
        path: seq![],
    }
}

/// The pen after reading `records`.
pub open spec fn pen_after(n_fill: nat, n_line: nat, records: Seq<ShapeRecord>) -> Pen
    decreases records.len(),
{
    if records.len() == 0 {
        initial_pen(n_fill, n_line)
    } else {
        step(pen_after(n_fill, n_line, records.drop_last()), records.last())
    }
}

/// All fill styles: the initial table followed by each new table in turn.
pub open spec fn fill_table(initial: Seq<FillStyle>, records: Seq<ShapeRecord>) -> Seq<FillStyle>
    decreases records.len(),
{
    if records.len() == 0 {
        initial
    } else {
        let prev = fill_table(initial, records.drop_last());
        match records.last() {
            ShapeRecord::StyleChange(c) => match c.new_styles {
                Some(ns) => prev + ns.fill@,
                None => prev,
            },
            _ => prev,
        }
    }
}

/// All line styles: the initial table followed by each new table in turn.
pub open spec fn line_table(initial: Seq<LineStyle>, records: Seq<ShapeRecord>) -> Seq<LineStyle>
    decreases records.len(),
{
    if records.len() == 0 {
        initial
    } else {
        let prev = line_table(initial, records.drop_last());
        match records.last() {
            ShapeRecord::StyleChange(c) => match c.new_styles {
                Some(ns) => prev + ns.line@,
                None => prev,
            },
            _ => prev,
        }
    }
}

/// The edges gathered per style once every record is read and the last
/// edges are handed out.
pub open spec fn final_pen(def: DefineShape) -> Pen {
    flush(pen_after(def.initial_styles.fill@.len(), def.initial_styles.line@.len(), def.records@))
}

pub open spec fn paths_of<S>(v: Seq<StyledPath<S>>) -> Seq<Seq<Line>> {
    Seq::new(v.len(), |j: int| v[j].path@)
}

/// Style indices in use point into the tables gathered so far.
pub open spec fn pen_wf(s: Pen) -> bool {
    &&& 0 <= s.fill_start <= s.fills.len()
    &&& 0 <= s.stroke_start <= s.strokes.len()
    &&& (s.fill0 matches Some(a) ==> 0 <= a < s.fills.len())
    &&& (s.fill1 matches Some(b) ==> 0 <= b < s.fills.len())
    &&& (s.stroke matches Some(c) ==> 0 <= c < s.strokes.len())
}

/// When the left and the right fill of the edges drawn since the last style
/// change are two styles with no edges yet, handing the edges out leaves the
/// left fill with exactly the right fill's edges, reversed and flipped; and
/// reversing and flipping twice gives the edges back.
pub proof fn lemma_fill_orientation(s: Pen)
    requires
        pen_wf(s),
        s.fill0 is Some,
        s.fill1 is Some,
        s.fill0->0 != s.fill1->0,
        s.fills[s.fill0->0].len() == 0,
        s.fills[s.fill1->0].len() == 0,
    ensures
        flush(s).fills[s.fill1->0] == s.path,
        flush(s).fills[s.fill0->0] == reversed_flipped(flush(s).fills[s.fill1->0]),
        reversed_flipped(reversed_flipped(s.path)) == s.path,
{
    let a = s.fill0->0;
    let b = s.fill1->0;
    assert(flush(s).fills[b] =~= s.path);
    assert(flush(s).fills[a] =~= reversed_flipped(s.path));
    assert(reversed_flipped(reversed_flipped(s.path)) =~= s.path);
}

pub open spec fn opt_int(o: Option<usize>) -> Option<int> {
    match o {
        Some(i) => Some(i as int),
        None => None,
    }
}

/// Half of `v`, rounded toward zero.
pub open spec fn half_toward_zero(v: int) -> int {
    if v >= 0 {
        v / 2
    } else {
        -((-v) / 2)
    }
}

pub open spec fn center_of(b: Rect) -> Point {
    Point {
        x: half_toward_zero(b.x_min + b.x_max) as i32,
        y: half_toward_zero(b.y_min + b.y_max) as i32,
    }
}

fn midpoint(a: i32, b: i32) -> (r: i32)
    ensures
        r == half_toward_zero(a + b),
{
    let s = a as i64 + b as i64;
    if s >= 0 {
        (s / 2) as i32
    } else {
        let h = (-s) / 2;
        (-h) as i32
    }
}

fn append_path<S>(sp: &mut StyledPath<S>, path: &Vec<Line>)
    ensures
        final(sp).path@ == old(sp).path@ + path@,
        final(sp).style == old(sp).style,
{
    let mut k: usize = 0;
    while k < path.len()
        invariant
            k <= path.len(),
            sp.path@ == old(sp).path@ + path@.subrange(0, k as int),
            sp.style == old(sp).style,
        decreases path.len() - k,
    {
        sp.path.push(path[k]);
        k += 1;
        proof {
            assert(path@.subrange(0, k as int) =~= path@.subrange(0, k - 1).push(path@[k - 1]));
        }
    }
    proof {
        assert(path@.subrange(0, k as int) =~= path@);
    }
}

fn append_reversed_flipped<S>(sp: &mut StyledPath<S>, path: &Vec<Line>)
    ensures
        final(sp).path@ == old(sp).path@ + reversed_flipped(path@),
        final(sp).style == old(sp).style,
{
    let n = path.len();
    let mut k: usize = 0;
    while k < n
        invariant
            n == path.len(),
            k <= n,
            sp.path@ == old(sp).path@ + reversed_flipped(path@).subrange(0, k as int),
            sp.style == old(sp).style,
        decreases n - k,
    {
        sp.path.push(path[n - 1 - k].flip_direction());
        k += 1;
        proof {
            assert(reversed_flipped(path@).subrange(0, k as int) =~= reversed_flipped(
                path@,
            ).subrange(0, k - 1).push(reversed_flipped(path@)[k - 1]));
        }
    }
    proof {
        assert(reversed_flipped(path@).subrange(0, k as int) =~= reversed_flipped(path@));
    }
}

/// Hands `path` to the styles in use (see `flush`).
fn add_path<'a>(
    fill: &mut Vec<StyledPath<&'a FillStyle>>,
    stroke: &mut Vec<StyledPath<&'a LineStyle>>,
    path: &Vec<Line>,
    fill0: Option<usize>,
    fill1: Option<usize>,
    line: Option<usize>,
)
    requires
        fill0 matches Some(a) ==> a < old(fill).len(),
        fill1 matches Some(b) ==> b < old(fill).len(),
        line matches Some(c) ==> c < old(stroke).len(),
    ensures
        final(fill).len() == old(fill).len(),
        final(stroke).len() == old(stroke).len(),
        forall|j: int| 0 <= j < old(fill).len() ==> #[trigger] final(fill)[j].style == old(fill)[j].style,
        forall|j: int|
            0 <= j < old(stroke).len() ==> #[trigger] final(stroke)[j].style == old(stroke)[j].style,
        paths_of(final(fill)@) == flush_fills(
            paths_of(old(fill)@),
            path@,
            opt_int(fill0),
            opt_int(fill1),
        ),
        paths_of(final(stroke)@) == flush_strokes(paths_of(old(stroke)@), path@, opt_int(line)),
{
    let ghost f_old = paths_of(fill@);
    if let Some(a) = fill0 {
        append_reversed_flipped(&mut fill[a], path);
    }
    let ghost f_mid = paths_of(fill@);
    proof {
        let expect = match opt_int(fill0) {
            Some(a) => f_old.update(a, f_old[a] + reversed_flipped(path@)),
            None => f_old,
        };
        assert(f_mid =~= expect);
    }
    if let Some(b) = fill1 {
        append_path(&mut fill[b], path);
    }
    proof {
        assert(paths_of(fill@) =~= flush_fills(f_old, path@, opt_int(fill0), opt_int(fill1)));
    }
    let ghost s_old = paths_of(stroke@);
    if let Some(c) = line {
        append_path(&mut stroke[c], path);
    }
    proof {
        assert(paths_of(stroke@) =~= flush_strokes(s_old, path@, opt_int(line)));
    }
}

fn resolve_index(i: usize, start: usize, len: usize) -> (r: Option<usize>)
    requires
        start <= len,
    ensures
        opt_int(r) == resolve(i, start as int, len as int),
        r matches Some(k) ==> k < len,
{
    if i == 0 || i - 1 >= len - start {
        None
    } else {
        Some(start + (i - 1))
    }
}

/// The exec state of the reader matches the pen `s`.
pub open spec fn pen_matches<'a>(
    s: Pen,
    pos: Point,
    fill_start: usize,
    stroke_start: usize,
    fill0: Option<usize>,
    fill1: Option<usize>,
    stroke_i: Option<usize>,
    fill: Seq<StyledPath<&'a FillStyle>>,
    stroke: Seq<StyledPath<&'a LineStyle>>,
    path: Seq<Line>,
) -> bool {
    &&& s.pos == pos
    &&& s.fill_start == fill_start
    &&& s.stroke_start == stroke_start
    &&& s.fill0 == opt_int(fill0)
    &&& s.fill1 == opt_int(fill1)
    &&& s.stroke == opt_int(stroke_i)
    &&& s.fills == paths_of(fill)
    &&& s.strokes == paths_of(stroke)
    &&& s.path == path
}

fn push_fill_styles<'a>(fill: &mut Vec<StyledPath<&'a FillStyle>>, styles: &'a Vec<FillStyle>)
    ensures
        final(fill)@.len() == old(fill)@.len() + styles@.len(),
        forall|j: int|
            0 <= j < old(fill)@.len() ==> #[trigger] final(fill)@[j] == old(fill)@[j],
        forall|j: int|
            old(fill)@.len() <= j < final(fill)@.len() ==> (#[trigger] final(fill)@[j]).style
                == styles@[j - old(fill)@.len()] && final(fill)@[j].path@ == Seq::<Line>::empty(),
{
    let mut k: usize = 0;
    while k < styles.len()
        invariant
            k <= styles.len(),
            fill@.len() == old(fill)@.len() + k,
            forall|j: int| 0 <= j < old(fill)@.len() ==> #[trigger] fill@[j] == old(fill)@[j],
            forall|j: int|
                old(fill)@.len() <= j < fill@.len() ==> (#[trigger] fill@[j]).style == styles@[j
                    - old(fill)@.len()] && fill@[j].path@ == Seq::<Line>::empty(),
        decreases styles.len() - k,
    {
        fill.push(StyledPath::new(&styles[k]));
        k += 1;
    }
}

fn push_line_styles<'a>(stroke: &mut Vec<StyledPath<&'a LineStyle>>, styles: &'a Vec<LineStyle>)
    ensures
        final(stroke)@.len() == old(stroke)@.len() + styles@.len(),
        forall|j: int|
            0 <= j < old(stroke)@.len() ==> #[trigger] final(stroke)@[j] == old(stroke)@[j],
        forall|j: int|
            old(stroke)@.len() <= j < final(stroke)@.len() ==> (#[trigger] final(stroke)@[j]).style
                == styles@[j - old(stroke)@.len()] && final(stroke)@[j].path@ == Seq::<Line>::empty(),
{
    let mut k: usize = 0;
    while k < styles.len()
        invariant
            k <= styles.len(),
            stroke@.len() == old(stroke)@.len() + k,
            forall|j: int| 0 <= j < old(stroke)@.len() ==> #[trigger] stroke@[j] == old(stroke)@[j],
            forall|j: int|
                old(stroke)@.len() <= j < stroke@.len() ==> (#[trigger] stroke@[j]).style == styles@[j
                    - old(stroke)@.len()] && stroke@[j].path@ == Seq::<Line>::empty(),
        decreases styles.len() - k,
    {
        stroke.push(StyledPath::new(&styles[k]));
        k += 1;
    }
}

fn untangle_all<S>(paths: &mut Vec<StyledPath<S>>)
    ensures
        final(paths)@.len() == old(paths)@.len(),
        forall|j: int|
            0 <= j < old(paths)@.len() ==> (#[trigger] final(paths)@[j]).style == old(paths)@[j].style
                && final(paths)@[j].path@ == untangled(old(paths)@[j].path@),
{
    let mut k: usize = 0;
    while k < paths.len()
        invariant
            k <= paths.len(),
            paths@.len() == old(paths)@.len(),
            forall|j: int|
                0 <= j < k ==> (#[trigger] paths@[j]).style == old(paths)@[j].style
                    && paths@[j].path@ == untangled(old(paths)@[j].path@),
            forall|j: int| k <= j < paths@.len() ==> #[trigger] paths@[j] == old(paths)@[j],
        decreases paths.len() - k,
    {
        paths[k].untangle_path();
        k += 1;
    }
}

impl<'a> Shape<'a> {
    /// Reads the records of `def` with a pen, gathering the edges of each
    /// style (see `final_pen`), then untangles each style's path.
    pub fn from_def(def: &'a DefineShape) -> (r: Shape<'a>)
        ensures
            r.center == center_of(def.bounds),
            r.fill@.len() == fill_table(def.initial_styles.fill@, def.records@).len(),
            r.stroke@.len() == line_table(def.initial_styles.line@, def.records@).len(),
            r.fill@.len() == final_pen(*def).fills.len(),
            r.stroke@.len() == final_pen(*def).strokes.len(),
            forall|j: int|
                0 <= j < r.fill@.len() ==> (#[trigger] r.fill@[j]).style == fill_table(
                    def.initial_styles.fill@,
                    def.records@,
                )[j] && r.fill@[j].path@ == untangled(final_pen(*def).fills[j]),
            forall|j: int|
                0 <= j < r.stroke@.len() ==> (#[trigger] r.stroke@[j]).style == line_table(
                    def.initial_styles.line@,
                    def.records@,
                )[j] && r.stroke@[j].path@ == untangled(final_pen(*def).strokes[j]),
    {
        let ghost n_fill = def.initial_styles.fill@.len();
        let ghost n_line = def.initial_styles.line@.len();
        let ghost records = def.records@;
        let mut fill: Vec<StyledPath<&'a FillStyle>> = Vec::new();
        let mut stroke: Vec<StyledPath<&'a LineStyle>> = Vec::new();
        push_fill_styles(&mut fill, &def.initial_styles.fill);
        push_line_styles(&mut stroke, &def.initial_styles.line);
        let mut pos = Point { x: 0, y: 0 };
        let mut fill_start: usize = 0;
        let mut stroke_start: usize = 0;
        let mut fill0: Option<usize> = None;
        let mut fill1: Option<usize> = None;
        let mut stroke_i: Option<usize> = None;
        let mut path: Vec<Line> = Vec::new();
        proof {
            assert(records.subrange(0, 0) =~= Seq::<ShapeRecord>::empty());
            assert(paths_of(fill@) =~= empty_paths(n_fill));
            assert(paths_of(stroke@) =~= empty_paths(n_line));
            assert(fill_table(def.initial_styles.fill@, records.subrange(0, 0)) == def.initial_styles.fill@);
            assert(line_table(def.initial_styles.line@, records.subrange(0, 0)) == def.initial_styles.line@);
        }
        let mut i: usize = 0;
        while i < def.records.len()
            invariant
                i <= records.len(),
                records == def.records@,
                n_fill == def.initial_styles.fill@.len(),
                n_line == def.initial_styles.line@.len(),
                pen_matches(
                    pen_after(n_fill, n_line, records.subrange(0, i as int)),
                    pos,
                    fill_start,
                    stroke_start,
                    fill0,
                    fill1,
                    stroke_i,
                    fill@,
                    stroke@,
                    path@,
                ),
                pen_wf(pen_after(n_fill, n_line, records.subrange(0, i as int))),
                fill@.len() == fill_table(def.initial_styles.fill@, records.subrange(0, i as int)).len(),
                stroke@.len() == line_table(def.initial_styles.line@, records.subrange(0, i as int)).len(),
                forall|j: int|
                    0 <= j < fill@.len() ==> (#[trigger] fill@[j]).style == fill_table(
                        def.initial_styles.fill@,
                        records.subrange(0, i as int),
                    )[j],
                forall|j: int|
                    0 <= j < stroke@.len() ==> (#[trigger] stroke@[j]).style == line_table(
                        def.initial_styles.line@,
                        records.subrange(0, i as int),
                    )[j],
            decreases records.len() - i,
        {
            let ghost before = pen_after(n_fill, n_line, records.subrange(0, i as int));
            let ghost ft = fill_table(def.initial_styles.fill@, records.subrange(0, i as int));
            let ghost lt = line_table(def.initial_styles.line@, records.subrange(0, i as int));
            proof {
                assert(records.subrange(0, i + 1).drop_last() =~= records.subrange(0, i as int));
                assert(records.subrange(0, i + 1).last() == records[i as int]);
            }
            let record = &def.records[i];
            match record {
                ShapeRecord::StyleChange(change) => {
                    if change.left_fill.is_some() || change.right_fill.is_some()
                        || change.line_style.is_some() {
                        add_path(&mut fill, &mut stroke, &path, fill0, fill1, stroke_i);
                        path.clear();
                    }
                    let ghost s1 = if changes_style(*change) {
                        flush(before)
                    } else {
                        before
                    };
                    proof {
                        assert(paths_of(fill@) == s1.fills);
                        assert(path@ =~= s1.path);
                    }
                    if let Some(ns) = &change.new_styles {
                        fill_start = fill.len();
                        push_fill_styles(&mut fill, &ns.fill);
                        stroke_start = stroke.len();
                        push_line_styles(&mut stroke, &ns.line);
                        proof {
                            assert(paths_of(fill@) =~= s1.fills + empty_paths(ns.fill@.len()));
                            assert(paths_of(stroke@) =~= s1.strokes + empty_paths(ns.line@.len()));
                        }
                    }
                    if let Some(m) = change.move_to {
                        pos = m;
                    }
                    if let Some(l) = change.left_fill {
                        fill0 = resolve_index(l, fill_start, fill.len());
                    }
                    if let Some(l) = change.right_fill {
                        fill1 = resolve_index(l, fill_start, fill.len());
                    }
                    if let Some(l) = change.line_style {
                        stroke_i = resolve_index(l, stroke_start, stroke.len());
                    }
                },
                ShapeRecord::Edge(edge) => {
                    let line = Line {
                        from: Point { x: 0, y: 0 },
                        bezier_control: edge.control_delta,
                        to: edge.delta,
                    }.translate(pos);
                    proof {
                        assert(point_add(pos, Point { x: 0, y: 0 }) == pos);
                        assert(line == edge_line(pos, *edge));
                    }
                    path.push(line);
                    pos = line.to;
                },
            }
            i += 1;
            proof {
                let ft2 = fill_table(def.initial_styles.fill@, records.subrange(0, i as int));
                let lt2 = line_table(def.initial_styles.line@, records.subrange(0, i as int));
                assert forall|j: int| 0 <= j < fill@.len() implies (#[trigger] fill@[j]).style == ft2[j] by {
                    if j < ft.len() {
                        assert(ft2[j] == ft[j]);
                    }
                }
                assert forall|j: int| 0 <= j < stroke@.len() implies (#[trigger] stroke@[j]).style == lt2[j] by {
                    if j < lt.len() {
                        assert(lt2[j] == lt[j]);
                    }
                }
            }
        }
        proof {
            assert(records.subrange(0, i as int) =~= records);
        }
        add_path(&mut fill, &mut stroke, &path, fill0, fill1, stroke_i);
        proof {
            assert(paths_of(fill@).len() == fill@.len());
            assert(paths_of(stroke@).len() == stroke@.len());
        }
        let ghost gathered_fill = fill@;
        let ghost gathered_stroke = stroke@;
        untangle_all(&mut fill);
        untangle_all(&mut stroke);
        proof {
            assert forall|j: int| 0 <= j < fill@.len() implies (#[trigger] fill@[j]).path@ == untangled(final_pen(*def).fills[j]) by {
                assert(final_pen(*def).fills[j] == paths_of(gathered_fill)[j]);
            }
            assert forall|j: int| 0 <= j < stroke@.len() implies (#[trigger] stroke@[j]).path@ == untangled(final_pen(*def).strokes[j]) by {
                assert(final_pen(*def).strokes[j] == paths_of(gathered_stroke)[j]);
            }
        }
        let center = Point {
            x: midpoint(def.bounds.x_min, def.bounds.x_max),
            y: midpoint(def.bounds.y_min, def.bounds.y_max),
        };
        Shape { center, fill, stroke }
    }
}

/// Reversing and flipping a chain gives a chain.
pub proof fn lemma_reversed_flipped_chain(path: Seq<Line>)
    requires
        is_chain(path),
    ensures
        is_chain(reversed_flipped(path)),
{
    let r = reversed_flipped(path);
    let n = path.len();
    assert forall|i: int| 0 <= i < r.len() - 1 implies (#[trigger] r[i]).to == r[i + 1].from by {
        assert(path[n - 2 - i].to == path[n - 1 - i].from);
    }
}

/// When the right fill's edges form one chain and the left fill holds them
/// reversed and flipped, untangling keeps both paths as they are, so the
/// shape's two paths stay reverses of each other.
pub proof fn lemma_orientation_survives_untangling(right: Seq<Line>, left: Seq<Line>)
    requires
        is_chain(right),
        left == reversed_flipped(right),
    ensures
        untangled(right) == right,
        untangled(left) == reversed_flipped(untangled(right)),
{
    lemma_untangled_chain(right);
    lemma_reversed_flipped_chain(right);
    lemma_untangled_chain(left);
}

pub open spec fn has_no_edges(records: Seq<ShapeRecord>) -> bool {
    forall|i: int| 0 <= i < records.len() ==> !(#[trigger] records[i] is Edge)
}

proof fn lemma_no_edges_pen(n_fill: nat, n_line: nat, records: Seq<ShapeRecord>)
    requires
        has_no_edges(records),
    ensures
        pen_after(n_fill, n_line, records).path.len() == 0,
        forall|j: int|
            0 <= j < pen_after(n_fill, n_line, records).fills.len() ==> (#[trigger] pen_after(
                n_fill,
                n_line,
                records,
            ).fills[j]).len() == 0,
        forall|j: int|
            0 <= j < pen_after(n_fill, n_line, records).strokes.len() ==> (#[trigger] pen_after(
                n_fill,
                n_line,
                records,
            ).strokes[j]).len() == 0,
        pen_wf(pen_after(n_fill, n_line, records)),
    decreases records.len(),
{
    if records.len() > 0 {
        let prev = records.drop_last();
        assert(has_no_edges(prev)) by {
            assert forall|i: int| 0 <= i < prev.len() implies !(#[trigger] prev[i] is Edge) by {
                assert(prev[i] == records[i]);
            }
        }
        lemma_no_edges_pen(n_fill, n_line, prev);
        let s = pen_after(n_fill, n_line, prev);
        assert(!(records[records.len() - 1] is Edge));
        assert(reversed_flipped(s.path) =~= Seq::<Line>::empty());
        let f = flush(s);
        assert forall|j: int| 0 <= j < f.fills.len() implies (#[trigger] f.fills[j]).len() == 0 by {
            assert(s.fills[j].len() == 0);
        }
        assert forall|j: int| 0 <= j < f.strokes.len() implies (#[trigger] f.strokes[j]).len() == 0 by {
            assert(s.strokes[j].len() == 0);
        }
    }
}

/// A shape with no edge records has only empty paths.
pub proof fn lemma_shape_without_edges(def: DefineShape)
    requires
        has_no_edges(def.records@),
    ensures
        forall|j: int|
            0 <= j < final_pen(def).fills.len() ==> untangled(#[trigger] final_pen(def).fills[j])
                == Seq::<Line>::empty(),
        forall|j: int|
            0 <= j < final_pen(def).strokes.len() ==> untangled(#[trigger] final_pen(def).strokes[j])
                == Seq::<Line>::empty(),
{
    let n_fill = def.initial_styles.fill@.len();
    let n_line = def.initial_styles.line@.len();
    lemma_no_edges_pen(n_fill, n_line, def.records@);
    let s = pen_after(n_fill, n_line, def.records@);
    assert forall|j: int| 0 <= j < final_pen(def).fills.len() implies untangled(
        #[trigger] final_pen(def).fills[j],
    ) == Seq::<Line>::empty() by {
        assert(s.fills[j].len() == 0);
        assert(final_pen(def).fills[j].len() == 0);
        assert(untangled(final_pen(def).fills[j]) =~= Seq::<Line>::empty());
    }
    assert forall|j: int| 0 <= j < final_pen(def).strokes.len() implies untangled(
        #[trigger] final_pen(def).strokes[j],
    ) == Seq::<Line>::empty() by {
        assert(s.strokes[j].len() == 0);
        assert(final_pen(def).strokes[j].len() == 0);
        assert(untangled(final_pen(def).strokes[j]) =~= Seq::<Line>::empty());
    }
}

/// A shape that selects left fill `i` and right fill `j` of its initial
/// table once, then only draws edges.
pub open spec fn two_sided(def: DefineShape, i: usize, j: usize) -> bool {
    let r = def.records@;
    &&& r.len() >= 1
    &&& r[0] matches ShapeRecord::StyleChange(c)
    &&& c.left_fill == Some(i)
    &&& c.right_fill == Some(j)
    &&& c.line_style is None
    &&& c.new_styles is None
    &&& 1 <= i <= def.initial_styles.fill@.len()
    &&& 1 <= j <= def.initial_styles.fill@.len()
    &&& i != j
    &&& forall|k: int| 1 <= k < r.len() ==> #[trigger] r[k] is Edge
}

proof fn lemma_two_sided_pen(def: DefineShape, i: usize, j: usize, k: int)
    requires
        two_sided(def, i, j),
        1 <= k <= def.records@.len(),
    ensures
        ({
            let s = pen_after(
                def.initial_styles.fill@.len(),
                def.initial_styles.line@.len(),
                def.records@.subrange(0, k),
            );
            &&& s.fill0 == Some(i - 1)
            &&& s.fill1 == Some(j - 1)
            &&& s.fills.len() == def.initial_styles.fill@.len()
            &&& forall|m: int| 0 <= m < s.fills.len() ==> (#[trigger] s.fills[m]).len() == 0
            &&& is_chain(s.path)
            &&& s.path.len() > 0 ==> s.path.last().to == s.pos
        }),
    decreases k,
{
    let nf = def.initial_styles.fill@.len();
    let nl = def.initial_styles.line@.len();
    let r = def.records@;
    if k == 1 {
        assert(r.subrange(0, 1).drop_last() =~= Seq::<ShapeRecord>::empty());
        assert(r.subrange(0, 1).last() == r[0]);
        let s0 = initial_pen(nf, nl);
        assert(pen_after(nf, nl, r.subrange(0, 1).drop_last()) == s0);
        assert(reversed_flipped(s0.path) =~= Seq::<Line>::empty());
        let s = pen_after(nf, nl, r.subrange(0, 1));
        assert(s == step(s0, r[0]));
        assert(s.fills == s0.fills);
        assert forall|m: int| 0 <= m < s.fills.len() implies (#[trigger] s.fills[m]).len() == 0 by {
            assert(s0.fills[m].len() == 0);
        }
    } else {
        lemma_two_sided_pen(def, i, j, k - 1);
        assert(r.subrange(0, k).drop_last() =~= r.subrange(0, k - 1));
        assert(r.subrange(0, k).last() == r[k - 1]);
        assert(r[k - 1] is Edge);
        let prev = pen_after(nf, nl, r.subrange(0, k - 1));
        let s = pen_after(nf, nl, r.subrange(0, k));
        assert forall|m: int| 0 <= m < s.path.len() - 1 implies (#[trigger] s.path[m]).to == s.path[m + 1].from by {
            if m < prev.path.len() - 1 {
                assert(prev.path[m].to == prev.path[m + 1].from);
            }
        }
    }
}

/// Fill orientation for a whole shape: when one style change selects two
/// different fills for the left and the right side and only edges follow,
/// the right fill gets the drawn chain and the left fill the same chain
/// reversed and flipped, and untangling keeps both.
pub proof fn lemma_shape_fill_orientation(def: DefineShape, i: usize, j: usize)
    requires
        two_sided(def, i, j),
    ensures
        is_chain(final_pen(def).fills[j - 1]),
        final_pen(def).fills[i - 1] == reversed_flipped(final_pen(def).fills[j - 1]),
        untangled(final_pen(def).fills[i - 1]) == reversed_flipped(
            untangled(final_pen(def).fills[j - 1]),
        ),
{
    let r = def.records@;
    lemma_two_sided_pen(def, i, j, r.len() as int);
    assert(r.subrange(0, r.len() as int) =~= r);
    let s = pen_after(def.initial_styles.fill@.len(), def.initial_styles.line@.len(), r);
    assert(s.fills[i - 1].len() == 0 && s.fills[j - 1].len() == 0);
    let f = final_pen(def);
    assert(f.fills[j - 1] =~= s.path);
    assert(f.fills[i - 1] =~= reversed_flipped(s.path));
    lemma_orientation_survives_untangling(f.fills[j - 1], f.fills[i - 1]);
}

} // verus!
