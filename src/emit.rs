//! The SVG definitions of characters and the document skeleton, as events.
use crate::animate::ObjectAnimation;
use crate::document::{color_svg, color_text, ViewBox};
use crate::geom::Line;
use crate::js::{int_text, nat_text, push_int, push_nat};
use crate::path::{drawn, path_data, PathCommand, StyledPath};
use crate::shape::{ColorStop, FillStyle, LineStyle, Rgba, Shape};
use crate::bitmap::{Bitmap, Pixel};
use crate::button::{
    dispatch_table,
    first_seen,
    flat_events,
    handlers_for,
    table_events,
    Event,
    EventHandler,
};
use crate::dictionary::DynamicText;
use crate::js::{base64_of, codes_js, indented, ops_js, push_code_ops, push_base64};
use crate::avm1::{self, ops_view};
use crate::jsdata::{fixed, fixed_js, timeline_js};
use crate::timeline::Timeline;
use crate::dictionary::Character;
use crate::svg::{
    attr_txt,
    events_view,
    object_tree,
    object_tree_of,
    pieces_view,
    push_all,
    push_attr,
    push_attr_text,
    push_close,
    push_open,
    text_piece,
    EventView,
    Piece,
    PieceView,
    SvgEvent,
};
use vstd::prelude::*;
use vstd::string::StringExecFns;

verus! {

pub open spec fn point_text(x: i32, y: i32) -> Seq<char> {
    int_text(x as int) + ","@ + int_text(y as int)
}

pub open spec fn command_text(c: PathCommand) -> Seq<char> {
    match c {
        PathCommand::MoveTo(p) => "M"@ + point_text(p.x, p.y),
        PathCommand::LineTo(p) => "L"@ + point_text(p.x, p.y),
        PathCommand::QuadraticTo(c, p) => "Q"@ + point_text(c.x, c.y) + ","@ + point_text(p.x, p.y),
        PathCommand::Close => "Z"@,
    }
}

/// Path data: the commands separated by spaces.
pub open spec fn path_text(cmds: Seq<PathCommand>) -> Seq<char>
    decreases cmds.len(),
{
    if cmds.len() == 0 {
        seq![]
    } else if cmds.len() == 1 {
        command_text(cmds[0])
    } else {
        path_text(cmds.drop_last()) + " "@ + command_text(cmds.last())
    }
}

fn push_point(s: &mut String, x: i32, y: i32)
    ensures
        final(s)@ == old(s)@ + point_text(x, y),
{
    push_int(s, x as i64);
    s.append(",");
    push_int(s, y as i64);
    proof {
        assert(final(s)@ =~= old(s)@ + point_text(x, y));
    }
}

pub fn path_string(cmds: &Vec<PathCommand>) -> (r: String)
    ensures
        r@ == path_text(cmds@),
{
    let mut s = String::new();
    let mut i: usize = 0;
    proof {
        assert(cmds@.subrange(0, 0) =~= Seq::<PathCommand>::empty());
    }
    while i < cmds.len()
        invariant
            i <= cmds@.len(),
            s@ == path_text(cmds@.subrange(0, i as int)),
        decreases cmds@.len() - i,
    {
        let ghost before = s@;
        if i > 0 {
            s.append(" ");
        }
        let ghost mid = s@;
        match cmds[i] {
            PathCommand::MoveTo(p) => {
                s.append("M");
                push_point(&mut s, p.x, p.y);
            },
            PathCommand::LineTo(p) => {
                s.append("L");
                push_point(&mut s, p.x, p.y);
            },
            PathCommand::QuadraticTo(c, p) => {
                s.append("Q");
                push_point(&mut s, c.x, c.y);
                s.append(",");
                push_point(&mut s, p.x, p.y);
            },
            PathCommand::Close => s.append("Z"),
        }
        proof {
            assert(s@ =~= mid + command_text(cmds@[i as int]));
            let t = cmds@.subrange(0, i + 1);
            assert(t.drop_last() =~= cmds@.subrange(0, i as int));
            if i == 0 {
                assert(t[0] == cmds@[0]);
                assert(mid =~= Seq::<char>::empty());
            }
            assert(s@ =~= path_text(t));
        }
        i += 1;
    }
    proof {
        assert(cmds@.subrange(0, i as int) =~= cmds@);
    }
    s
}

pub open spec fn stop_events(stops: Seq<ColorStop>) -> Seq<EventView>
    decreases stops.len(),
{
    if stops.len() == 0 {
        seq![]
    } else {
        let st = stops.last();
        stop_events(stops.drop_last()) + seq![
            EventView::Open("stop"@),
            EventView::Attr(
                "offset"@,
                seq![PieceView::Ratio((st.ratio as i64 * 100) as i64, 255), PieceView::Text("%"@)],
            ),
            attr_txt("stop-color"@, color_svg(st.color)),
            EventView::Close,
        ]
    }
}

pub open spec fn gradient_id(n: u64) -> Seq<char> {
    "grad_"@ + nat_text(n as nat)
}

pub open spec fn gradient_events(kind: Seq<char>, stops: Seq<ColorStop>, n: u64) -> Seq<EventView> {
    seq![EventView::Open(kind), attr_txt("id"@, gradient_id(n))] + stop_events(stops) + seq![
        EventView::Close,
    ]
}

/// The paint of a fill style, the definitions it needs, and the next
/// gradient number: gradients get the ids `grad_n` in turn, bitmaps refer
/// to `pat_id`, and focal gradients, which are not supported, show as
/// magenta.
pub open spec fn fill_text_of(style: FillStyle, next: u64) -> (Seq<char>, Seq<EventView>, u64) {
    match style {
        FillStyle::Solid(c) => (color_svg(c), seq![], next),
        FillStyle::LinearGradient(stops) => (
            "url(#"@ + gradient_id(next) + ")"@,
            gradient_events("linearGradient"@, stops@, next),
            (next + 1) as u64,
        ),
        FillStyle::RadialGradient(stops) => (
            "url(#"@ + gradient_id(next) + ")"@,
            gradient_events("radialGradient"@, stops@, next),
            (next + 1) as u64,
        ),
        FillStyle::Bitmap(id) => ("url(#pat_"@ + nat_text(id as nat) + ")"@, seq![], next),
        FillStyle::FocalGradient(_) => ("#ff00ff"@, seq![], next),
    }
}

fn push_stops(out: &mut Vec<SvgEvent>, stops: &Vec<ColorStop>)
    ensures
        events_view(final(out)@) == events_view(old(out)@) + stop_events(stops@),
{
    let mut i: usize = 0;
    proof {
        assert(stops@.subrange(0, 0) =~= Seq::<ColorStop>::empty());
        assert(events_view(out@) =~= events_view(old(out)@) + stop_events(stops@.subrange(0, 0)));
    }
    while i < stops.len()
        invariant
            i <= stops@.len(),
            events_view(out@) == events_view(old(out)@) + stop_events(stops@.subrange(0, i as int)),
        decreases stops@.len() - i,
    {
        let st = stops[i];
        push_open(out, "stop");
        let offset = vec![Piece::Ratio(st.ratio as i64 * 100, 255), text_piece("%")];
        proof {
            assert(pieces_view(offset@) =~= seq![
                PieceView::Ratio((st.ratio as i64 * 100) as i64, 255),
                PieceView::Text("%"@),
            ]);
        }
        push_attr(out, "offset", offset);
        push_attr_text(out, "stop-color", color_text(&st.color));
        push_close(out);
        proof {
            let t = stops@.subrange(0, i + 1);
            assert(t.drop_last() =~= stops@.subrange(0, i as int));
            assert(events_view(out@) =~= events_view(old(out)@) + stop_events(t));
        }
        i += 1;
    }
    proof {
        assert(stops@.subrange(0, i as int) =~= stops@);
    }
}

fn gradient_name(n: u64) -> (r: String)
    ensures
        r@ == gradient_id(n),
{
    let mut s = String::from_str("grad_");
    push_nat(&mut s, n);
    s
}

/// The paint of a fill style (see `fill_text_of`).
pub fn fill_text(style: &FillStyle, next: u64) -> (r: (String, Vec<SvgEvent>, u64))
    requires
        next < u64::MAX,
    ensures
        (r.0@, events_view(r.1@), r.2) == fill_text_of(*style, next),
{
    match style {
        FillStyle::Solid(c) => (color_text(c), Vec::new(), next),
        FillStyle::LinearGradient(stops) | FillStyle::RadialGradient(stops) => {
            let kind = match style {
                FillStyle::LinearGradient(_) => "linearGradient",
                _ => "radialGradient",
            };
            let mut defs: Vec<SvgEvent> = Vec::new();
            push_open(&mut defs, kind);
            push_attr_text(&mut defs, "id", gradient_name(next));
            push_stops(&mut defs, stops);
            push_close(&mut defs);
            let mut url = String::from_str("url(#");
            url.append(gradient_name(next).as_str());
            url.append(")");
            proof {
                assert(events_view(defs@) =~= gradient_events(kind@, stops@, next));
                assert(url@ =~= "url(#"@ + gradient_id(next) + ")"@);
            }
            (url, defs, next + 1)
        },
        FillStyle::Bitmap(id) => {
            let mut url = String::from_str("url(#pat_");
            push_nat(&mut url, *id as u64);
            url.append(")");
            proof {
                assert(url@ =~= "url(#pat_"@ + nat_text(*id as nat) + ")"@);
            }
            (url, Vec::new(), next)
        },
        FillStyle::FocalGradient(_) => (String::from_str("#ff00ff"), Vec::new(), next),
    }
}

pub open spec fn character_id(id: u16) -> Seq<char> {
    "c_"@ + nat_text(id as nat)
}

/// Gradient definitions, paths and next gradient number for the fills.
pub open spec fn fills_drawn<'a>(fills: Seq<StyledPath<&'a FillStyle>>, next: u64) -> (
    Seq<EventView>,
    Seq<EventView>,
    u64,
)
    decreases fills.len(),
{
    if fills.len() == 0 {
        (seq![], seq![], next)
    } else {
        let (d, b, n) = fills_drawn(fills.drop_last(), next);
        let f = fills.last();
        if f.path@.len() == 0 {
            (d, b, n)
        } else {
            let (t, g, n2) = fill_text_of(*f.style, n);
            (
                d + g,
                b + seq![
                    EventView::Open("path"@),
                    attr_txt("fill"@, t),
                    attr_txt("fill-rule"@, "evenodd"@),
                    attr_txt("d"@, path_text(drawn(f.path@, true))),
                    EventView::Close,
                ],
                n2,
            )
        }
    }
}

/// Gradient definitions, paths and next gradient number for the strokes.
pub open spec fn strokes_drawn<'a>(strokes: Seq<StyledPath<&'a LineStyle>>, next: u64) -> (
    Seq<EventView>,
    Seq<EventView>,
    u64,
)
    decreases strokes.len(),
{
    if strokes.len() == 0 {
        (seq![], seq![], next)
    } else {
        let (d, b, n) = strokes_drawn(strokes.drop_last(), next);
        let f = strokes.last();
        if f.path@.len() == 0 {
            (d, b, n)
        } else {
            let (t, g, n2) = fill_text_of(f.style.fill, n);
            (
                d + g,
                b + seq![
                    EventView::Open("path"@),
                    attr_txt("fill"@, "none"@),
                    attr_txt("stroke"@, t),
                    attr_txt("stroke-width"@, nat_text(f.style.width as nat)),
                    attr_txt("d"@, path_text(drawn(f.path@, !f.style.no_close))),
                    EventView::Close,
                ],
                n2,
            )
        }
    }
}

/// A shape's definitions: the gradients it uses, then the group `c_id`
/// with one path per non-empty fill (even-odd, closed when it ends where it
/// starts) and per non-empty stroke.
pub open spec fn shape_tree_of<'a>(id: u16, shape: Shape<'a>, next: u64) -> (Seq<EventView>, u64) {
    let (d1, b1, n1) = fills_drawn(shape.fill@, next);
    let (d2, b2, n2) = strokes_drawn(shape.stroke@, n1);
    (
        d1 + d2 + seq![EventView::Open("g"@), attr_txt("id"@, character_id(id))] + b1 + b2 + seq![
            EventView::Close,
        ],
        n2,
    )
}

pub fn character_name(id: u16) -> (r: String)
    ensures
        r@ == character_id(id),
{
    let mut s = String::from_str("c_");
    push_nat(&mut s, id as u64);
    s
}

proof fn lemma_fills_next<'a>(fills: Seq<StyledPath<&'a FillStyle>>, next: u64)
    requires
        next + fills.len() < u64::MAX,
    ensures
        next <= fills_drawn(fills, next).2 <= next + fills.len(),
    decreases fills.len(),
{
    if fills.len() > 0 {
        lemma_fills_next(fills.drop_last(), next);
    }
}

proof fn lemma_strokes_next<'a>(strokes: Seq<StyledPath<&'a LineStyle>>, next: u64)
    requires
        next + strokes.len() < u64::MAX,
    ensures
        next <= strokes_drawn(strokes, next).2 <= next + strokes.len(),
    decreases strokes.len(),
{
    if strokes.len() > 0 {
        lemma_strokes_next(strokes.drop_last(), next);
    }
}

/// The definitions of a shape (see `shape_tree_of`).
pub fn shape_tree<'a>(id: u16, shape: &Shape<'a>, next: u64) -> (r: (Vec<SvgEvent>, u64))
    requires
        next + shape.fill@.len() + shape.stroke@.len() < u64::MAX,
    ensures
        (events_view(r.0@), r.1) == shape_tree_of(id, *shape, next),
{
    let mut defs: Vec<SvgEvent> = Vec::new();
    let mut body: Vec<SvgEvent> = Vec::new();
    let mut n = next;
    let mut i: usize = 0;
    proof {
        assert(shape.fill@.subrange(0, 0) =~= Seq::<StyledPath<&'a FillStyle>>::empty());
        assert(events_view(defs@) =~= Seq::<EventView>::empty());
        assert(events_view(body@) =~= Seq::<EventView>::empty());
    }
    while i < shape.fill.len()
        invariant
            i <= shape.fill@.len(),
            next + shape.fill@.len() + shape.stroke@.len() < u64::MAX,
            (events_view(defs@), events_view(body@), n) == fills_drawn(
                shape.fill@.subrange(0, i as int),
                next,
            ),
        decreases shape.fill@.len() - i,
    {
        proof {
            let t = shape.fill@.subrange(0, i + 1);
            assert(t.drop_last() =~= shape.fill@.subrange(0, i as int));
            lemma_fills_next(shape.fill@.subrange(0, i as int), next);
        }
        let f = &shape.fill[i];
        match path_data(&f.path, true) {
            Some(cmds) => {
                let (t, g, n2) = fill_text(f.style, n);
                push_all(&mut defs, g);
                push_open(&mut body, "path");
                push_attr_text(&mut body, "fill", t);
                push_attr_text(&mut body, "fill-rule", String::from_str("evenodd"));
                push_attr_text(&mut body, "d", path_string(&cmds));
                push_close(&mut body);
                n = n2;
            },
            None => {},
        }
        proof {
            let t = shape.fill@.subrange(0, i + 1);
            assert(events_view(body@) == fills_drawn(t, next).1) by {
                if shape.fill@[i as int].path@.len() != 0 {
                    let prev = fills_drawn(t.drop_last(), next).1;
                    let tt = fill_text_of(*shape.fill@[i as int].style, fills_drawn(t.drop_last(), next).2);
                    assert(events_view(body@) =~= prev + seq![
                        EventView::Open("path"@),
                        attr_txt("fill"@, tt.0),
                        attr_txt("fill-rule"@, "evenodd"@),
                        attr_txt("d"@, path_text(drawn(shape.fill@[i as int].path@, true))),
                        EventView::Close,
                    ]);
                }
            }
        }
        i += 1;
    }
    proof {
        assert(shape.fill@.subrange(0, i as int) =~= shape.fill@);
        lemma_fills_next(shape.fill@, next);
    }
    let n1 = n;
    let ghost d1 = events_view(defs@);
    let ghost b1 = events_view(body@);
    let mut defs2: Vec<SvgEvent> = Vec::new();
    let mut body2: Vec<SvgEvent> = Vec::new();
    let mut k: usize = 0;
    proof {
        assert(shape.stroke@.subrange(0, 0) =~= Seq::<StyledPath<&'a LineStyle>>::empty());
        assert(events_view(defs2@) =~= Seq::<EventView>::empty());
        assert(events_view(body2@) =~= Seq::<EventView>::empty());
    }
    while k < shape.stroke.len()
        invariant
            k <= shape.stroke@.len(),
            n1 + shape.stroke@.len() < u64::MAX,
            (events_view(defs2@), events_view(body2@), n) == strokes_drawn(
                shape.stroke@.subrange(0, k as int),
                n1,
            ),
        decreases shape.stroke@.len() - k,
    {
        proof {
            let t = shape.stroke@.subrange(0, k + 1);
            assert(t.drop_last() =~= shape.stroke@.subrange(0, k as int));
            lemma_strokes_next(shape.stroke@.subrange(0, k as int), n1);
        }
        let f = &shape.stroke[k];
        match path_data(&f.path, !f.style.no_close) {
            Some(cmds) => {
                let (t, g, n2) = fill_text(&f.style.fill, n);
                push_all(&mut defs2, g);
                push_open(&mut body2, "path");
                push_attr_text(&mut body2, "fill", String::from_str("none"));
                push_attr_text(&mut body2, "stroke", t);
                let mut w = String::new();
                push_nat(&mut w, f.style.width as u64);
                push_attr_text(&mut body2, "stroke-width", w);
                push_attr_text(&mut body2, "d", path_string(&cmds));
                push_close(&mut body2);
                n = n2;
            },
            None => {},
        }
        proof {
            let t = shape.stroke@.subrange(0, k + 1);
            assert(events_view(body2@) == strokes_drawn(t, n1).1) by {
                if shape.stroke@[k as int].path@.len() != 0 {
                    let prev = strokes_drawn(t.drop_last(), n1).1;
                    let sf = shape.stroke@[k as int];
                    let tt = fill_text_of(sf.style.fill, strokes_drawn(t.drop_last(), n1).2);
                    assert(events_view(body2@) =~= prev + seq![
                        EventView::Open("path"@),
                        attr_txt("fill"@, "none"@),
                        attr_txt("stroke"@, tt.0),
                        attr_txt("stroke-width"@, nat_text(sf.style.width as nat)),
                        attr_txt("d"@, path_text(drawn(sf.path@, !sf.style.no_close))),
                        EventView::Close,
                    ]);
                }
            }
        }
        k += 1;
    }
    proof {
        assert(shape.stroke@.subrange(0, k as int) =~= shape.stroke@);
    }
    push_all(&mut defs, defs2);
    push_open(&mut defs, "g");
    push_attr_text(&mut defs, "id", character_name(id));
    push_all(&mut defs, body);
    push_all(&mut defs, body2);
    push_close(&mut defs);
    (defs, n)
}

/// The trees of a timeline's layers in one group, with the id `c_id` for a
/// sprite and the view-box clip for the movie itself.
pub open spec fn timeline_tree_of(
    id: Option<u16>,
    clip: bool,
    anims: Seq<ObjectAnimation>,
    dur: PieceView,
) -> Seq<EventView> {
    seq![EventView::Open("g"@)] + (match id {
        Some(i) => seq![attr_txt("id"@, character_id(i))],
        None => seq![],
    }) + (if clip {
        seq![attr_txt("clip-path"@, "url(#viewBox_clip)"@)]
    } else {
        seq![]
    }) + layers_of(anims, dur) + seq![EventView::Close]
}

pub open spec fn layers_of(anims: Seq<ObjectAnimation>, dur: PieceView) -> Seq<EventView>
    decreases anims.len(),
{
    if anims.len() == 0 {
        seq![]
    } else {
        layers_of(anims.drop_last(), dur) + object_tree_of(anims.last(), dur)
    }
}

fn push_layers(out: &mut Vec<SvgEvent>, anims: &Vec<ObjectAnimation>, dur: (i64, u64))
    ensures
        events_view(final(out)@) == events_view(old(out)@) + layers_of(
            anims@,
            PieceView::Ratio(dur.0, dur.1),
        ),
{
    let ghost d = PieceView::Ratio(dur.0, dur.1);
    let mut i: usize = 0;
    proof {
        assert(anims@.subrange(0, 0) =~= Seq::<ObjectAnimation>::empty());
        assert(events_view(out@) =~= events_view(old(out)@) + layers_of(anims@.subrange(0, 0), d));
    }
    while i < anims.len()
        invariant
            i <= anims@.len(),
            d == PieceView::Ratio(dur.0, dur.1),
            events_view(out@) == events_view(old(out)@) + layers_of(anims@.subrange(0, i as int), d),
        decreases anims@.len() - i,
    {
        push_all(out, object_tree(&anims[i], dur));
        proof {
            let t = anims@.subrange(0, i + 1);
            assert(t.drop_last() =~= anims@.subrange(0, i as int));
            assert(events_view(out@) =~= events_view(old(out)@) + layers_of(t, d));
        }
        i += 1;
    }
    proof {
        assert(anims@.subrange(0, i as int) =~= anims@);
    }
}

/// One group of layer trees (see `timeline_tree_of`); the duration is
/// `dur.0 / dur.1` seconds.
pub fn timeline_tree(id: Option<u16>, clip: bool, anims: &Vec<ObjectAnimation>, dur: (i64, u64)) -> (r:
    Vec<SvgEvent>)
    ensures
        events_view(r@) == timeline_tree_of(id, clip, anims@, PieceView::Ratio(dur.0, dur.1)),
{
    let mut out: Vec<SvgEvent> = Vec::new();
    push_open(&mut out, "g");
    if let Some(i) = id {
        push_attr_text(&mut out, "id", character_name(i));
    }
    if clip {
        push_attr_text(&mut out, "clip-path", String::from_str("url(#viewBox_clip)"));
    }
    push_layers(&mut out, anims, dur);
    push_close(&mut out);
    proof {
        assert(events_view(out@) =~= timeline_tree_of(id, clip, anims@, PieceView::Ratio(dur.0, dur.1)));
    }
    out
}

pub open spec fn state_group(id: u16, suffix: Seq<char>, anims: Seq<ObjectAnimation>) -> Seq<EventView> {
    seq![EventView::Open("g"@), attr_txt("id"@, character_id(id) + suffix)] + layers_of(
        anims,
        PieceView::Ratio(1, 1),
    ) + seq![EventView::Close]
}

/// A button's four state groups `c_id`, `c_id_over`, `c_id_down` and
/// `c_id_hit_test`, each showing its objects for one second.
pub open spec fn button_tree_of(
    id: u16,
    up: Seq<ObjectAnimation>,
    over: Seq<ObjectAnimation>,
    down: Seq<ObjectAnimation>,
    hit_test: Seq<ObjectAnimation>,
) -> Seq<EventView> {
    state_group(id, ""@, up) + state_group(id, "_over"@, over) + state_group(id, "_down"@, down)
        + state_group(id, "_hit_test"@, hit_test)
}

fn push_state(out: &mut Vec<SvgEvent>, id: u16, suffix: &str, anims: &Vec<ObjectAnimation>)
    ensures
        events_view(final(out)@) == events_view(old(out)@) + state_group(id, suffix@, anims@),
{
    push_open(out, "g");
    let mut name = character_name(id);
    name.append(suffix);
    push_attr_text(out, "id", name);
    push_layers(out, anims, (1, 1));
    push_close(out);
    proof {
        assert(events_view(out@) =~= events_view(old(out)@) + state_group(id, suffix@, anims@));
    }
}

/// The state groups of a button (see `button_tree_of`).
pub fn button_tree(
    id: u16,
    up: &Vec<ObjectAnimation>,
    over: &Vec<ObjectAnimation>,
    down: &Vec<ObjectAnimation>,
    hit_test: &Vec<ObjectAnimation>,
) -> (r: Vec<SvgEvent>)
    ensures
        events_view(r@) == button_tree_of(id, up@, over@, down@, hit_test@),
{
    let mut out: Vec<SvgEvent> = Vec::new();
    push_state(&mut out, id, "", up);
    push_state(&mut out, id, "_over", over);
    push_state(&mut out, id, "_down", down);
    push_state(&mut out, id, "_hit_test", hit_test);
    proof {
        reveal_strlit("");
        assert(events_view(out@) =~= button_tree_of(id, up@, over@, down@, hit_test@));
    }
    out
}

/// A text field as the group `c_id` holding a `<text>` with its initial
/// text, font size and color.
pub open spec fn text_tree_of(id: u16, t: DynamicText) -> Seq<EventView> {
    seq![
        EventView::Open("g"@),
        attr_txt("id"@, character_id(id)),
        EventView::Open("text"@),
    ] + (match t.font_size {
        Some(s) => seq![attr_txt("font-size"@, nat_text(s as nat))],
        None => seq![],
    }) + (match t.color {
        Some(c) => seq![attr_txt("fill"@, color_svg(c))],
        None => seq![],
    }) + seq![
        EventView::Text(
            match t.text {
                Some(x) => x@,
                None => ""@,
            },
        ),
        EventView::Close,
        EventView::Close,
    ]
}

pub fn text_tree(id: u16, t: &DynamicText) -> (r: Vec<SvgEvent>)
    ensures
        events_view(r@) == text_tree_of(id, *t),
{
    let mut out: Vec<SvgEvent> = Vec::new();
    push_open(&mut out, "g");
    push_attr_text(&mut out, "id", character_name(id));
    push_open(&mut out, "text");
    if let Some(size) = t.font_size {
        let mut s = String::new();
        push_nat(&mut s, size as u64);
        push_attr_text(&mut out, "font-size", s);
    }
    if let Some(c) = &t.color {
        push_attr_text(&mut out, "fill", color_text(c));
    }
    let content = match &t.text {
        Some(x) => x.clone(),
        None => String::from_str(""),
    };
    let e = SvgEvent::Text(content);
    proof {
        crate::svg::lemma_events_push(out@, e);
    }
    out.push(e);
    push_close(&mut out);
    push_close(&mut out);
    proof {
        assert(events_view(out@) =~= text_tree_of(id, *t));
    }
    out
}

/// The bytes of a row of pixels: RGB, or RGBA with alpha.
pub open spec fn row_bytes(row: Seq<Pixel>, alpha: bool) -> Seq<u8>
    decreases row.len(),
{
    if row.len() == 0 {
        seq![]
    } else {
        let p = row.last();
        row_bytes(row.drop_last(), alpha) + if alpha {
            seq![p.r, p.g, p.b, p.a]
        } else {
            seq![p.r, p.g, p.b]
        }
    }
}

/// The bytes of all rows in turn.
pub open spec fn raw_bytes(rows: Seq<Vec<Pixel>>, alpha: bool) -> Seq<u8>
    decreases rows.len(),
{
    if rows.len() == 0 {
        seq![]
    } else {
        raw_bytes(rows.drop_last(), alpha) + row_bytes(rows.last()@, alpha)
    }
}

fn raw_of(rows: &Vec<Vec<Pixel>>, alpha: bool) -> (r: Vec<u8>)
    ensures
        r@ == raw_bytes(rows@, alpha),
{
    let mut out: Vec<u8> = Vec::new();
    let mut y: usize = 0;
    proof {
        assert(rows@.subrange(0, 0) =~= Seq::<Vec<Pixel>>::empty());
    }
    while y < rows.len()
        invariant
            y <= rows@.len(),
            out@ == raw_bytes(rows@.subrange(0, y as int), alpha),
        decreases rows@.len() - y,
    {
        let row = &rows[y];
        let ghost start = out@;
        let mut x: usize = 0;
        proof {
            assert(row@.subrange(0, 0) =~= Seq::<Pixel>::empty());
            assert(out@ =~= start + row_bytes(row@.subrange(0, 0), alpha));
        }
        while x < row.len()
            invariant
                x <= row@.len(),
                out@ == start + row_bytes(row@.subrange(0, x as int), alpha),
            decreases row@.len() - x,
        {
            let p = row[x];
            out.push(p.r);
            out.push(p.g);
            out.push(p.b);
            if alpha {
                out.push(p.a);
            }
            proof {
                let t = row@.subrange(0, x + 1);
                assert(t.drop_last() =~= row@.subrange(0, x as int));
                assert(out@ =~= start + row_bytes(t, alpha));
            }
            x += 1;
        }
        proof {
            assert(row@.subrange(0, x as int) =~= row@);
            let t = rows@.subrange(0, y + 1);
            assert(t.drop_last() =~= rows@.subrange(0, y as int));
            assert(out@ =~= raw_bytes(t, alpha));
        }
        y += 1;
    }
    proof {
        assert(rows@.subrange(0, y as int) =~= rows@);
    }
    out
}

/// The name of the bytes that `image`'s PNG encoder writes for an RGB
/// image of the given size built from these bytes (nothing when they are
/// too few for the size).
pub uninterp spec fn png_rgb_of(width: u32, height: u32, raw: Seq<u8>) -> Seq<u8>;

/// The name of the bytes that `image`'s PNG encoder writes for an RGBA
/// image of the given size built from these bytes (nothing when they are
/// too few for the size).
pub uninterp spec fn png_rgba_of(width: u32, height: u32, raw: Seq<u8>) -> Seq<u8>;

/// Relies on `image::RgbImage::from_raw` and `DynamicImage::write_to` with
/// `image::PNG`: the encoder writes the same bytes for the same pixels. The
/// PNG encoder panics on an image without columns, so both sides must be
/// positive.
#[verifier::external_body]
fn encode_png_rgb(width: u32, height: u32, raw: Vec<u8>) -> (r: Vec<u8>)
    requires
        width > 0,
        height > 0,
    ensures
        r@ == png_rgb_of(width, height, raw@),
{
    let mut png = Vec::new();
    if let Some(img) = image::RgbImage::from_raw(width, height, raw) {
        let _ = image::DynamicImage::ImageRgb8(img).write_to(&mut png, image::PNG);
    }
    png
}

/// Relies on `image::RgbaImage::from_raw` and `DynamicImage::write_to` with
/// `image::PNG`: the encoder writes the same bytes for the same pixels. The
/// PNG encoder panics on an image without columns, so both sides must be
/// positive.
#[verifier::external_body]
fn encode_png_rgba(width: u32, height: u32, raw: Vec<u8>) -> (r: Vec<u8>)
    requires
        width > 0,
        height > 0,
    ensures
        r@ == png_rgba_of(width, height, raw@),
{
    let mut png = Vec::new();
    if let Some(img) = image::RgbaImage::from_raw(width, height, raw) {
        let _ = image::DynamicImage::ImageRgba8(img).write_to(&mut png, image::PNG);
    }
    png
}

pub open spec fn png_of(b: Bitmap) -> Seq<u8> {
    if b.has_alpha {
        png_rgba_of(b.width, b.height, raw_bytes(b.rows@, true))
    } else {
        png_rgb_of(b.width, b.height, raw_bytes(b.rows@, false))
    }
}

/// A bitmap as the group `c_id` holding the pattern `pat_id`. A bitmap with
/// pixels gets the pattern's image: the PNG data URL of the pixels at twenty
/// units per pixel. An empty bitmap (no rows or no columns) has nothing to
/// show, and its pattern stays empty.
pub open spec fn bitmap_tree_of(id: u16, b: Bitmap) -> Seq<EventView> {
    seq![
        EventView::Open("g"@),
        attr_txt("id"@, character_id(id)),
        EventView::Open("pattern"@),
        attr_txt("id"@, "pat_"@ + nat_text(id as nat)),
        attr_txt("width"@, "1"@),
        attr_txt("height"@, "1"@),
    ] + (if b.width > 0 && b.height > 0 {
        seq![
            EventView::Open("image"@),
            attr_txt("xlink:href"@, "data:image/png;base64,"@ + base64_of(png_of(b))),
            attr_txt("width"@, nat_text(b.width as nat * 20)),
            attr_txt("height"@, nat_text(b.height as nat * 20)),
            EventView::Close,
        ]
    } else {
        seq![]
    }) + seq![EventView::Close, EventView::Close]
}

pub fn bitmap_tree(id: u16, b: &Bitmap) -> (r: Vec<SvgEvent>)
    ensures
        events_view(r@) == bitmap_tree_of(id, *b),
{
    let mut out: Vec<SvgEvent> = Vec::new();
    push_open(&mut out, "g");
    push_attr_text(&mut out, "id", character_name(id));
    push_open(&mut out, "pattern");
    let mut pat = String::from_str("pat_");
    push_nat(&mut pat, id as u64);
    push_attr_text(&mut out, "id", pat);
    push_attr_text(&mut out, "width", String::from_str("1"));
    push_attr_text(&mut out, "height", String::from_str("1"));
    if b.width > 0 && b.height > 0 {
        let raw = raw_of(&b.rows, b.has_alpha);
        let png = if b.has_alpha {
            encode_png_rgba(b.width, b.height, raw)
        } else {
            encode_png_rgb(b.width, b.height, raw)
        };
        let mut url = String::from_str("data:image/png;base64,");
        push_base64(&mut url, png.as_slice());
        push_open(&mut out, "image");
        push_attr_text(&mut out, "xlink:href", url);
        let mut w = String::new();
        push_nat(&mut w, b.width as u64 * 20);
        push_attr_text(&mut out, "width", w);
        let mut h = String::new();
        push_nat(&mut h, b.height as u64 * 20);
        push_attr_text(&mut out, "height", h);
        push_close(&mut out);
    }
    push_close(&mut out);
    push_close(&mut out);
    proof {
        assert(events_view(out@) =~= bitmap_tree_of(id, *b));
    }
    out
}

/// The document: the root `svg` with the xlink namespace, the view box and
/// a black page; a background rectangle in `bg`; the definitions, seeded
/// with the view-box clip path; then the body.
pub open spec fn document_tree_of(vb: ViewBox, bg: Rgba, defs: Seq<EventView>, body: Seq<EventView>) -> Seq<
    EventView,
> {
    seq![
        EventView::Open("svg"@),
        attr_txt("xmlns:xlink"@, "http://www.w3.org/1999/xlink"@),
        attr_txt(
            "viewBox"@,
            int_text(vb.x as int) + " "@ + int_text(vb.y as int) + " "@ + int_text(vb.width as int)
                + " "@ + int_text(vb.height as int),
        ),
        attr_txt("style"@, "background: black"@),
        EventView::Open("rect"@),
        attr_txt("id"@, "bg"@),
        attr_txt("width"@, "100%"@),
        attr_txt("height"@, "100%"@),
        attr_txt("fill"@, color_svg(bg)),
        EventView::Close,
        EventView::Open("defs"@),
        EventView::Open("clipPath"@),
        attr_txt("id"@, "viewBox_clip"@),
        EventView::Open("rect"@),
        attr_txt("x"@, int_text(vb.x as int)),
        attr_txt("y"@, int_text(vb.y as int)),
        attr_txt("width"@, int_text(vb.width as int)),
        attr_txt("height"@, int_text(vb.height as int)),
        EventView::Close,
        EventView::Close,
    ] + defs + seq![EventView::Close] + body + seq![EventView::Close]
}

fn int_string(v: i64) -> (r: String)
    requires
        v > i64::MIN,
    ensures
        r@ == int_text(v as int),
{
    let mut s = String::new();
    push_int(&mut s, v);
    s
}

pub fn document_tree(vb: ViewBox, bg: Rgba, defs: Vec<SvgEvent>, body: Vec<SvgEvent>) -> (r: Vec<SvgEvent>)
    requires
        vb.width > i64::MIN,
        vb.height > i64::MIN,
    ensures
        events_view(r@) == document_tree_of(vb, bg, events_view(defs@), events_view(body@)),
{
    let mut out: Vec<SvgEvent> = Vec::new();
    push_open(&mut out, "svg");
    push_attr_text(&mut out, "xmlns:xlink", String::from_str("http://www.w3.org/1999/xlink"));
    let mut view = int_string(vb.x as i64);
    view.append(" ");
    view.append(int_string(vb.y as i64).as_str());
    view.append(" ");
    view.append(int_string(vb.width).as_str());
    view.append(" ");
    view.append(int_string(vb.height).as_str());
    push_attr_text(&mut out, "viewBox", view);
    push_attr_text(&mut out, "style", String::from_str("background: black"));
    push_open(&mut out, "rect");
    push_attr_text(&mut out, "id", String::from_str("bg"));
    push_attr_text(&mut out, "width", String::from_str("100%"));
    push_attr_text(&mut out, "height", String::from_str("100%"));
    push_attr_text(&mut out, "fill", color_text(&bg));
    push_close(&mut out);
    push_open(&mut out, "defs");
    push_open(&mut out, "clipPath");
    push_attr_text(&mut out, "id", String::from_str("viewBox_clip"));
    push_open(&mut out, "rect");
    push_attr_text(&mut out, "x", int_string(vb.x as i64));
    push_attr_text(&mut out, "y", int_string(vb.y as i64));
    push_attr_text(&mut out, "width", int_string(vb.width));
    push_attr_text(&mut out, "height", int_string(vb.height));
    push_close(&mut out);
    push_close(&mut out);
    push_all(&mut out, defs);
    push_close(&mut out);
    push_all(&mut out, body);
    push_close(&mut out);
    proof {
        assert(events_view(out@) =~= document_tree_of(vb, bg, events_view(defs@), events_view(body@)));
    }
    out
}

/// The runtime's entry for a sound: an `Audio` element of its MP3 bytes.
pub open spec fn sound_js_of(id: u16, mp3: Seq<u8>) -> Seq<char> {
    "sounds["@ + nat_text(id as nat) + "] = "@ + "new Audio('data:audio/mpeg;base64,"@ + base64_of(
        mp3,
    ) + "')"@ + ";\n"@
}

pub fn sound_js(id: u16, mp3: &[u8]) -> (r: String)
    ensures
        r@ == sound_js_of(id, mp3@),
{
    let mut s = String::from_str("sounds[");
    push_nat(&mut s, id as u64);
    s.append("] = ");
    s.append(crate::js::export_mp3(mp3).0.as_str());
    s.append(";\n");
    proof {
        assert(s@ =~= sound_js_of(id, mp3@));
    }
    s
}

/// The runtime's entry for a sprite: its timeline's data object.
pub open spec fn sprite_js_of(id: u16, t: Timeline) -> Seq<char> {
    "sprites["@ + nat_text(id as nat) + "] = "@ + timeline_js(t) + ";\n"@
}

pub fn sprite_js(id: u16, t: &Timeline) -> (r: String)
    requires
        t.wf(),
    ensures
        r@ == sprite_js_of(id, *t),
{
    let mut s = String::from_str("sprites[");
    push_nat(&mut s, id as u64);
    s.append("] = ");
    s.append(crate::jsdata::export(t).0.as_str());
    s.append(";\n");
    proof {
        assert(s@ =~= sprite_js_of(id, *t));
    }
    s
}

pub open spec fn selected(hs: Seq<EventHandler>, idx: Seq<usize>) -> Seq<avm1::Code> {
    Seq::new(idx.len(), |j: int| hs[idx[j] as int].actions)
}

pub open spec fn mouse_name(e: Event) -> Seq<char> {
    match e {
        Event::HoverIn => "hoverIn"@,
        Event::HoverOut => "hoverOut"@,
        Event::Down => "down"@,
        Event::Up => "up"@,
        Event::DragOut => "dragOut"@,
        Event::DragIn => "dragIn"@,
        Event::UpOut => "upOut"@,
        Event::DownIn => "downIn"@,
        Event::DownOut => "downOut"@,
        Event::KeyPress(_) => seq![],
    }
}

pub open spec fn handler_target(id: u16, e: Event) -> Seq<char> {
    let b = "buttons["@ + nat_text(id as nat) + "]"@;
    match e {
        Event::KeyPress(c) => b + ".keyPress["@ + nat_text(c as nat) + "]"@,
        _ => b + ".mouse."@ + mouse_name(e),
    }
}

pub open spec fn dispatch_js(id: u16, hs: Seq<EventHandler>, table: Seq<(Event, Seq<usize>)>) -> Seq<char>
    decreases table.len(),
{
    if table.len() == 0 {
        seq![]
    } else {
        let (e, idx) = table.last();
        dispatch_js(id, hs, table.drop_last()) + handler_target(id, e) + " = function(global, local) {"@
            + indented(codes_js(selected(hs, idx))) + "\n};\n"@
    }
}

pub open spec fn table_view(t: Seq<(Event, Vec<usize>)>) -> Seq<(Event, Seq<usize>)> {
    Seq::new(t.len(), |k: int| (t[k].0, t[k].1@))
}

/// The dispatch table of the handlers: each event in the order first seen,
/// with the handlers it triggers.
pub open spec fn dispatch_of(hs: Seq<EventHandler>) -> Seq<(Event, Seq<usize>)> {
    let fs = first_seen(flat_events(hs));
    Seq::new(fs.len(), |k: int| (fs[k], handlers_for(hs, fs[k], hs.len() as int)))
}

/// The runtime's entry for a button: an object of mouse and key handlers,
/// then one function per event of the dispatch table, running the handlers
/// that the event triggers in order.
pub open spec fn button_js_of(id: u16, hs: Seq<EventHandler>, table: Seq<(Event, Seq<usize>)>) -> Seq<char> {
    "buttons["@ + nat_text(id as nat) + "] = {\n    mouse: {},\n    keyPress: [],\n};\n"@ + dispatch_js(
        id,
        hs,
        table,
    )
}

fn target_text(id: u16, e: Event) -> (r: String)
    ensures
        r@ == handler_target(id, e),
{
    let mut s = String::from_str("buttons[");
    push_nat(&mut s, id as u64);
    s.append("]");
    match e {
        Event::KeyPress(c) => {
            s.append(".keyPress[");
            push_nat(&mut s, c as u64);
            s.append("]");
        },
        _ => {
            s.append(".mouse.");
            let name = match e {
                Event::HoverIn => "hoverIn",
                Event::HoverOut => "hoverOut",
                Event::Down => "down",
                Event::Up => "up",
                Event::DragOut => "dragOut",
                Event::DragIn => "dragIn",
                Event::UpOut => "upOut",
                Event::DownIn => "downIn",
                _ => "downOut",
            };
            s.append(name);
        },
    }
    proof {
        assert(s@ =~= handler_target(id, e));
    }
    s
}

fn push_selected(out: &mut String, hs: &Vec<EventHandler>, idx: &Vec<usize>)
    requires
        forall|j: int| 0 <= j < idx@.len() ==> (#[trigger] idx@[j]) < hs@.len(),
    ensures
        final(out)@ == old(out)@ + indented(codes_js(selected(hs@, idx@))),
{
    let mut j: usize = 0;
    proof {
        assert(selected(hs@, idx@.subrange(0, 0)) =~= Seq::<avm1::Code>::empty());
        assert(out@ =~= old(out)@ + indented(codes_js(selected(hs@, idx@.subrange(0, 0)))));
    }
    while j < idx.len()
        invariant
            j <= idx@.len(),
            forall|k: int| 0 <= k < idx@.len() ==> (#[trigger] idx@[k]) < hs@.len(),
            out@ == old(out)@ + indented(codes_js(selected(hs@, idx@.subrange(0, j as int)))),
        decreases idx@.len() - j,
    {
        let code = &hs[idx[j]].actions;
        let ghost before = out@;
        push_code_ops(out, code);
        proof {
            let t = selected(hs@, idx@.subrange(0, j + 1));
            assert(t.drop_last() =~= selected(hs@, idx@.subrange(0, j as int)));
            assert(t.last() == *code);
            crate::js::lemma_indented_concat(
                codes_js(t.drop_last()),
                ops_js(ops_view(code.ops@), code.ops@.len()),
            );
            assert(out@ =~= old(out)@ + indented(codes_js(t)));
        }
        j += 1;
    }
    proof {
        assert(idx@.subrange(0, j as int) =~= idx@);
    }
}

/// A button's entry for the runtime (see `button_js_of`); `table` is its
/// dispatch table.
pub fn button_js(id: u16, hs: &Vec<EventHandler>, table: &Vec<(Event, Vec<usize>)>) -> (r: String)
    requires
        forall|k: int, j: int|
            0 <= k < table@.len() && 0 <= j < table@[k].1@.len() ==> (#[trigger] table@[k].1@[j])
                < hs@.len(),
    ensures
        r@ == button_js_of(id, hs@, table_view(table@)),
{
    let mut s = String::from_str("buttons[");
    push_nat(&mut s, id as u64);
    s.append("] = {\n    mouse: {},\n    keyPress: [],\n};\n");
    let ghost head = s@;
    let mut k: usize = 0;
    proof {
        assert(table_view(table@.subrange(0, 0)) =~= Seq::<(Event, Seq<usize>)>::empty());
    }
    while k < table.len()
        invariant
            k <= table@.len(),
            forall|kk: int, j: int|
                0 <= kk < table@.len() && 0 <= j < table@[kk].1@.len() ==> (#[trigger] table@[kk].1@[j])
                    < hs@.len(),
            s@ == head + dispatch_js(id, hs@, table_view(table@.subrange(0, k as int))),
        decreases table@.len() - k,
    {
        let ghost before = s@;
        s.append(target_text(id, table[k].0).as_str());
        s.append(" = function(global, local) {");
        proof {
            assert forall|j: int| 0 <= j < table@[k as int].1@.len() implies (#[trigger] table@[k as int].1@[j]) < hs@.len() by {
                assert(table@[k as int].1@[j] < hs@.len());
            }
        }
        push_selected(&mut s, hs, &table[k].1);
        s.append("\n};\n");
        proof {
            let t = table_view(table@.subrange(0, k + 1));
            assert(t.drop_last() =~= table_view(table@.subrange(0, k as int)));
            assert(t.last() == (table@[k as int].0, table@[k as int].1@));
            assert(s@ =~= head + dispatch_js(id, hs@, t));
        }
        k += 1;
    }
    proof {
        assert(table@.subrange(0, k as int) =~= table@);
    }
    s
}

proof fn lemma_handlers_in_range(hs: Seq<EventHandler>, e: Event, n: int)
    requires
        0 <= n <= hs.len(),
    ensures
        forall|j: int|
            0 <= j < handlers_for(hs, e, n).len() ==> (#[trigger] handlers_for(hs, e, n)[j]) < n,
    decreases n,
{
    if n > 0 {
        lemma_handlers_in_range(hs, e, n - 1);
        let p = handlers_for(hs, e, n - 1);
        assert forall|j: int| 0 <= j < handlers_for(hs, e, n).len() implies (#[trigger] handlers_for(
            hs,
            e,
            n,
        )[j]) < n by {
            if j < p.len() {
                assert(p[j] < n - 1);
                assert(handlers_for(hs, e, n)[j] == p[j]);
            }
        }
    }
}

/// A button's entry for the runtime over its own dispatch table.
pub fn button_dispatch_js(id: u16, hs: &Vec<EventHandler>) -> (r: String)
    ensures
        r@ == button_js_of(id, hs@, dispatch_of(hs@)),
{
    let table = dispatch_table(hs);
    proof {
        assert forall|k: int, j: int|
            0 <= k < table@.len() && 0 <= j < table@[k].1@.len() implies (#[trigger] table@[k].1@[j])
                < hs@.len() by {
            lemma_handlers_in_range(hs@, table@[k].0, hs@.len() as int);
        }
        let fs = first_seen(flat_events(hs@));
        assert(table_events(table@).len() == fs.len());
        assert forall|k: int| 0 <= k < table@.len() implies #[trigger] table_view(table@)[k] == dispatch_of(hs@)[k] by {
            assert(table_events(table@)[k] == fs[k]);
        }
        assert(table_view(table@) =~= dispatch_of(hs@));
    }
    button_js(id, hs, &table)
}

/// The script of the scripted document: the root timeline, the entries of
/// the characters and the frame rate (8.8 fixed point).
pub open spec fn script_of(t: Timeline, defs: Seq<char>, frame_rate: u16) -> Seq<char> {
    "// <![CDATA[\nvar timeline = "@ + timeline_js(t)
        + ";\nvar sounds = [];\nvar sprites = [];\nvar buttons = [];\n"@ + defs + "var frame_rate = "@
        + fixed_js(frame_rate as int, 256) + ";\n\n\n// ]]>\n"@
}

/// The body of the scripted document: an empty group clipped to the view
/// box, which the runtime fills, and the script.
pub open spec fn scripted_body_of(t: Timeline, defs: Seq<char>, frame_rate: u16) -> Seq<EventView> {
    seq![
        EventView::Open("g"@),
        attr_txt("id"@, "body"@),
        attr_txt("clip-path"@, "url(#viewBox_clip)"@),
        EventView::Close,
        EventView::Open("script"@),
        EventView::Text(script_of(t, defs, frame_rate)),
        EventView::Close,
    ]
}

pub fn scripted_body(t: &Timeline, defs: &String, frame_rate: u16) -> (r: Vec<SvgEvent>)
    requires
        t.wf(),
    ensures
        events_view(r@) == scripted_body_of(*t, defs@, frame_rate),
{
    let mut script = String::from_str("// <![CDATA[\nvar timeline = ");
    script.append(crate::jsdata::export(t).0.as_str());
    script.append(";\nvar sounds = [];\nvar sprites = [];\nvar buttons = [];\n");
    script.append(defs.as_str());
    script.append("var frame_rate = ");
    script.append(fixed(frame_rate as i64, 256).as_str());
    script.append(";\n\n\n// ]]>\n");
    proof {
        assert(script@ =~= script_of(*t, defs@, frame_rate));
    }
    let mut out: Vec<SvgEvent> = Vec::new();
    push_open(&mut out, "g");
    push_attr_text(&mut out, "id", String::from_str("body"));
    push_attr_text(&mut out, "clip-path", String::from_str("url(#viewBox_clip)"));
    push_close(&mut out);
    push_open(&mut out, "script");
    let e = SvgEvent::Text(script);
    proof {
        crate::svg::lemma_events_push(out@, e);
    }
    out.push(e);
    push_close(&mut out);
    proof {
        assert(events_view(out@) =~= scripted_body_of(*t, defs@, frame_rate));
    }
    out
}

/// An empty group `c_id`, for characters that have no picture.
pub fn empty_tree(id: u16) -> (r: Vec<SvgEvent>)
    ensures
        events_view(r@) == seq![
            EventView::Open("g"@),
            attr_txt("id"@, character_id(id)),
            EventView::Close,
        ],
{
    let mut out: Vec<SvgEvent> = Vec::new();
    push_open(&mut out, "g");
    push_attr_text(&mut out, "id", character_name(id));
    push_close(&mut out);
    proof {
        assert(events_view(out@) =~= seq![
            EventView::Open("g"@),
            attr_txt("id"@, character_id(id)),
            EventView::Close,
        ]);
    }
    out
}

/// The id prefix of a layer's definitions: `c_id_d_depth_` in a sprite,
/// `d_depth_` in the movie itself.
pub open spec fn layer_prefix_of(id: Option<u16>, depth: u16) -> Seq<char> {
    (match id {
        Some(i) => character_id(i) + "_"@,
        None => ""@,
    }) + "d_"@ + nat_text(depth as nat) + "_"@
}

pub fn layer_prefix(id: Option<u16>, depth: u16) -> (r: String)
    ensures
        r@ == layer_prefix_of(id, depth),
{
    let mut s = match id {
        Some(i) => {
            let mut c = character_name(i);
            c.append("_");
            c
        },
        None => String::from_str(""),
    };
    s.append("d_");
    push_nat(&mut s, depth as u64);
    s.append("_");
    proof {
        assert(s@ =~= layer_prefix_of(id, depth));
    }
    s
}

/// The id prefix of a button state's layer: `c_id<suffix>_d_depth_`.
pub open spec fn state_prefix_of(id: u16, suffix: Seq<char>, depth: u16) -> Seq<char> {
    character_id(id) + suffix + "_d_"@ + nat_text(depth as nat) + "_"@
}

pub fn state_prefix(id: u16, suffix: &str, depth: u16) -> (r: String)
    ensures
        r@ == state_prefix_of(id, suffix@, depth),
{
    let mut s = character_name(id);
    s.append(suffix);
    s.append("_d_");
    push_nat(&mut s, depth as u64);
    s.append("_");
    proof {
        assert(s@ =~= state_prefix_of(id, suffix@, depth));
    }
    s
}

pub open spec fn empty_tree_of(id: u16) -> Seq<EventView> {
    seq![EventView::Open("g"@), attr_txt("id"@, character_id(id)), EventView::Close]
}

/// What a character adds to the document: its definitions, its entry for
/// the runtime, and the next gradient number. In scripted mode sounds and
/// sprites only get runtime entries; buttons get both. `anims` holds the
/// layer tracks a sprite (`anims[0]`) or a button (its four states) shows,
/// and `frame_rate` is the movie's rate in 8.8 fixed point.
pub open spec fn character_defs_of<'a>(
    id: u16,
    c: Character<'a>,
    use_js: bool,
    next: u64,
    anims: Seq<Vec<ObjectAnimation>>,
    frame_rate: u16,
) -> (Seq<EventView>, Seq<char>, u64) {
    match c {
        Character::Shape(s) => {
            let (e, n) = shape_tree_of(id, s, next);
            (e, seq![], n)
        },
        Character::Bitmap(b) => (bitmap_tree_of(id, b), seq![], next),
        Character::Sound(snd) => if use_js {
            (
                seq![],
                match snd.mp3 {
                    Some(m) => sound_js_of(id, m.data@),
                    None => seq![],
                },
                next,
            )
        } else {
            (empty_tree_of(id), seq![], next)
        },
        Character::Sprite(t) => if use_js {
            (seq![], sprite_js_of(id, t), next)
        } else {
            (
                timeline_tree_of(
                    Some(id),
                    false,
                    anims[0]@,
                    PieceView::Ratio((t.frame_count.0 as int * 256) as i64, frame_rate as u64),
                ),
                seq![],
                next,
            )
        },
        Character::Button(b) => (
            button_tree_of(id, anims[0]@, anims[1]@, anims[2]@, anims[3]@),
            if use_js {
                button_js_of(id, b.handlers@, dispatch_of(b.handlers@))
            } else {
                seq![]
            },
            next,
        ),
        Character::DynamicText(t) => (text_tree_of(id, t), seq![], next),
    }
}

/// What a character adds to the document (see `character_defs_of`).
pub fn character_defs<'a>(
    id: u16,
    c: &Character<'a>,
    use_js: bool,
    next: u64,
    anims: &Vec<Vec<ObjectAnimation>>,
    frame_rate: u16,
) -> (r: (Vec<SvgEvent>, String, u64))
    requires
        c matches Character::Shape(s) ==> next + s.fill@.len() + s.stroke@.len() < u64::MAX,
        c matches Character::Sprite(t) ==> t.wf() && anims@.len() >= 1,
        c is Button ==> anims@.len() >= 4,
    ensures
        (events_view(r.0@), r.1@, r.2) == character_defs_of(id, *c, use_js, next, anims@, frame_rate),
{
    match c {
        Character::Shape(s) => {
            let (e, n) = shape_tree(id, s, next);
            (e, String::new(), n)
        },
        Character::Bitmap(b) => (bitmap_tree(id, b), String::new(), next),
        Character::Sound(snd) => {
            if use_js {
                let js = match &snd.mp3 {
                    Some(m) => sound_js(id, m.data.as_slice()),
                    None => String::new(),
                };
                let e: Vec<SvgEvent> = Vec::new();
                proof {
                    assert(events_view(e@) =~= Seq::<EventView>::empty());
                }
                (e, js, next)
            } else {
                (empty_tree(id), String::new(), next)
            }
        },
        Character::Sprite(t) => {
            if use_js {
                let e: Vec<SvgEvent> = Vec::new();
                proof {
                    assert(events_view(e@) =~= Seq::<EventView>::empty());
                }
                (e, sprite_js(id, t), next)
            } else {
                let dur = (t.frame_count.0 as i64 * 256, frame_rate as u64);
                (timeline_tree(Some(id), false, &anims[0], dur), String::new(), next)
            }
        },
        Character::Button(b) => {
            let e = button_tree(id, &anims[0], &anims[1], &anims[2], &anims[3]);
            let js = if use_js {
                button_dispatch_js(id, &b.handlers)
            } else {
                String::new()
            };
            (e, js, next)
        },
        Character::DynamicText(t) => (text_tree(id, t), String::new(), next),
    }
}

} // verus!
