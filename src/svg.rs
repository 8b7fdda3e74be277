//! SVG output as a flat list of events (open an element, set an attribute,
//! add text, close the element). Attribute values are made of pieces;
//! floating-point numbers stay as bits or as exact quotients, to be printed
//! when the document is written.
use crate::animate::{emission_of, Animation, Emission, ObjectAnimation, TrackValue};
use crate::timeline::Frame;
use vstd::prelude::*;
use vstd::string::StringExecFns;

verus! {

/// A piece of an attribute value.
#[derive(Clone, Debug, PartialEq, Eq)]
pub enum Piece {
    Text(String),
    /// A double, by its bits.
    Float(u64),
    /// The double nearest to the quotient.
    Ratio(i64, u64),
}

pub enum PieceView {
    Text(Seq<char>),
    Float(u64),
    Ratio(i64, u64),
}

impl View for Piece {
    type V = PieceView;

    open spec fn view(&self) -> PieceView {
        match self {
            Piece::Text(s) => PieceView::Text(s@),
            Piece::Float(b) => PieceView::Float(*b),
            Piece::Ratio(n, d) => PieceView::Ratio(*n, *d),
        }
    }
}

pub open spec fn pieces_view(v: Seq<Piece>) -> Seq<PieceView> {
    v.map_values(|p: Piece| p@)
}

#[derive(Clone, Debug, PartialEq, Eq)]
pub enum SvgEvent {
    Open(String),
    Attr(String, Vec<Piece>),
    Text(String),
    Close,
}

pub enum EventView {
    Open(Seq<char>),
    Attr(Seq<char>, Seq<PieceView>),
    Text(Seq<char>),
    Close,
}

impl View for SvgEvent {
    type V = EventView;

    open spec fn view(&self) -> EventView {
        match self {
            SvgEvent::Open(n) => EventView::Open(n@),
            SvgEvent::Attr(n, v) => EventView::Attr(n@, pieces_view(v@)),
            SvgEvent::Text(t) => EventView::Text(t@),
            SvgEvent::Close => EventView::Close,
        }
    }
}

pub open spec fn events_view(v: Seq<SvgEvent>) -> Seq<EventView> {
    v.map_values(|e: SvgEvent| e@)
}

pub open spec fn txt(s: Seq<char>) -> Seq<PieceView> {
    seq![PieceView::Text(s)]
}

pub open spec fn attr_txt(name: Seq<char>, value: Seq<char>) -> EventView {
    EventView::Attr(name, txt(value))
}

pub proof fn lemma_events_push(v: Seq<SvgEvent>, e: SvgEvent)
    ensures
        events_view(v.push(e)) == events_view(v).push(e@),
{
    assert(events_view(v.push(e)) =~= events_view(v).push(e@));
}

pub proof fn lemma_events_concat(a: Seq<SvgEvent>, b: Seq<SvgEvent>)
    ensures
        events_view(a + b) == events_view(a) + events_view(b),
{
    assert(events_view(a + b) =~= events_view(a) + events_view(b));
}

pub proof fn lemma_pieces_push(v: Seq<Piece>, p: Piece)
    ensures
        pieces_view(v.push(p)) == pieces_view(v).push(p@),
{
    assert(pieces_view(v.push(p)) =~= pieces_view(v).push(p@));
}

pub fn text_piece(s: &str) -> (r: Piece)
    ensures
        r@ == PieceView::Text(s@),
{
    Piece::Text(String::from_str(s))
}

pub fn push_open(out: &mut Vec<SvgEvent>, name: &str)
    ensures
        events_view(final(out)@) == events_view(old(out)@).push(EventView::Open(name@)),
{
    let e = SvgEvent::Open(String::from_str(name));
    proof {
        lemma_events_push(out@, e);
    }
    out.push(e);
}

pub fn push_close(out: &mut Vec<SvgEvent>)
    ensures
        events_view(final(out)@) == events_view(old(out)@).push(EventView::Close),
{
    proof {
        lemma_events_push(out@, SvgEvent::Close);
    }
    out.push(SvgEvent::Close);
}

pub fn push_attr(out: &mut Vec<SvgEvent>, name: &str, value: Vec<Piece>)
    ensures
        events_view(final(out)@) == events_view(old(out)@).push(
            EventView::Attr(name@, pieces_view(value@)),
        ),
{
    let e = SvgEvent::Attr(String::from_str(name), value);
    proof {
        lemma_events_push(out@, e);
    }
    out.push(e);
}

pub fn push_attr_text(out: &mut Vec<SvgEvent>, name: &str, value: String)
    ensures
        events_view(final(out)@) == events_view(old(out)@).push(attr_txt(name@, value@)),
{
    let ghost vv = value@;
    let v = vec![Piece::Text(value)];
    proof {
        assert(pieces_view(v@) =~= txt(vv));
    }
    push_attr(out, name, v);
}

pub fn push_all(out: &mut Vec<SvgEvent>, mut more: Vec<SvgEvent>)
    ensures
        events_view(final(out)@) == events_view(old(out)@) + events_view(more@),
{
    proof {
        lemma_events_concat(out@, more@);
    }
    out.append(&mut more);
}

/// Key times `frame / frame_count`, separated by `;`.
pub open spec fn key_times<T>(keys: Seq<(Frame, T)>, count: u16) -> Seq<PieceView>
    decreases keys.len(),
{
    if keys.len() == 0 {
        seq![]
    } else if keys.len() == 1 {
        seq![PieceView::Ratio(keys[0].0.0 as i64, count as u64)]
    } else {
        key_times(keys.drop_last(), count) + seq![
            PieceView::Text(";"@),
            PieceView::Ratio(keys.last().0.0 as i64, count as u64),
        ]
    }
}

/// The values of the keys, separated by `;`.
pub open spec fn key_values<T: TrackValue>(keys: Seq<(Frame, T)>) -> Seq<PieceView>
    decreases keys.len(),
{
    if keys.len() == 0 {
        seq![]
    } else if keys.len() == 1 {
        keys[0].1.pieces_of()
    } else {
        key_values(keys.drop_last()) + seq![PieceView::Text(";"@)] + keys.last().1.pieces_of()
    }
}

/// The attribute of a track whose one change is at frame 0.
pub open spec fn static_attr<T: TrackValue>(keys: Seq<(Frame, T)>, attr: Seq<char>) -> Seq<EventView> {
    match emission_of(keys) {
        Emission::Static(v) => seq![EventView::Attr(attr, v.pieces_of())],
        _ => seq![],
    }
}

/// The attributes of a discrete animation of the track.
pub open spec fn animation_attrs<T: TrackValue>(keys: Seq<(Frame, T)>, count: u16, dur: PieceView) -> Seq<
    EventView,
> {
    seq![
        EventView::Attr("keyTimes"@, key_times(keys, count)),
        EventView::Attr("values"@, key_values(keys)),
        attr_txt("calcMode"@, "discrete"@),
        attr_txt("repeatCount"@, "indefinite"@),
        EventView::Attr("dur"@, seq![dur]),
    ]
}

/// An `<animate>` child for a track with changes after frame 0.
pub open spec fn animate_child<T: TrackValue>(
    keys: Seq<(Frame, T)>,
    count: u16,
    attr: Seq<char>,
    dur: PieceView,
) -> Seq<EventView> {
    match emission_of(keys) {
        Emission::Animated => seq![EventView::Open("animate"@), attr_txt("attributeName"@, attr)]
            + animation_attrs(keys, count, dur) + seq![EventView::Close],
        _ => seq![],
    }
}

/// `inner` wrapped in a group carrying the transform track `ty`: a static
/// `transform` attribute, or an `<animateTransform>` child.
pub open spec fn wrap_transform<T: TrackValue>(
    inner: Seq<EventView>,
    keys: Seq<(Frame, T)>,
    count: u16,
    ty: Seq<char>,
    dur: PieceView,
) -> Seq<EventView> {
    match emission_of(keys) {
        Emission::Omitted => inner,
        Emission::Static(v) => seq![
            EventView::Open("g"@),
            EventView::Attr(
                "transform"@,
                seq![PieceView::Text(ty + "("@)] + v.pieces_of() + seq![PieceView::Text(")"@)],
            ),
        ] + inner + seq![EventView::Close],
        Emission::Animated => seq![EventView::Open("g"@)] + inner + seq![
            EventView::Open("animateTransform"@),
            attr_txt("attributeName"@, "transform"@),
            attr_txt("type"@, ty),
        ] + animation_attrs(keys, count, dur) + seq![EventView::Close, EventView::Close],
    }
}

fn key_times_of<T: TrackValue>(track: &Animation<T>) -> (r: Vec<Piece>)
    ensures
        pieces_view(r@) == key_times(track.keys@, track.frame_count.0),
{
    let mut r: Vec<Piece> = Vec::new();
    let mut i: usize = 0;
    proof {
        assert(track.keys@.subrange(0, 0) =~= Seq::<(Frame, T)>::empty());
        assert(pieces_view(r@) =~= Seq::<PieceView>::empty());
    }
    while i < track.keys.len()
        invariant
            i <= track.keys@.len(),
            pieces_view(r@) == key_times(track.keys@.subrange(0, i as int), track.frame_count.0),
        decreases track.keys@.len() - i,
    {
        let ghost before = r@;
        if i > 0 {
            let sep = text_piece(";");
            proof {
                lemma_pieces_push(r@, sep);
            }
            r.push(sep);
        }
        let p = Piece::Ratio(track.keys[i].0.0 as i64, track.frame_count.0 as u64);
        proof {
            lemma_pieces_push(r@, p);
        }
        r.push(p);
        proof {
            let s = track.keys@.subrange(0, i + 1);
            assert(s.drop_last() =~= track.keys@.subrange(0, i as int));
            if i == 0 {
                assert(s[0] == track.keys@[0]);
            }
            assert(pieces_view(r@) =~= key_times(s, track.frame_count.0));
        }
        i += 1;
    }
    proof {
        assert(track.keys@.subrange(0, i as int) =~= track.keys@);
    }
    r
}

fn key_values_of<T: TrackValue>(track: &Animation<T>) -> (r: Vec<Piece>)
    ensures
        pieces_view(r@) == key_values(track.keys@),
{
    let mut r: Vec<Piece> = Vec::new();
    let mut i: usize = 0;
    proof {
        assert(track.keys@.subrange(0, 0) =~= Seq::<(Frame, T)>::empty());
        assert(pieces_view(r@) =~= Seq::<PieceView>::empty());
    }
    while i < track.keys.len()
        invariant
            i <= track.keys@.len(),
            pieces_view(r@) == key_values(track.keys@.subrange(0, i as int)),
        decreases track.keys@.len() - i,
    {
        let ghost before = r@;
        if i > 0 {
            let sep = text_piece(";");
            proof {
                lemma_pieces_push(r@, sep);
            }
            r.push(sep);
        }
        let ghost mid = r@;
        let mut v = track.keys[i].1.pieces();
        let ghost vv = v@;
        r.append(&mut v);
        proof {
            assert(pieces_view(r@) =~= pieces_view(mid) + pieces_view(vv));
            let s = track.keys@.subrange(0, i + 1);
            assert(s.drop_last() =~= track.keys@.subrange(0, i as int));
            if i == 0 {
                assert(s[0] == track.keys@[0]);
                assert(pieces_view(mid) =~= Seq::<PieceView>::empty());
            }
            assert(pieces_view(r@) =~= key_values(s));
        }
        i += 1;
    }
    proof {
        assert(track.keys@.subrange(0, i as int) =~= track.keys@);
    }
    r
}

fn push_animation_attrs<T: TrackValue>(out: &mut Vec<SvgEvent>, track: &Animation<T>, dur: (i64, u64))
    ensures
        events_view(final(out)@) == events_view(old(out)@) + animation_attrs(
            track.keys@,
            track.frame_count.0,
            PieceView::Ratio(dur.0, dur.1),
        ),
{
    push_attr(out, "keyTimes", key_times_of(track));
    push_attr(out, "values", key_values_of(track));
    push_attr_text(out, "calcMode", String::from_str("discrete"));
    push_attr_text(out, "repeatCount", String::from_str("indefinite"));
    let d = vec![Piece::Ratio(dur.0, dur.1)];
    proof {
        assert(pieces_view(d@) =~= seq![PieceView::Ratio(dur.0, dur.1)]);
    }
    push_attr(out, "dur", d);
    proof {
        assert(events_view(out@) =~= events_view(old(out)@) + animation_attrs(
            track.keys@,
            track.frame_count.0,
            PieceView::Ratio(dur.0, dur.1),
        ));
    }
}

fn push_static_attr<T: TrackValue>(out: &mut Vec<SvgEvent>, track: &Animation<T>, attr: &str)
    ensures
        events_view(final(out)@) == events_view(old(out)@) + static_attr(track.keys@, attr@),
{
    match track.emission() {
        Emission::Static(v) => push_attr(out, attr, v.pieces()),
        _ => {},
    }
    proof {
        assert(events_view(out@) =~= events_view(old(out)@) + static_attr(track.keys@, attr@));
    }
}

fn push_animate_child<T: TrackValue>(
    out: &mut Vec<SvgEvent>,
    track: &Animation<T>,
    attr: &str,
    dur: (i64, u64),
)
    ensures
        events_view(final(out)@) == events_view(old(out)@) + animate_child(
            track.keys@,
            track.frame_count.0,
            attr@,
            PieceView::Ratio(dur.0, dur.1),
        ),
{
    match track.emission() {
        Emission::Animated => {
            push_open(out, "animate");
            push_attr_text(out, "attributeName", String::from_str(attr));
            push_animation_attrs(out, track, dur);
            push_close(out);
        },
        _ => {},
    }
    proof {
        assert(events_view(out@) =~= events_view(old(out)@) + animate_child(
            track.keys@,
            track.frame_count.0,
            attr@,
            PieceView::Ratio(dur.0, dur.1),
        ));
    }
}

/// `inner` in the group of a transform track (see `wrap_transform`): left
/// alone without changes, a static `transform` for one change at frame 0,
/// an `<animateTransform>` otherwise.
pub fn transform_group<T: TrackValue>(
    inner: Vec<SvgEvent>,
    track: &Animation<T>,
    ty: &str,
    dur: (i64, u64),
) -> (r: Vec<SvgEvent>)
    ensures
        events_view(r@) == wrap_transform(
            events_view(inner@),
            track.keys@,
            track.frame_count.0,
            ty@,
            PieceView::Ratio(dur.0, dur.1),
        ),
{
    let ghost iv = events_view(inner@);
    match track.emission() {
        Emission::Omitted => inner,
        Emission::Static(v) => {
            let mut out: Vec<SvgEvent> = Vec::new();
            push_open(&mut out, "g");
            let mut value: Vec<Piece> = Vec::new();
            let mut head = String::from_str(ty);
            head.append("(");
            value.push(Piece::Text(head));
            let mut vp = v.pieces();
            let ghost vpv = vp@;
            let ghost v1 = value@;
            value.append(&mut vp);
            let ghost v2 = value@;
            value.push(text_piece(")"));
            proof {
                assert(pieces_view(value@) =~= pieces_view(v1) + pieces_view(vpv) + seq![
                    PieceView::Text(")"@),
                ]);
                assert(pieces_view(v1) =~= seq![PieceView::Text(ty@ + "("@)]);
            }
            push_attr(&mut out, "transform", value);
            push_all(&mut out, inner);
            push_close(&mut out);
            proof {
                assert(events_view(out@) =~= wrap_transform(
                    iv,
                    track.keys@,
                    track.frame_count.0,
                    ty@,
                    PieceView::Ratio(dur.0, dur.1),
                ));
            }
            out
        },
        Emission::Animated => {
            let mut out: Vec<SvgEvent> = Vec::new();
            push_open(&mut out, "g");
            push_all(&mut out, inner);
            push_open(&mut out, "animateTransform");
            push_attr_text(&mut out, "attributeName", String::from_str("transform"));
            push_attr_text(&mut out, "type", String::from_str(ty));
            push_animation_attrs(&mut out, track, dur);
            push_close(&mut out);
            push_close(&mut out);
            proof {
                assert(events_view(out@) =~= wrap_transform(
                    iv,
                    track.keys@,
                    track.frame_count.0,
                    ty@,
                    PieceView::Ratio(dur.0, dur.1),
                ));
            }
            out
        },
    }
}

/// The layer's tracks as SVG: a group holding the color filter (exactly
/// when the colors change) and the `<use>` of the character, wrapped from
/// the inside out in the scale, skewY, rotate and translate groups. `dur`
/// is the duration in seconds.
pub open spec fn object_tree_of(a: ObjectAnimation, dur: PieceView) -> Seq<EventView> {
    let colors = a.color_matrix.keys@.len() > 0;
    let filter_id = a.id_prefix@ + "filter"@;
    let filter = if colors {
        seq![
            EventView::Open("filter"@),
            attr_txt("id"@, filter_id),
            attr_txt("x"@, "0"@),
            attr_txt("y"@, "0"@),
            attr_txt("width"@, "1"@),
            attr_txt("height"@, "1"@),
            EventView::Open("feColorMatrix"@),
        ] + static_attr(a.color_matrix.keys@, "values"@) + animate_child(
            a.color_matrix.keys@,
            a.color_matrix.frame_count.0,
            "values"@,
            dur,
        ) + seq![EventView::Close, EventView::Close]
    } else {
        seq![]
    };
    let use_el = seq![EventView::Open("use"@)] + static_attr(a.character.keys@, "href"@) + (if colors {
        seq![attr_txt("filter"@, "url(#"@ + filter_id + ")"@)]
    } else {
        seq![]
    }) + animate_child(a.character.keys@, a.character.frame_count.0, "href"@, dur) + seq![
        EventView::Close,
    ];
    let g = seq![EventView::Open("g"@)] + filter + use_el + seq![EventView::Close];
    let g1 = wrap_transform(g, a.scale.keys@, a.scale.frame_count.0, "scale"@, dur);
    let g2 = wrap_transform(g1, a.skew_y.keys@, a.skew_y.frame_count.0, "skewY"@, dur);
    let g3 = wrap_transform(g2, a.rotate.keys@, a.rotate.frame_count.0, "rotate"@, dur);
    wrap_transform(g3, a.translate.keys@, a.translate.frame_count.0, "translate"@, dur)
}

/// The layer's tracks as SVG (see `object_tree_of`); the duration is the
/// quotient `dur.0 / dur.1` seconds.
pub fn object_tree(a: &ObjectAnimation, dur: (i64, u64)) -> (r: Vec<SvgEvent>)
    ensures
        events_view(r@) == object_tree_of(*a, PieceView::Ratio(dur.0, dur.1)),
{
    let ghost d = PieceView::Ratio(dur.0, dur.1);
    let colors = a.color_matrix.keys.len() > 0;
    let mut filter_id = String::new();
    filter_id.append(a.id_prefix.as_str());
    filter_id.append("filter");
    let mut g: Vec<SvgEvent> = Vec::new();
    push_open(&mut g, "g");
    if colors {
        push_open(&mut g, "filter");
        push_attr_text(&mut g, "id", filter_id.clone());
        push_attr_text(&mut g, "x", String::from_str("0"));
        push_attr_text(&mut g, "y", String::from_str("0"));
        push_attr_text(&mut g, "width", String::from_str("1"));
        push_attr_text(&mut g, "height", String::from_str("1"));
        push_open(&mut g, "feColorMatrix");
        push_static_attr(&mut g, &a.color_matrix, "values");
        push_animate_child(&mut g, &a.color_matrix, "values", dur);
        push_close(&mut g);
        push_close(&mut g);
    }
    push_open(&mut g, "use");
    push_static_attr(&mut g, &a.character, "href");
    if colors {
        let mut url = String::from_str("url(#");
        url.append(filter_id.as_str());
        url.append(")");
        push_attr_text(&mut g, "filter", url);
    }
    push_animate_child(&mut g, &a.character, "href", dur);
    push_close(&mut g);
    push_close(&mut g);
    proof {
        let colors_s = a.color_matrix.keys@.len() > 0;
        let fid = a.id_prefix@ + "filter"@;
        let filter = if colors_s {
            seq![
                EventView::Open("filter"@),
                attr_txt("id"@, fid),
                attr_txt("x"@, "0"@),
                attr_txt("y"@, "0"@),
                attr_txt("width"@, "1"@),
                attr_txt("height"@, "1"@),
                EventView::Open("feColorMatrix"@),
            ] + static_attr(a.color_matrix.keys@, "values"@) + animate_child(
                a.color_matrix.keys@,
                a.color_matrix.frame_count.0,
                "values"@,
                d,
            ) + seq![EventView::Close, EventView::Close]
        } else {
            seq![]
        };
        let use_el = seq![EventView::Open("use"@)] + static_attr(a.character.keys@, "href"@) + (if colors_s {
            seq![attr_txt("filter"@, "url(#"@ + fid + ")"@)]
        } else {
            seq![]
        }) + animate_child(a.character.keys@, a.character.frame_count.0, "href"@, d) + seq![
            EventView::Close,
        ];
        assert(events_view(g@) =~= seq![EventView::Open("g"@)] + filter + use_el + seq![EventView::Close]);
    }
    let g1 = transform_group(g, &a.scale, "scale", dur);
    let g2 = transform_group(g1, &a.skew_y, "skewY", dur);
    let g3 = transform_group(g2, &a.rotate, "rotate", dur);
    transform_group(g3, &a.translate, "translate", dur)
}

} // verus!
