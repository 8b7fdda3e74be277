//! Discrete animation tracks: the changes of one attribute over the frames
//! of a timeline, and the rule that decides how a track is emitted.
use crate::dictionary::CharacterId;
use crate::geom::ColorTransformWithAlpha;
use crate::timeline::{Frame, Object};
use crate::js::{int_text, nat_text, push_int, push_nat};
use crate::svg::{pieces_view, text_piece, Piece, PieceView};
use vstd::prelude::*;
use vstd::string::StringExecFns;

verus! {

/// A value a track can hold, with an exact comparison.
pub trait TrackValue: Copy + Sized {
    /// The value as attribute pieces.
    spec fn pieces_of(&self) -> Seq<PieceView>;

    fn same(&self, other: &Self) -> (r: bool)
        ensures
            r == (*self == *other),
    ;

    fn pieces(&self) -> (r: Vec<Piece>)
        ensures
            pieces_view(r@) == self.pieces_of(),
    ;
}

fn text_of(s: String) -> (r: Vec<Piece>)
    ensures
        pieces_view(r@) == seq![PieceView::Text(s@)],
{
    let ghost sv = s@;
    let r = vec![Piece::Text(s)];
    proof {
        assert(pieces_view(r@) =~= seq![PieceView::Text(sv)]);
    }
    r
}

impl TrackValue for u64 {
    open spec fn pieces_of(&self) -> Seq<PieceView> {
        seq![PieceView::Float(*self)]
    }

    fn same(&self, other: &Self) -> (r: bool) {
        *self == *other
    }

    fn pieces(&self) -> (r: Vec<Piece>) {
        let r = vec![Piece::Float(*self)];
        proof {
            assert(pieces_view(r@) =~= self.pieces_of());
        }
        r
    }
}

/// A scale, by the bits of its two doubles.
#[derive(Copy, Clone, Debug, PartialEq, Eq, Structural)]
pub struct Scale {
    pub x: u64,
    pub y: u64,
}

impl TrackValue for Scale {
    open spec fn pieces_of(&self) -> Seq<PieceView> {
        seq![PieceView::Float(self.x), PieceView::Text(","@), PieceView::Float(self.y)]
    }

    fn same(&self, other: &Self) -> (r: bool) {
        *self == *other
    }

    fn pieces(&self) -> (r: Vec<Piece>) {
        let r = vec![Piece::Float(self.x), text_piece(","), Piece::Float(self.y)];
        proof {
            assert(pieces_view(r@) =~= self.pieces_of());
        }
        r
    }
}

/// A translation in sub-pixel units.
#[derive(Copy, Clone, Debug, PartialEq, Eq, Structural)]
pub struct Translation {
    pub x: i32,
    pub y: i32,
}

impl TrackValue for Translation {
    open spec fn pieces_of(&self) -> Seq<PieceView> {
        seq![PieceView::Text(int_text(self.x as int) + ","@ + int_text(self.y as int))]
    }

    fn same(&self, other: &Self) -> (r: bool) {
        *self == *other
    }

    fn pieces(&self) -> (r: Vec<Piece>) {
        let mut s = String::new();
        push_int(&mut s, self.x as i64);
        s.append(",");
        push_int(&mut s, self.y as i64);
        proof {
            assert(s@ =~= int_text(self.x as int) + ","@ + int_text(self.y as int));
        }
        text_of(s)
    }
}

/// A color transform as the values of a 4x5 color matrix: multipliers
/// over 256, additions over 255.
impl TrackValue for ColorTransformWithAlpha {
    open spec fn pieces_of(&self) -> Seq<PieceView> {
        seq![
            PieceView::Ratio(self.red_mult as i64, 256),
            PieceView::Text(" 0 0 0 "@),
            PieceView::Ratio(self.red_add as i64, 255),
            PieceView::Text(" 0 "@),
            PieceView::Ratio(self.green_mult as i64, 256),
            PieceView::Text(" 0 0 "@),
            PieceView::Ratio(self.green_add as i64, 255),
            PieceView::Text(" 0 0 "@),
            PieceView::Ratio(self.blue_mult as i64, 256),
            PieceView::Text(" 0 "@),
            PieceView::Ratio(self.blue_add as i64, 255),
            PieceView::Text(" 0 0 0 "@),
            PieceView::Ratio(self.alpha_mult as i64, 256),
            PieceView::Text(" "@),
            PieceView::Ratio(self.alpha_add as i64, 255),
        ]
    }

    fn same(&self, other: &Self) -> (r: bool) {
        *self == *other
    }

    fn pieces(&self) -> (r: Vec<Piece>) {
        let r = vec![
            Piece::Ratio(self.red_mult as i64, 256),
            text_piece(" 0 0 0 "),
            Piece::Ratio(self.red_add as i64, 255),
            text_piece(" 0 "),
            Piece::Ratio(self.green_mult as i64, 256),
            text_piece(" 0 0 "),
            Piece::Ratio(self.green_add as i64, 255),
            text_piece(" 0 0 "),
            Piece::Ratio(self.blue_mult as i64, 256),
            text_piece(" 0 "),
            Piece::Ratio(self.blue_add as i64, 255),
            text_piece(" 0 0 0 "),
            Piece::Ratio(self.alpha_mult as i64, 256),
            text_piece(" "),
            Piece::Ratio(self.alpha_add as i64, 255),
        ];
        proof {
            assert(pieces_view(r@) =~= self.pieces_of());
        }
        r
    }
}

/// The character a `<use>` element refers to, or nothing.
#[derive(Copy, Clone, Debug, PartialEq, Eq, Structural)]
pub struct CharacterUseHref(pub Option<CharacterId>);

impl TrackValue for CharacterUseHref {
    open spec fn pieces_of(&self) -> Seq<PieceView> {
        match self.0 {
            Some(id) => seq![PieceView::Text("#c_"@ + nat_text(id.0 as nat))],
            None => seq![PieceView::Text("#"@)],
        }
    }

    fn pieces(&self) -> (r: Vec<Piece>) {
        let mut s = String::new();
        match self.0 {
            Some(id) => {
                s.append("#c_");
                push_nat(&mut s, id.0 as u64);
            },
            None => s.append("#"),
        }
        proof {
            assert(seq![PieceView::Text(s@)] =~= self.pieces_of());
        }
        text_of(s)
    }

    fn same(&self, other: &Self) -> (r: bool) {
        match (self.0, other.0) {
            (Some(a), Some(b)) => a.0 == b.0,
            (None, None) => true,
            _ => false,
        }
    }
}

/// A track: the keys recorded so far (frame and value, in order) and the
/// value shown after the last key.
#[derive(Debug)]
pub struct Animation<T> {
    pub frame_count: Frame,
    pub keys: Vec<(Frame, T)>,
    pub current_value: T,
}

/// The keys after recording `v` at `frame`: nothing when `v` is the current
/// value; the first change at a frame after 0 is preceded by the current
/// value at frame 0, so that the track starts from it.
pub open spec fn added<T>(keys: Seq<(Frame, T)>, current: T, frame: Frame, v: T) -> Seq<(Frame, T)> {
    if v == current {
        keys
    } else if frame.0 != 0 && keys.len() == 0 {
        seq![(Frame(0), current), (frame, v)]
    } else {
        keys.push((frame, v))
    }
}

/// How a track is emitted.
#[derive(Copy, Clone, Debug, PartialEq, Eq)]
pub enum Emission<T> {
    /// No change was recorded: no attribute at all.
    Omitted,
    /// The one change is at frame 0: the attribute is set statically.
    Static(T),
    /// A discrete animation over all the keys.
    Animated,
}

pub open spec fn emission_of<T>(keys: Seq<(Frame, T)>) -> Emission<T> {
    if keys.len() == 0 {
        Emission::Omitted
    } else if keys.len() == 1 && keys[0].0 == Frame(0) {
        Emission::Static(keys[0].1)
    } else {
        Emission::Animated
    }
}

impl<T: TrackValue> Animation<T> {
    pub fn new(frame_count: Frame, initial_value: T) -> (r: Self)
        ensures
            r.frame_count == frame_count,
            r.keys@ == Seq::<(Frame, T)>::empty(),
            r.current_value == initial_value,
    {
        Animation { frame_count, keys: Vec::new(), current_value: initial_value }
    }

    /// Records that the attribute has value `value` from `frame` on.
    pub fn add(&mut self, frame: Frame, value: T)
        ensures
            final(self).keys@ == added(old(self).keys@, old(self).current_value, frame, value),
            final(self).current_value == value,
            final(self).frame_count == old(self).frame_count,
    {
        if self.current_value.same(&value) {
            return;
        }
        if frame.0 != 0 && self.keys.len() == 0 {
            let first = self.current_value;
            self.add_without_checking(Frame(0), first);
        }
        self.add_without_checking(frame, value);
        proof {
            if !(frame.0 != 0 && old(self).keys@.len() == 0) {
                assert(self.keys@ =~= old(self).keys@.push((frame, value)));
            } else {
                assert(self.keys@ =~= seq![(Frame(0), old(self).current_value), (frame, value)]);
            }
        }
    }

    fn add_without_checking(&mut self, frame: Frame, value: T)
        ensures
            final(self).keys@ == old(self).keys@.push((frame, value)),
            final(self).current_value == value,
            final(self).frame_count == old(self).frame_count,
    {
        self.keys.push((frame, value));
        self.current_value = value;
    }

    /// How the track is emitted (see `emission_of`).
    pub fn emission(&self) -> (r: Emission<T>)
        ensures
            r == emission_of(self.keys@),
    {
        if self.keys.len() == 0 {
            Emission::Omitted
        } else if self.keys.len() == 1 && self.keys[0].0.0 == 0 {
            Emission::Static(self.keys[0].1)
        } else {
            Emission::Animated
        }
    }
}

/// Recording the current value again changes nothing.
pub proof fn lemma_add_idempotent<T>(keys: Seq<(Frame, T)>, current: T, frame: Frame)
    ensures
        added(keys, current, frame, current) == keys,
{
}

/// The first change, at a frame after 0, puts the initial value at frame 0
/// ahead of it.
pub proof fn lemma_first_change_anchored<T>(initial: T, frame: Frame, v: T)
    requires
        frame.0 > 0,
        v != initial,
    ensures
        added(Seq::<(Frame, T)>::empty(), initial, frame, v)[0] == (Frame(0), initial),
        added(Seq::<(Frame, T)>::empty(), initial, frame, v)[1] == (frame, v),
        added(Seq::<(Frame, T)>::empty(), initial, frame, v).len() == 2,
{
}

/// A track whose only key is at frame 0 is set statically.
pub proof fn lemma_static_collapse<T>(frame: Frame, v: T)
    requires
        frame.0 == 0,
    ensures
        emission_of(seq![(frame, v)]) == Emission::Static(v),
{
}

/// A transform decomposed into the float values of its SVG parts, each
/// given by the bits of an IEEE 754 double: scale (x, y), skew along y and
/// rotation (degrees).
#[derive(Copy, Clone, Debug, PartialEq, Eq, Structural)]
pub struct Decomposed {
    pub scale_x: u64,
    pub scale_y: u64,
    pub skew_y: u64,
    pub rotate: u64,
}

/// Bits of 1.0 as a double.
pub const ONE_BITS: u64 = 0x3ff0_0000_0000_0000;

/// Bits of 0.0 as a double.
pub const ZERO_BITS: u64 = 0;

/// The tracks of one layer.
#[derive(Debug)]
pub struct ObjectAnimation {
    pub id_prefix: String,
    pub character: Animation<CharacterUseHref>,
    pub scale: Animation<Scale>,
    pub skew_y: Animation<u64>,
    pub rotate: Animation<u64>,
    pub translate: Animation<Translation>,
    pub color_matrix: Animation<ColorTransformWithAlpha>,
}

impl ObjectAnimation {
    /// Tracks that start from nothing shown, the identity transform and the
    /// identity color transform.
    pub fn new(id_prefix: String, frame_count: Frame) -> (r: Self)
        ensures
            r.id_prefix == id_prefix,
            r.character.keys@.len() == 0 && r.character.current_value == CharacterUseHref(None),
            r.scale.keys@.len() == 0 && r.scale.current_value == (Scale { x: ONE_BITS, y: ONE_BITS }),
            r.skew_y.keys@.len() == 0 && r.skew_y.current_value == ZERO_BITS,
            r.rotate.keys@.len() == 0 && r.rotate.current_value == ZERO_BITS,
            r.translate.keys@.len() == 0 && r.translate.current_value == (Translation { x: 0, y: 0 }),
            r.color_matrix.keys@.len() == 0 && r.color_matrix.current_value
                == crate::geom::identity_color_transform(),
            r.character.frame_count == frame_count && r.scale.frame_count == frame_count
                && r.skew_y.frame_count == frame_count && r.rotate.frame_count == frame_count
                && r.translate.frame_count == frame_count && r.color_matrix.frame_count == frame_count,
    {
        ObjectAnimation {
            id_prefix,
            character: Animation::new(frame_count, CharacterUseHref(None)),
            scale: Animation::new(frame_count, Scale { x: ONE_BITS, y: ONE_BITS }),
            skew_y: Animation::new(frame_count, ZERO_BITS),
            rotate: Animation::new(frame_count, ZERO_BITS),
            translate: Animation::new(frame_count, Translation { x: 0, y: 0 }),
            color_matrix: Animation::new(frame_count, ColorTransformWithAlpha::identity()),
        }
    }

    /// Feeds the layer's snapshot at `frame`: nothing (the character track
    /// records that nothing is shown), or an object with its decomposed
    /// transform.
    pub fn add(&mut self, frame: Frame, obj: Option<(&Object, Decomposed)>)
        ensures
            final(self).id_prefix == old(self).id_prefix,
            final(self).character.frame_count == old(self).character.frame_count,
            final(self).scale.frame_count == old(self).scale.frame_count,
            final(self).skew_y.frame_count == old(self).skew_y.frame_count,
            final(self).rotate.frame_count == old(self).rotate.frame_count,
            final(self).translate.frame_count == old(self).translate.frame_count,
            final(self).color_matrix.frame_count == old(self).color_matrix.frame_count,
            match obj {
                None => {
                    &&& final(self).character.keys@ == added(
                        old(self).character.keys@,
                        old(self).character.current_value,
                        frame,
                        CharacterUseHref(None),
                    )
                    &&& final(self).character.current_value == CharacterUseHref(None)
                    &&& final(self).scale == old(self).scale
                    &&& final(self).skew_y == old(self).skew_y
                    &&& final(self).rotate == old(self).rotate
                    &&& final(self).translate == old(self).translate
                    &&& final(self).color_matrix == old(self).color_matrix
                },
                Some((o, t)) => {
                    &&& final(self).character.keys@ == added(
                        old(self).character.keys@,
                        old(self).character.current_value,
                        frame,
                        CharacterUseHref(Some(o.character)),
                    )
                    &&& final(self).scale.keys@ == added(
                        old(self).scale.keys@,
                        old(self).scale.current_value,
                        frame,
                        Scale { x: t.scale_x, y: t.scale_y },
                    )
                    &&& final(self).skew_y.keys@ == added(
                        old(self).skew_y.keys@,
                        old(self).skew_y.current_value,
                        frame,
                        t.skew_y,
                    )
                    &&& final(self).rotate.keys@ == added(
                        old(self).rotate.keys@,
                        old(self).rotate.current_value,
                        frame,
                        t.rotate,
                    )
                    &&& final(self).translate.keys@ == added(
                        old(self).translate.keys@,
                        old(self).translate.current_value,
                        frame,
                        Translation { x: o.matrix.translate_x, y: o.matrix.translate_y },
                    )
                    &&& final(self).color_matrix.keys@ == added(
                        old(self).color_matrix.keys@,
                        old(self).color_matrix.current_value,
                        frame,
                        o.color_transform,
                    )
                    &&& final(self).character.current_value == CharacterUseHref(Some(o.character))
                    &&& final(self).scale.current_value == (Scale { x: t.scale_x, y: t.scale_y })
                    &&& final(self).skew_y.current_value == t.skew_y
                    &&& final(self).rotate.current_value == t.rotate
                    &&& final(self).translate.current_value == (Translation {
                        x: o.matrix.translate_x,
                        y: o.matrix.translate_y,
                    })
                    &&& final(self).color_matrix.current_value == o.color_transform
                },
            },
    {
        match obj {
            None => {
                self.character.add(frame, CharacterUseHref(None));
            },
            Some((o, t)) => {
                self.character.add(frame, CharacterUseHref(Some(o.character)));
                self.scale.add(frame, Scale { x: t.scale_x, y: t.scale_y });
                self.skew_y.add(frame, t.skew_y);
                self.rotate.add(frame, t.rotate);
                self.translate.add(frame, Translation { x: o.matrix.translate_x, y: o.matrix.translate_y });
                self.color_matrix.add(frame, o.color_transform);
            },
        }
    }
}

} // verus!
