//! Timelines: per-depth layers of object snapshots keyed by frame, and the
//! builder that fills them from the events of a tag stream.
use crate::avm1::{lowered, ops_view, Action, Code};
use crate::dictionary::CharacterId;
use crate::geom::{
    identity_color_transform,
    identity_matrix,
    ColorTransformWithAlpha,
    Matrix,
};
use crate::keymap::{last_at_or_before, lemma_value_between_keys, sorted_keys, KeyMap};
use crate::sound::{AudioFormat, Mp3StreamBlock};
use vstd::prelude::*;
use vstd::string::StrSliceExecFns;

verus! {

#[derive(Copy, Clone, Debug, PartialEq, Eq, PartialOrd, Ord, Hash, Structural)]
pub struct Depth(pub u16);

#[derive(Copy, Clone, Default, Debug, PartialEq, Eq, PartialOrd, Ord, Hash, Structural)]
pub struct Frame(pub u16);

/// A placed character at one depth and frame.
#[derive(Debug, PartialEq, Eq)]
pub struct Object {
    pub character: CharacterId,
    pub matrix: Matrix,
    pub name: Option<String>,
    pub color_transform: ColorTransformWithAlpha,
    pub ratio: Option<u16>,
}

pub open spec fn new_object(character: CharacterId) -> Object {
    Object {
        character,
        matrix: identity_matrix(),
        name: None,
        color_transform: identity_color_transform(),
        ratio: None,
    }
}

impl Object {
    pub fn new(character: CharacterId) -> (r: Object)
        ensures
            r == new_object(character),
    {
        Object {
            character,
            matrix: Matrix::identity(),
            name: None,
            color_transform: ColorTransformWithAlpha::identity(),
            ratio: None,
        }
    }
}

impl Clone for Object {
    fn clone(&self) -> (r: Self)
        ensures
            r == *self,
    {
        let name = match &self.name {
            Some(n) => Some(n.clone()),
            None => None,
        };
        Object {
            character: self.character,
            matrix: self.matrix,
            name,
            color_transform: self.color_transform,
            ratio: self.ratio,
        }
    }
}

fn clone_entry(e: &Option<Object>) -> (r: Option<Object>)
    ensures
        r == *e,
{
    match e {
        Some(o) => Some(o.clone()),
        None => None,
    }
}

/// The objects at one depth, stored only at the frames where they change;
/// `None` means removed at that frame.
#[derive(Debug)]
pub struct Layer {
    pub frames: KeyMap<Option<Object>>,
}

/// What a layer shows at frame `f`: the value stored at the greatest key at
/// or before `f`, or nothing.
pub open spec fn value_at(frames: Seq<(u16, Option<Object>)>, f: u16) -> Option<Object> {
    let i = last_at_or_before(frames, f, frames.len() as int);
    if i >= 0 {
        frames[i].1
    } else {
        None
    }
}

/// Between two neighbouring keys `f1 < f2` of a layer, every frame `f` with
/// `f1 <= f < f2` shows the value stored at `f1`; from the last key on, the
/// last value.
pub proof fn lemma_frame_monotonicity(frames: Seq<(u16, Option<Object>)>, i: int, f: u16)
    requires
        sorted_keys(frames),
        0 <= i < frames.len(),
        frames[i].0 <= f,
        i + 1 < frames.len() ==> f < frames[i + 1].0,
    ensures
        value_at(frames, f) == frames[i].1,
{
    lemma_value_between_keys(frames, i, f);
}

impl Layer {
    pub fn new() -> (r: Layer)
        ensures
            r.frames.wf(),
            r.frames.entries@ == Seq::<(u16, Option<Object>)>::empty(),
    {
        Layer { frames: KeyMap::new() }
    }

    /// What the layer shows at `frame` (see `value_at`).
    pub fn value_at(&self, frame: Frame) -> (r: Option<&Object>)
        requires
            self.frames.wf(),
        ensures
            match r {
                Some(o) => value_at(self.frames.entries@, frame.0) == Some(*o),
                None => value_at(self.frames.entries@, frame.0) is None,
            },
    {
        match self.frames.last_at_or_before(frame.0) {
            Some(i) => match &self.frames.entries[i].1 {
                Some(o) => Some(o),
                None => None,
            },
            None => None,
        }
    }
}

#[derive(Debug)]
pub struct SoundStream {
    pub start: Frame,
    pub format: AudioFormat,
    /// The MP3 packets of all blocks so far, concatenated.
    pub mp3: Vec<u8>,
}

/// A sound started at a frame.
#[derive(Clone, Debug, PartialEq, Eq)]
pub struct StartSound {
    pub sound_id: u16,
    pub sync_no_multiple: bool,
    pub loop_count: Option<u16>,
}

#[derive(Debug)]
pub struct Timeline {
    pub layers: KeyMap<Layer>,
    pub actions: KeyMap<Vec<Code>>,
    /// Frame labels sorted by name, each name once.
    pub labels: Vec<(String, Frame)>,
    pub sounds: KeyMap<Vec<StartSound>>,
    pub sound_stream: Option<SoundStream>,
    pub frame_count: Frame,
}

impl Timeline {
    pub open spec fn wf(&self) -> bool {
        &&& self.layers.wf()
        &&& forall|d: u16| #[trigger]
            self.layers.contents().contains_key(d) ==> self.layers.contents()[d].frames.wf()
        &&& self.actions.wf()
        &&& self.sounds.wf()
        &&& labels_sorted(self.labels@)
    }

    pub fn new() -> (r: Timeline)
        ensures
            r.wf(),
            r.layers.contents() == Map::<u16, Layer>::empty(),
            r.actions.contents() == Map::<u16, Vec<Code>>::empty(),
            r.sounds.contents() == Map::<u16, Vec<StartSound>>::empty(),
            r.labels@.len() == 0,
            r.sound_stream is None,
            r.frame_count == Frame(0),
    {
        Timeline {
            layers: KeyMap::new(),
            actions: KeyMap::new(),
            labels: Vec::new(),
            sounds: KeyMap::new(),
            sound_stream: None,
            frame_count: Frame(0),
        }
    }
}

/// The entries of the layer at depth `d`, or none.
pub open spec fn layer_entries(t: Timeline, d: u16) -> Seq<(u16, Option<Object>)> {
    if t.layers.contents().contains_key(d) {
        t.layers.contents()[d].frames.entries@
    } else {
        seq![]
    }
}

/// The frames of the layer at depth `d` as a map, or the empty map.
pub open spec fn layer_frames(t: Timeline, d: u16) -> Map<u16, Option<Object>> {
    if t.layers.contents().contains_key(d) {
        t.layers.contents()[d].frames.contents()
    } else {
        Map::empty()
    }
}

/// The list stored at `f` in a frame-keyed map of lists, or none.
pub open spec fn list_at<T>(m: Map<u16, Vec<T>>, f: u16) -> Seq<T> {
    if m.contains_key(f) {
        m[f]@
    } else {
        seq![]
    }
}

/// A placement of a character at a depth; absent fields leave the object
/// as it was.
#[derive(Debug, PartialEq, Eq)]
pub struct PlaceObject {
    pub depth: u16,
    pub character_id: Option<u16>,
    /// Replace the object at the depth rather than modify it.
    pub is_update: bool,
    pub matrix: Option<Matrix>,
    pub name: Option<String>,
    pub color_transform: Option<ColorTransformWithAlpha>,
    pub ratio: Option<u16>,
}

#[derive(Copy, Clone, Debug, PartialEq, Eq, Structural)]
pub struct RemoveObject {
    pub depth: u16,
}

#[derive(Clone, Debug, PartialEq, Eq)]
pub struct FrameLabel {
    pub name: String,
    pub is_anchor: bool,
}

#[derive(Copy, Clone, Debug, PartialEq, Eq, Structural)]
pub struct SoundStreamHead {
    pub stream_format: AudioFormat,
}

#[derive(Clone, Debug, PartialEq, Eq)]
pub struct SoundStreamBlock {
    pub data: Vec<u8>,
}

/// Structural violations that abort the document.
#[derive(Copy, Clone, Debug, PartialEq, Eq, Structural)]
pub enum TimelineError {
    /// A placement at an empty depth names no character.
    MissingCharacter,
    /// A placement that modifies an object names another character.
    CharacterMismatch,
    /// An MP3 stream block shorter than its two 2-byte headers.
    ShortSoundBlock,
}

/// The fields of `p` applied to `o`.
pub open spec fn apply_fields(o: Object, p: PlaceObject) -> Object {
    Object {
        character: o.character,
        matrix: match p.matrix {
            Some(m) => m,
            None => o.matrix,
        },
        name: match p.name {
            Some(n) => Some(n),
            None => o.name,
        },
        color_transform: match p.color_transform {
            Some(c) => c,
            None => o.color_transform,
        },
        ratio: match p.ratio {
            Some(r) => Some(r),
            None => o.ratio,
        },
    }
}

/// The object that placement `p` leaves at its depth when the depth shows
/// `current`: the shown object carried forward (or a fresh one for the
/// named character), replaced wholesale for an update, then with the given
/// fields applied.
pub open spec fn placed(current: Option<Object>, p: PlaceObject) -> Result<Object, TimelineError> {
    let base = match current {
        Some(o) => Ok(o),
        None => match p.character_id {
            Some(c) => Ok(new_object(CharacterId(c))),
            None => Err(TimelineError::MissingCharacter),
        },
    };
    match base {
        Err(e) => Err(e),
        Ok(o) => match p.character_id {
            Some(c) => if p.is_update {
                Ok(apply_fields(new_object(CharacterId(c)), p))
            } else if o.character.0 != c {
                Err(TimelineError::CharacterMismatch)
            } else {
                Ok(apply_fields(o, p))
            },
            None => Ok(apply_fields(o, p)),
        },
    }
}

/// Names in lexicographic order of their characters.
pub open spec fn name_less(a: Seq<char>, b: Seq<char>) -> bool
    decreases a.len(),
{
    if a.len() == 0 {
        b.len() > 0
    } else if b.len() == 0 {
        false
    } else if a[0] != b[0] {
        (a[0] as int) < (b[0] as int)
    } else {
        name_less(a.drop_first(), b.drop_first())
    }
}

pub proof fn lemma_name_less_trichotomy(a: Seq<char>, b: Seq<char>)
    ensures
        a == b || name_less(a, b) || name_less(b, a),
        !(name_less(a, b) && name_less(b, a)),
        !name_less(a, a),
    decreases a.len(),
{
    if a.len() == 0 && b.len() == 0 {
        assert(a =~= b);
    } else if a.len() > 0 && b.len() > 0 {
        if a[0] == b[0] {
            lemma_name_less_trichotomy(a.drop_first(), b.drop_first());
            if a.drop_first() == b.drop_first() {
                assert(a =~= seq![a[0]] + a.drop_first());
                assert(b =~= seq![b[0]] + b.drop_first());
            }
        } else {
            assert((a[0] as int) != (b[0] as int));
        }
    }
    if a.len() > 0 {
        lemma_name_less_trichotomy(a.drop_first(), a.drop_first());
    }
}

pub proof fn lemma_name_less_transitive(a: Seq<char>, b: Seq<char>, c: Seq<char>)
    requires
        name_less(a, b),
        name_less(b, c),
    ensures
        name_less(a, c),
    decreases a.len(),
{
    if a.len() > 0 && b.len() > 0 && c.len() > 0 && a[0] == b[0] && b[0] == c[0] {
        lemma_name_less_transitive(a.drop_first(), b.drop_first(), c.drop_first());
    }
}

/// Labels sorted by name, each name once.
pub open spec fn labels_sorted(labels: Seq<(String, Frame)>) -> bool {
    forall|i: int, j: int|
        0 <= i < j < labels.len() ==> name_less((#[trigger] labels[i]).0@, (#[trigger] labels[j]).0@)
}

/// Number of labels whose name comes before `name`.
pub open spec fn labels_before(labels: Seq<(String, Frame)>, name: Seq<char>, n: int) -> int
    decreases n,
{
    if n <= 0 {
        0
    } else if name_less(labels[n - 1].0@, name) {
        labels_before(labels, name, n - 1) + 1
    } else {
        labels_before(labels, name, n - 1)
    }
}

fn less_name(a: &String, b: &String) -> (r: bool)
    ensures
        r == name_less(a@, b@),
{
    let sa = a.as_str();
    let sb = b.as_str();
    let la = sa.unicode_len();
    let lb = sb.unicode_len();
    let mut i: usize = 0;
    proof {
        assert(a@.subrange(0, la as int) =~= a@);
        assert(b@.subrange(0, lb as int) =~= b@);
    }
    while i < la && i < lb
        invariant
            la == a@.len(),
            lb == b@.len(),
            sa@ == a@,
            sb@ == b@,
            i <= la,
            i <= lb,
            name_less(a@, b@) == name_less(a@.subrange(i as int, la as int), b@.subrange(i as int, lb as int)),
        decreases la - i,
    {
        let ca = sa.get_char(i);
        let cb = sb.get_char(i);
        proof {
            let ta = a@.subrange(i as int, la as int);
            let tb = b@.subrange(i as int, lb as int);
            assert(ta[0] == ca && tb[0] == cb);
            assert(ta.drop_first() =~= a@.subrange(i + 1, la as int));
            assert(tb.drop_first() =~= b@.subrange(i + 1, lb as int));
        }
        if ca != cb {
            return (ca as u32) < (cb as u32);
        }
        i += 1;
    }
    i < lb
}

/// Accumulates one timeline from its events in stream order.
#[derive(Debug)]
pub struct TimelineBuilder {
    pub timeline: Timeline,
    pub current_frame: Frame,
}

impl TimelineBuilder {
    pub open spec fn wf(&self) -> bool {
        self.timeline.wf()
    }

    pub fn new() -> (r: TimelineBuilder)
        ensures
            r.wf(),
            r.current_frame == Frame(0),
            r.timeline.layers.contents() == Map::<u16, Layer>::empty(),
            r.timeline.actions.contents() == Map::<u16, Vec<Code>>::empty(),
            r.timeline.sounds.contents() == Map::<u16, Vec<StartSound>>::empty(),
            r.timeline.labels@.len() == 0,
            r.timeline.sound_stream is None,
    {
        TimelineBuilder { timeline: Timeline::new(), current_frame: Frame(0) }
    }

    pub fn current_frame(&self) -> (r: Frame)
        ensures
            r == self.current_frame,
    {
        self.current_frame
    }

    /// What the layer at `depth` shows in the current frame.
    pub fn shown(&self, depth: u16) -> (r: Option<&Object>)
        requires
            self.wf(),
        ensures
            match r {
                Some(o) => value_at(layer_entries(self.timeline, depth), self.current_frame.0) == Some(*o),
                None => value_at(layer_entries(self.timeline, depth), self.current_frame.0) is None,
            },
    {
        match self.timeline.layers.get(depth) {
            Some(layer) => layer.value_at(self.current_frame),
            None => {
                proof {
                    assert(layer_entries(self.timeline, depth) =~= Seq::<(u16, Option<Object>)>::empty());
                }
                None
            },
        }
    }

    /// Places or modifies the object at `place.depth` in the current frame
    /// (see `placed`). A modification naming another character than the
    /// shown one is a structural violation that callers rule out (see
    /// `shown`); a placement at an empty depth without a character is an
    /// error, and then nothing changes.
    pub fn place_object(&mut self, place: &PlaceObject) -> (r: Result<(), TimelineError>)
        requires
            old(self).wf(),
            placed(
                value_at(layer_entries(old(self).timeline, place.depth), old(self).current_frame.0),
                *place,
            ) != Err::<Object, TimelineError>(TimelineError::CharacterMismatch),
        ensures
            final(self).wf(),
            final(self).current_frame == old(self).current_frame,
            match placed(
                value_at(layer_entries(old(self).timeline, place.depth), old(self).current_frame.0),
                *place,
            ) {
                Ok(o) => {
                    &&& r is Ok
                    &&& final(self).timeline.layers.contents() == old(
                        self,
                    ).timeline.layers.contents().insert(
                        place.depth,
                        final(self).timeline.layers.contents()[place.depth],
                    )
                    &&& layer_frames(final(self).timeline, place.depth) == layer_frames(
                        old(self).timeline,
                        place.depth,
                    ).insert(old(self).current_frame.0, Some(o))
                    &&& final(self).timeline.actions == old(self).timeline.actions
                    &&& final(self).timeline.labels == old(self).timeline.labels
                    &&& final(self).timeline.sounds == old(self).timeline.sounds
                    &&& final(self).timeline.sound_stream == old(self).timeline.sound_stream
                    &&& final(self).timeline.frame_count == old(self).timeline.frame_count
                },
                Err(e) => r == Err::<(), TimelineError>(e) && *final(self) == *old(self),
            },
    {
        let d = place.depth;
        let f = self.current_frame.0;
        let current: Option<Object> = match self.timeline.layers.get(d) {
            Some(layer) => match layer.frames.last_at_or_before(f) {
                Some(i) => clone_entry(&layer.frames.entries[i].1),
                None => None,
            },
            None => None,
        };
        let mut obj = match current {
            Some(o) => o,
            None => match place.character_id {
                Some(c) => Object::new(CharacterId(c)),
                None => {
                    return Err(TimelineError::MissingCharacter);
                },
            },
        };
        if let Some(c) = place.character_id {
            if place.is_update {
                obj = Object::new(CharacterId(c));
            } else if obj.character.0 != c {
                return Err(TimelineError::CharacterMismatch);
            }
        }
        if let Some(m) = place.matrix {
            obj.matrix = m;
        }
        if let Some(n) = &place.name {
            obj.name = Some(n.clone());
        }
        if let Some(c) = place.color_transform {
            obj.color_transform = c;
        }
        if let Some(ratio) = place.ratio {
            obj.ratio = Some(ratio);
        }
        let ghost o = obj;
        let ghost before = self.timeline.layers.contents();
        let mut layer = match self.timeline.layers.take(d) {
            Some(l) => l,
            None => Layer::new(),
        };
        proof {
            assert(layer.frames.contents() == layer_frames(old(self).timeline, d)) by {
                if !before.contains_key(d) {
                    assert(layer.frames.contents() =~= Map::<u16, Option<Object>>::empty());
                }
            }
        }
        layer.frames.insert(f, Some(obj));
        self.timeline.layers.insert(d, layer);
        proof {
            let after = self.timeline.layers.contents();
            assert(after =~= before.insert(d, after[d]));
        }
        Ok(())
    }

    /// Marks the object at `remove.depth` as removed from the current frame.
    /// The depth must hold a layer.
    pub fn remove_object(&mut self, remove: &RemoveObject)
        requires
            old(self).wf(),
            old(self).timeline.layers.contents().contains_key(remove.depth),
        ensures
            final(self).wf(),
            final(self).current_frame == old(self).current_frame,
            final(self).timeline.layers.contents() == old(self).timeline.layers.contents().insert(
                remove.depth,
                final(self).timeline.layers.contents()[remove.depth],
            ),
            layer_frames(final(self).timeline, remove.depth) == layer_frames(
                old(self).timeline,
                remove.depth,
            ).insert(old(self).current_frame.0, None),
            final(self).timeline.actions == old(self).timeline.actions,
            final(self).timeline.labels == old(self).timeline.labels,
            final(self).timeline.sounds == old(self).timeline.sounds,
            final(self).timeline.sound_stream == old(self).timeline.sound_stream,
            final(self).timeline.frame_count == old(self).timeline.frame_count,
    {
        let d = remove.depth;
        let ghost before = self.timeline.layers.contents();
        let mut layer = self.timeline.layers.take(d).unwrap();
        layer.frames.insert(self.current_frame.0, None);
        self.timeline.layers.insert(d, layer);
        proof {
            let after = self.timeline.layers.contents();
            assert(after =~= before.insert(d, after[d]));
        }
    }

    /// Lowers a frame script and appends it to the current frame's scripts.
    pub fn do_action(&mut self, actions: Vec<Action>)
        requires
            old(self).wf(),
            actions@.len() <= usize::MAX / 4,
        ensures
            final(self).wf(),
            final(self).current_frame == old(self).current_frame,
            final(self).timeline.actions.contents() == old(self).timeline.actions.contents().insert(
                old(self).current_frame.0,
                final(self).timeline.actions.contents()[old(self).current_frame.0],
            ),
            list_at(final(self).timeline.actions.contents(), old(self).current_frame.0).drop_last()
                == list_at(old(self).timeline.actions.contents(), old(self).current_frame.0),
            list_at(final(self).timeline.actions.contents(), old(self).current_frame.0).len() > 0,
            ops_view(
                list_at(
                    final(self).timeline.actions.contents(),
                    old(self).current_frame.0,
                ).last().ops@,
            ) == lowered(actions@).ops,
            final(self).timeline.layers == old(self).timeline.layers,
            final(self).timeline.labels == old(self).timeline.labels,
            final(self).timeline.sounds == old(self).timeline.sounds,
            final(self).timeline.sound_stream == old(self).timeline.sound_stream,
            final(self).timeline.frame_count == old(self).timeline.frame_count,
    {
        let ghost acts = actions@;
        let code = Code::compile(&actions);
        let f = self.current_frame.0;
        let ghost before = self.timeline.actions.contents();
        let mut list = match self.timeline.actions.take(f) {
            Some(l) => l,
            None => Vec::new(),
        };
        proof {
            assert(list@ == list_at(before, f)) by {
                if !before.contains_key(f) {
                    assert(list@ =~= Seq::<Code>::empty());
                }
            }
        }
        let ghost old_list = list@;
        list.push(code);
        proof {
            assert(list@.drop_last() =~= old_list);
        }
        self.timeline.actions.insert(f, list);
        proof {
            let after = self.timeline.actions.contents();
            assert(after =~= before.insert(f, after[f]));
        }
    }

    /// Names the current frame; a name seen before moves to this frame.
    /// Labels stay sorted by name.
    pub fn frame_label(&mut self, label: FrameLabel)
        requires
            old(self).wf(),
        ensures
            final(self).wf(),
            final(self).current_frame == old(self).current_frame,
            ({
                let labels = old(self).timeline.labels@;
                let p = labels_before(labels, label.name@, labels.len() as int);
                if p < labels.len() && labels[p].0@ == label.name@ {
                    final(self).timeline.labels@ == labels.update(
                        p,
                        (labels[p].0, old(self).current_frame),
                    )
                } else {
                    final(self).timeline.labels@ == labels.insert(
                        p,
                        (label.name, old(self).current_frame),
                    )
                }
            }),
            final(self).timeline.layers == old(self).timeline.layers,
            final(self).timeline.actions == old(self).timeline.actions,
            final(self).timeline.sounds == old(self).timeline.sounds,
            final(self).timeline.sound_stream == old(self).timeline.sound_stream,
            final(self).timeline.frame_count == old(self).timeline.frame_count,
    {
        let ghost labels = self.timeline.labels@;
        let n = self.timeline.labels.len();
        let mut i: usize = 0;
        while i < n && less_name(&self.timeline.labels[i].0, &label.name)
            invariant
                n == labels.len(),
                *self == *old(self),
                self.wf(),
                self.timeline.labels@ == labels,
                i <= n,
                labels_before(labels, label.name@, i as int) == i,
                forall|j: int| 0 <= j < i ==> name_less((#[trigger] labels[j]).0@, label.name@),
            decreases n - i,
        {
            i += 1;
        }
        proof {
            assert forall|j: int| i <= j < n implies !name_less((#[trigger] labels[j]).0@, label.name@) by {
                if j > i {
                    if name_less(labels[j].0@, label.name@) {
                        lemma_name_less_transitive(labels[i as int].0@, labels[j].0@, label.name@);
                    }
                }
            }
            lemma_labels_before_rest(labels, label.name@, i as int, n as int);
        }
        let frame = self.current_frame;
        if i < n && self.timeline.labels[i].0 == label.name {
            let name = self.timeline.labels[i].0.clone();
            self.timeline.labels.set(i, (name, frame));
            proof {
                let t = self.timeline.labels@;
                assert forall|a: int, b: int| 0 <= a < b < t.len() implies name_less((#[trigger] t[a]).0@, (#[trigger] t[b]).0@) by {
                    assert(labels[a].0@ == t[a].0@ && labels[b].0@ == t[b].0@);
                }
            }
        } else {
            let ghost name = label.name;
            self.timeline.labels.insert(i, (label.name, frame));
            proof {
                let t = self.timeline.labels@;
                assert forall|a: int, b: int| 0 <= a < b < t.len() implies name_less((#[trigger] t[a]).0@, (#[trigger] t[b]).0@) by {
                    if b < i {
                        assert(t[a] == labels[a] && t[b] == labels[b]);
                    } else if a > i {
                        assert(t[a] == labels[a - 1] && t[b] == labels[b - 1]);
                    } else if a == i {
                        assert(t[b] == labels[b - 1]);
                        lemma_name_less_trichotomy(labels[b - 1].0@, name@);
                        if b - 1 > i {
                            if labels[b - 1].0@ == name@ {
                                assert(name_less(labels[i as int].0@, labels[b - 1].0@));
                                lemma_name_less_trichotomy(labels[i as int].0@, name@);
                            }
                        }
                    } else if b == i {
                        assert(t[a] == labels[a]);
                    } else {
                        assert(t[a] == labels[a] && t[b] == labels[b - 1]);
                    }
                }
            }
        }
    }

    /// Records a sound started at the current frame.
    pub fn start_sound(&mut self, sound: StartSound)
        requires
            old(self).wf(),
        ensures
            final(self).wf(),
            final(self).current_frame == old(self).current_frame,
            final(self).timeline.sounds.contents() == old(self).timeline.sounds.contents().insert(
                old(self).current_frame.0,
                final(self).timeline.sounds.contents()[old(self).current_frame.0],
            ),
            list_at(final(self).timeline.sounds.contents(), old(self).current_frame.0) == list_at(
                old(self).timeline.sounds.contents(),
                old(self).current_frame.0,
            ).push(sound),
            final(self).timeline.layers == old(self).timeline.layers,
            final(self).timeline.actions == old(self).timeline.actions,
            final(self).timeline.labels == old(self).timeline.labels,
            final(self).timeline.sound_stream == old(self).timeline.sound_stream,
            final(self).timeline.frame_count == old(self).timeline.frame_count,
    {
        let f = self.current_frame.0;
        let ghost before = self.timeline.sounds.contents();
        let mut list = match self.timeline.sounds.take(f) {
            Some(l) => l,
            None => Vec::new(),
        };
        proof {
            assert(list@ == list_at(before, f)) by {
                if !before.contains_key(f) {
                    assert(list@ =~= Seq::<StartSound>::empty());
                }
            }
        }
        list.push(sound);
        self.timeline.sounds.insert(f, list);
        proof {
            let after = self.timeline.sounds.contents();
            assert(after =~= before.insert(f, after[f]));
        }
    }

    /// Starts the streaming sound at the current frame. A timeline has at
    /// most one: a second header is a structural violation that callers
    /// rule out.
    pub fn sound_stream_head(&mut self, head: &SoundStreamHead)
        requires
            old(self).wf(),
            old(self).timeline.sound_stream is None,
        ensures
            final(self).wf(),
            final(self).current_frame == old(self).current_frame,
            final(self).timeline.sound_stream matches Some(s) && s.start == old(self).current_frame
                && s.format == head.stream_format && s.mp3@.len() == 0,
            final(self).timeline.layers == old(self).timeline.layers,
            final(self).timeline.actions == old(self).timeline.actions,
            final(self).timeline.labels == old(self).timeline.labels,
            final(self).timeline.sounds == old(self).timeline.sounds,
            final(self).timeline.frame_count == old(self).timeline.frame_count,
    {
        self.timeline.sound_stream = Some(
            SoundStream { start: self.current_frame, format: head.stream_format, mp3: Vec::new() },
        );
    }

    /// Appends the MP3 packets of a block to the streaming sound. Blocks
    /// without a stream, or of a stream in another coding, are ignored.
    pub fn sound_stream_block(&mut self, block: &SoundStreamBlock) -> (r: Result<(), TimelineError>)
        requires
            old(self).wf(),
        ensures
            final(self).wf(),
            final(self).current_frame == old(self).current_frame,
            match old(self).timeline.sound_stream {
                Some(s) => if s.format != AudioFormat::Mp3 {
                    r is Ok && *final(self) == *old(self)
                } else if block.data@.len() < 4 {
                    r == Err::<(), TimelineError>(TimelineError::ShortSoundBlock) && *final(self)
                        == *old(self)
                } else {
                    &&& r is Ok
                    &&& final(self).timeline.sound_stream matches Some(t)
                    &&& t.start == s.start
                    &&& t.format == s.format
                    &&& t.mp3@ == s.mp3@ + block.data@.subrange(4, block.data@.len() as int)
                },
                None => r is Ok && *final(self) == *old(self),
            },
            final(self).timeline.layers == old(self).timeline.layers,
            final(self).timeline.actions == old(self).timeline.actions,
            final(self).timeline.labels == old(self).timeline.labels,
            final(self).timeline.sounds == old(self).timeline.sounds,
            final(self).timeline.frame_count == old(self).timeline.frame_count,
    {
        match &mut self.timeline.sound_stream {
            Some(stream) => {
                match stream.format {
                    AudioFormat::Mp3 => {},
                    AudioFormat::Other => {
                        return Ok(());
                    },
                }
                if block.data.len() < 4 {
                    return Err(TimelineError::ShortSoundBlock);
                }
                let parsed = Mp3StreamBlock::parse(block.data.as_slice());
                let data = parsed.mp3.data;
                let ghost start = stream.mp3@;
                let ghost first = stream.start;
                let ghost format = stream.format;
                let mut k: usize = 0;
                while k < data.len()
                    invariant
                        k <= data@.len(),
                        stream.start == first,
                        stream.format == format,
                        stream.mp3@ == start + data@.subrange(0, k as int),
                    decreases data@.len() - k,
                {
                    stream.mp3.push(data[k]);
                    k += 1;
                    proof {
                        assert(stream.mp3@ =~= start + data@.subrange(0, k as int));
                    }
                }
                proof {
                    assert(data@.subrange(0, k as int) =~= data@);
                }
                Ok(())
            },
            None => Ok(()),
        }
    }

    pub fn advance_frame(&mut self)
        requires
            old(self).current_frame.0 < u16::MAX,
        ensures
            final(self).current_frame.0 == old(self).current_frame.0 + 1,
            final(self).timeline == old(self).timeline,
    {
        self.current_frame = Frame(self.current_frame.0 + 1);
    }

    /// The finished timeline, with the declared frame count.
    pub fn finish(self, frame_count: Frame) -> (r: Timeline)
        ensures
            r == (Timeline { frame_count, ..self.timeline }),
    {
        let mut timeline = self.timeline;
        timeline.frame_count = frame_count;
        timeline
    }
}

proof fn lemma_labels_before_rest(labels: Seq<(String, Frame)>, name: Seq<char>, i: int, n: int)
    requires
        0 <= i <= n <= labels.len(),
        labels_before(labels, name, i) == i,
        forall|j: int| i <= j < n ==> !name_less((#[trigger] labels[j]).0@, name),
    ensures
        labels_before(labels, name, n) == i,
    decreases n - i,
{
    if n > i {
        lemma_labels_before_rest(labels, name, i, n - 1);
    }
}


/// One event of a timeline's tag stream.
#[derive(Debug)]
pub enum TimelineEvent {
    PlaceObject(PlaceObject),
    RemoveObject(RemoveObject),
    DoAction(Vec<Action>),
    ShowFrame,
    FrameLabel(FrameLabel),
    StartSound(StartSound),
    SoundStreamHead(SoundStreamHead),
    SoundStreamBlock(SoundStreamBlock),
}

/// Events that abort the document.
#[derive(Copy, Clone, Debug, PartialEq, Eq, Structural)]
pub enum BuildError {
    /// A placement at an empty depth names no character.
    MissingCharacter,
    /// A modification names another character than the one shown.
    CharacterMismatch,
    /// A removal at a depth that holds no layer.
    NoLayer,
    /// A second streaming-sound header.
    DuplicateSoundStream,
    /// An MP3 stream block shorter than its headers.
    ShortSoundBlock,
    /// A frame past the last one a 16-bit frame number can name.
    TooManyFrames,
    /// A script longer than lowering can count.
    ScriptTooLong,
}

/// The error an event raises in state `b`, if any.
pub open spec fn event_error(b: TimelineBuilder, e: TimelineEvent) -> Option<BuildError> {
    match e {
        TimelineEvent::PlaceObject(p) => match placed(
            value_at(layer_entries(b.timeline, p.depth), b.current_frame.0),
            p,
        ) {
            Err(TimelineError::CharacterMismatch) => Some(BuildError::CharacterMismatch),
            Err(_) => Some(BuildError::MissingCharacter),
            Ok(_) => None,
        },
        TimelineEvent::RemoveObject(r) => if b.timeline.layers.contents().contains_key(r.depth) {
            None
        } else {
            Some(BuildError::NoLayer)
        },
        TimelineEvent::DoAction(a) => if a@.len() <= usize::MAX / 4 {
            None
        } else {
            Some(BuildError::ScriptTooLong)
        },
        TimelineEvent::ShowFrame => if b.current_frame.0 < u16::MAX {
            None
        } else {
            Some(BuildError::TooManyFrames)
        },
        TimelineEvent::SoundStreamHead(_) => if b.timeline.sound_stream is None {
            None
        } else {
            Some(BuildError::DuplicateSoundStream)
        },
        TimelineEvent::SoundStreamBlock(blk) => match b.timeline.sound_stream {
            Some(s) => if s.format == AudioFormat::Mp3 && blk.data@.len() < 4 {
                Some(BuildError::ShortSoundBlock)
            } else {
                None
            },
            None => None,
        },
        _ => None,
    }
}

/// Everything but the layers is unchanged.
pub open spec fn only_layers_change(o: TimelineBuilder, n: TimelineBuilder) -> bool {
    &&& n.current_frame == o.current_frame
    &&& n.timeline.actions == o.timeline.actions
    &&& n.timeline.labels == o.timeline.labels
    &&& n.timeline.sounds == o.timeline.sounds
    &&& n.timeline.sound_stream == o.timeline.sound_stream
    &&& n.timeline.frame_count == o.timeline.frame_count
}

/// The layer at `d` gets `v` at the current frame; other layers stay.
pub open spec fn layer_set(o: TimelineBuilder, n: TimelineBuilder, d: u16, v: Option<Object>) -> bool {
    &&& n.timeline.layers.contents() == o.timeline.layers.contents().insert(
        d,
        n.timeline.layers.contents()[d],
    )
    &&& layer_frames(n.timeline, d) == layer_frames(o.timeline, d).insert(o.current_frame.0, v)
    &&& only_layers_change(o, n)
}

/// What an event that raises no error does to the builder.
pub open spec fn event_effect(o: TimelineBuilder, n: TimelineBuilder, e: TimelineEvent) -> bool {
    match e {
        TimelineEvent::PlaceObject(p) => match placed(
            value_at(layer_entries(o.timeline, p.depth), o.current_frame.0),
            p,
        ) {
            Ok(obj) => layer_set(o, n, p.depth, Some(obj)),
            Err(_) => false,
        },
        TimelineEvent::RemoveObject(r) => layer_set(o, n, r.depth, None),
        TimelineEvent::DoAction(a) => {
            let f = o.current_frame.0;
            &&& n.timeline.actions.contents() == o.timeline.actions.contents().insert(
                f,
                n.timeline.actions.contents()[f],
            )
            &&& list_at(n.timeline.actions.contents(), f).drop_last() == list_at(
                o.timeline.actions.contents(),
                f,
            )
            &&& list_at(n.timeline.actions.contents(), f).len() > 0
            &&& ops_view(list_at(n.timeline.actions.contents(), f).last().ops@) == lowered(a@).ops
            &&& n.current_frame == o.current_frame
            &&& n.timeline.layers == o.timeline.layers
            &&& n.timeline.labels == o.timeline.labels
            &&& n.timeline.sounds == o.timeline.sounds
            &&& n.timeline.sound_stream == o.timeline.sound_stream
            &&& n.timeline.frame_count == o.timeline.frame_count
        },
        TimelineEvent::ShowFrame => n.current_frame.0 == o.current_frame.0 + 1 && n.timeline
            == o.timeline,
        TimelineEvent::FrameLabel(l) => {
            let labels = o.timeline.labels@;
            let p = labels_before(labels, l.name@, labels.len() as int);
            &&& if p < labels.len() && labels[p].0@ == l.name@ {
                n.timeline.labels@ == labels.update(p, (labels[p].0, o.current_frame))
            } else {
                n.timeline.labels@ == labels.insert(p, (l.name, o.current_frame))
            }
            &&& n.current_frame == o.current_frame
            &&& n.timeline.layers == o.timeline.layers
            &&& n.timeline.actions == o.timeline.actions
            &&& n.timeline.sounds == o.timeline.sounds
            &&& n.timeline.sound_stream == o.timeline.sound_stream
            &&& n.timeline.frame_count == o.timeline.frame_count
        },
        TimelineEvent::StartSound(snd) => {
            let f = o.current_frame.0;
            &&& n.timeline.sounds.contents() == o.timeline.sounds.contents().insert(
                f,
                n.timeline.sounds.contents()[f],
            )
            &&& list_at(n.timeline.sounds.contents(), f) == list_at(
                o.timeline.sounds.contents(),
                f,
            ).push(snd)
            &&& n.current_frame == o.current_frame
            &&& n.timeline.layers == o.timeline.layers
            &&& n.timeline.actions == o.timeline.actions
            &&& n.timeline.labels == o.timeline.labels
            &&& n.timeline.sound_stream == o.timeline.sound_stream
            &&& n.timeline.frame_count == o.timeline.frame_count
        },
        TimelineEvent::SoundStreamHead(h) => {
            &&& n.timeline.sound_stream matches Some(s) && s.start == o.current_frame && s.format
                == h.stream_format && s.mp3@.len() == 0
            &&& n.current_frame == o.current_frame
            &&& n.timeline.layers == o.timeline.layers
            &&& n.timeline.actions == o.timeline.actions
            &&& n.timeline.labels == o.timeline.labels
            &&& n.timeline.sounds == o.timeline.sounds
            &&& n.timeline.frame_count == o.timeline.frame_count
        },
        TimelineEvent::SoundStreamBlock(blk) => match o.timeline.sound_stream {
            Some(s) => if s.format != AudioFormat::Mp3 {
                n == o
            } else {
                &&& n.timeline.sound_stream matches Some(t)
                &&& t.start == s.start
                &&& t.format == s.format
                &&& t.mp3@ == s.mp3@ + blk.data@.subrange(4, blk.data@.len() as int)
                &&& n.current_frame == o.current_frame
                &&& n.timeline.layers == o.timeline.layers
                &&& n.timeline.actions == o.timeline.actions
                &&& n.timeline.labels == o.timeline.labels
                &&& n.timeline.sounds == o.timeline.sounds
                &&& n.timeline.frame_count == o.timeline.frame_count
            },
            None => n == o,
        },
    }
}

impl TimelineBuilder {
    /// Feeds one event: an event that would break the timeline's rules is
    /// refused with its error and changes nothing (see `event_error`);
    /// otherwise it has the effect of the matching method (see
    /// `event_effect`).
    pub fn apply(&mut self, e: TimelineEvent) -> (r: Result<(), BuildError>)
        requires
            old(self).wf(),
        ensures
            final(self).wf(),
            match event_error(*old(self), e) {
                Some(err) => r == Err::<(), BuildError>(err) && *final(self) == *old(self),
                None => r is Ok && event_effect(*old(self), *final(self), e),
            },
    {
        match e {
            TimelineEvent::PlaceObject(p) => {
                if let (Some(shown), Some(c)) = (self.shown(p.depth), p.character_id) {
                    if !p.is_update && shown.character.0 != c {
                        return Err(BuildError::CharacterMismatch);
                    }
                }
                match self.place_object(&p) {
                    Ok(()) => Ok(()),
                    Err(_) => Err(BuildError::MissingCharacter),
                }
            },
            TimelineEvent::RemoveObject(r) => {
                if self.timeline.layers.get(r.depth).is_none() {
                    return Err(BuildError::NoLayer);
                }
                self.remove_object(&r);
                Ok(())
            },
            TimelineEvent::DoAction(a) => {
                if a.len() > usize::MAX / 4 {
                    return Err(BuildError::ScriptTooLong);
                }
                self.do_action(a);
                Ok(())
            },
            TimelineEvent::ShowFrame => {
                if self.current_frame.0 == u16::MAX {
                    return Err(BuildError::TooManyFrames);
                }
                self.advance_frame();
                Ok(())
            },
            TimelineEvent::FrameLabel(l) => {
                self.frame_label(l);
                Ok(())
            },
            TimelineEvent::StartSound(snd) => {
                self.start_sound(snd);
                Ok(())
            },
            TimelineEvent::SoundStreamHead(h) => {
                if self.timeline.sound_stream.is_some() {
                    return Err(BuildError::DuplicateSoundStream);
                }
                self.sound_stream_head(&h);
                Ok(())
            },
            TimelineEvent::SoundStreamBlock(blk) => match self.sound_stream_block(&blk) {
                Ok(()) => Ok(()),
                Err(_) => Err(BuildError::ShortSoundBlock),
            },
        }
    }
}

} // verus!
