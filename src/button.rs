//! Buttons: per-state object maps and the event handlers of their
//! conditional actions.
use crate::avm1::{lowered, ops_view, Action, Code};
use crate::dictionary::CharacterId;
use crate::geom::{ColorTransformWithAlpha, Matrix};
use crate::keymap::KeyMap;
use crate::timeline::Object;
use vstd::prelude::*;

verus! {

#[derive(Debug)]
pub struct PerState<T> {
    pub up: T,
    pub over: T,
    pub down: T,
    pub hit_test: T,
}

#[derive(Copy, Clone, Debug, PartialEq, Eq, PartialOrd, Ord, Hash, Structural)]
pub enum Event {
    KeyPress(u8),
    HoverIn,
    HoverOut,
    Down,
    Up,
    DragOut,
    DragIn,
    UpOut,
    DownIn,
    DownOut,
}

#[derive(Debug)]
pub struct EventHandler {
    pub on: Vec<Event>,
    pub actions: Code,
}

#[derive(Debug)]
pub struct Button {
    pub objects: PerState<KeyMap<Object>>,
    pub handlers: Vec<EventHandler>,
}

/// A character shown by a button in some of its states.
#[derive(Clone, Debug, PartialEq, Eq)]
pub struct ButtonRecord {
    pub state_up: bool,
    pub state_over: bool,
    pub state_down: bool,
    pub state_hit_test: bool,
    pub character_id: u16,
    pub depth: u16,
    pub matrix: Matrix,
    pub color_transform: ColorTransformWithAlpha,
}

/// The mouse transitions and the key that trigger a conditional action.
#[derive(Copy, Clone, Debug, PartialEq, Eq, Structural)]
pub struct ButtonCond {
    pub idle_to_over_up: bool,
    pub over_up_to_idle: bool,
    pub over_up_to_over_down: bool,
    pub over_down_to_over_up: bool,
    pub over_down_to_out_down: bool,
    pub out_down_to_over_down: bool,
    pub out_down_to_idle: bool,
    pub idle_to_over_down: bool,
    pub over_down_to_idle: bool,
    pub key_press: Option<u32>,
}

#[derive(Debug, PartialEq, Eq)]
pub struct ButtonCondAction {
    pub conditions: ButtonCond,
    pub actions: Vec<Action>,
}

#[derive(Debug, PartialEq, Eq)]
pub struct DefineButton {
    pub id: u16,
    pub records: Vec<ButtonRecord>,
    pub actions: Vec<ButtonCondAction>,
}

pub open spec fn record_object(r: ButtonRecord) -> Object {
    Object {
        character: CharacterId(r.character_id),
        matrix: r.matrix,
        name: None,
        color_transform: r.color_transform,
        ratio: None,
    }
}

/// Whether record `r` shows in state `s` (0 up, 1 over, 2 down, 3 hit test).
pub open spec fn in_state(r: ButtonRecord, s: int) -> bool {
    if s == 0 {
        r.state_up
    } else if s == 1 {
        r.state_over
    } else if s == 2 {
        r.state_down
    } else {
        r.state_hit_test
    }
}

/// The objects of state `s`, by depth; a later record at the same depth
/// replaces an earlier one.
pub open spec fn state_objects(records: Seq<ButtonRecord>, s: int) -> Map<u16, Object>
    decreases records.len(),
{
    if records.len() == 0 {
        Map::empty()
    } else {
        let prev = state_objects(records.drop_last(), s);
        if in_state(records.last(), s) {
            prev.insert(records.last().depth, record_object(records.last()))
        } else {
            prev
        }
    }
}

pub open spec fn flag(b: bool, e: Event) -> Seq<Event> {
    if b {
        seq![e]
    } else {
        seq![]
    }
}

/// The key of a condition, when it names one: codes are kept to their low
/// byte, and 0 names none.
pub open spec fn key_events(key_press: Option<u32>) -> Seq<Event> {
    match key_press {
        Some(k) => flag(k as u8 != 0, Event::KeyPress(k as u8)),
        None => seq![],
    }
}

/// The events of a condition: each set transition flag, in declaration
/// order, then the key press.
pub open spec fn events_of(c: ButtonCond) -> Seq<Event> {
    flag(c.idle_to_over_up, Event::HoverIn) + flag(c.over_up_to_idle, Event::HoverOut) + flag(
        c.over_up_to_over_down,
        Event::Down,
    ) + flag(c.over_down_to_over_up, Event::Up) + flag(c.over_down_to_out_down, Event::DragOut)
        + flag(c.out_down_to_over_down, Event::DragIn) + flag(c.out_down_to_idle, Event::UpOut)
        + flag(c.idle_to_over_down, Event::DownIn) + flag(c.over_down_to_idle, Event::DownOut)
        + key_events(c.key_press)
}

fn push_if(v: &mut Vec<Event>, b: bool, e: Event)
    ensures
        final(v)@ == old(v)@ + flag(b, e),
{
    if b {
        v.push(e);
    }
    proof {
        assert(v@ =~= old(v)@ + flag(b, e));
    }
}

fn events(c: &ButtonCond) -> (r: Vec<Event>)
    ensures
        r@ == events_of(*c),
{
    let mut v: Vec<Event> = Vec::new();
    push_if(&mut v, c.idle_to_over_up, Event::HoverIn);
    push_if(&mut v, c.over_up_to_idle, Event::HoverOut);
    push_if(&mut v, c.over_up_to_over_down, Event::Down);
    push_if(&mut v, c.over_down_to_over_up, Event::Up);
    push_if(&mut v, c.over_down_to_out_down, Event::DragOut);
    push_if(&mut v, c.out_down_to_over_down, Event::DragIn);
    push_if(&mut v, c.out_down_to_idle, Event::UpOut);
    push_if(&mut v, c.idle_to_over_down, Event::DownIn);
    push_if(&mut v, c.over_down_to_idle, Event::DownOut);
    match c.key_press {
        Some(k) => {
            let key = k as u8;
            push_if(&mut v, key != 0, Event::KeyPress(key));
        },
        None => {
            proof {
                assert(v@ =~= v@ + key_events(c.key_press));
            }
        },
    }
    proof {
        assert(v@ =~= events_of(*c));
    }
    v
}

fn record_object_of(r: &ButtonRecord) -> (o: Object)
    ensures
        o == record_object(*r),
{
    Object {
        character: CharacterId(r.character_id),
        matrix: r.matrix,
        name: None,
        color_transform: r.color_transform,
        ratio: None,
    }
}

fn state_map(records: &Vec<ButtonRecord>, s: usize) -> (r: KeyMap<Object>)
    requires
        s < 4,
    ensures
        r.wf(),
        r.contents() == state_objects(records@, s as int),
{
    let mut m: KeyMap<Object> = KeyMap::new();
    let mut i: usize = 0;
    proof {
        assert(records@.subrange(0, 0) =~= Seq::<ButtonRecord>::empty());
    }
    while i < records.len()
        invariant
            s < 4,
            i <= records@.len(),
            m.wf(),
            m.contents() == state_objects(records@.subrange(0, i as int), s as int),
        decreases records@.len() - i,
    {
        let r = &records[i];
        let shown = if s == 0 {
            r.state_up
        } else if s == 1 {
            r.state_over
        } else if s == 2 {
            r.state_down
        } else {
            r.state_hit_test
        };
        proof {
            assert(records@.subrange(0, i + 1).drop_last() =~= records@.subrange(0, i as int));
        }
        if shown {
            m.insert(r.depth, record_object_of(r));
        }
        i += 1;
    }
    proof {
        assert(records@.subrange(0, i as int) =~= records@);
    }
    m
}

impl Button {
    /// Sorts the records into the four state maps and lowers each
    /// conditional action into a handler for its events.
    pub fn from_def(def: &DefineButton) -> (r: Button)
        requires
            forall|i: int|
                0 <= i < def.actions@.len() ==> (#[trigger] def.actions@[i]).actions@.len()
                    <= usize::MAX / 4,
        ensures
            r.objects.up.wf() && r.objects.up.contents() == state_objects(def.records@, 0),
            r.objects.over.wf() && r.objects.over.contents() == state_objects(def.records@, 1),
            r.objects.down.wf() && r.objects.down.contents() == state_objects(def.records@, 2),
            r.objects.hit_test.wf() && r.objects.hit_test.contents() == state_objects(
                def.records@,
                3,
            ),
            r.handlers@.len() == def.actions@.len(),
            forall|i: int|
                0 <= i < r.handlers@.len() ==> (#[trigger] r.handlers@[i]).on@ == events_of(
                    def.actions@[i].conditions,
                ) && ops_view(r.handlers@[i].actions.ops@) == lowered(def.actions@[i].actions@).ops,
    {
        let objects = PerState {
            up: state_map(&def.records, 0),
            over: state_map(&def.records, 1),
            down: state_map(&def.records, 2),
            hit_test: state_map(&def.records, 3),
        };
        let mut handlers: Vec<EventHandler> = Vec::new();
        let mut i: usize = 0;
        while i < def.actions.len()
            invariant
                i <= def.actions@.len(),
                handlers@.len() == i,
                forall|j: int|
                    0 <= j < def.actions@.len() ==> (#[trigger] def.actions@[j]).actions@.len()
                        <= usize::MAX / 4,
                forall|j: int|
                    0 <= j < i ==> (#[trigger] handlers@[j]).on@ == events_of(
                        def.actions@[j].conditions,
                    ) && ops_view(handlers@[j].actions.ops@) == lowered(def.actions@[j].actions@).ops,
            decreases def.actions@.len() - i,
        {
            let cond = &def.actions[i];
            let on = events(&cond.conditions);
            let actions = Code::compile(&cond.actions);
            handlers.push(EventHandler { on, actions });
            i += 1;
        }
        Button { objects, handlers }
    }
}

/// The handlers, by index in order, that an event triggers.
pub open spec fn handlers_for(hs: Seq<EventHandler>, e: Event, n: int) -> Seq<usize>
    decreases n,
{
    if n <= 0 {
        seq![]
    } else if hs[n - 1].on@.contains(e) {
        handlers_for(hs, e, n - 1).push((n - 1) as usize)
    } else {
        handlers_for(hs, e, n - 1)
    }
}

fn triggers(h: &EventHandler, e: Event) -> (r: bool)
    ensures
        r == h.on@.contains(e),
{
    let mut j: usize = 0;
    while j < h.on.len()
        invariant
            j <= h.on@.len(),
            forall|k: int| 0 <= k < j ==> h.on@[k] != e,
        decreases h.on@.len() - j,
    {
        if h.on[j] == e {
            return true;
        }
        j += 1;
    }
    false
}

fn collect_handlers(hs: &Vec<EventHandler>, e: Event) -> (r: Vec<usize>)
    ensures
        r@ == handlers_for(hs@, e, hs@.len() as int),
{
    let mut r: Vec<usize> = Vec::new();
    let mut i: usize = 0;
    while i < hs.len()
        invariant
            i <= hs@.len(),
            r@ == handlers_for(hs@, e, i as int),
        decreases hs@.len() - i,
    {
        if triggers(&hs[i], e) {
            r.push(i);
        }
        i += 1;
    }
    proof {
        assert(hs@.subrange(0, i as int) =~= hs@);
    }
    r
}

pub open spec fn has_event(r: Seq<(Event, Vec<usize>)>, e: Event) -> bool {
    exists|k: int| 0 <= k < r.len() && (#[trigger] r[k]).0 == e
}

pub open spec fn reacts(hs: Seq<EventHandler>, e: Event) -> bool {
    exists|i: int| 0 <= i < hs.len() && (#[trigger] hs[i]).on@.contains(e)
}

proof fn lemma_has_event_push(r: Seq<(Event, Vec<usize>)>, x: (Event, Vec<usize>), e: Event)
    requires
        has_event(r, e),
    ensures
        has_event(r.push(x), e),
{
    let k = choose|k: int| 0 <= k < r.len() && (#[trigger] r[k]).0 == e;
    assert(r.push(x)[k] == r[k]);
}

/// The events of the handlers, handler by handler.
pub open spec fn flat_events(hs: Seq<EventHandler>) -> Seq<Event>
    decreases hs.len(),
{
    if hs.len() == 0 {
        seq![]
    } else {
        flat_events(hs.drop_last()) + hs.last().on@
    }
}

/// Each event of `s` once, in the order of first occurrence.
pub open spec fn first_seen(s: Seq<Event>) -> Seq<Event>
    decreases s.len(),
{
    if s.len() == 0 {
        seq![]
    } else {
        let p = first_seen(s.drop_last());
        if p.contains(s.last()) {
            p
        } else {
            p.push(s.last())
        }
    }
}

pub open spec fn table_events(r: Seq<(Event, Vec<usize>)>) -> Seq<Event> {
    Seq::new(r.len(), |k: int| r[k].0)
}

/// Each event that some handler reacts to, once, in the order first seen,
/// with the handlers it triggers.
pub fn dispatch_table(hs: &Vec<EventHandler>) -> (r: Vec<(Event, Vec<usize>)>)
    ensures
        forall|k: int|
            0 <= k < r@.len() ==> (#[trigger] r@[k]).1@ == handlers_for(
                hs@,
                r@[k].0,
                hs@.len() as int,
            ) && reacts(hs@, r@[k].0),
        forall|a: int, b: int| 0 <= a < b < r@.len() ==> (#[trigger] r@[a]).0 != (#[trigger] r@[b]).0,
        forall|i: int, j: int|
            0 <= i < hs@.len() && 0 <= j < hs@[i].on@.len() ==> has_event(r@, #[trigger] hs@[i].on@[j]),
        table_events(r@) == first_seen(flat_events(hs@)),
{
    let mut r: Vec<(Event, Vec<usize>)> = Vec::new();
    let mut i: usize = 0;
    while i < hs.len()
        invariant
            i <= hs@.len(),
            forall|k: int|
                0 <= k < r@.len() ==> (#[trigger] r@[k]).1@ == handlers_for(
                    hs@,
                    r@[k].0,
                    hs@.len() as int,
                ) && reacts(hs@, r@[k].0),
            forall|a: int, b: int| 0 <= a < b < r@.len() ==> (#[trigger] r@[a]).0 != (#[trigger] r@[b]).0,
            forall|ii: int, j: int|
                0 <= ii < i && 0 <= j < hs@[ii].on@.len() ==> has_event(r@, #[trigger] hs@[ii].on@[j]),
            table_events(r@) == first_seen(flat_events(hs@.subrange(0, i as int))),
        decreases hs@.len() - i,
    {
        let on = &hs[i].on;
        let ghost base = flat_events(hs@.subrange(0, i as int));
        proof {
            assert(on@.subrange(0, 0) =~= Seq::<Event>::empty());
            assert(base + on@.subrange(0, 0) =~= base);
        }
        let mut j: usize = 0;
        while j < on.len()
            invariant
                i < hs@.len(),
                on@ == hs@[i as int].on@,
                j <= on@.len(),
                forall|k: int|
                    0 <= k < r@.len() ==> (#[trigger] r@[k]).1@ == handlers_for(
                        hs@,
                        r@[k].0,
                        hs@.len() as int,
                    ) && reacts(hs@, r@[k].0),
                forall|a: int, b: int| 0 <= a < b < r@.len() ==> (#[trigger] r@[a]).0 != (#[trigger] r@[b]).0,
                forall|ii: int, jj: int|
                    0 <= ii < i && 0 <= jj < hs@[ii].on@.len() ==> has_event(r@, #[trigger] hs@[ii].on@[jj]),
                forall|jj: int| 0 <= jj < j ==> has_event(r@, #[trigger] on@[jj]),
                table_events(r@) == first_seen(base + on@.subrange(0, j as int)),
            decreases on@.len() - j,
        {
            let e = on[j];
            let mut k: usize = 0;
            let mut seen = false;
            while k < r.len()
                invariant
                    k <= r@.len(),
                    !seen ==> forall|kk: int| 0 <= kk < k ==> (#[trigger] r@[kk]).0 != e,
                    seen ==> has_event(r@, e),
                decreases r@.len() - k,
            {
                if r[k].0 == e {
                    seen = true;
                }
                k += 1;
            }
            proof {
                let sq = base + on@.subrange(0, j + 1);
                assert(sq.drop_last() =~= base + on@.subrange(0, j as int));
                assert(sq.last() == e);
                if seen {
                    let kk = choose|kk: int| 0 <= kk < r@.len() && (#[trigger] r@[kk]).0 == e;
                    assert(table_events(r@)[kk] == e);
                } else {
                    assert(!table_events(r@).contains(e)) by {
                        if table_events(r@).contains(e) {
                            let kk = choose|kk: int| 0 <= kk < table_events(r@).len() && table_events(r@)[kk] == e;
                            assert(r@[kk].0 == e);
                        }
                    }
                }
            }
            if !seen {
                let handlers = collect_handlers(hs, e);
                let ghost old_r = r@;
                let ghost x = (e, handlers);
                r.push((e, handlers));
                proof {
                    assert(r@ == old_r.push(x));
                    assert(r@[old_r.len() as int].0 == e);
                    assert(hs@[i as int].on@.contains(e)) by {
                        assert(hs@[i as int].on@[j as int] == e);
                    }
                    assert(reacts(hs@, e));
                    assert forall|ii: int, jj: int|
                        0 <= ii < i && 0 <= jj < hs@[ii].on@.len() implies has_event(r@, #[trigger] hs@[ii].on@[jj]) by {
                        lemma_has_event_push(old_r, x, hs@[ii].on@[jj]);
                    }
                    assert forall|jj: int| 0 <= jj < j + 1 implies has_event(r@, #[trigger] on@[jj]) by {
                        if jj < j {
                            lemma_has_event_push(old_r, x, on@[jj]);
                        } else {
                            assert(r@[old_r.len() as int].0 == on@[jj]);
                        }
                    }
                    assert(table_events(r@) =~= table_events(old_r).push(e));
                    assert forall|a: int, b: int| 0 <= a < b < r@.len() implies (#[trigger] r@[a]).0 != (#[trigger] r@[b]).0 by {
                        if b == old_r.len() {
                            assert(old_r[a] == r@[a]);
                        } else {
                            assert(old_r[a] == r@[a] && old_r[b] == r@[b]);
                        }
                    }
                }
            } else {
                proof {
                    assert(has_event(r@, on@[j as int]));
                }
            }
            j += 1;
        }
        proof {
            let t = hs@.subrange(0, i + 1);
            assert(t.drop_last() =~= hs@.subrange(0, i as int));
            assert(t.last() == hs@[i as int]);
            assert(on@.subrange(0, on@.len() as int) =~= on@);
            assert forall|ii: int, jj: int|
                0 <= ii < i + 1 && 0 <= jj < hs@[ii].on@.len() implies has_event(r@, #[trigger] hs@[ii].on@[jj]) by {
                if ii == i {
                    assert(on@[jj] == hs@[ii].on@[jj]);
                }
            }
        }
        i += 1;
    }
    proof {
        assert(hs@.subrange(0, i as int) =~= hs@);
    }
    r
}

} // verus!
