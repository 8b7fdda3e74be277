//! A timeline written out as the JavaScript data object that the embedded
//! runtime plays. Fixed-point numbers are written as exact quotients.
use crate::geom::{identity_color_transform, identity_matrix, ColorTransformWithAlpha, Matrix};
use crate::js::{
    base64_of,
    codes_js,
    debug_quoted,
    export_mp3,
    indented,
    nat_text,
    push_indented,
    push_nat,
    quote,
};
use crate::keymap::KeyMap;
use crate::timeline::{Layer, Object, StartSound, Timeline};
use vstd::prelude::*;
use vstd::string::StringExecFns;

verus! {

pub open spec fn views(s: Seq<String>) -> Seq<Seq<char>> {
    Seq::new(s.len(), |i: int| s[i]@)
}

pub open spec fn array_items(e: Seq<Seq<char>>) -> Seq<char>
    decreases e.len(),
{
    if e.len() == 0 {
        seq![]
    } else {
        array_items(e.drop_last()) + "    "@ + indented(e.last()) + ",\n"@
    }
}

/// A JavaScript array literal, one element per line.
pub open spec fn array_js(e: Seq<Seq<char>>) -> Seq<char> {
    "[\n"@ + array_items(e) + "]"@
}

pub open spec fn object_items(p: Seq<(Seq<char>, Seq<char>)>) -> Seq<char>
    decreases p.len(),
{
    if p.len() == 0 {
        seq![]
    } else {
        object_items(p.drop_last()) + "    "@ + p.last().0 + ": "@ + indented(p.last().1) + ",\n"@
    }
}

/// A JavaScript object literal, one property per line.
pub open spec fn object_js(p: Seq<(Seq<char>, Seq<char>)>) -> Seq<char> {
    "{\n"@ + object_items(p) + "}"@
}

/// The fixed-point number `v / one`: an integer when it is one, else the
/// quotient itself.
pub open spec fn fixed_js(v: int, one: nat) -> Seq<char> {
    let m = if v < 0 {
        -v
    } else {
        v
    };
    let sign = if v < 0 {
        "-"@
    } else {
        ""@
    };
    if m % (one as int) == 0 {
        sign + nat_text((m / (one as int)) as nat)
    } else {
        sign + nat_text(m as nat) + "/"@ + nat_text(one)
    }
}

pub open spec fn matrix_js(m: Matrix) -> Seq<char> {
    if m == identity_matrix() {
        "null"@
    } else {
        array_js(
            seq![
                fixed_js(m.scale_x as int, 65536),
                fixed_js(m.rotate_skew0 as int, 65536),
                fixed_js(m.rotate_skew1 as int, 65536),
                fixed_js(m.scale_y as int, 65536),
                fixed_js(m.translate_x as int, 1),
                fixed_js(m.translate_y as int, 1),
            ],
        )
    }
}

/// The color transform as a 4x5 color matrix, additions scaled to 0..1.
pub open spec fn color_js(c: ColorTransformWithAlpha) -> Seq<char> {
    let z = "0"@;
    if c == identity_color_transform() {
        "null"@
    } else {
        array_js(
            seq![
                fixed_js(c.red_mult as int, 256), z, z, z, fixed_js(c.red_add as int, 255),
                z, fixed_js(c.green_mult as int, 256), z, z, fixed_js(c.green_add as int, 255),
                z, z, fixed_js(c.blue_mult as int, 256), z, fixed_js(c.blue_add as int, 255),
                z, z, z, fixed_js(c.alpha_mult as int, 256), fixed_js(c.alpha_add as int, 255),
            ],
        )
    }
}

pub open spec fn object_data_js(o: Object) -> Seq<char> {
    object_js(
        seq![
            ("character"@, nat_text(o.character.0 as nat)),
            ("matrix"@, matrix_js(o.matrix)),
            ("name"@, match o.name {
                Some(n) => debug_quoted(n@),
                None => "null"@,
            }),
            ("color_transform"@, color_js(o.color_transform)),
            ("ratio"@, match o.ratio {
                Some(r) => nat_text(r as nat),
                None => "null"@,
            }),
        ],
    )
}

/// The last key of a map, or 0.
pub open spec fn last_key<V>(s: Seq<(u16, V)>) -> nat {
    if s.len() == 0 {
        0
    } else {
        s.last().0 as nat
    }
}

pub open spec fn frame_entry_js(m: Map<u16, Option<Object>>, f: int) -> Seq<char> {
    if m.contains_key(f as u16) {
        match m[f as u16] {
            Some(o) => object_data_js(o),
            None => "null"@,
        }
    } else {
        seq![]
    }
}

/// A layer as one element per frame up to its last key: the object, `null`
/// where it is removed, nothing where it does not change.
pub open spec fn layer_js(l: Layer) -> Seq<char> {
    array_js(Seq::new(last_key(l.frames.entries@) + 1, |f: int| frame_entry_js(l.frames.contents(), f)))
}

pub open spec fn layer_slot_js(t: Timeline, d: int) -> Seq<char> {
    if t.layers.contents().contains_key(d as u16) {
        layer_js(t.layers.contents()[d as u16])
    } else {
        seq![]
    }
}

pub open spec fn layers_js(t: Timeline) -> Seq<char> {
    array_js(Seq::new(last_key(t.layers.entries@) + 1, |d: int| layer_slot_js(t, d)))
}

pub open spec fn action_slot_js(t: Timeline, f: int) -> Seq<char> {
    if t.actions.contents().contains_key(f as u16) {
        "function(global, local) {"@ + indented(codes_js(t.actions.contents()[f as u16]@)) + "\n}"@
    } else {
        seq![]
    }
}

pub open spec fn actions_js(t: Timeline) -> Seq<char> {
    array_js(Seq::new(last_key(t.actions.entries@) + 1, |f: int| action_slot_js(t, f)))
}

pub open spec fn label_prop(t: Timeline, i: int) -> (Seq<char>, Seq<char>) {
    (debug_quoted(t.labels@[i].0@), nat_text(t.labels@[i].1.0 as nat))
}

pub open spec fn labels_js(t: Timeline) -> Seq<char> {
    object_js(Seq::new(t.labels@.len(), |i: int| label_prop(t, i)))
}

pub open spec fn sound_js(s: StartSound) -> Seq<char> {
    object_js(
        seq![
            ("character"@, nat_text(s.sound_id as nat)),
            ("no_restart"@, if s.sync_no_multiple {
                "true"@
            } else {
                "false"@
            }),
            ("loops"@, match s.loop_count {
                Some(c) => nat_text(c as nat),
                None => "null"@,
            }),
        ],
    )
}

pub open spec fn sound_list_js(list: Seq<StartSound>) -> Seq<char> {
    array_js(Seq::new(list.len(), |i: int| sound_js(list[i])))
}

pub open spec fn sound_slot_js(t: Timeline, f: int) -> Seq<char> {
    if t.sounds.contents().contains_key(f as u16) {
        sound_list_js(t.sounds.contents()[f as u16]@)
    } else {
        seq![]
    }
}

pub open spec fn sounds_js(t: Timeline) -> Seq<char> {
    array_js(Seq::new(last_key(t.sounds.entries@) + 1, |f: int| sound_slot_js(t, f)))
}

pub open spec fn stream_js(t: Timeline) -> Seq<char> {
    match t.sound_stream {
        Some(s) => object_js(
            seq![
                ("start"@, nat_text(s.start.0 as nat)),
                ("sound"@, "new Audio('data:audio/mpeg;base64,"@ + base64_of(s.mp3@) + "')"@),
            ],
        ),
        None => "null"@,
    }
}

/// The timeline's data object: layers, frame scripts, labels, sounds, the
/// streaming sound and the frame count.
pub open spec fn timeline_js(t: Timeline) -> Seq<char> {
    object_js(
        seq![
            ("layers"@, layers_js(t)),
            ("actions"@, actions_js(t)),
            ("labels"@, labels_js(t)),
            ("sounds"@, sounds_js(t)),
            ("sound_stream"@, stream_js(t)),
            ("frame_count"@, nat_text(t.frame_count.0 as nat)),
        ],
    )
}

pub open spec fn prop_views(p: Seq<(String, String)>) -> Seq<(Seq<char>, Seq<char>)> {
    Seq::new(p.len(), |i: int| (p[i].0@, p[i].1@))
}

/// A JavaScript array literal of the elements, one per line.
pub fn array(elems: &Vec<String>) -> (r: String)
    ensures
        r@ == array_js(views(elems@)),
{
    let mut out = String::new();
    out.append("[\n");
    let ghost head = out@;
    let mut k: usize = 0;
    proof {
        assert(views(elems@.subrange(0, 0)) =~= Seq::<Seq<char>>::empty());
    }
    while k < elems.len()
        invariant
            k <= elems@.len(),
            out@ == head + array_items(views(elems@.subrange(0, k as int))),
        decreases elems@.len() - k,
    {
        let ghost before = out@;
        out.append("    ");
        push_indented(&mut out, elems[k].as_str());
        out.append(",\n");
        proof {
            let v = views(elems@.subrange(0, k + 1));
            assert(v.drop_last() =~= views(elems@.subrange(0, k as int)));
            assert(v.last() == elems@[k as int]@);
            assert(out@ =~= head + array_items(v));
        }
        k += 1;
    }
    out.append("]");
    proof {
        assert(elems@.subrange(0, k as int) =~= elems@);
        assert(out@ =~= array_js(views(elems@)));
    }
    out
}

/// A JavaScript object literal of the properties, one per line.
pub fn object(props: &Vec<(String, String)>) -> (r: String)
    ensures
        r@ == object_js(prop_views(props@)),
{
    let mut out = String::new();
    out.append("{\n");
    let ghost head = out@;
    let mut k: usize = 0;
    proof {
        assert(prop_views(props@.subrange(0, 0)) =~= Seq::<(Seq<char>, Seq<char>)>::empty());
    }
    while k < props.len()
        invariant
            k <= props@.len(),
            out@ == head + object_items(prop_views(props@.subrange(0, k as int))),
        decreases props@.len() - k,
    {
        out.append("    ");
        out.append(props[k].0.as_str());
        out.append(": ");
        push_indented(&mut out, props[k].1.as_str());
        out.append(",\n");
        proof {
            let v = prop_views(props@.subrange(0, k + 1));
            assert(v.drop_last() =~= prop_views(props@.subrange(0, k as int)));
            assert(v.last() == (props@[k as int].0@, props@[k as int].1@));
            assert(out@ =~= head + object_items(v));
        }
        k += 1;
    }
    out.append("}");
    proof {
        assert(props@.subrange(0, k as int) =~= props@);
        assert(out@ =~= object_js(prop_views(props@)));
    }
    out
}

fn text(t: &str) -> (r: String)
    ensures
        r@ == t@,
{
    String::from_str(t)
}

fn nat_string(n: u64) -> (r: String)
    ensures
        r@ == nat_text(n as nat),
{
    let mut s = String::new();
    push_nat(&mut s, n);
    proof {
        assert(s@ =~= nat_text(n as nat));
    }
    s
}

pub(crate) fn fixed(v: i64, one: u64) -> (r: String)
    requires
        0 < one,
        -0x1_0000_0000 < v < 0x1_0000_0000,
    ensures
        r@ == fixed_js(v as int, one as nat),
{
    let m: u64 = if v < 0 {
        (-v) as u64
    } else {
        v as u64
    };
    let mut s = String::new();
    if v < 0 {
        s.append("-");
    } else {
        s.append("");
    }
    if m % one == 0 {
        push_nat(&mut s, m / one);
    } else {
        push_nat(&mut s, m);
        s.append("/");
        push_nat(&mut s, one);
    }
    proof {
        assert(s@ =~= fixed_js(v as int, one as nat));
    }
    s
}

/// A matrix as an array `[a, b, c, d, tx, ty]`, or `null` for the identity.
pub fn export_matrix(m: &Matrix) -> (r: String)
    ensures
        r@ == matrix_js(*m),
{
    if m.is_identity() {
        return text("null");
    }
    let mut v: Vec<String> = Vec::new();
    v.push(fixed(m.scale_x as i64, 65536));
    v.push(fixed(m.rotate_skew0 as i64, 65536));
    v.push(fixed(m.rotate_skew1 as i64, 65536));
    v.push(fixed(m.scale_y as i64, 65536));
    v.push(fixed(m.translate_x as i64, 1));
    v.push(fixed(m.translate_y as i64, 1));
    proof {
        assert(views(v@) =~= seq![
            fixed_js(m.scale_x as int, 65536),
            fixed_js(m.rotate_skew0 as int, 65536),
            fixed_js(m.rotate_skew1 as int, 65536),
            fixed_js(m.scale_y as int, 65536),
            fixed_js(m.translate_x as int, 1),
            fixed_js(m.translate_y as int, 1),
        ]);
    }
    array(&v)
}

/// A color transform as a 4x5 color matrix, or `null` for the identity.
pub fn export_color_transform(c: &ColorTransformWithAlpha) -> (r: String)
    ensures
        r@ == color_js(*c),
{
    if c.is_identity() {
        return text("null");
    }
    let mut v: Vec<String> = Vec::new();
    v.push(fixed(c.red_mult as i64, 256));
    v.push(text("0"));
    v.push(text("0"));
    v.push(text("0"));
    v.push(fixed(c.red_add as i64, 255));
    v.push(text("0"));
    v.push(fixed(c.green_mult as i64, 256));
    v.push(text("0"));
    v.push(text("0"));
    v.push(fixed(c.green_add as i64, 255));
    v.push(text("0"));
    v.push(text("0"));
    v.push(fixed(c.blue_mult as i64, 256));
    v.push(text("0"));
    v.push(fixed(c.blue_add as i64, 255));
    v.push(text("0"));
    v.push(text("0"));
    v.push(text("0"));
    v.push(fixed(c.alpha_mult as i64, 256));
    v.push(fixed(c.alpha_add as i64, 255));
    proof {
        let z = "0"@;
        assert(views(v@) =~= seq![
            fixed_js(c.red_mult as int, 256), z, z, z, fixed_js(c.red_add as int, 255),
            z, fixed_js(c.green_mult as int, 256), z, z, fixed_js(c.green_add as int, 255),
            z, z, fixed_js(c.blue_mult as int, 256), z, fixed_js(c.blue_add as int, 255),
            z, z, z, fixed_js(c.alpha_mult as int, 256), fixed_js(c.alpha_add as int, 255),
        ]);
    }
    array(&v)
}

fn object_text(o: &Object) -> (r: String)
    ensures
        r@ == object_data_js(*o),
{
    let mut p: Vec<(String, String)> = Vec::new();
    p.push((text("character"), nat_string(o.character.0 as u64)));
    p.push((text("matrix"), export_matrix(&o.matrix)));
    let name = match &o.name {
        Some(n) => quote(n.as_str()),
        None => text("null"),
    };
    p.push((text("name"), name));
    p.push((text("color_transform"), export_color_transform(&o.color_transform)));
    let ratio = match o.ratio {
        Some(r) => nat_string(r as u64),
        None => text("null"),
    };
    p.push((text("ratio"), ratio));
    proof {
        assert(prop_views(p@) =~= seq![
            ("character"@, nat_text(o.character.0 as nat)),
            ("matrix"@, matrix_js(o.matrix)),
            ("name"@, match o.name {
                Some(n) => debug_quoted(n@),
                None => "null"@,
            }),
            ("color_transform"@, color_js(o.color_transform)),
            ("ratio"@, match o.ratio {
                Some(r) => nat_text(r as nat),
                None => "null"@,
            }),
        ]);
    }
    object(&p)
}

fn last_key_of<V>(m: &KeyMap<V>) -> (r: u32)
    ensures
        r as nat == last_key(m.entries@),
{
    if m.entries.len() == 0 {
        0
    } else {
        m.entries[m.entries.len() - 1].0 as u32
    }
}

fn layer_text(l: &Layer) -> (r: String)
    requires
        l.frames.wf(),
    ensures
        r@ == layer_js(*l),
{
    let last = last_key_of(&l.frames);
    let mut v: Vec<String> = Vec::new();
    let mut f: u32 = 0;
    while f <= last
        invariant
            last <= 65535,
            f <= last + 1,
            l.frames.wf(),
            views(v@) =~= Seq::new(f as nat, |x: int| frame_entry_js(l.frames.contents(), x)),
        decreases last + 1 - f,
    {
        let e = match l.frames.get(f as u16) {
            Some(Some(o)) => object_text(o),
            Some(None) => text("null"),
            None => String::new(),
        };
        let ghost before = v@;
        v.push(e);
        proof {
            assert(views(v@) =~= views(before).push(e@));
        }
        f += 1;
    }
    array(&v)
}

fn layers_text(t: &Timeline) -> (r: String)
    requires
        t.wf(),
    ensures
        r@ == layers_js(*t),
{
    let last = last_key_of(&t.layers);
    let mut v: Vec<String> = Vec::new();
    let mut d: u32 = 0;
    while d <= last
        invariant
            last <= 65535,
            d <= last + 1,
            t.wf(),
            views(v@) =~= Seq::new(d as nat, |x: int| layer_slot_js(*t, x)),
        decreases last + 1 - d,
    {
        let e = match t.layers.get(d as u16) {
            Some(layer) => layer_text(layer),
            None => String::new(),
        };
        let ghost before = v@;
        v.push(e);
        proof {
            assert(views(v@) =~= views(before).push(e@));
        }
        d += 1;
    }
    array(&v)
}

fn actions_text(t: &Timeline) -> (r: String)
    requires
        t.wf(),
    ensures
        r@ == actions_js(*t),
{
    let last = last_key_of(&t.actions);
    let mut v: Vec<String> = Vec::new();
    let mut f: u32 = 0;
    while f <= last
        invariant
            last <= 65535,
            f <= last + 1,
            t.wf(),
            views(v@) =~= Seq::new(f as nat, |x: int| action_slot_js(*t, x)),
        decreases last + 1 - f,
    {
        let e = match t.actions.get(f as u16) {
            Some(codes) => crate::js::export(codes.as_slice()).0,
            None => String::new(),
        };
        let ghost before = v@;
        v.push(e);
        proof {
            assert(views(v@) =~= views(before).push(e@));
        }
        f += 1;
    }
    array(&v)
}

fn labels_text(t: &Timeline) -> (r: String)
    ensures
        r@ == labels_js(*t),
{
    let mut p: Vec<(String, String)> = Vec::new();
    let mut i: usize = 0;
    while i < t.labels.len()
        invariant
            i <= t.labels@.len(),
            prop_views(p@) =~= Seq::new(i as nat, |x: int| label_prop(*t, x)),
        decreases t.labels@.len() - i,
    {
        let ghost before = p@;
        let item = (quote(t.labels[i].0.as_str()), nat_string(t.labels[i].1.0 as u64));
        p.push(item);
        proof {
            assert(prop_views(p@) =~= prop_views(before).push((item.0@, item.1@)));
        }
        i += 1;
    }
    object(&p)
}

fn sound_text(s: &StartSound) -> (r: String)
    ensures
        r@ == sound_js(*s),
{
    let mut p: Vec<(String, String)> = Vec::new();
    p.push((text("character"), nat_string(s.sound_id as u64)));
    let restart = if s.sync_no_multiple {
        text("true")
    } else {
        text("false")
    };
    p.push((text("no_restart"), restart));
    let loops = match s.loop_count {
        Some(c) => nat_string(c as u64),
        None => text("null"),
    };
    p.push((text("loops"), loops));
    proof {
        assert(prop_views(p@) =~= seq![
            ("character"@, nat_text(s.sound_id as nat)),
            ("no_restart"@, if s.sync_no_multiple {
                "true"@
            } else {
                "false"@
            }),
            ("loops"@, match s.loop_count {
                Some(c) => nat_text(c as nat),
                None => "null"@,
            }),
        ]);
    }
    object(&p)
}

fn sound_list_text(list: &Vec<StartSound>) -> (r: String)
    ensures
        r@ == sound_list_js(list@),
{
    let mut v: Vec<String> = Vec::new();
    let mut i: usize = 0;
    while i < list.len()
        invariant
            i <= list@.len(),
            views(v@) =~= Seq::new(i as nat, |j: int| sound_js(list@[j])),
        decreases list@.len() - i,
    {
        let ghost before = v@;
        let e = sound_text(&list[i]);
        v.push(e);
        proof {
            assert(views(v@) =~= views(before).push(e@));
        }
        i += 1;
    }
    array(&v)
}

fn sounds_text(t: &Timeline) -> (r: String)
    requires
        t.wf(),
    ensures
        r@ == sounds_js(*t),
{
    let last = last_key_of(&t.sounds);
    let mut v: Vec<String> = Vec::new();
    let mut f: u32 = 0;
    while f <= last
        invariant
            last <= 65535,
            f <= last + 1,
            t.wf(),
            views(v@) =~= Seq::new(f as nat, |x: int| sound_slot_js(*t, x)),
        decreases last + 1 - f,
    {
        let e = match t.sounds.get(f as u16) {
            Some(list) => sound_list_text(list),
            None => String::new(),
        };
        let ghost before = v@;
        v.push(e);
        proof {
            assert(views(v@) =~= views(before).push(e@));
        }
        f += 1;
    }
    array(&v)
}

fn stream_text(t: &Timeline) -> (r: String)
    ensures
        r@ == stream_js(*t),
{
    match &t.sound_stream {
        Some(s) => {
            let mut p: Vec<(String, String)> = Vec::new();
            p.push((text("start"), nat_string(s.start.0 as u64)));
            p.push((text("sound"), export_mp3(s.mp3.as_slice()).0));
            proof {
                assert(prop_views(p@) =~= seq![
                    ("start"@, nat_text(s.start.0 as nat)),
                    ("sound"@, "new Audio('data:audio/mpeg;base64,"@ + base64_of(s.mp3@) + "')"@),
                ]);
            }
            object(&p)
        },
        None => text("null"),
    }
}

/// The timeline as the runtime's data object (see `timeline_js`).
pub fn export(t: &Timeline) -> (r: crate::js::Code)
    requires
        t.wf(),
    ensures
        r.0@ == timeline_js(*t),
{
    let mut p: Vec<(String, String)> = Vec::new();
    p.push((text("layers"), layers_text(t)));
    p.push((text("actions"), actions_text(t)));
    p.push((text("labels"), labels_text(t)));
    p.push((text("sounds"), sounds_text(t)));
    p.push((text("sound_stream"), stream_text(t)));
    p.push((text("frame_count"), nat_string(t.frame_count.0 as u64)));
    proof {
        assert(prop_views(p@) =~= seq![
            ("layers"@, layers_js(*t)),
            ("actions"@, actions_js(*t)),
            ("labels"@, labels_js(*t)),
            ("sounds"@, sounds_js(*t)),
            ("sound_stream"@, stream_js(*t)),
            ("frame_count"@, nat_text(t.frame_count.0 as nat)),
        ]);
    }
    crate::js::Code(object(&p))
}

} // verus!
