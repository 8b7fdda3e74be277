use flashback::avm1::{Action, Op, PushValue};
use flashback::bitmap::{Bitmap, Pixel};
use flashback::button::{Button, ButtonCond, ButtonCondAction, ButtonRecord, DefineButton, Event};
use flashback::dictionary::{Character, CharacterId, Dictionary, DynamicText};
use flashback::geom::{ColorTransformWithAlpha, Matrix};
use flashback::keymap::KeyMap;
use flashback::sound::{AudioFormat, DefineSound, Mp3, Mp3StreamBlock, Sound, SoundRate};
use flashback::timeline::Object;

fn cond() -> ButtonCond {
    ButtonCond {
        idle_to_over_up: false,
        over_up_to_idle: false,
        over_up_to_over_down: false,
        over_down_to_over_up: false,
        over_down_to_out_down: false,
        out_down_to_over_down: false,
        out_down_to_idle: false,
        idle_to_over_down: false,
        over_down_to_idle: false,
        key_press: None,
    }
}

fn record(character_id: u16, depth: u16, up: bool, over: bool, down: bool, hit: bool) -> ButtonRecord {
    ButtonRecord {
        state_up: up,
        state_over: over,
        state_down: down,
        state_hit_test: hit,
        character_id,
        depth,
        matrix: Matrix::identity(),
        color_transform: ColorTransformWithAlpha::identity(),
    }
}

#[test]
fn button_assembly() {
    let mut c = cond();
    c.over_up_to_over_down = true;
    c.key_press = Some(13);
    let def = DefineButton {
        id: 2,
        records: vec![record(7, 1, true, true, false, false)],
        actions: vec![ButtonCondAction { conditions: c, actions: vec![Action::Play] }],
    };
    let b = Button::from_def(&def);
    let expected = Object::new(CharacterId(7));
    assert_eq!(b.objects.up.get(1), Some(&expected));
    assert_eq!(b.objects.over.get(1), Some(&expected));
    assert!(b.objects.down.entries.is_empty());
    assert!(b.objects.hit_test.entries.is_empty());
    assert_eq!(b.handlers.len(), 1);
    assert_eq!(b.handlers[0].on, vec![Event::Down, Event::KeyPress(13)]);
    assert_eq!(b.handlers[0].actions.ops, vec![Op::Play]);
}

#[test]
fn button_events_in_order_and_later_records_win() {
    let mut all = cond();
    all.idle_to_over_up = true;
    all.over_up_to_idle = true;
    all.over_down_to_over_up = true;
    all.over_down_to_out_down = true;
    all.out_down_to_over_down = true;
    all.out_down_to_idle = true;
    all.idle_to_over_down = true;
    all.over_down_to_idle = true;
    all.key_press = Some(256);
    let def = DefineButton {
        id: 3,
        records: vec![record(1, 4, false, false, true, true), record(9, 4, false, false, false, true)],
        actions: vec![
            ButtonCondAction { conditions: all, actions: vec![] },
            ButtonCondAction {
                conditions: cond(),
                actions: vec![Action::Push(vec![PushValue::String("s".to_string())]), Action::GetVariable],
            },
        ],
    };
    let b = Button::from_def(&def);
    assert_eq!(
        b.handlers[0].on,
        vec![
            Event::HoverIn,
            Event::HoverOut,
            Event::Up,
            Event::DragOut,
            Event::DragIn,
            Event::UpOut,
            Event::DownIn,
            Event::DownOut,
        ]
    );
    assert!(b.handlers[1].on.is_empty());
    assert_eq!(b.handlers[1].actions.ops, vec![Op::GetVar("s".to_string())]);
    assert_eq!(b.objects.down.get(4).unwrap().character, CharacterId(1));
    assert_eq!(b.objects.hit_test.get(4).unwrap().character, CharacterId(9));
}

#[test]
fn dictionary_rejects_a_second_definition() {
    let mut d = Dictionary::new();
    let text = DynamicText { text: Some("hi".to_string()), font_size: Some(240), color: None };
    assert!(!d.is_defined(CharacterId(4)));
    d.define(CharacterId(4), Character::DynamicText(text));
    // A second definition of id 4 is ruled out: the id reads as taken.
    assert!(d.is_defined(CharacterId(4)));
    match d.get(CharacterId(4)) {
        Some(Character::DynamicText(t)) => assert_eq!(t.text, Some("hi".to_string())),
        _ => panic!("character 4 lost"),
    }
    let bitmap = Bitmap {
        width: 1,
        height: 1,
        has_alpha: false,
        rows: vec![vec![Pixel { r: 1, g: 2, b: 3, a: 255 }]],
    };
    d.define(CharacterId(2), Character::Bitmap(bitmap));
    assert!(d.get(CharacterId(3)).is_none());
    let ids: Vec<u16> = d.characters.entries.iter().map(|(k, _)| *k).collect();
    assert_eq!(ids, vec![2, 4]);
}

#[test]
fn key_map_keeps_keys_sorted() {
    let mut m: KeyMap<&str> = KeyMap::new();
    m.insert(5, "five");
    m.insert(1, "one");
    m.insert(9, "nine");
    m.insert(5, "FIVE");
    let keys: Vec<u16> = m.entries.iter().map(|(k, _)| *k).collect();
    assert_eq!(keys, vec![1, 5, 9]);
    assert_eq!(m.get(5), Some(&"FIVE"));
    assert_eq!(m.find(7), Err(2));
    assert_eq!(m.find(9), Ok(2));
    assert_eq!(m.last_at_or_before(6), Some(1));
    assert_eq!(m.last_at_or_before(0), None);
    assert_eq!(m.take(1), Some("one"));
    assert_eq!(m.take(1), None);
    assert_eq!(m.entries.len(), 2);
}

#[test]
fn mp3_framing() {
    let mp3 = Mp3::parse(&[0x34, 0x12, 9, 8]);
    assert_eq!(mp3, Mp3 { seek_samples: 0x1234, data: vec![9, 8] });
    let block = Mp3StreamBlock::parse(&[0x00, 0x01, 0x02, 0x00, 7]);
    assert_eq!(block.samples, 256);
    assert_eq!(block.mp3.seek_samples, 2);
    assert_eq!(block.mp3.data, vec![7]);
}

#[test]
fn sound_definitions() {
    let def = DefineSound {
        id: 1,
        stereo: true,
        sound_rate: SoundRate::Khz44,
        format: AudioFormat::Mp3,
        sample_count: 1000,
        data: vec![0, 0, 0xff, 0xfb],
    };
    let s = Sound::from_def(&def).unwrap();
    assert!(s.stereo);
    assert_eq!(s.samples, 1000);
    assert_eq!(s.mp3.unwrap().data, vec![0xff, 0xfb]);
    let short = DefineSound { data: vec![0], ..def.clone() };
    assert!(Sound::from_def(&short).is_none());
    let other = DefineSound { format: AudioFormat::Other, data: vec![], ..def };
    assert!(Sound::from_def(&other).unwrap().mp3.is_none());
}
