use flashback::animate::{
    CharacterUseHref, Decomposed, Emission, ObjectAnimation, Scale, Translation, ONE_BITS,
    ZERO_BITS,
};
use flashback::avm1::{Action, Op, PushValue};
use flashback::dictionary::CharacterId;
use flashback::geom::{ColorTransformWithAlpha, Matrix};
use flashback::sound::AudioFormat;
use flashback::timeline::{
    BuildError, Frame, FrameLabel, Layer, Object, PlaceObject, TimelineEvent, RemoveObject, SoundStreamBlock,
    SoundStreamHead, StartSound, TimelineBuilder, TimelineError,
};

fn place(depth: u16, character: Option<u16>) -> PlaceObject {
    PlaceObject {
        depth,
        character_id: character,
        is_update: false,
        matrix: None,
        name: None,
        color_transform: None,
        ratio: None,
    }
}

fn translation(x: i32, y: i32) -> Matrix {
    Matrix { translate_x: x, translate_y: y, ..Matrix::identity() }
}

fn identity_transform() -> Decomposed {
    Decomposed { scale_x: ONE_BITS, scale_y: ONE_BITS, skew_y: ZERO_BITS, rotate: ZERO_BITS }
}

fn feed(layer: &Layer, anim: &mut ObjectAnimation) {
    for (frame, obj) in &layer.frames.entries {
        anim.add(Frame(*frame), obj.as_ref().map(|o| (o, identity_transform())));
    }
}

#[test]
fn static_placement_then_removal() {
    let mut b = TimelineBuilder::new();
    let mut p = place(5, Some(1));
    p.matrix = Some(Matrix::identity());
    assert_eq!(b.place_object(&p), Ok(()));
    for _ in 0..10 {
        b.advance_frame();
    }
    b.remove_object(&RemoveObject { depth: 5 });
    assert_eq!(b.current_frame(), Frame(10));
    let t = b.finish(Frame(20));
    assert_eq!(t.frame_count, Frame(20));
    let layer = t.layers.get(5).unwrap();
    assert_eq!(layer.frames.entries.len(), 2);
    assert_eq!(layer.frames.entries[0], (0, Some(Object::new(CharacterId(1)))));
    assert_eq!(layer.frames.entries[1], (10, None));

    let mut anim = ObjectAnimation::new("d_5_".to_string(), t.frame_count);
    feed(layer, &mut anim);
    assert_eq!(
        anim.character.keys,
        vec![
            (Frame(0), CharacterUseHref(Some(CharacterId(1)))),
            (Frame(10), CharacterUseHref(None)),
        ]
    );
    assert_eq!(anim.character.emission(), Emission::Animated);
    let (f, _) = anim.character.keys[1];
    assert_eq!(f.0 as f64 / anim.character.frame_count.0 as f64, 0.5);
    assert_eq!(anim.translate.emission(), Emission::Omitted);
    assert_eq!(anim.scale.emission(), Emission::Omitted);
}

#[test]
fn pure_translation_animation() {
    let mut b = TimelineBuilder::new();
    let mut p = place(1, Some(3));
    p.matrix = Some(translation(0, 0));
    b.place_object(&p).unwrap();
    for _ in 0..30 {
        b.advance_frame();
    }
    let mut mv = place(1, None);
    mv.matrix = Some(translation(100, 0));
    b.place_object(&mv).unwrap();
    let t = b.finish(Frame(60));
    let layer = t.layers.get(1).unwrap();
    let mut anim = ObjectAnimation::new(String::new(), t.frame_count);
    feed(layer, &mut anim);
    assert_eq!(
        anim.translate.keys,
        vec![(Frame(0), Translation { x: 0, y: 0 }), (Frame(30), Translation { x: 100, y: 0 })]
    );
    let times: Vec<f64> = anim.translate.keys.iter().map(|(f, _)| f.0 as f64 / 60.0).collect();
    assert_eq!(times, vec![0.0, 0.5]);
    assert_eq!(anim.translate.emission(), Emission::Animated);
    assert_eq!(
        anim.character.emission(),
        Emission::Static(CharacterUseHref(Some(CharacterId(3))))
    );
    assert_eq!(anim.rotate.emission(), Emission::Omitted);
}

#[test]
fn carry_forward_and_layer_queries() {
    let mut b = TimelineBuilder::new();
    let mut p = place(2, Some(4));
    p.name = Some("hero".to_string());
    p.ratio = Some(3);
    b.place_object(&p).unwrap();
    b.advance_frame();
    b.advance_frame();
    let mut m = place(2, None);
    m.matrix = Some(translation(7, 8));
    b.place_object(&m).unwrap();
    let mut again = place(2, None);
    again.color_transform = Some(ColorTransformWithAlpha { red_add: 5, ..ColorTransformWithAlpha::identity() });
    b.place_object(&again).unwrap();
    let t = b.finish(Frame(3));
    let layer = t.layers.get(2).unwrap();
    assert_eq!(layer.frames.entries.len(), 2);
    let at2 = layer.value_at(Frame(2)).unwrap();
    assert_eq!(at2.name, Some("hero".to_string()));
    assert_eq!(at2.ratio, Some(3));
    assert_eq!(at2.matrix, translation(7, 8));
    assert_eq!(at2.color_transform.red_add, 5);
    let at1 = layer.value_at(Frame(1)).unwrap();
    assert_eq!(at1.matrix, Matrix::identity());
    assert_eq!(layer.value_at(Frame(0)), layer.value_at(Frame(1)));
    assert_eq!(layer.value_at(Frame(500)), Some(at2));
}

#[test]
fn removed_then_placed_again() {
    let mut b = TimelineBuilder::new();
    b.place_object(&place(1, Some(1))).unwrap();
    b.advance_frame();
    b.remove_object(&RemoveObject { depth: 1 });
    b.advance_frame();
    assert_eq!(b.place_object(&place(1, None)), Err(TimelineError::MissingCharacter));
    b.place_object(&place(1, Some(2))).unwrap();
    let t = b.finish(Frame(3));
    let layer = t.layers.get(1).unwrap();
    assert_eq!(layer.value_at(Frame(1)), None);
    assert_eq!(layer.value_at(Frame(2)).unwrap().character, CharacterId(2));
}

#[test]
fn placement_errors() {
    let mut b = TimelineBuilder::new();
    assert_eq!(b.place_object(&place(1, None)), Err(TimelineError::MissingCharacter));
    assert!(b.timeline.layers.entries.is_empty());
    b.place_object(&place(1, Some(1))).unwrap();
    assert_eq!(b.shown(1).unwrap().character, CharacterId(1));
    assert!(b.shown(2).is_none());
    let mut update = place(1, Some(2));
    update.is_update = true;
    assert_eq!(b.place_object(&update), Ok(()));
    assert!(b.timeline.layers.get(9).is_none());
    let layer = b.timeline.layers.get(1).unwrap();
    assert_eq!(layer.value_at(Frame(0)).unwrap().character, CharacterId(2));
}

#[test]
fn actions_labels_and_sounds() {
    let mut b = TimelineBuilder::new();
    b.do_action(vec![Action::Stop]);
    b.do_action(vec![Action::Push(vec![PushValue::Sint32(1)]), Action::Play]);
    b.frame_label(FrameLabel { name: "intro".to_string(), is_anchor: false });
    b.advance_frame();
    b.frame_label(FrameLabel { name: "main".to_string(), is_anchor: false });
    b.frame_label(FrameLabel { name: "intro".to_string(), is_anchor: true });
    b.start_sound(StartSound { sound_id: 3, sync_no_multiple: true, loop_count: Some(2) });
    let t = b.finish(Frame(2));
    let codes = t.actions.get(0).unwrap();
    assert_eq!(codes.len(), 2);
    assert_eq!(codes[0].ops, vec![Op::Stop]);
    assert_eq!(codes[1].ops, vec![Op::Play]);
    assert_eq!(
        t.labels,
        vec![("intro".to_string(), Frame(1)), ("main".to_string(), Frame(1))]
    );
    assert_eq!(t.sounds.get(1).unwrap()[0].sound_id, 3);
    let mut b = TimelineBuilder::new();
    for name in ["zeta", "alpha", "Beta", "alp"] {
        b.frame_label(FrameLabel { name: name.to_string(), is_anchor: false });
        b.advance_frame();
    }
    let names: Vec<&str> = b.timeline.labels.iter().map(|(n, _)| n.as_str()).collect();
    assert_eq!(names, vec!["Beta", "alp", "alpha", "zeta"]);
    assert_eq!(b.timeline.labels[0].1, Frame(2));
    assert!(t.sounds.get(0).is_none());
}

#[test]
fn sound_stream_head_and_blocks() {
    let mut b = TimelineBuilder::new();
    assert_eq!(b.sound_stream_block(&SoundStreamBlock { data: vec![1, 2, 3, 4, 5] }), Ok(()));
    assert!(b.timeline.sound_stream.is_none());
    b.advance_frame();
    b.sound_stream_head(&SoundStreamHead { stream_format: AudioFormat::Mp3 });
    assert!(b.timeline.sound_stream.is_some());
    b.sound_stream_block(&SoundStreamBlock { data: vec![1, 0, 0, 0, 0xaa, 0xbb] }).unwrap();
    b.sound_stream_block(&SoundStreamBlock { data: vec![1, 0, 0, 0, 0xcc] }).unwrap();
    assert_eq!(
        b.sound_stream_block(&SoundStreamBlock { data: vec![1, 0, 0] }),
        Err(TimelineError::ShortSoundBlock)
    );
    let t = b.finish(Frame(1));
    let s = t.sound_stream.unwrap();
    assert_eq!(s.start, Frame(1));
    assert_eq!(s.mp3, vec![0xaa, 0xbb, 0xcc]);

    let mut other = TimelineBuilder::new();
    other.sound_stream_head(&SoundStreamHead { stream_format: AudioFormat::Other });
    other.sound_stream_block(&SoundStreamBlock { data: vec![1, 0, 0, 0, 9] }).unwrap();
    assert!(other.timeline.sound_stream.unwrap().mp3.is_empty());
}

#[test]
fn animation_tracks_follow_the_rules() {
    let mut anim = ObjectAnimation::new(String::new(), Frame(10));
    let obj = Object::new(CharacterId(8));
    anim.add(Frame(0), Some((&obj, identity_transform())));
    assert_eq!(anim.character.emission(), Emission::Static(CharacterUseHref(Some(CharacterId(8)))));
    let before = anim.character.keys.clone();
    anim.add(Frame(4), Some((&obj, identity_transform())));
    assert_eq!(anim.character.keys, before);
    assert_eq!(anim.scale.emission(), Emission::Omitted);
    let rotated = Decomposed { rotate: 90.0f64.to_bits(), ..identity_transform() };
    anim.add(Frame(5), Some((&obj, rotated)));
    assert_eq!(anim.rotate.keys, vec![(Frame(0), ZERO_BITS), (Frame(5), 90.0f64.to_bits())]);
    assert_eq!(anim.scale.keys, vec![]);
    anim.add(Frame(6), None);
    assert_eq!(anim.character.keys.len(), 2);
    assert_eq!(anim.rotate.keys.len(), 2);
    let half = Decomposed { scale_x: 0.5f64.to_bits(), ..identity_transform() };
    anim.add(Frame(0), Some((&obj, half)));
    assert_eq!(anim.scale.emission(), Emission::Static(Scale { x: 0.5f64.to_bits(), y: ONE_BITS }));
}

#[test]
fn events_refuse_structural_violations() {
    let mut b = TimelineBuilder::new();
    assert_eq!(b.apply(TimelineEvent::RemoveObject(RemoveObject { depth: 3 })), Err(BuildError::NoLayer));
    assert_eq!(b.apply(TimelineEvent::PlaceObject(place(3, None))), Err(BuildError::MissingCharacter));
    assert_eq!(b.apply(TimelineEvent::PlaceObject(place(3, Some(1)))), Ok(()));
    assert_eq!(b.apply(TimelineEvent::PlaceObject(place(3, Some(2)))), Err(BuildError::CharacterMismatch));
    assert_eq!(b.shown(3).unwrap().character, CharacterId(1));
    let head = SoundStreamHead { stream_format: AudioFormat::Mp3 };
    assert_eq!(b.apply(TimelineEvent::SoundStreamHead(head)), Ok(()));
    assert_eq!(b.apply(TimelineEvent::SoundStreamHead(head)), Err(BuildError::DuplicateSoundStream));
    assert_eq!(
        b.apply(TimelineEvent::SoundStreamBlock(SoundStreamBlock { data: vec![0, 0] })),
        Err(BuildError::ShortSoundBlock)
    );
    assert_eq!(b.apply(TimelineEvent::ShowFrame), Ok(()));
    assert_eq!(b.apply(TimelineEvent::RemoveObject(RemoveObject { depth: 3 })), Ok(()));
    assert_eq!(b.apply(TimelineEvent::DoAction(vec![Action::Play])), Ok(()));
    assert_eq!(b.current_frame(), Frame(1));
    b.current_frame = Frame(u16::MAX);
    assert_eq!(b.apply(TimelineEvent::ShowFrame), Err(BuildError::TooManyFrames));
}
