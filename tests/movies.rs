use flashback::dictionary::{Character, DynamicText};
use flashback::movie::{MovieBuilder, MovieError, MovieTag};
use flashback::shape::Rgba;
use flashback::timeline::{BuildError, Frame, PlaceObject, RemoveObject, TimelineEvent};

fn text() -> Character<'static> {
    Character::DynamicText(DynamicText { text: None, font_size: None, color: None })
}

#[test]
fn movie_tags_in_order() {
    let mut m = MovieBuilder::new();
    assert_eq!(m.background, Rgba { r: 0, g: 0, b: 0, a: 255 });
    m.feed(MovieTag::SetBackgroundColor(Rgba { r: 1, g: 2, b: 3, a: 255 })).unwrap();
    m.feed(MovieTag::SetBackgroundColor(Rgba { r: 9, g: 9, b: 9, a: 255 })).unwrap();
    assert_eq!(m.feed(MovieTag::Define(4, text())), Ok(()));
    assert_eq!(m.feed(MovieTag::Define(4, text())), Err(MovieError::AlreadyDefined(4)));
    let place = PlaceObject {
        depth: 1,
        character_id: Some(4),
        is_update: false,
        matrix: None,
        name: None,
        color_transform: None,
        ratio: None,
    };
    assert_eq!(m.feed(MovieTag::Event(TimelineEvent::PlaceObject(place))), Ok(()));
    assert_eq!(
        m.feed(MovieTag::Event(TimelineEvent::RemoveObject(RemoveObject { depth: 2 }))),
        Err(MovieError::Timeline(BuildError::NoLayer))
    );
    m.feed(MovieTag::Event(TimelineEvent::ShowFrame)).unwrap();
    let (d, t, bg) = m.finish(Frame(5));
    assert_eq!(bg, Rgba { r: 9, g: 9, b: 9, a: 255 });
    assert_eq!(d.characters.entries.len(), 1);
    assert_eq!(t.frame_count, Frame(5));
    assert!(t.layers.get(1).is_some());
}
