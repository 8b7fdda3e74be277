use flashback::animate::{Decomposed, ObjectAnimation, ONE_BITS, ZERO_BITS};
use flashback::avm1::{Code, Op};
use flashback::bitmap::{Bitmap, Pixel};
use flashback::button::{dispatch_table, Event, EventHandler};
use flashback::dictionary::{Character, CharacterId, DynamicText};
use flashback::emit::character_defs;
use flashback::sound::{Mp3, Sound, SoundRate};
use flashback::document::{view_box, ViewBox};
use flashback::emit::{
    bitmap_tree, button_js, button_tree, document_tree, empty_tree, fill_text, layer_prefix,
    scripted_body, shape_tree, sound_js, state_prefix, text_tree, timeline_tree,
};
use flashback::geom::{Matrix, Point};
use flashback::js;
use flashback::shape::{
    ColorStop, DefineShape, Edge, FillStyle, Rect, Rgba, Shape, ShapeRecord, ShapeStyles,
    StyleChange,
};
use flashback::svg::{object_tree, Piece, SvgEvent};
use flashback::timeline::{Frame, Object, TimelineBuilder};

fn piece(p: &Piece) -> String {
    match p {
        Piece::Text(s) => s.clone(),
        Piece::Float(b) => format!("{}", f64::from_bits(*b)),
        Piece::Ratio(n, d) => format!("{}", *n as f64 / *d as f64),
    }
}

/// The events written as markup: attributes in order, children inside.
fn render(events: &[SvgEvent]) -> String {
    let mut out = String::new();
    let mut open_tag = false;
    let mut names: Vec<String> = vec![];
    for e in events {
        match e {
            SvgEvent::Open(n) => {
                if open_tag {
                    out.push('>');
                }
                out += &format!("<{}", n);
                names.push(n.clone());
                open_tag = true;
            }
            SvgEvent::Attr(n, v) => {
                let value: String = v.iter().map(piece).collect();
                out += &format!(" {}=\"{}\"", n, value);
            }
            SvgEvent::Text(t) => {
                if open_tag {
                    out.push('>');
                    open_tag = false;
                }
                out += t;
            }
            SvgEvent::Close => {
                let n = names.pop().unwrap();
                if open_tag {
                    out += "/>";
                    open_tag = false;
                } else {
                    out += &format!("</{}>", n);
                }
            }
        }
    }
    out
}

fn identity() -> Decomposed {
    Decomposed { scale_x: ONE_BITS, scale_y: ONE_BITS, skew_y: ZERO_BITS, rotate: ZERO_BITS }
}

fn red() -> Rgba {
    Rgba { r: 0xff, g: 0, b: 0, a: 0xff }
}

fn triangle_def(fill: FillStyle) -> DefineShape {
    let edge = |x, y| ShapeRecord::Edge(Edge { delta: Point { x, y }, control_delta: None });
    DefineShape {
        id: 3,
        bounds: Rect { x_min: 0, x_max: 100, y_min: 0, y_max: 87 },
        initial_styles: ShapeStyles { fill: vec![fill], line: vec![] },
        records: vec![
            ShapeRecord::StyleChange(StyleChange {
                move_to: Some(Point { x: 0, y: 0 }),
                left_fill: None,
                right_fill: Some(1),
                line_style: None,
                new_styles: None,
            }),
            edge(100, 0),
            edge(-50, 87),
            edge(-50, -87),
        ],
    }
}

#[test]
fn empty_shape_is_an_empty_group() {
    let def = DefineShape {
        id: 5,
        bounds: Rect { x_min: 0, x_max: 0, y_min: 0, y_max: 0 },
        initial_styles: ShapeStyles { fill: vec![], line: vec![] },
        records: vec![],
    };
    let shape = Shape::from_def(&def);
    let (events, next) = shape_tree(5, &shape, 0);
    assert_eq!(render(&events), "<g id=\"c_5\"/>");
    assert_eq!(next, 0);
    assert_eq!(render(&empty_tree(9)), "<g id=\"c_9\"/>");
}

#[test]
fn solid_triangle_path() {
    let def = triangle_def(FillStyle::Solid(red()));
    let shape = Shape::from_def(&def);
    let (events, _) = shape_tree(3, &shape, 0);
    assert_eq!(
        render(&events),
        "<g id=\"c_3\"><path fill=\"#ff0000\" fill-rule=\"evenodd\" d=\"M0,0 L100,0 L50,87 Z\"/></g>"
    );
}

#[test]
fn gradients_are_numbered_in_turn() {
    let stops = vec![
        ColorStop { ratio: 0, color: red() },
        ColorStop { ratio: 255, color: Rgba { r: 0, g: 0, b: 0xff, a: 0x80 } },
    ];
    let (text, defs, next) = fill_text(&FillStyle::LinearGradient(stops.clone()), 4);
    assert_eq!(text, "url(#grad_4)");
    assert_eq!(next, 5);
    assert_eq!(
        render(&defs),
        "<linearGradient id=\"grad_4\"><stop offset=\"0%\" stop-color=\"#ff0000\"/>\
         <stop offset=\"100%\" stop-color=\"rgba(0, 0, 255, 128)\"/></linearGradient>"
    );
    let (text, defs, next) = fill_text(&FillStyle::Bitmap(7), 4);
    assert_eq!((text.as_str(), defs.len(), next), ("url(#pat_7)", 0, 4));
    let (text, _, next) = fill_text(&FillStyle::FocalGradient(stops), 4);
    assert_eq!((text.as_str(), next), ("#ff00ff", 4));
    let def = triangle_def(FillStyle::RadialGradient(vec![]));
    let shape = Shape::from_def(&def);
    let (events, next) = shape_tree(3, &shape, 2);
    assert_eq!(next, 3);
    assert!(render(&events).starts_with("<radialGradient id=\"grad_2\"/><g id=\"c_3\"><path fill=\"url(#grad_2)\""));
}

#[test]
fn placement_then_removal_switches_href() {
    let mut anim = ObjectAnimation::new(layer_prefix(None, 5), Frame(20));
    let obj = Object::new(CharacterId(1));
    anim.add(Frame(0), Some((&obj, identity())));
    anim.add(Frame(10), None);
    assert_eq!(anim.id_prefix, "d_5_");
    assert_eq!(
        render(&object_tree(&anim, (20 * 256, 10 * 256))),
        "<g><use><animate attributeName=\"href\" keyTimes=\"0;0.5\" values=\"#c_1;#\" \
         calcMode=\"discrete\" repeatCount=\"indefinite\" dur=\"2\"/></use></g>"
    );
}

#[test]
fn translation_wraps_the_group() {
    let mut anim = ObjectAnimation::new(String::new(), Frame(60));
    let mut obj = Object::new(CharacterId(1));
    anim.add(Frame(0), Some((&obj, identity())));
    obj.matrix = Matrix { translate_x: 100, ..Matrix::identity() };
    anim.add(Frame(30), Some((&obj, identity())));
    assert_eq!(
        render(&object_tree(&anim, (60, 1))),
        "<g><g><use href=\"#c_1\"/></g><animateTransform attributeName=\"transform\" type=\"translate\" \
         keyTimes=\"0;0.5\" values=\"0,0;100,0\" calcMode=\"discrete\" repeatCount=\"indefinite\" dur=\"60\"/></g>"
    );
}

#[test]
fn static_transforms_and_color_filter() {
    let mut anim = ObjectAnimation::new(state_prefix(2, "_over", 1), Frame(1));
    let mut obj = Object::new(CharacterId(7));
    obj.color_transform.red_add = 51;
    let t = Decomposed { scale_x: 2.0f64.to_bits(), rotate: 90.0f64.to_bits(), ..identity() };
    anim.add(Frame(0), Some((&obj, t)));
    assert_eq!(
        render(&object_tree(&anim, (1, 1))),
        "<g transform=\"rotate(90)\"><g transform=\"scale(2,1)\"><g>\
         <filter id=\"c_2_over_d_1_filter\" x=\"0\" y=\"0\" width=\"1\" height=\"1\">\
         <feColorMatrix values=\"1 0 0 0 0.2 0 1 0 0 0 0 0 1 0 0 0 0 0 1 0\"/></filter>\
         <use href=\"#c_7\" filter=\"url(#c_2_over_d_1_filter)\"/></g></g></g>"
    );
}

#[test]
fn timeline_and_button_groups() {
    let mut anim = ObjectAnimation::new(layer_prefix(Some(4), 1), Frame(1));
    anim.add(Frame(0), Some((&Object::new(CharacterId(2)), identity())));
    assert_eq!(anim.id_prefix, "c_4_d_1_");
    let anims = vec![anim];
    assert_eq!(
        render(&timeline_tree(Some(4), false, &anims, (1, 1))),
        "<g id=\"c_4\"><g><use href=\"#c_2\"/></g></g>"
    );
    assert_eq!(
        render(&timeline_tree(None, true, &vec![], (1, 1))),
        "<g clip-path=\"url(#viewBox_clip)\"/>"
    );
    let none: Vec<ObjectAnimation> = vec![];
    assert_eq!(
        render(&button_tree(8, &anims, &none, &none, &none)),
        "<g id=\"c_8\"><g><use href=\"#c_2\"/></g></g><g id=\"c_8_over\"/><g id=\"c_8_down\"/><g id=\"c_8_hit_test\"/>"
    );
}

#[test]
fn text_and_bitmap_definitions() {
    let t = DynamicText { text: Some("hi".to_string()), font_size: Some(240), color: Some(red()) };
    assert_eq!(
        render(&text_tree(6, &t)),
        "<g id=\"c_6\"><text font-size=\"240\" fill=\"#ff0000\">hi</text></g>"
    );
    let b = Bitmap { width: 1, height: 1, has_alpha: false, rows: vec![vec![Pixel { r: 1, g: 2, b: 3, a: 255 }]] };
    let text = render(&bitmap_tree(9, &b));
    assert!(text.starts_with(
        "<g id=\"c_9\"><pattern id=\"pat_9\" width=\"1\" height=\"1\"><image xlink:href=\"data:image/png;base64,iVBORw0KGgo"
    ));
    assert!(text.ends_with("\" width=\"20\" height=\"20\"/></pattern></g>"));
    let empty = Bitmap { width: 0, height: 3, has_alpha: true, rows: vec![vec![], vec![], vec![]] };
    assert_eq!(
        render(&bitmap_tree(4, &empty)),
        "<g id=\"c_4\"><pattern id=\"pat_4\" width=\"1\" height=\"1\"/></g>"
    );
}

#[test]
fn document_skeleton() {
    let vb: ViewBox = view_box(Rect { x_min: 0, x_max: 200, y_min: 10, y_max: 110 });
    let events = document_tree(vb, Rgba { r: 1, g: 2, b: 3, a: 255 }, empty_tree(1), vec![]);
    assert_eq!(
        render(&events),
        "<svg xmlns:xlink=\"http://www.w3.org/1999/xlink\" viewBox=\"0 10 200 100\" style=\"background: black\">\
         <rect id=\"bg\" width=\"100%\" height=\"100%\" fill=\"#010203\"/>\
         <defs><clipPath id=\"viewBox_clip\"><rect x=\"0\" y=\"10\" width=\"200\" height=\"100\"/></clipPath>\
         <g id=\"c_1\"/></defs></svg>"
    );
    let t = TimelineBuilder::new().finish(Frame(1));
    let body = render(&scripted_body(&t, &"var x;\n".to_string(), 6144));
    assert!(body.starts_with("<g id=\"body\" clip-path=\"url(#viewBox_clip)\"/><script>// <![CDATA[\nvar timeline = {"));
    assert!(body.ends_with("var buttons = [];\nvar x;\nvar frame_rate = 24;\n\n\n// ]]>\n</script>"));
}

#[test]
fn runtime_entries() {
    assert_eq!(sound_js(3, &[1, 2, 3]), "sounds[3] = new Audio('data:audio/mpeg;base64,AQID');\n");
    let hs = vec![
        EventHandler { on: vec![Event::Down, Event::KeyPress(13)], actions: Code { ops: vec![Op::Play] } },
        EventHandler { on: vec![Event::Down], actions: Code { ops: vec![Op::Stop] } },
    ];
    let table = dispatch_table(&hs);
    assert_eq!(table, vec![(Event::Down, vec![0, 1]), (Event::KeyPress(13), vec![0])]);
    assert_eq!(
        button_js(2, &hs, &table),
        "buttons[2] = {\n    mouse: {},\n    keyPress: [],\n};\n\
         buttons[2].mouse.down = function(global, local) {\n    local.this.play();\n    local.this.stop();\n};\n\
         buttons[2].keyPress[13] = function(global, local) {\n    local.this.play();\n};\n"
    );
    let f = js::Code("f".to_string());
    let args = vec![js::Code("1".to_string()), js::Code("x".to_string())];
    assert_eq!(js::call(&f, &args).0, "f(1, x)");
    assert_eq!(js::call(&f, &vec![]).0, "f()");
}

#[test]
fn character_definitions_by_kind() {
    let t = DynamicText { text: None, font_size: None, color: None };
    let (e, js, next) = character_defs(2, &Character::DynamicText(t), true, 7, &vec![], 6144);
    assert_eq!((render(&e).as_str(), js.as_str(), next), ("<g id=\"c_2\"><text></text></g>", "", 7));
    let sound = Sound {
        sample_rate: SoundRate::Khz44,
        stereo: false,
        samples: 1,
        mp3: Some(Mp3 { seek_samples: 0, data: vec![1, 2, 3] }),
    };
    let (e, js, _) = character_defs(5, &Character::Sound(sound.clone()), true, 0, &vec![], 6144);
    assert!(e.is_empty());
    assert_eq!(js, "sounds[5] = new Audio('data:audio/mpeg;base64,AQID');\n");
    let (e, js, _) = character_defs(5, &Character::Sound(sound), false, 0, &vec![], 6144);
    assert_eq!((render(&e).as_str(), js.as_str()), ("<g id=\"c_5\"/>", ""));
    let sprite = TimelineBuilder::new().finish(Frame(48));
    let (e, _, _) = character_defs(6, &Character::Sprite(sprite), false, 0, &vec![vec![]], 6144);
    assert_eq!(render(&e), "<g id=\"c_6\"/>");
    let def = triangle_def(FillStyle::LinearGradient(vec![]));
    let shape = Shape::from_def(&def);
    let (e, _, next) = character_defs(3, &Character::Shape(shape), false, 1, &vec![], 6144);
    assert_eq!(next, 2);
    assert!(render(&e).contains("fill=\"url(#grad_1)\""));
}
