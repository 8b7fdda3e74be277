use flashback::avm1::{Code, Op, Value};
use flashback::js::{export, export_mp3};
use flashback::dictionary::CharacterId;
use flashback::geom::{ColorTransformWithAlpha, Matrix};
use flashback::jsdata;
use flashback::timeline::{
    Frame, FrameLabel, PlaceObject, RemoveObject, StartSound, TimelineBuilder,
};

fn s(t: &str) -> String {
    t.to_string()
}

#[test]
fn frame_script_as_function() {
    let code = Code {
        ops: vec![
            Op::GetVar(s("x")),
            Op::GetVar(s("trace")),
            Op::Call(Value::OpRes(1), vec![Value::OpRes(0), Value::I32(-5)]),
            Op::SetVar(s("y"), Value::Bool(true)),
            Op::Stop,
        ],
    };
    let js = export(&[code]).0;
    assert_eq!(
        js,
        "function(global, local) {\n    \
         var _0 = (\"x\" in local) ? local[\"x\"] : global[\"x\"];\n    \
         var _1 = (\"trace\" in local) ? local[\"trace\"] : global[\"trace\"];\n    \
         var _2 = _1(_0, -5);\n    \
         local[\"y\"] = true;\n    \
         local.this.stop();\n}"
    );
}

#[test]
fn scripts_of_a_frame_in_order() {
    let a = Code { ops: vec![Op::Play] };
    let b = Code {
        ops: vec![
            Op::GotoFrame(Frame(12)),
            Op::CallMethod(Value::Null, s("go"), vec![Value::Str(s("a\"b"))]),
        ],
    };
    assert_eq!(
        export(&[a, b]).0,
        "function(global, local) {\n    local.this.play();\n    local.this.gotoAndPlay(12);\n    \
         var _1 = null.go(\"a\\\"b\");\n}"
    );
    assert_eq!(export(&[]).0, "function(global, local) {\n}");
}

#[test]
fn floats_as_exact_expressions() {
    let code = Code {
        ops: vec![Op::Call(
            Value::Undefined,
            vec![
                Value::F64(2.0f64.to_bits()),
                Value::F64(0.5f64.to_bits()),
                Value::F32((-3.0f32).to_bits()),
                Value::F64(f64::NAN.to_bits()),
                Value::F64(f64::NEG_INFINITY.to_bits()),
            ],
        )],
    };
    assert_eq!(
        export(&[code]).0,
        "function(global, local) {\n    var _0 = undefined(2, (4503599627370496 * 2 ** -53), -3, NaN, -Infinity);\n}"
    );
    assert_eq!(4503599627370496f64 * 2f64.powi(-53), 0.5);
}

#[test]
fn mp3_data_url() {
    assert_eq!(export_mp3(&[1, 2, 3]).0, "new Audio('data:audio/mpeg;base64,AQID')");
    assert_eq!(export_mp3(&[]).0, "new Audio('data:audio/mpeg;base64,')");
}

#[test]
fn timeline_data_object() {
    let mut b = TimelineBuilder::new();
    b.place_object(&PlaceObject {
        depth: 1,
        character_id: Some(2),
        is_update: false,
        matrix: Some(Matrix { scale_x: 32768, translate_x: -20, ..Matrix::identity() }),
        name: Some(s("hero")),
        color_transform: Some(ColorTransformWithAlpha { red_add: 51, ..ColorTransformWithAlpha::identity() }),
        ratio: None,
    })
    .unwrap();
    b.frame_label(FrameLabel { name: s("start"), is_anchor: false });
    b.advance_frame();
    b.remove_object(&RemoveObject { depth: 1 });
    b.start_sound(StartSound { sound_id: 9, sync_no_multiple: false, loop_count: None });
    let t = b.finish(Frame(2));
    assert_eq!(t.layers.get(1).unwrap().value_at(Frame(0)).unwrap().character, CharacterId(2));
    let js = jsdata::export(&t).0;
    let expected = "{\n    layers: [\n        ,\n        [\n            {\n                character: 2,\n                \
matrix: [\n                    32768/65536,\n                    0,\n                    0,\n                    1,\n                    -20,\n                    0,\n                ],\n                \
name: \"hero\",\n                color_transform: [\n                    1,\n                    0,\n                    0,\n                    0,\n                    51/255,\n                    \
0,\n                    1,\n                    0,\n                    0,\n                    0,\n                    0,\n                    0,\n                    1,\n                    0,\n                    0,\n                    \
0,\n                    0,\n                    0,\n                    1,\n                    0,\n                ],\n                ratio: null,\n            },\n            null,\n        ],\n    ],\n    \
actions: [\n        ,\n    ],\n    labels: {\n        \"start\": 0,\n    },\n    sounds: [\n        ,\n        [\n            {\n                character: 9,\n                no_restart: false,\n                loops: null,\n            },\n        ],\n    ],\n    \
sound_stream: null,\n    frame_count: 2,\n}";
    assert_eq!(js, expected);
}

#[test]
fn literals_and_indentation() {
    assert_eq!(flashback::js::string("a\n\"b\"").0, "\"a\\n\\\"b\\\"\"");
    let c = flashback::js::Code(s("f(\n1\n)"));
    assert_eq!(c.indent().0, "f(\n    1\n    )");
    assert_eq!(jsdata::array(&vec![s("1"), s("[\n2,\n]")]), "[\n    1,\n    [\n    2,\n    ],\n]");
    assert_eq!(jsdata::object(&vec![(s("a"), s("1"))]), "{\n    a: 1,\n}");
    assert_eq!(jsdata::export_matrix(&Matrix::identity()), "null");
    assert_eq!(
        jsdata::export_matrix(&Matrix { rotate_skew0: -65536 * 2, ..Matrix::identity() }),
        "[\n    1,\n    -2,\n    0,\n    1,\n    0,\n    0,\n]"
    );
    assert_eq!(jsdata::export_color_transform(&ColorTransformWithAlpha::identity()), "null");
}
