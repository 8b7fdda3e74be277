use flashback::avm1::{Action, Code, Op, PushValue, Value};
use flashback::timeline::Frame;

fn s(t: &str) -> String {
    t.to_string()
}

#[test]
fn script_lowering_call_with_variable_argument() {
    let actions = vec![
        Action::Push(vec![PushValue::String(s("x"))]),
        Action::GetVariable,
        Action::Push(vec![PushValue::Sint32(1)]),
        Action::Push(vec![PushValue::String(s("trace"))]),
        Action::CallFunction,
    ];
    let code = Code::compile(&actions);
    assert_eq!(
        code.ops,
        vec![
            Op::GetVar(s("x")),
            Op::GetVar(s("trace")),
            Op::Call(Value::OpRes(1), vec![Value::OpRes(0)]),
        ]
    );
}

#[test]
fn function_name_must_be_on_top() {
    // With the count pushed after the name, the name slot holds 1: the
    // call is too dynamic and lowering stops after the first lookup.
    let actions = vec![
        Action::Push(vec![PushValue::String(s("x"))]),
        Action::GetVariable,
        Action::Push(vec![PushValue::String(s("trace"))]),
        Action::Push(vec![PushValue::Sint32(1)]),
        Action::CallFunction,
    ];
    assert_eq!(Code::compile(&actions).ops, vec![Op::GetVar(s("x"))]);
}

#[test]
fn direct_ops_and_waits() {
    let actions = vec![
        Action::Play,
        Action::WaitForFrame,
        Action::Stop,
        Action::GotoFrame(7),
        Action::GotoLabel(s("loop")),
        Action::GetUrl(s("http://a"), s("_blank")),
        Action::Push(vec![PushValue::Null]),
        Action::WaitForFrame2,
        Action::Pop,
    ];
    let code = Code::compile(&actions);
    assert_eq!(
        code.ops,
        vec![
            Op::Play,
            Op::Stop,
            Op::GotoFrame(Frame(7)),
            Op::GotoLabel(s("loop")),
            Op::GetUrl(s("http://a"), s("_blank")),
        ]
    );
}

#[test]
fn constants_set_variable_and_arguments_in_push_order() {
    let actions = vec![
        Action::ConstantPool(vec![s("a"), s("f")]),
        Action::Push(vec![PushValue::Constant(0), PushValue::Boolean(true)]),
        Action::SetVariable,
        Action::Push(vec![
            PushValue::Sint32(10),
            PushValue::Sint32(20),
            PushValue::Float64(0x4000_0000_0000_0000),
            PushValue::Constant(1),
        ]),
        Action::CallFunction,
    ];
    let code = Code::compile(&actions);
    assert_eq!(
        code.ops,
        vec![
            Op::SetVar(s("a"), Value::Bool(true)),
            Op::GetVar(s("f")),
            Op::Call(Value::OpRes(1), vec![Value::I32(10), Value::I32(20)]),
        ]
    );
}

#[test]
fn call_method_named_and_unnamed() {
    let actions = vec![
        Action::Push(vec![
            PushValue::Sint32(5),
            PushValue::Sint32(1),
            PushValue::Register(0),
            PushValue::String(s("go")),
        ]),
        Action::CallMethod,
        Action::Push(vec![PushValue::Sint32(0), PushValue::Null, PushValue::String(s(""))]),
        Action::CallMethod,
        Action::Push(vec![PushValue::Float32(0), PushValue::Undefined, PushValue::Undefined]),
        Action::CallMethod,
    ];
    let code = Code::compile(&actions);
    assert_eq!(
        code.ops,
        vec![
            Op::CallMethod(Value::Undefined, s("go"), vec![Value::I32(5)]),
            Op::Call(Value::Null, vec![]),
            Op::Call(Value::Undefined, vec![]),
        ]
    );
}

#[test]
fn failure_keeps_the_clean_prefix() {
    let prefix = vec![
        Action::Play,
        Action::Push(vec![PushValue::String(s("v"))]),
        Action::GetVariable,
    ];
    let mut full = vec![
        Action::Play,
        Action::Push(vec![PushValue::String(s("v"))]),
        Action::GetVariable,
    ];
    full.push(Action::GetVariable);
    full.push(Action::Stop);
    assert_eq!(Code::compile(&full).ops, Code::compile(&prefix).ops);
    assert_eq!(Code::compile(&prefix).ops.len(), 2);
}

#[test]
fn too_dynamic_or_unknown_stops() {
    let unknown = vec![Action::Play, Action::Unsupported, Action::Stop];
    assert_eq!(Code::compile(&unknown).ops, vec![Op::Play]);
    let bad_constant = vec![Action::Push(vec![PushValue::Constant(3)]), Action::Stop];
    assert!(Code::compile(&bad_constant).ops.is_empty());
    let bad_register = vec![Action::Push(vec![PushValue::Register(4)]), Action::Stop];
    assert!(Code::compile(&bad_register).ops.is_empty());
    let empty_stack = vec![Action::SetVariable, Action::Play];
    assert!(Code::compile(&empty_stack).ops.is_empty());
    let not_integer = vec![
        Action::Push(vec![PushValue::Float64(1.5f64.to_bits()), PushValue::String(s("f"))]),
        Action::CallFunction,
        Action::Play,
    ];
    assert!(Code::compile(&not_integer).ops.is_empty());
    let too_many = vec![
        Action::Push(vec![PushValue::Sint32(3), PushValue::String(s("f"))]),
        Action::CallFunction,
    ];
    assert!(Code::compile(&too_many).ops.is_empty());
}

#[test]
fn argument_counts_from_floats() {
    assert_eq!(Value::I32(-3).as_i32(), Some(-3));
    assert_eq!(Value::F64(2.0f64.to_bits()).as_i32(), Some(2));
    assert_eq!(Value::F64((-7.0f64).to_bits()).as_i32(), Some(-7));
    assert_eq!(Value::F64((-0.0f64).to_bits()).as_i32(), Some(0));
    assert_eq!(Value::F64(2.5f64.to_bits()).as_i32(), None);
    assert_eq!(Value::F64(f64::NAN.to_bits()).as_i32(), None);
    assert_eq!(Value::F64(f64::INFINITY.to_bits()).as_i32(), None);
    assert_eq!(Value::F64(2147483647.0f64.to_bits()).as_i32(), Some(i32::MAX));
    assert_eq!(Value::F64(2147483648.0f64.to_bits()).as_i32(), None);
    assert_eq!(Value::F64((-2147483648.0f64).to_bits()).as_i32(), Some(i32::MIN));
    assert_eq!(Value::F64(1e-300f64.to_bits()).as_i32(), None);
    assert_eq!(Value::F32(3.0f32.to_bits()).as_i32(), Some(3));
    assert_eq!(Value::F32(0.25f32.to_bits()).as_i32(), None);
    assert_eq!(Value::F32(2147483648.0f32.to_bits()).as_i32(), Some(i32::MAX));
    assert_eq!(Value::F32(4294967296.0f32.to_bits()).as_i32(), None);
    assert_eq!(Value::Str(s("1")).as_i32(), None);
    for x in [0.0f64, 1.0, -1.0, 12345.0, 0.5, 1e10, -2147483649.0] {
        let expected = if x == (x as i32 as f64) { Some(x as i32) } else { None };
        assert_eq!(Value::F64(x.to_bits()).as_i32(), expected);
    }
    for x in [0.0f32, 1.0, -1.0, 16777216.0, 0.5, 1e10, -2147483648.0] {
        let expected = if x == (x as i32 as f32) { Some(x as i32) } else { None };
        assert_eq!(Value::F32(x.to_bits()).as_i32(), expected);
    }
}

#[test]
fn as_str_only_for_strings() {
    assert_eq!(Value::Str(s("abc")).as_str(), Some("abc"));
    assert_eq!(Value::Null.as_str(), None);
}
