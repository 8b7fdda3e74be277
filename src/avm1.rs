//! Script values and operations, and the lowering of stack-machine actions
//! into a linear list of operations.
use crate::timeline::Frame;
use vstd::arithmetic::div_mod::lemma_small_mod;
use vstd::arithmetic::mul::lemma_mul_inequality;
use vstd::arithmetic::power2::{
    lemma2_to64,
    lemma2_to64_rest,
    lemma_pow2_adds,
    lemma_pow2_pos,
    lemma_pow2_strictly_increases,
    lemma_pow2_unfold,
    pow2,
};
use vstd::prelude::*;

verus! {

/// A script value. Floating-point literals are kept as their IEEE 754 bit
/// patterns.
#[derive(Clone, Debug, PartialEq, Eq)]
pub enum Value {
    Undefined,
    Null,
    Bool(bool),
    I32(i32),
    F32(u32),
    F64(u64),
    Str(String),
    /// The result of the operation at this index of the same list.
    OpRes(usize),
}

/// The integer held by a binary float with sign `neg`, biased exponent field
/// `exp` and fraction field `mant` (`mant_bits` wide), if it holds one.
/// Infinities and NaNs (exponent field `max_exp`) hold none.
pub open spec fn float_integer(
    neg: bool,
    exp: int,
    mant: int,
    mant_bits: nat,
    bias: int,
    max_exp: int,
) -> Option<int> {
    if exp == 0 {
        if mant == 0 {
            Some(0)
        } else {
            None
        }
    } else if exp == max_exp {
        None
    } else {
        let s: int = pow2(mant_bits) + mant;
        let e = exp - bias - mant_bits;
        let mag = if e >= 0 {
            Some(s * (pow2(e as nat) as int))
        } else if s % (pow2((-e) as nat) as int) == 0 {
            Some(s / (pow2((-e) as nat) as int))
        } else {
            None
        };
        match mag {
            Some(m) => Some(
                if neg {
                    -m
                } else {
                    m
                },
            ),
            None => None,
        }
    }
}

pub open spec fn f64_integer(bits: u64) -> Option<int> {
    float_integer(
        (bits >> 63u64) == 1,
        ((bits >> 52u64) & 0x7ffu64) as int,
        (bits & 0xf_ffff_ffff_ffffu64) as int,
        52,
        1023,
        2047,
    )
}

pub open spec fn f32_integer(bits: u32) -> Option<int> {
    float_integer(
        (bits >> 31u32) == 1,
        ((bits >> 23u32) & 0xffu32) as int,
        (bits & 0x7f_ffffu32) as int,
        23,
        127,
        255,
    )
}

pub open spec fn in_i32(v: int) -> bool {
    i32::MIN <= v <= i32::MAX
}

/// A double converts to `i32` and back unchanged exactly when it holds an
/// integer in range.
pub open spec fn f64_to_i32(bits: u64) -> Option<i32> {
    match f64_integer(bits) {
        Some(v) => if in_i32(v) {
            Some(v as i32)
        } else {
            None
        },
        None => None,
    }
}

/// A single converts to `i32` and back unchanged when it holds an integer in
/// range, and also when it holds 2^31: that saturates to `i32::MAX`, which
/// rounds back to 2^31 as a single.
pub open spec fn f32_to_i32(bits: u32) -> Option<i32> {
    match f32_integer(bits) {
        Some(v) => if in_i32(v) {
            Some(v as i32)
        } else if v == 0x8000_0000 {
            Some(i32::MAX)
        } else {
            None
        },
        None => None,
    }
}

pub open spec fn value_as_i32(v: Value) -> Option<i32> {
    match v {
        Value::I32(x) => Some(x),
        Value::F32(b) => f32_to_i32(b),
        Value::F64(b) => f64_to_i32(b),
        _ => None,
    }
}

fn pow2_u64(k: u64) -> (r: u64)
    requires
        k < 63,
    ensures
        r == pow2(k as nat),
{
    let mut p: u64 = 1;
    let mut j: u64 = 0;
    proof {
        lemma2_to64();
        lemma2_to64_rest();
    }
    while j < k
        invariant
            j <= k < 63,
            p == pow2(j as nat),
        decreases k - j,
    {
        proof {
            lemma2_to64_rest();
            lemma_pow2_strictly_increases((j + 1) as nat, 63);
            lemma_pow2_unfold((j + 1) as nat);
        }
        p = p * 2;
        j += 1;
    }
    p
}

/// Sign and magnitude of the integer that a float holds, when it holds one
/// of magnitude at most 2^32; `None` when it holds none or a larger one.
pub(crate) fn float_magnitude(neg: bool, exp: u64, mant: u64, mant_bits: u64, bias: u64, max_exp: u64) -> (r:
    Option<(bool, u64)>)
    requires
        1 <= mant_bits <= 52,
        mant < pow2(mant_bits as nat),
        exp <= max_exp < 4096,
        bias + mant_bits < 4096,
    ensures
        r matches Some((n, m)) ==> float_integer(
            neg,
            exp as int,
            mant as int,
            mant_bits as nat,
            bias as int,
            max_exp as int,
        ) == Some(
            if n {
                -(m as int)
            } else {
                m as int
            },
        ),
        r is None ==> match float_integer(
            neg,
            exp as int,
            mant as int,
            mant_bits as nat,
            bias as int,
            max_exp as int,
        ) {
            Some(v) => v > 0x1_0000_0000 || v < -0x1_0000_0000,
            None => true,
        },
{
    if exp == 0 {
        if mant == 0 {
            return Some((neg, 0));
        } else {
            return None;
        }
    }
    if exp == max_exp {
        return None;
    }
    let ghost mb = mant_bits as nat;
    proof {
        lemma2_to64();
        lemma2_to64_rest();
        lemma_pow2_strictly_increases(mb, 53);
        lemma_pow2_unfold((mb + 1) as nat);
    }
    let top = pow2_u64(mant_bits);
    let s = top + mant;
    assert(s < pow2((mb + 1) as nat));
    if exp >= bias + mant_bits {
        let e = exp - bias - mant_bits;
        if e + mant_bits > 32 {
            proof {
                lemma_pow2_adds(mb, e as nat);
                lemma_pow2_pos(e as nat);
                lemma_mul_inequality(pow2(mb) as int, s as int, pow2(e as nat) as int);
                lemma_pow2_strictly_increases(32, (mb + e) as nat);
                lemma2_to64();
        lemma2_to64_rest();
            }
            return None;
        }
        let p = pow2_u64(e);
        proof {
            lemma_pow2_adds((mb + 1) as nat, e as nat);
            lemma_pow2_pos(e as nat);
            lemma_mul_inequality(s as int, pow2((mb + 1) as nat) as int, pow2(e as nat) as int);
            if mb + 1 + e < 33 {
                lemma_pow2_strictly_increases((mb + 1 + e) as nat, 33);
            }
            lemma2_to64();
        lemma2_to64_rest();
        }
        Some((neg, s * p))
    } else {
        let sh = bias + mant_bits - exp;
        if sh > mant_bits + 1 {
            proof {
                lemma_pow2_strictly_increases((mb + 1) as nat, sh as nat);
                lemma_small_mod(s as nat, pow2(sh as nat));
            }
            return None;
        }
        let p = pow2_u64(sh);
        proof {
            lemma_pow2_pos(sh as nat);
        }
        if s % p != 0 {
            None
        } else {
            Some((neg, s / p))
        }
    }
}

#[derive(Clone, Debug, PartialEq, Eq)]
pub enum Op {
    Play,
    Stop,
    GotoFrame(Frame),
    GotoLabel(String),
    GetUrl(String, String),
    GetVar(String),
    SetVar(String, Value),
    Call(Value, Vec<Value>),
    CallMethod(Value, String, Vec<Value>),
}

/// An operation with its argument lists as sequences.
pub enum OpView {
    Play,
    Stop,
    GotoFrame(Frame),
    GotoLabel(String),
    GetUrl(String, String),
    GetVar(String),
    SetVar(String, Value),
    Call(Value, Seq<Value>),
    CallMethod(Value, String, Seq<Value>),
}

impl View for Op {
    type V = OpView;

    open spec fn view(&self) -> OpView {
        match self {
            Op::Play => OpView::Play,
            Op::Stop => OpView::Stop,
            Op::GotoFrame(f) => OpView::GotoFrame(*f),
            Op::GotoLabel(l) => OpView::GotoLabel(*l),
            Op::GetUrl(u, t) => OpView::GetUrl(*u, *t),
            Op::GetVar(n) => OpView::GetVar(*n),
            Op::SetVar(n, v) => OpView::SetVar(*n, *v),
            Op::Call(c, args) => OpView::Call(*c, args@),
            Op::CallMethod(r, n, args) => OpView::CallMethod(*r, *n, args@),
        }
    }
}

pub open spec fn ops_view(ops: Seq<Op>) -> Seq<OpView> {
    ops.map_values(|o: Op| o@)
}

/// A lowered script: each operation may refer to the results of earlier ones.
#[derive(Clone, Debug)]
pub struct Code {
    pub ops: Vec<Op>,
}

/// A literal of a `Push` action.
#[derive(Debug, PartialEq, Eq)]
pub enum PushValue {
    Undefined,
    Null,
    Boolean(bool),
    Sint32(i32),
    Float32(u32),
    Float64(u64),
    String(String),
    /// An entry of the active constant pool.
    Constant(u16),
    /// A register of the register file.
    Register(u8),
}

/// A parsed action of the stack machine.
#[derive(Debug, PartialEq, Eq)]
pub enum Action {
    Play,
    Stop,
    GotoFrame(u16),
    GotoLabel(String),
    GetUrl(String, String),
    WaitForFrame,
    WaitForFrame2,
    ConstantPool(Vec<String>),
    Push(Vec<PushValue>),
    Pop,
    GetVariable,
    SetVariable,
    CallFunction,
    CallMethod,
    /// Any action that is not lowered.
    Unsupported,
}

/// Registers of the register file; nothing writes them, so they all hold
/// `Undefined`.
pub const REGISTER_COUNT: usize = 4;

/// The state of the lowering: constant pool, value stack, operations so
/// far, and whether lowering has stopped.
pub struct Lowering {
    pub consts: Seq<String>,
    pub stack: Seq<Value>,
    pub ops: Seq<OpView>,
    pub halted: bool,
}

pub open spec fn halt(s: Lowering) -> Lowering {
    Lowering { halted: true, ..s }
}

pub open spec fn push_literal(consts: Seq<String>, v: PushValue) -> Option<Value> {
    match v {
        PushValue::Undefined => Some(Value::Undefined),
        PushValue::Null => Some(Value::Null),
        PushValue::Boolean(b) => Some(Value::Bool(b)),
        PushValue::Sint32(x) => Some(Value::I32(x)),
        PushValue::Float32(x) => Some(Value::F32(x)),
        PushValue::Float64(x) => Some(Value::F64(x)),
        PushValue::String(t) => Some(Value::Str(t)),
        PushValue::Constant(i) => if i < consts.len() {
            Some(Value::Str(consts[i as int]))
        } else {
            None
        },
        PushValue::Register(i) => if i < REGISTER_COUNT {
            Some(Value::Undefined)
        } else {
            None
        },
    }
}

/// The values that `vs` pushes, if every literal resolves.
pub open spec fn push_literals(consts: Seq<String>, vs: Seq<PushValue>) -> Option<Seq<Value>>
    decreases vs.len(),
{
    if vs.len() == 0 {
        Some(seq![])
    } else {
        match (push_literals(consts, vs.drop_last()), push_literal(consts, vs.last())) {
            (Some(prefix), Some(v)) => Some(prefix.push(v)),
            _ => None,
        }
    }
}

/// An argument count: negative counts take no arguments.
pub open spec fn arg_count(n: i32) -> int {
    if n < 0 {
        0
    } else {
        n as int
    }
}

/// Lowers one action. A construct that cannot be lowered (a name that is
/// not a string, an argument count that is not an integer, a stack too
/// short for the action, an unknown constant or register, an unsupported
/// action) stops the lowering and adds no operation.
pub open spec fn lower_step(s: Lowering, a: Action) -> Lowering {
    let len = s.stack.len() as int;
    let at = s.ops.len();
    if s.halted {
        s
    } else {
        match a {
            Action::Play => Lowering { ops: s.ops.push(OpView::Play), ..s },
            Action::Stop => Lowering { ops: s.ops.push(OpView::Stop), ..s },
            Action::GotoFrame(f) => Lowering { ops: s.ops.push(OpView::GotoFrame(Frame(f))), ..s },
            Action::GotoLabel(l) => Lowering { ops: s.ops.push(OpView::GotoLabel(l)), ..s },
            Action::GetUrl(u, t) => Lowering { ops: s.ops.push(OpView::GetUrl(u, t)), ..s },
            Action::WaitForFrame => s,
            Action::WaitForFrame2 | Action::Pop => if len > 0 {
                Lowering { stack: s.stack.drop_last(), ..s }
            } else {
                s
            },
            Action::ConstantPool(pool) => Lowering { consts: pool@, ..s },
            Action::Push(vs) => match push_literals(s.consts, vs@) {
                Some(pushed) => Lowering { stack: s.stack + pushed, ..s },
                None => halt(s),
            },
            Action::GetVariable => if len >= 1 && s.stack.last() is Str {
                Lowering {
                    ops: s.ops.push(OpView::GetVar(s.stack.last()->Str_0)),
                    stack: s.stack.drop_last().push(Value::OpRes(at as usize)),
                    ..s
                }
            } else {
                halt(s)
            },
            Action::SetVariable => if len >= 2 && s.stack[len - 2] is Str {
                Lowering {
                    ops: s.ops.push(OpView::SetVar(s.stack[len - 2]->Str_0, s.stack[len - 1])),
                    stack: s.stack.subrange(0, len - 2).push(Value::OpRes(at as usize)),
                    ..s
                }
            } else {
                halt(s)
            },
            Action::CallFunction => if len >= 2 && s.stack[len - 1] is Str && value_as_i32(
                s.stack[len - 2],
            ) is Some && arg_count(value_as_i32(s.stack[len - 2])->0) <= len - 2 {
                let k = arg_count(value_as_i32(s.stack[len - 2])->0);
                Lowering {
                    ops: s.ops.push(OpView::GetVar(s.stack[len - 1]->Str_0)).push(
                        OpView::Call(Value::OpRes(at as usize), s.stack.subrange(len - 2 - k, len - 2)),
                    ),
                    stack: s.stack.subrange(0, len - 2 - k).push(Value::OpRes((at + 1) as usize)),
                    ..s
                }
            } else {
                halt(s)
            },
            Action::CallMethod => if len >= 3 && value_as_i32(s.stack[len - 3]) is Some
                && arg_count(value_as_i32(s.stack[len - 3])->0) <= len - 3 && (
            s.stack[len - 1] is Undefined || s.stack[len - 1] is Str) {
                let k = arg_count(value_as_i32(s.stack[len - 3])->0);
                let this = s.stack[len - 2];
                let args = s.stack.subrange(len - 3 - k, len - 3);
                let op = match s.stack[len - 1] {
                    Value::Str(m) => if m@.len() == 0 {
                        OpView::Call(this, args)
                    } else {
                        OpView::CallMethod(this, m, args)
                    },
                    _ => OpView::Call(this, args),
                };
                Lowering {
                    ops: s.ops.push(op),
                    stack: s.stack.subrange(0, len - 3 - k).push(Value::OpRes(at as usize)),
                    ..s
                }
            } else {
                halt(s)
            },
            Action::Unsupported => halt(s),
        }
    }
}

pub open spec fn initial_lowering() -> Lowering {
    Lowering { consts: seq![], stack: seq![], ops: seq![], halted: false }
}

/// The state after lowering `actions` in order.
pub open spec fn lowered(actions: Seq<Action>) -> Lowering
    decreases actions.len(),
{
    if actions.len() == 0 {
        initial_lowering()
    } else {
        lower_step(lowered(actions.drop_last()), actions.last())
    }
}

/// Once lowering stops, later actions change nothing.
pub proof fn lemma_halted_stays(actions: Seq<Action>, i: int, j: int)
    requires
        0 <= i <= j <= actions.len(),
        lowered(actions.subrange(0, i)).halted,
    ensures
        lowered(actions.subrange(0, j)) == lowered(actions.subrange(0, i)),
    decreases j - i,
{
    if j > i {
        lemma_halted_stays(actions, i, j - 1);
        assert(actions.subrange(0, j).drop_last() =~= actions.subrange(0, j - 1));
    }
}

/// A script whose first `n` actions lower cleanly and whose next action
/// cannot be lowered yields exactly the operations of its first `n`
/// actions lowered on their own.
pub proof fn lemma_script_partiality(actions: Seq<Action>, n: int)
    requires
        0 <= n < actions.len(),
        !lowered(actions.subrange(0, n)).halted,
        lowered(actions.subrange(0, n + 1)).halted,
    ensures
        lowered(actions).ops == lowered(actions.subrange(0, n)).ops,
{
    assert(actions.subrange(0, n + 1).drop_last() =~= actions.subrange(0, n));
    lemma_halted_stays(actions, n + 1, actions.len() as int);
    assert(actions.subrange(0, actions.len() as int) =~= actions);
}

impl Value {
    /// The value as an argument count: an `I32`, or a float that converts
    /// to `i32` and back unchanged.
    pub fn as_i32(&self) -> (r: Option<i32>)
        ensures
            r == value_as_i32(*self),
    {
        match self {
            Value::I32(x) => Some(*x),
            Value::F32(b) => {
                let bits = *b;
                let neg = (bits >> 31u32) == 1;
                let exp = ((bits >> 23u32) & 0xffu32) as u64;
                let mant = (bits & 0x7f_ffffu32) as u64;
                proof {
                    assert(bits & 0x7f_ffffu32 <= 0x7f_ffffu32) by (bit_vector);
                    assert((bits >> 23u32) & 0xffu32 <= 0xffu32) by (bit_vector);
                    lemma2_to64();
        lemma2_to64_rest();
                }
                match float_magnitude(neg, exp, mant, 23, 127, 255) {
                    Some((n, m)) => {
                        if n {
                            if m <= 0x8000_0000 {
                                Some((-(m as i64)) as i32)
                            } else {
                                None
                            }
                        } else if m <= 0x7fff_ffff {
                            Some(m as i32)
                        } else if m == 0x8000_0000 {
                            Some(i32::MAX)
                        } else {
                            None
                        }
                    },
                    None => None,
                }
            },
            Value::F64(b) => {
                let bits = *b;
                let neg = (bits >> 63u64) == 1;
                let exp = (bits >> 52u64) & 0x7ffu64;
                let mant = bits & 0xf_ffff_ffff_ffffu64;
                proof {
                    assert(bits & 0xf_ffff_ffff_ffffu64 <= 0xf_ffff_ffff_ffffu64) by (bit_vector);
                    assert((bits >> 52u64) & 0x7ffu64 <= 0x7ffu64) by (bit_vector);
                    lemma2_to64();
        lemma2_to64_rest();
                    
                }
                match float_magnitude(neg, exp, mant, 52, 1023, 2047) {
                    Some((n, m)) => {
                        if n {
                            if m <= 0x8000_0000 {
                                Some((-(m as i64)) as i32)
                            } else {
                                None
                            }
                        } else if m <= 0x7fff_ffff {
                            Some(m as i32)
                        } else {
                            None
                        }
                    },
                    None => None,
                }
            },
            _ => None,
        }
    }

    pub fn as_str(&self) -> (r: Option<&str>)
        ensures
            match *self {
                Value::Str(s) => r matches Some(t) && t@ == s@,
                _ => r is None,
            },
    {
        match self {
            Value::Str(s) => Some(s.as_str()),
            _ => None,
        }
    }
}

proof fn lemma_ops_view_push(ops: Seq<Op>, o: Op)
    ensures
        ops_view(ops.push(o)) == ops_view(ops).push(o@),
{
    assert(ops_view(ops.push(o)) =~= ops_view(ops).push(o@));
}

proof fn lemma_push_literals_none(consts: Seq<String>, vs: Seq<PushValue>, j: int)
    requires
        0 <= j <= vs.len(),
        push_literals(consts, vs.subrange(0, j)) is None,
    ensures
        push_literals(consts, vs) is None,
    decreases vs.len() - j,
{
    if j == vs.len() {
        assert(vs.subrange(0, j) =~= vs);
    } else {
        assert(vs.subrange(0, j + 1).drop_last() =~= vs.subrange(0, j));
        lemma_push_literals_none(consts, vs, j + 1);
    }
}

fn resolve_literal(consts: &Vec<String>, v: &PushValue) -> (r: Option<Value>)
    ensures
        r == push_literal(consts@, *v),
{
    match v {
        PushValue::Undefined => Some(Value::Undefined),
        PushValue::Null => Some(Value::Null),
        PushValue::Boolean(b) => Some(Value::Bool(*b)),
        PushValue::Sint32(x) => Some(Value::I32(*x)),
        PushValue::Float32(x) => Some(Value::F32(*x)),
        PushValue::Float64(x) => Some(Value::F64(*x)),
        PushValue::String(t) => Some(Value::Str(t.clone())),
        PushValue::Constant(i) => {
            if (*i as usize) < consts.len() {
                Some(Value::Str(consts[*i as usize].clone()))
            } else {
                None
            }
        },
        PushValue::Register(i) => {
            if (*i as usize) < REGISTER_COUNT {
                Some(Value::Undefined)
            } else {
                None
            }
        },
    }
}

/// Pushes the literals of `vs`; false, with the stack in no particular
/// state, when one of them does not resolve.
fn push_all(stack: &mut Vec<Value>, consts: &Vec<String>, vs: &Vec<PushValue>) -> (r: bool)
    ensures
        r == push_literals(consts@, vs@) is Some,
        r ==> final(stack)@ == old(stack)@ + push_literals(consts@, vs@)->0,
{
    let mut k: usize = 0;
    proof {
        assert(vs@.subrange(0, 0) =~= Seq::<PushValue>::empty());
        assert(old(stack)@ + Seq::<Value>::empty() =~= old(stack)@);
    }
    while k < vs.len()
        invariant
            k <= vs.len(),
            push_literals(consts@, vs@.subrange(0, k as int)) is Some,
            stack@ == old(stack)@ + push_literals(consts@, vs@.subrange(0, k as int))->0,
        decreases vs.len() - k,
    {
        let ghost prefix = push_literals(consts@, vs@.subrange(0, k as int))->0;
        proof {
            assert(vs@.subrange(0, k + 1).drop_last() =~= vs@.subrange(0, k as int));
        }
        match resolve_literal(consts, &vs[k]) {
            Some(v) => {
                stack.push(v);
                proof {
                    assert(stack@ =~= old(stack)@ + prefix.push(v));
                }
            },
            None => {
                proof {
                    lemma_push_literals_none(consts@, vs@, k + 1);
                }
                return false;
            },
        }
        k += 1;
    }
    proof {
        assert(vs@.subrange(0, k as int) =~= vs@);
    }
    true
}

pub open spec fn running(consts: Seq<String>, stack: Seq<Value>, ops: Seq<Op>) -> Lowering {
    Lowering { consts, stack, ops: ops_view(ops), halted: false }
}

/// Lowers one action other than a constant pool (see `lower_step`); false
/// when lowering stops at it.
fn lower_action(consts: &Vec<String>, stack: &mut Vec<Value>, ops: &mut Vec<Op>, action: &Action) -> (ok: bool)
    requires
        !(action is ConstantPool),
        old(ops)@.len() + 2 <= usize::MAX,
    ensures
        ok == !lower_step(running(consts@, old(stack)@, old(ops)@), *action).halted,
        ops_view(final(ops)@) == lower_step(running(consts@, old(stack)@, old(ops)@), *action).ops,
        ok ==> final(stack)@ == lower_step(running(consts@, old(stack)@, old(ops)@), *action).stack,
        final(ops)@.len() <= old(ops)@.len() + 2,
{
    let mut ok = true;
            match action {
        Action::Play => {
            proof {
                lemma_ops_view_push(ops@, Op::Play);
            }
            ops.push(Op::Play);
        },
        Action::Stop => {
            proof {
                lemma_ops_view_push(ops@, Op::Stop);
            }
            ops.push(Op::Stop);
        },
        Action::GotoFrame(f) => {
            proof {
                lemma_ops_view_push(ops@, Op::GotoFrame(Frame(*f)));
            }
            ops.push(Op::GotoFrame(Frame(*f)));
        },
        Action::GotoLabel(l) => {
            let op = Op::GotoLabel(l.clone());
            proof {
                lemma_ops_view_push(ops@, op);
            }
            ops.push(op);
        },
        Action::GetUrl(u, t) => {
            let op = Op::GetUrl(u.clone(), t.clone());
            proof {
                lemma_ops_view_push(ops@, op);
            }
            ops.push(op);
        },
        Action::WaitForFrame => {},
        Action::WaitForFrame2 | Action::Pop => {
            stack.pop();
        },
        Action::ConstantPool(_) => {},
        Action::Push(vs) => {
            if !push_all(stack, consts, vs) {
                ok = false;
            }
        },
        Action::GetVariable => {
            match stack.pop() {
                Some(Value::Str(name)) => {
                    let at = ops.len();
                    let op = Op::GetVar(name);
                    proof {
                        lemma_ops_view_push(ops@, op);
                    }
                    ops.push(op);
                    stack.push(Value::OpRes(at));
                },
                _ => {
                    ok = false;
                },
            }
        },
        Action::SetVariable => {
            if stack.len() >= 2 {
                let value = stack.pop().unwrap();
                let name = stack.pop().unwrap();
                match name {
                    Value::Str(nm) => {
                        let at = ops.len();
                        let op = Op::SetVar(nm, value);
                        proof {
                            lemma_ops_view_push(ops@, op);
                        }
                        ops.push(op);
                        stack.push(Value::OpRes(at));
                    },
                    _ => {
                        ok = false;
                    },
                }
            } else {
                ok = false;
            }
        },
        Action::CallFunction => {
            if stack.len() >= 2 {
                let name = stack.pop().unwrap();
                let count = stack.pop().unwrap();
                match (name, count.as_i32()) {
                    (Value::Str(nm), Some(c)) => {
                        let k: usize = if c < 0 {
                            0
                        } else {
                            c as usize
                        };
                        if k <= stack.len() {
                            let args = stack.split_off(stack.len() - k);
                            proof {
                                let ol = old(stack)@.len() as int;
                                assert(args@ =~= old(stack)@.subrange(ol - 2 - k, ol - 2));
                                assert(stack@ =~= old(stack)@.subrange(0, ol - 2 - k));
                            }
                            let at = ops.len();
                            let get = Op::GetVar(nm);
                            let call = Op::Call(Value::OpRes(at), args);
                            proof {
                                lemma_ops_view_push(ops@, get);
                                lemma_ops_view_push(ops@.push(get), call);
                            }
                            ops.push(get);
                            ops.push(call);
                            stack.push(Value::OpRes(at + 1));
                        } else {
                            ok = false;
                        }
                    },
                    _ => {
                        ok = false;
                    },
                }
            } else {
                ok = false;
            }
        },
        Action::CallMethod => {
            if stack.len() >= 3 {
                let name = stack.pop().unwrap();
                let this = stack.pop().unwrap();
                let count = stack.pop().unwrap();
                match count.as_i32() {
                    Some(c) => {
                        let k: usize = if c < 0 {
                            0
                        } else {
                            c as usize
                        };
                        if k <= stack.len() {
                            let ghost ol = old(stack)@.len() as int;
                            proof {
                                assert(stack@ =~= old(stack)@.subrange(0, ol - 3));
                            }
                            let at = ops.len();
                            let op = match name {
                                Value::Str(m) => {
                                    if m.as_str().is_empty() {
                                        let args = stack.split_off(stack.len() - k);
                                        assert(args@ =~= old(stack)@.subrange(ol - 3 - k, ol - 3));
                                        Some(Op::Call(this, args))
                                    } else {
                                        let args = stack.split_off(stack.len() - k);
                                        assert(args@ =~= old(stack)@.subrange(ol - 3 - k, ol - 3));
                                        Some(Op::CallMethod(this, m, args))
                                    }
                                },
                                Value::Undefined => {
                                    let args = stack.split_off(stack.len() - k);
                                    assert(args@ =~= old(stack)@.subrange(ol - 3 - k, ol - 3));
                                    Some(Op::Call(this, args))
                                },
                                _ => None,
                            };
                            proof {
                                if op is Some {
                                    assert(stack@ =~= old(stack)@.subrange(0, ol - 3 - k));
                                }
                            }
                            match op {
                                Some(op) => {
                                    proof {
                                        lemma_ops_view_push(ops@, op);
                                    }
                                    ops.push(op);
                                    stack.push(Value::OpRes(at));
                                },
                                None => {
                                    ok = false;
                                },
                            }
                        } else {
                            ok = false;
                        }
                    },
                    None => {
                        ok = false;
                    },
                }
            } else {
                ok = false;
            }
        },
        Action::Unsupported => {
            ok = false;
        },
    }
    ok
}

/// The exec state of the lowering matches `st`.
pub open spec fn lowering_matches(
    st: Lowering,
    consts: Seq<String>,
    stack: Seq<Value>,
    ops: Seq<Op>,
) -> bool {
    &&& !st.halted
    &&& st.consts == consts
    &&& st.stack == stack
    &&& st.ops == ops_view(ops)
}

impl Code {
    /// Lowers `actions` in order (see `lower_step`); lowering stops at the
    /// first action that cannot be lowered, keeping the operations before it.
    pub fn compile(actions: &Vec<Action>) -> (r: Code)
        requires
            actions@.len() <= usize::MAX / 4,
        ensures
            ops_view(r.ops@) == lowered(actions@).ops,
    {
        let empty: Vec<String> = Vec::new();
        let mut consts: &Vec<String> = &empty;
        let mut stack: Vec<Value> = Vec::new();
        let mut ops: Vec<Op> = Vec::new();
        let mut halted = false;
        let n = actions.len();
        let mut i: usize = 0;
        proof {
            assert(actions@.subrange(0, 0) =~= Seq::<Action>::empty());
            assert(ops_view(ops@) =~= Seq::<OpView>::empty());
            assert(consts@ =~= Seq::<String>::empty());
            assert(stack@ =~= Seq::<Value>::empty());
        }
        while i < n && !halted
            invariant
                i <= n,
                n == actions@.len(),
                n <= usize::MAX / 4,
                ops@.len() <= 2 * i,
                !halted ==> lowering_matches(
                    lowered(actions@.subrange(0, i as int)),
                    consts@,
                    stack@,
                    ops@,
                ),
                halted ==> lowered(actions@.subrange(0, i as int)).halted,
                ops_view(ops@) == lowered(actions@.subrange(0, i as int)).ops,
            decreases n - i,
        {
            let ghost st = lowered(actions@.subrange(0, i as int));
            let ghost len = stack@.len() as int;
            proof {
                assert(actions@.subrange(0, i + 1).drop_last() =~= actions@.subrange(0, i as int));
                assert(actions@.subrange(0, i + 1).last() == actions@[i as int]);
            }
            match &actions[i] {
                Action::ConstantPool(pool) => {
                    consts = pool;
                },
                action => {
                    if !lower_action(consts, &mut stack, &mut ops, action) {
                        halted = true;
                    }
                },
            }
            i += 1;
        }
        proof {
            if halted {
                lemma_halted_stays(actions@, i as int, n as int);
            }
            assert(actions@.subrange(0, n as int) =~= actions@);
        }
        Code { ops }
    }
}

} // verus!
