//! Lowered scripts written out as JavaScript functions for the embedded
//! runtime.
use crate::avm1::{self, float_integer, float_magnitude, ops_view, Op, OpView, Value};
use vstd::prelude::*;
use vstd::string::{StrSliceExecFns, StringExecFns};

verus! {

/// A fragment of JavaScript source.
#[derive(Clone, Debug, PartialEq, Eq)]
pub struct Code(pub String);

/// The name of what the `Debug` formatting of `str` makes of a string: the
/// string in double quotes, with quotes, backslashes and control characters
/// escaped, which JavaScript reads back as the same string.
pub uninterp spec fn debug_quoted(s: Seq<char>) -> Seq<char>;

/// Relies on std's `Debug` formatting of `str`; the text depends on the
/// characters alone.
#[verifier::external_body]
pub(crate) fn quote(s: &str) -> (r: String)
    ensures
        r@ == debug_quoted(s@),
{
    format!("{:?}", s)
}

pub open spec fn digit(d: int) -> char {
    if d == 0 {
        '0'
    } else if d == 1 {
        '1'
    } else if d == 2 {
        '2'
    } else if d == 3 {
        '3'
    } else if d == 4 {
        '4'
    } else if d == 5 {
        '5'
    } else if d == 6 {
        '6'
    } else if d == 7 {
        '7'
    } else if d == 8 {
        '8'
    } else {
        '9'
    }
}

/// Decimal digits of `n`.
pub open spec fn nat_text(n: nat) -> Seq<char>
    decreases n,
{
    if n < 10 {
        seq![digit(n as int)]
    } else {
        nat_text(n / 10).push(digit((n % 10) as int))
    }
}

pub open spec fn int_text(v: int) -> Seq<char> {
    if v < 0 {
        seq!['-'] + nat_text((-v) as nat)
    } else {
        nat_text(v as nat)
    }
}

fn push_digit(s: &mut String, d: u64)
    requires
        d < 10,
    ensures
        final(s)@ == old(s)@.push(digit(d as int)),
{
    let digits = "0123456789";
    proof {
        reveal_strlit("0123456789");
    }
    s.append(digits.substring_char(d as usize, d as usize + 1));
    proof {
        assert(final(s)@ =~= old(s)@.push(digit(d as int)));
    }
}

pub(crate) fn push_nat(s: &mut String, n: u64)
    ensures
        final(s)@ == old(s)@ + nat_text(n as nat),
    decreases n,
{
    if n >= 10 {
        push_nat(s, n / 10);
    }
    push_digit(s, n % 10);
    proof {
        if n >= 10 {
            assert(final(s)@ =~= old(s)@ + nat_text(n as nat));
        } else {
            assert(final(s)@ =~= old(s)@ + nat_text(n as nat));
        }
    }
}

pub(crate) fn push_int(s: &mut String, v: i64)
    requires
        v > i64::MIN,
    ensures
        final(s)@ == old(s)@ + int_text(v as int),
{
    if v < 0 {
        s.append("-");
        proof {
            reveal_strlit("-");
            assert(s@ == old(s)@ + seq!['-']);
        }
        push_nat(s, (-v) as u64);
        proof {
            assert(final(s)@ =~= old(s)@ + int_text(v as int));
        }
    } else {
        push_nat(s, v as u64);
    }
}

/// A double as a JavaScript expression of exactly its value: integers of
/// magnitude up to 2^32 in decimal, other finite values as their integer
/// significand times a power of two.
pub open spec fn f64_js(bits: u64) -> Seq<char> {
    let neg = (bits >> 63u64) == 1;
    let exp = ((bits >> 52u64) & 0x7ffu64) as int;
    let mant = (bits & 0xf_ffff_ffff_ffffu64) as int;
    float_js(neg, exp, mant, 52, 1023, 2047)
}

pub open spec fn f32_js(bits: u32) -> Seq<char> {
    let neg = (bits >> 31u32) == 1;
    let exp = ((bits >> 23u32) & 0xffu32) as int;
    let mant = (bits & 0x7f_ffffu32) as int;
    float_js(neg, exp, mant, 23, 127, 255)
}

pub open spec fn float_js(neg: bool, exp: int, mant: int, mant_bits: nat, bias: int, max_exp: int) -> Seq<
    char,
> {
    if exp == max_exp {
        if mant != 0 {
            "NaN"@
        } else if neg {
            "-Infinity"@
        } else {
            "Infinity"@
        }
    } else {
        match float_integer(neg, exp, mant, mant_bits, bias, max_exp) {
            Some(v) if -0x1_0000_0000 <= v <= 0x1_0000_0000 => int_text(v),
            _ => {
                let s = if exp == 0 {
                    mant
                } else {
                    vstd::arithmetic::power2::pow2(mant_bits) + mant
                };
                let e = if exp == 0 {
                    1 - bias - mant_bits
                } else {
                    exp - bias - mant_bits
                };
                "("@ + (if neg {
                    "-"@
                } else {
                    ""@
                }) + nat_text(s as nat) + " * 2 ** "@ + int_text(e) + ")"@
            },
        }
    }
}

fn push_float(s: &mut String, neg: bool, exp: u64, mant: u64, mant_bits: u64, bias: u64, max_exp: u64)
    requires
        1 <= mant_bits <= 52,
        mant < vstd::arithmetic::power2::pow2(mant_bits as nat),
        exp <= max_exp < 4096,
        bias + mant_bits < 4096,
    ensures
        final(s)@ == old(s)@ + float_js(
            neg,
            exp as int,
            mant as int,
            mant_bits as nat,
            bias as int,
            max_exp as int,
        ),
{
    if exp == max_exp {
        if mant != 0 {
            s.append("NaN");
        } else if neg {
            s.append("-Infinity");
        } else {
            s.append("Infinity");
        }
        return;
    }
    match float_magnitude(neg, exp, mant, mant_bits, bias, max_exp) {
        Some((n, m)) => {
            if m <= 0x1_0000_0000 {
                if n {
                    push_int(s, -(m as i64));
                } else {
                    push_int(s, m as i64);
                }
                return;
            }
        },
        None => {},
    }
    proof {
        vstd::arithmetic::power2::lemma2_to64();
        vstd::arithmetic::power2::lemma2_to64_rest();
        vstd::arithmetic::power2::lemma_pow2_strictly_increases(mant_bits as nat, 53);
    }
    let top: u64 = if exp == 0 {
        0
    } else {
        let mut p: u64 = 1;
        let mut j: u64 = 0;
        while j < mant_bits
            invariant
                j <= mant_bits <= 52,
                p == vstd::arithmetic::power2::pow2(j as nat),
            decreases mant_bits - j,
        {
            proof {
                vstd::arithmetic::power2::lemma2_to64();
                vstd::arithmetic::power2::lemma2_to64_rest();
                vstd::arithmetic::power2::lemma_pow2_strictly_increases((j + 1) as nat, 53);
                vstd::arithmetic::power2::lemma_pow2_unfold((j + 1) as nat);
            }
            p = p * 2;
            j += 1;
        }
        p
    };
    let sig = top + mant;
    let e: i64 = if exp == 0 {
        1 - bias as i64 - mant_bits as i64
    } else {
        exp as i64 - bias as i64 - mant_bits as i64
    };
    s.append("(");
    if neg {
        s.append("-");
    } else {
        s.append("");
    }
    push_nat(s, sig);
    s.append(" * 2 ** ");
    push_int(s, e);
    s.append(")");
    proof {
        assert(final(s)@ =~= old(s)@ + float_js(
            neg,
            exp as int,
            mant as int,
            mant_bits as nat,
            bias as int,
            max_exp as int,
        ));
    }
}

pub open spec fn value_js(v: Value) -> Seq<char> {
    match v {
        Value::Undefined => "undefined"@,
        Value::Null => "null"@,
        Value::Bool(b) => if b {
            "true"@
        } else {
            "false"@
        },
        Value::I32(x) => int_text(x as int),
        Value::F32(b) => f32_js(b),
        Value::F64(b) => f64_js(b),
        Value::Str(t) => debug_quoted(t@),
        Value::OpRes(i) => "_"@ + nat_text(i as nat),
    }
}

/// The values joined by `, `.
pub open spec fn args_js(args: Seq<Value>) -> Seq<char>
    decreases args.len(),
{
    if args.len() == 0 {
        seq![]
    } else if args.len() == 1 {
        value_js(args[0])
    } else {
        args_js(args.drop_last()) + ", "@ + value_js(args.last())
    }
}

pub open spec fn assign_js(i: nat, rhs: Seq<char>) -> Seq<char> {
    "var _"@ + nat_text(i) + " = "@ + rhs
}

/// The statement for operation `i`; an operation with a result assigns it
/// to `_i`.
pub open spec fn op_js(i: nat, op: OpView) -> Seq<char> {
    match op {
        OpView::Play => "local.this.play()"@,
        OpView::Stop => "local.this.stop()"@,
        OpView::GotoFrame(f) => "local.this.gotoAndPlay("@ + nat_text(f.0 as nat) + ")"@,
        OpView::GotoLabel(l) => "local.this.gotoAndPlay("@ + debug_quoted(l@) + ")"@,
        OpView::GetUrl(u, t) => "local.this.getURL("@ + debug_quoted(u@) + ", "@ + debug_quoted(t@)
            + ")"@,
        OpView::GetVar(n) => assign_js(
            i,
            "("@ + debug_quoted(n@) + " in local) ? local["@ + debug_quoted(n@) + "] : global["@
                + debug_quoted(n@) + "]"@,
        ),
        OpView::SetVar(n, v) => "local["@ + debug_quoted(n@) + "] = "@ + value_js(v),
        OpView::Call(c, args) => assign_js(i, value_js(c) + "("@ + args_js(args) + ")"@),
        OpView::CallMethod(r, n, args) => assign_js(
            i,
            value_js(r) + "."@ + n@ + "("@ + args_js(args) + ")"@,
        ),
    }
}

/// One line per operation of the first `n`, each ended by `;`.
pub open spec fn ops_js(ops: Seq<OpView>, n: nat) -> Seq<char>
    decreases n,
{
    if n == 0 {
        seq![]
    } else {
        ops_js(ops, (n - 1) as nat) + "\n"@ + op_js((n - 1) as nat, ops[n - 1]) + ";"@
    }
}

pub open spec fn codes_js(codes: Seq<avm1::Code>) -> Seq<char>
    decreases codes.len(),
{
    if codes.len() == 0 {
        seq![]
    } else {
        let ops = ops_view(codes.last().ops@);
        codes_js(codes.drop_last()) + ops_js(ops, ops.len())
    }
}

/// `s` with four spaces after each line break.
pub open spec fn indented(s: Seq<char>) -> Seq<char>
    decreases s.len(),
{
    if s.len() == 0 {
        seq![]
    } else {
        indented(s.drop_last()) + if s.last() == '\n' {
            "\n    "@
        } else {
            seq![s.last()]
        }
    }
}

pub proof fn lemma_indented_concat(a: Seq<char>, b: Seq<char>)
    ensures
        indented(a + b) == indented(a) + indented(b),
    decreases b.len(),
{
    if b.len() == 0 {
        assert(a + b =~= a);
        assert(indented(a) + indented(b) =~= indented(a));
    } else {
        assert((a + b).drop_last() =~= a + b.drop_last());
        lemma_indented_concat(a, b.drop_last());
        assert(indented(a + b) =~= indented(a) + indented(b));
    }
}

/// Appends `piece` with four spaces after each line break.
pub(crate) fn push_indented(out: &mut String, piece: &str)
    ensures
        final(out)@ == old(out)@ + indented(piece@),
{
    let n = piece.unicode_len();
    let mut i: usize = 0;
    let nl = "\n    ";
    proof {
        reveal_strlit("\n    ");
        assert(piece@.subrange(0, 0) =~= Seq::<char>::empty());
    }
    while i < n
        invariant
            n == piece@.len(),
            i <= n,
            nl@ == "\n    "@,
            out@ == old(out)@ + indented(piece@.subrange(0, i as int)),
        decreases n - i,
    {
        let c = piece.get_char(i);
        proof {
            assert(piece@.subrange(0, i + 1).drop_last() =~= piece@.subrange(0, i as int));
        }
        if c == '\n' {
            out.append(nl);
        } else {
            out.append(piece.substring_char(i, i + 1));
        }
        i += 1;
        proof {
            assert(out@ =~= old(out)@ + indented(piece@.subrange(0, i as int)));
        }
    }
    proof {
        assert(piece@.subrange(0, i as int) =~= piece@);
    }
}

fn push_value(s: &mut String, v: &Value)
    ensures
        final(s)@ == old(s)@ + value_js(*v),
{
    match v {
        Value::Undefined => s.append("undefined"),
        Value::Null => s.append("null"),
        Value::Bool(b) => {
            if *b {
                s.append("true");
            } else {
                s.append("false");
            }
        },
        Value::I32(x) => push_int(s, *x as i64),
        Value::F32(b) => {
            let bits = *b;
            proof {
                assert(bits & 0x7f_ffffu32 <= 0x7f_ffffu32) by (bit_vector);
                assert((bits >> 23u32) & 0xffu32 <= 0xffu32) by (bit_vector);
                vstd::arithmetic::power2::lemma2_to64();
            }
            push_float(
                s,
                (bits >> 31u32) == 1,
                ((bits >> 23u32) & 0xffu32) as u64,
                (bits & 0x7f_ffffu32) as u64,
                23,
                127,
                255,
            );
        },
        Value::F64(b) => {
            let bits = *b;
            proof {
                assert(bits & 0xf_ffff_ffff_ffffu64 <= 0xf_ffff_ffff_ffffu64) by (bit_vector);
                assert((bits >> 52u64) & 0x7ffu64 <= 0x7ffu64) by (bit_vector);
                vstd::arithmetic::power2::lemma2_to64();
                vstd::arithmetic::power2::lemma2_to64_rest();
            }
            push_float(
                s,
                (bits >> 63u64) == 1,
                (bits >> 52u64) & 0x7ffu64,
                bits & 0xf_ffff_ffff_ffffu64,
                52,
                1023,
                2047,
            );
        },
        Value::Str(t) => s.append(quote(t.as_str()).as_str()),
        Value::OpRes(i) => {
            s.append("_");
            push_nat(s, *i as u64);
        },
    }
}

fn push_args(s: &mut String, args: &Vec<Value>)
    ensures
        final(s)@ == old(s)@ + args_js(args@),
{
    let mut k: usize = 0;
    proof {
        assert(args@.subrange(0, 0) =~= Seq::<Value>::empty());
    }
    while k < args.len()
        invariant
            k <= args@.len(),
            s@ == old(s)@ + args_js(args@.subrange(0, k as int)),
        decreases args@.len() - k,
    {
        proof {
            assert(args@.subrange(0, k + 1).drop_last() =~= args@.subrange(0, k as int));
        }
        if k > 0 {
            s.append(", ");
        }
        push_value(s, &args[k]);
        k += 1;
        proof {
            if k == 1 {
                assert(args@.subrange(0, 1)[0] == args@[0]);
            }
            assert(s@ =~= old(s)@ + args_js(args@.subrange(0, k as int)));
        }
    }
    proof {
        assert(args@.subrange(0, k as int) =~= args@);
    }
}

fn op_text(i: usize, op: &Op) -> (r: String)
    ensures
        r@ == op_js(i as nat, op@),
{
    let mut s = String::new();
    match op {
        Op::Play => s.append("local.this.play()"),
        Op::Stop => s.append("local.this.stop()"),
        Op::GotoFrame(f) => {
            s.append("local.this.gotoAndPlay(");
            push_nat(&mut s, f.0 as u64);
            s.append(")");
        },
        Op::GotoLabel(l) => {
            s.append("local.this.gotoAndPlay(");
            s.append(quote(l.as_str()).as_str());
            s.append(")");
        },
        Op::GetUrl(u, t) => {
            s.append("local.this.getURL(");
            s.append(quote(u.as_str()).as_str());
            s.append(", ");
            s.append(quote(t.as_str()).as_str());
            s.append(")");
        },
        Op::GetVar(n) => {
            let q = quote(n.as_str());
            s.append("var _");
            push_nat(&mut s, i as u64);
            s.append(" = ");
            s.append("(");
            s.append(q.as_str());
            s.append(" in local) ? local[");
            s.append(q.as_str());
            s.append("] : global[");
            s.append(q.as_str());
            s.append("]");
        },
        Op::SetVar(n, v) => {
            s.append("local[");
            s.append(quote(n.as_str()).as_str());
            s.append("] = ");
            push_value(&mut s, v);
        },
        Op::Call(c, args) => {
            s.append("var _");
            push_nat(&mut s, i as u64);
            s.append(" = ");
            push_value(&mut s, c);
            s.append("(");
            push_args(&mut s, args);
            s.append(")");
        },
        Op::CallMethod(r, n, args) => {
            s.append("var _");
            push_nat(&mut s, i as u64);
            s.append(" = ");
            push_value(&mut s, r);
            s.append(".");
            s.append(n.as_str());
            s.append("(");
            push_args(&mut s, args);
            s.append(")");
        },
    }
    proof {
        assert(s@ =~= op_js(i as nat, op@));
    }
    s
}

/// Appends the statements of one lowered script, indented.
pub(crate) fn push_code_ops(out: &mut String, code: &avm1::Code)
    ensures
        final(out)@ == old(out)@ + indented(ops_js(ops_view(code.ops@), code.ops@.len())),
{
    let ops = &code.ops;
    let ghost before = out@;
    let ghost view = ops_view(ops@);
    let mut i: usize = 0;
    while i < ops.len()
        invariant
            i <= ops@.len(),
            view == ops_view(ops@),
            out@ == before + indented(ops_js(view, i as nat)),
        decreases ops@.len() - i,
    {
        let mut line = String::new();
        line.append("\n");
        line.append(op_text(i, &ops[i]).as_str());
        line.append(";");
        proof {
            lemma_indented_concat(ops_js(view, i as nat), line@);
            assert(line@ == "\n"@ + op_js(i as nat, view[i as int]) + ";"@);
            assert(ops_js(view, (i + 1) as nat) =~= ops_js(view, i as nat) + line@);
        }
        push_indented(out, line.as_str());
        i += 1;
    }
}

/// The scripts of one frame as one JavaScript function of the global and
/// local scopes: the operations of each script in turn, one statement each.
pub fn export(codes: &[avm1::Code]) -> (r: Code)
    ensures
        r.0@ == "function(global, local) {"@ + indented(codes_js(codes@)) + "\n}"@,
{
    let mut out = String::new();
    out.append("function(global, local) {");
    let ghost head = out@;
    let mut c: usize = 0;
    proof {
        assert(codes@.subrange(0, 0) =~= Seq::<avm1::Code>::empty());
        assert(out@ =~= head + indented(codes_js(codes@.subrange(0, 0))));
    }
    while c < codes.len()
        invariant
            c <= codes@.len(),
            out@ == head + indented(codes_js(codes@.subrange(0, c as int))),
        decreases codes@.len() - c,
    {
        let ghost view = ops_view(codes@[c as int].ops@);
        push_code_ops(&mut out, &codes[c]);
        proof {
            assert(codes@.subrange(0, c + 1).drop_last() =~= codes@.subrange(0, c as int));
            assert(codes@.subrange(0, c + 1).last() == codes@[c as int]);
            lemma_indented_concat(codes_js(codes@.subrange(0, c as int)), ops_js(view, view.len()));
            assert(out@ =~= head + indented(codes_js(codes@.subrange(0, c + 1))));
        }
        c += 1;
    }
    proof {
        assert(codes@.subrange(0, c as int) =~= codes@);
    }
    out.append("\n}");
    Code(out)
}

/// The Base64 digit of a 6-bit value.
pub open spec fn b64_digit(v: int) -> char {
    "ABCDEFGHIJKLMNOPQRSTUVWXYZabcdefghijklmnopqrstuvwxyz0123456789+/"@[v]
}

/// Standard Base64 with padding: each group of three bytes becomes four
/// digits; a final group of one or two bytes is padded with `=`.
pub open spec fn base64_of(b: Seq<u8>) -> Seq<char>
    decreases b.len(),
{
    if b.len() == 0 {
        seq![]
    } else if b.len() == 1 {
        seq![b64_digit((b[0] as int) / 4), b64_digit(((b[0] as int) % 4) * 16), '=', '=']
    } else if b.len() == 2 {
        seq![
            b64_digit((b[0] as int) / 4),
            b64_digit(((b[0] as int) % 4) * 16 + (b[1] as int) / 16),
            b64_digit(((b[1] as int) % 16) * 4),
            '=',
        ]
    } else {
        seq![
            b64_digit((b[0] as int) / 4),
            b64_digit(((b[0] as int) % 4) * 16 + (b[1] as int) / 16),
            b64_digit(((b[1] as int) % 16) * 4 + (b[2] as int) / 64),
            b64_digit((b[2] as int) % 64),
        ] + base64_of(b.subrange(3, b.len() as int))
    }
}

/// Relies on `base64::encode_config_buf` with `base64::STANDARD`: it
/// appends the standard padded Base64 text of the bytes, chunk by chunk;
/// the text depends on the bytes alone.
#[verifier::external_body]
pub(crate) fn push_base64(buf: &mut String, b: &[u8])
    ensures
        final(buf)@ == old(buf)@ + base64_of(b@),
{
    base64::encode_config_buf(b, base64::STANDARD, buf)
}

/// An `Audio` element playing the MP3 bytes from a data URL.
pub fn export_mp3(mp3: &[u8]) -> (r: Code)
    ensures
        r.0@ == "new Audio('data:audio/mpeg;base64,"@ + base64_of(mp3@) + "')"@,
{
    let mut code = String::new();
    code.append("new Audio('data:audio/mpeg;base64,");
    push_base64(&mut code, mp3);
    code.append("')");
    Code(code)
}

/// A string literal that JavaScript reads back as `s`.
pub fn string(s: &str) -> (r: Code)
    ensures
        r.0@ == debug_quoted(s@),
{
    Code(quote(s))
}

impl Code {
    /// The code with four spaces after each line break.
    pub fn indent(&self) -> (r: Code)
        ensures
            r.0@ == indented(self.0@),
    {
        let mut out = String::new();
        push_indented(&mut out, self.0.as_str());
        proof {
            assert(out@ =~= indented(self.0@));
        }
        Code(out)
    }
}

/// The codes joined by `, `.
pub open spec fn joined(args: Seq<Code>) -> Seq<char>
    decreases args.len(),
{
    if args.len() == 0 {
        seq![]
    } else if args.len() == 1 {
        args[0].0@
    } else {
        joined(args.drop_last()) + ", "@ + args.last().0@
    }
}

/// A call of `callee` with the arguments in order.
pub fn call(callee: &Code, args: &Vec<Code>) -> (r: Code)
    ensures
        r.0@ == callee.0@ + "("@ + joined(args@) + ")"@,
{
    let mut s = String::new();
    s.append(callee.0.as_str());
    s.append("(");
    let ghost head = s@;
    let mut i: usize = 0;
    proof {
        assert(args@.subrange(0, 0) =~= Seq::<Code>::empty());
        assert(s@ =~= head + joined(args@.subrange(0, 0)));
    }
    while i < args.len()
        invariant
            i <= args@.len(),
            s@ == head + joined(args@.subrange(0, i as int)),
        decreases args@.len() - i,
    {
        if i > 0 {
            s.append(", ");
        }
        s.append(args[i].0.as_str());
        proof {
            let t = args@.subrange(0, i + 1);
            assert(t.drop_last() =~= args@.subrange(0, i as int));
            if i == 0 {
                assert(t[0] == args@[0]);
            }
            assert(s@ =~= head + joined(t));
        }
        i += 1;
    }
    proof {
        assert(args@.subrange(0, i as int) =~= args@);
    }
    s.append(")");
    Code(s)
}

} // verus!
