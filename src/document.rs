//! Document-level settings and geometry.
use crate::js::{nat_text, push_nat};
use crate::shape::{Rect, Rgba};
use vstd::prelude::*;
use vstd::string::{StrSliceExecFns, StringExecFns};

verus! {

/// How the document is emitted: declarative animations, or the movie's
/// data with an embedded runtime script.
#[derive(Copy, Clone, Debug, Default, PartialEq, Eq, Structural)]
pub struct Config {
    pub use_js: bool,
}

/// The view box of a frame rectangle: origin, width and height.
#[derive(Copy, Clone, Debug, PartialEq, Eq, Structural)]
pub struct ViewBox {
    pub x: i32,
    pub y: i32,
    pub width: i64,
    pub height: i64,
}

pub fn view_box(r: Rect) -> (v: ViewBox)
    ensures
        v.x == r.x_min,
        v.y == r.y_min,
        v.width == r.x_max - r.x_min,
        v.height == r.y_max - r.y_min,
{
    ViewBox {
        x: r.x_min,
        y: r.y_min,
        width: r.x_max as i64 - r.x_min as i64,
        height: r.y_max as i64 - r.y_min as i64,
    }
}

pub open spec fn hex_digit(d: int) -> char {
    if d < 10 {
        crate::js::digit(d)
    } else if d == 10 {
        'a'
    } else if d == 11 {
        'b'
    } else if d == 12 {
        'c'
    } else if d == 13 {
        'd'
    } else if d == 14 {
        'e'
    } else {
        'f'
    }
}

/// Two lower-case hexadecimal digits.
pub open spec fn hex2(b: u8) -> Seq<char> {
    seq![hex_digit(b as int / 16), hex_digit(b as int % 16)]
}

/// An opaque color as `#rrggbb`, any other as `rgba(r, g, b, a)`.
pub open spec fn color_svg(c: Rgba) -> Seq<char> {
    if c.a == 255 {
        "#"@ + hex2(c.r) + hex2(c.g) + hex2(c.b)
    } else {
        "rgba("@ + nat_text(c.r as nat) + ", "@ + nat_text(c.g as nat) + ", "@ + nat_text(
            c.b as nat,
        ) + ", "@ + nat_text(c.a as nat) + ")"@
    }
}

fn push_hex2(s: &mut String, b: u8)
    ensures
        final(s)@ == old(s)@ + hex2(b),
{
    let digits = "0123456789abcdef";
    proof {
        reveal_strlit("0123456789abcdef");
    }
    let hi = (b / 16) as usize;
    let lo = (b % 16) as usize;
    s.append(digits.substring_char(hi, hi + 1));
    s.append(digits.substring_char(lo, lo + 1));
    proof {
        assert(final(s)@ =~= old(s)@ + hex2(b));
    }
}

/// The SVG paint of a color (see `color_svg`).
pub fn color_text(c: &Rgba) -> (r: String)
    ensures
        r@ == color_svg(*c),
{
    let mut s = String::new();
    if c.a == 255 {
        s.append("#");
        push_hex2(&mut s, c.r);
        push_hex2(&mut s, c.g);
        push_hex2(&mut s, c.b);
    } else {
        s.append("rgba(");
        push_nat(&mut s, c.r as u64);
        s.append(", ");
        push_nat(&mut s, c.g as u64);
        s.append(", ");
        push_nat(&mut s, c.b as u64);
        s.append(", ");
        push_nat(&mut s, c.a as u64);
        s.append(")");
    }
    proof {
        assert(s@ =~= color_svg(*c));
    }
    s
}

} // verus!
