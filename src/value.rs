//! Values that a template can show, and how integers are shown.
use vstd::prelude::*;
use crate::model::Directive;
use crate::sink::push_char;

verus! {

/// A value that can stand in a placeholder.
///
/// The impls of this crate state the text of each value in `text`; an impl
/// that does not leaves it unspecified.
pub trait FormatArg {
    /// The text of this value laid out as `d` asks.
    open spec fn text(&self, d: Directive) -> Seq<char> {
        arbitrary()
    }

    fn to_text(&self, d: &Directive) -> (r: String)
        ensures
            r@ == self.text(*d),
    ;
}

pub open spec fn digit_char(d: nat) -> char {
    seq!['0', '1', '2', '3', '4', '5', '6', '7', '8', '9'][d as int]
}

/// The decimal digits of `n`, most significant first, with no leading zero.
pub open spec fn decimal(n: nat) -> Seq<char>
    decreases n,
{
    if n < 10 {
        seq![digit_char(n)]
    } else {
        decimal(n / 10).push(digit_char(n % 10))
    }
}

pub open spec fn repeat(c: char, n: nat) -> Seq<char> {
    Seq::new(n, |_i: int| c)
}

/// An integer in decimal, with a `-` when negative, right-aligned in
/// `width` characters: padded with spaces before the sign, or with zeros
/// between the sign and the digits.
pub open spec fn integer_text(v: int, zero_pad: bool, width: nat) -> Seq<char> {
    let sign = if v < 0 {
        seq!['-']
    } else {
        seq![]
    };
    let digits = decimal(if v < 0 {
        (-v) as nat
    } else {
        v as nat
    });
    let len = sign.len() + digits.len();
    if width <= len {
        sign + digits
    } else if zero_pad {
        sign + repeat('0', (width - len) as nat) + digits
    } else {
        repeat(' ', (width - len) as nat) + sign + digits
    }
}

/// Relies on std's `Display` for `i128`, through `format!` without options:
/// the value in decimal, with a `-` when negative, unpadded.
#[verifier::external_body]
fn signed_decimal(v: i128) -> (r: String)
    ensures
        r@ == integer_text(v as int, false, 0),
{
    format!("{}", v)
}

/// Relies on std's `Display` for `u128`, through `format!` without options:
/// the value in decimal, unpadded.
#[verifier::external_body]
fn unsigned_decimal(v: u128) -> (r: String)
    ensures
        r@ == integer_text(v as int, false, 0),
{
    format!("{}", v)
}

/// Appends `n` copies of `c` to `out`.
fn push_repeated(out: &mut String, c: char, n: usize)
    ensures
        final(out)@ == old(out)@ + repeat(c, n as nat),
{
    let ghost start = out@;
    let mut k: usize = 0;
    while k < n
        invariant
            k <= n,
            start == old(out)@,
            out@ == start + repeat(c, k as nat),
        decreases n - k,
    {
        push_char(out, c);
        k = k + 1;
        assert(out@ =~= start + repeat(c, k as nat));
    }
}

/// Lays out the unpadded decimal text of `v` as `d` asks: the padding is
/// put round the text here, for any width.
fn pad_integer(plain: String, negative: bool, v: Ghost<int>, d: &Directive) -> (r: String)
    requires
        plain@ == integer_text(v@, false, 0),
        negative == (v@ < 0),
    ensures
        r@ == integer_text(v@, d.zero_pad, d.width as nat),
{
    let ghost sign: Seq<char> = if v@ < 0 {
        seq!['-']
    } else {
        seq![]
    };
    let ghost digits = decimal(
        if v@ < 0 {
            (-v@) as nat
        } else {
            v@ as nat
        },
    );
    assert(plain@ == sign + digits);
    let len = plain.as_str().unicode_len();
    if d.width <= len {
        return plain;
    }
    let fill = d.width - len;
    let mut out = String::new();
    if d.zero_pad {
        let from: usize = if negative {
            push_char(&mut out, '-');
            1
        } else {
            0
        };
        assert(out@ =~= sign);
        push_repeated(&mut out, '0', fill);
        let rest = plain.as_str().substring_char(from, len);
        assert(rest@ =~= digits);
        out.append(rest);
    } else {
        push_repeated(&mut out, ' ', fill);
        out.append(plain.as_str());
        assert(out@ =~= repeat(' ', fill as nat) + sign + digits);
    }
    out
}

/// The text of a signed integer laid out as `d` asks; the precision plays
/// no part for integers.
pub fn integer_to_text(v: i128, d: &Directive) -> (r: String)
    ensures
        r@ == integer_text(v as int, d.zero_pad, d.width as nat),
{
    pad_integer(signed_decimal(v), v < 0, Ghost(v as int), d)
}

/// The text of an unsigned integer laid out as `d` asks; the precision
/// plays no part for integers.
pub fn unsigned_to_text(v: u128, d: &Directive) -> (r: String)
    ensures
        r@ == integer_text(v as int, d.zero_pad, d.width as nat),
{
    pad_integer(unsigned_decimal(v), false, Ghost(v as int), d)
}

/// Text laid out as std lays out strings: cut to at most `precision`
/// characters, then padded with spaces after it up to `width`. The `0`
/// flag plays no part.
pub open spec fn string_text(s: Seq<char>, d: Directive) -> Seq<char> {
    let cut = match d.precision {
        Some(p) => if p < s.len() {
            s.take(p as int)
        } else {
            s
        },
        None => s,
    };
    if d.width > cut.len() {
        cut + repeat(' ', (d.width - cut.len()) as nat)
    } else {
        cut
    }
}

/// The text of `s` laid out as `d` asks.
pub fn str_to_text(s: &str, d: &Directive) -> (r: String)
    ensures
        r@ == string_text(s@, *d),
{
    let n = s.unicode_len();
    let cut: usize = match d.precision {
        Some(p) => if p < n {
            p
        } else {
            n
        },
        None => n,
    };
    let kept = s.substring_char(0, cut);
    assert(kept@ =~= match d.precision {
        Some(p) => if p < s@.len() {
            s@.take(p as int)
        } else {
            s@
        },
        None => s@,
    });
    let mut out = String::from_str(kept);
    if d.width > cut {
        push_repeated(&mut out, ' ', d.width - cut);
    }
    out
}

impl FormatArg for i8 {
    open spec fn text(&self, d: Directive) -> Seq<char> {
        integer_text(*self as int, d.zero_pad, d.width as nat)
    }

    fn to_text(&self, d: &Directive) -> (r: String) {
        integer_to_text(*self as i128, d)
    }
}

impl FormatArg for i16 {
    open spec fn text(&self, d: Directive) -> Seq<char> {
        integer_text(*self as int, d.zero_pad, d.width as nat)
    }

    fn to_text(&self, d: &Directive) -> (r: String) {
        integer_to_text(*self as i128, d)
    }
}

impl FormatArg for i32 {
    open spec fn text(&self, d: Directive) -> Seq<char> {
        integer_text(*self as int, d.zero_pad, d.width as nat)
    }

    fn to_text(&self, d: &Directive) -> (r: String) {
        integer_to_text(*self as i128, d)
    }
}

impl FormatArg for i64 {
    open spec fn text(&self, d: Directive) -> Seq<char> {
        integer_text(*self as int, d.zero_pad, d.width as nat)
    }

    fn to_text(&self, d: &Directive) -> (r: String) {
        integer_to_text(*self as i128, d)
    }
}

impl FormatArg for isize {
    open spec fn text(&self, d: Directive) -> Seq<char> {
        integer_text(*self as int, d.zero_pad, d.width as nat)
    }

    fn to_text(&self, d: &Directive) -> (r: String) {
        integer_to_text(*self as i128, d)
    }
}

impl FormatArg for u8 {
    open spec fn text(&self, d: Directive) -> Seq<char> {
        integer_text(*self as int, d.zero_pad, d.width as nat)
    }

    fn to_text(&self, d: &Directive) -> (r: String) {
        unsigned_to_text(*self as u128, d)
    }
}

impl FormatArg for u16 {
    open spec fn text(&self, d: Directive) -> Seq<char> {
        integer_text(*self as int, d.zero_pad, d.width as nat)
    }

    fn to_text(&self, d: &Directive) -> (r: String) {
        unsigned_to_text(*self as u128, d)
    }
}

impl FormatArg for u32 {
    open spec fn text(&self, d: Directive) -> Seq<char> {
        integer_text(*self as int, d.zero_pad, d.width as nat)
    }

    fn to_text(&self, d: &Directive) -> (r: String) {
        unsigned_to_text(*self as u128, d)
    }
}

impl FormatArg for u64 {
    open spec fn text(&self, d: Directive) -> Seq<char> {
        integer_text(*self as int, d.zero_pad, d.width as nat)
    }

    fn to_text(&self, d: &Directive) -> (r: String) {
        unsigned_to_text(*self as u128, d)
    }
}

impl FormatArg for usize {
    open spec fn text(&self, d: Directive) -> Seq<char> {
        integer_text(*self as int, d.zero_pad, d.width as nat)
    }

    fn to_text(&self, d: &Directive) -> (r: String) {
        unsigned_to_text(*self as u128, d)
    }
}

impl FormatArg for i128 {
    open spec fn text(&self, d: Directive) -> Seq<char> {
        integer_text(*self as int, d.zero_pad, d.width as nat)
    }

    fn to_text(&self, d: &Directive) -> (r: String) {
        integer_to_text(*self, d)
    }
}

impl FormatArg for u128 {
    open spec fn text(&self, d: Directive) -> Seq<char> {
        integer_text(*self as int, d.zero_pad, d.width as nat)
    }

    fn to_text(&self, d: &Directive) -> (r: String) {
        unsigned_to_text(*self, d)
    }
}

impl FormatArg for str {
    open spec fn text(&self, d: Directive) -> Seq<char> {
        string_text(self@, d)
    }

    fn to_text(&self, d: &Directive) -> (r: String) {
        str_to_text(self, d)
    }
}

impl FormatArg for String {
    open spec fn text(&self, d: Directive) -> Seq<char> {
        string_text(self@, d)
    }

    fn to_text(&self, d: &Directive) -> (r: String) {
        str_to_text(self.as_str(), d)
    }
}

impl FormatArg for char {
    open spec fn text(&self, d: Directive) -> Seq<char> {
        string_text(seq![*self], d)
    }

    fn to_text(&self, d: &Directive) -> (r: String) {
        let mut one = String::new();
        push_char(&mut one, *self);
        assert(one@ =~= seq![*self]);
        str_to_text(one.as_str(), d)
    }
}

impl FormatArg for bool {
    open spec fn text(&self, d: Directive) -> Seq<char> {
        string_text(
            if *self {
                seq!['t', 'r', 'u', 'e']
            } else {
                seq!['f', 'a', 'l', 's', 'e']
            },
            d,
        )
    }

    fn to_text(&self, d: &Directive) -> (r: String) {
        let word = if *self {
            "true"
        } else {
            "false"
        };
        proof {
            reveal_strlit("true");
            reveal_strlit("false");
        }
        assert(word@ =~= if *self {
            seq!['t', 'r', 'u', 'e']
        } else {
            seq!['f', 'a', 'l', 's', 'e']
        });
        str_to_text(word, d)
    }
}

impl<'a, T: FormatArg + ?Sized> FormatArg for &'a T {
    open spec fn text(&self, d: Directive) -> Seq<char> {
        (**self).text(d)
    }

    fn to_text(&self, d: &Directive) -> (r: String) {
        (**self).to_text(d)
    }
}

} // verus!
