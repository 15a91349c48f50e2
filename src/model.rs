//! The meaning of a template, stated over sequences of characters.
use vstd::prelude::*;

verus! {

/// One unit of a scanned template: a span of text that is copied out, or
/// the raw body of a closed placeholder (the text between its braces).
pub enum Token {
    Text(Seq<char>),
    Hole(Seq<char>),
}

pub open spec fn is_brace(c: char) -> bool {
    c == '{' || c == '}'
}

/// Tokens of `t` from literal mode: the current span began at `start`, and
/// scanning for a brace resumes at `i`.
///
/// A `{` ends the span and opens a placeholder; a `}` ends the span and the
/// character after it begins the next span whatever it is (so `}}` gives one
/// `}`). A brace that is the last character is dropped.
pub open spec fn scan_text(t: Seq<char>, start: int, i: int) -> Seq<Token>
    recommends
        0 <= start <= i <= t.len(),
    decreases t.len() - i,
{
    if i >= t.len() {
        seq![Token::Text(t.subrange(start, t.len() as int))]
    } else if t[i] == '{' {
        let head = seq![Token::Text(t.subrange(start, i))];
        if i + 1 == t.len() {
            head
        } else {
            head + scan_hole(t, i + 1, i + 1)
        }
    } else if t[i] == '}' {
        let head = seq![Token::Text(t.subrange(start, i))];
        if i + 1 == t.len() {
            head
        } else {
            head + scan_text(t, i + 1, i + 2)
        }
    } else {
        scan_text(t, start, i + 1)
    }
}

/// Tokens of `t` inside a placeholder whose body began at `start`, with
/// scanning resumed at `i`.
///
/// A `}` closes the placeholder. A `{` abandons it: its body is dropped and
/// that `{` begins a span of text (so `{{` gives one `{`). A placeholder
/// that is still open at the end of the template is dropped.
pub open spec fn scan_hole(t: Seq<char>, start: int, i: int) -> Seq<Token>
    recommends
        0 <= start <= i <= t.len(),
    decreases t.len() - i,
{
    if i >= t.len() {
        seq![]
    } else if t[i] == '}' {
        seq![Token::Hole(t.subrange(start, i))] + scan_text(t, i + 1, i + 1)
    } else if t[i] == '{' {
        scan_text(t, i, i + 1)
    } else {
        scan_hole(t, start, i + 1)
    }
}

/// The tokens of a whole template.
pub open spec fn tokens(t: Seq<char>) -> Seq<Token> {
    scan_text(t, 0, 0)
}

/// Index of the first `c` in `s`, or `s.len()` when there is none.
pub open spec fn first_of(s: Seq<char>, c: char) -> nat
    decreases s.len(),
{
    if s.len() == 0 {
        0
    } else if s[0] == c {
        0
    } else {
        1 + first_of(s.drop_first(), c)
    }
}

/// The position field of a placeholder body: the text before the first `:`.
pub open spec fn position_field(body: Seq<char>) -> Seq<char> {
    body.take(first_of(body, ':') as int)
}

/// What follows the first `:` of a body (empty when it has none).
pub open spec fn after_colon(body: Seq<char>) -> Seq<char> {
    let k = first_of(body, ':');
    if k < body.len() {
        body.skip((k + 1) as int)
    } else {
        seq![]
    }
}

/// The width field: after the first `:`, the text before the next `.`.
pub open spec fn width_field(body: Seq<char>) -> Seq<char> {
    let rest = after_colon(body);
    rest.take(first_of(rest, '.') as int)
}

/// The precision field: whatever follows that `.`.
pub open spec fn precision_field(body: Seq<char>) -> Seq<char> {
    let rest = after_colon(body);
    let k = first_of(rest, '.');
    if k < rest.len() {
        rest.skip((k + 1) as int)
    } else {
        seq![]
    }
}

/// A character with the Unicode `White_Space` property.
pub open spec fn is_white_space(c: char) -> bool {
    ('\u{9}' <= c && c <= '\u{d}') || c == ' ' || c == '\u{85}' || c == '\u{a0}' || c
        == '\u{1680}' || ('\u{2000}' <= c && c <= '\u{200a}') || c == '\u{2028}' || c
        == '\u{2029}' || c == '\u{202f}' || c == '\u{205f}' || c == '\u{3000}'
}

/// Number of white-space characters that `s` starts with.
pub open spec fn leading_space(s: Seq<char>) -> nat
    decreases s.len(),
{
    if s.len() > 0 && is_white_space(s[0]) {
        1 + leading_space(s.drop_first())
    } else {
        0
    }
}

/// Number of white-space characters that `s` ends with.
pub open spec fn trailing_space(s: Seq<char>) -> nat
    decreases s.len(),
{
    if s.len() > 0 && is_white_space(s.last()) {
        1 + trailing_space(s.drop_last())
    } else {
        0
    }
}

/// `s` without white space at either end.
pub open spec fn trim(s: Seq<char>) -> Seq<char> {
    let lead = leading_space(s);
    let rest = s.skip(lead as int);
    rest.take(rest.len() - trailing_space(rest))
}

pub open spec fn is_digit(c: char) -> bool {
    '0' <= c && c <= '9'
}

pub open spec fn digit_value(c: char) -> nat {
    (c as u32 - '0' as u32) as nat
}

/// The number written by a sequence of decimal digits.
pub open spec fn digits_value(s: Seq<char>) -> nat
    decreases s.len(),
{
    if s.len() == 0 {
        0
    } else {
        digits_value(s.drop_last()) * 10 + digit_value(s.last())
    }
}

pub open spec fn all_digits(s: Seq<char>) -> bool {
    forall|i: int| 0 <= i < s.len() ==> is_digit(#[trigger] s[i])
}

/// The digits of an unsigned decimal numeral: one or more digits, after an
/// optional `+`.
pub open spec fn numeral_digits(s: Seq<char>) -> Seq<char> {
    if s.len() > 0 && s[0] == '+' {
        s.drop_first()
    } else {
        s
    }
}

/// The `usize` that `s` writes in decimal, if it is one: an optional `+`
/// and one or more digits, of a value that fits in a `usize`.
pub open spec fn parse_usize(s: Seq<char>) -> Option<usize> {
    let d = numeral_digits(s);
    if d.len() > 0 && all_digits(d) && digits_value(d) <= usize::MAX {
        Some(digits_value(d) as usize)
    } else {
        None
    }
}

/// How a placeholder picks its argument.
#[derive(Clone, Copy, PartialEq, Eq, Debug)]
pub enum Position {
    /// The next argument of the sequential cursor.
    Next,
    /// The argument at this index.
    At(usize),
    /// No argument: the position field is not a number.
    Invalid,
}

pub open spec fn position_of(field: Seq<char>) -> Position {
    let f = trim(field);
    if f.len() == 0 {
        Position::Next
    } else {
        match parse_usize(f) {
            Some(n) => Position::At(n),
            None => Position::Invalid,
        }
    }
}

/// How a value is laid out in its placeholder.
#[derive(Clone, Copy, PartialEq, Eq, Debug)]
pub struct Directive {
    /// Pad with `0` rather than with spaces.
    pub zero_pad: bool,
    /// The least number of characters (0: no minimum).
    pub width: usize,
    pub precision: Option<usize>,
}

/// The layout that a width field and a precision field ask for. A width
/// that is not a number asks for none; a width pads with zeros exactly when
/// it is a number that starts with `0`.
pub open spec fn directive_of(width: Seq<char>, precision: Seq<char>) -> Directive {
    match parse_usize(width) {
        Some(w) => Directive { zero_pad: width[0] == '0', width: w, precision: parse_usize(precision) },
        None => Directive { zero_pad: false, width: 0, precision: parse_usize(precision) },
    }
}

/// How far a placeholder with this body moves the sequential cursor.
pub open spec fn cursor_step(body: Seq<char>) -> nat {
    match position_of(position_field(body)) {
        Position::Next => 1,
        _ => 0,
    }
}

/// Index of the argument that a placeholder with this body shows, with the
/// sequential cursor at `cursor`, among `n` arguments; `None` when it shows
/// nothing.
pub open spec fn target(body: Seq<char>, n: nat, cursor: nat) -> Option<nat> {
    match position_of(position_field(body)) {
        Position::Next => if cursor < n {
            Some(cursor)
        } else {
            None
        },
        Position::At(k) => if k < n {
            Some(k as nat)
        } else {
            None
        },
        Position::Invalid => None,
    }
}

pub open spec fn hole_directive(body: Seq<char>) -> Directive {
    directive_of(width_field(body), precision_field(body))
}

} // verus!
