//! Reading the fields of a placeholder: its position, width and precision.
use vstd::prelude::*;
use crate::model::{
    all_digits, digits_value, directive_of, is_digit, is_white_space, leading_space, numeral_digits,
    parse_usize, position_of, trailing_space, trim, Directive, Position,
};

verus! {

pub fn is_white_space_char(c: char) -> (r: bool)
    ensures
        r == is_white_space(c),
{
    ('\u{9}' <= c && c <= '\u{d}') || c == ' ' || c == '\u{85}' || c == '\u{a0}' || c
        == '\u{1680}' || ('\u{2000}' <= c && c <= '\u{200a}') || c == '\u{2028}' || c
        == '\u{2029}' || c == '\u{202f}' || c == '\u{205f}' || c == '\u{3000}'
}

/// The bounds of `t[lo..hi]` without white space at either end.
pub fn trim_range(t: &Vec<char>, lo: usize, hi: usize) -> (r: (usize, usize))
    requires
        lo <= hi <= t@.len(),
    ensures
        lo <= r.0 <= r.1 <= hi,
        t@.subrange(r.0 as int, r.1 as int) == trim(t@.subrange(lo as int, hi as int)),
{
    let ghost s = t@.subrange(lo as int, hi as int);
    let mut a: usize = lo;
    while a < hi && is_white_space_char(t[a])
        invariant
            lo <= a <= hi <= t@.len(),
            leading_space(s) == (a - lo) + leading_space(t@.subrange(a as int, hi as int)),
        decreases hi - a,
    {
        assert(t@.subrange(a as int, hi as int).drop_first() =~= t@.subrange(
            a + 1,
            hi as int,
        ));
        a = a + 1;
    }
    assert(s.skip(a - lo) =~= t@.subrange(a as int, hi as int));
    let ghost rest = t@.subrange(a as int, hi as int);
    let mut b: usize = hi;
    while b > a && is_white_space_char(t[b - 1])
        invariant
            lo <= a <= b <= hi <= t@.len(),
            rest == t@.subrange(a as int, hi as int),
            trailing_space(rest) == (hi - b) + trailing_space(t@.subrange(a as int, b as int)),
        decreases b - a,
    {
        assert(t@.subrange(a as int, b as int).drop_last() =~= t@.subrange(
            a as int,
            b - 1,
        ));
        b = b - 1;
    }
    assert(rest.take(rest.len() - trailing_space(rest)) =~= t@.subrange(a as int, b as int));
    (a, b)
}

proof fn lemma_digits_value_prefix(s: Seq<char>, k: int)
    requires
        0 <= k <= s.len(),
    ensures
        digits_value(s.take(k)) <= digits_value(s),
    decreases s.len(),
{
    if k < s.len() {
        assert(s.drop_last().take(k) =~= s.take(k));
        lemma_digits_value_prefix(s.drop_last(), k);
    } else {
        assert(s.take(k) =~= s);
    }
}

/// Reads `t[lo..hi]` as a decimal `usize`, as `parse_usize` says.
pub fn parse_usize_range(t: &Vec<char>, lo: usize, hi: usize) -> (r: Option<usize>)
    requires
        lo <= hi <= t@.len(),
    ensures
        r == parse_usize(t@.subrange(lo as int, hi as int)),
{
    let ghost s = t@.subrange(lo as int, hi as int);
    let start: usize = if lo < hi && t[lo] == '+' {
        lo + 1
    } else {
        lo
    };
    let ghost d = t@.subrange(start as int, hi as int);
    assert(numeral_digits(s) =~= d);
    if start == hi {
        return None;
    }
    let mut acc: usize = 0;
    let mut j: usize = start;
    while j < hi
        invariant
            lo <= start <= j <= hi <= t@.len(),
            d == t@.subrange(start as int, hi as int),
            s == t@.subrange(lo as int, hi as int),
            numeral_digits(s) == d,
            d.len() > 0,
            all_digits(t@.subrange(start as int, j as int)),
            acc as nat == digits_value(t@.subrange(start as int, j as int)),
        decreases hi - j,
    {
        let c = t[j];
        let ghost next = t@.subrange(start as int, j + 1);
        assert(next.drop_last() =~= t@.subrange(start as int, j as int));
        if !('0' <= c && c <= '9') {
            assert(d[j - start] == c);
            assert(!is_digit(d[j - start]));
            assert(!all_digits(d));
            return None;
        }
        let v: usize = (c as u32 - '0' as u32) as usize;
        if acc > (usize::MAX - v) / 10 {
            proof {
                assert(digits_value(next) == acc * 10 + v);
                assert(acc * 10 + v > usize::MAX) by (nonlinear_arith)
                    requires
                        acc > (usize::MAX - v) / 10,
                        v <= 9,
                ;
                assert(d.take(j + 1 - start) =~= next);
                lemma_digits_value_prefix(d, j + 1 - start);
            }
            return None;
        }
        assert(acc * 10 + v <= usize::MAX) by (nonlinear_arith)
            requires
                acc <= (usize::MAX - v) / 10,
                v <= 9,
        ;
        acc = acc * 10 + v;
        j = j + 1;
        assert(all_digits(t@.subrange(start as int, j as int))) by {
            assert forall|i: int| 0 <= i < next.len() implies is_digit(#[trigger] next[i]) by {
                if i < next.len() - 1 {
                    assert(next[i] == t@.subrange(start as int, j - 1)[i]);
                }
            }
        }
    }
    assert(t@.subrange(start as int, j as int) =~= d);
    Some(acc)
}

/// The layout asked for by the width field `t[wlo..whi]` and the precision
/// field `t[plo..phi]`: a width pads with zeros exactly when it is a number
/// whose first character is `0`.
pub fn directive_from(t: &Vec<char>, wlo: usize, whi: usize, plo: usize, phi: usize) -> (r:
    Directive)
    requires
        wlo <= whi <= t@.len(),
        plo <= phi <= t@.len(),
    ensures
        r == directive_of(
            t@.subrange(wlo as int, whi as int),
            t@.subrange(plo as int, phi as int),
        ),
        r.zero_pad <==> (parse_usize(t@.subrange(wlo as int, whi as int)) is Some && t@[wlo as int]
            == '0'),
{
    let precision = parse_usize_range(t, plo, phi);
    match parse_usize_range(t, wlo, whi) {
        Some(w) => Directive { zero_pad: t[wlo] == '0', width: w, precision },
        None => Directive { zero_pad: false, width: 0, precision },
    }
}

/// How the position field `t[lo..hi]` picks an argument: white space round
/// it is ignored, an empty field takes the next argument in turn.
pub fn position_from(t: &Vec<char>, lo: usize, hi: usize) -> (r: Position)
    requires
        lo <= hi <= t@.len(),
    ensures
        r == position_of(t@.subrange(lo as int, hi as int)),
{
    let (a, b) = trim_range(t, lo, hi);
    if a == b {
        Position::Next
    } else {
        match parse_usize_range(t, a, b) {
            Some(n) => Position::At(n),
            None => Position::Invalid,
        }
    }
}

} // verus!
