//! Properties of rendering that hold for every template.
use vstd::prelude::*;
use crate::model::{
    after_colon, cursor_step, directive_of, first_of, hole_directive, is_brace, leading_space,
    position_field, position_of, precision_field, scan_hole, scan_text, tokens, trailing_space,
    trim, width_field, Directive, Position, Token,
};
use crate::render::{
    hole_text, lemma_end, lemma_first_of, lemma_hole_brace, lemma_render_cons, lemma_text_brace,
    lemma_text_plain, render, render_tokens,
};
use crate::value::{decimal, digit_char, integer_text, repeat, FormatArg};

verus! {

/// Number of sequential placeholders among `toks`.
pub open spec fn sequential_count(toks: Seq<Token>) -> nat
    decreases toks.len(),
{
    if toks.len() == 0 {
        0
    } else {
        match toks[0] {
            Token::Hole(b) => cursor_step(b) + sequential_count(toks.drop_first()),
            Token::Text(_) => sequential_count(toks.drop_first()),
        }
    }
}

/// The token is not a placeholder that names an index of `n` or more.
pub open spec fn index_below(tok: Token, n: nat) -> bool {
    match tok {
        Token::Hole(b) => match position_of(position_field(b)) {
            Position::At(k) => k < n,
            _ => true,
        },
        Token::Text(_) => true,
    }
}

/// Every placeholder of `toks` that names an index names one below `n`.
pub open spec fn indices_below(toks: Seq<Token>, n: nat) -> bool {
    forall|i: int| 0 <= i < toks.len() ==> index_below(#[trigger] toks[i], n)
}

/// Rendering a run of tokens is rendering its two parts in turn, the second
/// seeing the cursor moved on by the sequential placeholders of the first.
pub proof fn lemma_render_concat<T: FormatArg>(a: Seq<Token>, b: Seq<Token>, args: Seq<T>, c: nat)
    ensures
        render_tokens(a + b, args, c) == render_tokens(a, args, c) + render_tokens(
            b,
            args,
            c + sequential_count(a),
        ),
    decreases a.len(),
{
    if a.len() == 0 {
        assert(a + b =~= b);
        assert(render_tokens(a, args, c) + render_tokens(b, args, c) =~= render_tokens(
            b,
            args,
            c,
        ));
    } else {
        let rest = a.drop_first();
        assert(a + b =~= seq![a[0]] + (rest + b));
        assert(a =~= seq![a[0]] + rest);
        lemma_render_cons(a[0], rest + b, args, c);
        lemma_render_cons(a[0], rest, args, c);
        match a[0] {
            Token::Text(s) => {
                lemma_render_concat(rest, b, args, c);
                assert(s + (render_tokens(rest, args, c) + render_tokens(
                    b,
                    args,
                    c + sequential_count(rest),
                )) =~= s + render_tokens(rest, args, c) + render_tokens(
                    b,
                    args,
                    c + sequential_count(rest),
                ));
            },
            Token::Hole(h) => {
                let c2 = c + cursor_step(h);
                lemma_render_concat(rest, b, args, c2);
                assert(hole_text(h, args, c) + (render_tokens(rest, args, c2) + render_tokens(
                    b,
                    args,
                    c2 + sequential_count(rest),
                )) =~= hole_text(h, args, c) + render_tokens(rest, args, c2) + render_tokens(
                    b,
                    args,
                    c2 + sequential_count(rest),
                ));
            },
        }
    }
}

/// A template without braces renders to itself, whatever the arguments.
pub proof fn lemma_no_braces_verbatim<T: FormatArg>(t: Seq<char>, args: Seq<T>)
    requires
        forall|i: int| 0 <= i < t.len() ==> !is_brace(#[trigger] t[i]),
    ensures
        render(t, args) == t,
{
    lemma_no_braces_scan(t, 0, 0);
    lemma_render_cons(Token::Text(t), seq![], args, 0);
    assert(t.subrange(0, t.len() as int) =~= t);
    assert(seq![Token::Text(t)] + seq![] =~= seq![Token::Text(t)]);
    assert(t + render_tokens(Seq::<Token>::empty(), args, 0) =~= t);
}

proof fn lemma_no_braces_scan(t: Seq<char>, start: int, i: int)
    requires
        0 <= start <= i <= t.len(),
        forall|j: int| 0 <= j < t.len() ==> !is_brace(#[trigger] t[j]),
    ensures
        scan_text(t, start, i) == seq![Token::Text(t.subrange(start, t.len() as int))],
    decreases t.len() - i,
{
    if i < t.len() {
        assert(!is_brace(t[i]));
        lemma_no_braces_scan(t, start, i + 1);
    }
}

/// Arguments past those that a template uses are never shown: with every
/// index it names below `args.len()`, and no more sequential placeholders
/// than `args` holds, adding arguments changes nothing.
pub proof fn lemma_extra_args_ignored<T: FormatArg>(t: Seq<char>, args: Seq<T>, extra: Seq<T>)
    requires
        sequential_count(tokens(t)) <= args.len(),
        indices_below(tokens(t), args.len()),
    ensures
        render(t, args + extra) == render(t, args),
{
    lemma_extra_args_tokens(tokens(t), args, extra, 0);
}

proof fn lemma_extra_args_tokens<T: FormatArg>(
    toks: Seq<Token>,
    args: Seq<T>,
    extra: Seq<T>,
    c: nat,
)
    requires
        c + sequential_count(toks) <= args.len(),
        indices_below(toks, args.len()),
    ensures
        render_tokens(toks, args + extra, c) == render_tokens(toks, args, c),
    decreases toks.len(),
{
    if toks.len() > 0 {
        let rest = toks.drop_first();
        assert(indices_below(rest, args.len())) by {
            assert forall|i: int| 0 <= i < rest.len() implies index_below(
                #[trigger] rest[i],
                args.len(),
            ) by {
                assert(rest[i] == toks[i + 1]);
            }
        }
        assert(index_below(toks[0], args.len()));
        match toks[0] {
            Token::Text(_) => {
                lemma_extra_args_tokens(rest, args, extra, c);
            },
            Token::Hole(h) => {
                lemma_extra_args_tokens(rest, args, extra, c + cursor_step(h));
                let all = args + extra;
                match position_of(position_field(h)) {
                    Position::Next => {
                        assert(all[c as int] == args[c as int]);
                    },
                    Position::At(k) => {
                        assert(all[k as int] == args[k as int]);
                    },
                    Position::Invalid => {},
                }
                assert(hole_text(h, all, c) == hole_text(h, args, c));
            },
        }
    }
}

/// Once the sequential cursor has passed the last argument, where exactly it
/// stands no longer matters.
proof fn lemma_cursor_past_end<T: FormatArg>(toks: Seq<Token>, args: Seq<T>, c1: nat, c2: nat)
    requires
        c1 >= args.len(),
        c2 >= args.len(),
    ensures
        render_tokens(toks, args, c1) == render_tokens(toks, args, c2),
    decreases toks.len(),
{
    if toks.len() > 0 {
        match toks[0] {
            Token::Text(_) => {
                lemma_cursor_past_end(toks.drop_first(), args, c1, c2);
            },
            Token::Hole(h) => {
                lemma_cursor_past_end(
                    toks.drop_first(),
                    args,
                    c1 + cursor_step(h),
                    c2 + cursor_step(h),
                );
            },
        }
    }
}

/// A sequential placeholder that comes after the arguments are used up
/// shows nothing, and the text around it is the same as without it.
pub proof fn lemma_missing_arg_empty<T: FormatArg>(
    a: Seq<Token>,
    body: Seq<char>,
    b: Seq<Token>,
    args: Seq<T>,
    c: nat,
)
    requires
        position_of(position_field(body)) == Position::Next,
        c + sequential_count(a) >= args.len(),
    ensures
        hole_text(body, args, c + sequential_count(a)) == Seq::<char>::empty(),
        render_tokens(a + seq![Token::Hole(body)] + b, args, c) == render_tokens(a + b, args, c),
{
    let after = c + sequential_count(a);
    lemma_render_concat(a, seq![Token::Hole(body)] + b, args, c);
    lemma_render_concat(a, b, args, c);
    assert(a + seq![Token::Hole(body)] + b =~= a + (seq![Token::Hole(body)] + b));
    lemma_render_cons(Token::Hole(body), b, args, after);
    lemma_cursor_past_end(b, args, after + 1, after);
    assert(Seq::<char>::empty() + render_tokens(b, args, after) =~= render_tokens(b, args, after));
}

/// A placeholder that names index `k` shows argument `k` (or nothing when
/// there is none) wherever it stands, and does not move the sequential
/// cursor: the placeholders after it see the cursor where the ones before
/// it left it.
pub proof fn lemma_explicit_index<T: FormatArg>(
    a: Seq<Token>,
    body: Seq<char>,
    k: usize,
    b: Seq<Token>,
    args: Seq<T>,
    c: nat,
)
    requires
        position_of(position_field(body)) == Position::At(k),
    ensures
        render_tokens(a + seq![Token::Hole(body)] + b, args, c) == render_tokens(a, args, c) + (
        if k < args.len() {
            args[k as int].text(hole_directive(body))
        } else {
            Seq::<char>::empty()
        }) + render_tokens(b, args, c + sequential_count(a)),
{
    let after = c + sequential_count(a);
    lemma_render_concat(a, seq![Token::Hole(body)] + b, args, c);
    assert(a + seq![Token::Hole(body)] + b =~= a + (seq![Token::Hole(body)] + b));
    lemma_render_cons(Token::Hole(body), b, args, after);
    assert(render_tokens(a, args, c) + (hole_text(body, args, after) + render_tokens(
        b,
        args,
        after,
    )) =~= render_tokens(a, args, c) + hole_text(body, args, after) + render_tokens(
        b,
        args,
        after,
    ));
}

/// A sequential placeholder shows the argument after those taken by the
/// sequential placeholders before it, however many placeholders that name
/// an index stand between them.
pub proof fn lemma_sequential<T: FormatArg>(
    a: Seq<Token>,
    body: Seq<char>,
    b: Seq<Token>,
    args: Seq<T>,
    c: nat,
)
    requires
        position_of(position_field(body)) == Position::Next,
    ensures
        render_tokens(a + seq![Token::Hole(body)] + b, args, c) == render_tokens(a, args, c) + (
        if c + sequential_count(a) < args.len() {
            args[(c + sequential_count(a)) as int].text(hole_directive(body))
        } else {
            Seq::<char>::empty()
        }) + render_tokens(b, args, c + sequential_count(a) + 1),
{
    let after = c + sequential_count(a);
    lemma_render_concat(a, seq![Token::Hole(body)] + b, args, c);
    assert(a + seq![Token::Hole(body)] + b =~= a + (seq![Token::Hole(body)] + b));
    lemma_render_cons(Token::Hole(body), b, args, after);
    assert(render_tokens(a, args, c) + (hole_text(body, args, after) + render_tokens(
        b,
        args,
        after + 1,
    )) =~= render_tokens(a, args, c) + hole_text(body, args, after) + render_tokens(
        b,
        args,
        after + 1,
    ));
}

/// Integers show the same text whatever precision is asked for: only the
/// width and the padding count.
pub proof fn lemma_integer_precision_ignored(
    a: i32,
    b: i64,
    c: u64,
    e: usize,
    d: Directive,
    p: Option<usize>,
)
    ensures
        a.text(d) == a.text(Directive { precision: p, ..d }),
        b.text(d) == b.text(Directive { precision: p, ..d }),
        c.text(d) == c.text(Directive { precision: p, ..d }),
        e.text(d) == e.text(Directive { precision: p, ..d }),
        a.text(d) == integer_text(a as int, d.zero_pad, d.width as nat),
{
}

/// Number of braces in `s`.
pub open spec fn brace_count(s: Seq<char>) -> nat
    decreases s.len(),
{
    if s.len() == 0 {
        0
    } else {
        (if is_brace(s[0]) {
            1nat
        } else {
            0nat
        }) + brace_count(s.drop_first())
    }
}

/// Whether `t[i..]`, read from outside any placeholder, is made of plain
/// characters, escaped braces `{{` and `}}`, and closed placeholders.
pub open spec fn well_formed_text(t: Seq<char>, i: int) -> bool
    decreases t.len() - i, 1int,
{
    if i < 0 || i >= t.len() {
        true
    } else if t[i] == '{' {
        if i + 1 < t.len() && t[i + 1] == '{' {
            well_formed_text(t, i + 2)
        } else {
            well_formed_hole(t, i + 1)
        }
    } else if t[i] == '}' {
        i + 1 < t.len() && t[i + 1] == '}' && well_formed_text(t, i + 2)
    } else {
        well_formed_text(t, i + 1)
    }
}

/// Whether `t[i..]`, read inside a placeholder, closes it with no other
/// brace first and continues well formed.
pub open spec fn well_formed_hole(t: Seq<char>, i: int) -> bool
    decreases t.len() - i, 0int,
{
    if i < 0 || i >= t.len() {
        false
    } else if t[i] == '}' {
        well_formed_text(t, i + 1)
    } else if t[i] == '{' {
        false
    } else {
        well_formed_hole(t, i + 1)
    }
}

/// Number of escaped braces (`{{` or `}}`) in `t[i..]`, read from outside
/// any placeholder.
pub open spec fn escapes_text(t: Seq<char>, i: int) -> nat
    decreases t.len() - i, 1int,
{
    if i < 0 || i >= t.len() {
        0
    } else if t[i] == '{' {
        if i + 1 < t.len() && t[i + 1] == '{' {
            1 + escapes_text(t, i + 2)
        } else {
            escapes_hole(t, i + 1)
        }
    } else if t[i] == '}' {
        if i + 1 < t.len() && t[i + 1] == '}' {
            1 + escapes_text(t, i + 2)
        } else {
            escapes_text(t, i + 1)
        }
    } else {
        escapes_text(t, i + 1)
    }
}

/// Number of escaped braces after the placeholder open at `i`.
pub open spec fn escapes_hole(t: Seq<char>, i: int) -> nat
    decreases t.len() - i, 0int,
{
    if i < 0 || i >= t.len() {
        0
    } else if t[i] == '}' {
        escapes_text(t, i + 1)
    } else {
        escapes_hole(t, i + 1)
    }
}

pub proof fn lemma_brace_count_concat(a: Seq<char>, b: Seq<char>)
    ensures
        brace_count(a + b) == brace_count(a) + brace_count(b),
    decreases a.len(),
{
    if a.len() > 0 {
        assert((a + b).drop_first() =~= a.drop_first() + b);
        assert((a + b)[0] == a[0]);
        lemma_brace_count_concat(a.drop_first(), b);
    } else {
        assert(a + b =~= b);
    }
}

/// No argument shows a brace, whatever layout is asked for.
pub open spec fn texts_without_braces<T: FormatArg>(args: Seq<T>) -> bool {
    forall|k: int, d: Directive| 0 <= k < args.len() ==> brace_count(#[trigger] args[k].text(d)) == 0
}

proof fn lemma_one_char(c: char)
    ensures
        brace_count(seq![c]) == if is_brace(c) {
            1nat
        } else {
            0nat
        },
{
    assert(seq![c].drop_first() =~= Seq::<char>::empty());
    assert(brace_count(Seq::<char>::empty()) == 0);
}

proof fn lemma_braces_text<T: FormatArg>(t: Seq<char>, i: int, args: Seq<T>, c: nat)
    requires
        0 <= i <= t.len(),
        well_formed_text(t, i),
        texts_without_braces(args),
    ensures
        brace_count(render_tokens(scan_text(t, i, i), args, c)) == escapes_text(t, i),
    decreases t.len() - i, 1int,
{
    if i == t.len() {
        lemma_end(t, 0, args, c);
    } else if t[i] == '{' || t[i] == '}' {
        lemma_text_brace(t, i, args, c);
        if t[i] == '{' {
            if i + 1 == t.len() {
                assert(!well_formed_hole(t, i + 1));
            }
            if t[i + 1] == '{' {
                lemma_hole_brace(t, i + 1, i + 1, args, c);
                lemma_braces_text(t, i + 2, args, c);
                lemma_brace_count_concat(
                    seq![t[i + 1]],
                    render_tokens(scan_text(t, i + 2, i + 2), args, c),
                );
                lemma_one_char(t[i + 1]);
            } else {
                lemma_braces_hole(t, i + 1, i + 1, args, c);
            }
        } else {
            lemma_braces_text(t, i + 2, args, c);
            lemma_brace_count_concat(
                seq![t[i + 1]],
                render_tokens(scan_text(t, i + 2, i + 2), args, c),
            );
            lemma_one_char(t[i + 1]);
        }
    } else {
        lemma_text_plain(t, i, args, c);
        lemma_braces_text(t, i + 1, args, c);
        lemma_brace_count_concat(seq![t[i]], render_tokens(scan_text(t, i + 1, i + 1), args, c));
        lemma_one_char(t[i]);
    }
}

proof fn lemma_braces_hole<T: FormatArg>(t: Seq<char>, start: int, i: int, args: Seq<T>, c: nat)
    requires
        0 <= start <= i <= t.len(),
        well_formed_hole(t, i),
        texts_without_braces(args),
    ensures
        brace_count(render_tokens(scan_hole(t, start, i), args, c)) == escapes_hole(t, i),
    decreases t.len() - i, 0int,
{
    if t[i] == '}' {
        let body = t.subrange(start, i);
        let c2 = c + cursor_step(body);
        lemma_hole_brace(t, start, i, args, c);
        lemma_braces_text(t, i + 1, args, c2);
        lemma_brace_count_concat(
            hole_text(body, args, c),
            render_tokens(scan_text(t, i + 1, i + 1), args, c2),
        );
        if hole_text(body, args, c).len() == 0 {
            assert(hole_text(body, args, c) =~= Seq::<char>::empty());
        }
    } else {
        assert(scan_hole(t, start, i) == scan_hole(t, start, i + 1));
        lemma_braces_hole(t, start, i + 1, args, c);
    }
}

/// In a template made of plain characters, escaped braces and closed
/// placeholders, each escape gives one brace of the output and no other
/// brace appears, when no argument shows a brace.
pub proof fn lemma_escapes_collapse<T: FormatArg>(t: Seq<char>, args: Seq<T>)
    requires
        well_formed_text(t, 0),
        texts_without_braces(args),
    ensures
        brace_count(render(t, args)) == escapes_text(t, 0),
{
    lemma_braces_text(t, 0, args, 0);
}

proof fn lemma_no_brace_anywhere(s: Seq<char>)
    requires
        forall|i: int| 0 <= i < s.len() ==> !is_brace(#[trigger] s[i]),
    ensures
        brace_count(s) == 0,
    decreases s.len(),
{
    if s.len() > 0 {
        assert(!is_brace(s[0]));
        assert forall|i: int| 0 <= i < s.drop_first().len() implies !is_brace(
            #[trigger] s.drop_first()[i],
        ) by {
            assert(s.drop_first()[i] == s[i + 1]);
        }
        lemma_no_brace_anywhere(s.drop_first());
    }
}

proof fn lemma_decimal_no_brace(n: nat)
    ensures
        forall|i: int| 0 <= i < decimal(n).len() ==> !is_brace(#[trigger] decimal(n)[i]),
    decreases n,
{
    assert forall|d: nat| d < 10 implies !is_brace(#[trigger] digit_char(d)) by {
        assert(d == 0 || d == 1 || d == 2 || d == 3 || d == 4 || d == 5 || d == 6 || d == 7 || d
            == 8 || d == 9);
    }
    if n >= 10 {
        lemma_decimal_no_brace(n / 10);
        let s = decimal(n);
        assert(s == decimal(n / 10).push(digit_char(n % 10)));
        assert forall|i: int| 0 <= i < s.len() implies !is_brace(#[trigger] s[i]) by {
            if i < s.len() - 1 {
                assert(s[i] == decimal(n / 10)[i]);
            }
        }
    } else {
        assert(decimal(n) == seq![digit_char(n)]);
    }
}

/// An integer's text holds no brace.
pub proof fn lemma_integer_text_without_braces(v: int, zero_pad: bool, width: nat)
    ensures
        brace_count(integer_text(v, zero_pad, width)) == 0,
{
    let digits = decimal(
        if v < 0 {
            (-v) as nat
        } else {
            v as nat
        },
    );
    lemma_decimal_no_brace(
        if v < 0 {
            (-v) as nat
        } else {
            v as nat
        },
    );
    let s = integer_text(v, zero_pad, width);
    assert forall|i: int| 0 <= i < s.len() implies !is_brace(#[trigger] s[i]) by {
        let n = (width - (if v < 0 { 1int } else { 0int }) - digits.len()) as nat;
        assert forall|j: int| 0 <= j < repeat('0', n).len() implies repeat('0', n)[j] == '0' by {}
        assert forall|j: int| 0 <= j < repeat(' ', n).len() implies repeat(' ', n)[j] == ' ' by {}
    }
    lemma_no_brace_anywhere(s);
}

/// The escape law for a template filled with `i32` values, which show no
/// braces.
pub proof fn lemma_escapes_collapse_i32(t: Seq<char>, args: Seq<i32>)
    requires
        well_formed_text(t, 0),
    ensures
        brace_count(render(t, args)) == escapes_text(t, 0),
{
    assert forall|k: int, d: Directive| 0 <= k < args.len() implies brace_count(
        #[trigger] args[k].text(d),
    ) == 0 by {
        lemma_integer_text_without_braces(args[k] as int, d.zero_pad, d.width as nat);
    }
    lemma_escapes_collapse(t, args);
}

/// `toks` without the sequential placeholders that come once the cursor,
/// starting at `c`, has reached `n`.
pub open spec fn without_spent(toks: Seq<Token>, n: nat, c: nat) -> Seq<Token>
    decreases toks.len(),
{
    if toks.len() == 0 {
        seq![]
    } else {
        match toks[0] {
            Token::Hole(b) => if cursor_step(b) == 1 && c >= n {
                without_spent(toks.drop_first(), n, c + 1)
            } else {
                seq![toks[0]] + without_spent(toks.drop_first(), n, c + cursor_step(b))
            },
            Token::Text(_) => seq![toks[0]] + without_spent(toks.drop_first(), n, c),
        }
    }
}

proof fn lemma_without_spent<T: FormatArg>(toks: Seq<Token>, args: Seq<T>, c: nat)
    ensures
        render_tokens(toks, args, c) == render_tokens(without_spent(toks, args.len(), c), args, c),
    decreases toks.len(),
{
    if toks.len() > 0 {
        let rest = toks.drop_first();
        match toks[0] {
            Token::Hole(b) => {
                if cursor_step(b) == 1 && c >= args.len() {
                    lemma_without_spent(rest, args, c + 1);
                    lemma_cursor_past_end(
                        without_spent(rest, args.len(), c + 1),
                        args,
                        c + 1,
                        c,
                    );
                    assert(hole_text(b, args, c) =~= Seq::<char>::empty());
                    assert(hole_text(b, args, c) + render_tokens(rest, args, c + 1)
                        =~= render_tokens(rest, args, c + 1));
                } else {
                    lemma_without_spent(rest, args, c + cursor_step(b));
                    lemma_render_cons(
                        toks[0],
                        without_spent(rest, args.len(), c + cursor_step(b)),
                        args,
                        c,
                    );
                }
            },
            Token::Text(_) => {
                lemma_without_spent(rest, args, c);
                lemma_render_cons(toks[0], without_spent(rest, args.len(), c), args, c);
            },
        }
    }
}

/// Sequential placeholders past the last argument write nothing, not even
/// padding: a template renders as it would with them taken out.
pub proof fn lemma_spent_placeholders_removed<T: FormatArg>(t: Seq<char>, args: Seq<T>)
    ensures
        render(t, args) == render_tokens(without_spent(tokens(t), args.len(), 0), args, 0),
{
    lemma_without_spent(tokens(t), args, 0);
}

/// A sequential placeholder that stands in a template after the arguments
/// are used up shows nothing, and the template renders as without it.
pub proof fn lemma_missing_arg_in_template<T: FormatArg>(
    t: Seq<char>,
    a: Seq<Token>,
    body: Seq<char>,
    b: Seq<Token>,
    args: Seq<T>,
)
    requires
        tokens(t) == a + seq![Token::Hole(body)] + b,
        position_of(position_field(body)) == Position::Next,
        sequential_count(a) >= args.len(),
    ensures
        hole_text(body, args, sequential_count(a)) == Seq::<char>::empty(),
        render(t, args) == render_tokens(a + b, args, 0),
{
    lemma_missing_arg_empty(a, body, b, args, 0);
}

proof fn lemma_hole_skip(t: Seq<char>, start: int, i: int, j: int)
    requires
        0 <= start <= i <= j <= t.len(),
        forall|k: int| i <= k < j ==> !is_brace(#[trigger] t[k]),
    ensures
        scan_hole(t, start, i) == scan_hole(t, start, j),
    decreases j - i,
{
    if i < j {
        assert(!is_brace(t[i]));
        lemma_hole_skip(t, start, i + 1, j);
    }
}

/// A template that is one placeholder shows what that placeholder shows.
pub proof fn lemma_single_placeholder<T: FormatArg>(body: Seq<char>, args: Seq<T>)
    requires
        forall|k: int| 0 <= k < body.len() ==> !is_brace(#[trigger] body[k]),
    ensures
        render(seq!['{'] + body + seq!['}'], args) == hole_text(body, args, 0),
{
    let t = seq!['{'] + body + seq!['}'];
    let n = t.len() as int;
    let e = Seq::<char>::empty();
    assert forall|k: int| 1 <= k < n - 1 implies !is_brace(#[trigger] t[k]) by {
        assert(t[k] == body[k - 1]);
    }
    lemma_hole_skip(t, 1, 1, n - 1);
    assert(t.subrange(1, n - 1) =~= body);
    assert(t.subrange(0, 0) =~= e);
    lemma_end(t, 0, args, cursor_step(body));
    let last = scan_text(t, n, n);
    assert(scan_hole(t, 1, n - 1) == seq![Token::Hole(body)] + last);
    assert(scan_text(t, 0, 0) == seq![Token::Text(e)] + scan_hole(t, 1, 1));
    lemma_render_cons(Token::Text(e), seq![Token::Hole(body)] + last, args, 0);
    lemma_render_cons(Token::Hole(body), last, args, 0);
    assert(e + (hole_text(body, args, 0) + e) =~= hole_text(body, args, 0));
}

/// A value whose text does not depend on the precision asked for.
pub open spec fn ignores_precision<T: FormatArg>(x: T) -> bool {
    forall|d: Directive, q: Option<usize>| #[trigger] x.text(Directive { precision: q, ..d }) == x.text(d)
}

/// `{:w.p}` shows a value that ignores precision (any integer) as `{:w}`
/// does: the width still applies, the precision changes nothing.
pub proof fn lemma_precision_field_ignored<T: FormatArg>(w: Seq<char>, p: Seq<char>, x: T)
    requires
        forall|k: int| 0 <= k < w.len() ==> !is_brace(#[trigger] w[k]) && w[k] != '.',
        forall|k: int| 0 <= k < p.len() ==> !is_brace(#[trigger] p[k]),
        ignores_precision(x),
    ensures
        render(seq!['{', ':'] + w + seq!['.'] + p + seq!['}'], seq![x]) == render(
            seq!['{', ':'] + w + seq!['}'],
            seq![x],
        ),
        render(seq!['{', ':'] + w + seq!['}'], seq![x]) == x.text(directive_of(w, seq![])),
{
    let e = Seq::<char>::empty();
    let b1 = seq![':'] + w + seq!['.'] + p;
    let b2 = seq![':'] + w;
    assert(seq!['{', ':'] + w + seq!['.'] + p + seq!['}'] =~= seq!['{'] + b1 + seq!['}']);
    assert(seq!['{', ':'] + w + seq!['}'] =~= seq!['{'] + b2 + seq!['}']);
    assert forall|k: int| 0 <= k < b1.len() implies !is_brace(#[trigger] b1[k]) by {
        if 1 <= k < 1 + w.len() {
            assert(b1[k] == w[k - 1]);
        } else if k > w.len() + 1 {
            assert(b1[k] == p[k - w.len() - 2]);
        }
    }
    assert forall|k: int| 0 <= k < b2.len() implies !is_brace(#[trigger] b2[k]) by {
        if k >= 1 {
            assert(b2[k] == w[k - 1]);
        }
    }
    lemma_single_placeholder(b1, seq![x]);
    lemma_single_placeholder(b2, seq![x]);
    lemma_first_of(b1, ':', 0);
    lemma_first_of(b2, ':', 0);
    assert(position_field(b1) =~= e);
    assert(position_field(b2) =~= e);
    assert(leading_space(e) == 0);
    assert(e.skip(0) =~= e);
    assert(trailing_space(e) == 0);
    assert(trim(e) =~= e);
    let r1 = after_colon(b1);
    let r2 = after_colon(b2);
    assert(r1 =~= w + seq!['.'] + p);
    assert(r2 =~= w);
    lemma_first_of(r1, '.', w.len() as int);
    lemma_first_of(r2, '.', w.len() as int);
    assert(width_field(b1) =~= w);
    assert(width_field(b2) =~= w);
    assert(precision_field(b1) =~= p);
    assert(precision_field(b2) =~= e);
    let d1 = hole_directive(b1);
    let d2 = hole_directive(b2);
    assert(d1 == Directive { precision: d1.precision, ..d2 });
    assert(x.text(Directive { precision: d1.precision, ..d2 }) == x.text(d2));
}

/// `i32` values ignore the precision.
pub proof fn lemma_i32_ignores_precision(x: i32)
    ensures
        ignores_precision(x),
{
}

} // verus!
