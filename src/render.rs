//! Rendering a template: one pass over its characters, writing text and
//! placeholder values to a sink as they come.
use vstd::prelude::*;
use crate::fields::{directive_from, position_from};
use crate::model::{
    after_colon, cursor_step, first_of, hole_directive, position_field, precision_field,
    scan_hole, scan_text, target, tokens, width_field, Directive, Position, Token,
};
use crate::sink::{Sink, SinkError};
use crate::value::FormatArg;

verus! {

/// What a placeholder with this body shows, with the sequential cursor at
/// `cursor`: the chosen argument laid out as the body asks, or nothing.
pub open spec fn hole_text<T: FormatArg>(body: Seq<char>, args: Seq<T>, cursor: nat) -> Seq<
    char,
> {
    match target(body, args.len(), cursor) {
        Some(k) => args[k as int].text(hole_directive(body)),
        None => seq![],
    }
}

/// The text of a run of tokens, its first placeholder seeing the sequential
/// cursor at `cursor`.
pub open spec fn render_tokens<T: FormatArg>(toks: Seq<Token>, args: Seq<T>, cursor: nat) -> Seq<
    char,
>
    decreases toks.len(),
{
    if toks.len() == 0 {
        seq![]
    } else {
        match toks[0] {
            Token::Text(s) => s + render_tokens(toks.drop_first(), args, cursor),
            Token::Hole(b) => hole_text(b, args, cursor) + render_tokens(
                toks.drop_first(),
                args,
                cursor + cursor_step(b),
            ),
        }
    }
}

/// The text of template `t` filled from `args`.
pub open spec fn render<T: FormatArg>(t: Seq<char>, args: Seq<T>) -> Seq<char> {
    render_tokens(tokens(t), args, 0)
}

pub proof fn lemma_render_cons<T: FormatArg>(tok: Token, rest: Seq<Token>, args: Seq<T>, c: nat)
    ensures
        render_tokens(seq![tok] + rest, args, c) == match tok {
            Token::Text(s) => s + render_tokens(rest, args, c),
            Token::Hole(b) => hole_text(b, args, c) + render_tokens(rest, args, c + cursor_step(b)),
        },
{
    let all = seq![tok] + rest;
    assert(all[0] == tok);
    assert(all.drop_first() =~= rest);
}

/// The text already scanned in literal mode is output as it stands.
pub proof fn lemma_text_split<T: FormatArg>(t: Seq<char>, start: int, i: int, args: Seq<T>, c: nat)
    requires
        0 <= start <= i <= t.len(),
    ensures
        render_tokens(scan_text(t, start, i), args, c) == t.subrange(start, i) + render_tokens(
            scan_text(t, i, i),
            args,
            c,
        ),
    decreases t.len() - i,
{
    if i >= t.len() {
        lemma_render_cons(Token::Text(t.subrange(start, t.len() as int)), seq![], args, c);
        lemma_render_cons(Token::Text(t.subrange(i, t.len() as int)), seq![], args, c);
        assert(seq![Token::Text(t.subrange(start, t.len() as int))] + seq![] =~= seq![
            Token::Text(t.subrange(start, t.len() as int)),
        ]);
        assert(seq![Token::Text(t.subrange(i, t.len() as int))] + seq![] =~= seq![
            Token::Text(t.subrange(i, t.len() as int)),
        ]);
        assert(t.subrange(i, t.len() as int) =~= seq![]);
        assert(t.subrange(start, t.len() as int) + seq![] =~= t.subrange(start, i) + (seq![]
            + seq![]));
    } else if t[i] == '{' || t[i] == '}' {
        let rest = if t[i] == '{' {
            if i + 1 == t.len() {
                seq![]
            } else {
                scan_hole(t, i + 1, i + 1)
            }
        } else {
            if i + 1 == t.len() {
                seq![]
            } else {
                scan_text(t, i + 1, i + 2)
            }
        };
        assert(scan_text(t, start, i) =~= seq![Token::Text(t.subrange(start, i))] + rest);
        assert(scan_text(t, i, i) =~= seq![Token::Text(t.subrange(i, i))] + rest);
        lemma_render_cons(Token::Text(t.subrange(start, i)), rest, args, c);
        lemma_render_cons(Token::Text(t.subrange(i, i)), rest, args, c);
        assert(t.subrange(i, i) + render_tokens(rest, args, c) =~= render_tokens(rest, args, c));
    } else {
        lemma_text_split(t, start, i + 1, args, c);
        lemma_text_split(t, i, i + 1, args, c);
        assert(t.subrange(start, i + 1) =~= t.subrange(start, i) + t.subrange(i, i + 1));
        assert(t.subrange(start, i + 1) + render_tokens(scan_text(t, i + 1, i + 1), args, c)
            =~= t.subrange(start, i) + (t.subrange(i, i + 1) + render_tokens(
            scan_text(t, i + 1, i + 1),
            args,
            c,
        )));
    }
}

/// `first_of` is the first index that holds `c`, or the length.
pub proof fn lemma_first_of(s: Seq<char>, c: char, k: int)
    requires
        0 <= k <= s.len(),
        k == s.len() || s[k] == c,
        forall|j: int| 0 <= j < k ==> s[j] != c,
    ensures
        first_of(s, c) == k,
    decreases s.len(),
{
    if s.len() > 0 && k > 0 {
        assert(s[0] != c);
        assert forall|j: int| 0 <= j < k - 1 implies s.drop_first()[j] != c by {
            assert(s.drop_first()[j] == s[j + 1]);
        }
        lemma_first_of(s.drop_first(), c, k - 1);
    }
}

/// Where the fields of an open placeholder whose body began at `start` stand,
/// after its characters before `i` were read: `colon` is its first `:`, and
/// `dot` the first `.` after that colon.
pub open spec fn fields_tracked(
    t: Seq<char>,
    start: int,
    i: int,
    colon: Option<usize>,
    dot: Option<usize>,
) -> bool {
    match colon {
        None => dot is None && forall|j: int| start <= j < i ==> t[j] != ':',
        Some(c) => {
            &&& start <= c < i
            &&& t[c as int] == ':'
            &&& forall|j: int| start <= j < c ==> t[j] != ':'
            &&& match dot {
                None => forall|j: int| c < j < i ==> t[j] != '.',
                Some(d) => {
                    &&& c < d < i
                    &&& t[d as int] == '.'
                    &&& forall|j: int| c < j < d ==> t[j] != '.'
                },
            }
        },
    }
}

/// Renders the placeholder with body `t[start..i]`, the field bounds having
/// been tracked while it was read; returns the cursor after it.
fn write_hole<T: FormatArg>(
    t: &Vec<char>,
    start: usize,
    i: usize,
    colon: Option<usize>,
    dot: Option<usize>,
    args: &[T],
    cursor: usize,
    sink: &mut Sink,
) -> (r: Result<usize, SinkError>)
    requires
        start <= i < t.len(),
        cursor <= i,
        fields_tracked(t@, start as int, i as int, colon, dot),
        old(sink).wf(),
    ensures
        final(sink).wf(),
        final(sink).limit() == old(sink).limit(),
        ({
            let body = t@.subrange(start as int, i as int);
            let text = hole_text(body, args@, cursor as nat);
            &&& r is Ok <==> old(sink).has_room(text.len())
            &&& r is Ok ==> final(sink).contents() == old(sink).contents() + text && r->Ok_0
                == cursor + cursor_step(body)
            &&& r is Err ==> final(sink).contents() == old(sink).contents()
        }),
{
    let ghost body = t@.subrange(start as int, i as int);
    let pos_end: usize = match colon {
        Some(c) => c,
        None => i,
    };
    let (wlo, whi, plo, phi) = match colon {
        Some(c) => match dot {
            Some(d) => (c + 1, d, d + 1, i),
            None => (c + 1, i, i, i),
        },
        None => (i, i, i, i),
    };
    proof {
        lemma_first_of(body, ':', pos_end - start);
        assert(position_field(body) =~= t@.subrange(start as int, pos_end as int));
        match colon {
            Some(c) => {
                let rest = after_colon(body);
                assert(rest =~= t@.subrange(c + 1, i as int));
                match dot {
                    Some(d) => {
                        lemma_first_of(rest, '.', d - c - 1);
                    },
                    None => {
                        lemma_first_of(rest, '.', i - c - 1);
                    },
                }
                assert(width_field(body) =~= t@.subrange(wlo as int, whi as int));
                assert(precision_field(body) =~= t@.subrange(plo as int, phi as int));
            },
            None => {
                assert(after_colon(body) =~= seq![]);
                assert(width_field(body) =~= t@.subrange(wlo as int, whi as int));
                assert(precision_field(body) =~= t@.subrange(plo as int, phi as int));
            },
        }
    }
    let pos = position_from(t, start, pos_end);
    let d: Directive = directive_from(t, wlo, whi, plo, phi);
    let mut next = cursor;
    let chosen: Option<usize> = match pos {
        Position::Next => {
            next = cursor + 1;
            if cursor < args.len() {
                Some(cursor)
            } else {
                None
            }
        },
        Position::At(k) => if k < args.len() {
            Some(k)
        } else {
            None
        },
        Position::Invalid => None,
    };
    assert(hole_directive(body) == d);
    match chosen {
        Some(k) => {
            let s = args[k].to_text(&d);
            assert(s@ == hole_text(body, args@, cursor as nat));
            match sink.write_str(s.as_str()) {
                Ok(()) => Ok(next),
                Err(e) => Err(e),
            }
        },
        None => {
            proof {
                sink.lemma_within_limit();
            }
            Ok(next)
        },
    }
}

/// What is left to render from literal mode at a brace.
pub(crate) proof fn lemma_text_brace<T: FormatArg>(t: Seq<char>, i: int, args: Seq<T>, c: nat)
    requires
        0 <= i < t.len(),
        t[i] == '{' || t[i] == '}',
    ensures
        i + 1 == t.len() ==> render_tokens(scan_text(t, i, i), args, c) == Seq::<char>::empty(),
        i + 1 < t.len() && t[i] == '{' ==> render_tokens(scan_text(t, i, i), args, c)
            == render_tokens(scan_hole(t, i + 1, i + 1), args, c),
        i + 1 < t.len() && t[i] == '}' ==> render_tokens(scan_text(t, i, i), args, c) == seq![
            t[i + 1],
        ] + render_tokens(scan_text(t, i + 2, i + 2), args, c),
{
    let rest = if t[i] == '{' {
        if i + 1 == t.len() {
            seq![]
        } else {
            scan_hole(t, i + 1, i + 1)
        }
    } else {
        if i + 1 == t.len() {
            seq![]
        } else {
            scan_text(t, i + 1, i + 2)
        }
    };
    assert(scan_text(t, i, i) =~= seq![Token::Text(t.subrange(i, i))] + rest);
    lemma_render_cons(Token::Text(t.subrange(i, i)), rest, args, c);
    assert(t.subrange(i, i) + render_tokens(rest, args, c) =~= render_tokens(rest, args, c));
    if i + 1 < t.len() && t[i] == '}' {
        lemma_text_split(t, i + 1, i + 2, args, c);
        assert(t.subrange(i + 1, i + 2) =~= seq![t[i + 1]]);
    }
}

/// What is left to render from literal mode at a character that is no brace.
pub(crate) proof fn lemma_text_plain<T: FormatArg>(t: Seq<char>, i: int, args: Seq<T>, c: nat)
    requires
        0 <= i < t.len(),
        t[i] != '{' && t[i] != '}',
    ensures
        render_tokens(scan_text(t, i, i), args, c) == seq![t[i]] + render_tokens(
            scan_text(t, i + 1, i + 1),
            args,
            c,
        ),
{
    assert(scan_text(t, i, i) == scan_text(t, i, i + 1));
    lemma_text_split(t, i, i + 1, args, c);
    assert(t.subrange(i, i + 1) =~= seq![t[i]]);
}

/// What is left to render inside a placeholder at a brace.
pub(crate) proof fn lemma_hole_brace<T: FormatArg>(t: Seq<char>, start: int, i: int, args: Seq<T>, c: nat)
    requires
        0 <= start <= i < t.len(),
        t[i] == '{' || t[i] == '}',
    ensures
        t[i] == '}' ==> render_tokens(scan_hole(t, start, i), args, c) == hole_text(
            t.subrange(start, i),
            args,
            c,
        ) + render_tokens(scan_text(t, i + 1, i + 1), args, c + cursor_step(t.subrange(start, i))),
        t[i] == '{' ==> render_tokens(scan_hole(t, start, i), args, c) == seq![t[i]]
            + render_tokens(scan_text(t, i + 1, i + 1), args, c),
{
    if t[i] == '}' {
        let body = t.subrange(start, i);
        let rest = scan_text(t, i + 1, i + 1);
        assert(scan_hole(t, start, i) =~= seq![Token::Hole(body)] + rest);
        lemma_render_cons(Token::Hole(body), rest, args, c);
    } else {
        lemma_text_split(t, i, i + 1, args, c);
        assert(t.subrange(i, i + 1) =~= seq![t[i]]);
    }
}

/// Nothing is left to render once the template is read.
pub(crate) proof fn lemma_end<T: FormatArg>(t: Seq<char>, start: int, args: Seq<T>, c: nat)
    requires
        0 <= start <= t.len(),
    ensures
        render_tokens(scan_hole(t, start, t.len() as int), args, c) == Seq::<char>::empty(),
        render_tokens(scan_text(t, t.len() as int, t.len() as int), args, c) == Seq::<
            char,
        >::empty(),
{
    let n = t.len() as int;
    lemma_render_cons(Token::Text(t.subrange(n, n)), seq![], args, c);
    assert(scan_text(t, n, n) =~= seq![Token::Text(t.subrange(n, n))] + seq![]);
    assert(t.subrange(n, n) + render_tokens(seq![], args, c) =~= Seq::<char>::empty());
}

/// A write refused for want of room means the whole text had no room.
proof fn lemma_refused(now: Sink, before: Sink, rendered: Seq<char>, piece: Seq<char>, more: Seq<char>)
    requires
        now.limit() == before.limit(),
        before.contents() + rendered == now.contents() + (piece + more),
        !now.has_room(piece.len()),
    ensures
        !before.has_room(rendered.len()),
        now.contents().is_prefix_of(before.contents() + rendered),
{
    assert((before.contents() + rendered).len() == now.contents().len() + piece.len() + more.len());
    assert(now.contents() =~= (before.contents() + rendered).subrange(0, now.contents().len() as int));
}

/// Writes template `t`, filled from `args`, to `sink`.
///
/// It succeeds exactly when the whole text fits, and then the sink has
/// gained that text. When it fails, the sink holds what was written before
/// the failing write: the start of that text, nothing else.
pub fn render_into<T: FormatArg>(t: &Vec<char>, args: &[T], sink: &mut Sink) -> (r: Result<
    (),
    SinkError,
>)
    requires
        old(sink).wf(),
    ensures
        final(sink).wf(),
        final(sink).limit() == old(sink).limit(),
        r is Ok <==> old(sink).has_room(render(t@, args@).len()),
        r is Ok ==> final(sink).contents() == old(sink).contents() + render(t@, args@),
        final(sink).contents().is_prefix_of(old(sink).contents() + render(t@, args@)),
{
    let n = t.len();
    let ghost rendered = render(t@, args@);
    let ghost first = *old(sink);
    let mut i: usize = 0;
    let mut start: usize = 0;
    let mut in_hole = false;
    let mut colon: Option<usize> = None;
    let mut dot: Option<usize> = None;
    let mut cursor: usize = 0;
    while i < n
        invariant
            n == t.len(),
            sink.wf(),
            sink.limit() == first.limit(),
            first == *old(sink),
            rendered == render(t@, args@),
            start <= i <= n,
            cursor <= i,
            !in_hole ==> start == i && first.contents() + rendered == sink.contents()
                + render_tokens(scan_text(t@, i as int, i as int), args@, cursor as nat),
            in_hole ==> first.contents() + rendered == sink.contents() + render_tokens(
                scan_hole(t@, start as int, i as int),
                args@,
                cursor as nat,
            ),
            in_hole ==> fields_tracked(t@, start as int, i as int, colon, dot),
        decreases n - i,
    {
        let c = t[i];
        if !in_hole {
            if c == '{' || c == '}' {
                proof {
                    lemma_text_brace(t@, i as int, args@, cursor as nat);
                }
                if i + 1 == n {
                    proof {
                        sink.lemma_within_limit();
                        assert(first.contents() + rendered =~= sink.contents());
                    }
                    return Ok(());
                }
                if c == '{' {
                    in_hole = true;
                    colon = None;
                    dot = None;
                    i = i + 1;
                    start = i;
                } else {
                    let forced = t[i + 1];
                    let ghost more = render_tokens(scan_text(t@, i + 2, i + 2), args@, cursor as nat);
                    if sink.write_char(forced).is_err() {
                        proof {
                            lemma_refused(*sink, first, rendered, seq![forced], more);
                        }
                        return Err(SinkError::Full);
                    }
                    i = i + 2;
                    start = i;
                }
            } else {
                proof {
                    lemma_text_plain(t@, i as int, args@, cursor as nat);
                }
                let ghost more = render_tokens(scan_text(t@, i + 1, i + 1), args@, cursor as nat);
                if sink.write_char(c).is_err() {
                    proof {
                        lemma_refused(*sink, first, rendered, seq![c], more);
                    }
                    return Err(SinkError::Full);
                }
                i = i + 1;
                start = i;
            }
        } else if c == '}' {
            proof {
                lemma_hole_brace(t@, start as int, i as int, args@, cursor as nat);
            }
            let ghost body = t@.subrange(start as int, i as int);
            let ghost more = render_tokens(
                scan_text(t@, i + 1, i + 1),
                args@,
                (cursor + cursor_step(body)) as nat,
            );
            match write_hole(t, start, i, colon, dot, args, cursor, sink) {
                Ok(next) => {
                    cursor = next;
                },
                Err(e) => {
                    proof {
                        lemma_refused(*sink, first, rendered, hole_text(body, args@, cursor as nat), more);
                    }
                    return Err(e);
                },
            }
            in_hole = false;
            i = i + 1;
            start = i;
        } else if c == '{' {
            proof {
                lemma_hole_brace(t@, start as int, i as int, args@, cursor as nat);
            }
            let ghost more = render_tokens(scan_text(t@, i + 1, i + 1), args@, cursor as nat);
            if sink.write_char(c).is_err() {
                proof {
                    lemma_refused(*sink, first, rendered, seq![c], more);
                }
                return Err(SinkError::Full);
            }
            in_hole = false;
            i = i + 1;
            start = i;
        } else {
            if c == ':' && colon.is_none() {
                colon = Some(i);
            } else if c == '.' && colon.is_some() && dot.is_none() {
                dot = Some(i);
            }
            assert(scan_hole(t@, start as int, i as int) == scan_hole(t@, start as int, i + 1));
            i = i + 1;
        }
    }
    proof {
        lemma_end(t@, start as int, args@, cursor as nat);
        sink.lemma_within_limit();
        assert(first.contents() + rendered =~= sink.contents());
    }
    Ok(())
}

} // verus!
