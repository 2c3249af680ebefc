//! Laws that tie the four operations together.
use vstd::prelude::*;
use crate::classify::{parse_comment, valid_starter};
use crate::classify::{line_mark, Mark, mark_of};
use crate::format::{closer_text, fmt_run, fmt_step, lemma_fmt_err_sticks, formatted, min_lead, pad, plain, repaired, CommentDetail};
use crate::scfmt::ScfmtErr;
use crate::style::whitespace_style;
use crate::infer::{blanks, close_down, end_last, inferred, infer_run, drop_tail};
use crate::lookup::comment_starter_of;
use crate::nullify::{null_line, nullified};
use crate::scfmt::{add_doc, format_doc, null_doc, remove_doc};
use crate::strip::stripped;
use crate::textlaws::{
    all_no_nl, lemma_blank_all_ws, lemma_lines_no_nl, lemma_split_no_nl, lemma_split_render,
    lemma_tb_blankness, lemma_tb_split_lines, no_nl,
};
use crate::text::{
    body, is_blank, is_ws, lead, lemma_lead_bound, lemma_lead_prefix_ws, lemma_lead_solid, lines_of,
    ends_nl, render, repeat, split_nl, trailing_blanks,
};

verus! {

/// Every comment starter of the extension table is usable.
pub proof fn lemma_table_starters_valid(e: Seq<char>)
    ensures
        comment_starter_of(e) matches Some(st) ==> valid_starter(st) && no_nl(st),
{
    reveal_strlit("--");
    reveal_strlit(";");
    reveal_strlit("//");
    reveal_strlit("%");
    reveal_strlit("'");
    reveal_strlit("*");
    reveal_strlit("#");
    reveal_strlit("\\");
    reveal_strlit(";;");
}

proof fn lemma_lines_of_empty()
    ensures
        lines_of(Seq::<char>::empty()) == Seq::<Seq<char>>::empty(),
{
    assert(split_nl(Seq::<char>::empty()) == seq![Seq::<char>::empty()]);
    assert(lines_of(Seq::<char>::empty()) =~= Seq::<Seq<char>>::empty());
}

/// An empty document maps to an empty document under all four operations.
pub proof fn lemma_empty_document(st: Seq<char>)
    ensures
        format_doc(Seq::empty(), st) == Ok::<Seq<char>, crate::scfmt::ScfmtErr>(Seq::empty()),
        remove_doc(Seq::empty(), st) == Ok::<Seq<char>, crate::scfmt::ScfmtErr>(Seq::empty()),
        add_doc(Seq::empty(), st) == Ok::<Seq<char>, crate::scfmt::ScfmtErr>(Seq::empty()),
        null_doc(Seq::empty(), st) == Seq::<char>::empty(),
{
    let e = Seq::<char>::empty();
    let none = Seq::<Seq<char>>::empty();
    lemma_lines_of_empty();
    assert(render(none, false) =~= e);
    assert(stripped(none, st) == none);
    assert(nullified(none, st) =~= none);
    let ls = lines_of(e);
    let c = crate::style::whitespace_style(ls).0;
    assert(infer_run(none, st, c) == (none, Seq::<crate::infer::OpenComment>::empty(), true));
    assert(drop_tail(none) =~= none);
    assert(close_down(none, Seq::<crate::infer::OpenComment>::empty(), 0, st, c) == (
        none,
        Seq::<crate::infer::OpenComment>::empty(),
    ));
    assert(blanks(0) =~= none);
    assert(inferred(none, st, c) =~= none);
}

proof fn lemma_tb_push(ls: Seq<Seq<char>>, x: Seq<char>)
    ensures
        trailing_blanks(ls.push(x)) == if is_blank(x) {
            1 + trailing_blanks(ls)
        } else {
            0
        },
{
    assert(ls.push(x).drop_last() =~= ls);
}

/// Whitespace followed by a character that is not whitespace is no blank line.
proof fn lemma_solid_after_ws(x: Seq<char>, y: Seq<char>)
    requires
        forall|j: int| 0 <= j < x.len() ==> is_ws(#[trigger] x[j]),
        y.len() > 0,
        !is_ws(y[0]),
    ensures
        !is_blank(x + y),
{
    lemma_lead_solid(y);
    lemma_lead_prefix_ws(x, y);
}

/// A line that is a comment is no blank line.
proof fn lemma_comment_not_blank(l: Seq<char>, st: Seq<char>)
    requires
        valid_starter(st),
        parse_comment(body(l), st) is Some,
    ensures
        !is_blank(l),
        lead(l) < l.len(),
{
    lemma_lead_bound(l);
}

proof fn lemma_null_line_blankness(l: Seq<char>, st: Seq<char>)
    requires
        valid_starter(st),
    ensures
        is_blank(null_line(l, st)) == is_blank(l),
{
    match parse_comment(body(l), st) {
        Some((sp, rem)) => {
            if rem.len() > 0 && (rem[0] == '<' || rem[0] == '>') {
                lemma_comment_not_blank(l, st);
                lemma_lead_bound(l);
                let x = l.take(lead(l) as int);
                let spc = if sp {
                    seq![' ']
                } else {
                    Seq::<char>::empty()
                };
                let y = st + spc + seq!['_'] + rem;
                assert(null_line(l, st) =~= x + y);
                assert(y[0] == st[0]);
                lemma_solid_after_ws(x, y);
            }
        },
        None => {},
    }
}

/// Nullifying keeps the number of blank lines at the end of a document, and
/// its final line feed.
pub proof fn lemma_null_keeps_trailing_blanks(s: Seq<char>, ext: Seq<char>)
    requires
        comment_starter_of(ext) is Some,
    ensures
        ({
            let st = comment_starter_of(ext)->Some_0;
            &&& trailing_blanks(nullified(lines_of(s), st)) == trailing_blanks(lines_of(s))
            &&& null_doc(s, st) == render(nullified(lines_of(s), st), ends_nl(s))
        }),
{
    let st = comment_starter_of(ext)->Some_0;
    lemma_table_starters_valid(ext);
    let ls = lines_of(s);
    let n = nullified(ls, st);
    assert forall|i: int| 0 <= i < n.len() implies is_blank(#[trigger] n[i]) == is_blank(ls[i]) by {
        lemma_null_line_blankness(ls[i], st);
    }
    lemma_tb_blankness(n, ls);
}

proof fn lemma_repeat_ws(c: char, n: nat)
    requires
        is_ws(c),
    ensures
        forall|j: int| 0 <= j < n ==> is_ws(#[trigger] repeat(c, n)[j]),
{
}

proof fn lemma_repaired_blankness(out: Seq<Seq<char>>, top: CommentDetail, w: nat, c: char)
    requires
        top.at < out.len(),
        is_ws(c),
    ensures
        repaired(out, top, w, c).len() == out.len(),
        forall|i: int|
            0 <= i < out.len() ==> is_blank(#[trigger] repaired(out, top, w, c)[i]) == is_blank(
                out[i],
            ),
{
    let r = repaired(out, top, w, c);
    let from = top.at + 1;
    let want = top.depth + w;
    if let Some(m) = min_lead(out.skip(from as int)) {
        if m < want {
            let n = (want - m) as nat;
            assert forall|i: int| 0 <= i < out.len() implies is_blank(#[trigger] r[i]) == is_blank(
                out[i],
            ) by {
                if i >= from {
                    assert(r[i] == pad(out[i], n, c));
                    if !is_blank(out[i]) {
                        lemma_repeat_ws(c, n);
                        lemma_lead_prefix_ws(repeat(c, n), out[i]);
                    }
                }
            }
        }
    }
}

/// The style's indent character is whitespace.
proof fn lemma_style_ws(ls: Seq<Seq<char>>)
    ensures
        is_ws(whitespace_style(ls).0),
{
}

/// A line of the starter after indentation, as the format pass writes
/// closers and relocated notes, is no blank line.
proof fn lemma_indented_starter_line(c: char, d: nat, st: Seq<char>, rest: Seq<char>)
    requires
        is_ws(c),
        valid_starter(st),
    ensures
        body(st + rest) == st + rest,
        !is_blank(repeat(c, d) + body(st + rest)),
{
    let y = st + rest;
    assert(y[0] == st[0]);
    lemma_lead_solid(y);
    assert(y.skip(0) =~= y);
    lemma_repeat_ws(c, d);
    lemma_solid_after_ws(repeat(c, d), y);
}

proof fn lemma_fmt_run_tb(st: Seq<char>, style: (char, usize), ls: Seq<Seq<char>>)
    requires
        valid_starter(st),
        is_ws(style.0),
    ensures
        fmt_run(st, style, ls) matches Ok((out, stack)) ==> trailing_blanks(out) == trailing_blanks(
            ls,
        ) && forall|k: int| 0 <= k < stack.len() ==> (#[trigger] stack[k]).at < out.len(),
    decreases ls.len(),
{
    if ls.len() > 0 {
        let p = ls.drop_last();
        lemma_fmt_run_tb(st, style, p);
        let l = ls.last();
        assert(ls == p.push(l));
        lemma_tb_push(p, l);
        let c = style.0;
        let w = style.1 as nat;
        if let Ok((out, stack)) = fmt_run(st, style, p) {
            match parse_comment(body(l), st) {
                Some((sp, rem)) => {
                    lemma_comment_not_blank(l, st);
                    match mark_of(rem) {
                        Mark::Open => {
                            lemma_tb_push(out, l);
                        },
                        Mark::Sibling => {
                            if stack.len() > 0 {
                                let top = stack.last();
                                let o = repaired(out, top, w, c);
                                lemma_repaired_blankness(out, top, w, c);
                                lemma_tb_blankness(o, out);
                                lemma_lead_bound(l);
                                let b = body(l);
                                assert(b.len() > 0);
                                assert(b[0] == l[lead(l) as int]);
                                lemma_repeat_ws(c, top.depth as nat);
                                lemma_solid_after_ws(repeat(c, top.depth as nat), b);
                                lemma_tb_push(o, repeat(c, top.depth as nat) + b);
                            }
                        },
                        Mark::Close => {
                            if stack.len() > 0 {
                                let top = stack.last();
                                let d = top.depth as nat;
                                let o0 = repaired(out, top, w, c);
                                lemma_repaired_blankness(out, top, w, c);
                                lemma_tb_blankness(o0, out);
                                let cl = closer_text(st, sp);
                                let tail = cl.skip(st.len() as int);
                                assert(cl =~= st + tail);
                                lemma_indented_starter_line(c, d, st, tail);
                                let o = o0.push(repeat(c, d) + body(cl));
                                lemma_tb_push(o0, repeat(c, d) + body(cl));
                                let note = rem.drop_first();
                                if !is_blank(note) {
                                    lemma_indented_starter_line(c, d, st, note);
                                    lemma_tb_push(o, repeat(c, d) + body(st + note));
                                }
                                assert forall|k: int|
                                    0 <= k < stack.drop_last().len() implies (
                                    #[trigger] stack.drop_last()[k]).at < o.len() by {
                                    assert(stack.drop_last()[k] == stack[k]);
                                }
                            }
                        },
                        Mark::NoMark => {
                            lemma_tb_push(out, plain(l));
                        },
                    }
                },
                None => {
                    lemma_tb_push(out, plain(l));
                },
            }
        }
    }
}

/// Formatting keeps the number of blank lines at the end of a document, and
/// its final line feed.
pub proof fn lemma_format_keeps_trailing_blanks(s: Seq<char>, ext: Seq<char>)
    requires
        comment_starter_of(ext) is Some,
    ensures
        ({
            let st = comment_starter_of(ext)->Some_0;
            let ls = lines_of(s);
            formatted(st, whitespace_style(ls), ls) matches Ok(out) ==> trailing_blanks(out)
                == trailing_blanks(ls) && format_doc(s, st) == Ok::<Seq<char>, ScfmtErr>(
                render(out, ends_nl(s)),
            )
        }),
{
    let st = comment_starter_of(ext)->Some_0;
    lemma_table_starters_valid(ext);
    let ls = lines_of(s);
    lemma_style_ws(ls);
    lemma_fmt_run_tb(st, whitespace_style(ls), ls);
}

proof fn lemma_fmt_run_unmarked(st: Seq<char>, style: (char, usize), ls: Seq<Seq<char>>)
    requires
        forall|i: int| 0 <= i < ls.len() ==> line_mark(#[trigger] ls[i], st) == Mark::NoMark,
    ensures
        fmt_run(st, style, ls) == Ok::<(Seq<Seq<char>>, Seq<CommentDetail>), ScfmtErr>(
            (ls.map_values(|l: Seq<char>| plain(l)), Seq::empty()),
        ),
    decreases ls.len(),
{
    if ls.len() == 0 {
        assert(ls.map_values(|l: Seq<char>| plain(l)) =~= Seq::<Seq<char>>::empty());
    } else {
        let p = ls.drop_last();
        assert forall|i: int| 0 <= i < p.len() implies line_mark(#[trigger] p[i], st)
            == Mark::NoMark by {
            assert(p[i] == ls[i]);
        }
        lemma_fmt_run_unmarked(st, style, p);
        assert(line_mark(ls[ls.len() - 1], st) == Mark::NoMark);
        assert(ls.map_values(|l: Seq<char>| plain(l)) =~= p.map_values(|l: Seq<char>| plain(l)).push(
            plain(ls.last()),
        ));
    }
}

/// A document in which no comment starter is followed by a marker comes out
/// of formatting with every line kept, blank lines emptied.
pub proof fn lemma_format_without_markers(s: Seq<char>, st: Seq<char>)
    requires
        forall|i: int|
            0 <= i < lines_of(s).len() ==> line_mark(#[trigger] lines_of(s)[i], st)
                == Mark::NoMark,
    ensures
        format_doc(s, st) == Ok::<Seq<char>, ScfmtErr>(
            render(lines_of(s).map_values(|l: Seq<char>| plain(l)), ends_nl(s)),
        ),
{
    let ls = lines_of(s);
    lemma_fmt_run_unmarked(st, whitespace_style(ls), ls);
}

/// How many regions the marker lines open, less those they close; a sibling
/// closes one and opens one.
pub open spec fn balance(ls: Seq<Seq<char>>, st: Seq<char>) -> int
    decreases ls.len(),
{
    if ls.len() == 0 {
        0
    } else {
        balance(ls.drop_last(), st) + match line_mark(ls.last(), st) {
            Mark::Open => 1int,
            Mark::Close => -1int,
            _ => 0int,
        }
    }
}

/// Every closer or sibling of `ls` has a region open before it.
pub open spec fn closers_matched(ls: Seq<Seq<char>>, st: Seq<char>) -> bool {
    forall|m: int|
        0 <= m < ls.len() && (line_mark(#[trigger] ls[m], st) == Mark::Close || line_mark(
            ls[m],
            st,
        ) == Mark::Sibling) ==> balance(ls.take(m), st) > 0
}

/// The input lines of the regions still open after `ls`, outermost first:
/// an opener opens one, a sibling replaces the innermost, a closer ends it.
pub open spec fn open_lines(ls: Seq<Seq<char>>, st: Seq<char>) -> Seq<usize>
    decreases ls.len(),
{
    if ls.len() == 0 {
        Seq::empty()
    } else {
        let o = open_lines(ls.drop_last(), st);
        let i = (ls.len() - 1) as usize;
        match line_mark(ls.last(), st) {
            Mark::Open => o.push(i),
            Mark::Sibling => if o.len() > 0 {
                o.drop_last().push(i)
            } else {
                o
            },
            Mark::Close => if o.len() > 0 {
                o.drop_last()
            } else {
                o
            },
            Mark::NoMark => o,
        }
    }
}

proof fn lemma_fmt_run_balanced(st: Seq<char>, style: (char, usize), ls: Seq<Seq<char>>)
    requires
        closers_matched(ls, st),
    ensures
        fmt_run(st, style, ls) matches Ok((_out, stack)) && stack.len() == balance(ls, st)
            && stack.len() == open_lines(ls, st).len() && forall|k: int|
            0 <= k < stack.len() ==> (#[trigger] stack[k]).line == open_lines(ls, st)[k],
    decreases ls.len(),
{
    if ls.len() > 0 {
        let p = ls.drop_last();
        assert forall|m: int|
            0 <= m < p.len() && (line_mark(#[trigger] p[m], st) == Mark::Close || line_mark(
                p[m],
                st,
            ) == Mark::Sibling) implies balance(p.take(m), st) > 0 by {
            assert(p[m] == ls[m]);
            assert(p.take(m) =~= ls.take(m));
        }
        lemma_fmt_run_balanced(st, style, p);
        assert(ls.take(ls.len() - 1) =~= p);
        assert(ls[ls.len() - 1] == ls.last());
        if let Ok((out, stack)) = fmt_run(st, style, p) {
            let o = open_lines(p, st);
            if let Ok((_o2, s2)) = fmt_run(st, style, ls) {
                let o2 = open_lines(ls, st);
                let i = (ls.len() - 1) as usize;
                assert forall|k: int| 0 <= k < s2.len() implies (#[trigger] s2[k]).line == o2[k] by {
                    if k < stack.len() {
                        assert(stack[k].line == o[k]);
                    }
                    match line_mark(ls.last(), st) {
                        Mark::Open => {
                            if k < stack.len() {
                                assert(s2[k] == stack[k]);
                                assert(o2[k] == o[k]);
                            } else {
                                assert(s2[k].line == i);
                                assert(o2[k] == i);
                            }
                        },
                        Mark::Sibling => {
                            if k < stack.len() - 1 {
                                assert(s2[k] == stack[k]);
                                assert(o2[k] == o[k]);
                            } else {
                                assert(s2[k].line == i);
                                assert(o2[k] == i);
                            }
                        },
                        Mark::Close => {
                            assert(s2[k] == stack[k]);
                            assert(o2[k] == o[k]);
                        },
                        Mark::NoMark => {
                            assert(s2[k] == stack[k]);
                            assert(o2[k] == o[k]);
                        },
                    }
                }
            }
        }
    }
}

/// A document whose every closer and sibling has a region open before it
/// never fails with `CommentClosedNothing`: it formats when the markers
/// balance, and otherwise reports `CommentNeverClosed` at the line of the
/// innermost region's latest opener or sibling.
pub proof fn lemma_matched_closers_format(s: Seq<char>, st: Seq<char>)
    requires
        closers_matched(lines_of(s), st),
    ensures
        !(format_doc(s, st) matches Err(ScfmtErr::CommentClosedNothing(_))),
        balance(lines_of(s), st) == 0 ==> format_doc(s, st) is Ok,
        open_lines(lines_of(s), st).len() == balance(lines_of(s), st),
        balance(lines_of(s), st) != 0 ==> format_doc(s, st) == Err::<Seq<char>, ScfmtErr>(
            ScfmtErr::CommentNeverClosed((open_lines(lines_of(s), st).last() + 1) as usize),
        ),
{
    let ls = lines_of(s);
    lemma_fmt_run_balanced(st, whitespace_style(ls), ls);
    if let Ok((_out, stack)) = fmt_run(st, whitespace_style(ls), ls) {
        if stack.len() > 0 {
            assert(stack[stack.len() - 1].line == open_lines(ls, st)[stack.len() - 1]);
        }
    }
}

/// The first closer or sibling met while no region is open is reported at
/// its 1-based line number `n`.
pub proof fn lemma_unmatched_closer_reported(s: Seq<char>, st: Seq<char>, n: nat)
    requires
        1 <= n <= lines_of(s).len(),
        line_mark(lines_of(s)[n - 1], st) == Mark::Close || line_mark(lines_of(s)[n - 1], st)
            == Mark::Sibling,
        closers_matched(lines_of(s).take(n - 1), st),
        balance(lines_of(s).take(n - 1), st) == 0,
    ensures
        format_doc(s, st) == Err::<Seq<char>, ScfmtErr>(ScfmtErr::CommentClosedNothing(n as usize)),
{
    let ls = lines_of(s);
    let style = whitespace_style(ls);
    let p = ls.take(n - 1);
    lemma_fmt_run_balanced(st, style, p);
    assert(ls.take(n as int).drop_last() =~= p);
    assert(ls.take(n as int).last() == ls[n - 1]);
    lemma_fmt_err_sticks(st, style, ls, n as int);
}

proof fn lemma_fmt_run_sole_opener(st: Seq<char>, style: (char, usize), ls: Seq<Seq<char>>)
    requires
        ls.len() >= 1,
        line_mark(ls[0], st) == Mark::Open,
        forall|i: int| 1 <= i < ls.len() ==> line_mark(#[trigger] ls[i], st) == Mark::NoMark,
    ensures
        fmt_run(st, style, ls) matches Ok((_out, stack)) && stack.len() == 1 && stack[0].line
            == 0,
    decreases ls.len(),
{
    if ls.len() == 1 {
        assert(ls.drop_last() =~= Seq::<Seq<char>>::empty());
        assert(ls.last() == ls[0]);
        assert(fmt_run(st, style, ls.drop_last()) == Ok::<
            (Seq<Seq<char>>, Seq<CommentDetail>),
            ScfmtErr,
        >((Seq::<Seq<char>>::empty(), Seq::<CommentDetail>::empty())));
        assert(fmt_run(st, style, ls) == fmt_step(
            st,
            style,
            (Seq::<Seq<char>>::empty(), Seq::<CommentDetail>::empty()),
            0,
            ls[0],
        ));
    } else {
        let p = ls.drop_last();
        assert(p[0] == ls[0]);
        assert forall|i: int| 1 <= i < p.len() implies line_mark(#[trigger] p[i], st)
            == Mark::NoMark by {
            assert(p[i] == ls[i]);
        }
        lemma_fmt_run_sole_opener(st, style, p);
        assert(line_mark(ls[ls.len() - 1], st) == Mark::NoMark);
    }
}

/// A document whose first line opens a region and whose other lines carry
/// no marker fails with `CommentNeverClosed(1)`.
pub proof fn lemma_sole_opener_never_closed(s: Seq<char>, st: Seq<char>)
    requires
        lines_of(s).len() >= 1,
        line_mark(lines_of(s)[0], st) == Mark::Open,
        forall|i: int|
            1 <= i < lines_of(s).len() ==> line_mark(#[trigger] lines_of(s)[i], st)
                == Mark::NoMark,
    ensures
        format_doc(s, st) == Err::<Seq<char>, ScfmtErr>(ScfmtErr::CommentNeverClosed(1)),
{
    let ls = lines_of(s);
    lemma_fmt_run_sole_opener(st, whitespace_style(ls), ls);
}

proof fn lemma_no_nl_concat(a: Seq<char>, b: Seq<char>)
    requires
        no_nl(a),
        no_nl(b),
    ensures
        no_nl(a + b),
{
    assert forall|j: int| 0 <= j < (a + b).len() implies #[trigger] (a + b)[j] != '\n' by {
        if j < a.len() {
            assert((a + b)[j] == a[j]);
        } else {
            assert((a + b)[j] == b[j - a.len()]);
        }
    }
}

proof fn lemma_no_nl_sub(a: Seq<char>, i: int, k: int)
    requires
        no_nl(a),
        0 <= i <= k <= a.len(),
    ensures
        no_nl(a.subrange(i, k)),
        no_nl(a.skip(i)),
        no_nl(a.take(k)),
{
    assert forall|j: int| 0 <= j < a.subrange(i, k).len() implies #[trigger] a.subrange(i, k)[j]
        != '\n' by {
        assert(a.subrange(i, k)[j] == a[i + j]);
    }
    assert forall|j: int| 0 <= j < a.skip(i).len() implies #[trigger] a.skip(i)[j] != '\n' by {
        assert(a.skip(i)[j] == a[i + j]);
    }
    assert forall|j: int| 0 <= j < a.take(k).len() implies #[trigger] a.take(k)[j] != '\n' by {
        assert(a.take(k)[j] == a[j]);
    }
}

proof fn lemma_no_nl_body(a: Seq<char>)
    requires
        no_nl(a),
    ensures
        no_nl(body(a)),
{
    lemma_lead_bound(a);
    lemma_no_nl_sub(a, lead(a) as int, a.len() as int);
}

proof fn lemma_no_nl_repeat(c: char, n: nat)
    requires
        c != '\n',
    ensures
        no_nl(repeat(c, n)),
{
}

/// Lines written by the format pass: no line feed in them, blank ones empty,
/// at least one for each line read.
proof fn lemma_fmt_run_shape(st: Seq<char>, style: (char, usize), ls: Seq<Seq<char>>)
    requires
        valid_starter(st),
        no_nl(st),
        is_ws(style.0),
        style.0 != '\n',
        all_no_nl(ls),
    ensures
        fmt_run(st, style, ls) matches Ok((out, _stack)) ==> all_no_nl(out) && out.len()
            >= ls.len() && forall|i: int|
            0 <= i < out.len() && is_blank(#[trigger] out[i]) ==> out[i].len() == 0,
    decreases ls.len(),
{
    if ls.len() > 0 {
        let p = ls.drop_last();
        assert forall|i: int| 0 <= i < p.len() implies no_nl(#[trigger] p[i]) by {
            assert(p[i] == ls[i]);
        }
        lemma_fmt_run_shape(st, style, p);
        lemma_fmt_run_tb(st, style, p);
        let l = ls.last();
        assert(no_nl(ls[ls.len() - 1]));
        let c = style.0;
        let w = style.1 as nat;
        if let Ok((out, stack)) = fmt_run(st, style, p) {
            let r = fmt_step(st, style, (out, stack), (ls.len() - 1) as nat, l);
            assert(fmt_run(st, style, ls) == r);
            if let Ok((o2, _s2)) = r {
                if stack.len() > 0 {
                    let top = stack.last();
                    let rep = repaired(out, top, w, c);
                    lemma_repaired_blankness(out, top, w, c);
                    assert forall|i: int| 0 <= i < rep.len() implies no_nl(#[trigger] rep[i])
                        && (is_blank(rep[i]) ==> rep[i].len() == 0) by {
                        let from = top.at + 1;
                        if let Some(m) = min_lead(out.skip(from as int)) {
                            if m < top.depth + w && i >= from {
                                let n = (top.depth + w - m) as nat;
                                assert(rep[i] == pad(out[i], n, c));
                                if !is_blank(out[i]) {
                                    lemma_no_nl_repeat(c, n);
                                    lemma_no_nl_concat(repeat(c, n), out[i]);
                                }
                            }
                        }
                    }
                }
                lemma_no_nl_body(l);
                lemma_no_nl_repeat(c, lead(l));
                match parse_comment(body(l), st) {
                    Some((sp, rem)) => {
                        lemma_comment_not_blank(l, st);
                        if stack.len() > 0 {
                            let d = stack.last().depth as nat;
                            lemma_no_nl_repeat(c, d);
                            lemma_no_nl_concat(repeat(c, d), body(l));
                            lemma_lead_bound(l);
                            assert(body(l)[0] == l[lead(l) as int]);
                            lemma_repeat_ws(c, d);
                            lemma_solid_after_ws(repeat(c, d), body(l));
                            let cl = closer_text(st, sp);
                            let tail = cl.skip(st.len() as int);
                            assert(cl =~= st + tail);
                            lemma_indented_starter_line(c, d, st, tail);
                            assert(no_nl(cl));
                            lemma_no_nl_concat(repeat(c, d), cl);
                            lemma_lead_bound(body(l));
                            let b = body(l);
                            let k: int = if sp { st.len() as int + 1 } else { st.len() as int };
                            assert(b.len() >= k);
                            lemma_no_nl_sub(b, k as int, b.len() as int);
                            assert(rem == b.skip(k as int));
                            if rem.len() > 0 {
                                lemma_no_nl_sub(rem, 1, rem.len() as int);
                                assert(rem.drop_first() == rem.skip(1));
                                let note = rem.drop_first();
                                lemma_indented_starter_line(c, d, st, note);
                                lemma_no_nl_concat(st, note);
                                lemma_no_nl_concat(repeat(c, d), st + note);
                            }
                        }
                    },
                    None => {},
                }
                assert(all_no_nl(o2));
                assert(o2.len() >= ls.len());
                assert(forall|i: int|
                    0 <= i < o2.len() && is_blank(#[trigger] o2[i]) ==> o2[i].len() == 0);
            }
        }
    }
}

proof fn lemma_lines_nonempty(s: Seq<char>)
    requires
        s.len() > 0,
    ensures
        lines_of(s).len() >= 1,
{
    lemma_split_no_nl(s.drop_last());
    let p0 = split_nl(s.drop_last());
    if s.last() != '\n' {
        assert(split_nl(s).last() == p0.last().push(s.last()));
    }
}

proof fn lemma_null_line_shape(l: Seq<char>, st: Seq<char>)
    requires
        valid_starter(st),
        no_nl(st),
        no_nl(l),
    ensures
        no_nl(null_line(l, st)),
        is_blank(null_line(l, st)) ==> null_line(l, st).len() == 0,
{
    lemma_null_line_blankness(l, st);
    match parse_comment(body(l), st) {
        Some((sp, rem)) => {
            if rem.len() > 0 && (rem[0] == '<' || rem[0] == '>') {
                lemma_lead_bound(l);
                lemma_no_nl_sub(l, 0, lead(l) as int);
                lemma_no_nl_body(l);
                let b = body(l);
                let k: int = if sp {
                    st.len() as int + 1
                } else {
                    st.len() as int
                };
                lemma_no_nl_sub(b, k, b.len() as int);
                let spc = if sp {
                    seq![' ']
                } else {
                    Seq::<char>::empty()
                };
                let x = l.take(lead(l) as int);
                lemma_no_nl_concat(x, st);
                lemma_no_nl_concat(x + st, spc);
                lemma_no_nl_concat(x + st + spc, seq!['_']);
                lemma_no_nl_concat(x + st + spc + seq!['_'], rem);
            }
        },
        None => {},
    }
}

/// Formatting keeps the number of whitespace-only pieces at the end of the
/// text, cut at its line feeds, and every whitespace-only piece of the
/// result is empty.
pub proof fn lemma_format_trailing_blank_text(s: Seq<char>, ext: Seq<char>)
    requires
        comment_starter_of(ext) is Some,
        format_doc(s, comment_starter_of(ext)->Some_0) is Ok,
    ensures
        ({
            let t = format_doc(s, comment_starter_of(ext)->Some_0)->Ok_0;
            &&& trailing_blanks(split_nl(t)) == trailing_blanks(split_nl(s))
            &&& forall|i: int|
                0 <= i < split_nl(t).len() && is_blank(#[trigger] split_nl(t)[i])
                    ==> split_nl(t)[i].len() == 0
        }),
{
    let st = comment_starter_of(ext)->Some_0;
    lemma_table_starters_valid(ext);
    if s.len() == 0 {
        lemma_empty_document(st);
        assert(s =~= Seq::<char>::empty());
        assert(split_nl(Seq::<char>::empty()) == seq![Seq::<char>::empty()]);
    } else {
        let ls = lines_of(s);
        let style = whitespace_style(ls);
        lemma_style_ws(ls);
        lemma_lines_no_nl(s);
        lemma_lines_nonempty(s);
        lemma_fmt_run_shape(st, style, ls);
        lemma_format_keeps_trailing_blanks(s, ext);
        lemma_tb_split_lines(s);
        let out = formatted(st, style, ls)->Ok_0;
        let nl = ends_nl(s);
        lemma_split_render(out, nl);
        if nl {
            lemma_tb_push(out, Seq::<char>::empty());
            lemma_blank_all_ws(Seq::<char>::empty());
        }
    }
}

/// Nullifying keeps the number of whitespace-only pieces at the end of the
/// text, cut at its line feeds, and every whitespace-only piece of the
/// result is empty.
pub proof fn lemma_null_trailing_blank_text(s: Seq<char>, ext: Seq<char>)
    requires
        comment_starter_of(ext) is Some,
    ensures
        ({
            let t = null_doc(s, comment_starter_of(ext)->Some_0);
            &&& trailing_blanks(split_nl(t)) == trailing_blanks(split_nl(s))
            &&& forall|i: int|
                0 <= i < split_nl(t).len() && is_blank(#[trigger] split_nl(t)[i])
                    ==> split_nl(t)[i].len() == 0
        }),
{
    let st = comment_starter_of(ext)->Some_0;
    lemma_table_starters_valid(ext);
    if s.len() == 0 {
        lemma_empty_document(st);
        assert(s =~= Seq::<char>::empty());
        assert(split_nl(Seq::<char>::empty()) == seq![Seq::<char>::empty()]);
    } else {
        let ls = lines_of(s);
        lemma_lines_no_nl(s);
        lemma_lines_nonempty(s);
        lemma_null_keeps_trailing_blanks(s, ext);
        lemma_tb_split_lines(s);
        let out = nullified(ls, st);
        assert forall|i: int| 0 <= i < out.len() implies no_nl(#[trigger] out[i]) && (is_blank(
            out[i],
        ) ==> out[i].len() == 0) by {
            assert(no_nl(ls[i]));
            lemma_null_line_shape(ls[i], st);
        }
        let nl = ends_nl(s);
        lemma_split_render(out, nl);
        if nl {
            lemma_tb_push(out, Seq::<char>::empty());
            lemma_blank_all_ws(Seq::<char>::empty());
        }
    }
}

} // verus!
