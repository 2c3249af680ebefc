//! The format engine: canonical indentation inside bracketed regions.
use vstd::prelude::*;
use crate::classify::{
    Mark, mark_at, mark_of, parse_comment, remove_comment_notation_if_it_exists, tail_from,
};
use crate::scfmt::ScfmtErr;
use crate::text::{
    add_whitespace, body, chop_off_beginning_spaces, copy_line, is_blank, lead, lead_len,
    line_is_only_whitepace, lv, push_all, repeat, set_whitespace,
};

verus! {

/// An open region: the input line of its opener, the output line that holds
/// the opener, and the opener's depth.
#[derive(PartialEq, Eq, Structural, Clone, Copy, Debug)]
pub struct CommentDetail {
    pub line: usize,
    pub at: usize,
    pub depth: usize,
}

/// The smallest leading whitespace among the lines that are not blank.
pub open spec fn min_lead(ls: Seq<Seq<char>>) -> Option<nat>
    decreases ls.len(),
{
    if ls.len() == 0 {
        None
    } else {
        let m = min_lead(ls.drop_last());
        let l = ls.last();
        if is_blank(l) {
            m
        } else {
            match m {
                None => Some(lead(l)),
                Some(x) => Some(
                    if lead(l) < x {
                        lead(l)
                    } else {
                        x
                    },
                ),
            }
        }
    }
}

/// A line pushed right by `n` columns; a blank line becomes empty.
pub open spec fn pad(l: Seq<char>, n: nat, c: char) -> Seq<char> {
    if is_blank(l) {
        Seq::empty()
    } else {
        repeat(c, n) + l
    }
}

/// The output after repairing the interior of region `top` before it closes:
/// every line after the opener is pushed right just enough for the shallowest
/// one to sit one indent unit deeper than the opener.
pub open spec fn repaired(out: Seq<Seq<char>>, top: CommentDetail, width: nat, c: char) -> Seq<
    Seq<char>,
> {
    let from = top.at + 1;
    let inner = out.skip(from);
    let want = top.depth + width;
    match min_lead(inner) {
        Some(m) => if m < want {
            out.take(from) + inner.map_values(|l: Seq<char>| pad(l, (want - m) as nat, c))
        } else {
            out
        },
        None => out,
    }
}

/// A line that is not bracketed: kept, or emptied when blank.
pub open spec fn plain(l: Seq<char>) -> Seq<char> {
    if is_blank(l) {
        Seq::empty()
    } else {
        l
    }
}

/// The text of a closer line, before its indentation.
pub open spec fn closer_text(st: Seq<char>, sp: bool) -> Seq<char> {
    st + (if sp {
        seq![' ']
    } else {
        Seq::<char>::empty()
    }) + seq!['<']
}

/// One line of the format pass, from state `s` after `i` lines.
pub open spec fn fmt_step(
    st: Seq<char>,
    style: (char, usize),
    s: (Seq<Seq<char>>, Seq<CommentDetail>),
    i: nat,
    l: Seq<char>,
) -> Result<(Seq<Seq<char>>, Seq<CommentDetail>), ScfmtErr> {
    let (out, stack) = s;
    let c = style.0;
    let w = style.1 as nat;
    match parse_comment(body(l), st) {
        Some((sp, rem)) => match mark_of(rem) {
            Mark::Open => Ok(
                (
                    out.push(l),
                    stack.push(
                        CommentDetail { line: i as usize, at: out.len() as usize, depth: lead(l) as usize },
                    ),
                ),
            ),
            Mark::Sibling => if stack.len() == 0 {
                Err(ScfmtErr::CommentClosedNothing((i + 1) as usize))
            } else {
                let top = stack.last();
                let o = repaired(out, top, w, c);
                Ok(
                    (
                        o.push(repeat(c, top.depth as nat) + body(l)),
                        stack.drop_last().push(
                            CommentDetail { line: i as usize, at: o.len() as usize, depth: top.depth },
                        ),
                    ),
                )
            },
            Mark::Close => if stack.len() == 0 {
                Err(ScfmtErr::CommentClosedNothing((i + 1) as usize))
            } else {
                let top = stack.last();
                let d = top.depth as nat;
                let o = repaired(out, top, w, c).push(repeat(c, d) + body(closer_text(st, sp)));
                let note = rem.drop_first();
                if is_blank(note) {
                    Ok((o, stack.drop_last()))
                } else {
                    Ok((o.push(repeat(c, d) + body(st + note)), stack.drop_last()))
                }
            },
            Mark::NoMark => Ok((out.push(plain(l)), stack)),
        },
        None => Ok((out.push(plain(l)), stack)),
    }
}

/// The format pass over the lines `ls`, or the first error it meets.
pub open spec fn fmt_run(st: Seq<char>, style: (char, usize), ls: Seq<Seq<char>>) -> Result<
    (Seq<Seq<char>>, Seq<CommentDetail>),
    ScfmtErr,
>
    decreases ls.len(),
{
    if ls.len() == 0 {
        Ok((Seq::empty(), Seq::empty()))
    } else {
        match fmt_run(st, style, ls.drop_last()) {
            Err(e) => Err(e),
            Ok(s) => fmt_step(st, style, s, (ls.len() - 1) as nat, ls.last()),
        }
    }
}

/// The formatted lines of `ls`: the pass's output when every region closed,
/// else the error for the innermost region left open.
pub open spec fn formatted(st: Seq<char>, style: (char, usize), ls: Seq<Seq<char>>) -> Result<
    Seq<Seq<char>>,
    ScfmtErr,
> {
    match fmt_run(st, style, ls) {
        Err(e) => Err(e),
        Ok((out, stack)) => if stack.len() > 0 {
            Err(ScfmtErr::CommentNeverClosed((stack.last().line + 1) as usize))
        } else {
            Ok(out)
        },
    }
}

/// Pushes right the lines inside the innermost open region, so that they sit
/// deeper than its markers.
pub fn ensure_previous_lines_have_correct_indentation(
    formatted_lines: &mut Vec<Vec<char>>,
    top: CommentDetail,
    tab_spaces: usize,
    whitespace_char: char,
)
    requires
        top.at < old(formatted_lines).len(),
    ensures
        lv(final(formatted_lines)@) == repaired(
            lv(old(formatted_lines)@),
            top,
            tab_spaces as nat,
            whitespace_char,
        ),
{
    let ghost old_lines = lv(formatted_lines@);
    let from = top.at + 1;
    let mut found = false;
    let mut low: usize = 0;
    let mut k: usize = from;
    while k < formatted_lines.len()
        invariant
            from <= k <= formatted_lines.len(),
            lv(formatted_lines@) == old_lines,
            min_lead(old_lines.subrange(from as int, k as int)) == (if found {
                Some(low as nat)
            } else {
                None::<nat>
            }),
        decreases formatted_lines.len() - k,
    {
        assert(old_lines.subrange(from as int, k + 1).drop_last() =~= old_lines.subrange(
            from as int,
            k as int,
        ));
        assert(old_lines[k as int] == formatted_lines@[k as int]@);
        if !line_is_only_whitepace(&formatted_lines[k]) {
            let d = lead_len(&formatted_lines[k]);
            if !found || d < low {
                low = d;
            }
            found = true;
        }
        k = k + 1;
    }
    assert(old_lines.subrange(from as int, old_lines.len() as int) =~= old_lines.skip(from as int));
    let needs = found && (low < top.depth || low - top.depth < tab_spaces);
    if !needs {
        return;
    }
    let a: usize = if low < top.depth { top.depth - low } else { 0 };
    let b: usize = if low < top.depth { tab_spaces } else { tab_spaces - (low - top.depth) };
    let ghost n: nat = (top.depth + tab_spaces - low) as nat;
    assert(a + b == n);
    let mut k: usize = from;
    while k < formatted_lines.len()
        invariant
            from <= k <= formatted_lines.len(),
            a + b == n,
            formatted_lines.len() == old_lines.len(),
            forall|j: int|
                0 <= j < formatted_lines.len() && !(from <= j < k) ==> #[trigger] formatted_lines@[j]@
                    == old_lines[j],
            forall|j: int|
                from <= j < k ==> #[trigger] formatted_lines@[j]@ == pad(
                    old_lines[j],
                    n,
                    whitespace_char,
                ),
        decreases formatted_lines.len() - k,
    {
        assert(formatted_lines@[k as int]@ == old_lines[k as int]);
        if line_is_only_whitepace(&formatted_lines[k]) {
            formatted_lines[k] = Vec::new();
            assert(formatted_lines@[k as int]@ =~= pad(old_lines[k as int], n, whitespace_char));
        } else {
            let inner = add_whitespace(&formatted_lines[k], b, whitespace_char);
            let padded = add_whitespace(&inner, a, whitespace_char);
            formatted_lines[k] = padded;
            assert(repeat(whitespace_char, a as nat) + repeat(whitespace_char, b as nat) =~= repeat(
                whitespace_char,
                n,
            ));
            assert(formatted_lines@[k as int]@ =~= pad(old_lines[k as int], n, whitespace_char));
        }
        k = k + 1;
    }
    assert(lv(formatted_lines@) =~= repaired(old_lines, top, tab_spaces as nat, whitespace_char));
}

proof fn lemma_repaired_len(out: Seq<Seq<char>>, top: CommentDetail, width: nat, c: char)
    requires
        top.at < out.len(),
    ensures
        repaired(out, top, width, c).len() == out.len(),
{
}

pub proof fn lemma_fmt_err_sticks(st: Seq<char>, style: (char, usize), ls: Seq<Seq<char>>, k: int)
    requires
        0 <= k <= ls.len(),
        fmt_run(st, style, ls.take(k)) is Err,
    ensures
        fmt_run(st, style, ls) == fmt_run(st, style, ls.take(k)),
    decreases ls.len() - k,
{
    if k == ls.len() {
        assert(ls.take(k) =~= ls);
    } else {
        assert(ls.take(k + 1).drop_last() =~= ls.take(k));
        lemma_fmt_err_sticks(st, style, ls, k + 1);
    }
}

/// Runs the format pass over a document's lines.
pub fn format_lines(lines: &Vec<Vec<char>>, starter: &Vec<char>, style: (char, usize)) -> (r: Result<
    Vec<Vec<char>>,
    ScfmtErr,
>)
    ensures
        r is Ok <==> formatted(starter@, style, lv(lines@)) is Ok,
        r matches Ok(v) ==> formatted(starter@, style, lv(lines@)) == Ok::<Seq<Seq<char>>, ScfmtErr>(
            lv(v@),
        ),
        r matches Err(e) ==> formatted(starter@, style, lv(lines@)) == Err::<
            Seq<Seq<char>>,
            ScfmtErr,
        >(e),
{
    let ghost ls = lv(lines@);
    let (whitespace_char, tab_spaces) = style;
    let mut out: Vec<Vec<char>> = Vec::new();
    let mut stack: Vec<CommentDetail> = Vec::new();
    let mut i: usize = 0;
    assert(ls.take(0) =~= Seq::<Seq<char>>::empty());
    assert(lv(out@) =~= Seq::<Seq<char>>::empty());
    while i < lines.len()
        invariant
            i <= lines.len(),
            ls == lv(lines@),
            style == (whitespace_char, tab_spaces),
            fmt_run(starter@, style, ls.take(i as int)) == Ok::<
                (Seq<Seq<char>>, Seq<CommentDetail>),
                ScfmtErr,
            >((lv(out@), stack@)),
            forall|k: int| 0 <= k < stack.len() ==> #[trigger] stack@[k].at < out.len(),
            forall|k: int| 0 <= k < stack.len() ==> #[trigger] stack@[k].line < i,
        decreases lines.len() - i,
    {
        assert(ls.take(i + 1).drop_last() =~= ls.take(i as int));
        assert(ls.take(i + 1).last() == lines@[i as int]@);
        let line = &lines[i];
        let (_leading, b) = chop_off_beginning_spaces(line);
        let (is_comment, space_after, rem) = remove_comment_notation_if_it_exists(&b, starter);
        let mark = if is_comment {
            mark_at(&rem)
        } else {
            Mark::NoMark
        };
        let ghost prev_out = lv(out@);
        let ghost prev_stack = stack@;
        match mark {
            Mark::Open => {
                let d = lead_len(line);
                let at = out.len();
                out.push(copy_line(line));
                stack.push(CommentDetail { line: i, at, depth: d });
                assert(forall|k: int|
                    0 <= k < stack.len() - 1 ==> #[trigger] stack@[k] == prev_stack[k]);
                assert(lv(out@) =~= prev_out.push(line@));
            },
            Mark::Sibling | Mark::Close => {
                if stack.len() == 0 {
                    proof {
                        lemma_fmt_err_sticks(starter@, style, ls, i + 1);
                        assert(fmt_run(starter@, style, ls) == fmt_run(starter@, style, ls.take(i + 1)));
                    }
                    return Err(ScfmtErr::CommentClosedNothing(i + 1));
                }
                let top = stack[stack.len() - 1];
                ensure_previous_lines_have_correct_indentation(
                    &mut out,
                    top,
                    tab_spaces,
                    whitespace_char,
                );
                proof {
                    lemma_repaired_len(prev_out, top, tab_spaces as nat, whitespace_char);
                }
                let ghost rep = lv(out@);
                assert(rep.len() == out.len());
                assert(out.len() == prev_out.len());
                if let Mark::Sibling = mark {
                    let at = out.len();
                    out.push(set_whitespace(line, top.depth, whitespace_char));
                    stack.pop();
                    stack.push(CommentDetail { line: i, at, depth: top.depth });
                    assert(forall|k: int|
                        0 <= k < stack.len() - 1 ==> #[trigger] stack@[k] == prev_stack[k]);
                    assert(lv(out@) =~= rep.push(
                        repeat(whitespace_char, top.depth as nat) + body(line@),
                    ));
                } else {
                    let mut closer: Vec<char> = copy_line(starter);
                    if space_after {
                        closer.push(' ');
                    }
                    closer.push('<');
                    assert(closer@ =~= closer_text(starter@, space_after));
                    out.push(set_whitespace(&closer, top.depth, whitespace_char));
                    let ghost o1 = lv(out@);
                    assert(o1 =~= rep.push(
                        repeat(whitespace_char, top.depth as nat) + body(closer_text(starter@, space_after)),
                    ));
                    let note = tail_from(&rem, 1);
                    assert(note@ =~= rem@.drop_first());
                    if !line_is_only_whitepace(&note) {
                        let mut moved: Vec<char> = copy_line(starter);
                        push_all(&mut moved, &note);
                        out.push(set_whitespace(&moved, top.depth, whitespace_char));
                        assert(lv(out@) =~= o1.push(
                            repeat(whitespace_char, top.depth as nat) + body(starter@ + note@),
                        ));
                    }
                    stack.pop();
                    assert(forall|k: int|
                        0 <= k < stack.len() ==> #[trigger] stack@[k] == prev_stack[k]);
                }
            },
            Mark::NoMark => {
                if line_is_only_whitepace(line) {
                    out.push(Vec::new());
                } else {
                    out.push(copy_line(line));
                }
                assert(lv(out@) =~= prev_out.push(plain(line@)));
            },
        }
        i = i + 1;
    }
    assert(ls.take(lines.len() as int) =~= ls);
    if stack.len() > 0 {
        return Err(ScfmtErr::CommentNeverClosed(stack[stack.len() - 1].line + 1));
    }
    Ok(out)
}

} // verus!
