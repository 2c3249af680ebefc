//! Reading one line: its comment starter and the marker after it.
use vstd::prelude::*;
use crate::text::{body, chop_off_beginning_spaces, copy_line, is_blank, is_ws};

verus! {

/// What follows a comment starter: an opener `>`, a sibling `<>`, a closer `<`, or none.
#[derive(PartialEq, Eq, Structural, Clone, Copy, Debug)]
pub enum Mark {
    Open,
    Sibling,
    Close,
    NoMark,
}

/// A usable comment starter: not empty, and not starting with whitespace.
pub open spec fn valid_starter(st: Seq<char>) -> bool {
    st.len() > 0 && !is_ws(st[0])
}

/// `b` starts with the starter then a space (`Some((true, rest))`), or with the
/// starter alone (`Some((false, rest))`), or is no comment (`None`).
pub open spec fn parse_comment(b: Seq<char>, st: Seq<char>) -> Option<(bool, Seq<char>)> {
    let n = st.len() as int;
    if b.len() >= n + 1 && b.take(n) == st && b[n] == ' ' {
        Some((true, b.skip(n + 1)))
    } else if b.len() >= n && b.take(n) == st {
        Some((false, b.skip(n)))
    } else {
        None
    }
}

/// The marker that a comment's remainder starts with; `<>` before `<`.
pub open spec fn mark_of(rem: Seq<char>) -> Mark {
    if rem.len() > 0 && rem[0] == '>' {
        Mark::Open
    } else if rem.len() >= 2 && rem[0] == '<' && rem[1] == '>' {
        Mark::Sibling
    } else if rem.len() > 0 && rem[0] == '<' {
        Mark::Close
    } else {
        Mark::NoMark
    }
}

/// The marker of a whole line: none unless the line is a comment.
pub open spec fn line_mark(l: Seq<char>, st: Seq<char>) -> Mark {
    match parse_comment(body(l), st) {
        Some((_sp, rem)) => mark_of(rem),
        None => Mark::NoMark,
    }
}

/// Whether `s` starts with `p`.
pub fn has_prefix(s: &Vec<char>, p: &Vec<char>) -> (r: bool)
    ensures
        r == (s@.len() >= p@.len() && s@.take(p@.len() as int) == p@),
{
    if s.len() < p.len() {
        return false;
    }
    let mut i: usize = 0;
    while i < p.len()
        invariant
            i <= p.len() <= s.len(),
            s@.take(i as int) == p@.take(i as int),
        decreases p.len() - i,
    {
        if s[i] != p[i] {
            assert(s@.take(p@.len() as int)[i as int] != p@[i as int]);
            return false;
        }
        i = i + 1;
        assert(s@.take(i as int) =~= p@.take(i as int));
    }
    assert(p@.take(p@.len() as int) =~= p@);
    true
}

/// The part of `s` from index `from` on.
pub fn tail_from(s: &Vec<char>, from: usize) -> (r: Vec<char>)
    requires
        from <= s.len(),
    ensures
        r@ == s@.skip(from as int),
{
    let mut out: Vec<char> = Vec::new();
    let mut k: usize = from;
    while k < s.len()
        invariant
            from <= k <= s.len(),
            out@ == s@.subrange(from as int, k as int),
        decreases s.len() - k,
    {
        out.push(s[k]);
        k = k + 1;
    }
    assert(out@ =~= s@.skip(from as int));
    out
}

/// Splits a comment starter, with its optional space, off the front of a line
/// whose leading whitespace is already gone: whether it is a comment, whether a
/// space followed the starter, and what is left.
pub fn remove_comment_notation_if_it_exists(line: &Vec<char>, starter: &Vec<char>) -> (r: (
    bool,
    bool,
    Vec<char>,
))
    ensures
        r.0 == parse_comment(line@, starter@) is Some,
        parse_comment(line@, starter@) matches Some((sp, rem)) ==> r.1 == sp && r.2@ == rem,
        parse_comment(line@, starter@) is None ==> !r.1 && r.2@ == line@,
{
    if has_prefix(line, starter) {
        let n = starter.len();
        if line.len() > n && line[n] == ' ' {
            (true, true, tail_from(line, n + 1))
        } else {
            (true, false, tail_from(line, n))
        }
    } else {
        let rest = tail_from(line, 0);
        assert(line@.skip(0) =~= line@);
        (false, false, rest)
    }
}

/// The marker at the front of a comment's remainder.
pub fn mark_at(rem: &Vec<char>) -> (r: Mark)
    ensures
        r == mark_of(rem@),
{
    if rem.len() > 0 && rem[0] == '>' {
        Mark::Open
    } else if rem.len() >= 2 && rem[0] == '<' && rem[1] == '>' {
        Mark::Sibling
    } else if rem.len() > 0 && rem[0] == '<' {
        Mark::Close
    } else {
        Mark::NoMark
    }
}

/// Whether a line, leading whitespace aside, is a comment; a blank line never is.
pub fn line_is_a_comment(line: &Vec<char>, starter: &Vec<char>) -> (r: bool)
    ensures
        r == (!is_blank(line@) && parse_comment(body(line@), starter@) is Some),
{
    let (n, b) = chop_off_beginning_spaces(line);
    if n.is_none() {
        return false;
    }
    let (is_comment, _sp, _rem) = remove_comment_notation_if_it_exists(&b, starter);
    is_comment
}

/// What follows the comment starter (and its space) on a comment line; a
/// blank line comes back as it is, and a line that is no comment as nothing.
pub fn remove_comment_starter(line: &Vec<char>, starter: &Vec<char>) -> (r: Vec<char>)
    ensures
        is_blank(line@) ==> r@ == line@,
        !is_blank(line@) ==> match parse_comment(body(line@), starter@) {
            Some((_sp, rem)) => r@ == rem,
            None => r@ == Seq::<char>::empty(),
        },
{
    let (n, b) = chop_off_beginning_spaces(line);
    if n.is_none() {
        return copy_line(line);
    }
    let (is_comment, _sp, rem) = remove_comment_notation_if_it_exists(&b, starter);
    if is_comment {
        rem
    } else {
        Vec::new()
    }
}

} // verus!
