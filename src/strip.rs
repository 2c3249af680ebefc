//! The bracket stripper's second pass: markers out, indentation kept.
use vstd::prelude::*;
use crate::classify::{Mark, mark_at, mark_of, parse_comment, tail_from};
use crate::text::{
    body, copy_line, count_and_remove_begining_whitespace, is_blank, lead, lv, prefix_of,
    push_all,
};
use crate::classify::{line_is_a_comment, remove_comment_starter};

verus! {

/// One line without its bracket: `None` drops a closer; an opener or a
/// sibling loses its marker (and the space after the starter), keeping its
/// own leading whitespace.
pub open spec fn strip_line(l: Seq<char>, st: Seq<char>) -> Option<Seq<char>> {
    if is_blank(l) {
        Some(Seq::empty())
    } else {
        match parse_comment(body(l), st) {
            Some((_sp, rem)) => match mark_of(rem) {
                Mark::Open => Some(l.take(lead(l) as int) + st + rem.skip(1)),
                Mark::Sibling => Some(l.take(lead(l) as int) + st + rem.skip(2)),
                Mark::Close => None,
                Mark::NoMark => Some(l),
            },
            None => Some(l),
        }
    }
}

/// The lines that remain once brackets are stripped.
pub open spec fn stripped(ls: Seq<Seq<char>>, st: Seq<char>) -> Seq<Seq<char>>
    decreases ls.len(),
{
    if ls.len() == 0 {
        Seq::empty()
    } else {
        let p = stripped(ls.drop_last(), st);
        match strip_line(ls.last(), st) {
            Some(x) => p.push(x),
            None => p,
        }
    }
}

/// Strips the bracket of one line.
fn strip_line_exec(line: &Vec<char>, starter: &Vec<char>) -> (r: Option<
    Vec<char>,
>)
    ensures
        r is None <==> strip_line(line@, starter@) is None,
        r matches Some(x) ==> strip_line(line@, starter@) == Some(x@),
{
    match count_and_remove_begining_whitespace(line) {
        Some((leading_whitespace, rest)) => {
            if line_is_a_comment(&rest, starter) {
                let rem = remove_comment_starter(&rest, starter);
                proof {
                    crate::text::lemma_lead_bound(rest@);
                    crate::text::lemma_lead_bound(line@);
                    if rest@.len() > 0 {
                        crate::text::lemma_lead_solid(rest@);
                    }
                    assert(body(rest@) =~= rest@);
                }
                match mark_at(&rem) {
                    Mark::Open => {
                        let mut t = copy_line(starter);
                        let after = tail_from(&rem, 1);
                        push_all(&mut t, &after);
                        let mut kept = prefix_of(line, leading_whitespace);
                        push_all(&mut kept, &t);
                        assert(kept@ =~= line@.take(lead(line@) as int) + t@);
                        Some(kept)
                    },
                    Mark::Sibling => {
                        let mut t = copy_line(starter);
                        let after = tail_from(&rem, 2);
                        push_all(&mut t, &after);
                        let mut kept = prefix_of(line, leading_whitespace);
                        push_all(&mut kept, &t);
                        assert(kept@ =~= line@.take(lead(line@) as int) + t@);
                        Some(kept)
                    },
                    Mark::Close => None,
                    Mark::NoMark => Some(copy_line(line)),
                }
            } else {
                proof {
                    crate::text::lemma_lead_bound(line@);
                    if rest@.len() > 0 {
                        crate::text::lemma_lead_solid(rest@);
                    }
                    assert(body(rest@) =~= rest@);
                }
                Some(copy_line(line))
            }
        },
        None => Some(Vec::new()),
    }
}

/// Strips the brackets of every line.
pub fn strip_lines(lines: &Vec<Vec<char>>, starter: &Vec<char>) -> (r: Vec<
    Vec<char>,
>)
    ensures
        lv(r@) == stripped(lv(lines@), starter@),
{
    let ghost ls = lv(lines@);
    let mut out: Vec<Vec<char>> = Vec::new();
    let mut i: usize = 0;
    assert(ls.take(0) =~= Seq::<Seq<char>>::empty());
    assert(lv(out@) =~= Seq::<Seq<char>>::empty());
    while i < lines.len()
        invariant
            i <= lines.len(),
            ls == lv(lines@),
            lv(out@) == stripped(ls.take(i as int), starter@),
        decreases lines.len() - i,
    {
        assert(ls.take(i + 1).drop_last() =~= ls.take(i as int));
        assert(ls.take(i + 1).last() == lines@[i as int]@);
        let ghost prev = lv(out@);
        match strip_line_exec(&lines[i], starter) {
            Some(x) => {
                out.push(x);
                assert(lv(out@) =~= prev.push(x@));
            },
            None => {},
        }
        i = i + 1;
    }
    assert(ls.take(lines.len() as int) =~= ls);
    out
}

} // verus!
