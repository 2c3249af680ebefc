//! The nullifier: escapes marker-looking text right after a comment starter.
use vstd::prelude::*;
use crate::classify::{parse_comment, remove_comment_notation_if_it_exists};
use crate::format::plain;
use crate::text::{
    body, chop_off_beginning_spaces, copy_line, lead, lead_len, line_is_only_whitepace, lv,
    push_all,
};

verus! {

/// A comment line whose remainder starts with `<` or `>` gets `_` after its
/// starter (and the starter's space); other lines stay, blank ones emptied.
pub open spec fn null_line(l: Seq<char>, st: Seq<char>) -> Seq<char> {
    match parse_comment(body(l), st) {
        Some((sp, rem)) => if rem.len() > 0 && (rem[0] == '<' || rem[0] == '>') {
            l.take(lead(l) as int) + st + (if sp {
                seq![' ']
            } else {
                Seq::<char>::empty()
            }) + seq!['_'] + rem
        } else {
            plain(l)
        },
        None => plain(l),
    }
}

/// Every line nullified.
pub open spec fn nullified(ls: Seq<Seq<char>>, st: Seq<char>) -> Seq<Seq<char>> {
    ls.map_values(|l: Seq<char>| null_line(l, st))
}

/// Nullifies one line.
pub fn null_line_exec(line: &Vec<char>, starter: &Vec<char>) -> (r: Vec<char>)
    ensures
        r@ == null_line(line@, starter@),
{
    let (_n, b) = chop_off_beginning_spaces(line);
    let (is_comment, space_after, rem) = remove_comment_notation_if_it_exists(&b, starter);
    if is_comment && rem.len() > 0 && (rem[0] == '<' || rem[0] == '>') {
        let d = lead_len(line);
        let mut out: Vec<char> = Vec::new();
        let mut k: usize = 0;
        proof {
            crate::text::lemma_lead_bound(line@);
        }
        while k < d
            invariant
                k <= d,
                d == lead(line@),
                d <= line.len(),
                out@ == line@.take(k as int),
            decreases d - k,
        {
            out.push(line[k]);
            k = k + 1;
            assert(out@ =~= line@.take(k as int));
        }
        push_all(&mut out, starter);
        if space_after {
            out.push(' ');
        }
        out.push('_');
        push_all(&mut out, &rem);
        let ghost sp_part = if space_after {
            seq![' ']
        } else {
            Seq::<char>::empty()
        };
        assert(out@ =~= line@.take(d as int) + starter@ + sp_part + seq!['_'] + rem@);
        out
    } else if line_is_only_whitepace(line) {
        Vec::new()
    } else {
        copy_line(line)
    }
}

/// Nullifies every line of a document.
pub fn null_existing_lines(lines: &Vec<Vec<char>>, starter: &Vec<char>) -> (r: Vec<Vec<char>>)
    ensures
        lv(r@) == nullified(lv(lines@), starter@),
{
    let mut out: Vec<Vec<char>> = Vec::new();
    let mut i: usize = 0;
    while i < lines.len()
        invariant
            i <= lines.len(),
            out.len() == i,
            forall|j: int|
                0 <= j < i ==> #[trigger] out@[j]@ == null_line(lines@[j]@, starter@),
        decreases lines.len() - i,
    {
        out.push(null_line_exec(&lines[i], starter));
        i = i + 1;
    }
    assert(lv(out@) =~= nullified(lv(lines@), starter@));
    out
}

} // verus!
