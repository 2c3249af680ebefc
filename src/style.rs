//! Inferring a document's indent unit from the steps between its lines.
use vstd::prelude::*;
use crate::text::{is_blank, lead, line_is_only_whitepace, lead_len, lv};

verus! {

/// Distance between two depths.
pub open spec fn absdiff(a: nat, b: nat) -> nat {
    if a >= b {
        (a - b) as nat
    } else {
        (b - a) as nat
    }
}

/// Position of key `k` in a histogram, or its length when absent.
pub open spec fn key_pos(h: Seq<(nat, nat)>, k: nat) -> nat
    decreases h.len(),
{
    if h.len() == 0 {
        0
    } else if h[0].0 == k {
        0
    } else {
        1 + key_pos(h.drop_first(), k)
    }
}

/// One more count for key `k`; a new key goes at the end.
pub open spec fn bump(h: Seq<(nat, nat)>, k: nat) -> Seq<(nat, nat)> {
    let j = key_pos(h, k);
    if j < h.len() {
        h.update(j as int, (k, h[j as int].1 + 1))
    } else {
        h.push((k, 1))
    }
}

/// Tally: histogram of steps, tab-led lines, space-led lines, current depth, last step.
pub type Tally = (Seq<(nat, nat)>, nat, nat, nat, nat);

/// The tally after one more line. Every line that is not empty counts
/// toward the tab or space tally; only a line with text in it moves the
/// current depth and counts a step.
pub open spec fn tally_step(s: Tally, l: Seq<char>) -> Tally {
    if l.len() == 0 {
        s
    } else {
        let (h, tabs, spaces, cur, last_diff) = s;
        let tabs2 = if l[0] == '\t' {
            tabs + 1
        } else {
            tabs
        };
        let spaces2 = if l[0] == ' ' {
            spaces + 1
        } else {
            spaces
        };
        if is_blank(l) {
            (h, tabs2, spaces2, cur, last_diff)
        } else {
            let depth = lead(l);
            let diff = absdiff(cur, depth);
            if diff != 0 {
                (bump(h, diff), tabs2, spaces2, depth, diff)
            } else if last_diff != 0 {
                (bump(h, last_diff), tabs2, spaces2, depth, last_diff)
            } else {
                (h, tabs2, spaces2, depth, 0)
            }
        }
    }
}

/// The tally over a list of lines.
pub open spec fn tally(ls: Seq<Seq<char>>) -> Tally
    decreases ls.len(),
{
    if ls.len() == 0 {
        (Seq::empty(), 0, 0, 0, 0)
    } else {
        tally_step(tally(ls.drop_last()), ls.last())
    }
}

/// The entry with the highest count; the earliest wins a tie.
pub open spec fn best(h: Seq<(nat, nat)>) -> (nat, nat)
    decreases h.len(),
{
    if h.len() == 0 {
        (0, 0)
    } else {
        let b = best(h.drop_last());
        if h.last().1 > b.1 {
            h.last()
        } else {
            b
        }
    }
}

/// The indent character and width of a document's lines; four spaces when
/// no line steps in or out.
pub open spec fn whitespace_style(ls: Seq<Seq<char>>) -> (char, usize) {
    let t = tally(ls);
    let b = best(t.0);
    if b.0 != 0 {
        (
            if t.1 > t.2 {
                '\t'
            } else {
                ' '
            },
            b.0 as usize,
        )
    } else {
        (' ', 4)
    }
}

/// The view of an executable histogram.
pub open spec fn hv(h: Seq<(usize, usize)>) -> Seq<(nat, nat)> {
    h.map_values(|p: (usize, usize)| (p.0 as nat, p.1 as nat))
}

proof fn lemma_key_pos_at(h: Seq<(nat, nat)>, k: nat, j: int)
    requires
        0 <= j <= h.len(),
        forall|m: int| 0 <= m < j ==> (#[trigger] h[m]).0 != k,
        j == h.len() || h[j].0 == k,
    ensures
        key_pos(h, k) == j,
    decreases j,
{
    if j > 0 {
        let t = h.drop_first();
        assert forall|m: int| 0 <= m < j - 1 implies (#[trigger] t[m]).0 != k by {
            assert(t[m] == h[m + 1]);
        }
        if j - 1 < t.len() {
            assert(t[j - 1] == h[j]);
        }
        lemma_key_pos_at(t, k, j - 1);
    }
}

/// Adds one count for `key` to the histogram.
fn count_step(hist: &mut Vec<(usize, usize)>, key: usize, bound: usize)
    requires
        bound >= 1,
        forall|m: int| 0 <= m < old(hist).len() ==> (#[trigger] old(hist)@[m]).1 < bound,
    ensures
        hv(final(hist)@) == bump(hv(old(hist)@), key as nat),
        forall|m: int| 0 <= m < final(hist).len() ==> (#[trigger] final(hist)@[m]).1 <= bound,
{
    let ghost h0 = hv(hist@);
    let mut j: usize = 0;
    while j < hist.len()
        invariant
            j <= hist.len(),
            hist@ == old(hist)@,
            h0 == hv(hist@),
            bound >= 1,
            forall|m: int| 0 <= m < hist.len() ==> (#[trigger] hist@[m]).1 < bound,
            forall|m: int| 0 <= m < j ==> (#[trigger] h0[m]).0 != key,
        decreases hist.len() - j,
    {
        if hist[j].0 == key {
            proof {
                lemma_key_pos_at(h0, key as nat, j as int);
            }
            let (k, c) = hist[j];
            hist[j] = (k, c + 1);
            assert(hv(hist@) =~= bump(h0, key as nat));
            return;
        }
        j = j + 1;
    }
    proof {
        lemma_key_pos_at(h0, key as nat, j as int);
    }
    hist.push((key, 1));
    assert(hv(hist@) =~= bump(h0, key as nat));
}

/// Infers the indent character and width of a document's lines.
pub fn determine_whitespace_type(lines: &Vec<Vec<char>>) -> (r: (char, usize))
    ensures
        r == whitespace_style(lv(lines@)),
{
    let ghost ls = lv(lines@);
    let mut hist: Vec<(usize, usize)> = Vec::new();
    let mut tab_count: usize = 0;
    let mut space_count: usize = 0;
    let mut cur_depth: usize = 0;
    let mut last_diff: usize = 0;
    let mut i: usize = 0;
    assert(ls.take(0) =~= Seq::<Seq<char>>::empty());
    assert(hv(hist@) =~= Seq::<(nat, nat)>::empty());
    while i < lines.len()
        invariant
            i <= lines.len(),
            ls == lv(lines@),
            tally(ls.take(i as int)) == (
                hv(hist@),
                tab_count as nat,
                space_count as nat,
                cur_depth as nat,
                last_diff as nat,
            ),
            tab_count <= i,
            space_count <= i,
            forall|m: int| 0 <= m < hist.len() ==> (#[trigger] hist@[m]).1 <= i,
        decreases lines.len() - i,
    {
        assert(ls.take(i + 1).drop_last() =~= ls.take(i as int));
        assert(ls.take(i + 1).last() == lines@[i as int]@);
        let line = &lines[i];
        if line.len() > 0 {
            let first = line[0];
            if first == ' ' {
                space_count = space_count + 1;
            } else if first == '\t' {
                tab_count = tab_count + 1;
            }
            if !line_is_only_whitepace(line) {
                let last_depth = cur_depth;
                cur_depth = lead_len(line);
                let diff = if last_depth >= cur_depth {
                    last_depth - cur_depth
                } else {
                    cur_depth - last_depth
                };
                if diff != 0 {
                    count_step(&mut hist, diff, i + 1);
                    last_diff = diff;
                } else if last_diff != 0 {
                    count_step(&mut hist, last_diff, i + 1);
                }
            }
        }
        i = i + 1;
    }
    assert(ls.take(lines.len() as int) =~= ls);
    let mut highest_count: usize = 0;
    let mut diff_with_highest_count: usize = 0;
    let mut j: usize = 0;
    assert(hv(hist@).take(0) =~= Seq::<(nat, nat)>::empty());
    while j < hist.len()
        invariant
            j <= hist.len(),
            best(hv(hist@).take(j as int)) == (diff_with_highest_count as nat, highest_count as nat),
        decreases hist.len() - j,
    {
        assert(hv(hist@).take(j + 1).drop_last() =~= hv(hist@).take(j as int));
        let (d, c) = hist[j];
        if c > highest_count {
            highest_count = c;
            diff_with_highest_count = d;
        }
        j = j + 1;
    }
    assert(hv(hist@).take(hist.len() as int) =~= hv(hist@));
    if diff_with_highest_count != 0 {
        let chr = if tab_count > space_count {
            '\t'
        } else {
            ' '
        };
        (chr, diff_with_highest_count)
    } else {
        (' ', 4)
    }
}

} // verus!
