//! How a document's text relates to its lines: pieces between line feeds.
use vstd::prelude::*;
use crate::text::{
    chop_cr, ends_nl, is_blank, is_ws, join_nl, lead, lemma_lead_at, lemma_lead_bound, lines_of,
    render, split_nl, trailing_blanks,
};

verus! {

/// No line feed in `x`.
pub open spec fn no_nl(x: Seq<char>) -> bool {
    forall|j: int| 0 <= j < x.len() ==> #[trigger] x[j] != '\n'
}

/// No line feed in any of the lines.
pub open spec fn all_no_nl(ls: Seq<Seq<char>>) -> bool {
    forall|i: int| 0 <= i < ls.len() ==> no_nl(#[trigger] ls[i])
}

/// A blank line is whitespace throughout.
pub proof fn lemma_blank_all_ws(l: Seq<char>)
    ensures
        is_blank(l) <==> forall|j: int| 0 <= j < l.len() ==> is_ws(#[trigger] l[j]),
{
    lemma_lead_bound(l);
    if forall|j: int| 0 <= j < l.len() ==> is_ws(#[trigger] l[j]) {
        lemma_lead_at(l, l.len() as int);
    }
}

proof fn lemma_chop_cr_blank(l: Seq<char>)
    ensures
        is_blank(chop_cr(l)) == is_blank(l),
{
    lemma_blank_all_ws(l);
    lemma_blank_all_ws(chop_cr(l));
    if l.len() > 0 && l.last() == '\r' {
        let c = chop_cr(l);
        assert forall|j: int| 0 <= j < c.len() implies c[j] == l[j] by {}
        if is_blank(c) {
            assert forall|j: int| 0 <= j < l.len() implies is_ws(#[trigger] l[j]) by {
                if j < c.len() {
                    assert(is_ws(c[j]));
                }
            }
        }
    }
}

pub proof fn lemma_tb_blankness(a: Seq<Seq<char>>, b: Seq<Seq<char>>)
    requires
        a.len() == b.len(),
        forall|i: int| 0 <= i < a.len() ==> is_blank(#[trigger] a[i]) == is_blank(b[i]),
    ensures
        trailing_blanks(a) == trailing_blanks(b),
    decreases a.len(),
{
    if a.len() > 0 {
        let a2 = a.drop_last();
        let b2 = b.drop_last();
        assert forall|i: int| 0 <= i < a2.len() implies is_blank(#[trigger] a2[i]) == is_blank(
            b2[i],
        ) by {
            assert(a2[i] == a[i]);
            assert(b2[i] == b[i]);
        }
        lemma_tb_blankness(a2, b2);
    }
}

/// The pieces of a document between line feeds have none in them.
pub proof fn lemma_split_no_nl(s: Seq<char>)
    ensures
        split_nl(s).len() >= 1,
        all_no_nl(split_nl(s)),
    decreases s.len(),
{
    if s.len() > 0 {
        let p = split_nl(s.drop_last());
        lemma_split_no_nl(s.drop_last());
        let q = split_nl(s);
        if s.last() != '\n' {
            assert forall|i: int| 0 <= i < q.len() implies no_nl(#[trigger] q[i]) by {
                if i == q.len() - 1 {
                    let x = p.last().push(s.last());
                    assert(q[i] == x);
                    assert forall|j: int| 0 <= j < x.len() implies #[trigger] x[j] != '\n' by {
                        if j < x.len() - 1 {
                            assert(x[j] == p.last()[j]);
                            assert(no_nl(p[p.len() - 1]));
                        }
                    }
                } else {
                    assert(q[i] == p[i]);
                }
            }
        } else {
            assert forall|i: int| 0 <= i < q.len() implies no_nl(#[trigger] q[i]) by {
                if i < p.len() {
                    assert(q[i] == p[i]);
                }
            }
        }
    }
}

/// The lines of a document have no line feed in them.
pub proof fn lemma_lines_no_nl(s: Seq<char>)
    ensures
        all_no_nl(lines_of(s)),
{
    lemma_split_no_nl(s);
    let p = split_nl(s);
    let ls = lines_of(s);
    assert forall|i: int| 0 <= i < ls.len() implies no_nl(#[trigger] ls[i]) by {
        if i < p.len() - 1 {
            assert(ls[i] == chop_cr(p[i]));
            assert(no_nl(p[i]));
            assert forall|j: int| 0 <= j < ls[i].len() implies #[trigger] ls[i][j] != '\n' by {
                assert(ls[i][j] == p[i][j]);
            }
        } else {
            assert(ls[i] == p[i]);
            assert(no_nl(p[i]));
        }
    }
}

/// Trailing blank pieces of a document, against trailing blank lines.
pub proof fn lemma_tb_split_lines(s: Seq<char>)
    requires
        s.len() > 0,
    ensures
        trailing_blanks(split_nl(s)) == trailing_blanks(lines_of(s)) + if ends_nl(s) {
            1nat
        } else {
            0nat
        },
{
    lemma_split_no_nl(s);
    let p = split_nl(s);
    let d = p.drop_last();
    let q = d.map_values(|l: Seq<char>| chop_cr(l));
    assert forall|i: int| 0 <= i < q.len() implies is_blank(#[trigger] q[i]) == is_blank(d[i]) by {
        lemma_chop_cr_blank(d[i]);
    }
    lemma_tb_blankness(q, d);
    assert(p.drop_last() == d);
    if ends_nl(s) {
        assert(p.last() =~= Seq::<char>::empty());
        lemma_blank_all_ws(p.last());
    } else {
        let p0 = split_nl(s.drop_last());
        lemma_split_no_nl(s.drop_last());
        assert(p.last() == p0.last().push(s.last()));
        assert(p.last().len() > 0);
        let ls = lines_of(s);
        assert(ls == q.push(p.last()));
        assert(ls.drop_last() =~= q);
    }
}

proof fn lemma_split_append(t: Seq<char>, x: Seq<char>)
    requires
        no_nl(x),
    ensures
        split_nl(t + x) == split_nl(t).update(
            split_nl(t).len() - 1,
            split_nl(t).last() + x,
        ),
    decreases x.len(),
{
    lemma_split_no_nl(t);
    if x.len() == 0 {
        assert(t + x =~= t);
        assert(split_nl(t).last() + x =~= split_nl(t).last());
        assert(split_nl(t).update(split_nl(t).len() - 1, split_nl(t).last()) =~= split_nl(t));
    } else {
        let y = x.drop_last();
        assert forall|j: int| 0 <= j < y.len() implies #[trigger] y[j] != '\n' by {
            assert(y[j] == x[j]);
        }
        lemma_split_append(t, y);
        assert((t + x).drop_last() =~= t + y);
        assert((t + x).last() == x.last());
        assert(x.last() != '\n');
        let p = split_nl(t);
        assert(split_nl(t + y).last() == p.last() + y);
        assert((p.last() + y).push(x.last()) =~= p.last() + x);
        assert(split_nl(t + x) =~= p.update(p.len() - 1, p.last() + x));
    }
}

proof fn lemma_split_newline(t: Seq<char>)
    ensures
        split_nl(t + seq!['\n']) == split_nl(t).push(Seq::<char>::empty()),
{
    assert((t + seq!['\n']).drop_last() =~= t);
}

/// Lines free of line feeds come back as the pieces of their joined text.
pub proof fn lemma_split_join(ls: Seq<Seq<char>>)
    requires
        ls.len() >= 1,
        all_no_nl(ls),
    ensures
        split_nl(join_nl(ls)) == ls,
    decreases ls.len(),
{
    if ls.len() == 1 {
        assert(no_nl(ls[0]));
        lemma_split_append(Seq::<char>::empty(), ls[0]);
        assert(Seq::<char>::empty() + ls[0] =~= ls[0]);
        assert(split_nl(Seq::<char>::empty()) == seq![Seq::<char>::empty()]);
        assert(Seq::<char>::empty() + ls[0] =~= ls[0]);
        assert(split_nl(ls[0]) =~= ls);
    } else {
        let p = ls.drop_last();
        assert forall|i: int| 0 <= i < p.len() implies no_nl(#[trigger] p[i]) by {
            assert(p[i] == ls[i]);
        }
        lemma_split_join(p);
        let t = join_nl(p) + seq!['\n'];
        lemma_split_newline(join_nl(p));
        assert(no_nl(ls[ls.len() - 1]));
        lemma_split_append(t, ls.last());
        assert(Seq::<char>::empty() + ls.last() =~= ls.last());
        assert(split_nl(t + ls.last()) =~= ls);
    }
}

/// The pieces of a rendered document: its lines, and an empty piece after a
/// final line feed.
pub proof fn lemma_split_render(ls: Seq<Seq<char>>, nl: bool)
    requires
        ls.len() >= 1,
        all_no_nl(ls),
    ensures
        split_nl(render(ls, nl)) == if nl {
            ls.push(Seq::<char>::empty())
        } else {
            ls
        },
{
    lemma_split_join(ls);
    if nl {
        lemma_split_newline(join_nl(ls));
    } else {
        assert(render(ls, nl) =~= join_nl(ls));
    }
}

} // verus!
