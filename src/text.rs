//! Characters, lines and documents: the shared vocabulary of every pass.
use vstd::prelude::*;

verus! {

/// A character that counts as leading whitespace: any code point up to the space.
pub open spec fn is_ws(c: char) -> bool {
    (c as u32) <= 32
}

/// Number of whitespace characters at the start of a line.
pub open spec fn lead(line: Seq<char>) -> nat
    decreases line.len(),
{
    if line.len() > 0 && is_ws(line[0]) {
        1 + lead(line.drop_first())
    } else {
        0
    }
}

/// A line made of whitespace only (the empty line included).
pub open spec fn is_blank(line: Seq<char>) -> bool {
    lead(line) == line.len()
}

/// The line without its leading whitespace.
pub open spec fn body(line: Seq<char>) -> Seq<char> {
    line.skip(lead(line) as int)
}

/// `n` copies of `c`.
pub open spec fn repeat(c: char, n: nat) -> Seq<char> {
    Seq::new(n, |_i: int| c)
}

/// The view of a list of lines.
pub open spec fn lv(v: Seq<Vec<char>>) -> Seq<Seq<char>> {
    v.map_values(|l: Vec<char>| l@)
}

/// Pieces of `s` between line feeds, as `str::split('\n')` yields them.
pub open spec fn split_nl(s: Seq<char>) -> Seq<Seq<char>>
    decreases s.len(),
{
    if s.len() == 0 {
        seq![Seq::empty()]
    } else {
        let p = split_nl(s.drop_last());
        if s.last() == '\n' {
            p.push(Seq::empty())
        } else {
            p.update(p.len() - 1, p.last().push(s.last()))
        }
    }
}

/// A piece that a line feed ended loses one carriage return before it.
pub open spec fn chop_cr(l: Seq<char>) -> Seq<char> {
    if l.len() > 0 && l.last() == '\r' {
        l.drop_last()
    } else {
        l
    }
}

/// The lines of a document, as `str::lines` yields them: a final line feed
/// ends the last line rather than starting an empty one.
pub open spec fn lines_of(s: Seq<char>) -> Seq<Seq<char>> {
    let p = split_nl(s);
    let q = p.drop_last().map_values(|l: Seq<char>| chop_cr(l));
    if p.last().len() > 0 {
        q.push(p.last())
    } else {
        q
    }
}

/// The document ends with a line feed.
pub open spec fn ends_nl(s: Seq<char>) -> bool {
    s.len() > 0 && s.last() == '\n'
}

/// Lines joined by single line feeds.
pub open spec fn join_nl(ls: Seq<Seq<char>>) -> Seq<char>
    decreases ls.len(),
{
    if ls.len() == 0 {
        Seq::empty()
    } else if ls.len() == 1 {
        ls[0]
    } else {
        join_nl(ls.drop_last()) + seq!['\n'] + ls.last()
    }
}

/// A document written back from its lines, with a final line feed when asked.
pub open spec fn render(ls: Seq<Seq<char>>, nl: bool) -> Seq<char> {
    join_nl(ls) + if nl {
        seq!['\n']
    } else {
        Seq::<char>::empty()
    }
}

/// Number of blank lines at the end of a list of lines.
pub open spec fn trailing_blanks(ls: Seq<Seq<char>>) -> nat
    decreases ls.len(),
{
    if ls.len() > 0 && is_blank(ls.last()) {
        1 + trailing_blanks(ls.drop_last())
    } else {
        0
    }
}

pub proof fn lemma_lead_at(s: Seq<char>, i: int)
    requires
        0 <= i <= s.len(),
        forall|j: int| 0 <= j < i ==> is_ws(#[trigger] s[j]),
        i == s.len() || !is_ws(s[i]),
    ensures
        lead(s) == i,
    decreases i,
{
    if i > 0 {
        let t = s.drop_first();
        assert forall|j: int| 0 <= j < i - 1 implies is_ws(#[trigger] t[j]) by {
            assert(t[j] == s[j + 1]);
        }
        if i - 1 < t.len() {
            assert(t[i - 1] == s[i]);
        }
        lemma_lead_at(t, i - 1);
    }
}

pub proof fn lemma_lead_bound(s: Seq<char>)
    ensures
        lead(s) <= s.len(),
        forall|j: int| 0 <= j < lead(s) ==> is_ws(#[trigger] s[j]),
        lead(s) < s.len() ==> !is_ws(s[lead(s) as int]),
    decreases s.len(),
{
    if s.len() > 0 && is_ws(s[0]) {
        let t = s.drop_first();
        lemma_lead_bound(t);
        assert forall|j: int| 0 <= j < lead(s) implies is_ws(#[trigger] s[j]) by {
            if j > 0 {
                assert(s[j] == t[j - 1]);
            }
        }
        if lead(s) < s.len() {
            assert(s[lead(s) as int] == t[lead(t) as int]);
        }
    }
}

/// Leading whitespace of `x + y` when `x` is all whitespace.
pub proof fn lemma_lead_prefix_ws(x: Seq<char>, y: Seq<char>)
    requires
        forall|j: int| 0 <= j < x.len() ==> is_ws(#[trigger] x[j]),
    ensures
        lead(x + y) == x.len() + lead(y),
        is_blank(x + y) == is_blank(y),
{
    let s = x + y;
    lemma_lead_bound(y);
    assert forall|j: int| 0 <= j < x.len() + lead(y) implies is_ws(#[trigger] s[j]) by {
        if j >= x.len() {
            assert(s[j] == y[j - x.len()]);
        }
    }
    let k = x.len() + lead(y);
    if k < s.len() {
        assert(s[k as int] == y[lead(y) as int]);
    }
    lemma_lead_at(s, k as int);
}

/// A line that starts with a character other than whitespace has no lead.
pub proof fn lemma_lead_solid(y: Seq<char>)
    requires
        y.len() > 0,
        !is_ws(y[0]),
    ensures
        lead(y) == 0,
        !is_blank(y),
{
}

/// Number of whitespace characters at the start of a line.
pub fn lead_len(line: &Vec<char>) -> (r: usize)
    ensures
        r == lead(line@),
{
    let mut i: usize = 0;
    while i < line.len() && (line[i] as u32) <= 32
        invariant
            i <= line.len(),
            forall|j: int| 0 <= j < i ==> is_ws(#[trigger] line@[j]),
        decreases line.len() - i,
    {
        i = i + 1;
    }
    proof {
        lemma_lead_at(line@, i as int);
    }
    i
}

/// Counts the leading whitespace of a line, and tells a blank line apart.
pub fn chop_off_beginning_spaces(line: &Vec<char>) -> (r: (Option<usize>, Vec<char>))
    ensures
        r.0 is None <==> is_blank(line@),
        r.0 is Some ==> r.0->0 == lead(line@),
        r.1@ == body(line@),
{
    let i = lead_len(line);
    proof {
        lemma_lead_bound(line@);
    }
    let mut rest: Vec<char> = Vec::new();
    let mut k: usize = i;
    while k < line.len()
        invariant
            i <= k <= line.len(),
            rest@ == line@.subrange(i as int, k as int),
        decreases line.len() - k,
    {
        rest.push(line[k]);
        k = k + 1;
    }
    assert(rest@ =~= body(line@));
    if i == line.len() {
        (None, rest)
    } else {
        (Some(i), rest)
    }
}

/// Leading whitespace count and remainder of a line that is not blank.
pub fn count_and_remove_begining_whitespace(line: &Vec<char>) -> (r: Option<(usize, Vec<char>)>)
    ensures
        r is None <==> is_blank(line@),
        r matches Some((d, rest)) ==> d == lead(line@) && rest@ == body(line@),
{
    let (n, rest) = chop_off_beginning_spaces(line);
    match n {
        Some(d) => Some((d, rest)),
        None => None,
    }
}

/// Whether a line holds whitespace only.
pub fn line_is_only_whitepace(line: &Vec<char>) -> (r: bool)
    ensures
        r == is_blank(line@),
{
    let mut i: usize = 0;
    while i < line.len()
        invariant
            i <= line.len(),
            forall|j: int| 0 <= j < i ==> is_ws(#[trigger] line@[j]),
        decreases line.len() - i,
    {
        if (line[i] as u32) > 32 {
            proof {
                lemma_lead_at(line@, i as int);
            }
            return false;
        }
        i = i + 1;
    }
    proof {
        lemma_lead_at(line@, i as int);
    }
    true
}

/// Appends `n` copies of `c` to `out`.
pub fn push_repeat(out: &mut Vec<char>, c: char, n: usize)
    ensures
        final(out)@ == old(out)@ + repeat(c, n as nat),
{
    let mut i: usize = 0;
    while i < n
        invariant
            i <= n,
            out@ == old(out)@ + repeat(c, i as nat),
        decreases n - i,
    {
        out.push(c);
        i = i + 1;
        assert(out@ =~= old(out)@ + repeat(c, i as nat));
    }
}

/// Appends a copy of `s` to `out`.
pub fn push_all(out: &mut Vec<char>, s: &Vec<char>)
    ensures
        final(out)@ == old(out)@ + s@,
{
    let mut i: usize = 0;
    while i < s.len()
        invariant
            i <= s.len(),
            out@ == old(out)@ + s@.take(i as int),
        decreases s.len() - i,
    {
        out.push(s[i]);
        i = i + 1;
        assert(out@ =~= old(out)@ + s@.take(i as int));
    }
    assert(s@.take(s.len() as int) =~= s@);
}

/// A copy of a line.
pub fn copy_line(line: &Vec<char>) -> (r: Vec<char>)
    ensures
        r@ == line@,
{
    let mut out: Vec<char> = Vec::new();
    push_all(&mut out, line);
    assert(out@ =~= line@);
    out
}

/// The first `k` characters of a line.
pub fn prefix_of(line: &Vec<char>, k: usize) -> (r: Vec<char>)
    requires
        k <= line.len(),
    ensures
        r@ == line@.take(k as int),
{
    let mut out: Vec<char> = Vec::new();
    let mut i: usize = 0;
    while i < k
        invariant
            i <= k <= line.len(),
            out@ == line@.take(i as int),
        decreases k - i,
    {
        out.push(line[i]);
        i = i + 1;
        assert(out@ =~= line@.take(i as int));
    }
    out
}

/// The line with `depth` copies of `whitespace_char` put in front.
pub fn add_whitespace(line: &Vec<char>, depth: usize, whitespace_char: char) -> (r: Vec<char>)
    ensures
        r@ == repeat(whitespace_char, depth as nat) + line@,
{
    let mut value: Vec<char> = Vec::new();
    push_repeat(&mut value, whitespace_char, depth);
    push_all(&mut value, line);
    assert(value@ =~= repeat(whitespace_char, depth as nat) + line@);
    value
}

/// The line re-indented to exactly `depth` copies of `whitespace_char`.
pub fn set_whitespace(line: &Vec<char>, depth: usize, whitespace_char: char) -> (r: Vec<char>)
    ensures
        r@ == repeat(whitespace_char, depth as nat) + body(line@),
{
    let (_n, rest) = chop_off_beginning_spaces(line);
    add_whitespace(&rest, depth, whitespace_char)
}

/// Cuts a document into its lines.
pub fn split_lines(s: &Vec<char>) -> (r: Vec<Vec<char>>)
    ensures
        lv(r@) == lines_of(s@),
{
    let mut done: Vec<Vec<char>> = Vec::new();
    let mut cur: Vec<char> = Vec::new();
    let mut i: usize = 0;
    assert(s@.take(0) =~= Seq::<char>::empty());
    assert(lv(done@) =~= split_nl(s@.take(0)).drop_last().map_values(|l: Seq<char>| chop_cr(l)));
    while i < s.len()
        invariant
            i <= s.len(),
            split_nl(s@.take(i as int)).len() >= 1,
            lv(done@) == split_nl(s@.take(i as int)).drop_last().map_values(
                |l: Seq<char>| chop_cr(l),
            ),
            cur@ == split_nl(s@.take(i as int)).last(),
        decreases s.len() - i,
    {
        let ghost p = split_nl(s@.take(i as int));
        let c = s[i];
        assert(s@.take(i + 1).drop_last() =~= s@.take(i as int));
        i = i + 1;
        let ghost q = split_nl(s@.take(i as int));
        if c == '\n' {
            if cur.len() > 0 && cur[cur.len() - 1] == '\r' {
                cur.pop();
            }
            assert(cur@ == chop_cr(p.last()));
            let ghost d0 = lv(done@);
            let line = cur;
            done.push(line);
            cur = Vec::new();
            assert(lv(done@) =~= d0.push(chop_cr(p.last())));
            assert(q == p.push(Seq::empty()));
            assert(q.drop_last() =~= p);
            assert(p.map_values(|l: Seq<char>| chop_cr(l)) =~= p.drop_last().map_values(
                |l: Seq<char>| chop_cr(l),
            ).push(chop_cr(p.last())));
            assert(lv(done@) =~= q.drop_last().map_values(|l: Seq<char>| chop_cr(l)));
            assert(cur@ =~= q.last());
        } else {
            cur.push(c);
            assert(s@.take(i as int).last() == c);
            assert(q == p.update(p.len() - 1, p.last().push(c)));
            assert(q.drop_last() =~= p.drop_last());
            assert(lv(done@) =~= q.drop_last().map_values(|l: Seq<char>| chop_cr(l)));
        }
    }
    assert(s@.take(s.len() as int) =~= s@);
    if cur.len() > 0 {
        done.push(cur);
        assert(lv(done@) =~= lines_of(s@));
    } else {
        assert(lv(done@) =~= lines_of(s@));
    }
    done
}

/// Writes lines back as one document, with a final line feed when asked.
pub fn join_lines(ls: &Vec<Vec<char>>, nl: bool) -> (r: Vec<char>)
    ensures
        r@ == render(lv(ls@), nl),
{
    let mut out: Vec<char> = Vec::new();
    let mut k: usize = 0;
    while k < ls.len()
        invariant
            k <= ls.len(),
            out@ == join_nl(lv(ls@).take(k as int)),
        decreases ls.len() - k,
    {
        assert(lv(ls@).take(k + 1).drop_last() =~= lv(ls@).take(k as int));
        if k > 0 {
            out.push('\n');
        }
        push_all(&mut out, &ls[k]);
        k = k + 1;
        assert(out@ =~= join_nl(lv(ls@).take(k as int)));
    }
    assert(lv(ls@).take(ls.len() as int) =~= lv(ls@));
    if nl {
        out.push('\n');
    }
    assert(out@ =~= render(lv(ls@), nl));
    out
}

/// Whether a document ends with a line feed.
pub fn ends_with_newline(s: &Vec<char>) -> (r: bool)
    ensures
        r == ends_nl(s@),
{
    s.len() > 0 && s[s.len() - 1] == '\n'
}

/// The characters of a string.
pub fn chars_of(s: &str) -> (r: Vec<char>)
    ensures
        r@ == s@,
{
    let mut out: Vec<char> = Vec::new();
    for c in it: s.chars()
        invariant
            out@ == it.seq().take(it.index() as int),
    {
        out.push(c);
    }
    out
}

} // verus!
