//! The bracket inference engine: markers rebuilt from indentation alone.
use vstd::prelude::*;
use crate::classify::{parse_comment, remove_comment_notation_if_it_exists};
use crate::text::{
    body, chop_off_beginning_spaces, copy_line, is_blank, lead, lead_len, line_is_only_whitepace,
    lv, push_all, push_repeat, repeat, trailing_blanks,
};

verus! {

/// A comment that may open a region: its output line and its depth.
#[derive(PartialEq, Eq, Structural, Clone, Copy, Debug)]
pub struct OpenComment {
    pub line: usize,
    pub depth: usize,
}

/// Lines, open comments, and whether the last comment's role is still undecided.
pub type InferState = (Seq<Seq<char>>, Seq<OpenComment>, bool);

/// `n` empty lines.
pub open spec fn blanks(n: nat) -> Seq<Seq<char>> {
    Seq::new(n, |_i: int| Seq::<char>::empty())
}

/// The lines without their blank tail.
pub open spec fn drop_tail(ls: Seq<Seq<char>>) -> Seq<Seq<char>> {
    ls.take(ls.len() - trailing_blanks(ls))
}

/// The lines without their last one, if any.
pub open spec fn pop_line(ls: Seq<Seq<char>>) -> Seq<Seq<char>> {
    if ls.len() > 0 {
        ls.drop_last()
    } else {
        ls
    }
}

/// A fresh closer at `depth`.
pub open spec fn closer_at(depth: nat, st: Seq<char>, c: char) -> Seq<char> {
    repeat(c, depth) + st + seq!['<']
}

/// Closes, innermost first, every open comment at least as deep as `x`.
pub open spec fn close_down(
    ls: Seq<Seq<char>>,
    stack: Seq<OpenComment>,
    x: nat,
    st: Seq<char>,
    c: char,
) -> (Seq<Seq<char>>, Seq<OpenComment>)
    decreases stack.len(),
{
    if stack.len() > 0 && x <= stack.last().depth {
        close_down(ls.push(closer_at(stack.last().depth as nat, st, c)), stack.drop_last(), x, st, c)
    } else {
        (ls, stack)
    }
}

/// Closes down to depth `x`, keeping the blank tail after the new closers.
pub open spec fn end_last(
    ls: Seq<Seq<char>>,
    stack: Seq<OpenComment>,
    x: nat,
    st: Seq<char>,
    c: char,
) -> (Seq<Seq<char>>, Seq<OpenComment>) {
    let e = trailing_blanks(ls);
    let (l2, s2) = close_down(drop_tail(ls), stack, x, st, c);
    (l2 + blanks(e), s2)
}

/// A comment line with marker `m` put right after its starter.
pub open spec fn with_mark(l: Seq<char>, st: Seq<char>, m: Seq<char>) -> Seq<char> {
    let k = lead(l) + st.len();
    l.take(k as int) + m + l.skip(k as int)
}

/// The last line before index `k` that is not blank.
pub open spec fn last_solid(ls: Seq<Seq<char>>, k: int) -> Option<int>
    decreases k,
{
    if k <= 0 {
        None
    } else if !is_blank(ls[k - 1]) {
        Some(k - 1)
    } else {
        last_solid(ls, k - 1)
    }
}

/// Depth of a line, zero for a blank one.
pub open spec fn depth0(l: Seq<char>) -> nat {
    if is_blank(l) {
        0
    } else {
        lead(l)
    }
}

/// Whether the comment at line `k` directly follows a closer of its own depth.
pub open spec fn follows_closer(ls: Seq<Seq<char>>, k: int, st: Seq<char>) -> bool {
    match last_solid(ls, k) {
        Some(j) => match parse_comment(body(ls[j]), st) {
            Some((_sp, rem)) => rem.len() > 0 && rem[0] == '<' && depth0(ls[k]) == lead(ls[j]),
            None => false,
        },
        None => false,
    }
}

/// Marks the comment of `top` as an opener; a closer of the same depth right
/// before it is merged into it as a sibling marker.
pub open spec fn add_open(ls: Seq<Seq<char>>, top: OpenComment, st: Seq<char>) -> Seq<Seq<char>> {
    let k = top.line as int;
    if k >= ls.len() || parse_comment(body(ls[k]), st) is None {
        ls
    } else if follows_closer(ls, k, st) {
        let latest = ls[k];
        let after = trailing_blanks(ls);
        let l2 = pop_line(drop_tail(ls));
        let before = trailing_blanks(l2);
        let l4 = pop_line(drop_tail(l2));
        l4 + blanks(before) + seq![with_mark(latest, st, seq!['<', '>'])] + blanks(after)
    } else {
        ls.update(k, with_mark(ls[k], st, seq!['>']))
    }
}

/// Records a comment whose role is not known yet.
pub open spec fn pass_new(s: InferState, l: Seq<char>) -> InferState {
    (s.0.push(l), s.1.push(OpenComment { line: s.0.len() as usize, depth: lead(l) as usize }), true)
}

/// One line of the inference pass.
pub open spec fn infer_step(s: InferState, l: Seq<char>, st: Seq<char>, c: char) -> InferState {
    let (ls, stack, unsure) = s;
    if is_blank(l) {
        (ls.push(Seq::empty()), stack, unsure)
    } else {
        let x = lead(l);
        if parse_comment(body(l), st) is Some {
            if stack.len() == 0 {
                pass_new(s, l)
            } else if unsure {
                if x > stack.last().depth {
                    pass_new((add_open(ls, stack.last(), st), stack, unsure), l)
                } else {
                    let (l2, s2) = end_last(ls, stack.drop_last(), x, st, c);
                    pass_new((l2, s2, unsure), l)
                }
            } else if x > stack.last().depth {
                pass_new(s, l)
            } else {
                let (l2, s2) = end_last(ls, stack, x, st, c);
                pass_new((l2, s2, unsure), l)
            }
        } else if stack.len() == 0 {
            (ls.push(l), stack, unsure)
        } else if unsure {
            if x > stack.last().depth {
                (add_open(ls, stack.last(), st).push(l), stack, false)
            } else {
                let (l2, s2) = end_last(ls, stack.drop_last(), x, st, c);
                (l2.push(l), s2, false)
            }
        } else if x > stack.last().depth {
            (ls.push(l), stack, unsure)
        } else {
            let (l2, s2) = end_last(ls, stack, x, st, c);
            (l2.push(l), s2, unsure)
        }
    }
}

/// The inference pass over lines `ls`.
pub open spec fn infer_run(ls: Seq<Seq<char>>, st: Seq<char>, c: char) -> InferState
    decreases ls.len(),
{
    if ls.len() == 0 {
        (Seq::empty(), Seq::empty(), true)
    } else {
        infer_step(infer_run(ls.drop_last(), st, c), ls.last(), st, c)
    }
}

/// The bracketed lines: a trailing undecided comment opens nothing, and every
/// region still open is closed at the end.
pub open spec fn inferred(ls: Seq<Seq<char>>, st: Seq<char>, c: char) -> Seq<Seq<char>> {
    let (l1, s1, unsure) = infer_run(ls, st, c);
    let s2 = if unsure && s1.len() > 0 {
        s1.drop_last()
    } else {
        s1
    };
    end_last(l1, s2, 0, st, c).0
}

/// Number of blank lines at the end.
pub fn count_ending_empty_lines(lines_list: &Vec<Vec<char>>) -> (r: usize)
    ensures
        r == trailing_blanks(lv(lines_list@)),
{
    let ghost ls = lv(lines_list@);
    let mut i: usize = lines_list.len();
    let mut count: usize = 0;
    assert(ls.take(i as int) =~= ls);
    while i > 0 && line_is_only_whitepace(&lines_list[i - 1])
        invariant
            i <= lines_list.len(),
            ls == lv(lines_list@),
            i + count == lines_list.len(),
            trailing_blanks(ls) == count + trailing_blanks(ls.take(i as int)),
        decreases i,
    {
        assert(ls.take(i as int).drop_last() =~= ls.take(i - 1));
        i = i - 1;
        count = count + 1;
    }
    if i > 0 {
        assert(ls.take(i as int).last() == ls[i - 1]);
    } else {
        assert(ls.take(0) =~= Seq::<Seq<char>>::empty());
    }
    count
}

/// Drops the blank lines at the end.
pub fn remove_empty_tail(lines_list: &mut Vec<Vec<char>>)
    ensures
        lv(final(lines_list)@) == drop_tail(lv(old(lines_list)@)),
{
    let ghost ls = lv(lines_list@);
    while lines_list.len() > 0 && line_is_only_whitepace(&lines_list[lines_list.len() - 1])
        invariant
            lines_list.len() <= ls.len(),
            lv(lines_list@) == ls.take(lines_list.len() as int),
            trailing_blanks(ls) == (ls.len() - lines_list.len()) + trailing_blanks(
                lv(lines_list@),
            ),
        decreases lines_list.len(),
    {
        let ghost before = lv(lines_list@);
        lines_list.pop();
        assert(lv(lines_list@) =~= before.drop_last());
        assert(lv(lines_list@) =~= ls.take(lines_list.len() as int));
    }
}

/// Appends `num` empty lines.
pub fn append_num_empty_lines(num: usize, lines_list: &mut Vec<Vec<char>>)
    ensures
        lv(final(lines_list)@) == lv(old(lines_list)@) + blanks(num as nat),
{
    let mut k: usize = 0;
    while k < num
        invariant
            k <= num,
            lv(lines_list@) == lv(old(lines_list)@) + blanks(k as nat),
        decreases num - k,
    {
        let ghost before = lv(lines_list@);
        let empty: Vec<char> = Vec::new();
        assert(empty@ =~= Seq::<char>::empty());
        lines_list.push(empty);
        k = k + 1;
        assert(lv(lines_list@) =~= before.push(Seq::<char>::empty()));
        assert(lv(lines_list@) =~= lv(old(lines_list)@) + blanks(k as nat));
    }
}

/// A fresh closer line at `depth`.
pub fn new_comment_closed_bracket(depth: usize, comment_starter: &Vec<char>, whitespace_char: char) -> (r:
    Vec<char>)
    ensures
        r@ == closer_at(depth as nat, comment_starter@, whitespace_char),
{
    let mut result: Vec<char> = Vec::new();
    push_repeat(&mut result, whitespace_char, depth);
    push_all(&mut result, comment_starter);
    result.push('<');
    assert(result@ =~= closer_at(depth as nat, comment_starter@, whitespace_char));
    result
}

/// Closes every open comment at least as deep as `leading_spaces`, keeping
/// the blank tail after the new closers.
pub fn end_the_last_structured_comments(
    lines_list: &mut Vec<Vec<char>>,
    comment_tracker: &mut Vec<OpenComment>,
    leading_spaces: usize,
    comment_starter: &Vec<char>,
    whitespace_char: char,
)
    ensures
        (lv(final(lines_list)@), final(comment_tracker)@) == end_last(
            lv(old(lines_list)@),
            old(comment_tracker)@,
            leading_spaces as nat,
            comment_starter@,
            whitespace_char,
        ),
{
    let empty_line_count = count_ending_empty_lines(lines_list);
    remove_empty_tail(lines_list);
    let ghost goal = close_down(
        lv(lines_list@),
        comment_tracker@,
        leading_spaces as nat,
        comment_starter@,
        whitespace_char,
    );
    while comment_tracker.len() > 0 && leading_spaces <= comment_tracker[comment_tracker.len()
        - 1].depth
        invariant
            goal == close_down(
                lv(lines_list@),
                comment_tracker@,
                leading_spaces as nat,
                comment_starter@,
                whitespace_char,
            ),
        decreases comment_tracker.len(),
    {
        let top = comment_tracker[comment_tracker.len() - 1];
        let close_bracket_line = new_comment_closed_bracket(top.depth, comment_starter, whitespace_char);
        let ghost before = lv(lines_list@);
        lines_list.push(close_bracket_line);
        assert(lv(lines_list@) =~= before.push(
            closer_at(top.depth as nat, comment_starter@, whitespace_char),
        ));
        comment_tracker.pop();
    }
    append_num_empty_lines(empty_line_count, lines_list);
}

/// The comment line with marker `m` put right after its starter, or `None`
/// when the line is no comment.
fn mark_comment(line: &Vec<char>, comment_starter: &Vec<char>, m: &Vec<char>) -> (r: Option<
    Vec<char>,
>)
    ensures
        r is None <==> parse_comment(body(line@), comment_starter@) is None,
        r matches Some(x) ==> x@ == with_mark(line@, comment_starter@, m@),
{
    let (_leading, b) = chop_off_beginning_spaces(line);
    let (is_a_comment, _sp, _rest) = remove_comment_notation_if_it_exists(&b, comment_starter);
    if !is_a_comment {
        return None;
    }
    let d = lead_len(line);
    let total = line.len();
    proof {
        crate::text::lemma_lead_bound(line@);
        assert(b@.len() == line@.len() - d);
        assert(comment_starter@.len() <= b@.len());
        assert(d + comment_starter@.len() <= line@.len());
    }
    let k = d + comment_starter.len();
    let mut out: Vec<char> = Vec::new();
    let mut i: usize = 0;
    while i < k
        invariant
            i <= k <= line.len(),
            out@ == line@.take(i as int),
        decreases k - i,
    {
        out.push(line[i]);
        i = i + 1;
        assert(out@ =~= line@.take(i as int));
    }
    push_all(&mut out, m);
    let ghost head = out@;
    while i < line.len()
        invariant
            k <= i <= line.len(),
            out@ == head + line@.subrange(k as int, i as int),
        decreases line.len() - i,
    {
        out.push(line[i]);
        i = i + 1;
        assert(out@ =~= head + line@.subrange(k as int, i as int));
    }
    assert(out@ =~= with_mark(line@, comment_starter@, m@));
    Some(out)
}

/// The comment line turned into an opener.
pub fn make_comment_open_bracket(line: &Vec<char>, comment_starter: &Vec<char>) -> (r: Option<
    Vec<char>,
>)
    ensures
        r is None <==> parse_comment(body(line@), comment_starter@) is None,
        r matches Some(x) ==> x@ == with_mark(line@, comment_starter@, seq!['>']),
{
    let mut m: Vec<char> = Vec::new();
    m.push('>');
    assert(m@ =~= seq!['>']);
    mark_comment(line, comment_starter, &m)
}

/// The comment line turned into a sibling marker.
pub fn make_comment_closed_and_open_bracket(line: &Vec<char>, comment_starter: &Vec<char>) -> (r:
    Option<Vec<char>>)
    ensures
        r is None <==> parse_comment(body(line@), comment_starter@) is None,
        r matches Some(x) ==> x@ == with_mark(line@, comment_starter@, seq!['<', '>']),
{
    let mut m: Vec<char> = Vec::new();
    m.push('<');
    m.push('>');
    assert(m@ =~= seq!['<', '>']);
    mark_comment(line, comment_starter, &m)
}

/// The last line before `index` that is not blank.
pub fn last_non_empty_line_before_index(index: usize, lines_list: &Vec<Vec<char>>) -> (r: Option<
    usize,
>)
    requires
        index <= lines_list.len(),
    ensures
        r is None <==> last_solid(lv(lines_list@), index as int) is None,
        r matches Some(j) ==> last_solid(lv(lines_list@), index as int) == Some(j as int),
{
    let ghost ls = lv(lines_list@);
    let mut i: usize = index;
    while i > 0
        invariant
            i <= index <= lines_list.len(),
            ls == lv(lines_list@),
            last_solid(ls, index as int) == last_solid(ls, i as int),
        decreases i,
    {
        if !line_is_only_whitepace(&lines_list[i - 1]) {
            return Some(i - 1);
        }
        i = i - 1;
    }
    None
}

/// Pops the last line, if there is one.
fn pop_last_line(lines_list: &mut Vec<Vec<char>>)
    ensures
        lv(final(lines_list)@) == pop_line(lv(old(lines_list)@)),
{
    if lines_list.len() > 0 {
        lines_list.pop();
        assert(lv(lines_list@) =~= lv(old(lines_list)@).drop_last());
    }
}

/// Marks the most recent comment as an opener, merging a closer of its own
/// depth right before it into a sibling marker.
pub fn add_open_bracket_to_last_comment(
    lines_list: &mut Vec<Vec<char>>,
    top: OpenComment,
    comment_starter: &Vec<char>,
)
    ensures
        lv(final(lines_list)@) == add_open(lv(old(lines_list)@), top, comment_starter@),
{
    let ghost ls = lv(lines_list@);
    let k = top.line;
    if k >= lines_list.len() {
        return;
    }
    let latest = copy_line(&lines_list[k]);
    let opened = match make_comment_open_bracket(&latest, comment_starter) {
        Some(x) => x,
        None => return,
    };
    let mut should_consume_closing_comment = false;
    match last_non_empty_line_before_index(k, lines_list) {
        Some(j) => {
            proof {
                lemma_last_solid(ls, k as int);
            }
            let (leading, b) = chop_off_beginning_spaces(&lines_list[j]);
            let (is_a_comment, _sp, rem) = remove_comment_notation_if_it_exists(
                &b,
                comment_starter,
            );
            let latest_depth = if line_is_only_whitepace(&latest) {
                0
            } else {
                lead_len(&latest)
            };
            let before_depth = match leading {
                Some(d) => d,
                None => 0,
            };
            if is_a_comment && rem.len() > 0 && rem[0] == '<' && latest_depth == before_depth {
                should_consume_closing_comment = true;
            }
        },
        None => {},
    }
    if should_consume_closing_comment {
        let after_spaces = count_ending_empty_lines(lines_list);
        remove_empty_tail(lines_list);
        pop_last_line(lines_list);
        let before_spaces = count_ending_empty_lines(lines_list);
        remove_empty_tail(lines_list);
        pop_last_line(lines_list);
        append_num_empty_lines(before_spaces, lines_list);
        match make_comment_closed_and_open_bracket(&latest, comment_starter) {
            Some(x) => {
                let ghost l4 = lv(lines_list@);
                lines_list.push(x);
                assert(lv(lines_list@) =~= l4.push(x@));
            },
            None => {},
        }
        append_num_empty_lines(after_spaces, lines_list);
        assert(lv(lines_list@) =~= add_open(ls, top, comment_starter@));
    } else {
        lines_list[k] = opened;
        assert(lv(lines_list@) =~= add_open(ls, top, comment_starter@));
    }
}

proof fn lemma_last_solid(ls: Seq<Seq<char>>, k: int)
    requires
        0 <= k <= ls.len(),
    ensures
        last_solid(ls, k) matches Some(j) ==> 0 <= j < k && !is_blank(ls[j]),
    decreases k,
{
    if k > 0 {
        lemma_last_solid(ls, k - 1);
    }
}

/// Records a comment whose role is not known yet.
pub fn pass_a_new_comment_that_we_dont_know_if_its_structured(
    lines_list: &mut Vec<Vec<char>>,
    comment_tracker: &mut Vec<OpenComment>,
    leading_spaces: usize,
    unsure_if_last_comment_was_structured: &mut bool,
    line: &Vec<char>,
)
    requires
        leading_spaces == lead(line@),
    ensures
        (lv(final(lines_list)@), final(comment_tracker)@, *final(unsure_if_last_comment_was_structured)) == pass_new(
            (lv(old(lines_list)@), old(comment_tracker)@, *old(unsure_if_last_comment_was_structured)),
            line@,
        ),
{
    let comment = OpenComment { line: lines_list.len(), depth: leading_spaces };
    comment_tracker.push(comment);
    *unsure_if_last_comment_was_structured = true;
    let ghost before = lv(lines_list@);
    lines_list.push(copy_line(line));
    assert(lv(lines_list@) =~= before.push(line@));
}

/// Runs the inference pass over a bracketless document's lines.
pub fn add_brackets_lines(lines: &Vec<Vec<char>>, comment_starter: &Vec<char>, whitespace_char: char) -> (r:
    Vec<Vec<char>>)
    ensures
        lv(r@) == inferred(lv(lines@), comment_starter@, whitespace_char),
{
    let ghost ls = lv(lines@);
    let ghost st = comment_starter@;
    let ghost c = whitespace_char;
    let mut lines_list: Vec<Vec<char>> = Vec::new();
    let mut comment_tracker: Vec<OpenComment> = Vec::new();
    let mut unsure: bool = true;
    let mut i: usize = 0;
    assert(ls.take(0) =~= Seq::<Seq<char>>::empty());
    assert(lv(lines_list@) =~= Seq::<Seq<char>>::empty());
    while i < lines.len()
        invariant
            i <= lines.len(),
            ls == lv(lines@),
            st == comment_starter@,
            c == whitespace_char,
            infer_run(ls.take(i as int), st, c) == (lv(lines_list@), comment_tracker@, unsure),
        decreases lines.len() - i,
    {
        assert(ls.take(i + 1).drop_last() =~= ls.take(i as int));
        assert(ls.take(i + 1).last() == lines@[i as int]@);
        let line = &lines[i];
        let ghost s0 = (lv(lines_list@), comment_tracker@, unsure);
        let (leading, b) = chop_off_beginning_spaces(line);
        match leading {
            Some(x) => {
                let (is_a_comment, _sp, _rest) = remove_comment_notation_if_it_exists(
                    &b,
                    comment_starter,
                );
                if is_a_comment {
                    if comment_tracker.len() == 0 {
                    } else if unsure {
                        let top = comment_tracker[comment_tracker.len() - 1];
                        if x > top.depth {
                            add_open_bracket_to_last_comment(&mut lines_list, top, comment_starter);
                        } else {
                            comment_tracker.pop();
                            end_the_last_structured_comments(
                                &mut lines_list,
                                &mut comment_tracker,
                                x,
                                comment_starter,
                                whitespace_char,
                            );
                        }
                    } else if x > comment_tracker[comment_tracker.len() - 1].depth {
                    } else {
                        end_the_last_structured_comments(
                            &mut lines_list,
                            &mut comment_tracker,
                            x,
                            comment_starter,
                            whitespace_char,
                        );
                    }
                    pass_a_new_comment_that_we_dont_know_if_its_structured(
                        &mut lines_list,
                        &mut comment_tracker,
                        x,
                        &mut unsure,
                        line,
                    );
                } else {
                    if comment_tracker.len() == 0 {
                    } else if unsure {
                        let top = comment_tracker[comment_tracker.len() - 1];
                        if x > top.depth {
                            add_open_bracket_to_last_comment(&mut lines_list, top, comment_starter);
                        } else {
                            comment_tracker.pop();
                            end_the_last_structured_comments(
                                &mut lines_list,
                                &mut comment_tracker,
                                x,
                                comment_starter,
                                whitespace_char,
                            );
                        }
                        unsure = false;
                    } else if x > comment_tracker[comment_tracker.len() - 1].depth {
                    } else {
                        end_the_last_structured_comments(
                            &mut lines_list,
                            &mut comment_tracker,
                            x,
                            comment_starter,
                            whitespace_char,
                        );
                    }
                    let ghost before = lv(lines_list@);
                    lines_list.push(copy_line(line));
                    assert(lv(lines_list@) =~= before.push(line@));
                }
            },
            None => {
                let ghost before = lv(lines_list@);
                let empty: Vec<char> = Vec::new();
                lines_list.push(empty);
                assert(lv(lines_list@) =~= before.push(Seq::<char>::empty()));
            },
        }
        assert(infer_step(s0, line@, st, c) == (lv(lines_list@), comment_tracker@, unsure));
        i = i + 1;
    }
    assert(ls.take(lines.len() as int) =~= ls);
    if unsure && comment_tracker.len() > 0 {
        comment_tracker.pop();
    }
    end_the_last_structured_comments(
        &mut lines_list,
        &mut comment_tracker,
        0,
        comment_starter,
        whitespace_char,
    );
    lines_list
}

} // verus!
