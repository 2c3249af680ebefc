//! The four operations on a document, selected by file extension.
use vstd::prelude::*;
use crate::format::{format_lines, formatted};
use crate::infer::{add_brackets_lines, inferred};
use crate::lookup::{comment_starter_for, comment_starter_of};
use crate::nullify::{null_existing_lines, nullified};
use crate::strip::{strip_lines, stripped};
use crate::style::{determine_whitespace_type, whitespace_style};
use crate::text::{chars_of, ends_nl, ends_with_newline, join_lines, lines_of, render, split_lines};

verus! {

/// What can go wrong while transforming a document.
#[derive(PartialEq, Eq, Structural, Clone, Copy, Debug)]
pub enum ScfmtErr {
    IncompatibleFileType,
    CommentClosedNothing(usize),
    CommentNeverClosed(usize),
    CantConvertOsString,
    CantReadFileAsString,
    CantCreatFile,
    CantWriteToFile,
}

/// An executable result that holds the same text, or the same error, as `x`.
pub open spec fn same_result(r: Result<String, ScfmtErr>, x: Result<Seq<char>, ScfmtErr>) -> bool {
    match r {
        Ok(t) => x == Ok::<Seq<char>, ScfmtErr>(t@),
        Err(e) => x == Err::<Seq<char>, ScfmtErr>(e),
    }
}

/// The formatted document `s`, whose comments start with `st`.
pub open spec fn format_doc(s: Seq<char>, st: Seq<char>) -> Result<Seq<char>, ScfmtErr> {
    let ls = lines_of(s);
    match formatted(st, whitespace_style(ls), ls) {
        Ok(out) => Ok(render(out, ends_nl(s))),
        Err(e) => Err(e),
    }
}

/// The bracketless form of `s`: formatted first, then stripped of markers.
pub open spec fn remove_doc(s: Seq<char>, st: Seq<char>) -> Result<Seq<char>, ScfmtErr> {
    match format_doc(s, st) {
        Ok(f) => {
            let ls = lines_of(f);
            Ok(render(stripped(ls, st), ends_nl(f)))
        },
        Err(e) => Err(e),
    }
}

/// The bracketed form of `s`: markers inferred from the indentation of its
/// bracketless form.
pub open spec fn add_doc(s: Seq<char>, st: Seq<char>) -> Result<Seq<char>, ScfmtErr> {
    match remove_doc(s, st) {
        Ok(t) => {
            let ls = lines_of(t);
            Ok(render(inferred(ls, st, whitespace_style(ls).0), ends_nl(t)))
        },
        Err(e) => Err(e),
    }
}

/// The nullified document `s`.
pub open spec fn null_doc(s: Seq<char>, st: Seq<char>) -> Seq<char> {
    render(nullified(lines_of(s), st), ends_nl(s))
}

/// Relies on `String`'s `FromIterator<&char>` (through `Iterator::collect`):
/// the string holds exactly the characters handed to it, in order.
#[verifier::external_body]
fn string_from_chars(v: &Vec<char>) -> (r: String)
    ensures
        r@ == v@,
{
    v.iter().collect()
}

/// Formats a document given as characters.
pub fn format_chars(s: &Vec<char>, starter: &Vec<char>) -> (r: Result<Vec<char>, ScfmtErr>)
    ensures
        r is Ok <==> format_doc(s@, starter@) is Ok,
        r matches Ok(v) ==> format_doc(s@, starter@) == Ok::<Seq<char>, ScfmtErr>(v@),
        r matches Err(e) ==> format_doc(s@, starter@) == Err::<Seq<char>, ScfmtErr>(e),
{
    let lines = split_lines(s);
    let style = determine_whitespace_type(&lines);
    match format_lines(&lines, starter, style) {
        Ok(out) => Ok(join_lines(&out, ends_with_newline(s))),
        Err(e) => Err(e),
    }
}

/// Strips the brackets of a document given as characters.
pub fn remove_brackets_chars(s: &Vec<char>, starter: &Vec<char>) -> (r: Result<Vec<char>, ScfmtErr>)
    ensures
        r is Ok <==> remove_doc(s@, starter@) is Ok,
        r matches Ok(v) ==> remove_doc(s@, starter@) == Ok::<Seq<char>, ScfmtErr>(v@),
        r matches Err(e) ==> remove_doc(s@, starter@) == Err::<Seq<char>, ScfmtErr>(e),
{
    let f = match format_chars(s, starter) {
        Ok(f) => f,
        Err(e) => return Err(e),
    };
    let lines = split_lines(&f);
    let out = strip_lines(&lines, starter);
    Ok(join_lines(&out, ends_with_newline(&f)))
}

/// Adds brackets to a document given as characters.
pub fn add_brackets_chars(s: &Vec<char>, starter: &Vec<char>) -> (r: Result<Vec<char>, ScfmtErr>)
    ensures
        r is Ok <==> add_doc(s@, starter@) is Ok,
        r matches Ok(v) ==> add_doc(s@, starter@) == Ok::<Seq<char>, ScfmtErr>(v@),
        r matches Err(e) ==> add_doc(s@, starter@) == Err::<Seq<char>, ScfmtErr>(e),
{
    let t = match remove_brackets_chars(s, starter) {
        Ok(t) => t,
        Err(e) => return Err(e),
    };
    let lines = split_lines(&t);
    let (whitespace_char, _tab_spaces) = determine_whitespace_type(&lines);
    let out = add_brackets_lines(&lines, starter, whitespace_char);
    Ok(join_lines(&out, ends_with_newline(&t)))
}

/// Ensures lines inside bracketed structured comments are indented one unit
/// deeper than their markers, `filetype` naming the language by extension.
pub fn format_str(str: &str, filetype: &str) -> (r: Result<String, ScfmtErr>)
    ensures
        comment_starter_of(filetype@) is None ==> r == Err::<String, ScfmtErr>(
            ScfmtErr::IncompatibleFileType,
        ),
        comment_starter_of(filetype@) matches Some(st) ==> same_result(r, format_doc(str@, st)),
{
    let starter = match comment_starter_for(filetype) {
        Some(x) => chars_of(x),
        None => return Err(ScfmtErr::IncompatibleFileType),
    };
    let s = chars_of(str);
    match format_chars(&s, &starter) {
        Ok(v) => Ok(string_from_chars(&v)),
        Err(e) => Err(e),
    }
}

/// Converts bracketed structured comments into bracketless ones. The
/// document is formatted first, so that no region information is lost.
pub fn remove_brackets(str: &str, filetype: &str) -> (r: Result<String, ScfmtErr>)
    ensures
        comment_starter_of(filetype@) is None ==> r == Err::<String, ScfmtErr>(
            ScfmtErr::IncompatibleFileType,
        ),
        comment_starter_of(filetype@) matches Some(st) ==> same_result(r, remove_doc(str@, st)),
{
    let starter = match comment_starter_for(filetype) {
        Some(x) => chars_of(x),
        None => return Err(ScfmtErr::IncompatibleFileType),
    };
    let s = chars_of(str);
    match remove_brackets_chars(&s, &starter) {
        Ok(v) => Ok(string_from_chars(&v)),
        Err(e) => Err(e),
    }
}

/// Adds brackets to bracketless structured comments. Existing brackets are
/// removed first, so that none is added on top of another.
pub fn add_brackets(str: &str, filetype: &str) -> (r: Result<String, ScfmtErr>)
    ensures
        comment_starter_of(filetype@) is None ==> r == Err::<String, ScfmtErr>(
            ScfmtErr::IncompatibleFileType,
        ),
        comment_starter_of(filetype@) matches Some(st) ==> same_result(r, add_doc(str@, st)),
{
    let starter = match comment_starter_for(filetype) {
        Some(x) => chars_of(x),
        None => return Err(ScfmtErr::IncompatibleFileType),
    };
    let s = chars_of(str);
    match add_brackets_chars(&s, &starter) {
        Ok(v) => Ok(string_from_chars(&v)),
        Err(e) => Err(e),
    }
}

/// Puts `_` in front of every bracket right after a comment starter, so that
/// text that only looks like a marker stops being one; no character is removed.
pub fn null_existing_brackets(str: &str, filetype: &str) -> (r: Result<String, ScfmtErr>)
    ensures
        comment_starter_of(filetype@) is None ==> r == Err::<String, ScfmtErr>(
            ScfmtErr::IncompatibleFileType,
        ),
        comment_starter_of(filetype@) matches Some(st) ==> r is Ok && r->Ok_0@ == null_doc(
            str@,
            st,
        ),
{
    let starter = match comment_starter_for(filetype) {
        Some(x) => chars_of(x),
        None => return Err(ScfmtErr::IncompatibleFileType),
    };
    let s = chars_of(str);
    let lines = split_lines(&s);
    let out = null_existing_lines(&lines, &starter);
    let v = join_lines(&out, ends_with_newline(&s));
    Ok(string_from_chars(&v))
}

} // verus!
