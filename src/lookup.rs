//! Which comment starter a file extension uses.
use vstd::prelude::*;

verus! {

/// The comment starter of the language that file extension `e` names.
pub open spec fn comment_starter_of(e: Seq<char>) -> Option<Seq<char>> {
    if e == "adb"@ || e == "ads"@ || e == "elm"@ || e == "hs"@ || e == "lhs"@ || e == "lua"@ || e == "pig"@ || e == "plsql"@ || e == "q"@ || e == "vhdl"@ {
        Some("--"@)
    } else if e == "asm"@ || e == "clj"@ || e == "rkt"@ {
        Some(";"@)
    } else if e == "al"@ || e == "c"@ || e == "cfc"@ || e == "cls"@ || e == "cpp"@ || e == "cs"@ || e == "csx"@ || e == "d"@ || e == "dart"@ || e == "go"@ || e == "groovy"@ || e == "h"@ || e == "java"@ || e == "js"@ || e == "cjs"@ || e == "mjs"@ || e == "jsonc"@ || e == "pas"@ || e == "php"@ || e == "pp"@ || e == "rs"@ || e == "sass"@ || e == "scss"@ || e == "shader"@ || e == "sol"@ || e == "styl"@ || e == "svelte"@ || e == "ts"@ || e == "tsx"@ || e == "vala"@ || e == "v"@ || e == "vue"@ {
        Some("//"@)
    } else if e == "bib"@ || e == "m"@ {
        Some("%"@)
    } else if e == "brs"@ || e == "pu"@ {
        Some("'"@)
    } else if e == "do"@ || e == "sas"@ {
        Some("*"@)
    } else if e == "ex"@ || e == "gd"@ || e == "graphql"@ || e == "nim"@ || e == "ps1"@ || e == "sh"@ || e == "tcl"@ || e == "toml"@ || e == "yaml"@ {
        Some("#"@)
    } else if e == "gen"@ {
        Some("\\"@)
    } else if e == "lisp"@ {
        Some(";;"@)
    } else {
        None
    }
}

/// Whether two strings hold the same characters.
pub fn same_text(a: &str, b: &str) -> (r: bool)
    ensures
        r == (a@ == b@),
{
    let n = a.unicode_len();
    if n != b.unicode_len() {
        return false;
    }
    let mut i: usize = 0;
    while i < n
        invariant
            i <= n,
            n == a@.len(),
            n == b@.len(),
            forall|j: int| 0 <= j < i ==> a@[j] == b@[j],
        decreases n - i,
    {
        if a.get_char(i) != b.get_char(i) {
            return false;
        }
        i = i + 1;
    }
    assert(a@ =~= b@);
    true
}

/// Looks up the comment starter of a file extension.
pub fn comment_starter_for(ext: &str) -> (r: Option<&'static str>)
    ensures
        r is None <==> comment_starter_of(ext@) is None,
        r matches Some(s) ==> comment_starter_of(ext@) == Some(s@),
{
    if same_text(ext, "adb") || same_text(ext, "ads") || same_text(ext, "elm") || same_text(ext, "hs") || same_text(ext, "lhs") || same_text(ext, "lua") || same_text(ext, "pig") || same_text(ext, "plsql") || same_text(ext, "q") || same_text(ext, "vhdl") {
        Some("--")
    } else if same_text(ext, "asm") || same_text(ext, "clj") || same_text(ext, "rkt") {
        Some(";")
    } else if same_text(ext, "al") || same_text(ext, "c") || same_text(ext, "cfc") || same_text(ext, "cls") || same_text(ext, "cpp") || same_text(ext, "cs") || same_text(ext, "csx") || same_text(ext, "d") || same_text(ext, "dart") || same_text(ext, "go") || same_text(ext, "groovy") || same_text(ext, "h") || same_text(ext, "java") || same_text(ext, "js") || same_text(ext, "cjs") || same_text(ext, "mjs") || same_text(ext, "jsonc") || same_text(ext, "pas") || same_text(ext, "php") || same_text(ext, "pp") || same_text(ext, "rs") || same_text(ext, "sass") || same_text(ext, "scss") || same_text(ext, "shader") || same_text(ext, "sol") || same_text(ext, "styl") || same_text(ext, "svelte") || same_text(ext, "ts") || same_text(ext, "tsx") || same_text(ext, "vala") || same_text(ext, "v") || same_text(ext, "vue") {
        Some("//")
    } else if same_text(ext, "bib") || same_text(ext, "m") {
        Some("%")
    } else if same_text(ext, "brs") || same_text(ext, "pu") {
        Some("'")
    } else if same_text(ext, "do") || same_text(ext, "sas") {
        Some("*")
    } else if same_text(ext, "ex") || same_text(ext, "gd") || same_text(ext, "graphql") || same_text(ext, "nim") || same_text(ext, "ps1") || same_text(ext, "sh") || same_text(ext, "tcl") || same_text(ext, "toml") || same_text(ext, "yaml") {
        Some("#")
    } else if same_text(ext, "gen") {
        Some("\\")
    } else if same_text(ext, "lisp") {
        Some(";;")
    } else {
        None
    }
}

} // verus!
