use vstd::prelude::*;
use crate::text::{contains_char, contains_seq, str_contains_char, str_contains_sub};

verus! {

/// Whether a pattern compiles as a regular expression.
pub uninterp spec fn regex_valid(p: Seq<char>) -> bool;

/// Whether a compiled regular expression matches somewhere in a text.
pub uninterp spec fn regex_match(p: Seq<char>, t: Seq<char>) -> bool;

/// Relies on regex::Regex::new and regex::Regex::is_match: whether the
/// pattern compiles, and whether it matches somewhere in the text, are
/// functions of the pattern and text characters alone. `None` reports a
/// pattern that does not compile.
#[verifier::external_body]
fn regex_try_match(pattern: &str, text: &str) -> (r: Option<bool>)
    ensures
        r is Some <==> regex_valid(pattern@),
        r matches Some(m) ==> m == regex_match(pattern@, text@),
{
    match regex::Regex::new(pattern) {
        Ok(re) => Some(re.is_match(text)),
        Err(_) => None,
    }
}

/// The dual-mode heuristic: a pattern is treated as a regular expression when
/// it starts with `^`, ends with `$`, or holds `.*`, `[` or `]`; anything
/// else is a plain substring to search for.
pub open spec fn looks_like_regex(p: Seq<char>) -> bool {
    ||| (p.len() > 0 && p[0] == '^')
    ||| (p.len() > 0 && p[p.len() - 1] == '$')
    ||| contains_seq(p, seq!['.', '*'])
    ||| contains_char(p, '[')
    ||| contains_char(p, ']')
}

/// Whether `name` passes a search pattern: a regex-looking pattern matches as
/// a regular expression (an invalid one matches nothing), any other pattern
/// as a case-sensitive substring.
pub open spec fn search_matches(name: Seq<char>, p: Seq<char>) -> bool {
    if looks_like_regex(p) {
        regex_valid(p) && regex_match(p, name)
    } else {
        contains_seq(name, p)
    }
}

/// Whether `name` is excluded: the exclusion pattern is always read as a
/// regular expression, and an invalid one never excludes.
pub open spec fn excluded(name: Seq<char>, ex: Option<Seq<char>>) -> bool {
    match ex {
        Some(p) => regex_valid(p) && regex_match(p, name),
        None => false,
    }
}

/// The view of an optional borrowed pattern.
pub open spec fn opt_view(o: Option<&String>) -> Option<Seq<char>> {
    match o {
        Some(s) => Some(s@),
        None => None,
    }
}

/// The whole filter of one name: a name matching the exclusion pattern is
/// rejected outright; of the rest, every name passes when no search pattern
/// is given, and otherwise exactly those the search pattern selects.
pub open spec fn passes_filter(
    name: Seq<char>,
    search: Option<Seq<char>>,
    exclude: Option<Seq<char>>,
) -> bool {
    &&& !excluded(name, exclude)
    &&& match search {
        Some(p) => search_matches(name, p),
        None => true,
    }
}

/// Executable form of the regex-or-substring heuristic.
fn looks_like_regex_exec(p: &str) -> (r: bool)
    ensures
        r == looks_like_regex(p@),
{
    proof {
        reveal_strlit(".*");
    }
    let n = p.unicode_len();
    if n > 0 && p.get_char(0) == '^' {
        return true;
    }
    if n > 0 && p.get_char(n - 1) == '$' {
        return true;
    }
    if str_contains_sub(p, ".*") {
        assert(".*"@ =~= seq!['.', '*']);
        return true;
    }
    if str_contains_char(p, '[') {
        return true;
    }
    if str_contains_char(p, ']') {
        return true;
    }
    assert(".*"@ =~= seq!['.', '*']);
    false
}

/// Decides whether one name matches the exclusion pattern.
pub fn is_excluded(name: &str, excluding_pattern: Option<&String>) -> (r: bool)
    ensures
        r == excluded(name@, opt_view(excluding_pattern)),
{
    match excluding_pattern {
        Some(p) => {
            match regex_try_match(p.as_str(), name) {
                Some(m) => m,
                None => false,
            }
        },
        None => false,
    }
}

/// Decides whether one name passes the search pattern; every name passes
/// when none is given.
pub fn search_ok(name: &str, search_pattern: Option<&String>) -> (r: bool)
    ensures
        r == match opt_view(search_pattern) {
            Some(p) => search_matches(name@, p),
            None => true,
        },
{
    match search_pattern {
        Some(p) => {
            if looks_like_regex_exec(p.as_str()) {
                match regex_try_match(p.as_str(), name) {
                    Some(m) => m,
                    None => false,
                }
            } else {
                str_contains_sub(name, p.as_str())
            }
        },
        None => true,
    }
}

/// Decides whether one name passes the search and exclusion patterns.
pub fn name_matches(
    name: &str,
    search_pattern: Option<&String>,
    excluding_pattern: Option<&String>,
) -> (r: bool)
    ensures
        r == passes_filter(name@, opt_view(search_pattern), opt_view(excluding_pattern)),
{
    if is_excluded(name, excluding_pattern) {
        false
    } else {
        search_ok(name, search_pattern)
    }
}

} // verus!
