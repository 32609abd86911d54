//! Regular-expression matching, done by the `regex` crate.
use vstd::prelude::*;

verus! {

/// What `regex::Regex::new(pattern)` followed by `Regex::is_match(text)`
/// answers: `None` where the pattern does not compile, else whether some
/// part of `text` matches.
pub uninterp spec fn regex_match(pattern: Seq<char>, text: Seq<char>) -> Option<bool>;

/// Whether `regex::Regex::new(pattern)` accepts the pattern.
pub uninterp spec fn regex_compiles(pattern: Seq<char>) -> bool;

/// Compiles `pattern` with `regex::Regex::new` and tests `text` with
/// `Regex::is_match`. The contract claims that the answer is a function of
/// the two strings, and that it is `None` exactly when the pattern does not
/// compile (which does not depend on the text): nothing is stated of which
/// texts a pattern matches.
#[verifier::external_body]
pub(crate) fn regex_is_match(pattern: &str, text: &str) -> (r: Option<bool>)
    ensures
        r == regex_match(pattern@, text@),
        r is Some <==> regex_compiles(pattern@),
{
    match regex::Regex::new(pattern) {
        Ok(re) => Some(re.is_match(text)),
        Err(_) => None,
    }
}

/// What `regex::Regex::new(pattern)` followed by `Regex::captures(text)`
/// gives for capture groups 1 and 2: `None` where the pattern does not
/// compile, does not match, or either group took no part in the match.
pub uninterp spec fn regex_groups(pattern: Seq<char>, text: Seq<char>) -> Option<(Seq<char>, Seq<char>)>;

/// Compiles `pattern` with `regex::Regex::new`, runs `Regex::captures` on
/// `text` and hands out groups 1 and 2. The contract only names the answer.
#[verifier::external_body]
pub(crate) fn regex_capture_pair(pattern: &str, text: &str) -> (r: Option<(String, String)>)
    ensures
        match r {
            Some(p) => regex_groups(pattern@, text@) == Some((p.0@, p.1@)),
            None => regex_groups(pattern@, text@) is None,
        },
{
    let re = match regex::Regex::new(pattern) {
        Ok(re) => re,
        Err(_) => return None,
    };
    let caps = re.captures(text)?;
    let a = caps.get(1)?;
    let b = caps.get(2)?;
    Some((a.as_str().to_string(), b.as_str().to_string()))
}

/// What `regex::Regex::new(pattern)` followed by `Regex::captures(text)`
/// gives for capture group 1: `None` where the pattern does not compile,
/// does not match, or the group took no part in the match.
pub uninterp spec fn regex_group1(pattern: Seq<char>, text: Seq<char>) -> Option<Seq<char>>;

/// Compiles `pattern` with `regex::Regex::new`, runs `Regex::captures` on
/// `text` and hands out group 1. The contract only names the answer.
#[verifier::external_body]
pub(crate) fn regex_capture_one(pattern: &str, text: &str) -> (r: Option<String>)
    ensures
        match r {
            Some(g) => regex_group1(pattern@, text@) == Some(g@),
            None => regex_group1(pattern@, text@) is None,
        },
{
    let re = match regex::Regex::new(pattern) {
        Ok(re) => re,
        Err(_) => return None,
    };
    let caps = re.captures(text)?;
    let a = caps.get(1)?;
    Some(a.as_str().to_string())
}

} // verus!
