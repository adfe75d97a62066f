//! Regular expressions, compiled and run by the `regex` crate.
//!
//! A `CompiledRegex` carries the pattern it was compiled from, so that what the
//! `regex` calls return can be named as a function of the pattern and the input.
use vstd::prelude::*;
use regex::Regex;

verus! {

#[verifier::external_type_specification]
#[verifier::external_body]
pub struct ExRegex(regex::Regex);

/// Whether `Regex::new` accepts a pattern.
pub uninterp spec fn regex_compiles(pattern: Seq<char>) -> bool;

/// What `Regex::is_match` returns for a pattern and a haystack.
pub uninterp spec fn regex_is_match(pattern: Seq<char>, haystack: Seq<char>) -> bool;

/// What `Regex::replace_all` returns for a pattern, a haystack and a replacement.
pub uninterp spec fn regex_replace_all(
    pattern: Seq<char>,
    haystack: Seq<char>,
    replacement: Seq<char>,
) -> Seq<char>;

/// The pieces that `Regex::split` yields for a pattern and a haystack.
pub uninterp spec fn regex_split(pattern: Seq<char>, haystack: Seq<char>) -> Seq<Seq<char>>;

/// A regular expression together with the pattern it was compiled from.
pub struct CompiledRegex {
    pattern: String,
    re: Regex,
}

impl View for CompiledRegex {
    type V = Seq<char>;

    closed spec fn view(&self) -> Seq<char> {
        self.pattern@
    }
}

pub open spec fn string_views(v: Seq<String>) -> Seq<Seq<char>> {
    v.map_values(|s: String| s@)
}

impl CompiledRegex {
    /// `Regex::new`: `Some` exactly when the pattern compiles (named by
    /// `regex_compiles`); the regex keeps the pattern it came from.
    #[verifier::external_body]
    pub(crate) fn new(pattern: &str) -> (res: Option<CompiledRegex>)
        ensures
            res is Some == regex_compiles(pattern@),
            res matches Some(r) ==> r@ == pattern@,
    {
        match Regex::new(pattern) {
            Ok(re) => Some(CompiledRegex { pattern: pattern.to_string(), re }),
            Err(_) => None,
        }
    }

    /// `Regex::is_match`, named by `regex_is_match` over the pattern and the haystack.
    #[verifier::external_body]
    pub(crate) fn is_match(&self, haystack: &str) -> (res: bool)
        ensures
            res == regex_is_match(self@, haystack@),
    {
        self.re.is_match(haystack)
    }

    /// `Regex::replace_all` with a `&str` replacement (in which `$` names a
    /// group), named by `regex_replace_all` over the pattern and both strings.
    #[verifier::external_body]
    pub(crate) fn replace_all(&self, haystack: &str, replacement: &str) -> (res: String)
        ensures
            res@ == regex_replace_all(self@, haystack@, replacement@),
    {
        self.re.replace_all(haystack, replacement).into_owned()
    }

    /// `Regex::split`, its pieces collected; named by `regex_split`.
    #[verifier::external_body]
    pub(crate) fn split(&self, haystack: &str) -> (res: Vec<String>)
        ensures
            string_views(res@) == regex_split(self@, haystack@),
    {
        self.re.split(haystack).map(|piece| piece.to_string()).collect()
    }
}

} // verus!
