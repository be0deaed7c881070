//! Regular expressions compiled by the regex crate, and the calls into it.
use vstd::prelude::*;
use crate::record::strings_view;
use crate::text::is_piece_of;

verus! {

#[verifier::external_type_specification]
#[verifier::external_body]
pub struct ExRegex(regex::Regex);

/// Whether the regex crate compiles `pattern`, case-insensitively or not.
/// Besides a syntax error, it refuses a pattern whose compiled form passes
/// its default size limit.
pub uninterp spec fn regex_accepts(pattern: Seq<char>, ignore_case: bool) -> bool;

/// The texts of the successive non-overlapping matches that the regex crate
/// finds in `hay` for `pattern`, case-insensitively or not.
pub uninterp spec fn regex_matches(pattern: Seq<char>, ignore_case: bool, hay: Seq<char>) -> Seq<
    Seq<char>,
>;

/// A compiled regular expression, with the pattern and the case option it
/// was compiled from. Only `compile_regex` makes one.
pub struct CompiledRegex {
    re: regex::Regex,
    pattern: String,
    ignore_case: bool,
}

impl CompiledRegex {
    /// The pattern this expression was compiled from.
    pub closed spec fn source(&self) -> Seq<char> {
        self.pattern@
    }

    /// Whether this expression was compiled to ignore case.
    pub closed spec fn folds_case(&self) -> bool {
        self.ignore_case
    }
}

/// Relies on `regex::RegexBuilder::new`, `case_insensitive` and `build`:
/// the pattern either compiles, with the given case option, or is refused
/// with the error's message.
#[verifier::external_body]
pub(crate) fn compile_regex(pattern: &str, ignore_case: bool) -> (r: Result<CompiledRegex, String>)
    ensures
        r is Ok <==> regex_accepts(pattern@, ignore_case),
        r matches Ok(c) ==> c.source() == pattern@ && c.folds_case() == ignore_case,
{
    match regex::RegexBuilder::new(pattern).case_insensitive(ignore_case).build() {
        Ok(re) => Ok(CompiledRegex { re, pattern: pattern.to_string(), ignore_case }),
        Err(e) => Err(e.to_string()),
    }
}

/// Relies on `regex::Regex::find_iter` and `regex::Match::as_str`: the
/// matches depend on the pattern, the case option and the haystack alone,
/// and each is the haystack's text between the match's start and end.
#[verifier::external_body]
pub(crate) fn regex_found(c: &CompiledRegex, hay: &str) -> (r: Vec<String>)
    ensures
        strings_view(r@) == regex_matches(c.source(), c.folds_case(), hay@),
        forall|i: int| 0 <= i < r@.len() ==> is_piece_of(#[trigger] r@[i]@, hay@),
{
    c.re.find_iter(hay).map(|m| m.as_str().to_string()).collect()
}

} // verus!
