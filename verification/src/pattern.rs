//! Regular expressions, compiled and matched by the `regex` crate.
//!
//! What a pattern matches is not restated here: the results of the crate's
//! calls are named, as functions of the pattern, its flags and the text.

use vstd::prelude::*;

verus! {

#[verifier::external_type_specification]
#[verifier::external_body]
pub struct ExRegex(regex::Regex);

/// What compiling `pattern` with the given flags gives: `None` when it
/// compiles, the error's text when it does not.
pub uninterp spec fn spec_compile_error(pattern: Seq<char>, case_insensitive: bool, dot_all: bool) -> Option<Seq<char>>;

/// The capture groups (group 0 first) of the leftmost match of the pattern
/// in `text`, or `None` without a match.
pub uninterp spec fn spec_first_captures(
    pattern: Seq<char>,
    case_insensitive: bool,
    dot_all: bool,
    text: Seq<char>,
) -> Option<Seq<Option<Seq<char>>>>;

/// The capture groups of each successive non-overlapping match of the
/// pattern in `text`.
pub uninterp spec fn spec_all_captures(
    pattern: Seq<char>,
    case_insensitive: bool,
    dot_all: bool,
    text: Seq<char>,
) -> Seq<Seq<Option<Seq<char>>>>;

/// The views of a list of capture groups.
pub open spec fn groups_view(g: Seq<Option<String>>) -> Seq<Option<Seq<char>>> {
    g.map_values(|o: Option<String>| crate::voting::opt_view(o))
}

/// A compiled regular expression, with the pattern and flags it was
/// compiled from.
pub struct CompiledPattern {
    re: regex::Regex,
    source: String,
    case_insensitive: bool,
    dot_all: bool,
}

impl CompiledPattern {
    /// The pattern this was compiled from.
    pub closed spec fn source(&self) -> Seq<char> {
        self.source@
    }

    /// Whether letters match regardless of case.
    pub closed spec fn case_insensitive(&self) -> bool {
        self.case_insensitive
    }

    /// Whether `.` also matches a newline.
    pub closed spec fn dot_all(&self) -> bool {
        self.dot_all
    }
}

/// `regex::RegexBuilder::new(pattern)` with the two flags set, then `build`.
/// Claims: the outcome is the one named by `spec_compile_error`, and a
/// compiled regex remembers the pattern and flags it came from.
#[verifier::external_body]
pub fn compile_pattern(pattern: &str, case_insensitive: bool, dot_all: bool) -> (r: Result<CompiledPattern, String>)
    ensures
        match r {
            Ok(c) => spec_compile_error(pattern@, case_insensitive, dot_all) is None && c.source() == pattern@
                && c.case_insensitive() == case_insensitive && c.dot_all() == dot_all,
            Err(e) => spec_compile_error(pattern@, case_insensitive, dot_all) == Some(e@),
        },
{
    match regex::RegexBuilder::new(pattern).case_insensitive(case_insensitive).dot_matches_new_line(dot_all).build() {
        Ok(re) => Ok(CompiledPattern { re, source: pattern.to_string(), case_insensitive, dot_all }),
        Err(e) => Err(e.to_string()),
    }
}

/// `regex::Regex::captures`, each group taken as an owned string. Claims: the
/// result is the one named by `spec_first_captures`; a match always has
/// group 0 (the whole match).
#[verifier::external_body]
pub fn first_captures(re: &CompiledPattern, text: &str) -> (r: Option<Vec<Option<String>>>)
    ensures
        match r {
            Some(g) => spec_first_captures(re.source(), re.case_insensitive(), re.dot_all(), text@) == Some(
                groups_view(g@),
            ) && g@.len() >= 1 && g@[0] is Some,
            None => spec_first_captures(re.source(), re.case_insensitive(), re.dot_all(), text@) is None,
        },
{
    re.re.captures(text).map(|c| c.iter().map(|m| m.map(|m| m.as_str().to_string())).collect())
}

/// `regex::Regex::captures_iter`, each match's groups taken as owned strings.
/// Claims: the result is the one named by `spec_all_captures`.
#[verifier::external_body]
pub fn all_captures(re: &CompiledPattern, text: &str) -> (r: Vec<Vec<Option<String>>>)
    ensures
        r@.map_values(|g: Vec<Option<String>>| groups_view(g@)) == spec_all_captures(
            re.source(),
            re.case_insensitive(),
            re.dot_all(),
            text@,
        ),
{
    re.re.captures_iter(text).map(|c| c.iter().map(|m| m.map(|m| m.as_str().to_string())).collect()).collect()
}

} // verus!
