//! Regular expressions, and what they match.

use vstd::prelude::*;

use crate::text::Chars;

verus! {

/// `regex::Regex`: an expression, of which nothing is known but what it was compiled from.
#[verifier::external_type_specification]
#[verifier::external_body]
pub struct ExRegex(regex::Regex);

/// What an expression was compiled from: its text, and whether it ignores case.
pub uninterp spec fn source_of(re: regex::Regex) -> (Chars, bool);

/// Whether a text is a regular expression.
pub uninterp spec fn compiles(pattern: Chars, ignore_case: bool) -> bool;

/// What an expression answers for a text.
pub uninterp spec fn regex_hit(pattern: Chars, ignore_case: bool, text: Chars) -> bool;

/// What an expression captures in a text: nothing where it does not match, and for a group of a
/// match its text, where the group took part.
pub uninterp spec fn regex_group(pattern: Chars, ignore_case: bool, text: Chars, group: usize) -> Option<Option<Chars>>;

/// `regex::RegexBuilder::build`: an expression, or none where the text is not one.
#[verifier::external_body]
pub(crate) fn compile(pattern: &str, ignore_case: bool) -> (r: Option<regex::Regex>)
    ensures
        r is Some <==> compiles(pattern@, ignore_case),
        r matches Some(re) ==> source_of(re) == (pattern@, ignore_case),
{
    regex::RegexBuilder::new(pattern).case_insensitive(ignore_case).build().ok()
}

/// `regex::Regex::is_match`: the answer is a function of the expression and the text.
#[verifier::external_body]
pub(crate) fn is_match(re: &regex::Regex, text: &str) -> (r: bool)
    ensures
        r == regex_hit(source_of(*re).0, source_of(*re).1, text@),
{
    re.is_match(text)
}

/// `regex::Regex::captures`: the leftmost match's group of that number, a function of the
/// expression, the text and the number.
#[verifier::external_body]
pub(crate) fn capture(re: &regex::Regex, text: &str, group: usize) -> (r: Option<Option<String>>)
    ensures
        r.deep_view() == regex_group(source_of(*re).0, source_of(*re).1, text@, group),
{
    re.captures(text).map(|c| c.get(group).map(|m| m.as_str().to_string()))
}

/// What a setting's expression answers: one that does not compile matches nothing.
pub open spec fn pattern_hit(pattern: Chars, ignore_case: bool, text: Chars) -> bool {
    compiles(pattern, ignore_case) && regex_hit(pattern, ignore_case, text)
}

/// An expression, or none that matches nothing.
pub struct Pattern {
    re: Option<regex::Regex>,
    text: String,
    ignore_case: bool,
}

impl View for Pattern {
    type V = (Chars, bool);

    /// Its text, and whether it ignores case.
    closed spec fn view(&self) -> (Chars, bool) {
        (self.text@, self.ignore_case)
    }
}

impl Pattern {
    #[verifier::type_invariant]
    spec fn compiled(self) -> bool {
        &&& self.re is Some <==> compiles(self.text@, self.ignore_case)
        &&& self.re matches Some(re) ==> source_of(re) == (self.text@, self.ignore_case)
    }

    /// The expression of a text; one that does not compile matches nothing.
    pub fn new(text: &str, ignore_case: bool) -> (r: Pattern)
        ensures
            r@ == (text@, ignore_case),
    {
        Pattern { re: compile(text, ignore_case), text: text.to_owned(), ignore_case }
    }

    /// Does it match?
    pub fn hits(&self, text: &str) -> (r: bool)
        ensures
            r == pattern_hit(self@.0, self@.1, text@),
    {
        proof {
            use_type_invariant(self);
        }
        match &self.re {
            Some(re) => is_match(re, text),
            None => false,
        }
    }

    /// What it captures.
    pub fn group(&self, text: &str, group: usize) -> (r: Option<Option<String>>)
        ensures
            r.deep_view() == (if compiles(self@.0, self@.1) {
                regex_group(self@.0, self@.1, text@, group)
            } else {
                None
            }),
    {
        proof {
            use_type_invariant(self);
        }
        match &self.re {
            Some(re) => capture(re, text, group),
            None => None,
        }
    }
}

} // verus!
