//! Regular expressions as they appear in types: a pattern, compared by its
//! text, and a matching predicate supplied by the `regex` engine.

use vstd::prelude::*;

verus! {

/// What the `regex` engine answers for a pattern and a text: `None` when the
/// pattern does not compile, otherwise whether the pattern matches anywhere
/// in the text.
pub uninterp spec fn regex_search(pattern: Seq<char>, text: Seq<char>) -> Option<bool>;

/// A regular expression, identified by its pattern text. Two of them are
/// equal exactly when their patterns are the same string.
#[derive(Debug, PartialEq, Eq, Hash)]
pub struct Regex {
    pub pattern: String,
}

impl View for Regex {
    type V = Seq<char>;

    open spec fn view(&self) -> Seq<char> {
        self.pattern@
    }
}

impl Clone for Regex {
    fn clone(&self) -> (r: Self)
        ensures
            r == *self,
    {
        Regex { pattern: self.pattern.clone() }
    }
}

/// Compiles `pattern` with `regex::Regex::new` and searches `text` with
/// `regex::Regex::is_match`. Both depend on their arguments alone, so the
/// answer is the one that [`regex_search`] names.
#[verifier::external_body]
fn search(pattern: &str, text: &str) -> (r: Option<bool>)
    ensures
        r == regex_search(pattern@, text@),
{
    match ::regex::Regex::new(pattern) {
        Ok(re) => Some(re.is_match(text)),
        Err(_) => None,
    }
}

impl Regex {
    /// The expression with the given pattern text.
    pub fn new(pattern: &str) -> (r: Self)
        ensures
            r@ == pattern@,
    {
        Regex { pattern: pattern.to_owned() }
    }

    /// The pattern text.
    pub fn as_str(&self) -> (r: &str)
        ensures
            r@ == self@,
    {
        self.pattern.as_str()
    }

    /// Whether the engine accepts the pattern at all.
    pub fn is_valid(&self) -> (r: bool)
        ensures
            r == (regex_search(self@, Seq::<char>::empty()) is Some),
    {
        let nothing = "";
        proof {
            reveal_strlit("");
            assert(nothing@ =~= Seq::<char>::empty());
        }
        search(self.pattern.as_str(), nothing).is_some()
    }

    /// Whether the pattern matches somewhere in `text`. A pattern that the
    /// engine rejects matches nothing.
    pub fn is_match(&self, text: &str) -> (r: bool)
        ensures
            r == (regex_search(self@, text@) == Some(true)),
    {
        match search(self.pattern.as_str(), text) {
            Some(found) => found,
            None => false,
        }
    }

    /// Whether both have the same pattern text.
    pub fn same(&self, other: &Regex) -> (r: bool)
        ensures
            r == (self@ == other@),
    {
        self.pattern == other.pattern
    }
}

} // verus!
