//! A compiled lexical pattern: the textual regular expression it was built
//! from, which the specifications speak about, together with the compiled
//! matcher of the `regex` crate, which does the work at run time.

use vstd::prelude::*;

verus! {

/// The type of compiled regular expressions of the `regex` crate, declared so
/// that it can be held in a field. Verus sees nothing inside a value of it.
#[verifier::external_type_specification]
#[verifier::external_body]
pub struct ExRegex(regex::Regex);

/// Whether the `regex` crate accepts a pattern text. `regex::Regex::new` is a
/// pure function of the pattern, so this is a well-defined property of the
/// pattern alone.
pub uninterp spec fn pattern_compiles(pattern: Seq<char>) -> bool;

/// The length, counted in characters, of the text that a pattern matches at
/// the very start of an input, or `None` when the pattern's leftmost match
/// does not begin at the first character (or there is no match at all).
/// `regex::Regex::find` is a pure function of the pattern and the input, so
/// this is a well-defined function of the two.
pub uninterp spec fn pattern_prefix_chars(pattern: Seq<char>, input: Seq<char>) -> Option<usize>;

/// A lexical pattern, kept together with its source text. Two patterns built
/// from the same text match identically, so the source text is the whole
/// model of the value.
#[derive(Debug)]
pub struct Pattern {
    text: String,
    compiled: regex::Regex,
}

impl View for Pattern {
    type V = Seq<char>;

    closed spec fn view(&self) -> Seq<char> {
        self.text@
    }
}

impl Pattern {
    /// The pattern text this value was compiled from.
    pub fn as_str(&self) -> (r: &str)
        ensures
            r@ == self@,
    {
        self.text.as_str()
    }

    /// Relies on `regex::Regex::new`: it compiles a pattern text, succeeding
    /// or failing depending on the pattern alone.
    #[verifier::external_body]
    pub fn compile(pattern: &str) -> (r: Option<Pattern>)
        ensures
            r is Some <==> pattern_compiles(pattern@),
            r matches Some(p) ==> p@ == pattern@,
    {
        match regex::Regex::new(pattern) {
            Ok(compiled) => Some(Pattern { text: pattern.to_string(), compiled }),
            Err(_) => None,
        }
    }

    /// Relies on `regex::Regex::find`: it returns the leftmost match of the
    /// pattern in the input, with its byte range; a match whose range starts
    /// past the first byte is no prefix match, and the byte range is a valid
    /// range into the input, so the match holds at most as many characters as
    /// the input. The result is a function of the pattern and input alone.
    #[verifier::external_body]
    pub fn prefix_match_chars(&self, input: &str) -> (r: Option<usize>)
        ensures
            r == pattern_prefix_chars(self@, input@),
            r matches Some(n) ==> n <= input@.len(),
    {
        match self.compiled.find(input) {
            Some(m) if m.start() == 0 => Some(m.as_str().chars().count()),
            _ => None,
        }
    }
}

} // verus!
