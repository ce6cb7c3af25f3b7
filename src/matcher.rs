//! Regular expression matching over file names. A pattern that does not
//! compile matches nothing.
use regex::Regex;
use vstd::prelude::*;

verus! {

#[verifier::external_type_specification]
#[verifier::external_body]
pub struct ExRegex(Regex);

/// Whether `pattern` compiles to a regular expression.
pub uninterp spec fn regex_valid(pattern: Seq<char>) -> bool;

/// The leftmost-first match of the valid regular expression `pattern` in
/// `text`, or `None` where there is none.
pub uninterp spec fn regex_first(pattern: Seq<char>, text: Seq<char>) -> Option<Seq<char>>;

/// What a matcher for `pattern` finds in `text`: the first match of a valid
/// pattern, and nothing for an invalid one.
pub open spec fn match_of(pattern: Seq<char>, text: Seq<char>) -> Option<Seq<char>> {
    if regex_valid(pattern) {
        regex_first(pattern, text)
    } else {
        None
    }
}

/// The text of an optional string.
pub open spec fn opt_view(o: Option<String>) -> Option<Seq<char>> {
    match o {
        Some(s) => Some(s@),
        None => None,
    }
}

/// A compiled regular expression together with the pattern it was built from.
struct Compiled {
    re: Regex,
    source: String,
}

/// Relies on regex::Regex::new: whether a pattern compiles depends on the
/// pattern alone.
#[verifier::external_body]
fn compile_regex(pattern: &str) -> (r: Option<Compiled>)
    ensures
        r is Some <==> regex_valid(pattern@),
        r matches Some(c) ==> c.source@ == pattern@,
{
    match Regex::new(pattern) {
        Ok(re) => Some(Compiled { re, source: pattern.to_string() }),
        Err(_) => None,
    }
}

/// Relies on regex::Regex::find: the leftmost-first match in `text`, taken as
/// a string.
#[verifier::external_body]
fn find_first(c: &Compiled, text: &str) -> (r: Option<String>)
    ensures
        opt_view(r) == regex_first(c.source@, text@),
{
    c.re.find(text).map(|m| m.as_str().to_string())
}

/// A query pattern, compiled once and matched against many names.
pub struct Matcher {
    pattern: String,
    compiled: Option<Compiled>,
}

impl Matcher {
    /// The pattern text.
    pub closed spec fn pattern(&self) -> Seq<char> {
        self.pattern@
    }

    pub closed spec fn wf(&self) -> bool {
        &&& (self.compiled is Some <==> regex_valid(self.pattern@))
        &&& (self.compiled matches Some(c) ==> c.source@ == self.pattern@)
    }

    /// Compiles `pattern`; one that does not compile gives a matcher that
    /// matches nothing.
    pub fn new(pattern: &str) -> (m: Matcher)
        ensures
            m.wf(),
            m.pattern() == pattern@,
    {
        Matcher { pattern: String::from_str(pattern), compiled: compile_regex(pattern) }
    }

    /// Whether the pattern compiled.
    pub fn is_valid(&self) -> (r: bool)
        requires
            self.wf(),
        ensures
            r == regex_valid(self.pattern()),
    {
        self.compiled.is_some()
    }

    /// The first match of the pattern in `text`.
    pub fn first_match(&self, text: &str) -> (r: Option<String>)
        requires
            self.wf(),
        ensures
            opt_view(r) == match_of(self.pattern(), text@),
    {
        match &self.compiled {
            Some(c) => find_first(c, text),
            None => None,
        }
    }
}

} // verus!
