//! Regular expressions, by the `regex` crate.

use regex::Regex;
use vstd::prelude::*;
use vstd::string::*;
use vstd::utf8::*;

verus! {

/// A compiled expression of the `regex` crate. It is carried, never looked into.
#[verifier::external_type_specification]
#[verifier::external_body]
pub struct ExRegex(regex::Regex);

/// What `regex::Regex::new` says against an expression, or nothing where it
/// compiles.
pub uninterp spec fn regex_fault(expression: Seq<char>) -> Option<Seq<char>>;

/// The first match of an expression in a text, as `regex::Regex::captures`
/// finds it: where it starts and ends, in bytes, and what its first group
/// holds.
pub uninterp spec fn regex_captures(expression: Seq<char>, text: Seq<char>) -> Option<
    (nat, nat, Option<Seq<char>>),
>;

/// An expression and what it was compiled to. The two belong together: only
/// `compile` makes a pattern, and nothing changes one.
pub struct Pattern {
    expression: String,
    regex: Regex,
}

impl View for Pattern {
    type V = Seq<char>;

    /// The expression.
    closed spec fn view(&self) -> Seq<char> {
        self.expression@
    }
}

/// A match of a pattern.
pub struct Hit {
    /// Where the match starts, in bytes.
    pub start: usize,
    /// Where it ends, in bytes.
    pub end: usize,
    /// What the first group matched, if there is such a group and it took part.
    pub group: Option<String>,
}

/// `regex::Regex::new`: the compiled expression, or what is wrong with it. Both
/// depend on the expression alone.
#[verifier::external_body]
pub(crate) fn compile(expression: &str) -> (r: Result<Pattern, String>)
    ensures
        match r {
            Ok(p) => regex_fault(expression@) is None && p@ == expression@,
            Err(m) => regex_fault(expression@) == Some(m@),
        },
{
    match Regex::new(expression) {
        Ok(regex) => Ok(Pattern { expression: expression.to_string(), regex }),
        Err(e) => Err(e.to_string()),
    }
}

/// `regex::Regex::is_match`: is there a match?
#[verifier::external_body]
pub(crate) fn is_match(p: &Pattern, text: &str) -> (r: bool)
    ensures
        r == regex_captures(p@, text@) is Some,
{
    p.regex.is_match(text)
}

/// `regex::Regex::captures`: the first match. It lies within the text, and its
/// ends do not cut a character.
#[verifier::external_body]
pub(crate) fn captures(p: &Pattern, text: &str) -> (r: Option<Hit>)
    ensures
        match r {
            Some(h) => {
                &&& regex_captures(p@, text@) matches Some((start, end, group))
                &&& h.start == start
                &&& h.end == end
                &&& match h.group {
                    Some(g) => group == Some(g@),
                    None => group is None,
                }
                &&& start <= end <= encode_utf8(text@).len()
                &&& is_char_boundary(encode_utf8(text@), start as int)
                &&& is_char_boundary(encode_utf8(text@), end as int)
            },
            None => regex_captures(p@, text@) is None,
        },
{
    let c = p.regex.captures(text)?;
    let whole = c.get(0)?;
    let group = c.get(1).map(|g| g.as_str().to_string());
    Some(Hit { start: whole.start(), end: whole.end(), group })
}

/// `regex::Regex::replace` with an empty replacement: the text without its
/// first match, or the text where nothing matches.
#[verifier::external_body]
pub(crate) fn without_match(p: &Pattern, text: &str) -> (r: String)
    ensures
        match regex_captures(p@, text@) {
            Some((start, end, _)) => encode_utf8(r@) == encode_utf8(text@).take(start as int)
                + encode_utf8(text@).skip(end as int),
            None => r@ == text@,
        },
{
    p.regex.replace(text, "").into_owned()
}

} // verus!
