//! The source pattern, compiled to a byte-oriented regular expression that
//! must match a whole path, and the destination template.
use vstd::prelude::*;
use crate::text::append;

verus! {

#[verifier::external_type_specification]
#[verifier::external_body]
pub struct ExRegex(regex::bytes::Regex);

#[verifier::external_type_specification]
#[verifier::external_body]
pub struct ExRegexError(regex::Error);

/// Whether the regex engine accepts this pattern text.
pub uninterp spec fn pattern_accepted(text: Seq<char>) -> bool;

/// Whether the compiled pattern text matches the bytes.
pub uninterp spec fn regex_matches(text: Seq<char>, haystack: Seq<u8>) -> bool;

/// The bytes after the first match of the pattern text is replaced by the
/// template, with its capture-group references expanded.
pub uninterp spec fn regex_replaced(text: Seq<char>, haystack: Seq<u8>, template: Seq<char>) -> Seq<u8>;

/// The user's pattern as one non-capturing group between anchors, so that
/// only a whole path matches, whatever alternatives the pattern holds, and
/// its capture groups keep their numbers. The group closes after a switch to
/// verbose mode and a line break: the line break ends a comment that the
/// pattern may leave open, and in verbose mode it is not matched itself.
pub open spec fn anchored(pattern: Seq<char>) -> Seq<char> {
    "^(?:"@ + pattern + "(?x)\n)$"@
}

/// A compiled source pattern, together with the anchored text it was compiled from.
pub struct Matcher {
    regex: regex::bytes::Regex,
    text: String,
}

impl Matcher {
    /// The anchored pattern text.
    pub closed spec fn text(&self) -> Seq<char> {
        self.text@
    }
}

/// Relies on regex::bytes::RegexBuilder::build: whether a pattern compiles
/// depends on its text alone.
#[verifier::external_body]
fn compile(text: &String) -> (r: Result<regex::bytes::Regex, regex::Error>)
    ensures
        r is Ok <==> pattern_accepted(text@),
{
    regex::bytes::RegexBuilder::new(text).build()
}

/// Compile the source pattern so that it matches only a whole path. The
/// pattern must compile on its own first: only then are its groups balanced,
/// so that the wrapping group holds the whole of it.
pub fn build_regex(pattern: &String) -> (r: Result<Matcher, regex::Error>)
    ensures
        r is Ok <==> pattern_accepted(pattern@) && pattern_accepted(anchored(pattern@)),
        r is Ok ==> r->Ok_0.text() == anchored(pattern@),
{
    if let Err(e) = compile(pattern) {
        return Err(e);
    }
    let mut text = String::new();
    append(&mut text, "^(?:");
    append(&mut text, pattern.as_str());
    append(&mut text, "(?x)\n)$");
    assert(text@ =~= anchored(pattern@));
    match compile(&text) {
        Ok(regex) => Ok(Matcher { regex, text }),
        Err(e) => Err(e),
    }
}

/// Relies on regex::bytes::Regex::is_match, on the regex compiled from the
/// matcher's text.
#[verifier::external_body]
pub(crate) fn is_match(m: &Matcher, path: &Vec<u8>) -> (r: bool)
    ensures
        r == regex_matches(m.text(), path@),
{
    m.regex.is_match(path)
}

/// Relies on regex::bytes::Regex::replace, on the regex compiled from the
/// matcher's text, with the template's bytes as the replacement.
#[verifier::external_body]
pub(crate) fn substitute(m: &Matcher, path: &Vec<u8>, template: &String) -> (r: Vec<u8>)
    ensures
        r@ == regex_replaced(m.text(), path@, template@),
{
    m.regex.replace(path, template.as_bytes()).into_owned()
}

} // verus!
