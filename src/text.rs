//! Text for reports: paths rendered for display and strings put together.
use vstd::prelude::*;

verus! {

/// The display form of a path's bytes, with invalid UTF-8 replaced.
pub uninterp spec fn lossy_text(b: Seq<u8>) -> Seq<char>;

/// Relies on String::from_utf8_lossy: the text depends on the bytes alone.
#[verifier::external_body]
pub(crate) fn display_bytes(b: &Vec<u8>) -> (r: String)
    ensures
        r@ == lossy_text(b@),
{
    String::from_utf8_lossy(b).into_owned()
}

/// Relies on String::push_str: the text is appended at the end.
#[verifier::external_body]
pub(crate) fn append(s: &mut String, t: &str)
    ensures
        final(s)@ == old(s)@ + t@,
{
    s.push_str(t)
}

/// Appends a whole `String`.
pub(crate) fn append_string(s: &mut String, t: &String)
    ensures
        final(s)@ == old(s)@ + t@,
{
    append(s, t.as_str());
}

} // verus!
