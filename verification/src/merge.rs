//! Line-based three-way merging of text, and the text/bytes boundary.
//!
//! Merging itself is done by the `diffy` crate; its output is a pure
//! function of the three input texts, so it is given a name here and the
//! engine's contracts speak of that name.

use vstd::prelude::*;

verus! {

/// What `diffy` returns for three texts: the merged text when the edits do
/// not overlap, else the text with embedded conflict markers.
pub uninterp spec fn three_way_merge(
    ancestor: Seq<char>,
    ours: Seq<char>,
    theirs: Seq<char>,
) -> Result<Seq<char>, Seq<char>>;

/// What `String::from_utf8` returns for a byte sequence: the decoded
/// characters, or nothing when the bytes are not valid text.
pub uninterp spec fn utf8_decode(bytes: Seq<u8>) -> Option<Seq<char>>;

/// What `str::as_bytes` returns for a text: its encoding, which decodes
/// back to the same text.
pub uninterp spec fn utf8_encode(text: Seq<char>) -> Seq<u8>;

/// Relies on diffy's `MergeOptions::merge` with merge-style conflict
/// markers: `Ok` carries the cleanly merged text, `Err` the conflicted
/// text, and the result depends on the three texts alone.
#[verifier::external_body]
fn diffy_merge(ancestor: &str, ours: &str, theirs: &str) -> (r: Result<String, String>)
    ensures
        r is Ok <==> three_way_merge(ancestor@, ours@, theirs@) is Ok,
        r matches Ok(s) ==> s@ == three_way_merge(ancestor@, ours@, theirs@)->Ok_0,
        r matches Err(s) ==> s@ == three_way_merge(ancestor@, ours@, theirs@)->Err_0,
{
    let mut options = diffy::MergeOptions::new();
    options.set_conflict_style(diffy::ConflictStyle::Merge);
    options.merge(ancestor, ours, theirs)
}

/// Relies on `String::from_utf8`: `Ok` exactly when the bytes are valid
/// UTF-8, and then the decoded text; the error is dropped.
#[verifier::external_body]
pub fn bytes_to_text(bytes: &Vec<u8>) -> (r: Option<String>)
    ensures
        r is Some <==> utf8_decode(bytes@) is Some,
        r matches Some(s) ==> Some(s@) == utf8_decode(bytes@),
{
    String::from_utf8(bytes.clone()).ok()
}

/// Relies on `str::as_bytes`: the UTF-8 encoding of the text, which
/// `String::from_utf8` decodes back to the same text.
#[verifier::external_body]
pub fn text_to_bytes(text: &str) -> (r: Vec<u8>)
    ensures
        r@ == utf8_encode(text@),
        utf8_decode(r@) == Some(text@),
{
    text.as_bytes().to_vec()
}

/// The standalone three-way merge: ancestor, ours and theirs in, and
/// either the cleanly merged text or the conflicted text out. No hidden
/// state; the result is `diffy`'s, named `three_way_merge`.
pub fn merge_texts(ancestor: &str, ours: &str, theirs: &str) -> (r: Result<String, String>)
    ensures
        r is Ok <==> three_way_merge(ancestor@, ours@, theirs@) is Ok,
        r matches Ok(s) ==> s@ == three_way_merge(ancestor@, ours@, theirs@)->Ok_0,
        r matches Err(s) ==> s@ == three_way_merge(ancestor@, ours@, theirs@)->Err_0,
{
    diffy_merge(ancestor, ours, theirs)
}

} // verus!
