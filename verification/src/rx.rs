use vstd::prelude::*;

verus! {

use vstd::string::StringSliceAdditionalSpecFns;
use vstd::utf8::encode_utf8;

#[verifier::external_type_specification]
#[verifier::external_body]
pub struct ExRegexError(regex::Error);

/// Whether `pat` is a valid regular expression, i.e. whether
/// `regex::Regex::new` accepts it.  Compilation depends on the pattern
/// alone.
pub uninterp spec fn rx_ok(pat: Seq<char>) -> bool;

/// The successive non-overlapping matches that a compiled `pat` finds in a
/// haystack with byte content `hay`, each as a half-open byte range.  The
/// result depends on the pattern and the haystack alone.
pub uninterp spec fn rx_found(pat: Seq<char>, hay: Seq<u8>) -> Seq<(usize, usize)>;

/// The byte content that replacing every non-overlapping match of `pat` in
/// `hay` with `rep` (expanding group references in `rep`) produces.  The
/// result depends on the pattern, the haystack and the replacement alone.
pub uninterp spec fn rx_replaced(pat: Seq<char>, hay: Seq<u8>, rep: Seq<char>) -> Seq<u8>;

/// Relies on `regex::Regex::new` and `regex::Regex::find_iter`: `new`
/// accepts exactly the valid patterns, and `find_iter` yields the
/// successive non-overlapping matches in the haystack, in order, each a
/// half-open byte range within it.
#[verifier::external_body]
pub(crate) fn rx_find(pat: &str, hay: &str) -> (r: Result<Vec<(usize, usize)>, regex::Error>)
    ensures
        r.is_ok() <==> rx_ok(pat@),
        r matches Ok(v) ==> {
            &&& v@ == rx_found(pat@, hay.spec_bytes())
            &&& forall|k: int|
                0 <= k < v@.len() ==> #[trigger] v@[k].0 <= v@[k].1 <= hay.spec_bytes().len()
            &&& forall|k: int| 0 <= k < v@.len() - 1 ==> #[trigger] v@[k].1 <= v@[k + 1].0
        },
{
    let re = regex::Regex::new(pat)?;
    Ok(re.find_iter(hay).map(|m| (m.start(), m.end())).collect())
}

/// Relies on `regex::Regex::new` and `regex::Regex::replace_all`: `new`
/// accepts exactly the valid patterns, and `replace_all` replaces every
/// non-overlapping match with the replacement; when the pattern finds no
/// match, the haystack is returned unchanged.
#[verifier::external_body]
pub(crate) fn rx_replace_all(pat: &str, hay: &str, rep: &str) -> (r: Result<String, regex::Error>)
    ensures
        r.is_ok() <==> rx_ok(pat@),
        r matches Ok(s) ==> encode_utf8(s@) == rx_replaced(pat@, hay.spec_bytes(), rep@),
        r matches Ok(s) ==> (rx_found(pat@, hay.spec_bytes()).len() == 0 ==> encode_utf8(s@)
            == hay.spec_bytes()),
{
    let re = regex::Regex::new(pat)?;
    Ok(re.replace_all(hay, rep).into_owned())
}

/// Relies on the `core::fmt::Display` impl of `regex::Error` for a
/// human-readable description of why a pattern failed to compile.
#[verifier::external_body]
pub(crate) fn rx_error_message(e: &regex::Error) -> String {
    format!("{}", e)
}

} // verus!
