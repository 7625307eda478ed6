//! The error values that the library's classifiers read: `anyhow::Error`, carried as
//! an opaque value, and the text it displays.
use vstd::prelude::*;

verus! {

/// `anyhow::Error`, an opaque error value.
#[verifier::external_type_specification]
#[verifier::external_body]
pub struct ExAnyhowError(anyhow::Error);

/// The text an `anyhow::Error` displays (`to_string`): the `Display` of the outermost
/// error of its context chain, which is fixed once the error value is built.
pub uninterp spec fn error_display(e: anyhow::Error) -> Seq<char>;

/// `anyhow::Error`'s `Display` text (`to_string`). Which text an error displays
/// depends on how it was built, which nothing here can see, so the text is only named.
#[verifier::external_body]
pub(crate) fn error_text(e: &anyhow::Error) -> (r: String)
    ensures
        r@ == error_display(*e),
{
    e.to_string()
}

} // verus!
