//! Decoding text-encoding labels.
//!
//! An encoding-typed field holds the canonical name of a text encoding and is
//! bound from a label string ("utf8", "latin1", ...).  The label-to-encoding
//! table is the outside crate's; this module names its result and makes the
//! one call into it.

use vstd::prelude::*;

verus! {

/// The canonical name of the text encoding that the label names, when it
/// names one.  The label-to-encoding table is a fixed part of the outside
/// crate, so this is a function of the label alone.
pub uninterp spec fn label_to_encoding(label: Seq<char>) -> Option<Seq<char>>;

/// The image of an optional owned string.
pub open spec fn opt_string_view(o: Option<String>) -> Option<Seq<char>> {
    match o {
        Some(s) => Some(s@),
        None => None,
    }
}

/// Relies on `encoding_rs::Encoding::for_label` to look the label up, and on
/// `encoding_rs::Encoding::name` for the canonical name of the encoding it
/// found; both read fixed tables, so the result depends on the label alone.
#[verifier::external_body]
pub(crate) fn canonical_encoding_name(label: &String) -> (r: Option<String>)
    ensures
        opt_string_view(r) == label_to_encoding(label@),
{
    encoding_rs::Encoding::for_label(label.as_bytes()).map(|e| e.name().to_owned())
}

} // verus!
