use vstd::prelude::*;

verus! {

/// Whether a text is a well-formed Rust type expression, as syn's parser decides.
pub uninterp spec fn is_type_expr(s: Seq<char>) -> bool;

/// Relies on `syn::parse_str::<syn::Type>`: the text parses as one complete type.
/// The answer depends on the text alone.
#[verifier::external_body]
pub fn parses_as_type(s: &str) -> (r: bool)
    ensures
        r == is_type_expr(s@),
{
    syn::parse_str::<syn::Type>(s).is_ok()
}

} // verus!
