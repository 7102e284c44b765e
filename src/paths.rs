use crate::error::TypegenError;
use crate::registry::{path_view, TypeNode};
use vstd::prelude::*;

verus! {

#[verifier::external_type_specification]
#[verifier::external_body]
pub struct ExTypePath(syn::TypePath);

#[verifier::external_type_specification]
#[verifier::external_body]
pub struct ExSynError(syn::Error);

/// The segments with `::` between each two.
pub open spec fn joined(segments: Seq<Seq<char>>) -> Seq<char>
    decreases segments.len(),
{
    if segments.len() == 0 {
        Seq::empty()
    } else if segments.len() == 1 {
        segments[0]
    } else {
        joined(segments.drop_last()) + seq![':', ':'] + segments.last()
    }
}

/// Whether syn reads the text as a Rust type path.
pub uninterp spec fn parses_as_type_path(s: Seq<char>) -> bool;

/// Relies on `[String]::join`: the segments with `::` between each two.
#[verifier::external_body]
fn join_segments(segments: &Vec<String>) -> (r: String)
    ensures
        r@ == joined(path_view(segments@)),
{
    segments.join("::")
}

/// Relies on `syn::parse_str::<syn::TypePath>`, which succeeds exactly on text
/// that reads as a type path.
#[verifier::external_body]
fn parse_type_path(s: &str) -> (r: Result<syn::TypePath, syn::Error>)
    ensures
        r is Ok == parses_as_type_path(s@),
{
    syn::parse_str::<syn::TypePath>(s)
}

/// Relies on `Display` of `syn::Error` for the error's message.
#[verifier::external_body]
pub(crate) fn error_message(e: &syn::Error) -> String {
    e.to_string()
}

/// The type's path as a Rust type path, its segments joined by `::`.
pub fn syn_type_path(ty: &TypeNode) -> (r: Result<syn::TypePath, TypegenError>)
    ensures
        r is Ok == parses_as_type_path(joined(path_view(ty.path@))),
        r is Err ==> r matches Err(TypegenError::SynParseError(_)),
{
    let joined_path = join_segments(&ty.path);
    match parse_type_path(joined_path.as_str()) {
        Ok(p) => Ok(p),
        Err(e) => Err(TypegenError::SynParseError(error_message(&e))),
    }
}

} // verus!
