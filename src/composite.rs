use crate::error::TypegenError;
use crate::paths::error_message;
use crate::registry::{opt_str_view, Field};
use vstd::prelude::*;

verus! {

/// A field as the generated code needs it.
pub struct CompositeField {
    pub ty: u32,
    /// Whether the field's declared type is boxed (its name holds `Box<`).
    pub is_boxed: bool,
}

/// The fields of a composite or of a variant, by kind.
pub enum CompositeKind {
    NoFields,
    /// Each field's name and what it holds.
    Named(Vec<(String, CompositeField)>),
    /// What each field holds.
    Unnamed(Vec<CompositeField>),
}

pub open spec fn all_named(fields: Seq<Field>) -> bool {
    forall|i: int| 0 <= i < fields.len() ==> (#[trigger] fields[i]).name is Some
}

pub open spec fn all_unnamed(fields: Seq<Field>) -> bool {
    forall|i: int| 0 <= i < fields.len() ==> (#[trigger] fields[i]).name is None
}

/// Whether `s` holds `Box<`.
pub open spec fn holds_box(s: Seq<char>) -> bool {
    exists|i: int| 0 <= i && i + 4 <= s.len() && #[trigger] s.subrange(i, i + 4) == seq!['B', 'o', 'x', '<']
}

/// Whether a declared type name says the field is boxed.
pub open spec fn boxed(ty_name: Option<Seq<char>>) -> bool {
    match ty_name {
        Some(t) => holds_box(t),
        None => false,
    }
}

/// Whether syn reads the text as a Rust identifier.
pub uninterp spec fn parses_as_ident(s: Seq<char>) -> bool;

/// All field names read as identifiers.
pub open spec fn names_parse(fields: Seq<Field>) -> bool {
    forall|i: int| 0 <= i < fields.len() ==> parses_as_ident((#[trigger] fields[i]).name.unwrap()@)
}

/// Relies on `str::contains` with a `&str` pattern: whether the text holds `Box<`.
#[verifier::external_body]
fn contains_box(s: &str) -> (r: bool)
    ensures
        r == holds_box(s@),
{
    s.contains("Box<")
}

/// Relies on `syn::parse_str::<syn::Ident>`, which succeeds exactly on text that
/// reads as an identifier; gives its error, if any.
#[verifier::external_body]
fn ident_error(s: &str) -> (r: Option<syn::Error>)
    ensures
        r is None == parses_as_ident(s@),
{
    syn::parse_str::<syn::Ident>(s).err()
}

fn composite_field(f: &Field) -> (r: CompositeField)
    ensures
        r.ty == f.ty,
        r.is_boxed == boxed(opt_str_view(f.ty_name)),
{
    let is_boxed = match &f.ty_name {
        Some(t) => contains_box(t.as_str()),
        None => false,
    };
    CompositeField { ty: f.ty, is_boxed }
}

/// Sorts the fields of a composite or variant into named or unnamed ones. Fields
/// that mix the two are refused as a whole, and so are named fields whose names
/// are not identifiers.
pub fn create_composite_ir_kind(fields: &[Field]) -> (r: Result<CompositeKind, TypegenError>)
    ensures
        fields@.len() == 0 ==> r matches Ok(CompositeKind::NoFields),
        fields@.len() > 0 && all_named(fields@) && names_parse(fields@) ==> match r {
            Ok(CompositeKind::Named(v)) => v@.len() == fields@.len() && forall|i: int|
                0 <= i < v@.len() ==> (#[trigger] v@[i]).0@ == fields@[i].name.unwrap()@ && v@[i].1.ty
                    == fields@[i].ty && v@[i].1.is_boxed == boxed(opt_str_view(fields@[i].ty_name)),
            _ => false,
        },
        fields@.len() > 0 && all_named(fields@) && !names_parse(fields@) ==> r matches Err(
            TypegenError::SynParseError(_),
        ),
        fields@.len() > 0 && all_unnamed(fields@) ==> match r {
            Ok(CompositeKind::Unnamed(v)) => v@.len() == fields@.len() && forall|i: int|
                0 <= i < v@.len() ==> (#[trigger] v@[i]).ty == fields@[i].ty && v@[i].is_boxed == boxed(
                    opt_str_view(fields@[i].ty_name),
                ),
            _ => false,
        },
        !all_named(fields@) && !all_unnamed(fields@) ==> r matches Err(TypegenError::InvalidFields),
{
    if fields.len() == 0 {
        return Ok(CompositeKind::NoFields);
    }
    let mut any_named = false;
    let mut any_unnamed = false;
    let mut i: usize = 0;
    while i < fields.len()
        invariant
            0 <= i <= fields@.len(),
            !any_named ==> forall|k: int| 0 <= k < i ==> (#[trigger] fields@[k]).name is None,
            !any_unnamed ==> forall|k: int| 0 <= k < i ==> (#[trigger] fields@[k]).name is Some,
            any_named ==> !all_unnamed(fields@),
            any_unnamed ==> !all_named(fields@),
        decreases fields@.len() - i,
    {
        if fields[i].name.is_some() {
            any_named = true;
        } else {
            any_unnamed = true;
        }
        i = i + 1;
    }
    if !any_unnamed {
        assert(fields@[0].name is Some);
        let mut out: Vec<(String, CompositeField)> = Vec::new();
        let mut j: usize = 0;
        while j < fields.len()
            invariant
                0 <= j <= fields@.len(),
                all_named(fields@),
                out@.len() == j,
                forall|k: int| 0 <= k < j ==> parses_as_ident((#[trigger] fields@[k]).name.unwrap()@),
                forall|k: int|
                    0 <= k < j ==> (#[trigger] out@[k]).0@ == fields@[k].name.unwrap()@ && out@[k].1.ty
                        == fields@[k].ty && out@[k].1.is_boxed == boxed(opt_str_view(fields@[k].ty_name)),
            decreases fields@.len() - j,
        {
            let f = &fields[j];
            let name = match &f.name {
                Some(n) => n.clone(),
                None => String::new(),
            };
            if let Some(e) = ident_error(name.as_str()) {
                assert(!names_parse(fields@));
                return Err(TypegenError::SynParseError(error_message(&e)));
            }
            out.push((name, composite_field(f)));
            j = j + 1;
        }
        Ok(CompositeKind::Named(out))
    } else if !any_named {
        let mut out: Vec<CompositeField> = Vec::new();
        let mut j: usize = 0;
        while j < fields.len()
            invariant
                0 <= j <= fields@.len(),
                out@.len() == j,
                forall|k: int|
                    0 <= k < j ==> (#[trigger] out@[k]).ty == fields@[k].ty && out@[k].is_boxed == boxed(
                        opt_str_view(fields@[k].ty_name),
                    ),
            decreases fields@.len() - j,
        {
            out.push(composite_field(&fields[j]));
            j = j + 1;
        }
        Ok(CompositeKind::Unnamed(out))
    } else {
        Err(TypegenError::InvalidFields)
    }
}

} // verus!
