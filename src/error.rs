use vstd::prelude::*;

verus! {

/// What went wrong while generating or resolving types.
#[derive(Debug)]
pub enum TypegenError {
    /// A path or name could not be parsed; the message says why.
    SynParseError(String),
    /// The fields of a composite or variant are neither all named nor all unnamed.
    InvalidFields,
    /// A type in the registry was invalid.
    InvalidType(String),
    /// A compact type was met, but no path for the compact wrapper is configured.
    CompactPathNone,
    /// A bit sequence was met, but no path for decoded bits is configured.
    DecodedBitsPathNone,
    /// No type with this identifier is in the registry.
    TypeNotFound(u32),
    /// A type substitution was invalid.
    InvalidSubstitute(TypeSubstitutionErrorKind),
}

/// Why a type substitution was refused.
#[derive(Debug, Clone, Copy, PartialEq, Eq, Structural)]
#[non_exhaustive]
pub enum TypeSubstitutionErrorKind {
    /// The substitute must be a path starting with `crate::` or `::`.
    ExpectedAbsolutePath,
    /// The substitute path is empty.
    EmptySubstitutePath,
    /// Generics must have the form `Foo<A, B, C>`.
    ExpectedAngleBracketGenerics,
    /// The type to substitute must be an identifier.
    InvalidFromType,
    /// The substitute must be an identifier or an absolute concrete path.
    InvalidToType,
    /// A parameter of the substitute matches no parameter of the substituted type.
    NoMatchingFromType,
}

} // verus!
