//! Common higher-kinded type patterns.
use vstd::prelude::*;
use crate::types::{TypeKind, TypeParam, STypeParam, tparams_view};

verus! {

/// The kind `* -> *`.
pub open spec fn unary_kind() -> TypeKind {
    TypeKind::Arrow(Box::new(TypeKind::Star), Box::new(TypeKind::Star))
}

/// A single parameter of kind `* -> *`.
fn unary_constructor(name: &str) -> (r: Vec<TypeParam>)
    ensures
        tparams_view(r@) == seq![STypeParam { name: name@, kind: unary_kind() }],
{
    let mut v: Vec<TypeParam> = Vec::new();
    v.push(
        TypeParam {
            name: String::from_str(name),
            kind: TypeKind::Arrow(Box::new(TypeKind::Star), Box::new(TypeKind::Star)),
        },
    );
    assert(tparams_view(v@) =~= seq![STypeParam { name: name@, kind: unary_kind() }]);
    v
}

/// Functor: `F[_]` with a map operation.
pub fn functor() -> (r: Vec<TypeParam>)
    ensures
        tparams_view(r@) == seq![STypeParam { name: "F"@, kind: unary_kind() }],
{
    unary_constructor("F")
}

/// Monad: `M[_]` with a flat-map operation.
pub fn monad() -> (r: Vec<TypeParam>)
    ensures
        tparams_view(r@) == seq![STypeParam { name: "M"@, kind: unary_kind() }],
{
    unary_constructor("M")
}

/// Applicative: `F[_]` with pure and apply operations.
pub fn applicative() -> (r: Vec<TypeParam>)
    ensures
        tparams_view(r@) == seq![STypeParam { name: "F"@, kind: unary_kind() }],
{
    unary_constructor("F")
}

} // verus!
