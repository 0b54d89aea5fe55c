//! Common recursive type patterns.
use vstd::prelude::*;
use crate::types::{Type, SType, tviews, tview};

verus! {

/// The model of `json_type`: `JSON = None | bool | int | float | str | list[JSON] | dict[str, JSON]`.
pub open spec fn json_spec() -> SType {
    SType::Recursive(
        "JSON"@,
        Box::new(
            SType::Union(
                seq![
                    SType::NoneType,
                    SType::Bool,
                    SType::Int,
                    SType::Float,
                    SType::Str,
                    SType::List(Box::new(SType::Class("JSON"@))),
                    SType::Dict(Box::new(SType::Str), Box::new(SType::Class("JSON"@))),
                ],
            ),
        ),
    )
}

/// The model of `linked_list`: `List = None | (T, List)`.
pub open spec fn linked_list_spec(elem: SType) -> SType {
    SType::Recursive(
        "List"@,
        Box::new(
            SType::Union(seq![SType::NoneType, SType::Tuple(seq![elem, SType::Class("List"@)])]),
        ),
    )
}

/// The model of `binary_tree`: `Tree = (T) | (Tree, T, Tree)`.
pub open spec fn binary_tree_spec(elem: SType) -> SType {
    SType::Recursive(
        "Tree"@,
        Box::new(
            SType::Union(
                seq![
                    SType::Tuple(seq![elem]),
                    SType::Tuple(seq![SType::Class("Tree"@), elem, SType::Class("Tree"@)]),
                ],
            ),
        ),
    )
}

fn class_named(name: &str) -> (r: Type)
    ensures
        r@ == SType::Class(name@),
{
    Type::Class(String::from_str(name))
}

/// JSON: a recursive union of primitives, lists of JSON and dicts from strings to JSON.
pub fn json_type() -> (r: Type)
    ensures
        r@ == json_spec(),
{
    proof {
        reveal_with_fuel(tview, 3);
    }
    let list = Type::List(Box::new(class_named("JSON")));
    assert(list@ == SType::List(Box::new(SType::Class("JSON"@))));
    let dict = Type::Dict(Box::new(Type::Str), Box::new(class_named("JSON")));
    assert(dict@ == SType::Dict(Box::new(SType::Str), Box::new(SType::Class("JSON"@))));
    let mut all_types: Vec<Type> = Vec::new();
    all_types.push(Type::NoneType);
    all_types.push(Type::Bool);
    all_types.push(Type::Int);
    all_types.push(Type::Float);
    all_types.push(Type::Str);
    all_types.push(list);
    all_types.push(dict);
    let u = Type::Union(all_types);
    assert(tviews(all_types@) =~= seq![
        SType::NoneType,
        SType::Bool,
        SType::Int,
        SType::Float,
        SType::Str,
        SType::List(Box::new(SType::Class("JSON"@))),
        SType::Dict(Box::new(SType::Str), Box::new(SType::Class("JSON"@))),
    ]);
    Type::Recursive(String::from_str("JSON"), Box::new(u))
}

/// Linked list: `List = None | (T, List)`.
pub fn linked_list(elem_type: Type) -> (r: Type)
    ensures
        r@ == linked_list_spec(elem_type@),
{
    proof {
        reveal_with_fuel(tview, 3);
    }
    let mut pair: Vec<Type> = Vec::new();
    pair.push(elem_type);
    pair.push(class_named("List"));
    assert(tviews(pair@) =~= seq![elem_type@, SType::Class("List"@)]);
    let cons = Type::Tuple(pair);
    let mut variants: Vec<Type> = Vec::new();
    variants.push(Type::NoneType);
    variants.push(cons);
    assert(tviews(variants@) =~= seq![SType::NoneType, SType::Tuple(seq![elem_type@, SType::Class("List"@)])]);
    let u = Type::Union(variants);
    Type::Recursive(String::from_str("List"), Box::new(u))
}

/// Binary tree: `Tree = (T) | (Tree, T, Tree)`.
pub fn binary_tree(elem_type: Type) -> (r: Type)
    ensures
        r@ == binary_tree_spec(elem_type@),
{
    proof {
        reveal_with_fuel(tview, 3);
    }
    let mut leaf_parts: Vec<Type> = Vec::new();
    leaf_parts.push(elem_type.clone());
    assert(tviews(leaf_parts@) =~= seq![elem_type@]);
    let leaf = Type::Tuple(leaf_parts);
    let mut node_parts: Vec<Type> = Vec::new();
    node_parts.push(class_named("Tree"));
    node_parts.push(elem_type);
    node_parts.push(class_named("Tree"));
    assert(tviews(node_parts@) =~= seq![SType::Class("Tree"@), elem_type@, SType::Class("Tree"@)]);
    let node = Type::Tuple(node_parts);
    let mut variants: Vec<Type> = Vec::new();
    variants.push(leaf);
    variants.push(node);
    assert(tviews(variants@) =~= seq![
        SType::Tuple(seq![elem_type@]),
        SType::Tuple(seq![SType::Class("Tree"@), elem_type@, SType::Class("Tree"@)]),
    ]);
    let u = Type::Union(variants);
    Type::Recursive(String::from_str("Tree"), Box::new(u))
}

} // verus!
