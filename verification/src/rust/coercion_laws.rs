//! Which type is known to stand behind a dynamic one.
use crate::rust::coercions::{
    coercion, coercion_among, principal_among, principal_in, TypeKind, TypeTree,
};
use crate::rust::mir::contains_dyn;
use vstd::prelude::*;

verus! {

/// Whether a type is a pointer or a reference to another.
pub open spec fn points_to(pointer: TypeTree, inner: TypeTree) -> bool {
    pointer.kind == TypeKind::Ref(Box::new(inner)) || pointer.kind == TypeKind::RawPtr(
        Box::new(inner),
    )
}

/// Whether two types are pointers of one sort.
pub open spec fn both_point(left: TypeTree, inner: TypeTree, right: TypeTree, outer: TypeTree) -> bool {
    ||| left.kind == TypeKind::Ref(Box::new(inner)) && right.kind == TypeKind::Ref(Box::new(outer))
    ||| left.kind == TypeKind::RawPtr(Box::new(inner)) && right.kind == TypeKind::RawPtr(
        Box::new(outer),
    )
}

/// A value that is taken as a dynamic one is known by its own type, unless that
/// is dynamic already.
pub proof fn taken_values_are_known(source: TypeTree, target: TypeTree)
    requires
        target.principal is Some,
        !(source.kind is Ref),
        !(source.kind is RawPtr),
    ensures
        coercion(source, target) == if contains_dyn(source.text@) {
            None
        } else {
            Some((source.id, target.principal->0@))
        },
{
}

/// What is known of a value is known behind a pointer to it, whether the
/// pointer is taken as a dynamic value or as a pointer to one.
pub proof fn pointers_tell_what_they_point_to(
    source: TypeTree,
    inner: TypeTree,
    target: TypeTree,
    outer: TypeTree,
)
    ensures
        points_to(source, inner) && target.principal is Some ==> coercion(source, target)
            == coercion(inner, target),
        both_point(source, inner, target, outer) && target.principal is None ==> coercion(
            source,
            target,
        ) == coercion(inner, outer),
        points_to(source, inner) && source.principal is None ==> principal_in(source)
            == principal_in(inner),
{
}

proof fn arguments_tell(
    sources: Seq<Option<TypeTree>>,
    targets: Seq<Option<TypeTree>>,
    left: nat,
    at: int,
)
    requires
        sources.len() - left <= at < sources.len(),
        left <= sources.len(),
        sources.len() == targets.len(),
        sources[at] is Some && targets[at] is Some,
        coercion(sources[at]->0, targets[at]->0) is Some,
        forall|other: int|
            0 <= other < at && (#[trigger] sources[other]) is Some && targets[other] is Some
                ==> coercion(sources[other]->0, targets[other]->0) is None,
    ensures
        coercion_among(sources, targets, left) == coercion(sources[at]->0, targets[at]->0),
    decreases left,
{
    let index = sources.len() - left;
    if index < at {
        arguments_tell(sources, targets, (left - 1) as nat, at);
        assert(sources[index] is Some ==> sources[index] is Some);
    }
}

/// Where a value of a struct is taken as one of the same struct, the first of
/// its arguments that becomes dynamic tells what is known.
pub proof fn arguments_tell_what_is_known(
    source: TypeTree,
    target: TypeTree,
    definition: usize,
    variants: Vec<String>,
    arguments: Vec<Option<TypeTree>>,
    other_variants: Vec<String>,
    others: Vec<Option<TypeTree>>,
    at: int,
)
    requires
        target.principal is None,
        source.kind == (TypeKind::Adt { definition, variants, arguments }),
        target.kind == (TypeKind::Adt {
            definition,
            variants: other_variants,
            arguments: others,
        }),
        arguments@.len() == others@.len(),
        0 <= at < arguments@.len(),
        arguments@[at] is Some && others@[at] is Some,
        coercion(arguments@[at]->0, others@[at]->0) is Some,
        forall|other: int|
            0 <= other < at && (#[trigger] arguments@[other]) is Some && others@[other] is Some
                ==> coercion(arguments@[other]->0, others@[other]->0) is None,
    ensures
        coercion(source, target) == coercion(arguments@[at]->0, others@[at]->0),
{
    arguments_tell(arguments@, others@, arguments@.len(), at);
}

/// Nothing is known from values of different structs.
pub proof fn different_structs_tell_nothing(source: TypeTree, target: TypeTree)
    requires
        target.principal is None,
        source.kind is Adt,
        target.kind is Adt,
        source.kind->Adt_definition != target.kind->Adt_definition,
    ensures
        coercion(source, target) is None,
{
}

proof fn arguments_name(arguments: Seq<Option<TypeTree>>, left: nat, at: int)
    requires
        arguments.len() - left <= at < arguments.len(),
        left <= arguments.len(),
        arguments[at] is Some,
        principal_in(arguments[at]->0) is Some,
        forall|other: int|
            0 <= other < at && (#[trigger] arguments[other]) is Some ==> principal_in(
                arguments[other]->0,
            ) is None,
    ensures
        principal_among(arguments, left) == principal_in(arguments[at]->0),
    decreases left,
{
    let index = arguments.len() - left;
    if index < at {
        arguments_name(arguments, (left - 1) as nat, at);
        assert(arguments[index] is Some ==> principal_in(arguments[index]->0) is None);
    }
}

/// The trait of a type is its own, or else that of the first of its arguments
/// that has one.
pub proof fn traits_are_found(
    ty: TypeTree,
    definition: usize,
    variants: Vec<String>,
    arguments: Vec<Option<TypeTree>>,
    at: int,
)
    ensures
        ty.principal is Some ==> principal_in(ty) == Some(ty.principal->0@),
        ty.principal is None && ty.kind == (TypeKind::Adt { definition, variants, arguments })
            && 0 <= at < arguments@.len() && arguments@[at] is Some && principal_in(
            arguments@[at]->0,
        ) is Some && (forall|other: int|
            0 <= other < at && (#[trigger] arguments@[other]) is Some ==> principal_in(
                arguments@[other]->0,
            ) is None) ==> principal_in(ty) == principal_in(arguments@[at]->0),
{
    if ty.principal is None && ty.kind == (TypeKind::Adt { definition, variants, arguments }) && 0
        <= at < arguments@.len() && arguments@[at] is Some && principal_in(
        arguments@[at]->0,
    ) is Some && (forall|other: int|
        0 <= other < at && (#[trigger] arguments@[other]) is Some ==> principal_in(
            arguments@[other]->0,
        ) is None) {
        arguments_name(arguments@, arguments@.len(), at);
    }
}

} // verus!
