//! Where values become dynamic, and which functions calls on them can lead to.
use crate::lists::views;
use crate::rust::mir::contains_dyn;
use crate::sets::{add_texts, with_texts};
use crate::text::{contains, contains_text, texts};
use vstd::prelude::*;

verus! {

/// The trait that a dynamic value has: its number, and those of its arguments.
#[derive(Debug)]
pub struct Principal {
    pub definition: usize,
    pub arguments: Vec<usize>,
    /// Whether it holds for all lifetimes of some names, such as
    /// `dyn for<'a> Fn(&'a T)`.
    pub is_bound: bool,
}

#[verifier::ext_equal]
pub struct PrincipalModel {
    pub definition: usize,
    pub arguments: Seq<usize>,
    pub is_bound: bool,
}

impl View for Principal {
    type V = PrincipalModel;

    open spec fn view(&self) -> PrincipalModel {
        PrincipalModel {
            definition: self.definition,
            arguments: self.arguments@,
            is_bound: self.is_bound,
        }
    }
}

/// A type: its number, how rustc prints it, the trait of which it is a dynamic
/// value, and its parts.
#[derive(Debug)]
pub struct TypeTree {
    pub id: usize,
    pub text: String,
    pub principal: Option<Principal>,
    pub kind: TypeKind,
}

#[derive(Debug)]
pub enum TypeKind {
    Ref(Box<TypeTree>),
    RawPtr(Box<TypeTree>),
    /// A struct or an enum: its number, the names of its variants, and its
    /// arguments, as far as they are types.
    Adt { definition: usize, variants: Vec<String>, arguments: Vec<Option<TypeTree>> },
    Array(Box<TypeTree>),
    Tuple(Vec<TypeTree>),
    /// A function, a closure or a coroutine.
    Callable,
    Other,
}

/// The value that becomes dynamic where a value of one type is taken as one of
/// another, and the trait that it is then known by. A value that is dynamic
/// already tells nothing.
pub open spec fn coercion(source: TypeTree, target: TypeTree) -> Option<(usize, PrincipalModel)>
    decreases source, 0nat,
{
    match target.principal {
        Some(principal) => match source.kind {
            TypeKind::Ref(inner) => coercion(*inner, target),
            TypeKind::RawPtr(inner) => coercion(*inner, target),
            _ => if contains_dyn(source.text@) {
                None
            } else {
                Some((source.id, principal@))
            },
        },
        None => match (source.kind, target.kind) {
            (TypeKind::Ref(inner), TypeKind::Ref(outer)) => coercion(*inner, *outer),
            (TypeKind::RawPtr(inner), TypeKind::RawPtr(outer)) => coercion(*inner, *outer),
            (
                TypeKind::Adt { definition, arguments, .. },
                TypeKind::Adt { definition: other, arguments: others, .. },
            ) => if definition == other {
                coercion_among(arguments@, others@, arguments@.len())
            } else {
                None
            },
            _ => None,
        },
    }
}

/// The first coercion among the arguments of two types, where `left` of them
/// are still to be looked at.
pub open spec fn coercion_among(
    sources: Seq<Option<TypeTree>>,
    targets: Seq<Option<TypeTree>>,
    left: nat,
) -> Option<(usize, PrincipalModel)>
    decreases sources, left,
{
    let index = sources.len() - left;
    if left == 0 || index < 0 || index >= targets.len() {
        None
    } else {
        let later = coercion_among(sources, targets, (left - 1) as nat);
        match (sources[index], targets[index]) {
            (Some(source), Some(target)) => match coercion(source, target) {
                Some(found) => Some(found),
                None => later,
            },
            _ => later,
        }
    }
}

/// A value that becomes dynamic.
pub open spec fn optional_coercion(found: Option<(usize, &Principal)>) -> Option<
    (usize, PrincipalModel),
> {
    match found {
        Some((id, principal)) => Some((id, principal@)),
        None => None,
    }
}

/// The value that becomes dynamic where a value of one type is taken as one of
/// another.
pub fn dyn_coercion<'a>(source: &TypeTree, target: &'a TypeTree) -> (result: Option<
    (usize, &'a Principal),
>)
    ensures
        optional_coercion(result) == coercion(*source, *target),
    decreases source,
{
    match &target.principal {
        Some(principal) => match &source.kind {
            TypeKind::Ref(inner) => dyn_coercion(inner, target),
            TypeKind::RawPtr(inner) => dyn_coercion(inner, target),
            _ => if contains_text(source.text.as_str(), "dyn ") {
                None
            } else {
                Some((source.id, principal))
            },
        },
        None => match (&source.kind, &target.kind) {
            (TypeKind::Ref(inner), TypeKind::Ref(outer)) => dyn_coercion(inner, outer),
            (TypeKind::RawPtr(inner), TypeKind::RawPtr(outer)) => dyn_coercion(inner, outer),
            (
                TypeKind::Adt { definition, arguments, .. },
                TypeKind::Adt { definition: other, arguments: others, .. },
            ) => {
                if *definition != *other {
                    return None;
                }
                let ghost whole = coercion_among(arguments@, others@, arguments@.len());
                let mut index: usize = 0;
                while index < arguments.len() && index < others.len()
                    invariant
                        index <= arguments@.len(),
                        index <= others@.len(),
                        decreases_to!(source => arguments),
                        whole == coercion_among(
                            arguments@,
                            others@,
                            (arguments@.len() - index) as nat,
                        ),
                        whole == coercion(*source, *target),
                    decreases arguments@.len() - index,
                {
                    if let Some(inner) = &arguments[index] {
                        if let Some(outer) = &others[index] {
                            assert(decreases_to!(arguments => arguments@[index as int]));
                            assert(decreases_to!(source => inner));
                            if let Some(found) = dyn_coercion(inner, outer) {
                                return Some(found);
                            }
                        }
                    }
                    index += 1;
                }
                None
            },
            _ => None,
        },
    }
}

/// The trait that a dynamic value has, which a type is or leads to.
pub open spec fn principal_in(ty: TypeTree) -> Option<PrincipalModel>
    decreases ty, 0nat,
{
    match ty.principal {
        Some(principal) => Some(principal@),
        None => match ty.kind {
            TypeKind::Ref(inner) => principal_in(*inner),
            TypeKind::RawPtr(inner) => principal_in(*inner),
            TypeKind::Adt { arguments, .. } => principal_among(arguments@, arguments@.len()),
            _ => None,
        },
    }
}

/// The first such trait among the arguments of a type, where `left` of them
/// are still to be looked at.
pub open spec fn principal_among(arguments: Seq<Option<TypeTree>>, left: nat) -> Option<PrincipalModel>
    decreases arguments, left,
{
    let index = arguments.len() - left;
    if left == 0 || index < 0 {
        None
    } else {
        let later = principal_among(arguments, (left - 1) as nat);
        match arguments[index] {
            Some(ty) => match principal_in(ty) {
                Some(found) => Some(found),
                None => later,
            },
            None => later,
        }
    }
}

/// An optional trait.
pub open spec fn optional_principal(principal: Option<&Principal>) -> Option<PrincipalModel> {
    match principal {
        Some(principal) => Some(principal@),
        None => None,
    }
}

/// The trait that a dynamic value has, which a type is or leads to.
pub fn dynamic_principal(ty: &TypeTree) -> (result: Option<&Principal>)
    ensures
        optional_principal(result) == principal_in(*ty),
    decreases ty,
{
    match &ty.principal {
        Some(principal) => Some(principal),
        None => match &ty.kind {
            TypeKind::Ref(inner) => dynamic_principal(inner),
            TypeKind::RawPtr(inner) => dynamic_principal(inner),
            TypeKind::Adt { arguments, .. } => {
                let ghost whole = principal_among(arguments@, arguments@.len());
                let mut index: usize = 0;
                while index < arguments.len()
                    invariant
                        index <= arguments@.len(),
                        decreases_to!(ty => arguments),
                        whole == principal_among(
                            arguments@,
                            (arguments@.len() - index) as nat,
                        ),
                        whole == principal_in(*ty),
                    decreases arguments@.len() - index,
                {
                    if let Some(inner) = &arguments[index] {
                        assert(decreases_to!(arguments => arguments@[index as int]));
                        assert(decreases_to!(ty => inner));
                        if let Some(found) = dynamic_principal(inner) {
                            return Some(found);
                        }
                    }
                    index += 1;
                }
                None
            },
            _ => None,
        },
    }
}

/// An implementation of a trait that a dynamic value was seen to have: the
/// trait, the type, and the arguments of the trait.
#[derive(Debug)]
pub struct ObservedVtable {
    pub definition: usize,
    pub concrete: usize,
    pub arguments: Vec<usize>,
}

#[verifier::ext_equal]
pub struct VtableModel {
    pub definition: usize,
    pub concrete: usize,
    pub arguments: Seq<usize>,
}

impl View for ObservedVtable {
    type V = VtableModel;

    open spec fn view(&self) -> VtableModel {
        VtableModel {
            definition: self.definition,
            concrete: self.concrete,
            arguments: self.arguments@,
        }
    }
}

/// A place in a body where a value is taken as one of another type.
#[derive(Debug)]
pub struct Coercion {
    pub source: TypeTree,
    pub target: TypeTree,
}

/// The implementations with those of the first `count` coercions, each once. A
/// trait that holds for all lifetimes of some names has none.
pub open spec fn with_observed(
    observed: Seq<VtableModel>,
    coercions: Seq<Coercion>,
    count: int,
) -> Seq<VtableModel>
    decreases count,
{
    if count <= 0 {
        observed
    } else {
        let before = with_observed(observed, coercions, count - 1);
        match coercion(coercions[count - 1].source, coercions[count - 1].target) {
            Some((concrete, principal)) => {
                let vtable = VtableModel {
                    definition: principal.definition,
                    concrete,
                    arguments: principal.arguments,
                };
                if principal.is_bound || before.contains(vtable) {
                    before
                } else {
                    before.push(vtable)
                }
            },
            None => before,
        }
    }
}

fn same_numbers(left: &Vec<usize>, right: &Vec<usize>) -> (result: bool)
    ensures
        result == (left@ == right@),
{
    if left.len() != right.len() {
        return false;
    }
    let mut index: usize = 0;
    while index < left.len()
        invariant
            index <= left@.len(),
            left@.len() == right@.len(),
            forall|k: int| 0 <= k < index ==> left@[k] == right@[k],
        decreases left@.len() - index,
    {
        if left[index] != right[index] {
            return false;
        }
        index += 1;
    }
    proof {
        assert(left@ =~= right@);
    }
    true
}

fn is_observed(observed: &Vec<ObservedVtable>, concrete: usize, principal: &Principal) -> (result: bool)
    ensures
        result == views(observed@).contains(
            VtableModel {
                definition: principal.definition,
                concrete,
                arguments: principal.arguments@,
            },
        ),
{
    let ghost model = views(observed@);
    let ghost wanted = VtableModel {
        definition: principal.definition,
        concrete,
        arguments: principal.arguments@,
    };
    let mut index: usize = 0;
    while index < observed.len()
        invariant
            index <= observed@.len(),
            model == views(observed@),
            wanted == (VtableModel {
                definition: principal.definition,
                concrete,
                arguments: principal.arguments@,
            }),
            forall|k: int| 0 <= k < index ==> #[trigger] model[k] != wanted,
        decreases observed@.len() - index,
    {
        proof {
            assert(model[index as int] == observed@[index as int]@);
        }
        if observed[index].definition == principal.definition && observed[index].concrete
            == concrete && same_numbers(&observed[index].arguments, &principal.arguments) {
            return true;
        }
        index += 1;
    }
    false
}

fn copy_numbers(numbers: &Vec<usize>) -> (result: Vec<usize>)
    ensures
        result@ == numbers@,
{
    let mut result: Vec<usize> = Vec::new();
    let mut index: usize = 0;
    while index < numbers.len()
        invariant
            index <= numbers@.len(),
            result@ == numbers@.take(index as int),
        decreases numbers@.len() - index,
    {
        result.push(numbers[index]);
        proof {
            assert(numbers@.take(index + 1) =~= numbers@.take(index as int).push(
                numbers@[index as int],
            ));
        }
        index += 1;
    }
    proof {
        assert(numbers@.take(index as int) =~= numbers@);
    }
    result
}

/// Adds the implementations that the coercions of a body reveal.
pub fn collect_observed_vtables(observed: &mut Vec<ObservedVtable>, coercions: &Vec<Coercion>)
    ensures
        views(final(observed)@) == with_observed(
            views(old(observed)@),
            coercions@,
            coercions@.len() as int,
        ),
{
    let ghost start = views(observed@);
    let mut index: usize = 0;
    while index < coercions.len()
        invariant
            index <= coercions@.len(),
            views(observed@) == with_observed(start, coercions@, index as int),
        decreases coercions@.len() - index,
    {
        if let Some((concrete, principal)) = dyn_coercion(
            &coercions[index].source,
            &coercions[index].target,
        ) {
            if !principal.is_bound && !is_observed(observed, concrete, principal) {
                let ghost before = views(observed@);
                let vtable = ObservedVtable {
                    definition: principal.definition,
                    concrete,
                    arguments: copy_numbers(&principal.arguments),
                };
                let ghost model = vtable@;
                observed.push(vtable);
                proof {
                    assert(views(observed@) =~= before.push(model));
                }
            }
        }
        index += 1;
    }
}

/// A function in the table of an implementation: its number, that of its
/// definition, and that of the method of a trait that it implements.
#[derive(Clone, Copy, Debug, PartialEq, Eq, Structural)]
pub struct VtableMethod {
    pub instance: usize,
    pub definition: usize,
    pub implements: Option<usize>,
}

/// The first function from `index` on that is a method of a trait, or
/// implements it.
pub open spec fn method_from(methods: Seq<VtableMethod>, method: usize, index: int) -> Option<usize>
    decreases methods.len() - index,
{
    if index < 0 || index >= methods.len() {
        None
    } else if methods[index].definition == method || methods[index].implements == Some(method) {
        Some(methods[index].instance)
    } else {
        method_from(methods, method, index + 1)
    }
}

/// The function that a dynamic call can lead to on a value of one
/// implementation. Where the call is on the trait of the implementation, it is
/// the one at the place of the method in the table; where it is on another
/// trait, the one that is the method or implements it.
pub open spec fn dispatch_candidate(
    receiver: Option<TypeTree>,
    observed: VtableModel,
    observed_text: Seq<char>,
    at_place: Option<usize>,
    methods: Seq<VtableMethod>,
    method: usize,
) -> Option<usize> {
    let principal = match receiver {
        Some(receiver) => principal_in(receiver),
        None => None,
    };
    match principal {
        Some(principal) if !principal.is_bound && principal.definition == observed.definition =>
            if contains_dyn(observed_text) {
                None
            } else {
                at_place
            },
        _ => method_from(methods, method, 0),
    }
}

fn find_method(methods: &Vec<VtableMethod>, method: usize) -> (result: Option<usize>)
    ensures
        result == method_from(methods@, method, 0),
{
    let mut index: usize = 0;
    while index < methods.len()
        invariant
            index <= methods@.len(),
            method_from(methods@, method, index as int) == method_from(methods@, method, 0),
        decreases methods@.len() - index,
    {
        let implements = match methods[index].implements {
            Some(implemented) => implemented == method,
            None => false,
        };
        if methods[index].definition == method || implements {
            return Some(methods[index].instance);
        }
        index += 1;
    }
    None
}

/// The function that a dynamic call can lead to on a value of one
/// implementation.
pub fn resolve_observed_dispatch_candidate(
    receiver: Option<&TypeTree>,
    observed: &ObservedVtable,
    observed_text: &str,
    at_place: Option<usize>,
    methods: &Vec<VtableMethod>,
    method: usize,
) -> (result: Option<usize>)
    ensures
        result == dispatch_candidate(
            (match receiver {
                Some(receiver) => Some(*receiver),
                None => None,
            }),
            observed@,
            observed_text@,
            at_place,
            methods@,
            method,
        ),
{
    let principal = match receiver {
        Some(receiver) => dynamic_principal(receiver),
        None => None,
    };
    if let Some(principal) = principal {
        if !principal.is_bound && principal.definition == observed.definition {
            return if contains_text(observed_text, "dyn ") {
                None
            } else {
                at_place
            };
        }
    }
    find_method(methods, method)
}

/// The names of the constructors that a type is made of, with those that are
/// there.
pub open spec fn constructors_in(ty: TypeTree, names: Seq<Seq<char>>) -> Seq<Seq<char>>
    decreases ty, 0nat,
{
    if contains(ty.text@, "{async closure@"@) {
        names
    } else {
        match ty.kind {
            TypeKind::Adt { variants, arguments, .. } => constructors_among(
                arguments@,
                with_texts(names, texts(variants@), variants@.len() as int),
                arguments@.len(),
            ),
            TypeKind::Array(inner) => constructors_in(*inner, names),
            TypeKind::RawPtr(inner) => constructors_in(*inner, names),
            TypeKind::Ref(inner) => constructors_in(*inner, names),
            TypeKind::Tuple(types) => constructors_of(types@, names, types@.len()),
            _ => names,
        }
    }
}

/// The names of the constructors that the first `count` arguments of a type
/// are made of.
pub open spec fn constructors_among(
    arguments: Seq<Option<TypeTree>>,
    names: Seq<Seq<char>>,
    count: nat,
) -> Seq<Seq<char>>
    decreases arguments, count,
{
    if count == 0 || count > arguments.len() {
        names
    } else {
        let before = constructors_among(arguments, names, (count - 1) as nat);
        match arguments[count - 1] {
            Some(ty) => constructors_in(ty, before),
            None => before,
        }
    }
}

/// The names of the constructors that the first `count` types are made of.
pub open spec fn constructors_of(types: Seq<TypeTree>, names: Seq<Seq<char>>, count: nat) -> Seq<
    Seq<char>,
>
    decreases types, count,
{
    if count == 0 || count > types.len() {
        names
    } else {
        constructors_in(
            types[count - 1],
            constructors_of(types, names, (count - 1) as nat),
        )
    }
}

/// Adds the names of the constructors that a type is made of.
pub fn collect_adt_constructor_names(ty: &TypeTree, names: &mut Vec<String>)
    ensures
        texts(final(names)@) == constructors_in(*ty, texts(old(names)@)),
    decreases ty,
{
    if contains_text(ty.text.as_str(), "{async closure@") {
        return ;
    }
    match &ty.kind {
        TypeKind::Adt { variants, arguments, .. } => {
            add_texts(names, variants);
            let ghost start = texts(names@);
            let mut index: usize = 0;
            while index < arguments.len()
                invariant
                    index <= arguments@.len(),
                    decreases_to!(ty => arguments),
                    texts(names@) == constructors_among(arguments@, start, index as nat),
                decreases arguments@.len() - index,
            {
                let ghost before = texts(names@);
                if let Some(inner) = &arguments[index] {
                    assert(decreases_to!(arguments => arguments@[index as int]));
                    assert(decreases_to!(ty => inner));
                    collect_adt_constructor_names(inner, names);
                }
                proof {
                    assert(constructors_among(arguments@, start, (index + 1) as nat) == (
                    match arguments@[index as int] {
                        Some(inner) => constructors_in(inner, before),
                        None => before,
                    }));
                }
                index += 1;
            }
        },
        TypeKind::Array(inner) => collect_adt_constructor_names(inner, names),
        TypeKind::RawPtr(inner) => collect_adt_constructor_names(inner, names),
        TypeKind::Ref(inner) => collect_adt_constructor_names(inner, names),
        TypeKind::Tuple(types) => {
            let ghost start = texts(names@);
            let mut index: usize = 0;
            while index < types.len()
                invariant
                    index <= types@.len(),
                    decreases_to!(ty => types),
                    texts(names@) == constructors_of(types@, start, index as nat),
                decreases types@.len() - index,
            {
                let ghost before = texts(names@);
                let inner = &types[index];
                assert(decreases_to!(types => inner));
                assert(decreases_to!(ty => inner));
                collect_adt_constructor_names(inner, names);
                proof {
                    assert(constructors_of(types@, start, (index + 1) as nat) == constructors_in(
                        types@[index as int],
                        before,
                    ));
                }
                index += 1;
            }
        },
        _ => {},
    }
}

} // verus!
