//! Where local names of OCaml sources hold, and what they stand for there.
use crate::lists::views;
use crate::model::{
    symbol_less, symbol_text, FactModel, FunctionInfo, FunctionModel, LanguageFact, SourceSpan,
    SpanModel, SymbolId, SymbolModel,
};
use crate::ocaml::labels::{ocaml_source_name, source_name};
use crate::ocaml::symbols::{
    earlier, is_earlier, optional_position, optional_symbol, start_of,
};
use crate::ocaml::syntax::optional_node;
use crate::spans::{contains_span, span_contains};
use crate::text::{same_list, same_optional, same_text};
use vstd::prelude::*;

verus! {

/// Whether a fact is of a kind and speaks of a function.
pub open spec fn speaks_of(fact: FactModel, kind: Seq<char>, subject: SymbolModel) -> bool {
    fact.kind == kind && fact.subject == subject
}

/// Whether a fact is of a kind and speaks of a function.
pub fn fact_speaks_of(fact: &LanguageFact, kind: &str, subject: &SymbolId) -> (result: bool)
    ensures
        result == speaks_of(fact@, kind@, subject@),
{
    same_text(fact.kind.as_str(), kind) && fact.subject.same(subject)
}

/// The stretch in which a local function can be called, by the last of the
/// first `count` facts that says so.
pub open spec fn callable_scope(facts: Seq<FactModel>, id: SymbolModel, count: int) -> Option<int>
    decreases count,
{
    if count <= 0 {
        None
    } else if speaks_of(facts[count - 1], "local-callable-scope"@, id) {
        Some(count - 1)
    } else {
        callable_scope(facts, id, count - 1)
    }
}

/// The stretch in which a local function can be called.
pub open spec fn scope_of(facts: Seq<FactModel>, id: SymbolModel) -> Option<SpanModel> {
    match callable_scope(facts, id, facts.len() as int) {
        Some(place) => Some(facts[place].span),
        None => None,
    }
}

/// Finds the stretch in which a local function can be called.
pub fn find_scope<'a>(facts: &'a Vec<LanguageFact>, id: &SymbolId) -> (result: Option<&'a SourceSpan>)
    ensures
        optional_position(result) == scope_of(views(facts@), id@),
{
    let ghost model = views(facts@);
    let mut count: usize = facts.len();
    proof {
        assert(model.len() == facts@.len());
    }
    while count > 0
        invariant
            count <= facts@.len(),
            model == views(facts@),
            model.len() == facts@.len(),
            callable_scope(model, id@, count as int) == callable_scope(
                model,
                id@,
                model.len() as int,
            ),
        decreases count,
    {
        proof {
            assert(model[count - 1] == facts@[count - 1]@);
        }
        if fact_speaks_of(&facts[count - 1], "local-callable-scope", id) {
            return Some(&facts[count - 1].span);
        }
        count -= 1;
    }
    None
}

/// Whether a function is a local one that a caller can call by `name` at a
/// place in the source.
pub open spec fn is_local_callable(
    function: FunctionModel,
    name: Seq<char>,
    caller: SymbolModel,
    facts: Seq<FactModel>,
    position: Option<SpanModel>,
) -> bool {
    &&& source_name(function.id.name) == name
    &&& function.id.module == caller.module
    &&& function.id.container is Some
    &&& function.id.container == Some(symbol_text(caller)) || function.id.container
        == caller.container || function.id == caller
    &&& function.id == caller || match position {
        Some(position) => match scope_of(facts, function.id) {
            Some(scope) => contains_span(scope, position),
            None => false,
        },
        None => true,
    }
}

fn can_be_called(
    function: &FunctionInfo,
    name: &str,
    caller: &SymbolId,
    facts: &Vec<LanguageFact>,
    position: Option<&SourceSpan>,
) -> (result: bool)
    ensures
        result == is_local_callable(
            function@,
            name@,
            caller@,
            views(facts@),
            optional_position(position),
        ),
{
    if !same_text(ocaml_source_name(function.id.name.as_str()).as_str(), name) {
        return false;
    }
    if !same_list(&function.id.module, &caller.module) {
        return false;
    }
    let own = function.id.same(caller);
    let direct = match &function.id.container {
        Some(container) => same_text(container.as_str(), caller.to_text().as_str()),
        None => {
            return false;
        },
    };
    if !(direct || same_optional(&function.id.container, &caller.container) || own) {
        return false;
    }
    own || match position {
        Some(position) => match find_scope(facts, &function.id) {
            Some(scope) => span_contains(scope, position),
            None => false,
        },
        None => true,
    }
}

/// Where a local function can be called from, or else where it stands.
pub open spec fn callable_span(function: FunctionModel, facts: Seq<FactModel>) -> SpanModel {
    match scope_of(facts, function.id) {
        Some(scope) => scope,
        None => function.span,
    }
}

/// Whether a local function is less near than another: by where they can be
/// called from, by where they stand, and by their identities.
pub open spec fn less_near(
    left: FunctionModel,
    right: FunctionModel,
    facts: Seq<FactModel>,
) -> bool {
    let left_scope = start_of(callable_span(left, facts));
    let right_scope = start_of(callable_span(right, facts));
    if left_scope != right_scope {
        earlier(left_scope, right_scope)
    } else if start_of(left.span) != start_of(right.span) {
        earlier(start_of(left.span), start_of(right.span))
    } else {
        symbol_less(left.id, right.id)
    }
}

fn is_less_near(left: &FunctionInfo, right: &FunctionInfo, facts: &Vec<LanguageFact>) -> (result: bool)
    ensures
        result == less_near(left@, right@, views(facts@)),
{
    let left_scope = match find_scope(facts, &left.id) {
        Some(scope) => scope,
        None => &left.span,
    };
    let right_scope = match find_scope(facts, &right.id) {
        Some(scope) => scope,
        None => &right.span,
    };
    if left_scope.start_line != right_scope.start_line || left_scope.start_column
        != right_scope.start_column {
        return is_earlier(
            (left_scope.start_line, left_scope.start_column),
            (right_scope.start_line, right_scope.start_column),
        );
    }
    if left.span.start_line != right.span.start_line || left.span.start_column
        != right.span.start_column {
        return is_earlier(
            (left.span.start_line, left.span.start_column),
            (right.span.start_line, right.span.start_column),
        );
    }
    left.id.before(&right.id)
}

/// The nearest of the first `count` functions that a caller can call by
/// `name`.
pub open spec fn local_callable(
    functions: Seq<FunctionModel>,
    name: Seq<char>,
    caller: SymbolModel,
    facts: Seq<FactModel>,
    position: Option<SpanModel>,
    count: int,
) -> Option<int>
    decreases count,
{
    if count <= 0 {
        None
    } else {
        let before = local_callable(functions, name, caller, facts, position, count - 1);
        if !is_local_callable(functions[count - 1], name, caller, facts, position) {
            before
        } else {
            match before {
                Some(best) => if less_near(functions[count - 1], functions[best], facts) {
                    before
                } else {
                    Some(count - 1)
                },
                None => Some(count - 1),
            }
        }
    }
}

/// The local function that a caller can call by `name` at a place.
pub open spec fn local_function(
    functions: Seq<FunctionModel>,
    name: Seq<char>,
    caller: SymbolModel,
    facts: Seq<FactModel>,
    position: Option<SpanModel>,
) -> Option<SymbolModel> {
    match local_callable(functions, name, caller, facts, position, functions.len() as int) {
        Some(place) => Some(functions[place].id),
        None => None,
    }
}

/// Finds the local function that a caller can call by `name` at a place.
pub fn local_callable_at(
    functions: &Vec<FunctionInfo>,
    name: &str,
    caller: &SymbolId,
    facts: &Vec<LanguageFact>,
    position: Option<&SourceSpan>,
) -> (result: Option<SymbolId>)
    ensures
        optional_symbol(result) == local_function(
            views(functions@),
            name@,
            caller@,
            views(facts@),
            optional_position(position),
        ),
{
    let ghost model = views(functions@);
    let mut best: Option<usize> = None;
    let mut index: usize = 0;
    proof {
        assert(model.len() == functions@.len());
    }
    while index < functions.len()
        invariant
            index <= functions@.len(),
            model == views(functions@),
            optional_node(best) == local_callable(
                model,
                name@,
                caller@,
                views(facts@),
                optional_position(position),
                index as int,
            ),
            match best {
                Some(place) => place < functions@.len(),
                None => true,
            },
        decreases functions@.len() - index,
    {
        proof {
            assert(model[index as int] == functions@[index as int]@);
        }
        if can_be_called(&functions[index], name, caller, facts, position) {
            match best {
                Some(other) => {
                    proof {
                        assert(model[other as int] == functions@[other as int]@);
                    }
                    if !is_less_near(&functions[index], &functions[other], facts) {
                        best = Some(index);
                    }
                },
                None => {
                    best = Some(index);
                },
            }
        }
        index += 1;
    }
    match best {
        Some(place) => {
            proof {
                assert(model[place as int] == functions@[place as int]@);
            }
            Some(functions[place].id.clone())
        },
        None => None,
    }
}

/// Whether a fact gives a local name of a function a value that holds at a
/// place.
pub open spec fn gives_value(
    fact: FactModel,
    owner: SymbolModel,
    name: Seq<char>,
    position: Option<SpanModel>,
) -> bool {
    &&& speaks_of(fact, "local-value"@, owner)
    &&& fact.key == name
    &&& match position {
        Some(position) => contains_span(fact.span, position),
        None => true,
    }
}

/// The innermost of the values that the first `count` facts give to a local
/// name: the one that begins to hold last.
pub open spec fn value_place(
    facts: Seq<FactModel>,
    owner: SymbolModel,
    name: Seq<char>,
    position: Option<SpanModel>,
    count: int,
) -> Option<int>
    decreases count,
{
    if count <= 0 {
        None
    } else {
        let before = value_place(facts, owner, name, position, count - 1);
        if !gives_value(facts[count - 1], owner, name, position) {
            before
        } else {
            match before {
                Some(best) => if earlier(
                    start_of(facts[count - 1].span),
                    start_of(facts[best].span),
                ) {
                    before
                } else {
                    Some(count - 1)
                },
                None => Some(count - 1),
            }
        }
    }
}

/// The fact that gives a local name its value at a place.
pub open spec fn local_value(
    facts: Seq<FactModel>,
    owner: SymbolModel,
    name: Seq<char>,
    position: Option<SpanModel>,
) -> Option<FactModel> {
    match value_place(facts, owner, name, position, facts.len() as int) {
        Some(place) => Some(facts[place]),
        None => None,
    }
}

/// The model of an optional fact.
pub open spec fn optional_fact(fact: Option<&LanguageFact>) -> Option<FactModel> {
    match fact {
        Some(fact) => Some(fact@),
        None => None,
    }
}

/// Finds the fact that gives a local name its value at a place.
pub fn scoped_ocaml_local_value<'a>(
    facts: &'a Vec<LanguageFact>,
    owner: &SymbolId,
    name: &str,
    position: Option<&SourceSpan>,
) -> (result: Option<&'a LanguageFact>)
    ensures
        optional_fact(result) == local_value(
            views(facts@),
            owner@,
            name@,
            optional_position(position),
        ),
{
    let ghost model = views(facts@);
    let mut best: Option<usize> = None;
    let mut index: usize = 0;
    proof {
        assert(model.len() == facts@.len());
    }
    while index < facts.len()
        invariant
            index <= facts@.len(),
            model == views(facts@),
            optional_node(best) == value_place(
                model,
                owner@,
                name@,
                optional_position(position),
                index as int,
            ),
            match best {
                Some(place) => place < facts@.len(),
                None => true,
            },
        decreases facts@.len() - index,
    {
        proof {
            assert(model[index as int] == facts@[index as int]@);
        }
        let fact = &facts[index];
        let given = fact_speaks_of(fact, "local-value", owner) && same_text(
            fact.key.as_str(),
            name,
        ) && match position {
            Some(position) => span_contains(&fact.span, position),
            None => true,
        };
        if given {
            match best {
                Some(other) => {
                    proof {
                        assert(model[other as int] == facts@[other as int]@);
                    }
                    if !is_earlier(
                        (fact.span.start_line, fact.span.start_column),
                        (facts[other].span.start_line, facts[other].span.start_column),
                    ) {
                        best = Some(index);
                    }
                },
                None => {
                    best = Some(index);
                },
            }
        }
        index += 1;
    }
    match best {
        Some(place) => {
            proof {
                assert(model[place as int] == facts@[place as int]@);
            }
            Some(&facts[place])
        },
        None => None,
    }
}

/// A place right before a stretch begins.
pub open spec fn place_before(scope: SpanModel) -> SpanModel {
    let byte = match scope.start_byte {
        Some(byte) => if byte > 0 {
            Some((byte - 1) as usize)
        } else {
            Some(byte)
        },
        None => None,
    };
    let column = (scope.start_column - 1) as usize;
    let line = (scope.start_line - 1) as usize;
    if scope.start_column > 0 {
        SpanModel {
            start_column: column,
            end_column: column,
            start_byte: byte,
            end_byte: byte,
            ..scope
        }
    } else if scope.start_line > 1 {
        SpanModel {
            start_line: line,
            end_line: line,
            start_column: usize::MAX,
            end_column: usize::MAX,
            start_byte: byte,
            end_byte: byte,
            ..scope
        }
    } else {
        SpanModel { start_byte: byte, end_byte: byte, ..scope }
    }
}

/// A place right before a stretch begins.
pub fn position_before_ocaml_scope(scope: &SourceSpan) -> (result: SourceSpan)
    ensures
        result@ == place_before(scope@),
{
    let mut position = scope.clone();
    if position.start_column > 0 {
        position.start_column = position.start_column - 1;
        position.end_column = position.start_column;
    } else if position.start_line > 1 {
        position.start_line = position.start_line - 1;
        position.end_line = position.start_line;
        position.start_column = usize::MAX;
        position.end_column = usize::MAX;
    }
    position.start_byte = match position.start_byte {
        Some(byte) => Some(byte.saturating_sub(1)),
        None => None,
    };
    position.end_byte = position.start_byte;
    position
}

/// The facts of a kind on a function among the first `count`.
pub open spec fn facts_on(
    facts: Seq<FactModel>,
    kind: Seq<char>,
    subject: SymbolModel,
    count: int,
) -> Seq<FactModel>
    decreases count,
{
    if count <= 0 {
        Seq::empty()
    } else {
        let before = facts_on(facts, kind, subject, count - 1);
        if speaks_of(facts[count - 1], kind, subject) {
            before.push(facts[count - 1])
        } else {
            before
        }
    }
}

/// The facts of a kind on a function.
pub fn find_facts_on(facts: &Vec<LanguageFact>, kind: &str, subject: &SymbolId) -> (result: Vec<
    LanguageFact,
>)
    ensures
        views(result@) == facts_on(views(facts@), kind@, subject@, facts@.len() as int),
{
    let mut result: Vec<LanguageFact> = Vec::new();
    let mut index: usize = 0;
    proof {
        assert(views(result@) =~= Seq::empty());
    }
    while index < facts.len()
        invariant
            index <= facts@.len(),
            views(result@) == facts_on(views(facts@), kind@, subject@, index as int),
        decreases facts@.len() - index,
    {
        proof {
            assert(views(facts@)[index as int] == facts@[index as int]@);
        }
        if fact_speaks_of(&facts[index], kind, subject) {
            let ghost before = views(result@);
            let fact = facts[index].clone();
            let ghost model = fact@;
            result.push(fact);
            proof {
                assert(views(result@) =~= before.push(model));
            }
        }
        index += 1;
    }
    result
}

} // verus!
