//! The functions that names in OCaml sources stand for.
use crate::files::{canonical_from, find_canonical, KnownFile};
use crate::lists::views;
use crate::model::{
    symbol_parts, symbol_text, CallTarget, FunctionInfo, FunctionModel, SourceSpan, SpanModel,
    SymbolId, SymbolModel, TargetModel,
};
use crate::ocaml::bindings::{normalize_ocaml_callable_argument, plain_argument};
use crate::ocaml::labels::{
    anonymous_callable_base, find_first_word, first_word, is_anonymous, lambda_of,
    ocaml_source_name, source_name,
};
use crate::ocaml::syntax::{node_list, optional_node};
use crate::paths::{same_place, SourcePath};
use crate::spans::{contains_span, extent, span_contains, span_size};
use crate::text::{
    chars_of, pieces, same_list, same_optional, same_text, split_text, starts_with_text, texts,
};
use vstd::prelude::*;

verus! {

/// The model of an optional place in a source.
pub open spec fn optional_position(position: Option<&SourceSpan>) -> Option<SpanModel> {
    match position {
        Some(position) => Some(position@),
        None => None,
    }
}

/// The model of an optional symbol.
pub open spec fn optional_symbol(symbol: Option<SymbolId>) -> Option<SymbolModel> {
    match symbol {
        Some(symbol) => Some(symbol@),
        None => None,
    }
}

/// The last of the first `count` functions that has an identity.
pub open spec fn function_place(functions: Seq<FunctionModel>, id: SymbolModel, count: int) -> Option<
    int,
>
    decreases count,
{
    if count <= 0 {
        None
    } else if functions[count - 1].id == id {
        Some(count - 1)
    } else {
        function_place(functions, id, count - 1)
    }
}

/// The function that has an identity.
pub open spec fn function_at(functions: Seq<FunctionModel>, id: SymbolModel) -> Option<int> {
    function_place(functions, id, functions.len() as int)
}

/// A function that is found is in the list and has the identity.
pub proof fn places_are_in_range(functions: Seq<FunctionModel>, id: SymbolModel, count: int)
    requires
        count <= functions.len(),
    ensures
        match function_place(functions, id, count) {
            Some(place) => 0 <= place < count && functions[place].id == id,
            None => forall|k: int| 0 <= k < count ==> (#[trigger] functions[k]).id != id,
        },
    decreases count,
{
    if count > 0 && functions[count - 1].id != id {
        places_are_in_range(functions, id, count - 1);
    }
}

/// The function that has an identity.
pub fn find_function_at(functions: &Vec<FunctionInfo>, id: &SymbolId) -> (result: Option<usize>)
    ensures
        optional_node(result) == function_at(views(functions@), id@),
        match result {
            Some(place) => place < functions@.len() && functions@[place as int].id@ == id@,
            None => true,
        },
{
    let ghost model = views(functions@);
    let mut count: usize = functions.len();
    proof {
        assert(model.len() == functions@.len());
    }
    while count > 0
        invariant
            count <= functions@.len(),
            model == views(functions@),
            model.len() == functions@.len(),
            function_place(model, id@, count as int) == function_at(model, id@),
        decreases count,
    {
        proof {
            assert(model[count - 1] == functions@[count - 1]@);
        }
        if functions[count - 1].id.same(id) {
            return Some(count - 1);
        }
        count -= 1;
    }
    None
}

/// Whether a list ends in another.
pub open spec fn list_ends_with(list: Seq<Seq<char>>, tail: Seq<Seq<char>>) -> bool {
    tail.len() <= list.len() && list.subrange(list.len() - tail.len(), list.len() as int) == tail
}

/// Whether a list ends in the first `count` parts of another.
fn ends_with_parts(list: &Vec<String>, tail: &Vec<String>, count: usize) -> (result: bool)
    requires
        count <= tail@.len(),
    ensures
        result == list_ends_with(texts(list@), texts(tail@).take(count as int)),
{
    let ghost end = texts(tail@).take(count as int);
    proof {
        assert(texts(list@).len() == list@.len());
        assert(end.len() == count);
    }
    let length: usize = list.len();
    if count > length {
        return false;
    }
    let start: usize = length - count;
    let ghost part = texts(list@).subrange(start as int, length as int);
    let mut index: usize = 0;
    while index < count
        invariant
            index <= count,
            count <= tail@.len(),
            start + count == length,
            length == list@.len(),
            end == texts(tail@).take(count as int),
            part == texts(list@).subrange(start as int, length as int),
            forall|k: int| 0 <= k < index ==> #[trigger] part[k] == end[k],
        decreases count - index,
    {
        proof {
            assert(part[index as int] == list@[start + index]@);
            assert(end[index as int] == tail@[index as int]@);
        }
        if !same_text(list[start + index].as_str(), tail[index].as_str()) {
            return false;
        }
        index += 1;
    }
    proof {
        assert(part =~= end);
    }
    true
}

/// Whether a path that a caller writes may stand for a function.
pub open spec fn path_names_function(
    function: FunctionModel,
    parts: Seq<Seq<char>>,
    caller: SymbolModel,
) -> bool {
    &&& parts.len() > 0
    &&& source_name(function.id.name) == parts.last()
    &&& function.id.container is None
    &&& if parts.len() == 1 {
        function.id.module == caller.module
    } else {
        list_ends_with(function.id.module, parts.take(parts.len() - 1))
    }
}

fn names_function(function: &FunctionInfo, parts: &Vec<String>, caller: &SymbolId) -> (result: bool)
    ensures
        result == path_names_function(function@, texts(parts@), caller@),
{
    proof {
        assert(texts(parts@).len() == parts@.len());
    }
    let length: usize = parts.len();
    if length == 0 {
        return false;
    }
    proof {
        assert(texts(parts@).last() == parts@[length - 1]@);
    }
    if !same_text(
        ocaml_source_name(function.id.name.as_str()).as_str(),
        parts[length - 1].as_str(),
    ) {
        return false;
    }
    if function.id.container.is_some() {
        return false;
    }
    if length == 1 {
        same_list(&function.id.module, &caller.module)
    } else {
        ends_with_parts(&function.id.module, parts, length - 1)
    }
}

/// The functions among the first `count` that a path may stand for.
pub open spec fn named_functions(
    functions: Seq<FunctionModel>,
    parts: Seq<Seq<char>>,
    caller: SymbolModel,
    count: int,
) -> Seq<int>
    decreases count,
{
    if count <= 0 {
        Seq::empty()
    } else {
        let before = named_functions(functions, parts, caller, count - 1);
        if path_names_function(functions[count - 1], parts, caller) {
            before.push(count - 1)
        } else {
            before
        }
    }
}

/// Whether the places of a list are those of functions.
pub open spec fn in_range(places: Seq<usize>, length: nat) -> bool {
    forall|k: int| 0 <= k < places.len() ==> #[trigger] places[k] < length
}

fn find_named_functions(
    functions: &Vec<FunctionInfo>,
    parts: &Vec<String>,
    caller: &SymbolId,
) -> (result: Vec<usize>)
    ensures
        node_list(result@) == named_functions(
            views(functions@),
            texts(parts@),
            caller@,
            functions@.len() as int,
        ),
        in_range(result@, functions@.len()),
{
    let mut result: Vec<usize> = Vec::new();
    let mut index: usize = 0;
    proof {
        assert(node_list(result@) =~= Seq::<int>::empty());
    }
    while index < functions.len()
        invariant
            index <= functions@.len(),
            node_list(result@) == named_functions(
                views(functions@),
                texts(parts@),
                caller@,
                index as int,
            ),
            in_range(result@, functions@.len()),
        decreases functions@.len() - index,
    {
        proof {
            assert(views(functions@)[index as int] == functions@[index as int]@);
        }
        if names_function(&functions[index], parts, caller) {
            let ghost before = node_list(result@);
            result.push(index);
            proof {
                assert(node_list(result@) =~= before.push(index as int));
            }
        }
        index += 1;
    }
    result
}

/// Whether a file is one under which the functions of another are known: the
/// file itself, or what the file system resolves it to.
pub open spec fn known_under(
    known: Seq<(Seq<char>, Seq<char>)>,
    file: Seq<char>,
    key: Seq<char>,
) -> bool {
    same_place(file, key) || match canonical_from(known, file, 0) {
        Some(canonical) => same_place(canonical, key),
        None => false,
    }
}

/// The functions among the first `count` that are known under a file.
pub open spec fn functions_under(
    functions: Seq<FunctionModel>,
    known: Seq<(Seq<char>, Seq<char>)>,
    key: Seq<char>,
    count: int,
) -> Seq<int>
    decreases count,
{
    if count <= 0 {
        Seq::empty()
    } else {
        let before = functions_under(functions, known, key, count - 1);
        if known_under(known, functions[count - 1].span.file, key) {
            before.push(count - 1)
        } else {
            before
        }
    }
}

/// The functions of a file.
pub open spec fn file_functions(
    functions: Seq<FunctionModel>,
    known: Seq<(Seq<char>, Seq<char>)>,
    file: Seq<char>,
) -> Seq<int> {
    let own = functions_under(functions, known, file, functions.len() as int);
    if own.len() > 0 {
        own
    } else {
        match canonical_from(known, file, 0) {
            Some(canonical) => functions_under(
                functions,
                known,
                canonical,
                functions.len() as int,
            ),
            None => own,
        }
    }
}

fn find_functions_under(
    functions: &Vec<FunctionInfo>,
    known: &Vec<KnownFile>,
    key: &SourcePath,
) -> (result: Vec<usize>)
    ensures
        node_list(result@) == functions_under(
            views(functions@),
            views(known@),
            key@,
            functions@.len() as int,
        ),
        in_range(result@, functions@.len()),
{
    let mut result: Vec<usize> = Vec::new();
    let mut index: usize = 0;
    proof {
        assert(node_list(result@) =~= Seq::<int>::empty());
    }
    while index < functions.len()
        invariant
            index <= functions@.len(),
            node_list(result@) == functions_under(
                views(functions@),
                views(known@),
                key@,
                index as int,
            ),
            in_range(result@, functions@.len()),
        decreases functions@.len() - index,
    {
        proof {
            assert(views(functions@)[index as int] == functions@[index as int]@);
        }
        let file = &functions[index].span.file;
        let under = file.same(key) || match find_canonical(known, file) {
            Some(canonical) => canonical.same(key),
            None => false,
        };
        if under {
            let ghost before = node_list(result@);
            result.push(index);
            proof {
                assert(node_list(result@) =~= before.push(index as int));
            }
        }
        index += 1;
    }
    result
}

/// The functions of a file.
pub fn functions_in_file(
    functions: &Vec<FunctionInfo>,
    known: &Vec<KnownFile>,
    file: &SourcePath,
) -> (result: Vec<usize>)
    ensures
        node_list(result@) == file_functions(views(functions@), views(known@), file@),
        in_range(result@, functions@.len()),
{
    let own = find_functions_under(functions, known, file);
    proof {
        assert(views(functions@).len() == functions@.len());
        assert(node_list(own@).len() == own@.len());
    }
    if own.len() > 0 {
        return own;
    }
    match find_canonical(known, file) {
        Some(canonical) => find_functions_under(functions, known, canonical),
        None => own,
    }
}

/// Whether one of the functions of a list has an identity.
pub open spec fn lists_id(functions: Seq<FunctionModel>, places: Seq<int>, id: SymbolModel) -> bool {
    exists|k: int| 0 <= k < places.len() && functions[#[trigger] places[k]].id == id
}

fn has_id(functions: &Vec<FunctionInfo>, places: &Vec<usize>, id: &SymbolId) -> (result: bool)
    requires
        in_range(places@, functions@.len()),
    ensures
        result == lists_id(views(functions@), node_list(places@), id@),
{
    let ghost model = views(functions@);
    let ghost nodes = node_list(places@);
    let mut index: usize = 0;
    while index < places.len()
        invariant
            index <= places@.len(),
            model == views(functions@),
            nodes == node_list(places@),
            in_range(places@, functions@.len()),
            forall|k: int| 0 <= k < index ==> model[#[trigger] nodes[k]].id != id@,
        decreases places@.len() - index,
    {
        let place: usize = places[index];
        proof {
            assert(nodes[index as int] == place);
            assert(model[place as int] == functions@[place as int]@);
        }
        if functions[place].id.same(id) {
            return true;
        }
        index += 1;
    }
    false
}

/// The first `count` of some functions, without those whose identity is not
/// listed.
pub open spec fn only_listed(
    functions: Seq<FunctionModel>,
    places: Seq<int>,
    listed: Seq<int>,
    count: int,
) -> Seq<int>
    decreases count,
{
    if count <= 0 {
        Seq::empty()
    } else {
        let before = only_listed(functions, places, listed, count - 1);
        if lists_id(functions, listed, functions[places[count - 1]].id) {
            before.push(places[count - 1])
        } else {
            before
        }
    }
}

fn keep_listed(functions: &Vec<FunctionInfo>, places: &Vec<usize>, listed: &Vec<usize>) -> (result:
    Vec<usize>)
    requires
        in_range(places@, functions@.len()),
        in_range(listed@, functions@.len()),
    ensures
        node_list(result@) == only_listed(
            views(functions@),
            node_list(places@),
            node_list(listed@),
            places@.len() as int,
        ),
        in_range(result@, functions@.len()),
{
    let mut result: Vec<usize> = Vec::new();
    let mut index: usize = 0;
    proof {
        assert(node_list(result@) =~= Seq::<int>::empty());
    }
    while index < places.len()
        invariant
            index <= places@.len(),
            in_range(places@, functions@.len()),
            in_range(listed@, functions@.len()),
            node_list(result@) == only_listed(
                views(functions@),
                node_list(places@),
                node_list(listed@),
                index as int,
            ),
            in_range(result@, functions@.len()),
        decreases places@.len() - index,
    {
        let place: usize = places[index];
        proof {
            assert(node_list(places@)[index as int] == place);
            assert(views(functions@)[place as int] == functions@[place as int]@);
        }
        if has_id(functions, listed, &functions[place].id) {
            let ghost before = node_list(result@);
            result.push(place);
            proof {
                assert(node_list(result@) =~= before.push(place as int));
            }
        }
        index += 1;
    }
    result
}

/// The smallest of the first `count` of some functions that is no one's part
/// and holds a place in the source. Of equal ones the first.
pub open spec fn enclosing_function(
    functions: Seq<FunctionModel>,
    places: Seq<int>,
    position: SpanModel,
    count: int,
) -> Option<int>
    decreases count,
{
    if count <= 0 {
        None
    } else {
        let before = enclosing_function(functions, places, position, count - 1);
        let function = functions[places[count - 1]];
        if function.id.container is Some || !contains_span(function.span, position) {
            before
        } else {
            match before {
                Some(best) => if extent(function.span) < extent(functions[best].span) {
                    Some(places[count - 1])
                } else {
                    before
                },
                None => Some(places[count - 1]),
            }
        }
    }
}

fn find_enclosing(functions: &Vec<FunctionInfo>, places: &Vec<usize>, position: &SourceSpan) -> (result:
    Option<usize>)
    requires
        in_range(places@, functions@.len()),
    ensures
        optional_node(result) == enclosing_function(
            views(functions@),
            node_list(places@),
            position@,
            places@.len() as int,
        ),
        match result {
            Some(place) => place < functions@.len(),
            None => true,
        },
{
    let ghost model = views(functions@);
    let mut best: Option<usize> = None;
    let mut index: usize = 0;
    while index < places.len()
        invariant
            index <= places@.len(),
            model == views(functions@),
            in_range(places@, functions@.len()),
            optional_node(best) == enclosing_function(
                model,
                node_list(places@),
                position@,
                index as int,
            ),
            match best {
                Some(place) => place < functions@.len(),
                None => true,
            },
        decreases places@.len() - index,
    {
        let place: usize = places[index];
        proof {
            assert(node_list(places@)[index as int] == place);
            assert(model[place as int] == functions@[place as int]@);
        }
        let function = &functions[place];
        if function.id.container.is_none() && span_contains(&function.span, position) {
            match best {
                Some(other) => {
                    proof {
                        assert(model[other as int] == functions@[other as int]@);
                    }
                    if span_size(&function.span) < span_size(&functions[other].span) {
                        best = Some(place);
                    }
                },
                None => {
                    best = Some(place);
                },
            }
        }
        index += 1;
    }
    best
}

/// Whether a place comes before another.
pub open spec fn earlier(left: (usize, usize), right: (usize, usize)) -> bool {
    left.0 < right.0 || (left.0 == right.0 && left.1 < right.1)
}

/// Where a stretch begins.
pub open spec fn start_of(span: SpanModel) -> (usize, usize) {
    (span.start_line, span.start_column)
}

/// Where a stretch ends.
pub open spec fn end_place(span: SpanModel) -> (usize, usize) {
    (span.end_line, span.end_column)
}

/// Whether a stretch comes before another, by where it begins and then by
/// where it ends.
pub open spec fn span_earlier(left: SpanModel, right: SpanModel) -> bool {
    earlier(start_of(left), start_of(right)) || (start_of(left) == start_of(right) && earlier(
        end_place(left),
        end_place(right),
    ))
}

/// Whether a place comes before another.
pub fn is_earlier(left: (usize, usize), right: (usize, usize)) -> (result: bool)
    ensures
        result == earlier(left, right),
{
    left.0 < right.0 || (left.0 == right.0 && left.1 < right.1)
}

/// Whether a stretch comes before another, by where it begins and then by
/// where it ends.
pub fn span_is_earlier(left: &SourceSpan, right: &SourceSpan) -> (result: bool)
    ensures
        result == span_earlier(left@, right@),
{
    is_earlier(
        (left.start_line, left.start_column),
        (right.start_line, right.start_column),
    ) || (left.start_line == right.start_line && left.start_column == right.start_column
        && is_earlier((left.end_line, left.end_column), (right.end_line, right.end_column)))
}

/// The last of the first `count` of some functions that begins before a
/// place.
pub open spec fn last_before(
    functions: Seq<FunctionModel>,
    places: Seq<int>,
    limit: (usize, usize),
    count: int,
) -> Option<int>
    decreases count,
{
    if count <= 0 {
        None
    } else {
        let before = last_before(functions, places, limit, count - 1);
        let span = functions[places[count - 1]].span;
        if !earlier(start_of(span), limit) {
            before
        } else {
            match before {
                Some(best) => if span_earlier(span, functions[best].span) {
                    before
                } else {
                    Some(places[count - 1])
                },
                None => Some(places[count - 1]),
            }
        }
    }
}

fn find_last_before(
    functions: &Vec<FunctionInfo>,
    places: &Vec<usize>,
    limit: (usize, usize),
) -> (result: Option<usize>)
    requires
        in_range(places@, functions@.len()),
    ensures
        optional_node(result) == last_before(
            views(functions@),
            node_list(places@),
            limit,
            places@.len() as int,
        ),
        match result {
            Some(place) => place < functions@.len(),
            None => true,
        },
{
    let ghost model = views(functions@);
    let mut best: Option<usize> = None;
    let mut index: usize = 0;
    while index < places.len()
        invariant
            index <= places@.len(),
            model == views(functions@),
            in_range(places@, functions@.len()),
            optional_node(best) == last_before(model, node_list(places@), limit, index as int),
            match best {
                Some(place) => place < functions@.len(),
                None => true,
            },
        decreases places@.len() - index,
    {
        let place: usize = places[index];
        proof {
            assert(node_list(places@)[index as int] == place);
            assert(model[place as int] == functions@[place as int]@);
        }
        let span = &functions[place].span;
        if is_earlier((span.start_line, span.start_column), limit) {
            match best {
                Some(other) => {
                    proof {
                        assert(model[other as int] == functions@[other as int]@);
                    }
                    if !span_is_earlier(span, &functions[other].span) {
                        best = Some(place);
                    }
                },
                None => {
                    best = Some(place);
                },
            }
        }
        index += 1;
    }
    best
}

/// The identity that all functions of a list have.
pub open spec fn common_id(functions: Seq<FunctionModel>, places: Seq<int>) -> Option<SymbolModel> {
    if places.len() > 0 && forall|k: int|
        0 <= k < places.len() ==> functions[#[trigger] places[k]].id == functions[places[0]].id {
        Some(functions[places[0]].id)
    } else {
        None
    }
}

/// Finds the identity that all functions of a list have.
pub fn find_common_id(functions: &Vec<FunctionInfo>, places: &Vec<usize>) -> (result: Option<SymbolId>)
    requires
        in_range(places@, functions@.len()),
    ensures
        optional_symbol(result) == common_id(views(functions@), node_list(places@)),
{
    let ghost model = views(functions@);
    let ghost nodes = node_list(places@);
    proof {
        assert(nodes.len() == places@.len());
    }
    if places.len() == 0 {
        return None;
    }
    let first: usize = places[0];
    proof {
        assert(nodes[0] == first);
        assert(model[first as int] == functions@[first as int]@);
    }
    let mut index: usize = 1;
    while index < places.len()
        invariant
            1 <= index <= places@.len(),
            model == views(functions@),
            nodes == node_list(places@),
            nodes.len() == places@.len(),
            first == nodes[0],
            first < functions@.len(),
            model[first as int] == functions@[first as int]@,
            in_range(places@, functions@.len()),
            forall|k: int| 0 <= k < index ==> model[#[trigger] nodes[k]].id == model[nodes[0]].id,
        decreases places@.len() - index,
    {
        let place: usize = places[index];
        proof {
            assert(nodes[index as int] == place);
            assert(model[place as int] == functions@[place as int]@);
        }
        if !functions[place].id.same(&functions[first].id) {
            return None;
        }
        index += 1;
    }
    Some(functions[first].id.clone())
}

/// The function that a path stands for at a place in the source: the only one
/// that it may stand for; else, in the file of the place, the last that begins
/// before the function around the place.
pub open spec fn resolved(
    functions: Seq<FunctionModel>,
    known: Seq<(Seq<char>, Seq<char>)>,
    parts: Seq<Seq<char>>,
    caller: SymbolModel,
    position: Option<SpanModel>,
) -> Option<SymbolModel> {
    let named = named_functions(functions, parts, caller, functions.len() as int);
    if named.len() == 1 {
        Some(functions[named[0]].id)
    } else {
        match position {
            Some(position) => {
                let near = file_functions(functions, known, position.file);
                let same_file = only_listed(functions, near, named, near.len() as int);
                if same_file.len() > 0 {
                    let limit = match enclosing_function(
                        functions,
                        near,
                        position,
                        near.len() as int,
                    ) {
                        Some(place) => start_of(functions[place].span),
                        None => start_of(position),
                    };
                    match last_before(functions, same_file, limit, same_file.len() as int) {
                        Some(place) => Some(functions[place].id),
                        None => None,
                    }
                } else {
                    common_id(functions, named)
                }
            },
            None => common_id(functions, named),
        }
    }
}

/// Finds the function that a path stands for at a place in the source.
pub fn resolve(
    functions: &Vec<FunctionInfo>,
    known: &Vec<KnownFile>,
    parts: &Vec<String>,
    caller: &SymbolId,
    position: Option<&SourceSpan>,
) -> (result: Option<SymbolId>)
    ensures
        optional_symbol(result) == resolved(
            views(functions@),
            views(known@),
            texts(parts@),
            caller@,
            optional_position(position),
        ),
{
    let ghost model = views(functions@);
    let named = find_named_functions(functions, parts, caller);
    proof {
        assert(model.len() == functions@.len());
        assert(node_list(named@).len() == named@.len());
    }
    if named.len() == 1 {
        let place: usize = named[0];
        proof {
            assert(node_list(named@)[0] == place);
            assert(model[place as int] == functions@[place as int]@);
        }
        return Some(functions[place].id.clone());
    }
    if let Some(position) = position {
        let near = functions_in_file(functions, known, &position.file);
        let same_file = keep_listed(functions, &near, &named);
        proof {
            assert(node_list(near@).len() == near@.len());
            assert(node_list(same_file@).len() == same_file@.len());
        }
        if same_file.len() > 0 {
            let limit: (usize, usize) = match find_enclosing(functions, &near, position) {
                Some(place) => {
                    proof {
                        assert(model[place as int] == functions@[place as int]@);
                    }
                    let span = &functions[place].span;
                    (span.start_line, span.start_column)
                },
                None => (position.start_line, position.start_column),
            };
            return match find_last_before(functions, &same_file, limit) {
                Some(place) => {
                    proof {
                        assert(model[place as int] == functions@[place as int]@);
                    }
                    Some(functions[place].id.clone())
                },
                None => None,
            };
        }
    }
    find_common_id(functions, &named)
}

/// The functions among the first `count` whose path ends in `tail`.
pub open spec fn functions_ending(
    functions: Seq<FunctionModel>,
    tail: Seq<Seq<char>>,
    count: int,
) -> Seq<int>
    decreases count,
{
    if count <= 0 {
        Seq::empty()
    } else {
        let before = functions_ending(functions, tail, count - 1);
        if list_ends_with(symbol_parts(functions[count - 1].id), tail) {
            before.push(count - 1)
        } else {
            before
        }
    }
}

/// The function of the list that a call reaches directly: the one with the
/// identity of the target, or the only one whose path ends in that of the
/// target.
pub open spec fn target_function(functions: Seq<FunctionModel>, target: TargetModel) -> Option<
    SymbolModel,
> {
    match target {
        TargetModel::Direct(symbol) => if function_at(functions, symbol) is Some {
            Some(symbol)
        } else {
            let found = functions_ending(
                functions,
                symbol_parts(symbol),
                functions.len() as int,
            );
            if found.len() == 1 {
                Some(functions[found[0]].id)
            } else {
                None
            }
        },
        _ => None,
    }
}

/// Finds the function of the list that a call reaches directly.
pub fn local_target(functions: &Vec<FunctionInfo>, target: &CallTarget) -> (result: Option<SymbolId>)
    ensures
        optional_symbol(result) == target_function(views(functions@), target@),
{
    let ghost model = views(functions@);
    let symbol = match target {
        CallTarget::Direct(symbol) => symbol,
        _ => {
            return None;
        },
    };
    if find_function_at(functions, symbol).is_some() {
        return Some(symbol.clone());
    }
    let tail = symbol.owned_parts();
    let length: usize = tail.len();
    let mut found: Vec<usize> = Vec::new();
    let mut index: usize = 0;
    proof {
        assert(model.len() == functions@.len());
        assert(node_list(found@) =~= Seq::<int>::empty());
    }
    while index < functions.len()
        invariant
            index <= functions@.len(),
            model == views(functions@),
            length == tail@.len(),
            node_list(found@) == functions_ending(model, texts(tail@), index as int),
            in_range(found@, functions@.len()),
        decreases functions@.len() - index,
    {
        proof {
            assert(model[index as int] == functions@[index as int]@);
            assert(texts(tail@).take(length as int) =~= texts(tail@));
        }
        if ends_with_parts(&functions[index].id.owned_parts(), &tail, length) {
            let ghost before = node_list(found@);
            found.push(index);
            proof {
                assert(node_list(found@) =~= before.push(index as int));
            }
        }
        index += 1;
    }
    proof {
        assert(node_list(found@).len() == found@.len());
    }
    if found.len() == 1 {
        let place: usize = found[0];
        proof {
            assert(node_list(found@)[0] == place);
            assert(model[place as int] == functions@[place as int]@);
        }
        return Some(functions[place].id.clone());
    }
    None
}

/// Whether a function is a part of a caller, or of what the caller is a part
/// of.
pub open spec fn is_near(function: FunctionModel, caller: SymbolModel) -> bool {
    function.id.container == Some(symbol_text(caller)) || function.id.container == caller.container
}

fn is_near_function(function: &FunctionInfo, caller: &SymbolId, owner: &str) -> (result: bool)
    requires
        owner@ == symbol_text(caller@),
    ensures
        result == is_near(function@, caller@),
{
    let direct = match &function.id.container {
        Some(container) => same_text(container.as_str(), owner),
        None => false,
    };
    direct || same_optional(&function.id.container, &caller.container)
}

/// The first `count` functions that stand near a caller and, by `displayed`,
/// are shown as `name`, or else are written as `name`.
pub open spec fn near_functions(
    functions: Seq<FunctionModel>,
    caller: SymbolModel,
    name: Seq<char>,
    displayed: bool,
    count: int,
) -> Seq<int>
    decreases count,
{
    if count <= 0 {
        Seq::empty()
    } else {
        let before = near_functions(functions, caller, name, displayed, count - 1);
        let function = functions[count - 1];
        let named = if displayed {
            is_anonymous(function) && first_word(function.label.default) == Some(name)
        } else {
            source_name(function.id.name) == name
        };
        if named && is_near(function, caller) {
            before.push(count - 1)
        } else {
            before
        }
    }
}

fn find_near_functions(
    functions: &Vec<FunctionInfo>,
    caller: &SymbolId,
    name: &str,
    displayed: bool,
) -> (result: Vec<usize>)
    ensures
        node_list(result@) == near_functions(
            views(functions@),
            caller@,
            name@,
            displayed,
            functions@.len() as int,
        ),
        in_range(result@, functions@.len()),
{
    let ghost model = views(functions@);
    let owner = caller.to_text();
    let mut result: Vec<usize> = Vec::new();
    let mut index: usize = 0;
    proof {
        assert(node_list(result@) =~= Seq::<int>::empty());
    }
    while index < functions.len()
        invariant
            index <= functions@.len(),
            model == views(functions@),
            owner@ == symbol_text(caller@),
            node_list(result@) == near_functions(model, caller@, name@, displayed, index as int),
            in_range(result@, functions@.len()),
        decreases functions@.len() - index,
    {
        let function = &functions[index];
        proof {
            assert(model[index as int] == functions@[index as int]@);
        }
        let source = ocaml_source_name(function.id.name.as_str());
        let named = if displayed {
            starts_with_text(source.as_str(), "{lambda:") && match find_first_word(
                function.label.default.as_str(),
            ) {
                Some(word) => same_text(word.as_str(), name),
                None => false,
            }
        } else {
            same_text(source.as_str(), name)
        };
        if named && is_near_function(function, caller, owner.as_str()) {
            let ghost before = node_list(result@);
            result.push(index);
            proof {
                assert(node_list(result@) =~= before.push(index as int));
            }
        }
        index += 1;
    }
    result
}

/// The first `count` of some functions that lie in a stretch. A function lies
/// where the last function with its identity lies.
pub open spec fn placed_functions(
    functions: Seq<FunctionModel>,
    places: Seq<int>,
    position: SpanModel,
    count: int,
) -> Seq<int>
    decreases count,
{
    if count <= 0 {
        Seq::empty()
    } else {
        let before = placed_functions(functions, places, position, count - 1);
        match function_at(functions, functions[places[count - 1]].id) {
            Some(place) => if contains_span(position, functions[place].span) {
                before.push(places[count - 1])
            } else {
                before
            },
            None => before,
        }
    }
}

fn find_placed(functions: &Vec<FunctionInfo>, places: &Vec<usize>, position: &SourceSpan) -> (result:
    Vec<usize>)
    requires
        in_range(places@, functions@.len()),
    ensures
        node_list(result@) == placed_functions(
            views(functions@),
            node_list(places@),
            position@,
            places@.len() as int,
        ),
        in_range(result@, functions@.len()),
{
    let ghost model = views(functions@);
    let mut result: Vec<usize> = Vec::new();
    let mut index: usize = 0;
    proof {
        assert(node_list(result@) =~= Seq::<int>::empty());
    }
    while index < places.len()
        invariant
            index <= places@.len(),
            model == views(functions@),
            in_range(places@, functions@.len()),
            node_list(result@) == placed_functions(
                model,
                node_list(places@),
                position@,
                index as int,
            ),
            in_range(result@, functions@.len()),
        decreases places@.len() - index,
    {
        let place: usize = places[index];
        proof {
            assert(node_list(places@)[index as int] == place);
            assert(model[place as int] == functions@[place as int]@);
        }
        if let Some(found) = find_function_at(functions, &functions[place].id) {
            proof {
                assert(model[found as int] == functions@[found as int]@);
            }
            if span_contains(position, &functions[found].span) {
                let ghost before = node_list(result@);
                result.push(place);
                proof {
                    assert(node_list(result@) =~= before.push(place as int));
                }
            }
        }
        index += 1;
    }
    result
}

/// The anonymous function near a caller that an expression stands for.
pub open spec fn anonymous_function(
    functions: Seq<FunctionModel>,
    expression: Seq<char>,
    caller: SymbolModel,
    position: Option<SpanModel>,
) -> Option<SymbolModel> {
    match lambda_of(expression) {
        None => None,
        Some(base) => {
            let near = near_functions(functions, caller, base, false, functions.len() as int);
            match position {
                Some(position) => {
                    let placed = placed_functions(functions, near, position, near.len() as int);
                    if placed.len() > 0 {
                        common_id(functions, placed)
                    } else {
                        common_id(functions, near)
                    }
                },
                None => common_id(functions, near),
            }
        },
    }
}

/// Finds the anonymous function near a caller that an expression stands for.
pub fn anonymous_callable_symbol_at(
    functions: &Vec<FunctionInfo>,
    expression: &str,
    caller: &SymbolId,
    position: Option<&SourceSpan>,
) -> (result: Option<SymbolId>)
    ensures
        optional_symbol(result) == anonymous_function(
            views(functions@),
            expression@,
            caller@,
            optional_position(position),
        ),
{
    proof {
        assert(views(functions@).len() == functions@.len());
    }
    let base = match anonymous_callable_base(expression) {
        Some(base) => base,
        None => {
            return None;
        },
    };
    let near = find_near_functions(functions, caller, base.as_str(), false);
    proof {
        assert(node_list(near@).len() == near@.len());
    }
    if let Some(position) = position {
        let placed = find_placed(functions, &near, position);
        proof {
            assert(node_list(placed@).len() == placed@.len());
        }
        if placed.len() > 0 {
            return find_common_id(functions, &placed);
        }
    }
    find_common_id(functions, &near)
}

/// The anonymous function near a caller that is shown as an expression.
pub open spec fn displayed_function(
    functions: Seq<FunctionModel>,
    expression: Seq<char>,
    caller: SymbolModel,
) -> Option<SymbolModel> {
    let lambda = plain_argument(expression);
    if lambda.len() > 0 && lambda[0] == '\u{3bb}' {
        common_id(
            functions,
            near_functions(functions, caller, lambda, true, functions.len() as int),
        )
    } else {
        None
    }
}

/// Finds the anonymous function near a caller that is shown as an expression.
pub fn displayed_anonymous_callable_symbol(
    functions: &Vec<FunctionInfo>,
    expression: &str,
    caller: &SymbolId,
) -> (result: Option<SymbolId>)
    ensures
        optional_symbol(result) == displayed_function(views(functions@), expression@, caller@),
{
    proof {
        assert(views(functions@).len() == functions@.len());
    }
    let lambda = normalize_ocaml_callable_argument(expression);
    let characters = chars_of(lambda.as_str());
    if characters.len() == 0 || characters[0] != '\u{3bb}' {
        return None;
    }
    find_common_id(functions, &find_near_functions(functions, caller, lambda.as_str(), true))
}

/// The function that an argument stands for: an anonymous one, one that is
/// shown, or one that is named.
pub open spec fn argument_function(
    functions: Seq<FunctionModel>,
    known: Seq<(Seq<char>, Seq<char>)>,
    argument: Seq<char>,
    caller: SymbolModel,
    position: Option<SpanModel>,
) -> Option<SymbolModel> {
    let plain = plain_argument(argument);
    match anonymous_function(functions, plain, caller, None) {
        Some(found) => Some(found),
        None => match displayed_function(functions, plain, caller) {
            Some(found) => Some(found),
            None => resolved(functions, known, pieces(plain, "."@), caller, position),
        },
    }
}

/// Finds the function that an argument stands for.
pub fn argument_callable_symbol(
    functions: &Vec<FunctionInfo>,
    known: &Vec<KnownFile>,
    argument: &str,
    caller: &SymbolId,
    position: Option<&SourceSpan>,
) -> (result: Option<SymbolId>)
    ensures
        optional_symbol(result) == argument_function(
            views(functions@),
            views(known@),
            argument@,
            caller@,
            optional_position(position),
        ),
{
    let plain = normalize_ocaml_callable_argument(argument);
    match anonymous_callable_symbol_at(functions, plain.as_str(), caller, None) {
        Some(found) => {
            return Some(found);
        },
        None => {},
    }
    match displayed_anonymous_callable_symbol(functions, plain.as_str(), caller) {
        Some(found) => {
            return Some(found);
        },
        None => {},
    }
    proof {
        reveal_strlit(".");
    }
    let parts = split_text(plain.as_str(), ".");
    resolve(functions, known, &parts, caller, position)
}

} // verus!
