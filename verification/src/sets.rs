//! Ordered sets, kept as lists in order without repetition.
use crate::model::{
    path_models, reason_rank, symbol_less, symbol_models, symbol_order_laws, SymbolId, SymbolModel,
    UnresolvedReason,
};
use crate::paths::{path_less, path_order_laws, same_place, SourcePath};
use crate::text::{comes_before, same_text, text_less, text_order_laws, texts};
use vstd::prelude::*;

verus! {

/// Whether symbols stand in order, each once.
pub open spec fn symbols_in_order(symbols: Seq<SymbolModel>) -> bool {
    forall|i: int, j: int|
        0 <= i < j < symbols.len() ==> symbol_less(#[trigger] symbols[i], #[trigger] symbols[j])
}

/// Whether a list is the set, in order.
pub open spec fn lists_symbols(symbols: Seq<SymbolModel>, set: Set<SymbolModel>) -> bool {
    symbols_in_order(symbols) && symbols.to_set() == set
}

/// A set can be listed in order in one way only.
pub proof fn ordered_lists_are_unique(
    left: Seq<SymbolModel>,
    right: Seq<SymbolModel>,
    set: Set<SymbolModel>,
)
    requires
        lists_symbols(left, set),
        lists_symbols(right, set),
    ensures
        left == right,
    decreases left.len(),
{
    if left.len() == 0 {
        if right.len() > 0 {
            assert(right.to_set().contains(right[0]));
            assert(left.to_set().contains(right[0]));
        }
        assert(left =~= right);
    } else {
        assert(left.to_set().contains(left[0]));
        assert(right.to_set().contains(left[0]));
        assert(right.len() > 0);
        assert(right.to_set().contains(right[0]));
        assert(left.to_set().contains(right[0]));
        let p = choose|p: int| 0 <= p < right.len() && right[p] == left[0];
        let q = choose|q: int| 0 <= q < left.len() && left[q] == right[0];
        symbol_order_laws(left[0], right[0], left[0]);
        assert(left[0] == right[0]);
        let left_rest = left.skip(1);
        let right_rest = right.skip(1);
        assert forall|symbol: SymbolModel| left_rest.to_set().contains(symbol)
            == right_rest.to_set().contains(symbol) by {
            if left_rest.contains(symbol) {
                let k = choose|k: int| 0 <= k < left_rest.len() && left_rest[k] == symbol;
                assert(left[k + 1] == symbol);
                symbol_order_laws(left[0], symbol, left[0]);
                assert(left.to_set().contains(symbol));
                assert(right.contains(symbol));
                let m = choose|m: int| 0 <= m < right.len() && right[m] == symbol;
                assert(m > 0);
                assert(right_rest[m - 1] == symbol);
            }
            if right_rest.contains(symbol) {
                let k = choose|k: int| 0 <= k < right_rest.len() && right_rest[k] == symbol;
                assert(right[k + 1] == symbol);
                symbol_order_laws(right[0], symbol, right[0]);
                assert(right.to_set().contains(symbol));
                assert(left.contains(symbol));
                let m = choose|m: int| 0 <= m < left.len() && left[m] == symbol;
                assert(m > 0);
                assert(left_rest[m - 1] == symbol);
            }
        }
        assert(left_rest.to_set() =~= right_rest.to_set());
        ordered_lists_are_unique(left_rest, right_rest, left_rest.to_set());
        assert(left =~= seq![left[0]] + left_rest);
        assert(right =~= seq![right[0]] + right_rest);
    }
}

/// A symbol that is put between the smaller and the larger ones keeps the
/// order.
pub proof fn insertion_keeps_order(symbols: Seq<SymbolModel>, index: int, symbol: SymbolModel)
    requires
        symbols_in_order(symbols),
        0 <= index <= symbols.len(),
        forall|k: int| 0 <= k < index ==> symbol_less(#[trigger] symbols[k], symbol),
        index < symbols.len() ==> symbol_less(symbol, symbols[index]),
    ensures
        symbols_in_order(symbols.insert(index, symbol)),
        symbols.insert(index, symbol).to_set() == symbols.to_set().insert(symbol),
        !symbols.to_set().contains(symbol),
{
    let grown = symbols.insert(index, symbol);
    assert forall|k: int| index <= k < symbols.len() implies symbol_less(
        symbol,
        #[trigger] symbols[k],
    ) by {
        symbol_order_laws(symbol, symbols[index], symbols[k]);
    }
    assert forall|k: int| 0 <= k < symbols.len() implies #[trigger] symbols[k] != symbol by {
        symbol_order_laws(symbol, symbols[k], symbol);
    }
    assert forall|item: SymbolModel| grown.to_set().contains(item)
        == symbols.to_set().insert(symbol).contains(item) by {
        if grown.contains(item) {
            let k = choose|k: int| 0 <= k < grown.len() && grown[k] == item;
            if k < index {
                assert(symbols[k] == item);
            } else if k > index {
                assert(symbols[k - 1] == item);
            }
        }
        if symbols.contains(item) {
            let k = choose|k: int| 0 <= k < symbols.len() && symbols[k] == item;
            if k < index {
                assert(grown[k] == item);
            } else {
                assert(grown[k + 1] == item);
            }
        }
        assert(grown[index] == symbol);
    }
    assert(grown.to_set() =~= symbols.to_set().insert(symbol));
}

/// Putting an item into a list adds it to the items of the list.
pub proof fn insertion_adds_item<T>(items: Seq<T>, index: int, item: T)
    requires
        0 <= index <= items.len(),
    ensures
        items.insert(index, item).to_set() == items.to_set().insert(item),
{
    let grown = items.insert(index, item);
    assert forall|other: T| grown.to_set().contains(other) == items.to_set().insert(item).contains(
        other,
    ) by {
        if grown.contains(other) {
            let k = choose|k: int| 0 <= k < grown.len() && grown[k] == other;
            if k < index {
                assert(items[k] == other);
            } else if k > index {
                assert(items[k - 1] == other);
            }
        }
        if items.contains(other) {
            let k = choose|k: int| 0 <= k < items.len() && items[k] == other;
            if k < index {
                assert(grown[k] == other);
            } else {
                assert(grown[k + 1] == other);
            }
        }
        assert(grown[index] == item);
    }
    assert(grown.to_set() =~= items.to_set().insert(item));
}

/// Adds a symbol to an ordered set, and says whether it was new.
pub fn insert_symbol(set: &mut Vec<SymbolId>, symbol: SymbolId) -> (added: bool)
    requires
        symbols_in_order(symbol_models(old(set)@)),
    ensures
        symbols_in_order(symbol_models(final(set)@)),
        symbol_models(final(set)@).to_set() == symbol_models(old(set)@).to_set().insert(symbol@),
        added == !symbol_models(old(set)@).contains(symbol@),
{
    let ghost before = symbol_models(set@);
    let mut index: usize = 0;
    while index < set.len() && set[index].before(&symbol)
        invariant
            index <= set@.len(),
            before == symbol_models(set@),
            forall|k: int| 0 <= k < index ==> symbol_less(#[trigger] before[k], symbol@),
        decreases set@.len() - index,
    {
        assert(before[index as int] == set@[index as int]@);
        index += 1;
    }
    if index < set.len() && set[index].same(&symbol) {
        proof {
            assert(before[index as int] == symbol@);
            assert(before.to_set() =~= before.to_set().insert(symbol@));
        }
        return false;
    }
    proof {
        if index < set@.len() {
            assert(before[index as int] == set@[index as int]@);
            symbol_order_laws(before[index as int], symbol@, symbol@);
        }
        insertion_keeps_order(before, index as int, symbol@);
    }
    set.insert(index, symbol);
    proof {
        assert(symbol_models(set@) =~= before.insert(index as int, symbol@));
    }
    true
}

/// Whether a symbol is in a list.
pub fn has_symbol(symbols: &Vec<SymbolId>, symbol: &SymbolId) -> (result: bool)
    ensures
        result == symbol_models(symbols@).contains(symbol@),
{
    let mut index: usize = 0;
    while index < symbols.len()
        invariant
            index <= symbols@.len(),
            forall|k: int| 0 <= k < index ==> (#[trigger] symbols@[k])@ != symbol@,
        decreases symbols@.len() - index,
    {
        if symbols[index].same(symbol) {
            proof {
                assert(symbol_models(symbols@)[index as int] == symbol@);
            }
            return true;
        }
        index += 1;
    }
    proof {
        if symbol_models(symbols@).contains(symbol@) {
            let k = choose|k: int|
                0 <= k < symbol_models(symbols@).len() && symbol_models(symbols@)[k] == symbol@;
            assert(symbols@[k]@ == symbol@);
        }
    }
    false
}

/// A list with equal symbols.
pub fn copy_symbols(symbols: &Vec<SymbolId>) -> (result: Vec<SymbolId>)
    ensures
        symbol_models(result@) == symbol_models(symbols@),
{
    let mut result: Vec<SymbolId> = Vec::new();
    let mut index: usize = 0;
    while index < symbols.len()
        invariant
            index <= symbols@.len(),
            result@.len() == index,
            forall|k: int| 0 <= k < index ==> (#[trigger] result@[k])@ == symbols@[k]@,
        decreases symbols@.len() - index,
    {
        result.push(symbols[index].clone());
        index += 1;
    }
    proof {
        assert(symbol_models(result@) =~= symbol_models(symbols@));
    }
    result
}

/// How many paths at the front come before `path`.
pub open spec fn path_position(paths: Seq<Seq<char>>, path: Seq<char>, index: nat) -> nat
    decreases paths.len() - index,
{
    if index < paths.len() && path_less(paths[index as int], path) {
        path_position(paths, path, index + 1)
    } else {
        index
    }
}

/// An ordered set of places with one more path. Of two paths to one place the
/// first stays.
pub open spec fn with_path(paths: Seq<Seq<char>>, path: Seq<char>) -> Seq<Seq<char>> {
    let index = path_position(paths, path, 0);
    if index < paths.len() && same_place(paths[index as int], path) {
        paths
    } else {
        paths.insert(index as int, path)
    }
}

/// An ordered set of places with the first `count` of some paths added.
pub open spec fn with_paths(
    paths: Seq<Seq<char>>,
    added: Seq<Seq<char>>,
    count: nat,
) -> Seq<Seq<char>>
    decreases count,
{
    if count == 0 {
        paths
    } else {
        with_path(with_paths(paths, added, (count - 1) as nat), added[count - 1])
    }
}

/// Whether paths stand in order, each place once.
pub open spec fn paths_in_order(paths: Seq<Seq<char>>) -> bool {
    forall|i: int, j: int|
        0 <= i < j < paths.len() ==> path_less(#[trigger] paths[i], #[trigger] paths[j])
}

/// Whether a place is among some paths.
pub open spec fn has_place(paths: Seq<Seq<char>>, path: Seq<char>) -> bool {
    exists|k: int| 0 <= k < paths.len() && same_place(#[trigger] paths[k], path)
}

proof fn path_position_is_first(paths: Seq<Seq<char>>, path: Seq<char>, index: nat)
    requires
        index <= paths.len(),
    ensures
        index <= path_position(paths, path, index) <= paths.len(),
        forall|k: int|
            index <= k < path_position(paths, path, index) ==> path_less(#[trigger] paths[k], path),
        path_position(paths, path, index) < paths.len() ==> !path_less(
            paths[path_position(paths, path, index) as int],
            path,
        ),
    decreases paths.len() - index,
{
    if index < paths.len() && path_less(paths[index as int], path) {
        path_position_is_first(paths, path, index + 1);
    }
}

/// Adding a path keeps the order and adds its place and no other.
pub proof fn added_path_keeps_order(paths: Seq<Seq<char>>, path: Seq<char>)
    requires
        paths_in_order(paths),
    ensures
        paths_in_order(with_path(paths, path)),
        forall|other: Seq<char>| #[trigger] has_place(with_path(paths, path), other) == (has_place(
            paths,
            other,
        ) || same_place(path, other)),
{
    let index = path_position(paths, path, 0);
    path_position_is_first(paths, path, 0);
    let grown = with_path(paths, path);
    if index < paths.len() && same_place(paths[index as int], path) {
        assert forall|other: Seq<char>| #[trigger] has_place(grown, other) == (has_place(
            paths,
            other,
        ) || same_place(path, other)) by {
            if same_place(path, other) {
                assert(same_place(paths[index as int], other));
            }
        }
    } else {
        if index < paths.len() {
            path_order_laws(paths[index as int], path, path);
        }
        assert forall|k: int| index <= k < paths.len() implies path_less(
            path,
            #[trigger] paths[k],
        ) by {
            path_order_laws(path, paths[index as int], paths[k]);
        }
        assert forall|other: Seq<char>| #[trigger] has_place(grown, other) == (has_place(
            paths,
            other,
        ) || same_place(path, other)) by {
            assert(grown[index as int] == path);
            if has_place(grown, other) {
                let k = choose|k: int| 0 <= k < grown.len() && same_place(grown[k], other);
                if k < index {
                    assert(same_place(paths[k], other));
                } else if k > index {
                    assert(same_place(paths[k - 1], other));
                }
            }
            if has_place(paths, other) {
                let k = choose|k: int| 0 <= k < paths.len() && same_place(paths[k], other);
                if k < index {
                    assert(same_place(grown[k], other));
                } else {
                    assert(same_place(grown[k + 1], other));
                }
            }
        }
    }
}

/// Adds a path to an ordered set of places.
pub fn insert_path(paths: &mut Vec<SourcePath>, path: SourcePath)
    ensures
        path_models(final(paths)@) == with_path(path_models(old(paths)@), path@),
{
    let ghost before = path_models(paths@);
    let mut index: usize = 0;
    while index < paths.len() && paths[index].before(&path)
        invariant
            index <= paths@.len(),
            before == path_models(paths@),
            path_position(before, path@, index as nat) == path_position(before, path@, 0),
        decreases paths@.len() - index,
    {
        assert(before[index as int] == paths@[index as int]@);
        index += 1;
    }
    proof {
        if index < paths@.len() {
            assert(before[index as int] == paths@[index as int]@);
        }
    }
    if index < paths.len() && paths[index].same(&path) {
        return ;
    }
    paths.insert(index, path);
    proof {
        assert(path_models(paths@) =~= before.insert(index as int, path@));
    }
}

/// Whether strings stand in order, each once.
pub open spec fn texts_in_order(values: Seq<Seq<char>>) -> bool {
    forall|i: int, j: int|
        0 <= i < j < values.len() ==> text_less(#[trigger] values[i], #[trigger] values[j])
}

proof fn text_insertion_keeps_order(values: Seq<Seq<char>>, index: int, value: Seq<char>)
    requires
        texts_in_order(values),
        0 <= index <= values.len(),
        forall|k: int| 0 <= k < index ==> text_less(#[trigger] values[k], value),
        index < values.len() ==> text_less(value, values[index]),
    ensures
        texts_in_order(values.insert(index, value)),
        values.insert(index, value).to_set() == values.to_set().insert(value),
{
    let grown = values.insert(index, value);
    assert forall|k: int| index <= k < values.len() implies text_less(
        value,
        #[trigger] values[k],
    ) by {
        text_order_laws(value, values[index], values[k]);
    }
    assert forall|item: Seq<char>| grown.to_set().contains(item)
        == values.to_set().insert(value).contains(item) by {
        if grown.contains(item) {
            let k = choose|k: int| 0 <= k < grown.len() && grown[k] == item;
            if k < index {
                assert(values[k] == item);
            } else if k > index {
                assert(values[k - 1] == item);
            }
        }
        if values.contains(item) {
            let k = choose|k: int| 0 <= k < values.len() && values[k] == item;
            if k < index {
                assert(grown[k] == item);
            } else {
                assert(grown[k + 1] == item);
            }
        }
        assert(grown[index] == value);
    }
    assert(grown.to_set() =~= values.to_set().insert(value));
}

/// Adds a string to an ordered set.
pub fn insert_text(values: &mut Vec<String>, value: String)
    requires
        texts_in_order(texts(old(values)@)),
    ensures
        texts_in_order(texts(final(values)@)),
        texts(final(values)@).to_set() == texts(old(values)@).to_set().insert(value@),
{
    let ghost before = texts(values@);
    let mut index: usize = 0;
    while index < values.len() && comes_before(values[index].as_str(), value.as_str())
        invariant
            index <= values@.len(),
            before == texts(values@),
            forall|k: int| 0 <= k < index ==> text_less(#[trigger] before[k], value@),
        decreases values@.len() - index,
    {
        assert(before[index as int] == values@[index as int]@);
        index += 1;
    }
    if index < values.len() && same_text(values[index].as_str(), value.as_str()) {
        proof {
            assert(before[index as int] == value@);
            assert(before.to_set() =~= before.to_set().insert(value@));
        }
        return ;
    }
    proof {
        if index < values@.len() {
            assert(before[index as int] == values@[index as int]@);
            text_order_laws(before[index as int], value@, value@);
        }
        text_insertion_keeps_order(before, index as int, value@);
    }
    values.insert(index, value);
    proof {
        assert(texts(values@) =~= before.insert(index as int, value@));
    }
}

/// Whether a list is the set, in order.
pub open spec fn lists_texts(values: Seq<Seq<char>>, set: Set<Seq<char>>) -> bool {
    texts_in_order(values) && values.to_set() == set
}

/// A set of strings can be listed in order in one way only.
pub proof fn ordered_texts_are_unique(
    left: Seq<Seq<char>>,
    right: Seq<Seq<char>>,
    set: Set<Seq<char>>,
)
    requires
        lists_texts(left, set),
        lists_texts(right, set),
    ensures
        left == right,
    decreases left.len(),
{
    if left.len() == 0 {
        if right.len() > 0 {
            assert(right.to_set().contains(right[0]));
            assert(left.to_set().contains(right[0]));
        }
        assert(left =~= right);
    } else {
        assert(left.to_set().contains(left[0]));
        assert(right.to_set().contains(left[0]));
        assert(right.len() > 0);
        assert(right.to_set().contains(right[0]));
        assert(left.to_set().contains(right[0]));
        let p = choose|p: int| 0 <= p < right.len() && right[p] == left[0];
        let q = choose|q: int| 0 <= q < left.len() && left[q] == right[0];
        text_order_laws(left[0], right[0], left[0]);
        assert(left[0] == right[0]);
        let left_rest = left.skip(1);
        let right_rest = right.skip(1);
        assert forall|value: Seq<char>| left_rest.to_set().contains(value)
            == right_rest.to_set().contains(value) by {
            if left_rest.contains(value) {
                let k = choose|k: int| 0 <= k < left_rest.len() && left_rest[k] == value;
                assert(left[k + 1] == value);
                text_order_laws(left[0], value, left[0]);
                assert(left.to_set().contains(value));
                assert(right.contains(value));
                let m = choose|m: int| 0 <= m < right.len() && right[m] == value;
                assert(m > 0);
                assert(right_rest[m - 1] == value);
            }
            if right_rest.contains(value) {
                let k = choose|k: int| 0 <= k < right_rest.len() && right_rest[k] == value;
                assert(right[k + 1] == value);
                text_order_laws(right[0], value, right[0]);
                assert(right.to_set().contains(value));
                assert(left.contains(value));
                let m = choose|m: int| 0 <= m < left.len() && left[m] == value;
                assert(m > 0);
                assert(left_rest[m - 1] == value);
            }
        }
        assert(left_rest.to_set() =~= right_rest.to_set());
        ordered_texts_are_unique(left_rest, right_rest, left_rest.to_set());
        assert(left =~= seq![left[0]] + left_rest);
        assert(right =~= seq![right[0]] + right_rest);
    }
}

/// A set of symbols, listed in order.
pub open spec fn symbol_list(set: Set<SymbolModel>) -> Seq<SymbolModel> {
    choose|symbols: Seq<SymbolModel>| lists_symbols(symbols, set)
}

/// A set of strings, listed in order.
pub open spec fn text_list(set: Set<Seq<char>>) -> Seq<Seq<char>> {
    choose|values: Seq<Seq<char>>| lists_texts(values, set)
}

/// A list in order of a set is the list of that set.
pub proof fn listed_symbols(symbols: Seq<SymbolModel>, set: Set<SymbolModel>)
    requires
        lists_symbols(symbols, set),
    ensures
        symbols == symbol_list(set),
{
    ordered_lists_are_unique(symbols, symbol_list(set), set);
}

/// A list in order of a set is the list of that set.
pub proof fn listed_texts(values: Seq<Seq<char>>, set: Set<Seq<char>>)
    requires
        lists_texts(values, set),
    ensures
        values == text_list(set),
{
    ordered_texts_are_unique(values, text_list(set), set);
}

/// How many strings at the front, from `index` on, come before `value`.
pub open spec fn text_position(values: Seq<Seq<char>>, value: Seq<char>, index: nat) -> nat
    decreases values.len() - index,
{
    if index < values.len() && text_less(values[index as int], value) {
        text_position(values, value, index + 1)
    } else {
        index
    }
}

/// An ordered set of strings with one more string.
pub open spec fn with_text(values: Seq<Seq<char>>, value: Seq<char>) -> Seq<Seq<char>> {
    let place = text_position(values, value, 0) as int;
    if place < values.len() && values[place] == value {
        values
    } else if place <= values.len() {
        values.insert(place, value)
    } else {
        values
    }
}

/// An ordered set of strings with the first `count` of some more.
pub open spec fn with_texts(values: Seq<Seq<char>>, more: Seq<Seq<char>>, count: int) -> Seq<
    Seq<char>,
>
    decreases count,
{
    if count <= 0 {
        values
    } else {
        with_text(with_texts(values, more, count - 1), more[count - 1])
    }
}

proof fn text_position_is_first(values: Seq<Seq<char>>, value: Seq<char>, index: nat)
    requires
        index <= values.len(),
        forall|k: int| 0 <= k < index ==> text_less(#[trigger] values[k], value),
    ensures
        index <= text_position(values, value, index) <= values.len(),
        forall|k: int|
            0 <= k < text_position(values, value, index) ==> text_less(#[trigger] values[k], value),
        text_position(values, value, index) < values.len() ==> !text_less(
            values[text_position(values, value, index) as int],
            value,
        ),
    decreases values.len() - index,
{
    if index < values.len() && text_less(values[index as int], value) {
        text_position_is_first(values, value, index + 1);
    }
}

/// An ordered set of strings stays in order when a string is added, and holds
/// what it held and the string.
pub proof fn added_text_keeps_order(values: Seq<Seq<char>>, value: Seq<char>)
    requires
        texts_in_order(values),
    ensures
        texts_in_order(with_text(values, value)),
        with_text(values, value).to_set() == values.to_set().insert(value),
{
    text_position_is_first(values, value, 0);
    let place = text_position(values, value, 0) as int;
    if place < values.len() {
        text_order_laws(values[place], value, value);
    }
    if place < values.len() && values[place] == value {
        assert(values.to_set() =~= values.to_set().insert(value));
    } else {
        text_insertion_keeps_order(values, place, value);
    }
}

/// Adds a string to an ordered set.
pub fn add_text(values: &mut Vec<String>, value: String)
    ensures
        texts(final(values)@) == with_text(texts(old(values)@), value@),
{
    let ghost before = texts(values@);
    let mut index: usize = 0;
    while index < values.len() && comes_before(values[index].as_str(), value.as_str())
        invariant
            index <= values@.len(),
            before == texts(values@),
            text_position(before, value@, index as nat) == text_position(before, value@, 0),
        decreases values@.len() - index,
    {
        assert(before[index as int] == values@[index as int]@);
        index += 1;
    }
    proof {
        if index < values@.len() {
            assert(before[index as int] == values@[index as int]@);
        }
    }
    if index < values.len() && same_text(values[index].as_str(), value.as_str()) {
        return ;
    }
    values.insert(index, value);
    proof {
        assert(texts(values@) =~= before.insert(index as int, value@));
    }
}

/// Adds strings to an ordered set.
pub fn add_texts(values: &mut Vec<String>, more: &Vec<String>)
    ensures
        texts(final(values)@) == with_texts(texts(old(values)@), texts(more@), more@.len() as int),
{
    let ghost before = texts(values@);
    let mut index: usize = 0;
    while index < more.len()
        invariant
            index <= more@.len(),
            texts(values@) == with_texts(before, texts(more@), index as int),
        decreases more@.len() - index,
    {
        assert(texts(more@)[index as int] == more@[index as int]@);
        add_text(values, more[index].clone());
        index += 1;
    }
}

/// Whether reasons stand in order, each once.
pub open spec fn reasons_in_order(reasons: Seq<UnresolvedReason>) -> bool {
    forall|i: int, j: int|
        0 <= i < j < reasons.len() ==> reason_rank(#[trigger] reasons[i]) < reason_rank(
            #[trigger] reasons[j],
        )
}

/// How many reasons at the front, from `index` on, come before `reason`.
pub open spec fn reason_position(
    reasons: Seq<UnresolvedReason>,
    reason: UnresolvedReason,
    index: nat,
) -> nat
    decreases reasons.len() - index,
{
    if index < reasons.len() && reason_rank(reasons[index as int]) < reason_rank(reason) {
        reason_position(reasons, reason, index + 1)
    } else {
        index
    }
}

/// An ordered set of reasons with one more reason.
pub open spec fn with_reason(reasons: Seq<UnresolvedReason>, reason: UnresolvedReason) -> Seq<
    UnresolvedReason,
> {
    let place = reason_position(reasons, reason, 0) as int;
    if place < reasons.len() && reasons[place] == reason {
        reasons
    } else if place <= reasons.len() {
        reasons.insert(place, reason)
    } else {
        reasons
    }
}

/// An ordered set of reasons with the first `count` of some more.
pub open spec fn with_reasons(
    reasons: Seq<UnresolvedReason>,
    more: Seq<UnresolvedReason>,
    count: int,
) -> Seq<UnresolvedReason>
    decreases count,
{
    if count <= 0 {
        reasons
    } else {
        with_reason(with_reasons(reasons, more, count - 1), more[count - 1])
    }
}

proof fn reason_position_is_first(
    reasons: Seq<UnresolvedReason>,
    reason: UnresolvedReason,
    index: nat,
)
    requires
        index <= reasons.len(),
        forall|k: int| 0 <= k < index ==> reason_rank(#[trigger] reasons[k]) < reason_rank(reason),
    ensures
        index <= reason_position(reasons, reason, index) <= reasons.len(),
        forall|k: int|
            0 <= k < reason_position(reasons, reason, index) ==> reason_rank(#[trigger] reasons[k])
                < reason_rank(reason),
        reason_position(reasons, reason, index) < reasons.len() ==> reason_rank(
            reasons[reason_position(reasons, reason, index) as int],
        ) >= reason_rank(reason),
    decreases reasons.len() - index,
{
    if index < reasons.len() && reason_rank(reasons[index as int]) < reason_rank(reason) {
        reason_position_is_first(reasons, reason, index + 1);
    }
}

/// An ordered set of reasons stays in order when a reason is added, and holds
/// what it held and the reason.
pub proof fn added_reason_keeps_order(reasons: Seq<UnresolvedReason>, reason: UnresolvedReason)
    requires
        reasons_in_order(reasons),
    ensures
        reasons_in_order(with_reason(reasons, reason)),
        with_reason(reasons, reason).to_set() == reasons.to_set().insert(reason),
{
    reason_position_is_first(reasons, reason, 0);
    let place = reason_position(reasons, reason, 0) as int;
    if place < reasons.len() && reasons[place] == reason {
        assert(reasons.to_set() =~= reasons.to_set().insert(reason));
    } else {
        insertion_adds_item(reasons, place, reason);
        let grown = reasons.insert(place, reason);
        assert forall|i: int, j: int| 0 <= i < j < grown.len() implies reason_rank(
            #[trigger] grown[i],
        ) < reason_rank(#[trigger] grown[j]) by {
            let left = if i < place {
                i
            } else {
                i - 1
            };
            let right = if j < place {
                j
            } else {
                j - 1
            };
            if i == place {
                assert(reason_rank(reasons[place]) <= reason_rank(reasons[right]));
            } else if j == place {
                assert(reason_rank(reasons[left]) < reason_rank(reason));
            } else {
                assert(reason_rank(reasons[left]) < reason_rank(reasons[right]));
            }
        }
    }
}

/// Adds a reason to an ordered set, and says whether it was new.
pub fn add_reason(reasons: &mut Vec<UnresolvedReason>, reason: UnresolvedReason) -> (added: bool)
    ensures
        final(reasons)@ == with_reason(old(reasons)@, reason),
        added == (final(reasons)@ != old(reasons)@),
{
    let ghost before = reasons@;
    let mut index: usize = 0;
    while index < reasons.len() && reasons[index].rank() < reason.rank()
        invariant
            index <= reasons@.len(),
            before == reasons@,
            reason_position(before, reason, index as nat) == reason_position(before, reason, 0),
        decreases reasons@.len() - index,
    {
        index += 1;
    }
    if index < reasons.len() && reasons[index].rank() == reason.rank() {
        return false;
    }
    reasons.insert(index, reason);
    proof {
        assert(reasons@.len() == before.len() + 1);
    }
    true
}

/// Adds reasons to an ordered set.
pub fn add_reasons(reasons: &mut Vec<UnresolvedReason>, more: &Vec<UnresolvedReason>)
    ensures
        final(reasons)@ == with_reasons(old(reasons)@, more@, more@.len() as int),
{
    let ghost before = reasons@;
    let mut index: usize = 0;
    while index < more.len()
        invariant
            index <= more@.len(),
            reasons@ == with_reasons(before, more@, index as int),
        decreases more@.len() - index,
    {
        let added = add_reason(reasons, more[index]);
        index += 1;
    }
}

} // verus!
