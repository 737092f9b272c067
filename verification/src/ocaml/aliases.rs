//! Modules of OCaml sources that stand for other modules.
use crate::lists::views;
use crate::model::{
    FactModel, FunctionInfo, FunctionModel, LanguageFact, SymbolId, SymbolModel,
};
use crate::paths::some_texts;
use crate::text::{
    copy_texts, pieces, same_list, same_text, split_text, texts,
};
use vstd::prelude::*;

verus! {

/// Whether a list begins with another.
pub open spec fn list_starts_with(list: Seq<Seq<char>>, prefix: Seq<Seq<char>>) -> bool {
    prefix.len() <= list.len() && list.take(prefix.len() as int) == prefix
}

/// Whether a list begins with another.
pub fn starts_with_parts(list: &Vec<String>, prefix: &Vec<String>) -> (result: bool)
    ensures
        result == list_starts_with(texts(list@), texts(prefix@)),
{
    proof {
        assert(texts(list@).len() == list@.len());
        assert(texts(prefix@).len() == prefix@.len());
    }
    if prefix.len() > list.len() {
        return false;
    }
    let front = some_texts(list, 0, prefix.len());
    proof {
        assert(texts(list@).subrange(0, prefix@.len() as int) =~= texts(list@).take(
            prefix@.len() as int,
        ));
    }
    same_list(&front, prefix)
}

/// The strings of two lists, one list behind the other.
pub fn joined_lists(left: &Vec<String>, right: &Vec<String>) -> (result: Vec<String>)
    ensures
        texts(result@) == texts(left@) + texts(right@),
{
    let mut result = copy_texts(left);
    let mut more = copy_texts(right);
    let ghost before = texts(result@);
    let ghost added = texts(more@);
    result.append(&mut more);
    proof {
        assert(texts(result@) =~= before + added);
    }
    result
}

/// The path of the module that a fact speaks of.
pub open spec fn own_module(subject: SymbolModel) -> Seq<Seq<char>> {
    subject.module.push(subject.name)
}

/// The path of the module that a fact speaks of.
pub fn make_own_module(subject: &SymbolId) -> (result: Vec<String>)
    ensures
        texts(result@) == own_module(subject@),
{
    let mut result = copy_texts(&subject.module);
    let ghost before = texts(result@);
    result.push(subject.name.clone());
    proof {
        assert(texts(result@) =~= before.push(subject.name@));
    }
    result
}

/// Whether one of the functions is in a module.
pub open spec fn has_module(functions: Seq<FunctionModel>, module: Seq<Seq<char>>) -> bool {
    exists|k: int|
        0 <= k < functions.len() && list_starts_with((#[trigger] functions[k]).id.module, module)
}

/// Whether one of the functions is in a module.
pub fn module_exists(functions: &Vec<FunctionInfo>, module: &Vec<String>) -> (result: bool)
    ensures
        result == has_module(views(functions@), texts(module@)),
{
    let ghost model = views(functions@);
    let mut index: usize = 0;
    while index < functions.len()
        invariant
            index <= functions@.len(),
            model == views(functions@),
            forall|k: int|
                0 <= k < index ==> !list_starts_with(
                    (#[trigger] model[k]).id.module,
                    texts(module@),
                ),
        decreases functions@.len() - index,
    {
        proof {
            assert(model[index as int] == functions@[index as int]@);
        }
        if starts_with_parts(&functions[index].id.module, module) {
            return true;
        }
        index += 1;
    }
    false
}

/// The module that a path names inside a module: one below it, where there
/// are functions in that; else the module of that path.
pub open spec fn module_seen_from(
    functions: Seq<FunctionModel>,
    module: Seq<Seq<char>>,
    path: Seq<char>,
) -> Seq<Seq<char>> {
    let parts = pieces(path, "."@);
    if has_module(functions, module + parts) {
        module + parts
    } else {
        parts
    }
}

/// Finds the module that a path names inside a module.
pub fn find_module_seen_from(
    functions: &Vec<FunctionInfo>,
    module: &Vec<String>,
    path: &str,
) -> (result: Vec<String>)
    ensures
        texts(result@) == module_seen_from(views(functions@), texts(module@), path@),
{
    proof {
        reveal_strlit(".");
    }
    let parts = split_text(path, ".");
    let relative = joined_lists(module, &parts);
    if module_exists(functions, &relative) {
        relative
    } else {
        parts
    }
}

/// A module that stands for another.
#[derive(Debug)]
pub struct ModuleAlias {
    pub alias: Vec<String>,
    pub target: Vec<String>,
}

impl View for ModuleAlias {
    type V = (Seq<Seq<char>>, Seq<Seq<char>>);

    open spec fn view(&self) -> (Seq<Seq<char>>, Seq<Seq<char>>) {
        (texts(self.alias@), texts(self.target@))
    }
}

/// The modules that stand for others, by the first `count` facts.
pub open spec fn module_aliases(
    functions: Seq<FunctionModel>,
    facts: Seq<FactModel>,
    count: int,
) -> Seq<(Seq<Seq<char>>, Seq<Seq<char>>)>
    decreases count,
{
    if count <= 0 {
        Seq::empty()
    } else {
        let before = module_aliases(functions, facts, count - 1);
        let fact = facts[count - 1];
        if fact.kind == "module-alias"@ {
            before.push(
                (
                    own_module(fact.subject),
                    module_seen_from(functions, fact.subject.module, fact.value),
                ),
            )
        } else {
            before
        }
    }
}

/// Finds the modules that stand for others.
pub fn ocaml_module_aliases(functions: &Vec<FunctionInfo>, facts: &Vec<LanguageFact>) -> (result: Vec<
    ModuleAlias,
>)
    ensures
        views(result@) == module_aliases(
            views(functions@),
            views(facts@),
            facts@.len() as int,
        ),
{
    let mut result: Vec<ModuleAlias> = Vec::new();
    let mut index: usize = 0;
    proof {
        assert(views(result@) =~= Seq::empty());
    }
    while index < facts.len()
        invariant
            index <= facts@.len(),
            views(result@) == module_aliases(views(functions@), views(facts@), index as int),
        decreases facts@.len() - index,
    {
        let fact = &facts[index];
        proof {
            assert(views(facts@)[index as int] == facts@[index as int]@);
        }
        if same_text(fact.kind.as_str(), "module-alias") {
            let ghost before = views(result@);
            let entry = ModuleAlias {
                alias: make_own_module(&fact.subject),
                target: find_module_seen_from(
                    functions,
                    &fact.subject.module,
                    fact.value.as_str(),
                ),
            };
            let ghost model = entry@;
            result.push(entry);
            proof {
                assert(views(result@) =~= before.push(model));
            }
        }
        index += 1;
    }
    result
}

/// The longest of the first `count` aliases that a path begins with. Of equal
/// ones the last.
pub open spec fn longest_alias(
    aliases: Seq<(Seq<Seq<char>>, Seq<Seq<char>>)>,
    parts: Seq<Seq<char>>,
    count: int,
) -> Option<int>
    decreases count,
{
    if count <= 0 {
        None
    } else {
        let before = longest_alias(aliases, parts, count - 1);
        if !list_starts_with(parts, aliases[count - 1].0) {
            before
        } else {
            match before {
                Some(best) => if aliases[count - 1].0.len() >= aliases[best].0.len() {
                    Some(count - 1)
                } else {
                    before
                },
                None => Some(count - 1),
            }
        }
    }
}

fn find_longest_alias(aliases: &Vec<ModuleAlias>, parts: &Vec<String>) -> (result: Option<usize>)
    ensures
        match result {
            Some(place) => place < aliases@.len() && longest_alias(
                views(aliases@),
                texts(parts@),
                aliases@.len() as int,
            ) == Some(place as int) && list_starts_with(
                texts(parts@),
                views(aliases@)[place as int].0,
            ),
            None => longest_alias(
                views(aliases@),
                texts(parts@),
                aliases@.len() as int,
            ) is None,
        },
{
    let ghost model = views(aliases@);
    let mut best: Option<usize> = None;
    let mut index: usize = 0;
    while index < aliases.len()
        invariant
            index <= aliases@.len(),
            model == views(aliases@),
            match best {
                Some(place) => place < aliases@.len() && longest_alias(
                    model,
                    texts(parts@),
                    index as int,
                ) == Some(place as int) && list_starts_with(texts(parts@), model[place as int].0),
                None => longest_alias(model, texts(parts@), index as int) is None,
            },
        decreases aliases@.len() - index,
    {
        proof {
            assert(model[index as int] == aliases@[index as int]@);
            assert(model[index as int].0.len() == aliases@[index as int].alias@.len());
        }
        if starts_with_parts(parts, &aliases[index].alias) {
            match best {
                Some(other) => {
                    proof {
                        assert(model[other as int] == aliases@[other as int]@);
                        assert(model[other as int].0.len() == aliases@[other as int].alias@.len());
                    }
                    if aliases[index].alias.len() >= aliases[other].alias.len() {
                        best = Some(index);
                    }
                },
                None => {
                    best = Some(index);
                },
            }
        }
        index += 1;
    }
    best
}

/// Whether an alias is among those that were put in place.
pub open spec fn was_used(
    aliases: Seq<(Seq<Seq<char>>, Seq<Seq<char>>)>,
    used: Seq<int>,
    alias: Seq<Seq<char>>,
) -> bool {
    exists|k: int| 0 <= k < used.len() && aliases[#[trigger] used[k]].0 == alias
}

/// A path, with aliases that it begins with put in place: the longest first,
/// each once, and no more than `steps`.
pub open spec fn expanded_from(
    aliases: Seq<(Seq<Seq<char>>, Seq<Seq<char>>)>,
    parts: Seq<Seq<char>>,
    used: Seq<int>,
    steps: nat,
) -> (Seq<Seq<char>>, Seq<int>)
    decreases steps,
{
    if steps == 0 {
        (parts, used)
    } else {
        match longest_alias(aliases, parts, aliases.len() as int) {
            None => (parts, used),
            Some(place) => if was_used(aliases, used, aliases[place].0) {
                (parts, used)
            } else {
                expanded_from(
                    aliases,
                    aliases[place].1 + parts.skip(aliases[place].0.len() as int),
                    used.push(place),
                    (steps - 1) as nat,
                )
            },
        }
    }
}

/// A path with every alias that it begins with put in place, each once. None
/// where it begins with none. There are no more steps than aliases, as each is
/// taken once.
pub open spec fn expanded(
    aliases: Seq<(Seq<Seq<char>>, Seq<Seq<char>>)>,
    parts: Seq<Seq<char>>,
) -> Option<Seq<Seq<char>>> {
    let (path, used) = expanded_from(aliases, parts, Seq::empty(), aliases.len());
    if used.len() > 0 {
        Some(path)
    } else {
        None
    }
}

/// One step more than there are aliases changes nothing: each alias is put in
/// place once.
pub proof fn expansion_ends(
    aliases: Seq<(Seq<Seq<char>>, Seq<Seq<char>>)>,
    parts: Seq<Seq<char>>,
    used: Seq<int>,
    steps: nat,
)
    requires
        used.len() + steps >= aliases.len(),
        forall|k: int| 0 <= k < used.len() ==> 0 <= #[trigger] used[k] < aliases.len(),
        used.no_duplicates(),
    ensures
        expanded_from(aliases, parts, used, steps) == expanded_from(
            aliases,
            parts,
            used,
            steps + 1,
        ),
    decreases steps,
{
    longest_alias_is_in_range(aliases, parts, aliases.len() as int);
    match longest_alias(aliases, parts, aliases.len() as int) {
        None => {},
        Some(place) => {
            if was_used(aliases, used, aliases[place].0) {
            } else {
                let next = used.push(place);
                assert forall|k: int| 0 <= k < used.len() implies #[trigger] used[k] != place by {
                    if used[k] == place {
                        assert(aliases[used[k]].0 == aliases[place].0);
                    }
                }
                if steps == 0 {
                    all_places_are_used(next, aliases.len());
                } else {
                    expansion_ends(
                        aliases,
                        aliases[place].1 + parts.skip(aliases[place].0.len() as int),
                        next,
                        (steps - 1) as nat,
                    );
                }
            }
        },
    }
}

proof fn longest_alias_is_in_range(
    aliases: Seq<(Seq<Seq<char>>, Seq<Seq<char>>)>,
    parts: Seq<Seq<char>>,
    count: int,
)
    requires
        count <= aliases.len(),
    ensures
        match longest_alias(aliases, parts, count) {
            Some(place) => 0 <= place < count,
            None => true,
        },
    decreases count,
{
    if count > 0 {
        longest_alias_is_in_range(aliases, parts, count - 1);
    }
}

/// Different places below a length are no more than the length.
proof fn all_places_are_used(places: Seq<int>, length: nat)
    requires
        forall|k: int| 0 <= k < places.len() ==> 0 <= #[trigger] places[k] < length,
        places.no_duplicates(),
    ensures
        places.len() <= length,
{
    let set = places.to_set();
    places.unique_seq_to_set();
    vstd::set_lib::lemma_int_range(0, length as int);
    assert(set.subset_of(vstd::set_lib::set_int_range(0, length as int))) by {
        assert forall|place: int| set.contains(place) implies vstd::set_lib::set_int_range(
            0,
            length as int,
        ).contains(place) by {
            let k = choose|k: int| 0 <= k < places.len() && places[k] == place;
            assert(places[k] == place);
        }
    }
    vstd::set_lib::lemma_len_subset(set, vstd::set_lib::set_int_range(0, length as int));
}

fn is_used(aliases: &Vec<ModuleAlias>, used: &Vec<usize>, alias: &Vec<String>) -> (result: bool)
    requires
        forall|k: int| 0 <= k < used@.len() ==> #[trigger] used@[k] < aliases@.len(),
    ensures
        result == was_used(
            views(aliases@),
            used@.map_values(|place: usize| place as int),
            texts(alias@),
        ),
{
    let ghost places = used@.map_values(|place: usize| place as int);
    let mut index: usize = 0;
    while index < used.len()
        invariant
            index <= used@.len(),
            places == used@.map_values(|place: usize| place as int),
            forall|k: int| 0 <= k < used@.len() ==> #[trigger] used@[k] < aliases@.len(),
            forall|k: int|
                0 <= k < index ==> views(aliases@)[#[trigger] places[k]].0 != texts(alias@),
        decreases used@.len() - index,
    {
        let place: usize = used[index];
        proof {
            assert(places[index as int] == place);
            assert(views(aliases@)[place as int] == aliases@[place as int]@);
        }
        if same_list(&aliases[place].alias, alias) {
            return true;
        }
        index += 1;
    }
    false
}

/// The model of an optional path.
pub open spec fn optional_texts(parts: Option<Vec<String>>) -> Option<Seq<Seq<char>>> {
    match parts {
        Some(parts) => Some(texts(parts@)),
        None => None,
    }
}

/// Puts every alias that a path begins with in place, each once.
pub fn expand_ocaml_module_alias(parts: &Vec<String>, aliases: &Vec<ModuleAlias>) -> (result: Option<
    Vec<String>,
>)
    ensures
        optional_texts(result) == expanded(views(aliases@), texts(parts@)),
{
    let ghost model = views(aliases@);
    let ghost whole = expanded_from(model, texts(parts@), Seq::empty(), model.len());
    let mut path = copy_texts(parts);
    let mut used: Vec<usize> = Vec::new();
    let mut steps: usize = aliases.len();
    proof {
        assert(model.len() == aliases@.len());
        assert(used@.map_values(|place: usize| place as int) =~= Seq::<int>::empty());
    }
    while steps > 0
        invariant
            model == views(aliases@),
            model.len() == aliases@.len(),
            forall|k: int| 0 <= k < used@.len() ==> #[trigger] used@[k] < aliases@.len(),
            expanded_from(
                model,
                texts(path@),
                used@.map_values(|place: usize| place as int),
                steps as nat,
            ) == whole,
        ensures
            (texts(path@), used@.map_values(|place: usize| place as int)) == whole,
        decreases steps,
    {
        let ghost before = used@.map_values(|place: usize| place as int);
        let place = match find_longest_alias(aliases, &path) {
            Some(place) => place,
            None => {
                break ;
            },
        };
        proof {
            assert(model[place as int] == aliases@[place as int]@);
            assert(texts(path@).len() == path@.len());
        }
        let entry = &aliases[place];
        if is_used(aliases, &used, &entry.alias) {
            break ;
        }
        let rest = some_texts(&path, entry.alias.len(), path.len());
        proof {
            assert(texts(entry.alias@).len() == entry.alias@.len());
            assert(texts(path@).subrange(entry.alias@.len() as int, path@.len() as int)
                =~= texts(path@).skip(entry.alias@.len() as int));
        }
        path = joined_lists(&entry.target, &rest);
        used.push(place);
        proof {
            assert(used@.map_values(|place: usize| place as int) =~= before.push(place as int));
        }
        steps -= 1;
    }
    proof {
        assert(used@.map_values(|place: usize| place as int).len() == used@.len());
    }
    if used.len() > 0 {
        Some(path)
    } else {
        None
    }
}

} // verus!
