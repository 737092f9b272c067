//! What the names of one OCaml source stand for in it.
use crate::lists::{copy_list, views};
use crate::model::{
    symbol_text, AnalysisModel, FactModel, FileAnalysis, FunctionInfo, FunctionModel, LanguageFact,
    SourceSpan, SpanModel, SymbolId, SymbolModel,
};
use crate::ocaml::callable::{add_symbol, with_symbol};
use crate::ocaml::symbols::{in_range, optional_symbol, span_earlier, span_is_earlier};
use crate::ocaml::syntax::node_list;
use crate::paths::{path_less, same_place, SourcePath};
use crate::spans::{contains_span, span_contains};
use crate::text::{
    comes_before, contains, contains_text, copy_texts, decimal, decimal_text, list_comes_before,
    list_less, replace_text_once, replaced_once, same_list, same_text, text_less, texts,
};
use vstd::prelude::*;

verus! {

/// What functions are grouped by: a file, a module and a name.
#[derive(Debug)]
pub struct GroupKey {
    pub file: SourcePath,
    pub module: Vec<String>,
    pub name: String,
}

#[verifier::ext_equal]
pub struct KeyModel {
    pub file: Seq<char>,
    pub module: Seq<Seq<char>>,
    pub name: Seq<char>,
}

impl View for GroupKey {
    type V = KeyModel;

    open spec fn view(&self) -> KeyModel {
        KeyModel { file: self.file@, module: texts(self.module@), name: self.name@ }
    }
}

/// Whether two keys are of one group.
pub open spec fn same_key(left: KeyModel, right: KeyModel) -> bool {
    same_place(left.file, right.file) && left.module == right.module && left.name == right.name
}

/// Whether a key comes before another: by file, module and name.
pub open spec fn key_less(left: KeyModel, right: KeyModel) -> bool {
    path_less(left.file, right.file) || (same_place(left.file, right.file) && (list_less(
        left.module,
        right.module,
    ) || (left.module == right.module && text_less(left.name, right.name))))
}

impl GroupKey {
    /// Whether two keys are of one group.
    pub fn same(&self, other: &GroupKey) -> (result: bool)
        ensures
            result == same_key(self@, other@),
    {
        self.file.same(&other.file) && same_list(&self.module, &other.module) && same_text(
            self.name.as_str(),
            other.name.as_str(),
        )
    }

    /// Whether this key comes before another: by file, module and name.
    pub fn before(&self, other: &GroupKey) -> (result: bool)
        ensures
            result == key_less(self@, other@),
    {
        self.file.before(&other.file) || (self.file.same(&other.file) && (list_comes_before(
            &self.module,
            &other.module,
        ) || (same_list(&self.module, &other.module) && comes_before(
            self.name.as_str(),
            other.name.as_str(),
        ))))
    }
}

/// How many keys at the front, from `index` on, come before `key`.
pub open spec fn key_position(keys: Seq<KeyModel>, key: KeyModel, index: nat) -> nat
    decreases keys.len() - index,
{
    if index < keys.len() && key_less(keys[index as int], key) {
        key_position(keys, key, index + 1)
    } else {
        index
    }
}

/// An ordered set of keys with one more key.
pub open spec fn with_key(keys: Seq<KeyModel>, key: KeyModel) -> Seq<KeyModel> {
    let place = key_position(keys, key, 0) as int;
    if place < keys.len() && same_key(keys[place], key) {
        keys
    } else if place <= keys.len() {
        keys.insert(place, key)
    } else {
        keys
    }
}

/// Adds a key to an ordered set.
pub fn add_key(keys: &mut Vec<GroupKey>, key: GroupKey)
    ensures
        views(final(keys)@) == with_key(views(old(keys)@), key@),
{
    let ghost before = views(keys@);
    let mut index: usize = 0;
    while index < keys.len() && keys[index].before(&key)
        invariant
            index <= keys@.len(),
            before == views(keys@),
            key_position(before, key@, index as nat) == key_position(before, key@, 0),
        decreases keys@.len() - index,
    {
        assert(before[index as int] == keys@[index as int]@);
        index += 1;
    }
    proof {
        if index < keys@.len() {
            assert(before[index as int] == keys@[index as int]@);
        }
    }
    if index < keys.len() && keys[index].same(&key) {
        return ;
    }
    let ghost model = key@;
    keys.insert(index, key);
    proof {
        assert(views(keys@) =~= before.insert(index as int, model));
    }
}

/// The group of a function.
pub open spec fn function_key(function: FunctionModel) -> KeyModel {
    KeyModel { file: function.span.file, module: function.id.module, name: function.id.name }
}

fn make_function_key(function: &FunctionInfo) -> (result: GroupKey)
    ensures
        result@ == function_key(function@),
{
    GroupKey {
        file: function.span.file.clone(),
        module: copy_texts(&function.id.module),
        name: function.id.name.clone(),
    }
}

/// The groups of the first `count` functions that are no one's part.
pub open spec fn function_keys(functions: Seq<FunctionModel>, count: int) -> Seq<KeyModel>
    decreases count,
{
    if count <= 0 {
        Seq::empty()
    } else {
        let before = function_keys(functions, count - 1);
        if functions[count - 1].id.container is None {
            with_key(before, function_key(functions[count - 1]))
        } else {
            before
        }
    }
}

fn find_function_keys(functions: &Vec<FunctionInfo>) -> (result: Vec<GroupKey>)
    ensures
        views(result@) == function_keys(views(functions@), functions@.len() as int),
{
    let mut result: Vec<GroupKey> = Vec::new();
    let mut index: usize = 0;
    proof {
        assert(views(result@) =~= Seq::empty());
    }
    while index < functions.len()
        invariant
            index <= functions@.len(),
            views(result@) == function_keys(views(functions@), index as int),
        decreases functions@.len() - index,
    {
        proof {
            assert(views(functions@)[index as int] == functions@[index as int]@);
        }
        if functions[index].id.container.is_none() {
            add_key(&mut result, make_function_key(&functions[index]));
        }
        index += 1;
    }
    result
}

/// How many of some functions, from `index` on, do not stand behind a
/// function.
pub open spec fn span_position(
    functions: Seq<FunctionModel>,
    places: Seq<int>,
    place: int,
    index: nat,
) -> nat
    decreases places.len() - index,
{
    if index < places.len() && !span_earlier(
        functions[place].span,
        functions[places[index as int]].span,
    ) {
        span_position(functions, places, place, index + 1)
    } else {
        index
    }
}

/// The functions of a group among the first `count`, in the order in which
/// they stand.
pub open spec fn group_members(functions: Seq<FunctionModel>, key: KeyModel, count: int) -> Seq<int>
    decreases count,
{
    if count <= 0 {
        Seq::empty()
    } else {
        let before = group_members(functions, key, count - 1);
        let function = functions[count - 1];
        let place = span_position(functions, before, count - 1, 0) as int;
        if function.id.container is None && same_key(function_key(function), key) && place
            <= before.len() {
            before.insert(place, count - 1)
        } else {
            before
        }
    }
}

fn find_group_members(functions: &Vec<FunctionInfo>, key: &GroupKey) -> (result: Vec<usize>)
    ensures
        node_list(result@) == group_members(
            views(functions@),
            key@,
            functions@.len() as int,
        ),
        in_range(result@, functions@.len()),
{
    let ghost model = views(functions@);
    let mut result: Vec<usize> = Vec::new();
    let mut index: usize = 0;
    proof {
        assert(node_list(result@) =~= Seq::empty());
    }
    while index < functions.len()
        invariant
            index <= functions@.len(),
            model == views(functions@),
            node_list(result@) == group_members(model, key@, index as int),
            in_range(result@, functions@.len()),
        decreases functions@.len() - index,
    {
        let function = &functions[index];
        proof {
            assert(model[index as int] == function@);
        }
        if function.id.container.is_none() && make_function_key(function).same(key) {
            let ghost before = node_list(result@);
            let mut place: usize = 0;
            while place < result.len() && !span_is_earlier(
                &function.span,
                &functions[result[place]].span,
            )
                invariant
                    place <= result@.len(),
                    index < functions@.len(),
                    function == functions@[index as int],
                    model == views(functions@),
                    model[index as int] == function@,
                    before == node_list(result@),
                    in_range(result@, functions@.len()),
                    span_position(model, before, index as int, place as nat) == span_position(
                        model,
                        before,
                        index as int,
                        0,
                    ),
                decreases result@.len() - place,
            {
                proof {
                    assert(before[place as int] == result@[place as int]);
                    assert(model[result@[place as int] as int]
                        == functions@[result@[place as int] as int]@);
                }
                place += 1;
            }
            proof {
                if place < result@.len() {
                    assert(before[place as int] == result@[place as int]);
                    assert(model[result@[place as int] as int]
                        == functions@[result@[place as int] as int]@);
                }
            }
            let ghost held = result@;
            result.insert(place, index);
            proof {
                assert(node_list(result@) =~= before.insert(place as int, index as int));
                assert forall|k: int| 0 <= k < result@.len() implies #[trigger] result@[k]
                    < functions@.len() by {
                    if k < place {
                        assert(result@[k] == held[k]);
                    } else if k > place {
                        assert(result@[k] == held[k - 1]);
                    }
                }
            }
        }
        index += 1;
    }
    result
}

/// A function that was given another identity, and where its owner stands.
#[derive(Debug)]
pub struct OcamlBindingRemap {
    pub old: SymbolId,
    pub new: SymbolId,
    pub owner_span: SourceSpan,
}

pub struct RemapModel {
    pub old: SymbolModel,
    pub new: SymbolModel,
    pub owner_span: SpanModel,
}

impl View for OcamlBindingRemap {
    type V = RemapModel;

    open spec fn view(&self) -> RemapModel {
        RemapModel { old: self.old@, new: self.new@, owner_span: self.owner_span@ }
    }
}

/// The identity that a binding of a group is given: all but the last get a
/// number.
pub open spec fn owner_id(id: SymbolModel, ordinal: nat, total: nat) -> SymbolModel {
    if ordinal + 1 == total {
        id
    } else {
        SymbolModel { name: id.name + "#binding"@ + decimal(ordinal), ..id }
    }
}

/// The identity that a function gets when its owner is given another.
pub open spec fn remapped_id(
    function: FunctionModel,
    owner: FunctionModel,
    new_owner: SymbolModel,
) -> Option<SymbolModel> {
    if !same_place(function.span.file, owner.span.file) || !contains_span(
        owner.span,
        function.span,
    ) {
        None
    } else if function.id == owner.id {
        Some(new_owner)
    } else {
        match function.id.container {
            Some(container) => if contains(container, symbol_text(owner.id)) {
                Some(
                    SymbolModel {
                        container: Some(
                            replaced_once(
                                container,
                                symbol_text(owner.id),
                                symbol_text(new_owner),
                            ),
                        ),
                        ..function.id
                    },
                )
            } else {
                None
            },
            None => None,
        }
    }
}

fn find_remapped_id(function: &FunctionInfo, owner: &FunctionInfo, new_owner: &SymbolId) -> (result:
    Option<SymbolId>)
    ensures
        optional_symbol(result) == remapped_id(function@, owner@, new_owner@),
{
    if !function.span.file.same(&owner.span.file) || !span_contains(&owner.span, &function.span) {
        return None;
    }
    if function.id.same(&owner.id) {
        return Some(new_owner.clone());
    }
    match &function.id.container {
        Some(container) => {
            let old_text = owner.id.to_text();
            if contains_text(container.as_str(), old_text.as_str()) {
                let mut id = function.id.clone();
                id.container = Some(
                    replace_text_once(
                        container.as_str(),
                        old_text.as_str(),
                        new_owner.to_text().as_str(),
                    ),
                );
                Some(id)
            } else {
                None
            }
        },
        None => None,
    }
}

/// The functions and the changes after the first `count` functions were given
/// the identities that follow from that of an owner.
pub open spec fn after_owner(
    functions: Seq<FunctionModel>,
    remaps: Seq<RemapModel>,
    owner: FunctionModel,
    new_owner: SymbolModel,
    count: int,
) -> (Seq<FunctionModel>, Seq<RemapModel>)
    decreases count,
{
    if count <= 0 {
        (functions, remaps)
    } else {
        let before = after_owner(functions, remaps, owner, new_owner, count - 1);
        let function = functions[count - 1];
        match remapped_id(function, owner, new_owner) {
            Some(id) => (
                before.0.update(count - 1, FunctionModel { id, ..function }),
                before.1.push(
                    RemapModel { old: function.id, new: id, owner_span: owner.span },
                ),
            ),
            None => before,
        }
    }
}

proof fn owners_keep_the_rest(
    functions: Seq<FunctionModel>,
    remaps: Seq<RemapModel>,
    owner: FunctionModel,
    new_owner: SymbolModel,
    count: int,
)
    requires
        count <= functions.len(),
    ensures
        after_owner(functions, remaps, owner, new_owner, count).0.len() == functions.len(),
        forall|k: int|
            count <= k < functions.len() ==> #[trigger] after_owner(
                functions,
                remaps,
                owner,
                new_owner,
                count,
            ).0[k] == functions[k],
    decreases count,
{
    if count > 0 {
        owners_keep_the_rest(functions, remaps, owner, new_owner, count - 1);
    }
}

fn rename_owner(
    functions: &mut Vec<FunctionInfo>,
    remaps: &mut Vec<OcamlBindingRemap>,
    owner: &FunctionInfo,
    new_owner: &SymbolId,
)
    ensures
        (views(final(functions)@), views(final(remaps)@)) == after_owner(
            views(old(functions)@),
            views(old(remaps)@),
            owner@,
            new_owner@,
            old(functions)@.len() as int,
        ),
        final(functions)@.len() == old(functions)@.len(),
{
    let ghost first = views(functions@);
    let ghost changes = views(remaps@);
    let length: usize = functions.len();
    let mut index: usize = 0;
    while index < length
        invariant
            index <= length,
            length == functions@.len(),
            length == first.len(),
            length == old(functions)@.len(),
            first == views(old(functions)@),
            changes == views(old(remaps)@),
            (views(functions@), views(remaps@)) == after_owner(
                first,
                changes,
                owner@,
                new_owner@,
                index as int,
            ),
        decreases length - index,
    {
        proof {
            owners_keep_the_rest(first, changes, owner@, new_owner@, index as int);
            assert(views(functions@)[index as int] == functions@[index as int]@);
            assert(functions@[index as int]@ == first[index as int]);
        }
        if let Some(id) = find_remapped_id(&functions[index], owner, new_owner) {
            let ghost before = (views(functions@), views(remaps@));
            let old_id = functions[index].id.clone();
            let mut function = functions[index].clone();
            function.id = id.clone();
            let ghost renamed = function@;
            functions.set(index, function);
            let remap = OcamlBindingRemap {
                old: old_id,
                new: id,
                owner_span: owner.span.clone(),
            };
            let ghost change = remap@;
            remaps.push(remap);
            proof {
                assert(views(functions@) =~= before.0.update(index as int, renamed));
                assert(views(remaps@) =~= before.1.push(change));
            }
        }
        index += 1;
    }
}

/// The functions and the changes after the first `count` bindings of a group
/// were told apart.
pub open spec fn after_members(
    functions: Seq<FunctionModel>,
    remaps: Seq<RemapModel>,
    members: Seq<int>,
    count: int,
) -> (Seq<FunctionModel>, Seq<RemapModel>)
    decreases count,
{
    if count <= 0 {
        (functions, remaps)
    } else {
        let before = after_members(functions, remaps, members, count - 1);
        let owner = before.0[members[count - 1]];
        after_owner(
            before.0,
            before.1,
            owner,
            owner_id(owner.id, (count - 1) as nat, members.len()),
            before.0.len() as int,
        )
    }
}

fn make_owner_id(id: &SymbolId, ordinal: usize, total: usize) -> (result: SymbolId)
    requires
        ordinal < total,
    ensures
        result@ == owner_id(id@, ordinal as nat, total as nat),
{
    let mut result = id.clone();
    if ordinal + 1 != total {
        let mut name = id.name.clone();
        name.append("#binding");
        name.append(decimal_text(ordinal).as_str());
        result.name = name;
    }
    result
}

fn rename_members(
    functions: &mut Vec<FunctionInfo>,
    remaps: &mut Vec<OcamlBindingRemap>,
    members: &Vec<usize>,
)
    requires
        in_range(members@, old(functions)@.len()),
    ensures
        (views(final(functions)@), views(final(remaps)@)) == after_members(
            views(old(functions)@),
            views(old(remaps)@),
            node_list(members@),
            members@.len() as int,
        ),
        final(functions)@.len() == old(functions)@.len(),
{
    let ghost first = (views(functions@), views(remaps@));
    let ghost nodes = node_list(members@);
    let ghost length = functions@.len();
    let mut index: usize = 0;
    proof {
        assert(nodes.len() == members@.len());
    }
    while index < members.len()
        invariant
            index <= members@.len(),
            nodes == node_list(members@),
            nodes.len() == members@.len(),
            length == functions@.len(),
            in_range(members@, length),
            (views(functions@), views(remaps@)) == after_members(
                first.0,
                first.1,
                nodes,
                index as int,
            ),
        decreases members@.len() - index,
    {
        let place: usize = members[index];
        proof {
            assert(nodes[index as int] == place);
            assert(views(functions@)[place as int] == functions@[place as int]@);
            assert(views(functions@).len() == functions@.len());
        }
        let owner = functions[place].clone();
        let new_owner = make_owner_id(&owner.id, index, members.len());
        rename_owner(functions, remaps, &owner, &new_owner);
        index += 1;
    }
}

/// The functions and the changes after the bindings of the first `count`
/// groups were told apart, as far as there are more than one.
pub open spec fn after_groups(
    functions: Seq<FunctionModel>,
    keys: Seq<KeyModel>,
    count: int,
) -> (Seq<FunctionModel>, Seq<RemapModel>)
    decreases count,
{
    if count <= 0 {
        (functions, Seq::empty())
    } else {
        let before = after_groups(functions, keys, count - 1);
        let members = group_members(functions, keys[count - 1], functions.len() as int);
        if members.len() > 1 {
            after_members(before.0, before.1, members, members.len() as int)
        } else {
            before
        }
    }
}

fn rename_groups(functions: &mut Vec<FunctionInfo>) -> (result: Vec<OcamlBindingRemap>)
    ensures
        ({
            let before = views(old(functions)@);
            let keys = function_keys(before, before.len() as int);
            (views(final(functions)@), views(result@)) == after_groups(
                before,
                keys,
                keys.len() as int,
            )
        }),
{
    let source = copy_list(functions);
    let ghost first = views(source@);
    let keys = find_function_keys(&source);
    let mut remaps: Vec<OcamlBindingRemap> = Vec::new();
    let mut index: usize = 0;
    proof {
        assert(first.len() == source@.len());
        assert(views(remaps@) =~= Seq::empty());
        assert(views(keys@).len() == keys@.len());
    }
    while index < keys.len()
        invariant
            index <= keys@.len(),
            first == views(source@),
            first.len() == source@.len(),
            functions@.len() == source@.len(),
            (views(functions@), views(remaps@)) == after_groups(
                first,
                views(keys@),
                index as int,
            ),
        decreases keys@.len() - index,
    {
        proof {
            assert(views(keys@)[index as int] == keys@[index as int]@);
        }
        let members = find_group_members(&source, &keys[index]);
        proof {
            assert(node_list(members@).len() == members@.len());
        }
        if members.len() > 1 {
            rename_members(functions, &mut remaps, &members);
        }
        index += 1;
    }
    remaps
}

/// The first change, from `index` on, of an identity: for a fact, one whose
/// owner stands around the fact.
pub open spec fn remap_place(
    remaps: Seq<RemapModel>,
    id: SymbolModel,
    span: Option<SpanModel>,
    index: int,
) -> Option<int>
    decreases remaps.len() - index,
{
    if index < 0 || index >= remaps.len() {
        None
    } else if remaps[index].old == id && match span {
        Some(span) => same_place(span.file, remaps[index].owner_span.file) && contains_span(
            remaps[index].owner_span,
            span,
        ),
        None => true,
    } {
        Some(index)
    } else {
        remap_place(remaps, id, span, index + 1)
    }
}

/// What an identity became.
pub open spec fn remapped(
    remaps: Seq<RemapModel>,
    id: SymbolModel,
    span: Option<SpanModel>,
) -> SymbolModel {
    match remap_place(remaps, id, span, 0) {
        Some(place) => remaps[place].new,
        None => id,
    }
}

fn find_remapped(remaps: &Vec<OcamlBindingRemap>, id: &SymbolId, span: Option<&SourceSpan>) -> (result:
    SymbolId)
    ensures
        result@ == remapped(
            views(remaps@),
            id@,
            crate::ocaml::symbols::optional_position(span),
        ),
{
    let ghost model = views(remaps@);
    let ghost place = crate::ocaml::symbols::optional_position(span);
    let mut index: usize = 0;
    while index < remaps.len()
        invariant
            index <= remaps@.len(),
            model == views(remaps@),
            place == crate::ocaml::symbols::optional_position(span),
            remap_place(model, id@, place, index as int) == remap_place(model, id@, place, 0),
        decreases remaps@.len() - index,
    {
        let remap = &remaps[index];
        proof {
            assert(model[index as int] == remap@);
        }
        let around = match span {
            Some(span) => span.file.same(&remap.owner_span.file) && span_contains(
                &remap.owner_span,
                span,
            ),
            None => true,
        };
        if remap.old.same(id) && around {
            return remap.new.clone();
        }
        index += 1;
    }
    id.clone()
}

/// The facts, of the functions that they now speak of.
pub open spec fn remapped_facts(facts: Seq<FactModel>, remaps: Seq<RemapModel>) -> Seq<FactModel> {
    facts.map_values(
        |fact: FactModel|
            FactModel { subject: remapped(remaps, fact.subject, Some(fact.span)), ..fact },
    )
}

/// The first `count` roots, by what they became.
pub open spec fn remapped_roots(roots: Seq<SymbolModel>, remaps: Seq<RemapModel>, count: int) -> Seq<
    SymbolModel,
>
    decreases count,
{
    if count <= 0 {
        Seq::empty()
    } else {
        with_symbol(
            remapped_roots(roots, remaps, count - 1),
            remapped(remaps, roots[count - 1], None),
        )
    }
}

/// An analysis with the bindings told apart that have one path.
pub open spec fn disambiguated(analysis: AnalysisModel) -> AnalysisModel {
    let keys = function_keys(analysis.functions, analysis.functions.len() as int);
    let (functions, remaps) = after_groups(analysis.functions, keys, keys.len() as int);
    AnalysisModel {
        functions,
        facts: remapped_facts(analysis.facts, remaps),
        roots: remapped_roots(analysis.roots, remaps, analysis.roots.len() as int),
        ..analysis
    }
}

/// Tells bindings apart that have one path: a later binding hides an earlier
/// one, and the earlier one gets a number.
pub fn disambiguate_ocaml_shadowed_bindings(analysis: &mut FileAnalysis)
    ensures
        final(analysis)@ == disambiguated(old(analysis)@),
{
    let ghost start = analysis@;
    proof {
        assert(views(analysis.functions@) =~= start.functions);
        assert(views(analysis.facts@) =~= start.facts);
        assert(views(analysis.roots@) =~= start.roots);
    }
    let remaps = rename_groups(&mut analysis.functions);
    let ghost changes = views(remaps@);
    let mut facts: Vec<LanguageFact> = Vec::new();
    let mut index: usize = 0;
    let ghost wanted = remapped_facts(start.facts, changes);
    while index < analysis.facts.len()
        invariant
            index <= analysis.facts@.len(),
            facts@.len() == index,
            changes == views(remaps@),
            start.facts == views(analysis.facts@),
            wanted == remapped_facts(start.facts, changes),
            forall|k: int| 0 <= k < index ==> (#[trigger] facts@[k])@ == wanted[k],
        decreases analysis.facts@.len() - index,
    {
        proof {
            assert(start.facts[index as int] == analysis.facts@[index as int]@);
        }
        let mut fact = analysis.facts[index].clone();
        fact.subject = find_remapped(
            &remaps,
            &analysis.facts[index].subject,
            Some(&analysis.facts[index].span),
        );
        facts.push(fact);
        index += 1;
    }
    proof {
        assert(views(facts@) =~= wanted);
    }
    let mut roots: Vec<SymbolId> = Vec::new();
    let mut next: usize = 0;
    proof {
        assert(views(roots@) =~= Seq::empty());
    }
    while next < analysis.roots.len()
        invariant
            next <= analysis.roots@.len(),
            changes == views(remaps@),
            start.roots == views(analysis.roots@),
            views(roots@) == remapped_roots(start.roots, changes, next as int),
        decreases analysis.roots@.len() - next,
    {
        proof {
            assert(start.roots[next as int] == analysis.roots@[next as int]@);
        }
        add_symbol(&mut roots, find_remapped(&remaps, &analysis.roots[next], None));
        next += 1;
    }
    proof {
        assert(start.roots.len() == analysis.roots@.len());
    }
    analysis.facts = facts;
    analysis.roots = roots;
    proof {
        assert(analysis@.functions =~= views(analysis.functions@));
        assert(analysis@.facts =~= views(analysis.facts@));
        assert(analysis@.roots =~= views(analysis.roots@));
    }
}

} // verus!
