//! Which functions a Rust source has: one for each function, method, default
//! method and closure that stands in it, wherever that is.
use crate::lists::{joint_items, pushed_items};
use crate::model::{AnalysisModel, FactModel, FunctionModel, SiteModel, SymbolModel};
use crate::rust::extract::{
    body_nodes, calls_in, closures_in, impl_container,
    item_function, source_analysis, with_defaults, with_function, with_item, with_items,
    with_methods,
};
use crate::rust::extract_laws::{
    closures_of_a_body_are_found, is_closure, is_path, leads_to_closures, stands_in,
};
use crate::rust::items::{
    RustFunctionModel, RustImplModel, RustItemModel, RustMemberModel,
    RustNodeModel, RustTraitModel, RustVisibility,
};
use crate::rust::lambdas::{body_closures, compact};
use crate::rust::signatures::{symbolic_call, symbolic_calls};
use vstd::prelude::*;

verus! {

/// Whether an item stands in a list of items, below some modules in a row.
pub open spec fn is_item(
    items: Seq<RustItemModel>,
    modules: Seq<RustItemModel>,
    item: RustItemModel,
) -> bool
    decreases modules.len(),
{
    if modules.len() == 0 {
        items.contains(item)
    } else {
        items.contains(modules[0]) && match modules[0] {
            RustItemModel::Module(inner) => match inner.items {
                Some(nested) => is_item(nested, modules.skip(1), item),
                None => false,
            },
            _ => false,
        }
    }
}

/// The names of some modules.
pub open spec fn module_names(modules: Seq<RustItemModel>) -> Seq<Seq<char>> {
    modules.map_values(|item: RustItemModel| item->Module_0.name)
}

/// The nodes of the body of a function, if it has one.
pub open spec fn nodes_of(function: RustFunctionModel) -> Seq<RustNodeModel> {
    match function.body {
        Some(nodes) => nodes,
        None => Seq::empty(),
    }
}

/// Whether two lists of calls stand at the same places and are written alike.
pub open spec fn same_places(left: Seq<SiteModel>, right: Seq<SiteModel>) -> bool {
    left.len() == right.len() && forall|place: int|
        #![trigger left[place]]
        #![trigger right[place]]
        0 <= place < left.len() ==> left[place].span == right[place].span && left[place].syntax
            == right[place].syntax && left[place].id == right[place].id
}

/// Whether a function is the one that is written so: it is known by its name,
/// stands where it is written, and makes the calls of its body.
pub open spec fn is_written_as(
    found: FunctionModel,
    file: Seq<char>,
    module: Seq<Seq<char>>,
    container: Option<Seq<char>>,
    function: RustFunctionModel,
    public: bool,
) -> bool {
    &&& found.id.language == "rust"@
    &&& found.id.module == module
    &&& found.id.container == container
    &&& found.id.name == function.signature.name
    &&& found.public == public
    &&& stands_in(file, function.span, found.span)
    &&& same_places(
        found.calls,
        calls_in(
            nodes_of(function),
            file,
            body_closures(nodes_of(function)),
            false,
            nodes_of(function).len(),
        ),
    )
}

proof fn symbolic_calls_stay(
    module: Seq<Seq<char>>,
    function: RustFunctionModel,
    calls: Seq<SiteModel>,
)
    ensures
        same_places(symbolic_calls(module, function.signature, calls), calls),
{
    let all = symbolic_calls(module, function.signature, calls);
    assert forall|place: int| 0 <= place < calls.len() implies (#[trigger] all[place]).span
        == calls[place].span && all[place].syntax == calls[place].syntax && all[place].id
        == calls[place].id by {
        assert(all[place] == symbolic_call(module, function.signature, calls[place]));
    }
}

proof fn functions_are_added(
    analysis: AnalysisModel,
    file: Seq<char>,
    module: Seq<Seq<char>>,
    container: Option<Seq<char>>,
    function: RustFunctionModel,
    public: bool,
    more: Seq<FactModel>,
)
    ensures
        ({
            let after = with_function(analysis, file, module, container, function, public, more);
            let found = item_function(file, module, container, function, public);
            &&& after.functions.contains(found)
            &&& is_written_as(found, file, module, container, function, public)
            &&& forall|other: FunctionModel|
                analysis.functions.contains(other) ==> #[trigger] after.functions.contains(other)
        }),
{
    let after = with_function(analysis, file, module, container, function, public, more);
    let found = item_function(file, module, container, function, public);
    let nodes = body_nodes(function);
    let closures = closures_in(
        nodes,
        file,
        module,
        found.id,
        body_closures(nodes),
        Seq::empty(),
        nodes.len(),
    );
    joint_items(analysis.functions.push(found), closures, found);
    pushed_items(analysis.functions, found, found);
    symbolic_calls_stay(
        module,
        function,
        calls_in(nodes, file, body_closures(nodes), false, nodes.len()),
    );
    assert forall|other: FunctionModel| analysis.functions.contains(
        other,
    ) implies #[trigger] after.functions.contains(other) by {
        pushed_items(analysis.functions, found, other);
        joint_items(analysis.functions.push(found), closures, other);
    }
}

/// The facts that come with a method of a type.
pub open spec fn method_facts(
    file: Seq<char>,
    module: Seq<Seq<char>>,
    item: RustImplModel,
    method: RustFunctionModel,
) -> Seq<FactModel> {
    match item.trait_path {
        Some(path) => seq![
            crate::rust::extract::trait_fact(
                file,
                module,
                impl_container(item),
                method,
                compact(path),
                compact(item.self_type),
            ),
        ],
        None => Seq::empty(),
    }
}

/// What a type that methods stand on is called.
pub open spec fn name_of_type(item: RustImplModel) -> Seq<char> {
    match item.trait_path {
        Some(path) => compact(item.self_type) + " as "@ + compact(path),
        None => compact(item.self_type),
    }
}

proof fn methods_are_added(
    analysis: AnalysisModel,
    file: Seq<char>,
    module: Seq<Seq<char>>,
    item: RustImplModel,
    count: int,
)
    requires
        count <= item.members.len(),
    ensures
        ({
            let after = with_methods(analysis, file, module, item, count);
            &&& forall|other: FunctionModel|
                analysis.functions.contains(other) ==> #[trigger] after.functions.contains(other)
            &&& forall|at: int| #![trigger item.members[at]]
                0 <= at < count && item.members[at] is Function ==> exists|found: FunctionModel|
                    #[trigger] after.functions.contains(found) && is_written_as(
                        found,
                        file,
                        module,
                        Some(name_of_type(item)),
                        item.members[at]->Function_0,
                        item.members[at]->Function_0.visibility == RustVisibility::Public
                            || item.trait_path is Some,
                    )
        }),
    decreases count,
{
    if count > 0 {
        methods_are_added(analysis, file, module, item, count - 1);
        let before = with_methods(analysis, file, module, item, count - 1);
        let after = with_methods(analysis, file, module, item, count);
        match item.members[count - 1] {
            RustMemberModel::Function(method) => {
                let public = method.visibility == RustVisibility::Public || item.trait_path is Some;
                functions_are_added(
                    before,
                    file,
                    module,
                    Some(impl_container(item)),
                    method,
                    public,
                    method_facts(file, module, item, method),
                );
                let found = item_function(
                    file,
                    module,
                    Some(impl_container(item)),
                    method,
                    public,
                );
                assert(after.functions.contains(found));
            },
            RustMemberModel::Other => {},
        }
        assert forall|at: int| #![trigger item.members[at]]
            0 <= at < count && item.members[at] is Function implies exists|found: FunctionModel|
            #[trigger] after.functions.contains(found) && is_written_as(
                found,
                file,
                module,
                Some(name_of_type(item)),
                item.members[at]->Function_0,
                item.members[at]->Function_0.visibility == RustVisibility::Public
                    || item.trait_path is Some,
            ) by {
            if at < count - 1 {
                let found = choose|found: FunctionModel| #[trigger]
                    before.functions.contains(found) && is_written_as(
                        found,
                        file,
                        module,
                        Some(name_of_type(item)),
                        item.members[at]->Function_0,
                        item.members[at]->Function_0.visibility == RustVisibility::Public
                            || item.trait_path is Some,
                    );
                assert(after.functions.contains(found));
            }
        }
    }
}

proof fn defaults_are_added(
    analysis: AnalysisModel,
    file: Seq<char>,
    module: Seq<Seq<char>>,
    item: RustTraitModel,
    count: int,
)
    requires
        count <= item.members.len(),
    ensures
        ({
            let after = with_defaults(analysis, file, module, item, count);
            &&& forall|other: FunctionModel|
                analysis.functions.contains(other) ==> #[trigger] after.functions.contains(other)
            &&& forall|at: int| #![trigger item.members[at]]
                0 <= at < count && item.members[at] is Function
                    && item.members[at]->Function_0.body is Some ==> exists|found: FunctionModel|
                    #[trigger] after.functions.contains(found) && is_written_as(
                        found,
                        file,
                        module,
                        Some(item.name),
                        item.members[at]->Function_0,
                        item.visibility == RustVisibility::Public,
                    )
        }),
    decreases count,
{
    if count > 0 {
        defaults_are_added(analysis, file, module, item, count - 1);
        let before = with_defaults(analysis, file, module, item, count - 1);
        let after = with_defaults(analysis, file, module, item, count);
        match item.members[count - 1] {
            RustMemberModel::Function(method) => {
                let public = item.visibility == RustVisibility::Public;
                if method.body is Some {
                    functions_are_added(
                        before,
                        file,
                        module,
                        Some(item.name),
                        method,
                        public,
                        Seq::empty(),
                    );
                    let found = item_function(file, module, Some(item.name), method, public);
                    assert(after.functions.contains(found));
                }
            },
            RustMemberModel::Other => {},
        }
        assert forall|at: int| #![trigger item.members[at]]
            0 <= at < count && item.members[at] is Function
                && item.members[at]->Function_0.body is Some implies exists|found: FunctionModel|
            #[trigger] after.functions.contains(found) && is_written_as(
                found,
                file,
                module,
                Some(item.name),
                item.members[at]->Function_0,
                item.visibility == RustVisibility::Public,
            ) by {
            if at < count - 1 {
                let found = choose|found: FunctionModel| #[trigger]
                    before.functions.contains(found) && is_written_as(
                        found,
                        file,
                        module,
                        Some(item.name),
                        item.members[at]->Function_0,
                        item.visibility == RustVisibility::Public,
                    );
                assert(after.functions.contains(found));
            }
        }
    }
}

proof fn items_keep_functions(
    analysis: AnalysisModel,
    file: Seq<char>,
    module: Seq<Seq<char>>,
    items: Seq<RustItemModel>,
    count: nat,
    other: FunctionModel,
)
    requires
        analysis.functions.contains(other),
    ensures
        with_items(analysis, file, module, items, count).functions.contains(other),
    decreases items, count,
{
    if count == 0 || count > items.len() {
    } else {
        items_keep_functions(analysis, file, module, items, (count - 1) as nat, other);
        let before = with_items(analysis, file, module, items, (count - 1) as nat);
        assert(decreases_to!(items => items[count - 1]));
        one_item_keeps_functions(before, file, module, items[count - 1], other);
    }
}

proof fn one_item_keeps_functions(
    analysis: AnalysisModel,
    file: Seq<char>,
    module: Seq<Seq<char>>,
    item: RustItemModel,
    other: FunctionModel,
)
    requires
        analysis.functions.contains(other),
    ensures
        with_item(analysis, file, module, item).functions.contains(other),
    decreases item, 0nat,
{
    match item {
        RustItemModel::Function(function) => {
            functions_are_added(
                analysis,
                file,
                module,
                None,
                function,
                function.visibility == RustVisibility::Public,
                Seq::empty(),
            );
        },
        RustItemModel::Impl(inner) => {
            methods_are_added(analysis, file, module, inner, inner.members.len() as int);
        },
        RustItemModel::Trait(inner) => {
            defaults_are_added(analysis, file, module, inner, inner.members.len() as int);
        },
        RustItemModel::Module(inner) => {
            match inner.items {
                Some(items) => {
                    items_keep_functions(
                        analysis,
                        file,
                        module.push(inner.name),
                        items,
                        items.len(),
                        other,
                    );
                },
                None => {},
            }
        },
        RustItemModel::Other => {},
    }
}

proof fn functions_of_an_item_stay(
    analysis: AnalysisModel,
    file: Seq<char>,
    module: Seq<Seq<char>>,
    items: Seq<RustItemModel>,
    count: nat,
    at: int,
    found: FunctionModel,
)
    requires
        0 <= at < count <= items.len(),
        with_item(
            with_items(analysis, file, module, items, at as nat),
            file,
            module,
            items[at],
        ).functions.contains(found),
    ensures
        with_items(analysis, file, module, items, count).functions.contains(found),
    decreases count,
{
    if at < count - 1 {
        functions_of_an_item_stay(
            analysis,
            file,
            module,
            items,
            (count - 1) as nat,
            at,
            found,
        );
        one_item_keeps_functions(
            with_items(analysis, file, module, items, (count - 1) as nat),
            file,
            module,
            items[count - 1],
            found,
        );
    }
}

/// What an item with functions is to be found as: the function itself, one of
/// the methods of a type, or one of those of a trait that have a body.
pub open spec fn is_found_as(
    found: FunctionModel,
    file: Seq<char>,
    module: Seq<Seq<char>>,
    item: RustItemModel,
    at: int,
) -> bool {
    match item {
        RustItemModel::Function(function) => is_written_as(
            found,
            file,
            module,
            None,
            function,
            function.visibility == RustVisibility::Public,
        ),
        RustItemModel::Impl(inner) => is_written_as(
            found,
            file,
            module,
            Some(name_of_type(inner)),
            inner.members[at]->Function_0,
            inner.members[at]->Function_0.visibility == RustVisibility::Public
                || inner.trait_path is Some,
        ),
        RustItemModel::Trait(inner) => is_written_as(
            found,
            file,
            module,
            Some(inner.name),
            inner.members[at]->Function_0,
            inner.visibility == RustVisibility::Public,
        ),
        _ => false,
    }
}

/// Whether an item has a function at a place of its members.
pub open spec fn has_function(item: RustItemModel, at: int) -> bool {
    match item {
        RustItemModel::Function(_) => true,
        RustItemModel::Impl(inner) => 0 <= at < inner.members.len()
            && inner.members[at] is Function,
        RustItemModel::Trait(inner) => 0 <= at < inner.members.len()
            && inner.members[at] is Function && inner.members[at]->Function_0.body is Some,
        _ => false,
    }
}

proof fn functions_of_items(
    analysis: AnalysisModel,
    file: Seq<char>,
    module: Seq<Seq<char>>,
    items: Seq<RustItemModel>,
    modules: Seq<RustItemModel>,
    item: RustItemModel,
    member: int,
) -> (found: FunctionModel)
    requires
        is_item(items, modules, item),
        has_function(item, member),
    ensures
        with_items(analysis, file, module, items, items.len()).functions.contains(found),
        is_found_as(found, file, module + module_names(modules), item, member),
    decreases modules.len(),
{
    if modules.len() == 0 {
        assert(module + module_names(modules) =~= module);
        let at = choose|at: int| 0 <= at < items.len() && items[at] == item;
        let before = with_items(analysis, file, module, items, at as nat);
        let after = with_item(before, file, module, item);
        let found = match item {
            RustItemModel::Function(function) => {
                let public = function.visibility == RustVisibility::Public;
                functions_are_added(before, file, module, None, function, public, Seq::empty());
                item_function(file, module, None, function, public)
            },
            RustItemModel::Impl(inner) => {
                methods_are_added(before, file, module, inner, inner.members.len() as int);
                assert(inner.members[member] is Function);
                choose|found: FunctionModel| #[trigger]
                    after.functions.contains(found) && is_found_as(
                        found,
                        file,
                        module,
                        item,
                        member,
                    )
            },
            RustItemModel::Trait(inner) => {
                defaults_are_added(before, file, module, inner, inner.members.len() as int);
                assert(inner.members[member] is Function);
                choose|found: FunctionModel| #[trigger]
                    after.functions.contains(found) && is_found_as(
                        found,
                        file,
                        module,
                        item,
                        member,
                    )
            },
            _ => arbitrary(),
        };
        functions_of_an_item_stay(analysis, file, module, items, items.len(), at, found);
        found
    } else {
        let at = choose|at: int| 0 <= at < items.len() && items[at] == modules[0];
        let inner = modules[0]->Module_0;
        let nested = inner.items->0;
        let before = with_items(analysis, file, module, items, at as nat);
        let found = functions_of_items(
            before,
            file,
            module.push(inner.name),
            nested,
            modules.skip(1),
            item,
            member,
        );
        assert(module_names(modules) =~= seq![inner.name] + module_names(modules.skip(1)));
        assert(module + module_names(modules) =~= module.push(inner.name) + module_names(
            modules.skip(1),
        ));
        functions_of_an_item_stay(analysis, file, module, items, items.len(), at, found);
        found
    }
}

/// Each function of a source is found, each method of a type, and each method
/// of a trait that has a body, below whatever modules it stands: under its
/// name, with the calls of its body.
pub proof fn functions_of_a_source_are_found(
    file: Seq<char>,
    module: Seq<Seq<char>>,
    items: Seq<RustItemModel>,
    modules: Seq<RustItemModel>,
    item: RustItemModel,
    member: int,
) -> (found: FunctionModel)
    requires
        is_item(items, modules, item),
        has_function(item, member),
    ensures
        source_analysis(file, module, items).functions.contains(found),
        is_found_as(found, file, module + module_names(modules), item, member),
{
    functions_of_items(
        AnalysisModel {
            functions: Seq::empty(),
            facts: Seq::empty(),
            source_files: crate::sets::with_path(Seq::empty(), file),
            roots: Seq::empty(),
        },
        file,
        module,
        items,
        modules,
        item,
        member,
    )
}

/// The function of an item at a place of its members.
pub open spec fn function_of(item: RustItemModel, at: int) -> RustFunctionModel {
    match item {
        RustItemModel::Function(function) => function,
        RustItemModel::Impl(inner) => inner.members[at]->Function_0,
        RustItemModel::Trait(inner) => inner.members[at]->Function_0,
        _ => arbitrary(),
    }
}

/// The closures that are found in a function.
spec fn closures_of(
    file: Seq<char>,
    module: Seq<Seq<char>>,
    owner: SymbolModel,
    function: RustFunctionModel,
) -> Seq<FunctionModel> {
    closures_in(
        nodes_of(function),
        file,
        module,
        owner,
        body_closures(nodes_of(function)),
        Seq::empty(),
        nodes_of(function).len(),
    )
}

proof fn closures_are_added(
    analysis: AnalysisModel,
    file: Seq<char>,
    module: Seq<Seq<char>>,
    container: Option<Seq<char>>,
    function: RustFunctionModel,
    public: bool,
    more: Seq<FactModel>,
    closure: FunctionModel,
)
    requires
        closures_of(
            file,
            module,
            item_function(file, module, container, function, public).id,
            function,
        ).contains(closure),
    ensures
        with_function(
            analysis,
            file,
            module,
            container,
            function,
            public,
            more,
        ).functions.contains(closure),
{
    let found = item_function(file, module, container, function, public);
    joint_items(
        analysis.functions.push(found),
        closures_of(file, module, found.id, function),
        closure,
    );
}

proof fn closures_of_methods(
    analysis: AnalysisModel,
    file: Seq<char>,
    module: Seq<Seq<char>>,
    item: RustImplModel,
    count: int,
    at: int,
    closure: FunctionModel,
)
    requires
        0 <= at < count <= item.members.len(),
        item.members[at] is Function,
        closures_of(
            file,
            module,
            SymbolModel {
                language: "rust"@,
                module,
                container: Some(name_of_type(item)),
                name: item.members[at]->Function_0.signature.name,
            },
            item.members[at]->Function_0,
        ).contains(closure),
    ensures
        with_methods(analysis, file, module, item, count).functions.contains(closure),
    decreases count,
{
    let before = with_methods(analysis, file, module, item, count - 1);
    if at < count - 1 {
        closures_of_methods(analysis, file, module, item, count - 1, at, closure);
    }
    match item.members[count - 1] {
        RustMemberModel::Function(method) => {
            let public = method.visibility == RustVisibility::Public || item.trait_path is Some;
            let facts = method_facts(file, module, item, method);
            let container = Some(impl_container(item));
            functions_are_added(before, file, module, container, method, public, facts);
            if at == count - 1 {
                closures_are_added(
                    before,
                    file,
                    module,
                    container,
                    method,
                    public,
                    facts,
                    closure,
                );
            }
        },
        RustMemberModel::Other => {},
    }
}

proof fn closures_of_defaults(
    analysis: AnalysisModel,
    file: Seq<char>,
    module: Seq<Seq<char>>,
    item: RustTraitModel,
    count: int,
    at: int,
    closure: FunctionModel,
)
    requires
        0 <= at < count <= item.members.len(),
        item.members[at] is Function,
        item.members[at]->Function_0.body is Some,
        closures_of(
            file,
            module,
            SymbolModel {
                language: "rust"@,
                module,
                container: Some(item.name),
                name: item.members[at]->Function_0.signature.name,
            },
            item.members[at]->Function_0,
        ).contains(closure),
    ensures
        with_defaults(analysis, file, module, item, count).functions.contains(closure),
    decreases count,
{
    let before = with_defaults(analysis, file, module, item, count - 1);
    if at < count - 1 {
        closures_of_defaults(analysis, file, module, item, count - 1, at, closure);
    }
    match item.members[count - 1] {
        RustMemberModel::Function(method) => {
            if method.body is Some {
                let public = item.visibility == RustVisibility::Public;
                let container = Some(item.name);
                functions_are_added(before, file, module, container, method, public, Seq::empty());
                if at == count - 1 {
                    closures_are_added(
                        before,
                        file,
                        module,
                        container,
                        method,
                        public,
                        Seq::empty(),
                        closure,
                    );
                }
            }
        },
        RustMemberModel::Other => {},
    }
}

proof fn closures_of_items(
    analysis: AnalysisModel,
    file: Seq<char>,
    module: Seq<Seq<char>>,
    items: Seq<RustItemModel>,
    modules: Seq<RustItemModel>,
    item: RustItemModel,
    member: int,
    path: Seq<RustNodeModel>,
) -> (found: FunctionModel)
    requires
        is_item(items, modules, item),
        has_function(item, member),
        is_path(nodes_of(function_of(item, member)), path),
        leads_to_closures(path),
        path.last() is Closure,
    ensures
        with_items(analysis, file, module, items, items.len()).functions.contains(found),
        is_closure(
            found,
            file,
            module + module_names(modules),
            body_closures(nodes_of(function_of(item, member))),
            path.last()->Closure_0,
        ),
    decreases modules.len(),
{
    if modules.len() == 0 {
        assert(module + module_names(modules) =~= module);
        let at = choose|at: int| 0 <= at < items.len() && items[at] == item;
        let before = with_items(analysis, file, module, items, at as nat);
        let function = function_of(item, member);
        let container = match item {
            RustItemModel::Impl(inner) => Some(name_of_type(inner)),
            RustItemModel::Trait(inner) => Some(inner.name),
            _ => None,
        };
        let owner = SymbolModel {
            language: "rust"@,
            module,
            container,
            name: function.signature.name,
        };
        let found = closures_of_a_body_are_found(
            nodes_of(function),
            file,
            module,
            owner,
            body_closures(nodes_of(function)),
            Seq::empty(),
            path,
        );
        match item {
            RustItemModel::Function(function) => {
                closures_are_added(
                    before,
                    file,
                    module,
                    None,
                    function,
                    function.visibility == RustVisibility::Public,
                    Seq::empty(),
                    found,
                );
            },
            RustItemModel::Impl(inner) => {
                closures_of_methods(
                    before,
                    file,
                    module,
                    inner,
                    inner.members.len() as int,
                    member,
                    found,
                );
            },
            RustItemModel::Trait(inner) => {
                closures_of_defaults(
                    before,
                    file,
                    module,
                    inner,
                    inner.members.len() as int,
                    member,
                    found,
                );
            },
            _ => {},
        }
        functions_of_an_item_stay(analysis, file, module, items, items.len(), at, found);
        found
    } else {
        let at = choose|at: int| 0 <= at < items.len() && items[at] == modules[0];
        let inner = modules[0]->Module_0;
        let nested = inner.items->0;
        let before = with_items(analysis, file, module, items, at as nat);
        let found = closures_of_items(
            before,
            file,
            module.push(inner.name),
            nested,
            modules.skip(1),
            item,
            member,
            path,
        );
        assert(module_names(modules) =~= seq![inner.name] + module_names(modules.skip(1)));
        assert(module + module_names(modules) =~= module.push(inner.name) + module_names(
            modules.skip(1),
        ));
        functions_of_an_item_stay(analysis, file, module, items, items.len(), at, found);
        found
    }
}

/// Each closure of each function of a source is found, with the calls of its
/// own body.
pub proof fn closures_of_a_source_are_found(
    file: Seq<char>,
    module: Seq<Seq<char>>,
    items: Seq<RustItemModel>,
    modules: Seq<RustItemModel>,
    item: RustItemModel,
    member: int,
    path: Seq<RustNodeModel>,
) -> (found: FunctionModel)
    requires
        is_item(items, modules, item),
        has_function(item, member),
        is_path(nodes_of(function_of(item, member)), path),
        leads_to_closures(path),
        path.last() is Closure,
    ensures
        source_analysis(file, module, items).functions.contains(found),
        is_closure(
            found,
            file,
            module + module_names(modules),
            body_closures(nodes_of(function_of(item, member))),
            path.last()->Closure_0,
        ),
{
    closures_of_items(
        AnalysisModel {
            functions: Seq::empty(),
            facts: Seq::empty(),
            source_files: crate::sets::with_path(Seq::empty(), file),
            roots: Seq::empty(),
        },
        file,
        module,
        items,
        modules,
        item,
        member,
        path,
    )
}

} // verus!
