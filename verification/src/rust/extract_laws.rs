//! Which calls a Rust function makes as its source tells it, and which
//! functions a source has: all that stand there, and no others.
use crate::lists::{joint_items, pushed_items};
use crate::model::{
    FunctionModel, SiteModel, SpanModel, SymbolModel, SyntaxModel, TargetModel,
};
use crate::rust::extract::{
    call_syntax, call_text, calls_in, calls_in_node, closure_function, closures_in,
    closures_in_node, method_syntax, method_text,
};
use crate::rust::items::{RustClosureModel, RustNodeModel, RustSpan};
use crate::rust::lambdas::SourceModel;
use vstd::prelude::*;

verus! {

/// What stands in a node of a body.
pub open spec fn parts_of(node: RustNodeModel) -> Seq<RustNodeModel> {
    match node {
        RustNodeModel::Call(call) => call.inner,
        RustNodeModel::Method(call) => call.inner,
        RustNodeModel::Closure(closure) => closure.head + closure.body,
        RustNodeModel::Local(local) => local.inner,
        RustNodeModel::Macro(inner) => match inner.expressions {
            Some(expressions) => expressions,
            None => Seq::empty(),
        },
        RustNodeModel::Function(inner) => inner,
    }
}

/// Whether a macro runs what it is given, as far as its name tells.
pub open spec fn runs_arguments(name: Seq<char>) -> bool {
    ||| name == "vec"@ || name == "format"@ || name == "format_args"@
    ||| name == "print"@ || name == "println"@ || name == "eprint"@ || name == "eprintln"@
    ||| name == "write"@ || name == "writeln"@ || name == "panic"@ || name == "dbg"@
    ||| name == "assert"@ || name == "assert_eq"@ || name == "assert_ne"@
    ||| name == "debug_assert"@ || name == "debug_assert_eq"@ || name == "debug_assert_ne"@
}

/// Whether what stands in a node runs with it: not in a closure, nor in a
/// function in a function, nor in a macro that is not known to run it.
pub open spec fn runs_its_parts(node: RustNodeModel) -> bool {
    match node {
        RustNodeModel::Closure(_) => false,
        RustNodeModel::Function(_) => false,
        RustNodeModel::Macro(inner) => inner.path.len() > 0 && runs_arguments(inner.path.last()),
        _ => true,
    }
}

/// Whether nodes lead from a body to one of the nodes in it, each standing in
/// the one in front.
pub open spec fn is_path(nodes: Seq<RustNodeModel>, path: Seq<RustNodeModel>) -> bool {
    path.len() > 0 && nodes.contains(path[0]) && forall|step: int|
        1 <= step < path.len() ==> parts_of(path[step - 1]).contains(#[trigger] path[step])
}

/// Whether the last of some nodes runs with the body that they lead from.
pub open spec fn is_run(path: Seq<RustNodeModel>) -> bool {
    forall|step: int| 0 <= step < path.len() - 1 ==> runs_its_parts(#[trigger] path[step])
}

/// Whether nodes lead through a macro.
pub open spec fn is_in_macro(path: Seq<RustNodeModel>) -> bool {
    exists|step: int| 0 <= step < path.len() - 1 && (#[trigger] path[step]) is Macro
}

/// How a call is known that a compiler has to confirm, or not.
pub open spec fn known_as(syntax: SyntaxModel, confirmed: bool) -> SyntaxModel {
    if confirmed {
        SyntaxModel::CompilerConfirmed(Box::new(syntax))
    } else {
        syntax
    }
}

/// Where a stretch of a source stands in its file.
pub open spec fn stands_in(file: Seq<char>, span: RustSpan, place: SpanModel) -> bool {
    &&& place.file == file
    &&& place.start_line == span.start_line
    &&& place.start_column == span.start_column
    &&& place.end_column == span.end_column
    &&& place.end_line == if span.end_line < span.start_line {
        span.start_line
    } else {
        span.end_line
    }
}

/// Whether a site is a call of a body that is written so, or a call of a method.
pub open spec fn is_site_of(
    node: RustNodeModel,
    file: Seq<char>,
    sources: Seq<SourceModel>,
    hidden: bool,
    site: SiteModel,
) -> bool {
    &&& site.target == TargetModel::Unresolved
    &&& match node {
        RustNodeModel::Call(call) => {
            &&& stands_in(file, call.span, site.span)
            &&& site.syntax == known_as(call_syntax(call, sources), hidden)
            &&& site.label.default == call_text(call, sources)
        },
        RustNodeModel::Method(call) => {
            &&& stands_in(file, call.span, site.span)
            &&& site.syntax == known_as(method_syntax(call), hidden)
            &&& site.label.default == method_text(call, sources)
        },
        _ => false,
    }
}

proof fn calls_of_a_node_are_kept(
    nodes: Seq<RustNodeModel>,
    file: Seq<char>,
    sources: Seq<SourceModel>,
    hidden: bool,
    count: nat,
    at: int,
    site: SiteModel,
)
    requires
        0 <= at < count <= nodes.len(),
        calls_in_node(nodes[at], file, sources, hidden).contains(site),
    ensures
        calls_in(nodes, file, sources, hidden, count).contains(site),
    decreases count,
{
    let before = calls_in(nodes, file, sources, hidden, (count - 1) as nat);
    joint_items(before, calls_in_node(nodes[count - 1], file, sources, hidden), site);
    if at < count - 1 {
        calls_of_a_node_are_kept(
            nodes,
            file,
            sources,
            hidden,
            (count - 1) as nat,
            at,
            site,
        );
    }
}

/// Each call and each method call that runs with a body is one of its calls,
/// wherever in it it stands: in an argument, in a `let`, or in a macro that
/// runs its arguments, where a compiler has to confirm it.
pub proof fn calls_of_a_body_are_found(
    nodes: Seq<RustNodeModel>,
    file: Seq<char>,
    sources: Seq<SourceModel>,
    hidden: bool,
    path: Seq<RustNodeModel>,
) -> (site: SiteModel)
    requires
        is_path(nodes, path),
        is_run(path),
        path.last() is Call || path.last() is Method,
    ensures
        calls_in(nodes, file, sources, hidden, nodes.len()).contains(site),
        is_site_of(path.last(), file, sources, hidden || is_in_macro(path), site),
    decreases path.len(),
{
    let node = path[0];
    let at = choose|at: int| 0 <= at < nodes.len() && nodes[at] == node;
    let own = calls_in_node(node, file, sources, hidden);
    if path.len() == 1 {
        let site = own.last();
        assert(own[own.len() - 1] == site);
        assert(own.contains(site));
        calls_of_a_node_are_kept(nodes, file, sources, hidden, nodes.len(), at, site);
        assert(!is_in_macro(path));
        site
    } else {
        let rest = path.skip(1);
        assert(rest[0] == path[1]);
        assert forall|step: int| 1 <= step < rest.len() implies parts_of(rest[step - 1]).contains(
            #[trigger] rest[step],
        ) by {
            assert(rest[step] == path[step + 1]);
        }
        assert forall|step: int| 0 <= step < rest.len() - 1 implies runs_its_parts(
            #[trigger] rest[step],
        ) by {
            assert(rest[step] == path[step + 1]);
        }
        assert(runs_its_parts(node));
        assert(rest.last() == path.last());
        let inner_hidden = hidden || node is Macro;
        let site = calls_of_a_body_are_found(parts_of(node), file, sources, inner_hidden, rest);
        let inner = calls_in(parts_of(node), file, sources, inner_hidden, parts_of(node).len());
        match node {
            RustNodeModel::Call(_) => {
                pushed_items(inner, own.last(), site);
                assert(own =~= inner.push(own.last()));
            },
            RustNodeModel::Method(_) => {
                pushed_items(inner, own.last(), site);
                assert(own =~= inner.push(own.last()));
            },
            _ => {},
        }
        calls_of_a_node_are_kept(nodes, file, sources, hidden, nodes.len(), at, site);
        if is_in_macro(rest) {
            let step = choose|step: int| 0 <= step < rest.len() - 1 && (#[trigger] rest[step]) is Macro;
            assert(path[step + 1] is Macro);
        }
        if is_in_macro(path) && !(node is Macro) {
            let step = choose|step: int| 0 <= step < path.len() - 1 && (#[trigger] path[step]) is Macro;
            assert(rest[step - 1] is Macro);
        }
        site
    }
}

proof fn longer_path(
    nodes: Seq<RustNodeModel>,
    node: RustNodeModel,
    rest: Seq<RustNodeModel>,
)
    requires
        nodes.contains(node),
        is_path(parts_of(node), rest),
        is_run(rest),
        runs_its_parts(node),
    ensures
        is_path(nodes, seq![node] + rest),
        is_run(seq![node] + rest),
        (seq![node] + rest).last() == rest.last(),
        is_in_macro(seq![node] + rest) == (node is Macro || is_in_macro(rest)),
{
    let path = seq![node] + rest;
    assert forall|step: int| 1 <= step < path.len() implies parts_of(path[step - 1]).contains(
        #[trigger] path[step],
    ) by {
        assert(path[step] == rest[step - 1]);
        if step > 1 {
            assert(path[step - 1] == rest[step - 2]);
        }
    }
    assert forall|step: int| 0 <= step < path.len() - 1 implies runs_its_parts(
        #[trigger] path[step],
    ) by {
        if step > 0 {
            assert(path[step] == rest[step - 1]);
        }
    }
    if node is Macro {
        assert(path[0] is Macro);
    }
    if is_in_macro(rest) {
        let step = choose|step: int| 0 <= step < rest.len() - 1 && (#[trigger] rest[step]) is Macro;
        assert(path[step + 1] is Macro);
    }
    if is_in_macro(path) && !(node is Macro) {
        let step = choose|step: int| 0 <= step < path.len() - 1 && (#[trigger] path[step]) is Macro;
        assert(rest[step - 1] is Macro);
    }
}

/// A body makes no other calls than those that stand in it and run with it.
pub proof fn calls_of_a_body_stand_in_it(
    nodes: Seq<RustNodeModel>,
    file: Seq<char>,
    sources: Seq<SourceModel>,
    hidden: bool,
    site: SiteModel,
    count: nat,
) -> (path: Seq<RustNodeModel>)
    requires
        count <= nodes.len(),
        calls_in(nodes, file, sources, hidden, count).contains(site),
    ensures
        is_path(nodes, path),
        is_run(path),
        is_site_of(path.last(), file, sources, hidden || is_in_macro(path), site),
    decreases nodes, count,
{
    if count == 0 {
        arbitrary()
    } else {
        let node = nodes[count - 1];
        let own = calls_in_node(node, file, sources, hidden);
        let before = calls_in(nodes, file, sources, hidden, (count - 1) as nat);
        joint_items(before, own, site);
        if before.contains(site) {
            calls_of_a_body_stand_in_it(nodes, file, sources, hidden, site, (count - 1) as nat)
        } else {
            assert(nodes.contains(node));
            let inner_hidden = hidden || node is Macro;
            let inner = calls_in(
                parts_of(node),
                file,
                sources,
                inner_hidden,
                parts_of(node).len(),
            );
            let own_call = node is Call || node is Method;
            if own_call {
                assert(own =~= inner.push(own.last()));
                pushed_items(inner, own.last(), site);
            }
            if own_call && site == own.last() {
                let path = seq![node];
                assert(!is_in_macro(path));
                path
            } else {
                assert(runs_its_parts(node));
                assert(inner.contains(site));
                assert(decreases_to!(nodes => node));
                match node {
                    RustNodeModel::Call(call) => {
                        assert(decreases_to!(node => call.inner));
                    },
                    RustNodeModel::Method(call) => {
                        assert(decreases_to!(node => call.inner));
                    },
                    RustNodeModel::Local(local) => {
                        assert(decreases_to!(node => local.inner));
                    },
                    RustNodeModel::Macro(inner) => {
                        assert(decreases_to!(node => inner.expressions));
                    },
                    _ => {},
                }
                let rest = calls_of_a_body_stand_in_it(
                    parts_of(node),
                    file,
                    sources,
                    inner_hidden,
                    site,
                    parts_of(node).len(),
                );
                longer_path(nodes, node, rest);
                seq![node] + rest
            }
        }
    }
}

/// Whether the closures in a node are those of its function: not in a function
/// in a function, nor in a macro that is not known to run what it is given.
pub open spec fn holds_closures(node: RustNodeModel) -> bool {
    match node {
        RustNodeModel::Function(_) => false,
        RustNodeModel::Macro(inner) => inner.path.len() > 0 && runs_arguments(inner.path.last()),
        _ => true,
    }
}

/// Whether nodes lead to a node whose closures are those of the function.
pub open spec fn leads_to_closures(path: Seq<RustNodeModel>) -> bool {
    forall|step: int| 0 <= step < path.len() - 1 ==> holds_closures(#[trigger] path[step])
}

/// Whether a function is the one that a closure is: it stands where the closure
/// stands, can be called from nowhere else, and makes the calls of its body.
pub open spec fn is_closure(
    found: FunctionModel,
    file: Seq<char>,
    module: Seq<Seq<char>>,
    sources: Seq<SourceModel>,
    closure: RustClosureModel,
) -> bool {
    &&& stands_in(file, closure.span, found.span)
    &&& found.id.language == "rust"@
    &&& found.id.module == module
    &&& found.id.container is Some
    &&& !found.public
    &&& found.calls == calls_in(closure.body, file, sources, false, closure.body.len())
}

proof fn found_closures_stay(
    nodes: Seq<RustNodeModel>,
    file: Seq<char>,
    module: Seq<Seq<char>>,
    owner: SymbolModel,
    sources: Seq<SourceModel>,
    found: Seq<FunctionModel>,
    count: nat,
    function: FunctionModel,
)
    requires
        found.contains(function),
    ensures
        closures_in(nodes, file, module, owner, sources, found, count).contains(function),
    decreases nodes, count,
{
    if count == 0 || count > nodes.len() {
    } else {
        found_closures_stay(
            nodes,
            file,
            module,
            owner,
            sources,
            found,
            (count - 1) as nat,
            function,
        );
        let before = closures_in(
            nodes,
            file,
            module,
            owner,
            sources,
            found,
            (count - 1) as nat,
        );
        assert(decreases_to!(nodes => nodes[count - 1]));
        found_closures_stay_in_node(
            nodes[count - 1],
            file,
            module,
            owner,
            sources,
            before,
            function,
        );
    }
}

proof fn found_closures_stay_in_node(
    node: RustNodeModel,
    file: Seq<char>,
    module: Seq<Seq<char>>,
    owner: SymbolModel,
    sources: Seq<SourceModel>,
    found: Seq<FunctionModel>,
    function: FunctionModel,
)
    requires
        found.contains(function),
    ensures
        closures_in_node(node, file, module, owner, sources, found).contains(function),
    decreases node, 0nat,
{
    match node {
        RustNodeModel::Closure(closure) => {
            let own = closure_function(closure, file, module, owner, sources, found.len());
            let head = closures_in(
                closure.head,
                file,
                module,
                own.id,
                sources,
                Seq::empty(),
                closure.head.len(),
            );
            let inner = closures_in(
                closure.body,
                file,
                module,
                own.id,
                sources,
                head,
                closure.body.len(),
            );
            pushed_items(found, own, function);
            joint_items(found.push(own), inner, function);
        },
        RustNodeModel::Call(call) => {
            let count = call.inner.len();
            found_closures_stay(
                call.inner,
                file,
                module,
                owner,
                sources,
                found,
                count,
                function,
            );
        },
        RustNodeModel::Method(call) => {
            let count = call.inner.len();
            found_closures_stay(
                call.inner,
                file,
                module,
                owner,
                sources,
                found,
                count,
                function,
            );
        },
        RustNodeModel::Local(local) => {
            let count = local.inner.len();
            found_closures_stay(
                local.inner,
                file,
                module,
                owner,
                sources,
                found,
                count,
                function,
            );
        },
        RustNodeModel::Macro(inner) => {
            match inner.expressions {
                Some(expressions) => {
                    found_closures_stay(
                        expressions,
                        file,
                        module,
                        owner,
                        sources,
                        found,
                        expressions.len(),
                        function,
                    );
                },
                None => {},
            }
        },
        RustNodeModel::Function(_) => {},
    }
}

proof fn closures_of_a_node_are_kept(
    nodes: Seq<RustNodeModel>,
    file: Seq<char>,
    module: Seq<Seq<char>>,
    owner: SymbolModel,
    sources: Seq<SourceModel>,
    found: Seq<FunctionModel>,
    count: nat,
    at: int,
    function: FunctionModel,
)
    requires
        0 <= at < count <= nodes.len(),
        closures_in_node(
            nodes[at],
            file,
            module,
            owner,
            sources,
            closures_in(nodes, file, module, owner, sources, found, at as nat),
        ).contains(function),
    ensures
        closures_in(nodes, file, module, owner, sources, found, count).contains(function),
    decreases count,
{
    if at < count - 1 {
        closures_of_a_node_are_kept(
            nodes,
            file,
            module,
            owner,
            sources,
            found,
            (count - 1) as nat,
            at,
            function,
        );
        found_closures_stay_in_node(
            nodes[count - 1],
            file,
            module,
            owner,
            sources,
            closures_in(nodes, file, module, owner, sources, found, (count - 1) as nat),
            function,
        );
    }
}

/// Each closure in a body is a function, wherever it stands: in an argument, in
/// a `let`, in another closure, or in a macro that runs what it is given.
pub proof fn closures_of_a_body_are_found(
    nodes: Seq<RustNodeModel>,
    file: Seq<char>,
    module: Seq<Seq<char>>,
    owner: SymbolModel,
    sources: Seq<SourceModel>,
    found: Seq<FunctionModel>,
    path: Seq<RustNodeModel>,
) -> (function: FunctionModel)
    requires
        is_path(nodes, path),
        leads_to_closures(path),
        path.last() is Closure,
    ensures
        closures_in(nodes, file, module, owner, sources, found, nodes.len()).contains(function),
        is_closure(function, file, module, sources, path.last()->Closure_0),
    decreases path.len(),
{
    let node = path[0];
    let at = choose|at: int| 0 <= at < nodes.len() && nodes[at] == node;
    let before = closures_in(nodes, file, module, owner, sources, found, at as nat);
    let rest = path.skip(1);
    if path.len() > 1 {
        assert(rest[0] == path[1]);
        assert forall|step: int| 1 <= step < rest.len() implies parts_of(rest[step - 1]).contains(
            #[trigger] rest[step],
        ) by {
            assert(rest[step] == path[step + 1]);
        }
        assert forall|step: int| 0 <= step < rest.len() - 1 implies holds_closures(
            #[trigger] rest[step],
        ) by {
            assert(rest[step] == path[step + 1]);
        }
        assert(holds_closures(node));
        assert(rest.last() == path.last());
    }
    let function = match node {
        RustNodeModel::Closure(closure) => {
            let own = closure_function(closure, file, module, owner, sources, before.len());
            let none = Seq::<FunctionModel>::empty();
            let head = closures_in(
                closure.head,
                file,
                module,
                own.id,
                sources,
                none,
                closure.head.len(),
            );
            let inner = closures_in(
                closure.body,
                file,
                module,
                own.id,
                sources,
                head,
                closure.body.len(),
            );
            if path.len() == 1 {
                pushed_items(before, own, own);
                joint_items(before.push(own), inner, own);
                own
            } else {
                joint_items(closure.head, closure.body, rest[0]);
                let deeper = if closure.head.contains(rest[0]) {
                    let deeper = closures_of_a_body_are_found(
                        closure.head,
                        file,
                        module,
                        own.id,
                        sources,
                        none,
                        rest,
                    );
                    found_closures_stay(
                        closure.body,
                        file,
                        module,
                        own.id,
                        sources,
                        head,
                        closure.body.len(),
                        deeper,
                    );
                    deeper
                } else {
                    closures_of_a_body_are_found(
                        closure.body,
                        file,
                        module,
                        own.id,
                        sources,
                        head,
                        rest,
                    )
                };
                joint_items(before.push(own), inner, deeper);
                deeper
            }
        },
        _ => closures_of_a_body_are_found(
            parts_of(node),
            file,
            module,
            owner,
            sources,
            before,
            rest,
        ),
    };
    closures_of_a_node_are_kept(
        nodes,
        file,
        module,
        owner,
        sources,
        found,
        nodes.len(),
        at,
        function,
    );
    function
}

} // verus!
