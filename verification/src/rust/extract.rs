//! The call graph of a Rust source, as far as its text tells it.
use crate::lists::views;
use crate::model::{
    path_models, symbol_parts, AnalysisModel, CallLabel, CallSite, CallSiteId, CallSyntax,
    CallTarget, FactModel, FileAnalysis, FunctionInfo, FunctionModel, LabelModel, LanguageId,
    SiteModel, source_site, SymbolId, SymbolModel, SyntaxModel, TargetModel,
};
use crate::paths::SourcePath;
use crate::rust::items::{
    item_parts, node_parts, RustCall, RustCallModel, RustClosure, RustClosureModel, RustExpr,
    RustExprModel, RustFunction, RustFunctionModel, RustImpl, RustImplModel, RustItem,
    RustItemModel, RustMember, RustMemberModel, RustMethodCall, RustMethodCallModel, RustNode,
    RustNodeModel, RustPattern, RustPatternModel, RustShape, RustShapeModel, RustSpan, RustTrait,
    RustTraitModel, RustVisibility,
};
use crate::rust::lambdas::{
    body_closures, closure_source_for_expression, closure_sources, compact, compact_expression,
    compact_tokens, evaluated_macro_expressions, expression_source, fallback_source, find_source,
    lambda_name, macro_counts, source_at, write_expression, ClosureSource, SourceModel,
};
use crate::rust::markers::{append_generic_arguments, with_generics};
use crate::rust::remap::{SeedableFunction, SeedableModel};
use crate::rust::signatures::{
    file_span, function_label, make_signature_facts, pattern_name, pattern_text, push_fact,
    rewrite_symbolic_generic_calls, rust_fact, signature_facts, signature_label, source_span,
    symbolic_calls, typed_pattern_name, typed_pattern_text,
};
use crate::sets::{insert_path, with_path};
use crate::text::{
    chars_of, concat_texts, copy_texts, join_texts, joined, replace_text, replaced, same_text,
    texts,
};
use vstd::prelude::*;

verus! {

/// How many characters of an argument a label shows.
pub const ARGUMENT_LIMIT: usize = 96;

/// An argument in a label.
pub open spec fn argument_text(expression: RustExprModel, sources: Seq<SourceModel>) -> Seq<char> {
    let rendered = compact_expression(expression, sources);
    if rendered.len() <= ARGUMENT_LIMIT {
        rendered
    } else {
        "…"@
    }
}

/// Writes an argument for a label.
pub fn call_argument_label(expression: &RustExpr, sources: &Vec<ClosureSource>) -> (result: String)
    ensures
        result@ == argument_text(expression@, views(sources@)),
{
    let rendered = write_expression(expression, sources);
    if chars_of(rendered.as_str()).len() <= ARGUMENT_LIMIT {
        rendered
    } else {
        "…".to_owned()
    }
}

/// The names of the closures among the first `count` arguments.
pub open spec fn closure_arguments(
    arguments: Seq<RustExprModel>,
    sources: Seq<SourceModel>,
    count: int,
) -> Seq<Seq<char>>
    decreases count,
{
    if count <= 0 {
        Seq::empty()
    } else {
        let before = closure_arguments(arguments, sources, count - 1);
        match expression_source(arguments[count - 1], sources) {
            Some(source) => before.push(lambda_name(source)),
            None => before,
        }
    }
}

/// The first `count` arguments without the closures.
pub open spec fn value_arguments(
    arguments: Seq<RustExprModel>,
    sources: Seq<SourceModel>,
    count: int,
) -> Seq<Seq<char>>
    decreases count,
{
    if count <= 0 {
        Seq::empty()
    } else {
        let before = value_arguments(arguments, sources, count - 1);
        match expression_source(arguments[count - 1], sources) {
            Some(_) => before,
            None => before.push(argument_text(arguments[count - 1], sources)),
        }
    }
}

/// Divides arguments into closures and values.
pub fn call_arguments(arguments: &Vec<RustExpr>, sources: &Vec<ClosureSource>) -> (result: (
    Vec<String>,
    Vec<String>,
))
    ensures
        texts(result.0@) == closure_arguments(
            views(arguments@),
            views(sources@),
            arguments@.len() as int,
        ),
        texts(result.1@) == value_arguments(
            views(arguments@),
            views(sources@),
            arguments@.len() as int,
        ),
{
    let mut closures: Vec<String> = Vec::new();
    let mut values: Vec<String> = Vec::new();
    let mut index: usize = 0;
    proof {
        assert(texts(closures@) =~= Seq::empty());
        assert(texts(values@) =~= Seq::empty());
    }
    while index < arguments.len()
        invariant
            index <= arguments@.len(),
            texts(closures@) == closure_arguments(views(arguments@), views(sources@), index as int),
            texts(values@) == value_arguments(views(arguments@), views(sources@), index as int),
        decreases arguments@.len() - index,
    {
        proof {
            assert(views(arguments@)[index as int] == arguments@[index as int]@);
        }
        match closure_source_for_expression(&arguments[index], sources) {
            Some(source) => {
                let ghost before = texts(closures@);
                let name = source.lambda_name();
                let ghost model = name@;
                closures.push(name);
                proof {
                    assert(texts(closures@) =~= before.push(model));
                }
            },
            None => {
                let ghost before = texts(values@);
                let label = call_argument_label(&arguments[index], sources);
                let ghost model = label@;
                values.push(label);
                proof {
                    assert(texts(values@) =~= before.push(model));
                }
            },
        }
        index += 1;
    }
    (closures, values)
}

/// A callee with its arguments: the closures behind its generic arguments, the
/// values in parentheses.
pub open spec fn applied(callee: Seq<char>, arguments: Seq<RustExprModel>, sources: Seq<SourceModel>) -> Seq<
    char,
> {
    with_generics(callee, closure_arguments(arguments, sources, arguments.len() as int)) + "("@
        + joined(value_arguments(arguments, sources, arguments.len() as int), ", "@) + ")"@
}

fn write_application(callee: &str, arguments: &Vec<RustExpr>, sources: &Vec<ClosureSource>) -> (result:
    String)
    ensures
        result@ == applied(callee@, views(arguments@), views(sources@)),
{
    proof {
        assert(views(arguments@).len() == arguments@.len());
    }
    let (closures, values) = call_arguments(arguments, sources);
    let mut result = append_generic_arguments(callee, &closures);
    result.append("(");
    result.append(join_texts(&values, ", ").as_str());
    result.append(")");
    result
}

/// The label of a call.
pub open spec fn call_text(call: RustCallModel, sources: Seq<SourceModel>) -> Seq<char> {
    applied(
        replaced(compact(call.function.tokens), "::<"@, "<"@),
        call.arguments,
        sources,
    )
}

/// The label of a call.
pub fn call_expression_label(call: &RustCall, sources: &Vec<ClosureSource>) -> (result: String)
    ensures
        result@ == call_text(call@, views(sources@)),
{
    proof {
        reveal_strlit("::<");
    }
    let function = replace_text(compact_tokens(&call.function.tokens).as_str(), "::<", "<");
    write_application(function.as_str(), &call.arguments, sources)
}

/// Whether an expression is shown as the receiver of a method.
pub open spec fn is_simple(shape: RustShapeModel) -> bool
    decreases shape,
{
    match shape {
        RustShapeModel::Path(_, _) => true,
        RustShapeModel::Field(inner) => is_simple(*inner),
        RustShapeModel::Index(inner) => is_simple(*inner),
        RustShapeModel::Paren(inner) => is_simple(*inner),
        RustShapeModel::Group(inner) => is_simple(*inner),
        RustShapeModel::Reference(inner) => is_simple(*inner),
        RustShapeModel::Unary(inner) => is_simple(*inner),
        _ => false,
    }
}

/// Whether an expression is shown as the receiver of a method.
pub fn simple_receiver(shape: &RustShape) -> (result: bool)
    ensures
        result == is_simple(shape@),
    decreases shape,
{
    match shape {
        RustShape::Path(_, _) => true,
        RustShape::Field(inner) => simple_receiver(inner),
        RustShape::Index(inner) => simple_receiver(inner),
        RustShape::Paren(inner) => simple_receiver(inner),
        RustShape::Group(inner) => simple_receiver(inner),
        RustShape::Reference(inner) => simple_receiver(inner),
        RustShape::Unary(inner) => simple_receiver(inner),
        _ => false,
    }
}

/// The label of a method call.
pub open spec fn method_text(call: RustMethodCallModel, sources: Seq<SourceModel>) -> Seq<char> {
    let method = call.method + replaced(compact(call.turbofish), "::<"@, "<"@);
    let callee = if is_simple(call.receiver.shape) {
        compact_expression(call.receiver, sources) + "."@ + method
    } else {
        method
    };
    applied(callee, call.arguments, sources)
}

/// The label of a method call.
pub fn method_call_label(call: &RustMethodCall, sources: &Vec<ClosureSource>) -> (result: String)
    ensures
        result@ == method_text(call@, views(sources@)),
{
    proof {
        reveal_strlit("::<");
    }
    let generics = replace_text(compact_tokens(&call.turbofish).as_str(), "::<", "<");
    let method = concat_texts(call.method.as_str(), generics.as_str());
    let callee = if simple_receiver(&call.receiver.shape) {
        let mut callee = write_expression(&call.receiver, sources);
        callee.append(".");
        callee.append(method.as_str());
        callee
    } else {
        method
    };
    write_application(callee.as_str(), &call.arguments, sources)
}

/// The path that a callee is.
pub open spec fn path_of(shape: RustShapeModel) -> Option<Seq<Seq<char>>>
    decreases shape,
{
    match shape {
        RustShapeModel::Path(names, _) => Some(names),
        RustShapeModel::Group(inner) => path_of(*inner),
        RustShapeModel::Paren(inner) => path_of(*inner),
        _ => None,
    }
}

/// The path that a callee is.
pub fn callable_path(shape: &RustShape) -> (result: Option<Vec<String>>)
    ensures
        match result {
            Some(names) => path_of(shape@) == Some(texts(names@)),
            None => path_of(shape@) is None,
        },
    decreases shape,
{
    match shape {
        RustShape::Path(names, _) => Some(copy_texts(names)),
        RustShape::Group(inner) => callable_path(inner),
        RustShape::Paren(inner) => callable_path(inner),
        _ => None,
    }
}

/// Whether an expression is `self`.
pub open spec fn is_self(shape: RustShapeModel) -> bool {
    match shape {
        RustShapeModel::Path(_, Some(name)) => name == "self"@,
        _ => false,
    }
}

/// Whether an expression is `self`.
pub fn is_self_expr(shape: &RustShape) -> (result: bool)
    ensures
        result == is_self(shape@),
{
    match shape {
        RustShape::Path(_, Some(name)) => same_text(name.as_str(), "self"),
        _ => false,
    }
}

/// What the receiver of a method is called.
pub open spec fn receiver_text(shape: RustShapeModel) -> Seq<char> {
    match shape {
        RustShapeModel::Path(names, _) => joined(names, "::"@),
        _ => "<expr>"@,
    }
}

/// What the receiver of a method is called.
pub fn receiver_name(shape: &RustShape) -> (result: String)
    ensures
        result@ == receiver_text(shape@),
{
    match shape {
        RustShape::Path(names, _) => join_texts(names, "::"),
        _ => "<expr>".to_owned(),
    }
}

/// A call that is hidden until a compiler has confirmed it, where `hidden`
/// holds.
pub open spec fn confirmed(syntax: SyntaxModel, hidden: bool) -> SyntaxModel {
    if hidden {
        SyntaxModel::CompilerConfirmed(Box::new(syntax))
    } else {
        syntax
    }
}

fn confirm(syntax: CallSyntax, hidden: bool) -> (result: CallSyntax)
    ensures
        result@ == confirmed(syntax@, hidden),
{
    if hidden {
        CallSyntax::CompilerConfirmed(Box::new(syntax))
    } else {
        syntax
    }
}

/// A call of a body, not resolved yet.
pub open spec fn open_site(
    syntax: SyntaxModel,
    label: Seq<char>,
    file: Seq<char>,
    span: RustSpan,
) -> SiteModel {
    SiteModel {
        id: source_site(syntax, file_span(file, span)),
        syntax,
        target: TargetModel::Unresolved,
        label: LabelModel { default: label, typed: None },
        span: file_span(file, span),
    }
}

fn make_site(syntax: CallSyntax, label: &str, file: &SourcePath, span: RustSpan) -> (result: CallSite)
    ensures
        result@ == open_site(syntax@, label@, file@, span),
{
    let span = source_span(file, span);
    CallSite {
        id: CallSiteId::source(&syntax, &span),
        syntax,
        target: CallTarget::Unresolved,
        label: CallLabel::new(label),
        span,
    }
}

/// How a call is written.
pub open spec fn call_syntax(call: RustCallModel, sources: Seq<SourceModel>) -> SyntaxModel {
    match path_of(call.function.shape) {
        Some(names) => SyntaxModel::Path(names),
        None => SyntaxModel::Expression(compact_expression(call.function, sources)),
    }
}

/// How a method call is written.
pub open spec fn method_syntax(call: RustMethodCallModel) -> SyntaxModel {
    if is_self(call.receiver.shape) {
        SyntaxModel::SelfMethod(call.method)
    } else {
        SyntaxModel::Method {
            receiver: receiver_text(call.receiver.shape),
            method: call.method,
        }
    }
}

/// The calls of the first `count` nodes of a body. A call comes behind those
/// in its arguments. Those in closures are left out, and those in macros are
/// hidden until a compiler has confirmed them.
pub open spec fn calls_in(
    nodes: Seq<RustNodeModel>,
    file: Seq<char>,
    sources: Seq<SourceModel>,
    hidden: bool,
    count: nat,
) -> Seq<SiteModel>
    decreases nodes, count,
{
    if count == 0 || count > nodes.len() {
        Seq::empty()
    } else {
        calls_in(nodes, file, sources, hidden, (count - 1) as nat) + calls_in_node(
            nodes[count - 1],
            file,
            sources,
            hidden,
        )
    }
}

/// The calls of a node of a body.
pub open spec fn calls_in_node(
    node: RustNodeModel,
    file: Seq<char>,
    sources: Seq<SourceModel>,
    hidden: bool,
) -> Seq<SiteModel>
    decreases node, 0nat,
{
    match node {
        RustNodeModel::Call(call) => calls_in(
            call.inner,
            file,
            sources,
            hidden,
            call.inner.len(),
        ).push(
            open_site(
                confirmed(call_syntax(call, sources), hidden),
                call_text(call, sources),
                file,
                call.span,
            ),
        ),
        RustNodeModel::Method(call) => calls_in(
            call.inner,
            file,
            sources,
            hidden,
            call.inner.len(),
        ).push(
            open_site(
                confirmed(method_syntax(call), hidden),
                method_text(call, sources),
                file,
                call.span,
            ),
        ),
        RustNodeModel::Closure(_) => Seq::empty(),
        RustNodeModel::Local(local) => calls_in(
            local.inner,
            file,
            sources,
            hidden,
            local.inner.len(),
        ),
        RustNodeModel::Macro(inner) => match inner.expressions {
            Some(expressions) => if macro_counts(inner) {
                calls_in(expressions, file, sources, true, expressions.len())
            } else {
                Seq::empty()
            },
            None => Seq::empty(),
        },
        RustNodeModel::Function(_) => Seq::empty(),
    }
}

fn push_site(calls: &mut Vec<CallSite>, site: CallSite)
    ensures
        views(final(calls)@) == views(old(calls)@).push(site@),
{
    let ghost before = views(calls@);
    let ghost model = site@;
    calls.push(site);
    proof {
        assert(views(calls@) =~= before.push(model));
    }
}

fn collect_calls(
    nodes: &Vec<RustNode>,
    file: &SourcePath,
    sources: &Vec<ClosureSource>,
    hidden: bool,
    calls: &mut Vec<CallSite>,
)
    ensures
        views(final(calls)@) == views(old(calls)@) + calls_in(
            views(nodes@),
            file@,
            views(sources@),
            hidden,
            nodes@.len(),
        ),
    decreases nodes,
{
    let ghost start = views(calls@);
    let ghost model = views(sources@);
    let ghost all = views(nodes@);
    let mut index: usize = 0;
    proof {
        assert(start + calls_in(all, file@, model, hidden, 0) =~= start);
    }
    while index < nodes.len()
        invariant
            index <= nodes@.len(),
            model == views(sources@),
            all == views(nodes@),
            views(calls@) == start + calls_in(all, file@, model, hidden, index as nat),
        decreases nodes@.len() - index,
    {
        let node = &nodes[index];
        let ghost before = views(calls@);
        let ghost lower = calls_in(all, file@, model, hidden, index as nat);
        let ghost next = calls_in_node(node@, file@, model, hidden);
        assert(decreases_to!(nodes => node));
        proof {
            assert(all[index as int] == node@);
            node_parts(*node);
        }
        match node {
            RustNode::Call(call) => {
                collect_calls(&call.inner, file, sources, hidden, calls);
                let syntax = match callable_path(&call.function.shape) {
                    Some(names) => CallSyntax::Path(names),
                    None => CallSyntax::Expression(write_expression(&call.function, sources)),
                };
                let label = call_expression_label(call, sources);
                push_site(
                    calls,
                    make_site(confirm(syntax, hidden), label.as_str(), file, call.span),
                );
            },
            RustNode::Method(call) => {
                collect_calls(&call.inner, file, sources, hidden, calls);
                let syntax = if is_self_expr(&call.receiver.shape) {
                    CallSyntax::SelfMethod(call.method.clone())
                } else {
                    CallSyntax::Method {
                        receiver: receiver_name(&call.receiver.shape),
                        method: call.method.clone(),
                    }
                };
                let label = method_call_label(call, sources);
                push_site(
                    calls,
                    make_site(confirm(syntax, hidden), label.as_str(), file, call.span),
                );
            },
            RustNode::Closure(_) => {},
            RustNode::Local(local) => {
                collect_calls(&local.inner, file, sources, hidden, calls);
            },
            RustNode::Macro(inner) => {
                if let Some(expressions) = evaluated_macro_expressions(inner) {
                    assert(decreases_to!(node => inner));
                    assert(decreases_to!(inner => expressions));
                    collect_calls(expressions, file, sources, true, calls);
                }
            },
            RustNode::Function(_) => {},
        }
        proof {
            assert(views(calls@) =~= before + next);
            assert(calls_in(all, file@, model, hidden, (index + 1) as nat) == lower + next);
            assert(start + lower + next =~= start + (lower + next));
        }
        index += 1;
    }
}

/// The function that a closure is. It is held by what it stands in.
pub open spec fn closure_function(
    closure: RustClosureModel,
    file: Seq<char>,
    module: Seq<Seq<char>>,
    owner: SymbolModel,
    sources: Seq<SourceModel>,
    earlier: nat,
) -> FunctionModel {
    let source = match source_at(sources, closure.span) {
        Some(source) => source,
        None => fallback_source(closure.span, earlier as usize),
    };
    let names = closure.inputs.map_values(|input: RustPatternModel| pattern_text(input));
    let typed = closure.inputs.map_values(|input: RustPatternModel| typed_pattern_text(input));
    FunctionModel {
        id: SymbolModel {
            language: "rust"@,
            module,
            container: Some(joined(symbol_parts(owner), "::"@)),
            name: "{lambda:"@ + source.identity + "}"@,
        },
        label: LabelModel {
            default: lambda_name(source) + "("@ + joined(names, ", "@) + ")"@,
            typed: Some(lambda_name(source) + "("@ + joined(typed, ", "@) + ")"@),
        },
        public: false,
        calls: calls_in(closure.body, file, sources, false, closure.body.len()),
        span: file_span(file, closure.span),
    }
}

/// The functions with those of the closures in the first `count` nodes of a
/// body, each in front of those in it.
pub open spec fn closures_in(
    nodes: Seq<RustNodeModel>,
    file: Seq<char>,
    module: Seq<Seq<char>>,
    owner: SymbolModel,
    sources: Seq<SourceModel>,
    found: Seq<FunctionModel>,
    count: nat,
) -> Seq<FunctionModel>
    decreases nodes, count,
{
    if count == 0 || count > nodes.len() {
        found
    } else {
        closures_in_node(
            nodes[count - 1],
            file,
            module,
            owner,
            sources,
            closures_in(nodes, file, module, owner, sources, found, (count - 1) as nat),
        )
    }
}

/// The functions with those of the closures in a node of a body.
pub open spec fn closures_in_node(
    node: RustNodeModel,
    file: Seq<char>,
    module: Seq<Seq<char>>,
    owner: SymbolModel,
    sources: Seq<SourceModel>,
    found: Seq<FunctionModel>,
) -> Seq<FunctionModel>
    decreases node, 0nat,
{
    match node {
        RustNodeModel::Call(call) => closures_in(
            call.inner,
            file,
            module,
            owner,
            sources,
            found,
            call.inner.len(),
        ),
        RustNodeModel::Method(call) => closures_in(
            call.inner,
            file,
            module,
            owner,
            sources,
            found,
            call.inner.len(),
        ),
        RustNodeModel::Closure(closure) => {
            let function = closure_function(closure, file, module, owner, sources, found.len());
            let head = closures_in(
                closure.head,
                file,
                module,
                function.id,
                sources,
                Seq::empty(),
                closure.head.len(),
            );
            found.push(function) + closures_in(
                closure.body,
                file,
                module,
                function.id,
                sources,
                head,
                closure.body.len(),
            )
        },
        RustNodeModel::Local(local) => closures_in(
            local.inner,
            file,
            module,
            owner,
            sources,
            found,
            local.inner.len(),
        ),
        RustNodeModel::Macro(inner) => match inner.expressions {
            Some(expressions) => if macro_counts(inner) {
                closures_in(
                    expressions,
                    file,
                    module,
                    owner,
                    sources,
                    found,
                    expressions.len(),
                )
            } else {
                found
            },
            None => found,
        },
        RustNodeModel::Function(_) => found,
    }
}

fn write_patterns(inputs: &Vec<RustPattern>, types: bool) -> (result: String)
    ensures
        types ==> result@ == joined(
            views(inputs@).map_values(|input: RustPatternModel| typed_pattern_text(input)),
            ", "@,
        ),
        !types ==> result@ == joined(
            views(inputs@).map_values(|input: RustPatternModel| pattern_text(input)),
            ", "@,
        ),
{
    let mut parts: Vec<String> = Vec::new();
    let mut index: usize = 0;
    while index < inputs.len()
        invariant
            index <= inputs@.len(),
            parts@.len() == index,
            forall|k: int|
                0 <= k < index ==> (#[trigger] parts@[k])@ == (if types {
                    typed_pattern_text(views(inputs@)[k])
                } else {
                    pattern_text(views(inputs@)[k])
                }),
        decreases inputs@.len() - index,
    {
        proof {
            assert(views(inputs@)[index as int] == inputs@[index as int]@);
        }
        if types {
            parts.push(typed_pattern_name(&inputs[index]));
        } else {
            parts.push(pattern_name(&inputs[index]));
        }
        index += 1;
    }
    proof {
        if types {
            assert(texts(parts@) =~= views(inputs@).map_values(
                |input: RustPatternModel| typed_pattern_text(input),
            ));
        } else {
            assert(texts(parts@) =~= views(inputs@).map_values(|input: RustPatternModel| pattern_text(input)));
        }
    }
    join_texts(&parts, ", ")
}

fn make_closure_function(
    closure: &RustClosure,
    file: &SourcePath,
    module: &Vec<String>,
    owner: &SymbolId,
    sources: &Vec<ClosureSource>,
    earlier: usize,
) -> (result: FunctionInfo)
    ensures
        result@ == closure_function(
            closure@,
            file@,
            texts(module@),
            owner@,
            views(sources@),
            earlier as nat,
        ),
{
    let (lambda, identity) = match find_source(sources, closure.span) {
        Some(source) => (source.lambda_name(), source.identity.clone()),
        None => {
            let source = ClosureSource::anonymous(closure.span, earlier);
            (source.lambda_name(), source.identity)
        },
    };
    let mut name = concat_texts("{lambda:", identity.as_str());
    name.append("}");
    let start = concat_texts(lambda.as_str(), "(");
    let mut default = concat_texts(
        start.as_str(),
        write_patterns(&closure.inputs, false).as_str(),
    );
    default.append(")");
    let mut typed = concat_texts(start.as_str(), write_patterns(&closure.inputs, true).as_str());
    typed.append(")");
    let mut calls: Vec<CallSite> = Vec::new();
    proof {
        assert(views(calls@) =~= Seq::empty());
    }
    collect_calls(&closure.body, file, sources, false, &mut calls);
    let result = FunctionInfo {
        id: SymbolId {
            language: LanguageId::new("rust"),
            module: copy_texts(module),
            container: Some(join_texts(&owner.owned_parts(), "::")),
            name,
        },
        label: CallLabel::with_types(default.as_str(), typed.as_str()),
        public: false,
        calls,
        span: source_span(file, closure.span),
    };
    proof {
        assert(result@.calls =~= views(result.calls@));
        assert(result@.calls =~= calls_in(
            views(closure.body@),
            file@,
            views(sources@),
            false,
            closure.body@.len(),
        ));
    }
    result
}

#[verifier::rlimit(30)]
fn collect_closure_functions(
    nodes: &Vec<RustNode>,
    file: &SourcePath,
    module: &Vec<String>,
    owner: &SymbolId,
    sources: &Vec<ClosureSource>,
    found: &mut Vec<FunctionInfo>,
)
    ensures
        views(final(found)@) == closures_in(
            views(nodes@),
            file@,
            texts(module@),
            owner@,
            views(sources@),
            views(old(found)@),
            nodes@.len(),
        ),
    decreases nodes,
{
    let ghost start = views(found@);
    let ghost model = views(sources@);
    let ghost path = texts(module@);
    let ghost all = views(nodes@);
    let mut index: usize = 0;
    while index < nodes.len()
        invariant
            index <= nodes@.len(),
            model == views(sources@),
            path == texts(module@),
            all == views(nodes@),
            views(found@) == closures_in(
                all,
                file@,
                path,
                owner@,
                model,
                start,
                index as nat,
            ),
        decreases nodes@.len() - index,
    {
        let node = &nodes[index];
        let ghost before = views(found@);
        assert(decreases_to!(nodes => node));
        proof {
            assert(all[index as int] == node@);
            node_parts(*node);
        }
        match node {
            RustNode::Call(call) => {
                collect_closure_functions(&call.inner, file, module, owner, sources, found);
            },
            RustNode::Method(call) => {
                collect_closure_functions(&call.inner, file, module, owner, sources, found);
            },
            RustNode::Closure(closure) => {
                proof {
                    assert(before.len() == found@.len());
                }
                let function = make_closure_function(
                    closure,
                    file,
                    module,
                    owner,
                    sources,
                    found.len(),
                );
                let ghost function_model = function@;
                let id = function.id.clone();
                found.push(function);
                let mut nested: Vec<FunctionInfo> = Vec::new();
                proof {
                    assert(views(found@) =~= before.push(function_model));
                    assert(views(nested@) =~= Seq::empty());
                }
                collect_closure_functions(
                    &closure.head,
                    file,
                    module,
                    &id,
                    sources,
                    &mut nested,
                );
                collect_closure_functions(
                    &closure.body,
                    file,
                    module,
                    &id,
                    sources,
                    &mut nested,
                );
                let ghost inner = views(nested@);
                let ghost own = found@;
                found.append(&mut nested);
                proof {
                    assert(views(found@) =~= views(own) + inner);
                }
            },
            RustNode::Local(local) => {
                collect_closure_functions(&local.inner, file, module, owner, sources, found);
            },
            RustNode::Macro(inner) => {
                if let Some(expressions) = evaluated_macro_expressions(inner) {
                    assert(decreases_to!(node => inner));
                    assert(decreases_to!(inner => expressions));
                    collect_closure_functions(expressions, file, module, owner, sources, found);
                }
            },
            RustNode::Function(_) => {},
        }
        proof {
            assert(views(found@) == closures_in_node(node@, file@, path, owner@, model, before));
            assert(closures_in(all, file@, path, owner@, model, start, (index + 1) as nat)
                == closures_in_node(all[index as int], file@, path, owner@, model, before));
        }
        index += 1;
    }
}

/// The nodes of a body.
pub open spec fn body_nodes(function: RustFunctionModel) -> Seq<RustNodeModel> {
    match function.body {
        Some(nodes) => nodes,
        None => Seq::empty(),
    }
}

/// The function that an item is.
pub open spec fn item_function(
    file: Seq<char>,
    module: Seq<Seq<char>>,
    container: Option<Seq<char>>,
    function: RustFunctionModel,
    public: bool,
) -> FunctionModel {
    let nodes = body_nodes(function);
    let id = SymbolModel {
        language: "rust"@,
        module,
        container,
        name: function.signature.name,
    };
    FunctionModel {
        id,
        label: signature_label(id, function.signature),
        public,
        calls: symbolic_calls(
            module,
            function.signature,
            calls_in(nodes, file, body_closures(nodes), false, nodes.len()),
        ),
        span: file_span(file, function.span),
    }
}

fn function_from_parts(
    file: &SourcePath,
    module: &Vec<String>,
    container: Option<String>,
    function: &RustFunction,
    nodes: &Vec<RustNode>,
    public: bool,
) -> (result: FunctionInfo)
    requires
        body_nodes(function@) == views(nodes@),
    ensures
        result@ == item_function(
            file@,
            texts(module@),
            crate::text::optional(container),
            function@,
            public,
        ),
{
    let id = SymbolId {
        language: LanguageId::new("rust"),
        module: copy_texts(module),
        container,
        name: function.signature.name.clone(),
    };
    let sources = closure_sources(nodes);
    let mut calls: Vec<CallSite> = Vec::new();
    proof {
        assert(views(calls@) =~= Seq::empty());
    }
    collect_calls(nodes, file, &sources, false, &mut calls);
    proof {
        assert(views(calls@) =~= calls_in(
            views(nodes@),
            file@,
            body_closures(views(nodes@)),
            false,
            nodes@.len(),
        ));
    }
    let rewritten = rewrite_symbolic_generic_calls(module, &function.signature, &calls);
    let result = FunctionInfo {
        label: function_label(&id, &function.signature),
        id,
        public,
        calls: rewritten,
        span: source_span(file, function.span),
    };
    proof {
        assert(result@.calls =~= views(result.calls@));
    }
    result
}

/// An analysis with a function, what its signature states, and its closures.
pub open spec fn with_function(
    analysis: AnalysisModel,
    file: Seq<char>,
    module: Seq<Seq<char>>,
    container: Option<Seq<char>>,
    function: RustFunctionModel,
    public: bool,
    more: Seq<FactModel>,
) -> AnalysisModel {
    let found = item_function(file, module, container, function, public);
    let nodes = body_nodes(function);
    AnalysisModel {
        functions: analysis.functions.push(found) + closures_in(
            nodes,
            file,
            module,
            found.id,
            body_closures(nodes),
            Seq::empty(),
            nodes.len(),
        ),
        facts: analysis.facts + signature_facts(file, found.id, function.signature) + more,
        ..analysis
    }
}

/// The fact that a method implements one of a trait.
pub open spec fn trait_fact(
    file: Seq<char>,
    module: Seq<Seq<char>>,
    container: Seq<char>,
    function: RustFunctionModel,
    trait_name: Seq<char>,
    self_type: Seq<char>,
) -> FactModel {
    rust_fact(
        SymbolModel {
            language: "rust"@,
            module,
            container: Some(container),
            name: function.signature.name,
        },
        "impl-trait"@,
        trait_name,
        self_type,
        file_span(file, function.span),
    )
}

#[verifier::rlimit(30)]
fn add_function(
    analysis: &mut FileAnalysis,
    file: &SourcePath,
    module: &Vec<String>,
    container: Option<String>,
    function: &RustFunction,
    nodes: &Vec<RustNode>,
    public: bool,
    implemented: Option<(&str, &str)>,
)
    requires
        body_nodes(function@) == views(nodes@),
        implemented is Some ==> container is Some,
    ensures
        final(analysis)@ == with_function(
            old(analysis)@,
            file@,
            texts(module@),
            crate::text::optional(container),
            function@,
            public,
            match implemented {
                Some((trait_name, self_type)) => seq![
                    trait_fact(
                        file@,
                        texts(module@),
                        container.unwrap()@,
                        function@,
                        trait_name@,
                        self_type@,
                    ),
                ],
                None => Seq::empty(),
            },
        ),
{
    let ghost start = analysis@;
    proof {
        assert(start.functions =~= views(analysis.functions@));
        assert(start.facts =~= views(analysis.facts@));
    }
    let found = function_from_parts(file, module, container, function, nodes, public);
    let ghost model = found@;
    let mut facts = make_signature_facts(file, &found.id, &function.signature);
    let ghost stated = views(facts@);
    if let Some((trait_name, self_type)) = implemented {
        push_fact(
            &mut facts,
            &found.id,
            "impl-trait",
            trait_name,
            self_type,
            source_span(file, function.span),
        );
    }
    let ghost added = views(facts@);
    let ghost own_facts = analysis.facts@;
    analysis.facts.append(&mut facts);
    proof {
        assert(views(analysis.facts@) =~= views(own_facts) + added);
        assert(analysis@.facts =~= views(analysis.facts@));
    }
    let sources = closure_sources(nodes);
    let mut closures: Vec<FunctionInfo> = Vec::new();
    proof {
        assert(views(closures@) =~= Seq::empty());
    }
    collect_closure_functions(nodes, file, module, &found.id, &sources, &mut closures);
    let ghost inner = views(closures@);
    let ghost own = analysis.functions@;
    analysis.functions.push(found);
    analysis.functions.append(&mut closures);
    proof {
        assert(views(analysis.functions@) =~= views(own).push(model) + inner);
        assert(analysis@.functions =~= views(analysis.functions@));
        match implemented {
            Some((trait_name, self_type)) => {
                let last = trait_fact(
                    file@,
                    texts(module@),
                    container.unwrap()@,
                    function@,
                    trait_name@,
                    self_type@,
                );
                assert(added =~= stated + seq![last]);
                assert(start.facts + stated + seq![last] =~= start.facts + (stated + seq![last]));
            },
            None => {
                assert(start.facts + stated + Seq::<FactModel>::empty() =~= start.facts + stated);
            },
        }
    }
}

/// The type that methods stand on, with the trait where they are those of one.
pub open spec fn impl_container(item: RustImplModel) -> Seq<char> {
    match item.trait_path {
        Some(path) => compact(item.self_type) + " as "@ + compact(path),
        None => compact(item.self_type),
    }
}

/// An analysis with the methods among the first `count` members of a type.
pub open spec fn with_methods(
    analysis: AnalysisModel,
    file: Seq<char>,
    module: Seq<Seq<char>>,
    item: RustImplModel,
    count: int,
) -> AnalysisModel
    decreases count,
{
    if count <= 0 {
        analysis
    } else {
        let before = with_methods(analysis, file, module, item, count - 1);
        let container = impl_container(item);
        match item.members[count - 1] {
            RustMemberModel::Function(method) => with_function(
                before,
                file,
                module,
                Some(container),
                method,
                method.visibility == RustVisibility::Public || item.trait_path is Some,
                match item.trait_path {
                    Some(path) => seq![
                        trait_fact(
                            file,
                            module,
                            container,
                            method,
                            compact(path),
                            compact(item.self_type),
                        ),
                    ],
                    None => Seq::empty(),
                },
            ),
            RustMemberModel::Other => before,
        }
    }
}

fn analyze_impl(file: &SourcePath, module: &Vec<String>, item: &RustImpl, analysis: &mut FileAnalysis)
    ensures
        final(analysis)@ == with_methods(
            old(analysis)@,
            file@,
            texts(module@),
            item@,
            item.members@.len() as int,
        ),
{
    let ghost start = analysis@;
    let self_type = compact_tokens(&item.self_type);
    let trait_name = match &item.trait_path {
        Some(path) => Some(compact_tokens(path)),
        None => None,
    };
    let container = match &trait_name {
        Some(name) => {
            let mut container = concat_texts(self_type.as_str(), " as ");
            container.append(name.as_str());
            container
        },
        None => self_type.clone(),
    };
    let empty: Vec<RustNode> = Vec::new();
    let mut index: usize = 0;
    proof {
        assert(views(empty@) =~= Seq::<RustNodeModel>::empty());
    }
    while index < item.members.len()
        invariant
            index <= item.members@.len(),
            self_type@ == compact(views(item.self_type@)),
            container@ == impl_container(item@),
            views(empty@) == Seq::<RustNodeModel>::empty(),
            match trait_name {
                Some(name) => item.trait_path is Some && name@ == compact(
                    views(item.trait_path.unwrap()@),
                ),
                None => item.trait_path is None,
            },
            analysis@ == with_methods(start, file@, texts(module@), item@, index as int),
        decreases item.members@.len() - index,
    {
        proof {
            assert(item@.members[index as int] == item.members@[index as int]@);
        }
        if let RustMember::Function(method) = &item.members[index] {
            let nodes = match &method.body {
                Some(nodes) => nodes,
                None => &empty,
            };
            let implemented = match &trait_name {
                Some(name) => Some((name.as_str(), self_type.as_str())),
                None => None,
            };
            add_function(
                analysis,
                file,
                module,
                Some(container.clone()),
                method,
                nodes,
                method.visibility == RustVisibility::Public || trait_name.is_some(),
                implemented,
            );
        }
        index += 1;
    }
}

/// An analysis with the methods among the first `count` members of a trait, as
/// far as they have bodies. They are public where the trait is.
pub open spec fn with_defaults(
    analysis: AnalysisModel,
    file: Seq<char>,
    module: Seq<Seq<char>>,
    item: RustTraitModel,
    count: int,
) -> AnalysisModel
    decreases count,
{
    if count <= 0 {
        analysis
    } else {
        let before = with_defaults(analysis, file, module, item, count - 1);
        match item.members[count - 1] {
            RustMemberModel::Function(method) => if method.body is Some {
                with_function(
                    before,
                    file,
                    module,
                    Some(item.name),
                    method,
                    item.visibility == RustVisibility::Public,
                    Seq::empty(),
                )
            } else {
                before
            },
            RustMemberModel::Other => before,
        }
    }
}

fn analyze_trait(file: &SourcePath, module: &Vec<String>, item: &RustTrait, analysis: &mut FileAnalysis)
    ensures
        final(analysis)@ == with_defaults(
            old(analysis)@,
            file@,
            texts(module@),
            item@,
            item.members@.len() as int,
        ),
{
    let ghost start = analysis@;
    let mut index: usize = 0;
    while index < item.members.len()
        invariant
            index <= item.members@.len(),
            analysis@ == with_defaults(start, file@, texts(module@), item@, index as int),
        decreases item.members@.len() - index,
    {
        proof {
            assert(item@.members[index as int] == item.members@[index as int]@);
        }
        if let RustMember::Function(method) = &item.members[index] {
            if let Some(nodes) = &method.body {
                add_function(
                    analysis,
                    file,
                    module,
                    Some(item.name.clone()),
                    method,
                    nodes,
                    item.visibility == RustVisibility::Public,
                    None,
                );
            }
        }
        index += 1;
    }
}

/// An analysis with the first `count` items of a module.
pub open spec fn with_items(
    analysis: AnalysisModel,
    file: Seq<char>,
    module: Seq<Seq<char>>,
    items: Seq<RustItemModel>,
    count: nat,
) -> AnalysisModel
    decreases items, count,
{
    if count == 0 || count > items.len() {
        analysis
    } else {
        with_item(
            with_items(analysis, file, module, items, (count - 1) as nat),
            file,
            module,
            items[count - 1],
        )
    }
}

/// An analysis with an item of a module.
pub open spec fn with_item(
    analysis: AnalysisModel,
    file: Seq<char>,
    module: Seq<Seq<char>>,
    item: RustItemModel,
) -> AnalysisModel
    decreases item, 0nat,
{
    match item {
        RustItemModel::Function(function) => with_function(
            analysis,
            file,
            module,
            None,
            function,
            function.visibility == RustVisibility::Public,
            Seq::empty(),
        ),
        RustItemModel::Impl(item) => with_methods(
            analysis,
            file,
            module,
            item,
            item.members.len() as int,
        ),
        RustItemModel::Trait(item) => with_defaults(
            analysis,
            file,
            module,
            item,
            item.members.len() as int,
        ),
        RustItemModel::Module(inner) => match inner.items {
            Some(items) => with_items(
                analysis,
                file,
                module.push(inner.name),
                items,
                items.len(),
            ),
            None => analysis,
        },
        RustItemModel::Other => analysis,
    }
}

/// Adds the items of a module to an analysis.
pub fn analyze_items(
    file: &SourcePath,
    module: &Vec<String>,
    items: &Vec<RustItem>,
    analysis: &mut FileAnalysis,
)
    ensures
        final(analysis)@ == with_items(
            old(analysis)@,
            file@,
            texts(module@),
            views(items@),
            items@.len(),
        ),
    decreases items,
{
    let ghost start = analysis@;
    let ghost path = texts(module@);
    let ghost all = views(items@);
    let empty: Vec<RustNode> = Vec::new();
    let mut index: usize = 0;
    proof {
        assert(views(empty@) =~= Seq::<RustNodeModel>::empty());
    }
    while index < items.len()
        invariant
            index <= items@.len(),
            path == texts(module@),
            views(empty@) == Seq::<RustNodeModel>::empty(),
            all == views(items@),
            analysis@ == with_items(start, file@, path, all, index as nat),
        decreases items@.len() - index,
    {
        let item = &items[index];
        let ghost before = analysis@;
        assert(decreases_to!(items => item));
        proof {
            assert(all[index as int] == item@);
            item_parts(*item);
        }
        match item {
            RustItem::Function(function) => {
                let nodes = match &function.body {
                    Some(nodes) => nodes,
                    None => &empty,
                };
                add_function(
                    analysis,
                    file,
                    module,
                    None,
                    function,
                    nodes,
                    function.visibility == RustVisibility::Public,
                    None,
                );
            },
            RustItem::Impl(inner) => analyze_impl(file, module, inner, analysis),
            RustItem::Trait(inner) => analyze_trait(file, module, inner, analysis),
            RustItem::Module(inner) => {
                if let Some(nested) = &inner.items {
                    let mut path_of_nested = copy_texts(module);
                    path_of_nested.push(inner.name.clone());
                    proof {
                        assert(texts(path_of_nested@) =~= path.push(inner.name@));
                    }
                    assert(decreases_to!(item => inner));
                    assert(decreases_to!(inner => nested));
                    analyze_items(file, &path_of_nested, nested, analysis);
                }
            },
            RustItem::Other => {},
        }
        proof {
            assert(analysis@ == with_item(before, file@, path, item@));
            assert(with_items(start, file@, path, all, (index + 1) as nat) == with_item(
                before,
                file@,
                path,
                all[index as int],
            ));
        }
        index += 1;
    }
}

/// The analysis of a Rust source.
pub open spec fn source_analysis(
    file: Seq<char>,
    module: Seq<Seq<char>>,
    items: Seq<RustItemModel>,
) -> AnalysisModel {
    with_items(
        AnalysisModel {
            functions: Seq::empty(),
            facts: Seq::empty(),
            source_files: with_path(Seq::empty(), file),
            roots: Seq::empty(),
        },
        file,
        module,
        items,
        items.len(),
    )
}

/// Analyzes the items of a Rust source.
pub fn analyze_rust_items(file: &SourcePath, module: &Vec<String>, items: &Vec<RustItem>) -> (result:
    FileAnalysis)
    ensures
        result@ == source_analysis(file@, texts(module@), views(items@)),
{
    let mut analysis = FileAnalysis {
        functions: Vec::new(),
        facts: Vec::new(),
        source_files: Vec::new(),
        roots: Vec::new(),
    };
    proof {
        assert(path_models(analysis.source_files@) =~= Seq::empty());
    }
    insert_path(&mut analysis.source_files, file.clone());
    proof {
        assert(analysis@.functions =~= Seq::empty());
        assert(analysis@.facts =~= Seq::empty());
        assert(analysis@.roots =~= Seq::empty());
    }
    analyze_items(file, module, items, &mut analysis);
    analysis
}

/// The functions among the first `count` items of a module that a source can
/// be made to call.
pub open spec fn seedable_functions(
    items: Seq<RustItemModel>,
    module: Seq<Seq<char>>,
    found: Seq<SeedableModel>,
    count: nat,
) -> Seq<SeedableModel>
    decreases items, count,
{
    if count == 0 || count > items.len() {
        found
    } else {
        let before = seedable_functions(items, module, found, (count - 1) as nat);
        match items[count - 1] {
            RustItemModel::Function(function) => before.push(
                SeedableModel {
                    name: function.signature.name,
                    qualified_name: joined(module.push(function.signature.name), "::"@),
                    argument_count: function.signature.inputs.len() as usize,
                },
            ),
            RustItemModel::Module(inner) => match inner.items {
                Some(nested) => seedable_functions(
                    nested,
                    module.push(inner.name),
                    before,
                    nested.len(),
                ),
                None => before,
            },
            _ => before,
        }
    }
}

/// Finds the functions of a module that a source can be made to call.
pub fn collect_seedable_functions(
    items: &Vec<RustItem>,
    module: &Vec<String>,
    functions: &mut Vec<SeedableFunction>,
)
    ensures
        views(final(functions)@) == seedable_functions(
            views(items@),
            texts(module@),
            views(old(functions)@),
            items@.len(),
        ),
    decreases items,
{
    let ghost start = views(functions@);
    let ghost path = texts(module@);
    let ghost all = views(items@);
    let mut index: usize = 0;
    while index < items.len()
        invariant
            index <= items@.len(),
            path == texts(module@),
            all == views(items@),
            views(functions@) == seedable_functions(all, path, start, index as nat),
        decreases items@.len() - index,
    {
        let item = &items[index];
        let ghost before = views(functions@);
        assert(decreases_to!(items => item));
        proof {
            assert(all[index as int] == item@);
            item_parts(*item);
        }
        match item {
            RustItem::Function(function) => {
                let name = function.signature.name.clone();
                let mut parts = copy_texts(module);
                parts.push(name.clone());
                proof {
                    assert(texts(parts@) =~= path.push(name@));
                }
                let found = SeedableFunction {
                    name,
                    qualified_name: join_texts(&parts, "::"),
                    argument_count: function.signature.inputs.len(),
                };
                let ghost model = found@;
                functions.push(found);
                proof {
                    assert(views(functions@) =~= before.push(model));
                }
            },
            RustItem::Module(inner) => {
                if let Some(nested) = &inner.items {
                    let mut parts = copy_texts(module);
                    parts.push(inner.name.clone());
                    proof {
                        assert(texts(parts@) =~= path.push(inner.name@));
                    }
                    assert(decreases_to!(item => inner));
                    assert(decreases_to!(inner => nested));
                    collect_seedable_functions(nested, &parts, functions);
                }
            },
            _ => {},
        }
        index += 1;
    }
}

} // verus!
