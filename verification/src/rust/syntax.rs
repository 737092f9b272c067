//! Rust sources as `syn` reads them, in plain form.
use crate::lists::views;
use crate::rust::items::{
    GenericKind, GenericParameter, PatternShape, RustCall, RustClosure, RustDelimiter, RustExpr,
    RustFunction, RustImpl, RustInput, RustItem, RustItemModel, RustLocal, RustMacro, RustMember,
    RustMethodCall, RustModule, RustNode, RustOutput, RustPattern, RustPredicate, RustShape,
    RustSignature, RustSpan, RustToken, RustTrait, RustType, RustVisibility, TypeShape,
};
use proc_macro2::{TokenStream, TokenTree};
use quote::ToTokens;
use syn::parse::Parser;
use syn::spanned::Spanned;
use syn::visit::Visit;
use syn::Expr;
use vstd::prelude::*;

verus! {

/// `proc_macro2::Span`, opaque: only the functions below look into it.
#[verifier::external_type_specification]
#[verifier::external_body]
pub struct ExSpan(proc_macro2::Span);

/// `proc_macro2::Delimiter`, opaque: only the functions below look into it.
#[verifier::external_type_specification]
#[verifier::external_body]
pub struct ExDelimiter(proc_macro2::Delimiter);

/// `proc_macro2::TokenStream`, opaque: only the functions below look into it.
#[verifier::external_type_specification]
#[verifier::external_body]
pub struct ExTokenStream(proc_macro2::TokenStream);

/// `syn::Path`, opaque: only the functions below look into it.
#[verifier::external_type_specification]
#[verifier::external_body]
pub struct ExPath(syn::Path);

/// `syn::Expr`, opaque: only the functions below look into it.
#[verifier::external_type_specification]
#[verifier::external_body]
pub struct ExExpr(syn::Expr);

/// `syn::ExprCall`, opaque: only the functions below look into it.
#[verifier::external_type_specification]
#[verifier::external_body]
pub struct ExExprCall(syn::ExprCall);

/// `syn::ExprMethodCall`, opaque: only the functions below look into it.
#[verifier::external_type_specification]
#[verifier::external_body]
pub struct ExExprMethodCall(syn::ExprMethodCall);

/// `syn::ExprClosure`, opaque: only the functions below look into it.
#[verifier::external_type_specification]
#[verifier::external_body]
pub struct ExExprClosure(syn::ExprClosure);

/// `syn::Local`, opaque: only the functions below look into it.
#[verifier::external_type_specification]
#[verifier::external_body]
pub struct ExLocal(syn::Local);

/// `syn::Macro`, opaque: only the functions below look into it.
#[verifier::external_type_specification]
#[verifier::external_body]
pub struct ExMacro(syn::Macro);

/// `syn::ItemFn`, opaque: only the functions below look into it.
#[verifier::external_type_specification]
#[verifier::external_body]
pub struct ExItemFn(syn::ItemFn);

/// `syn::Block`, opaque: only the functions below look into it.
#[verifier::external_type_specification]
#[verifier::external_body]
pub struct ExBlock(syn::Block);

/// `syn::Type`, opaque: only the functions below look into it.
#[verifier::external_type_specification]
#[verifier::external_body]
pub struct ExType(syn::Type);

/// `syn::Pat`, opaque: only the functions below look into it.
#[verifier::external_type_specification]
#[verifier::external_body]
pub struct ExPat(syn::Pat);

/// `syn::GenericParam`, opaque: only the functions below look into it.
#[verifier::external_type_specification]
#[verifier::external_body]
pub struct ExGenericParam(syn::GenericParam);

/// `syn::WherePredicate`, opaque: only the functions below look into it.
#[verifier::external_type_specification]
#[verifier::external_body]
pub struct ExWherePredicate(syn::WherePredicate);

/// `syn::FnArg`, opaque: only the functions below look into it.
#[verifier::external_type_specification]
#[verifier::external_body]
pub struct ExFnArg(syn::FnArg);

/// `syn::ReturnType`, opaque: only the functions below look into it.
#[verifier::external_type_specification]
#[verifier::external_body]
pub struct ExReturnType(syn::ReturnType);

/// `syn::Signature`, opaque: only the functions below look into it.
#[verifier::external_type_specification]
#[verifier::external_body]
pub struct ExSignature(syn::Signature);

/// `syn::Visibility`, opaque: only the functions below look into it.
#[verifier::external_type_specification]
#[verifier::external_body]
pub struct ExVisibility(syn::Visibility);

/// `syn::ImplItem`, opaque: only the functions below look into it.
#[verifier::external_type_specification]
#[verifier::external_body]
pub struct ExImplItem(syn::ImplItem);

/// `syn::TraitItem`, opaque: only the functions below look into it.
#[verifier::external_type_specification]
#[verifier::external_body]
pub struct ExTraitItem(syn::TraitItem);

/// `syn::Item`, opaque: only the functions below look into it.
#[verifier::external_type_specification]
#[verifier::external_body]
pub struct ExItem(syn::Item);

/// Where `proc_macro2::Span` says that something stands. Nothing is claimed of
/// it here: it is a part of what `parse_items` gives.
#[verifier::external_body]
fn read_span(span: proc_macro2::Span) -> (result: RustSpan) {
    RustSpan {
        start_line: span.start().line,
        start_column: span.start().column,
        end_line: span.end().line,
        end_column: span.end().column,
    }
}

/// A `proc_macro2::Delimiter`, variant by variant.
#[verifier::external_body]
fn read_delimiter(delimiter: proc_macro2::Delimiter) -> (result: RustDelimiter) {
    match delimiter {
        proc_macro2::Delimiter::Parenthesis => RustDelimiter::Parenthesis,
        proc_macro2::Delimiter::Brace => RustDelimiter::Brace,
        proc_macro2::Delimiter::Bracket => RustDelimiter::Bracket,
        proc_macro2::Delimiter::None => RustDelimiter::Hidden,
    }
}

/// The trees of a `proc_macro2::TokenStream`, each with its span. A literal is
/// a word, as it is written.
#[verifier::external_body]
fn read_tokens(tokens: TokenStream) -> (result: Vec<RustToken>) {
    let read = |token: TokenTree| {
        let span = read_span(token.span());
        match token {
            TokenTree::Ident(ident) => RustToken::Word(span, ident.to_string()),
            TokenTree::Literal(literal) => RustToken::Word(span, literal.to_string()),
            TokenTree::Punct(punct) => RustToken::Punct(span, punct.as_char()),
            TokenTree::Group(group) => {
                let delimiter = read_delimiter(group.delimiter());
                RustToken::Group(span, delimiter, read_tokens(group.stream()))
            }
        }
    };
    tokens.into_iter().map(read).collect()
}

/// The identifiers of the segments of a `syn::Path`.
#[verifier::external_body]
fn read_names(path: &syn::Path) -> (result: Vec<String>) {
    path.segments.iter().map(|segment| segment.ident.to_string()).collect()
}

/// The identifier that a `syn::Path` is, where it is one.
#[verifier::external_body]
fn read_name(path: &syn::Path) -> (result: Option<String>) {
    path.get_ident().map(|ident| ident.to_string())
}

/// What variant of `syn::Expr` an expression is, as far as that matters.
#[verifier::external_body]
fn read_shape(value: &syn::Expr) -> (result: RustShape) {
    let read = |value: &Expr| Box::new(read_shape(value));
    match value {
        Expr::Path(inner) => RustShape::Path(read_names(&inner.path), read_name(&inner.path)),
        Expr::Field(inner) => RustShape::Field(read(&inner.base)),
        Expr::Index(inner) => RustShape::Index(read(&inner.expr)),
        Expr::Paren(inner) => RustShape::Paren(read(&inner.expr)),
        Expr::Group(inner) => RustShape::Group(read(&inner.expr)),
        Expr::Reference(inner) => RustShape::Reference(read(&inner.expr)),
        Expr::Unary(inner) => RustShape::Unary(read(&inner.expr)),
        Expr::Closure(inner) => RustShape::Closure(read_span(inner.span())),
        _ => RustShape::Other,
    }
}

/// Notes where `syn::visit` meets closures.
struct ClosureReader {
    spans: Vec<RustSpan>,
}

impl<'ast> Visit<'ast> for ClosureReader {
    /// Notes a closure, then goes on with what stands in it, by
    /// `syn::visit::visit_expr_closure`.
    #[verifier::external_body]
    fn visit_expr_closure(&mut self, node: &'ast syn::ExprClosure) {
        self.spans.push(read_span(node.span()));
        syn::visit::visit_expr_closure(self, node);
    }
}

/// A `syn::Expr`, with the closures that `syn::visit::visit_expr` meets in it.
#[verifier::external_body]
fn read_expression(value: &syn::Expr) -> (result: RustExpr) {
    let mut reader = ClosureReader { spans: Vec::new() };
    reader.visit_expr(value);
    RustExpr {
        tokens: read_tokens(value.to_token_stream()),
        closures: reader.spans,
        shape: read_shape(value),
    }
}

/// What variant of `syn::Type` a type is, as far as that matters.
#[verifier::external_body]
fn read_type_shape(value: &syn::Type) -> (result: TypeShape) {
    match value {
        syn::Type::Path(path) => TypeShape::Path(path.qself.is_some(), read_names(&path.path)),
        syn::Type::Reference(inner) => TypeShape::Reference(Box::new(read_type_shape(&inner.elem))),
        syn::Type::Group(inner) => TypeShape::Group(Box::new(read_type_shape(&inner.elem))),
        syn::Type::Paren(inner) => TypeShape::Paren(Box::new(read_type_shape(&inner.elem))),
        _ => TypeShape::Other,
    }
}

/// A `syn::Type`.
#[verifier::external_body]
fn read_type(value: &syn::Type) -> (result: RustType) {
    RustType { tokens: read_tokens(value.to_token_stream()), shape: read_type_shape(value) }
}

/// A `syn::Pat`, with the variant that it is, as far as that matters.
#[verifier::external_body]
fn read_pattern(value: &syn::Pat) -> (result: RustPattern) {
    let shape = match value {
        syn::Pat::Ident(inner) => PatternShape::Ident(inner.ident.to_string()),
        syn::Pat::Reference(inner) => PatternShape::Reference(Box::new(read_pattern(&inner.pat))),
        syn::Pat::Wild(_) => PatternShape::Wild,
        syn::Pat::Type(inner) => {
            PatternShape::Typed(Box::new(read_pattern(&inner.pat)), read_type(&inner.ty))
        }
        _ => PatternShape::Other,
    };
    RustPattern { tokens: read_tokens(value.to_token_stream()), shape }
}

/// A `syn::GenericParam`, variant by variant.
#[verifier::external_body]
fn read_generic(value: &syn::GenericParam) -> (result: GenericParameter) {
    let kind = match value {
        syn::GenericParam::Lifetime(inner) => GenericKind::Lifetime {
            name: inner.lifetime.to_string(),
            outlived: inner.bounds.iter().map(|bound| bound.to_string()).collect(),
        },
        syn::GenericParam::Type(inner) => {
            let bounds = inner.bounds.iter().map(|bound| read_tokens(bound.to_token_stream()));
            GenericKind::Type { name: inner.ident.to_string(), bounds: bounds.collect() }
        }
        syn::GenericParam::Const(inner) => {
            let ty = read_tokens(inner.ty.to_token_stream());
            GenericKind::Const { name: inner.ident.to_string(), ty }
        }
    };
    GenericParameter { kind, span: read_span(value.span()) }
}

/// A `syn::WherePredicate`, with what it says of a type.
#[verifier::external_body]
fn read_predicate(value: &syn::WherePredicate) -> (result: RustPredicate) {
    match value {
        syn::WherePredicate::Type(inner) => {
            let read = |bound: &syn::TypeParamBound| read_tokens(bound.to_token_stream());
            let bounds = inner.bounds.iter().map(read).collect();
            RustPredicate::Type { bounded: read_tokens(inner.bounded_ty.to_token_stream()), bounds }
        }
        _ => RustPredicate::Other,
    }
}

/// A `syn::FnArg`, variant by variant.
#[verifier::external_body]
fn read_input(value: &syn::FnArg) -> (result: RustInput) {
    let span = read_span(value.span());
    match value {
        syn::FnArg::Receiver(inner) => RustInput::Receiver {
            reference: inner.reference.is_some(),
            mutable: inner.mutability.is_some(),
            span,
        },
        syn::FnArg::Typed(inner) => {
            RustInput::Typed { pattern: read_pattern(&inner.pat), ty: read_type(&inner.ty), span }
        }
    }
}

/// A `syn::ReturnType`, variant by variant.
#[verifier::external_body]
fn read_output(value: &syn::ReturnType) -> (result: Option<RustOutput>) {
    match value {
        syn::ReturnType::Type(_, inner) => {
            let span = read_span(inner.span());
            Some(RustOutput { ty: read_tokens(inner.to_token_stream()), span })
        }
        syn::ReturnType::Default => None,
    }
}

/// A `syn::Signature`, field by field.
#[verifier::external_body]
fn read_signature(value: &syn::Signature) -> (result: RustSignature) {
    let clauses = value.generics.where_clause.iter();
    RustSignature {
        name: value.ident.to_string(),
        is_async: value.asyncness.is_some(),
        is_unsafe: value.unsafety.is_some(),
        is_const: value.constness.is_some(),
        generics: value.generics.params.iter().map(read_generic).collect(),
        predicates: clauses.flat_map(|clause| &clause.predicates).map(read_predicate).collect(),
        inputs: value.inputs.iter().map(read_input).collect(),
        output: read_output(&value.output),
        span: read_span(value.span()),
    }
}

/// Notes what `syn::visit` meets in a body.
struct NodeReader {
    nodes: Vec<RustNode>,
}

impl<'ast> Visit<'ast> for NodeReader {
    /// Notes a call, with what `syn::visit::visit_expr_call` meets in it.
    #[verifier::external_body]
    fn visit_expr_call(&mut self, node: &'ast syn::ExprCall) {
        let mut inner = NodeReader { nodes: Vec::new() };
        syn::visit::visit_expr_call(&mut inner, node);
        self.nodes.push(RustNode::Call(RustCall {
            span: read_span(node.span()),
            function: read_expression(&node.func),
            arguments: node.args.iter().map(read_expression).collect(),
            inner: inner.nodes,
        }));
    }

    /// Notes a call of a method, with what `syn::visit::visit_expr_method_call`
    /// meets in it.
    #[verifier::external_body]
    fn visit_expr_method_call(&mut self, node: &'ast syn::ExprMethodCall) {
        let mut inner = NodeReader { nodes: Vec::new() };
        syn::visit::visit_expr_method_call(&mut inner, node);
        self.nodes.push(RustNode::Method(RustMethodCall {
            span: read_span(node.span()),
            receiver: read_expression(&node.receiver),
            method: node.method.to_string(),
            turbofish: read_tokens(node.turbofish.to_token_stream()),
            arguments: node.args.iter().map(read_expression).collect(),
            inner: inner.nodes,
        }));
    }

    /// Notes a closure: what `visit_expr` meets in its body, and what
    /// `syn::visit::visit_expr_closure` meets in it where its body is empty.
    #[verifier::external_body]
    fn visit_expr_closure(&mut self, node: &'ast syn::ExprClosure) {
        let (mut head, mut body) = (node.clone(), NodeReader { nodes: Vec::new() });
        body.visit_expr(&node.body);
        head.body = Box::new(syn::Expr::Verbatim(TokenStream::new()));
        let mut inner = NodeReader { nodes: Vec::new() };
        syn::visit::visit_expr_closure(&mut inner, &head);
        self.nodes.push(RustNode::Closure(RustClosure {
            span: read_span(node.span()),
            is_async: node.asyncness.is_some(),
            is_static: node.movability.is_some(),
            is_move: node.capture.is_some(),
            inputs: node.inputs.iter().map(read_pattern).collect(),
            head: inner.nodes,
            body: body.nodes,
        }));
    }

    /// Notes a `let`, with what `syn::visit::visit_local` meets in it.
    #[verifier::external_body]
    fn visit_local(&mut self, node: &'ast syn::Local) {
        let mut inner = NodeReader { nodes: Vec::new() };
        syn::visit::visit_local(&mut inner, node);
        self.nodes.push(RustNode::Local(RustLocal {
            pattern: read_pattern(&node.pat),
            value: node.init.as_ref().map(|init| read_shape(&init.expr)),
            inner: inner.nodes,
        }));
    }

    /// Notes a macro, with what stands in its arguments where `parse2` of
    /// `Punctuated::parse_terminated` reads them as expressions.
    #[verifier::external_body]
    fn visit_macro(&mut self, node: &'ast syn::Macro) {
        let parser = syn::punctuated::Punctuated::<syn::Expr, syn::token::Comma>::parse_terminated;
        let expressions = parser.parse2(node.tokens.clone()).ok().map(|list| {
            let mut inner = NodeReader { nodes: Vec::new() };
            list.iter().for_each(|expression| inner.visit_expr(expression));
            inner.nodes
        });
        let path = read_names(&node.path);
        self.nodes.push(RustNode::Macro(RustMacro { path, expressions }));
    }

    /// Notes a function in a body, with what `syn::visit::visit_item_fn` meets
    /// in it.
    #[verifier::external_body]
    fn visit_item_fn(&mut self, node: &'ast syn::ItemFn) {
        let mut inner = NodeReader { nodes: Vec::new() };
        syn::visit::visit_item_fn(&mut inner, node);
        self.nodes.push(RustNode::Function(inner.nodes));
    }
}

/// What `syn::visit::visit_block` meets in a body.
#[verifier::external_body]
fn read_body(block: &syn::Block) -> (result: Vec<RustNode>) {
    let mut reader = NodeReader { nodes: Vec::new() };
    reader.visit_block(block);
    reader.nodes
}

/// A `syn::Visibility`, variant by variant.
#[verifier::external_body]
fn read_visibility(value: &syn::Visibility) -> (result: RustVisibility) {
    match value {
        syn::Visibility::Public(_) => RustVisibility::Public,
        syn::Visibility::Restricted(_) => RustVisibility::Restricted,
        syn::Visibility::Inherited => RustVisibility::Inherited,
    }
}

/// A `syn::ImplItem`: a function field by field, or something else.
#[verifier::external_body]
fn read_impl_item(value: &syn::ImplItem) -> (result: RustMember) {
    match value {
        syn::ImplItem::Fn(inner) => RustMember::Function(RustFunction {
            visibility: read_visibility(&inner.vis),
            signature: read_signature(&inner.sig),
            body: Some(read_body(&inner.block)),
            span: read_span(inner.span()),
        }),
        _ => RustMember::Other,
    }
}

/// A `syn::TraitItem`: a function field by field, or something else. A member
/// of a trait has no visibility of its own.
#[verifier::external_body]
fn read_trait_item(value: &syn::TraitItem) -> (result: RustMember) {
    match value {
        syn::TraitItem::Fn(inner) => RustMember::Function(RustFunction {
            visibility: RustVisibility::Inherited,
            signature: read_signature(&inner.sig),
            body: inner.default.as_ref().map(read_body),
            span: read_span(inner.span()),
        }),
        _ => RustMember::Other,
    }
}

/// A `syn::ItemFn`, field by field.
#[verifier::external_body]
fn read_function(value: &syn::ItemFn) -> (result: RustFunction) {
    RustFunction {
        visibility: read_visibility(&value.vis),
        signature: read_signature(&value.sig),
        body: Some(read_body(&value.block)),
        span: read_span(value.span()),
    }
}

/// A `syn::Item`: a function, an `impl`, a trait or a module field by field,
/// or something else.
#[verifier::external_body]
fn read_item(value: &syn::Item) -> (result: RustItem) {
    match value {
        syn::Item::Fn(inner) => RustItem::Function(read_function(inner)),
        syn::Item::Impl(inner) => RustItem::Impl(read_impl(inner)),
        syn::Item::Trait(inner) => RustItem::Trait(read_trait(inner)),
        syn::Item::Mod(inner) => RustItem::Module(RustModule {
            name: inner.ident.to_string(),
            items: inner.content.as_ref().map(|(_, items)| items.iter().map(read_item).collect()),
        }),
        _ => RustItem::Other,
    }
}

/// `syn::ItemImpl`, opaque: only the functions below look into it.
#[verifier::external_type_specification]
#[verifier::external_body]
pub struct ExItemImpl(syn::ItemImpl);

/// `syn::ItemTrait`, opaque: only the functions below look into it.
#[verifier::external_type_specification]
#[verifier::external_body]
pub struct ExItemTrait(syn::ItemTrait);

/// A `syn::ItemImpl`, field by field.
#[verifier::external_body]
fn read_impl(value: &syn::ItemImpl) -> (result: RustImpl) {
    let path = value.trait_.as_ref().map(|(_, path, _)| path.to_token_stream());
    RustImpl {
        self_type: read_tokens(value.self_ty.to_token_stream()),
        trait_path: path.map(read_tokens),
        members: value.items.iter().map(read_impl_item).collect(),
    }
}

/// A `syn::ItemTrait`, field by field.
#[verifier::external_body]
fn read_trait(value: &syn::ItemTrait) -> (result: RustTrait) {
    RustTrait {
        name: value.ident.to_string(),
        visibility: read_visibility(&value.vis),
        members: value.items.iter().map(read_trait_item).collect(),
    }
}

/// The items of a source, as `syn::parse_file` reads them, or what it says of a
/// source that is no Rust file.
pub uninterp spec fn rust_items(source: Seq<char>) -> Result<Seq<RustItemModel>, Seq<char>>;

/// What `parse_items` gives, as its name says it.
pub open spec fn items_result(result: Result<Vec<RustItem>, String>) -> Result<
    Seq<RustItemModel>,
    Seq<char>,
> {
    match result {
        Ok(items) => Ok(views(items@)),
        Err(message) => Err(message@),
    }
}

/// `syn::parse_file` reads a source into items, or fails with a message. What
/// it makes of a source depends on nothing but the source. What the items are
/// is left unsaid: that is the grammar of Rust.
#[verifier::external_body]
pub(crate) fn parse_items(source: &str) -> (result: Result<Vec<RustItem>, String>)
    ensures
        items_result(result) == rust_items(source@),
{
    match syn::parse_file(source) {
        Ok(file) => Ok(file.items.iter().map(read_item).collect()),
        Err(error) => Err(error.to_string()),
    }
}

} // verus!
