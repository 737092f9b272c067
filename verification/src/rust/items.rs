//! What a Rust source says: its items, and of each body what matters to a
//! call graph, in the order in which it stands in the source.
use crate::lists::views;
use crate::text::{optional, texts};
use vstd::prelude::*;

verus! {

/// A stretch of a Rust source. Lines count from one, columns from zero.
#[derive(Clone, Copy, Debug, PartialEq, Eq, Structural)]
pub struct RustSpan {
    pub start_line: usize,
    pub start_column: usize,
    pub end_line: usize,
    pub end_column: usize,
}

/// What stands around a group of tokens.
#[derive(Clone, Copy, Debug, PartialEq, Eq, Structural)]
pub enum RustDelimiter {
    Parenthesis,
    Brace,
    Bracket,
    Hidden,
}

/// A token of a Rust source, with where it stands.
#[derive(Debug)]
pub enum RustToken {
    Word(RustSpan, String),
    Punct(RustSpan, char),
    Group(RustSpan, RustDelimiter, Vec<RustToken>),
}

/// What an expression is.
#[derive(Debug)]
pub enum RustShape {
    /// A path: the names in it, and its name where it is a lone identifier.
    Path(Vec<String>, Option<String>),
    Field(Box<RustShape>),
    Index(Box<RustShape>),
    Paren(Box<RustShape>),
    Group(Box<RustShape>),
    Reference(Box<RustShape>),
    Unary(Box<RustShape>),
    Closure(RustSpan),
    Other,
}

/// An expression, with where the closures in it stand. A closure comes before
/// those that stand in it.
#[derive(Debug)]
pub struct RustExpr {
    pub tokens: Vec<RustToken>,
    pub closures: Vec<RustSpan>,
    pub shape: RustShape,
}

/// What a type is.
#[derive(Debug)]
pub enum TypeShape {
    /// A path: whether it begins with a type in angle brackets, and the names
    /// in it.
    Path(bool, Vec<String>),
    Reference(Box<TypeShape>),
    Group(Box<TypeShape>),
    Paren(Box<TypeShape>),
    Other,
}

#[derive(Debug)]
pub struct RustType {
    pub tokens: Vec<RustToken>,
    pub shape: TypeShape,
}

/// What a pattern is.
#[derive(Debug)]
pub enum PatternShape {
    Ident(String),
    Reference(Box<RustPattern>),
    Wild,
    Typed(Box<RustPattern>, RustType),
    Other,
}

#[derive(Debug)]
pub struct RustPattern {
    pub tokens: Vec<RustToken>,
    pub shape: PatternShape,
}

#[derive(Debug)]
pub enum GenericKind {
    Lifetime { name: String, outlived: Vec<String> },
    Type { name: String, bounds: Vec<Vec<RustToken>> },
    Const { name: String, ty: Vec<RustToken> },
}

#[derive(Debug)]
pub struct GenericParameter {
    pub kind: GenericKind,
    pub span: RustSpan,
}

#[derive(Debug)]
pub enum RustPredicate {
    Type { bounded: Vec<RustToken>, bounds: Vec<Vec<RustToken>> },
    Other,
}

#[derive(Debug)]
pub enum RustInput {
    Receiver { reference: bool, mutable: bool, span: RustSpan },
    Typed { pattern: RustPattern, ty: RustType, span: RustSpan },
}

#[derive(Debug)]
pub struct RustOutput {
    pub ty: Vec<RustToken>,
    pub span: RustSpan,
}

#[derive(Debug)]
pub struct RustSignature {
    pub name: String,
    pub is_async: bool,
    pub is_unsafe: bool,
    pub is_const: bool,
    pub generics: Vec<GenericParameter>,
    pub predicates: Vec<RustPredicate>,
    pub inputs: Vec<RustInput>,
    pub output: Option<RustOutput>,
    pub span: RustSpan,
}

/// A call of what an expression gives. What stands in the callee and in the
/// arguments is `inner`.
#[derive(Debug)]
pub struct RustCall {
    pub span: RustSpan,
    pub function: RustExpr,
    pub arguments: Vec<RustExpr>,
    pub inner: Vec<RustNode>,
}

/// A call of a method. What stands in the receiver and in the arguments is
/// `inner`.
#[derive(Debug)]
pub struct RustMethodCall {
    pub span: RustSpan,
    pub receiver: RustExpr,
    pub method: String,
    pub turbofish: Vec<RustToken>,
    pub arguments: Vec<RustExpr>,
    pub inner: Vec<RustNode>,
}

/// A closure. What stands in its parameters is `head`.
#[derive(Debug)]
pub struct RustClosure {
    pub span: RustSpan,
    pub is_async: bool,
    pub is_static: bool,
    pub is_move: bool,
    pub inputs: Vec<RustPattern>,
    pub head: Vec<RustNode>,
    pub body: Vec<RustNode>,
}

/// A `let`, with what its value is.
#[derive(Debug)]
pub struct RustLocal {
    pub pattern: RustPattern,
    pub value: Option<RustShape>,
    pub inner: Vec<RustNode>,
}

/// A macro, with the names in its path, and with what stands in it where that
/// is a list of expressions.
#[derive(Debug)]
pub struct RustMacro {
    pub path: Vec<String>,
    pub expressions: Option<Vec<RustNode>>,
}

/// What matters in a body.
#[derive(Debug)]
pub enum RustNode {
    Call(RustCall),
    Method(RustMethodCall),
    Closure(RustClosure),
    Local(RustLocal),
    Macro(RustMacro),
    /// A function in a body, with what matters in it.
    Function(Vec<RustNode>),
}

/// Who can name an item.
#[derive(Clone, Copy, Debug, PartialEq, Eq, Structural)]
pub enum RustVisibility {
    Public,
    Restricted,
    Inherited,
}

/// A function with its body. A method of a trait may have none.
#[derive(Debug)]
pub struct RustFunction {
    pub visibility: RustVisibility,
    pub signature: RustSignature,
    pub body: Option<Vec<RustNode>>,
    pub span: RustSpan,
}

/// What stands in an `impl` or in a trait.
#[derive(Debug)]
pub enum RustMember {
    Function(RustFunction),
    Other,
}

/// What a type has of its own, or what it has of a trait.
#[derive(Debug)]
pub struct RustImpl {
    pub self_type: Vec<RustToken>,
    pub trait_path: Option<Vec<RustToken>>,
    pub members: Vec<RustMember>,
}

#[derive(Debug)]
pub struct RustTrait {
    pub name: String,
    pub visibility: RustVisibility,
    pub members: Vec<RustMember>,
}

/// A module, with its items where they stand in the same file.
#[derive(Debug)]
pub struct RustModule {
    pub name: String,
    pub items: Option<Vec<RustItem>>,
}

#[derive(Debug)]
pub enum RustItem {
    Function(RustFunction),
    Impl(RustImpl),
    Trait(RustTrait),
    Module(RustModule),
    Other,
}

/// The model of a token.
#[verifier::ext_equal]
pub enum RustTokenModel {
    Word(RustSpan, Seq<char>),
    Punct(RustSpan, char),
    Group(RustSpan, RustDelimiter, Seq<RustTokenModel>),
}

/// The model of a token.
pub open spec fn token_model(token: RustToken) -> RustTokenModel
    decreases token,
{
    match token {
        RustToken::Word(span, word) => RustTokenModel::Word(span, word@),
        RustToken::Punct(span, mark) => RustTokenModel::Punct(span, mark),
        RustToken::Group(span, delimiter, inner) => RustTokenModel::Group(
            span,
            delimiter,
            Seq::new(
                inner@.len(),
                |index: int|
                    if 0 <= index < inner@.len() {
                        token_model(inner@[index])
                    } else {
                        arbitrary()
                    },
            ),
        ),
    }
}

impl View for RustToken {
    type V = RustTokenModel;

    open spec fn view(&self) -> RustTokenModel {
        token_model(*self)
    }
}

/// The model of a token is made of those of the tokens in it.
pub proof fn token_parts(token: RustToken)
    ensures
        match token {
            RustToken::Word(span, word) => token@ == RustTokenModel::Word(span, word@),
            RustToken::Punct(span, mark) => token@ == RustTokenModel::Punct(span, mark),
            RustToken::Group(span, delimiter, inner) => token@ == RustTokenModel::Group(
                span,
                delimiter,
                views(inner@),
            ),
        },
{
    if let RustToken::Group(span, delimiter, inner) = token {
        assert(token@->Group_2 =~= views(inner@));
    }
}

/// The models of lists of tokens.
pub open spec fn token_lists(lists: Seq<Vec<RustToken>>) -> Seq<Seq<RustTokenModel>> {
    lists.map_values(|list: Vec<RustToken>| views(list@))
}

/// The model of what an expression is.
#[verifier::ext_equal]
pub enum RustShapeModel {
    Path(Seq<Seq<char>>, Option<Seq<char>>),
    Field(Box<RustShapeModel>),
    Index(Box<RustShapeModel>),
    Paren(Box<RustShapeModel>),
    Group(Box<RustShapeModel>),
    Reference(Box<RustShapeModel>),
    Unary(Box<RustShapeModel>),
    Closure(RustSpan),
    Other,
}

/// The model of what an expression is.
pub open spec fn shape_model(shape: RustShape) -> RustShapeModel
    decreases shape,
{
    match shape {
        RustShape::Path(names, name) => RustShapeModel::Path(texts(names@), optional(name)),
        RustShape::Field(inner) => RustShapeModel::Field(Box::new(shape_model(*inner))),
        RustShape::Index(inner) => RustShapeModel::Index(Box::new(shape_model(*inner))),
        RustShape::Paren(inner) => RustShapeModel::Paren(Box::new(shape_model(*inner))),
        RustShape::Group(inner) => RustShapeModel::Group(Box::new(shape_model(*inner))),
        RustShape::Reference(inner) => RustShapeModel::Reference(Box::new(shape_model(*inner))),
        RustShape::Unary(inner) => RustShapeModel::Unary(Box::new(shape_model(*inner))),
        RustShape::Closure(span) => RustShapeModel::Closure(span),
        RustShape::Other => RustShapeModel::Other,
    }
}

impl View for RustShape {
    type V = RustShapeModel;

    open spec fn view(&self) -> RustShapeModel {
        shape_model(*self)
    }
}

/// The model of an expression.
#[verifier::ext_equal]
pub struct RustExprModel {
    pub tokens: Seq<RustTokenModel>,
    pub closures: Seq<RustSpan>,
    pub shape: RustShapeModel,
}

impl View for RustExpr {
    type V = RustExprModel;

    open spec fn view(&self) -> RustExprModel {
        RustExprModel {
            tokens: views(self.tokens@),
            closures: self.closures@,
            shape: self.shape@,
        }
    }
}

/// The model of what a type is.
#[verifier::ext_equal]
pub enum TypeShapeModel {
    Path(bool, Seq<Seq<char>>),
    Reference(Box<TypeShapeModel>),
    Group(Box<TypeShapeModel>),
    Paren(Box<TypeShapeModel>),
    Other,
}

/// The model of what a type is.
pub open spec fn type_shape_model(shape: TypeShape) -> TypeShapeModel
    decreases shape,
{
    match shape {
        TypeShape::Path(qualified, names) => TypeShapeModel::Path(qualified, texts(names@)),
        TypeShape::Reference(inner) => TypeShapeModel::Reference(
            Box::new(type_shape_model(*inner)),
        ),
        TypeShape::Group(inner) => TypeShapeModel::Group(Box::new(type_shape_model(*inner))),
        TypeShape::Paren(inner) => TypeShapeModel::Paren(Box::new(type_shape_model(*inner))),
        TypeShape::Other => TypeShapeModel::Other,
    }
}

impl View for TypeShape {
    type V = TypeShapeModel;

    open spec fn view(&self) -> TypeShapeModel {
        type_shape_model(*self)
    }
}

/// The model of a type.
#[verifier::ext_equal]
pub struct RustTypeModel {
    pub tokens: Seq<RustTokenModel>,
    pub shape: TypeShapeModel,
}

impl View for RustType {
    type V = RustTypeModel;

    open spec fn view(&self) -> RustTypeModel {
        RustTypeModel { tokens: views(self.tokens@), shape: self.shape@ }
    }
}

/// The model of what a pattern is.
#[verifier::ext_equal]
pub enum PatternShapeModel {
    Ident(Seq<char>),
    Reference(Box<RustPatternModel>),
    Wild,
    Typed(Box<RustPatternModel>, RustTypeModel),
    Other,
}

/// The model of a pattern.
#[verifier::ext_equal]
pub struct RustPatternModel {
    pub tokens: Seq<RustTokenModel>,
    pub shape: PatternShapeModel,
}

/// The model of a pattern.
pub open spec fn pattern_model(pattern: RustPattern) -> RustPatternModel
    decreases pattern,
{
    RustPatternModel {
        tokens: views(pattern.tokens@),
        shape: match pattern.shape {
            PatternShape::Ident(name) => PatternShapeModel::Ident(name@),
            PatternShape::Reference(inner) => PatternShapeModel::Reference(
                Box::new(pattern_model(*inner)),
            ),
            PatternShape::Wild => PatternShapeModel::Wild,
            PatternShape::Typed(inner, ty) => PatternShapeModel::Typed(
                Box::new(pattern_model(*inner)),
                ty@,
            ),
            PatternShape::Other => PatternShapeModel::Other,
        },
    }
}

impl View for RustPattern {
    type V = RustPatternModel;

    open spec fn view(&self) -> RustPatternModel {
        pattern_model(*self)
    }
}

/// The model of what a generic parameter is.
#[verifier::ext_equal]
pub enum GenericKindModel {
    Lifetime { name: Seq<char>, outlived: Seq<Seq<char>> },
    Type { name: Seq<char>, bounds: Seq<Seq<RustTokenModel>> },
    Const { name: Seq<char>, ty: Seq<RustTokenModel> },
}

impl View for GenericKind {
    type V = GenericKindModel;

    open spec fn view(&self) -> GenericKindModel {
        match self {
            GenericKind::Lifetime { name, outlived } => GenericKindModel::Lifetime {
                name: name@,
                outlived: texts(outlived@),
            },
            GenericKind::Type { name, bounds } => GenericKindModel::Type {
                name: name@,
                bounds: token_lists(bounds@),
            },
            GenericKind::Const { name, ty } => GenericKindModel::Const {
                name: name@,
                ty: views(ty@),
            },
        }
    }
}

/// The model of a generic parameter.
#[verifier::ext_equal]
pub struct GenericParameterModel {
    pub kind: GenericKindModel,
    pub span: RustSpan,
}

impl View for GenericParameter {
    type V = GenericParameterModel;

    open spec fn view(&self) -> GenericParameterModel {
        GenericParameterModel { kind: self.kind@, span: self.span }
    }
}

/// The model of a predicate.
#[verifier::ext_equal]
pub enum RustPredicateModel {
    Type { bounded: Seq<RustTokenModel>, bounds: Seq<Seq<RustTokenModel>> },
    Other,
}

impl View for RustPredicate {
    type V = RustPredicateModel;

    open spec fn view(&self) -> RustPredicateModel {
        match self {
            RustPredicate::Type { bounded, bounds } => RustPredicateModel::Type {
                bounded: views(bounded@),
                bounds: token_lists(bounds@),
            },
            RustPredicate::Other => RustPredicateModel::Other,
        }
    }
}

/// The model of a parameter.
#[verifier::ext_equal]
pub enum RustInputModel {
    Receiver { reference: bool, mutable: bool, span: RustSpan },
    Typed { pattern: RustPatternModel, ty: RustTypeModel, span: RustSpan },
}

impl View for RustInput {
    type V = RustInputModel;

    open spec fn view(&self) -> RustInputModel {
        match *self {
            RustInput::Receiver { reference, mutable, span } => RustInputModel::Receiver {
                reference,
                mutable,
                span,
            },
            RustInput::Typed { pattern, ty, span } => RustInputModel::Typed {
                pattern: pattern@,
                ty: ty@,
                span,
            },
        }
    }
}

/// The model of what a function gives back.
#[verifier::ext_equal]
pub struct RustOutputModel {
    pub ty: Seq<RustTokenModel>,
    pub span: RustSpan,
}

impl View for RustOutput {
    type V = RustOutputModel;

    open spec fn view(&self) -> RustOutputModel {
        RustOutputModel { ty: views(self.ty@), span: self.span }
    }
}

/// The model of a signature.
#[verifier::ext_equal]
pub struct RustSignatureModel {
    pub name: Seq<char>,
    pub is_async: bool,
    pub is_unsafe: bool,
    pub is_const: bool,
    pub generics: Seq<GenericParameterModel>,
    pub predicates: Seq<RustPredicateModel>,
    pub inputs: Seq<RustInputModel>,
    pub output: Option<RustOutputModel>,
    pub span: RustSpan,
}

impl View for RustSignature {
    type V = RustSignatureModel;

    open spec fn view(&self) -> RustSignatureModel {
        RustSignatureModel {
            name: self.name@,
            is_async: self.is_async,
            is_unsafe: self.is_unsafe,
            is_const: self.is_const,
            generics: views(self.generics@),
            predicates: views(self.predicates@),
            inputs: views(self.inputs@),
            output: match self.output {
                Some(output) => Some(output@),
                None => None,
            },
            span: self.span,
        }
    }
}

/// The model of a call.
#[verifier::ext_equal]
pub struct RustCallModel {
    pub span: RustSpan,
    pub function: RustExprModel,
    pub arguments: Seq<RustExprModel>,
    pub inner: Seq<RustNodeModel>,
}

/// The model of a call of a method.
#[verifier::ext_equal]
pub struct RustMethodCallModel {
    pub span: RustSpan,
    pub receiver: RustExprModel,
    pub method: Seq<char>,
    pub turbofish: Seq<RustTokenModel>,
    pub arguments: Seq<RustExprModel>,
    pub inner: Seq<RustNodeModel>,
}

/// The model of a closure.
#[verifier::ext_equal]
pub struct RustClosureModel {
    pub span: RustSpan,
    pub is_async: bool,
    pub is_static: bool,
    pub is_move: bool,
    pub inputs: Seq<RustPatternModel>,
    pub head: Seq<RustNodeModel>,
    pub body: Seq<RustNodeModel>,
}

/// The model of a `let`.
#[verifier::ext_equal]
pub struct RustLocalModel {
    pub pattern: RustPatternModel,
    pub value: Option<RustShapeModel>,
    pub inner: Seq<RustNodeModel>,
}

/// The model of a macro.
#[verifier::ext_equal]
pub struct RustMacroModel {
    pub path: Seq<Seq<char>>,
    pub expressions: Option<Seq<RustNodeModel>>,
}

/// The model of what matters in a body.
#[verifier::ext_equal]
pub enum RustNodeModel {
    Call(RustCallModel),
    Method(RustMethodCallModel),
    Closure(RustClosureModel),
    Local(RustLocalModel),
    Macro(RustMacroModel),
    Function(Seq<RustNodeModel>),
}

/// The models of what matters in a body.
pub open spec fn nodes_model(nodes: Vec<RustNode>) -> Seq<RustNodeModel>
    decreases nodes,
{
    Seq::new(
        nodes@.len(),
        |index: int|
            if 0 <= index < nodes@.len() {
                node_model(nodes@[index])
            } else {
                arbitrary()
            },
    )
}

/// The model of what an optional value is.
pub open spec fn optional_shape(shape: Option<RustShape>) -> Option<RustShapeModel> {
    match shape {
        Some(shape) => Some(shape@),
        None => None,
    }
}

/// The model of what matters in a body.
pub open spec fn node_model(node: RustNode) -> RustNodeModel
    decreases node,
{
    match node {
        RustNode::Call(call) => RustNodeModel::Call(
            RustCallModel {
                span: call.span,
                function: call.function@,
                arguments: views(call.arguments@),
                inner: nodes_model(call.inner),
            },
        ),
        RustNode::Method(call) => RustNodeModel::Method(
            RustMethodCallModel {
                span: call.span,
                receiver: call.receiver@,
                method: call.method@,
                turbofish: views(call.turbofish@),
                arguments: views(call.arguments@),
                inner: nodes_model(call.inner),
            },
        ),
        RustNode::Closure(closure) => RustNodeModel::Closure(
            RustClosureModel {
                span: closure.span,
                is_async: closure.is_async,
                is_static: closure.is_static,
                is_move: closure.is_move,
                inputs: views(closure.inputs@),
                head: nodes_model(closure.head),
                body: nodes_model(closure.body),
            },
        ),
        RustNode::Local(local) => RustNodeModel::Local(
            RustLocalModel {
                pattern: local.pattern@,
                value: optional_shape(local.value),
                inner: nodes_model(local.inner),
            },
        ),
        RustNode::Macro(inner) => RustNodeModel::Macro(
            RustMacroModel {
                path: texts(inner.path@),
                expressions: match inner.expressions {
                    Some(nodes) => Some(nodes_model(nodes)),
                    None => None,
                },
            },
        ),
        RustNode::Function(nodes) => RustNodeModel::Function(nodes_model(nodes)),
    }
}

impl View for RustNode {
    type V = RustNodeModel;

    open spec fn view(&self) -> RustNodeModel {
        node_model(*self)
    }
}

impl View for RustCall {
    type V = RustCallModel;

    open spec fn view(&self) -> RustCallModel {
        RustCallModel {
            span: self.span,
            function: self.function@,
            arguments: views(self.arguments@),
            inner: views(self.inner@),
        }
    }
}

impl View for RustMethodCall {
    type V = RustMethodCallModel;

    open spec fn view(&self) -> RustMethodCallModel {
        RustMethodCallModel {
            span: self.span,
            receiver: self.receiver@,
            method: self.method@,
            turbofish: views(self.turbofish@),
            arguments: views(self.arguments@),
            inner: views(self.inner@),
        }
    }
}

impl View for RustClosure {
    type V = RustClosureModel;

    open spec fn view(&self) -> RustClosureModel {
        RustClosureModel {
            span: self.span,
            is_async: self.is_async,
            is_static: self.is_static,
            is_move: self.is_move,
            inputs: views(self.inputs@),
            head: views(self.head@),
            body: views(self.body@),
        }
    }
}

impl View for RustLocal {
    type V = RustLocalModel;

    open spec fn view(&self) -> RustLocalModel {
        RustLocalModel {
            pattern: self.pattern@,
            value: optional_shape(self.value),
            inner: views(self.inner@),
        }
    }
}

/// The models of what matters in a body that may be missing.
pub open spec fn optional_nodes(nodes: Option<Vec<RustNode>>) -> Option<Seq<RustNodeModel>> {
    match nodes {
        Some(nodes) => Some(views(nodes@)),
        None => None,
    }
}

impl View for RustMacro {
    type V = RustMacroModel;

    open spec fn view(&self) -> RustMacroModel {
        RustMacroModel { path: texts(self.path@), expressions: optional_nodes(self.expressions) }
    }
}

proof fn nodes_are_views(nodes: Vec<RustNode>)
    ensures
        nodes_model(nodes) == views(nodes@),
{
    assert(nodes_model(nodes) =~= views(nodes@));
}

/// The model of what matters in a body is made of those of its parts.
pub proof fn node_parts(node: RustNode)
    ensures
        match node {
            RustNode::Call(call) => node@ == RustNodeModel::Call(call@),
            RustNode::Method(call) => node@ == RustNodeModel::Method(call@),
            RustNode::Closure(closure) => node@ == RustNodeModel::Closure(closure@),
            RustNode::Local(local) => node@ == RustNodeModel::Local(local@),
            RustNode::Macro(inner) => node@ == RustNodeModel::Macro(inner@),
            RustNode::Function(nodes) => node@ == RustNodeModel::Function(views(nodes@)),
        },
{
    match node {
        RustNode::Call(call) => nodes_are_views(call.inner),
        RustNode::Method(call) => nodes_are_views(call.inner),
        RustNode::Closure(closure) => {
            nodes_are_views(closure.head);
            nodes_are_views(closure.body);
        },
        RustNode::Local(local) => nodes_are_views(local.inner),
        RustNode::Macro(inner) => {
            if let Some(nodes) = inner.expressions {
                nodes_are_views(nodes);
            }
        },
        RustNode::Function(nodes) => nodes_are_views(nodes),
    }
}

/// The model of a function.
#[verifier::ext_equal]
pub struct RustFunctionModel {
    pub visibility: RustVisibility,
    pub signature: RustSignatureModel,
    pub body: Option<Seq<RustNodeModel>>,
    pub span: RustSpan,
}

impl View for RustFunction {
    type V = RustFunctionModel;

    open spec fn view(&self) -> RustFunctionModel {
        RustFunctionModel {
            visibility: self.visibility,
            signature: self.signature@,
            body: optional_nodes(self.body),
            span: self.span,
        }
    }
}

/// The model of what stands in an `impl` or in a trait.
#[verifier::ext_equal]
pub enum RustMemberModel {
    Function(RustFunctionModel),
    Other,
}

impl View for RustMember {
    type V = RustMemberModel;

    open spec fn view(&self) -> RustMemberModel {
        match self {
            RustMember::Function(function) => RustMemberModel::Function(function@),
            RustMember::Other => RustMemberModel::Other,
        }
    }
}

/// The model of an `impl`.
#[verifier::ext_equal]
pub struct RustImplModel {
    pub self_type: Seq<RustTokenModel>,
    pub trait_path: Option<Seq<RustTokenModel>>,
    pub members: Seq<RustMemberModel>,
}

impl View for RustImpl {
    type V = RustImplModel;

    open spec fn view(&self) -> RustImplModel {
        RustImplModel {
            self_type: views(self.self_type@),
            trait_path: match self.trait_path {
                Some(path) => Some(views(path@)),
                None => None,
            },
            members: views(self.members@),
        }
    }
}

/// The model of a trait.
#[verifier::ext_equal]
pub struct RustTraitModel {
    pub name: Seq<char>,
    pub visibility: RustVisibility,
    pub members: Seq<RustMemberModel>,
}

impl View for RustTrait {
    type V = RustTraitModel;

    open spec fn view(&self) -> RustTraitModel {
        RustTraitModel {
            name: self.name@,
            visibility: self.visibility,
            members: views(self.members@),
        }
    }
}

/// The model of a module.
#[verifier::ext_equal]
pub struct RustModuleModel {
    pub name: Seq<char>,
    pub items: Option<Seq<RustItemModel>>,
}

/// The model of an item.
#[verifier::ext_equal]
pub enum RustItemModel {
    Function(RustFunctionModel),
    Impl(RustImplModel),
    Trait(RustTraitModel),
    Module(RustModuleModel),
    Other,
}

/// The model of an item.
pub open spec fn item_model(item: RustItem) -> RustItemModel
    decreases item,
{
    match item {
        RustItem::Function(function) => RustItemModel::Function(function@),
        RustItem::Impl(inner) => RustItemModel::Impl(inner@),
        RustItem::Trait(inner) => RustItemModel::Trait(inner@),
        RustItem::Module(inner) => RustItemModel::Module(
            RustModuleModel {
                name: inner.name@,
                items: match inner.items {
                    Some(items) => Some(
                        Seq::new(
                            items@.len(),
                            |index: int|
                                if 0 <= index < items@.len() {
                                    item_model(items@[index])
                                } else {
                                    arbitrary()
                                },
                        ),
                    ),
                    None => None,
                },
            },
        ),
        RustItem::Other => RustItemModel::Other,
    }
}

impl View for RustItem {
    type V = RustItemModel;

    open spec fn view(&self) -> RustItemModel {
        item_model(*self)
    }
}

impl View for RustModule {
    type V = RustModuleModel;

    open spec fn view(&self) -> RustModuleModel {
        RustModuleModel {
            name: self.name@,
            items: match self.items {
                Some(items) => Some(views(items@)),
                None => None,
            },
        }
    }
}

/// The model of an item is made of those of its parts.
pub proof fn item_parts(item: RustItem)
    ensures
        match item {
            RustItem::Function(function) => item@ == RustItemModel::Function(function@),
            RustItem::Impl(inner) => item@ == RustItemModel::Impl(inner@),
            RustItem::Trait(inner) => item@ == RustItemModel::Trait(inner@),
            RustItem::Module(inner) => item@ == RustItemModel::Module(inner@),
            RustItem::Other => item@ == RustItemModel::Other,
        },
{
    if let RustItem::Module(inner) = item {
        if let Some(items) = inner.items {
            assert(item@->Module_0.items->0 =~= views(items@));
        }
    }
}

} // verus!
