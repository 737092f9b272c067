//! The language-neutral call graph: symbols, call sites, functions and the
//! call trees that are built from them.
use crate::paths::{same_place, SourcePath};
use crate::text::{
    comes_before, concat_texts, copy_texts, decimal, decimal_text, join_texts, joined, list_less,
    list_comes_before, list_order_laws, optional, same_list, same_optional, same_text, text_less,
    text_order_laws, texts,
};
use vstd::prelude::*;

verus! {

/// Identity of a semantic definition inside one analyzed program.
pub type NodeId = SymbolId;

/// Identity of one source call edge.
#[derive(Debug, PartialEq, Eq, PartialOrd, Ord, Hash)]
pub struct CallSiteId(pub String);

/// Name of a source language.
#[derive(Debug, PartialEq, Eq, PartialOrd, Ord, Hash)]
pub struct LanguageId(pub String);

/// A definition, named by its language, its modules, the type or module that
/// holds it, and its own name.
#[derive(Debug, PartialEq, Eq, PartialOrd, Ord, Hash)]
pub struct SymbolId {
    pub language: LanguageId,
    pub module: Vec<String>,
    pub container: Option<String>,
    pub name: String,
}

/// The characters that make up a symbol.
#[verifier::ext_equal]
pub struct SymbolModel {
    pub language: Seq<char>,
    pub module: Seq<Seq<char>>,
    pub container: Option<Seq<char>>,
    pub name: Seq<char>,
}

impl View for CallSiteId {
    type V = Seq<char>;

    open spec fn view(&self) -> Seq<char> {
        self.0@
    }
}

impl View for LanguageId {
    type V = Seq<char>;

    open spec fn view(&self) -> Seq<char> {
        self.0@
    }
}

impl View for SymbolId {
    type V = SymbolModel;

    open spec fn view(&self) -> SymbolModel {
        SymbolModel {
            language: self.language@,
            module: texts(self.module@),
            container: optional(self.container),
            name: self.name@,
        }
    }
}

/// What a call tree shows of a call: its plain text and, where types are
/// known, the text with types.
#[derive(Debug, PartialEq, Eq)]
pub struct CallLabel {
    pub default: String,
    pub typed: Option<String>,
}

#[verifier::ext_equal]
pub struct LabelModel {
    pub default: Seq<char>,
    pub typed: Option<Seq<char>>,
}

impl View for CallLabel {
    type V = LabelModel;

    open spec fn view(&self) -> LabelModel {
        LabelModel { default: self.default@, typed: optional(self.typed) }
    }
}

/// How a node of a call tree hangs on its parent. Roots use `Call`.
#[derive(Clone, Copy, Debug, PartialEq, Eq, Structural)]
pub enum CallRelation {
    Call,
    DispatchCandidate,
    /// A recursive call to an ancestor in the same tree. The key of the node
    /// is that of the ancestor.
    BackEdge,
}

/// A node of a call tree.
#[derive(Debug, PartialEq, Eq)]
pub struct CallNode {
    pub key: String,
    /// The edge that introduced this node. Roots have none.
    pub callsite: Option<CallSiteId>,
    pub label: CallLabel,
    pub relation: CallRelation,
    pub children: Vec<CallNode>,
}

#[verifier::ext_equal]
pub struct NodeModel {
    pub key: Seq<char>,
    pub callsite: Option<Seq<char>>,
    pub label: LabelModel,
    pub relation: CallRelation,
    pub children: Seq<NodeModel>,
}

/// The characters of an optional call-site identity.
pub open spec fn optional_site(site: Option<CallSiteId>) -> Option<Seq<char>> {
    match site {
        Some(site) => Some(site@),
        None => None,
    }
}

/// The model of a node of a call tree.
pub open spec fn node_model(node: CallNode) -> NodeModel
    decreases node,
{
    NodeModel {
        key: node.key@,
        callsite: optional_site(node.callsite),
        label: node.label@,
        relation: node.relation,
        children: Seq::new(
            node.children@.len(),
            |index: int|
                if 0 <= index < node.children@.len() {
                    node_model(node.children@[index])
                } else {
                    arbitrary()
                },
        ),
    }
}

impl View for CallNode {
    type V = NodeModel;

    open spec fn view(&self) -> NodeModel {
        node_model(*self)
    }
}

impl Clone for CallSiteId {
    fn clone(&self) -> (result: Self)
        ensures
            result@ == self@,
    {
        CallSiteId(self.0.clone())
    }
}

impl Clone for LanguageId {
    fn clone(&self) -> (result: Self)
        ensures
            result@ == self@,
    {
        LanguageId(self.0.clone())
    }
}

/// An equal optional string.
pub fn copy_optional(value: &Option<String>) -> (result: Option<String>)
    ensures
        optional(result) == optional(*value),
{
    match value {
        Some(value) => Some(value.clone()),
        None => None,
    }
}

impl Clone for SymbolId {
    fn clone(&self) -> (result: Self)
        ensures
            result@ == self@,
    {
        SymbolId {
            language: self.language.clone(),
            module: copy_texts(&self.module),
            container: copy_optional(&self.container),
            name: self.name.clone(),
        }
    }
}

impl Clone for CallLabel {
    fn clone(&self) -> (result: Self)
        ensures
            result@ == self@,
    {
        CallLabel { default: self.default.clone(), typed: copy_optional(&self.typed) }
    }
}

/// An equal optional call-site identity.
pub fn copy_site(site: &Option<CallSiteId>) -> (result: Option<CallSiteId>)
    ensures
        optional_site(result) == optional_site(*site),
{
    match site {
        Some(site) => Some(site.clone()),
        None => None,
    }
}

/// The models of a list of call-tree nodes.
pub open spec fn node_models(nodes: Seq<CallNode>) -> Seq<NodeModel> {
    nodes.map_values(|node: CallNode| node@)
}

impl CallNode {
    /// The model of a node holds the models of its children.
    pub proof fn children_view(&self)
        ensures
            self@.children == node_models(self.children@),
    {
        assert(self@.children =~= node_models(self.children@));
    }
}

impl Clone for CallNode {
    fn clone(&self) -> (result: Self)
        ensures
            result@ == self@,
        decreases self,
    {
        let mut children: Vec<CallNode> = Vec::new();
        let mut index: usize = 0;
        while index < self.children.len()
            invariant
                index <= self.children@.len(),
                children@.len() == index,
                forall|k: int| 0 <= k < index ==> (#[trigger] children@[k])@ == self.children@[k]@,
            decreases self.children@.len() - index,
        {
            let child = &self.children[index];
            assert(decreases_to!(self => child));
            children.push(child.clone());
            index += 1;
        }
        let result = CallNode {
            key: self.key.clone(),
            callsite: copy_site(&self.callsite),
            label: self.label.clone(),
            relation: self.relation,
            children,
        };
        proof {
            assert(result@.children =~= self@.children);
        }
        result
    }
}

impl Default for CallRelation {
    fn default() -> (result: Self)
        ensures
            result == CallRelation::Call,
    {
        CallRelation::Call
    }
}

/// The parts of a symbol's path: its modules, its container and its name.
pub open spec fn symbol_parts(symbol: SymbolModel) -> Seq<Seq<char>> {
    match symbol.container {
        Some(container) => symbol.module.push(container).push(symbol.name),
        None => symbol.module.push(symbol.name),
    }
}

/// A symbol as text: the language, `://`, and the parts joined by `::`.
pub open spec fn symbol_text(symbol: SymbolModel) -> Seq<char> {
    symbol.language + "://"@ + joined(symbol_parts(symbol), "::"@)
}

/// The name of a symbol, behind its container where it has one.
pub open spec fn short_name(symbol: SymbolModel) -> Seq<char> {
    match symbol.container {
        Some(container) => container + "::"@ + symbol.name,
        None => symbol.name,
    }
}

impl LanguageId {
    pub fn new(value: &str) -> (result: Self)
        ensures
            result@ == value@,
    {
        LanguageId(value.to_owned())
    }

    /// The language as text.
    pub fn to_text(&self) -> (result: String)
        ensures
            result@ == self@,
    {
        self.0.clone()
    }
}

impl SymbolId {
    /// The name, behind the container where there is one.
    pub fn short_name(&self) -> (result: String)
        ensures
            result@ == short_name(self@),
    {
        match &self.container {
            Some(container) => {
                let mut result = container.clone();
                result.append("::");
                result.append(self.name.as_str());
                result
            },
            None => self.name.clone(),
        }
    }

    /// The modules, the container and the name.
    pub fn qualified_parts(&self) -> (result: Vec<&str>)
        ensures
            result@.map_values(|part: &str| part@) == symbol_parts(self@),
    {
        let mut result: Vec<&str> = Vec::new();
        let mut index: usize = 0;
        while index < self.module.len()
            invariant
                index <= self.module@.len(),
                result@.len() == index,
                forall|k: int| 0 <= k < index ==> (#[trigger] result@[k])@ == self.module@[k]@,
            decreases self.module@.len() - index,
        {
            result.push(self.module[index].as_str());
            index += 1;
        }
        if let Some(container) = &self.container {
            result.push(container.as_str());
        }
        result.push(self.name.as_str());
        proof {
            assert(result@.map_values(|part: &str| part@) =~= symbol_parts(self@));
        }
        result
    }

    /// The parts as owned strings.
    pub fn owned_parts(&self) -> (result: Vec<String>)
        ensures
            texts(result@) == symbol_parts(self@),
    {
        let mut result = copy_texts(&self.module);
        if let Some(container) = &self.container {
            result.push(container.clone());
        }
        result.push(self.name.clone());
        proof {
            assert(texts(result@) =~= symbol_parts(self@));
        }
        result
    }

    /// The symbol as text: the language, `://`, and the parts joined by `::`.
    pub fn to_text(&self) -> (result: String)
        ensures
            result@ == symbol_text(self@),
    {
        let mut result = self.language.to_text();
        result.append("://");
        result.append(join_texts(&self.owned_parts(), "::").as_str());
        result
    }

    /// Whether two symbols are the same.
    pub fn same(&self, other: &SymbolId) -> (result: bool)
        ensures
            result == (self@ == other@),
    {
        same_text(self.language.0.as_str(), other.language.0.as_str()) && same_text(
            self.name.as_str(),
            other.name.as_str(),
        ) && same_optional(&self.container, &other.container) && same_list(
            &self.module,
            &other.module,
        )
    }

    /// Whether this symbol comes before another: by language, modules,
    /// container and name.
    pub fn before(&self, other: &SymbolId) -> (result: bool)
        ensures
            result == symbol_less(self@, other@),
    {
        if !same_text(self.language.0.as_str(), other.language.0.as_str()) {
            return comes_before(self.language.0.as_str(), other.language.0.as_str());
        }
        if !same_list(&self.module, &other.module) {
            return list_comes_before(&self.module, &other.module);
        }
        if !same_optional(&self.container, &other.container) {
            return match (&self.container, &other.container) {
                (None, Some(_)) => true,
                (Some(left), Some(right)) => comes_before(left.as_str(), right.as_str()),
                _ => false,
            };
        }
        comes_before(self.name.as_str(), other.name.as_str())
    }
}

/// Whether one optional string comes before another; none comes first.
pub open spec fn option_less(left: Option<Seq<char>>, right: Option<Seq<char>>) -> bool {
    match (left, right) {
        (None, Some(_)) => true,
        (Some(left), Some(right)) => text_less(left, right),
        _ => false,
    }
}

/// Whether one symbol comes before another: by language, modules, container
/// and name.
pub open spec fn symbol_less(left: SymbolModel, right: SymbolModel) -> bool {
    if left.language != right.language {
        text_less(left.language, right.language)
    } else if left.module != right.module {
        list_less(left.module, right.module)
    } else if left.container != right.container {
        option_less(left.container, right.container)
    } else {
        text_less(left.name, right.name)
    }
}

/// The order of symbols is a strict total order.
pub proof fn symbol_order_laws(left: SymbolModel, right: SymbolModel, third: SymbolModel)
    ensures
        !symbol_less(left, left),
        symbol_less(left, right) ==> !symbol_less(right, left),
        symbol_less(left, right) || symbol_less(right, left) || left == right,
        symbol_less(left, right) && symbol_less(right, third) ==> symbol_less(left, third),
{
    text_order_laws(left.language, right.language, third.language);
    text_order_laws(left.name, right.name, third.name);
    list_order_laws(left.module, right.module, third.module);
    match (left.container, right.container, third.container) {
        (Some(a), Some(b), Some(c)) => text_order_laws(a, b, c),
        (Some(a), Some(b), None) => text_order_laws(a, b, a),
        _ => {},
    }
}

impl CallLabel {
    pub fn new(default: &str) -> (result: Self)
        ensures
            result@ == (LabelModel { default: default@, typed: None }),
    {
        CallLabel { default: default.to_owned(), typed: None }
    }

    pub fn with_types(default: &str, typed: &str) -> (result: Self)
        ensures
            result@ == (LabelModel { default: default@, typed: Some(typed@) }),
    {
        CallLabel { default: default.to_owned(), typed: Some(typed.to_owned()) }
    }

    /// The text to show: with types where they are asked for and known.
    pub fn text(&self, show_types: bool) -> (result: &str)
        ensures
            result@ == label_text(self@, show_types),
    {
        if show_types {
            match &self.typed {
                Some(typed) => typed.as_str(),
                None => self.default.as_str(),
            }
        } else {
            self.default.as_str()
        }
    }

    /// The label with `suffix` behind both of its texts.
    pub fn with_suffix(&self, suffix: &str) -> (result: Self)
        ensures
            result@ == suffixed(self@, suffix@),
    {
        CallLabel {
            default: concat_texts(self.default.as_str(), suffix),
            typed: match &self.typed {
                Some(typed) => Some(concat_texts(typed.as_str(), suffix)),
                None => None,
            },
        }
    }
}

/// The text that a label shows.
pub open spec fn label_text(label: LabelModel, show_types: bool) -> Seq<char> {
    match label.typed {
        Some(typed) if show_types => typed,
        _ => label.default,
    }
}

/// A label with `suffix` behind both of its texts.
pub open spec fn suffixed(label: LabelModel, suffix: Seq<char>) -> LabelModel {
    LabelModel {
        default: label.default + suffix,
        typed: match label.typed {
            Some(typed) => Some(typed + suffix),
            None => None,
        },
    }
}

/// What a suffixed label shows is what the label shows, then the suffix.
pub proof fn suffix_follows_the_shown_text(label: LabelModel, suffix: Seq<char>, show_types: bool)
    ensures
        label_text(suffixed(label, suffix), show_types) == label_text(label, show_types) + suffix,
{
}

/// A stretch of a source file. Lines count from one, columns from zero.
#[derive(Debug, PartialEq, Eq)]
pub struct SourceSpan {
    pub file: SourcePath,
    pub start_line: usize,
    pub start_column: usize,
    pub start_byte: Option<usize>,
    pub end_line: usize,
    pub end_column: usize,
    pub end_byte: Option<usize>,
}

#[verifier::ext_equal]
pub struct SpanModel {
    pub file: Seq<char>,
    pub start_line: usize,
    pub start_column: usize,
    pub start_byte: Option<usize>,
    pub end_line: usize,
    pub end_column: usize,
    pub end_byte: Option<usize>,
}

impl View for SourceSpan {
    type V = SpanModel;

    open spec fn view(&self) -> SpanModel {
        SpanModel {
            file: self.file@,
            start_line: self.start_line,
            start_column: self.start_column,
            start_byte: self.start_byte,
            end_line: self.end_line,
            end_column: self.end_column,
            end_byte: self.end_byte,
        }
    }
}

impl Clone for SourceSpan {
    fn clone(&self) -> (result: Self)
        ensures
            result@ == self@,
    {
        SourceSpan {
            file: self.file.clone(),
            start_line: self.start_line,
            start_column: self.start_column,
            start_byte: self.start_byte,
            end_line: self.end_line,
            end_column: self.end_column,
            end_byte: self.end_byte,
        }
    }
}

/// Whether two stretches are the same stretch of the same file.
pub open spec fn same_span(left: SpanModel, right: SpanModel) -> bool {
    &&& same_place(left.file, right.file)
    &&& left.start_line == right.start_line
    &&& left.start_column == right.start_column
    &&& left.start_byte == right.start_byte
    &&& left.end_line == right.end_line
    &&& left.end_column == right.end_column
    &&& left.end_byte == right.end_byte
}

fn same_byte(left: Option<usize>, right: Option<usize>) -> (result: bool)
    ensures
        result == (left == right),
{
    match (left, right) {
        (Some(left), Some(right)) => left == right,
        (None, None) => true,
        _ => false,
    }
}

impl SourceSpan {
    /// Whether two stretches are the same stretch of the same file.
    pub fn same(&self, other: &SourceSpan) -> (result: bool)
        ensures
            result == same_span(self@, other@),
    {
        self.start_line == other.start_line && self.start_column == other.start_column
            && self.end_line == other.end_line && self.end_column == other.end_column && same_byte(
            self.start_byte,
            other.start_byte,
        ) && same_byte(self.end_byte, other.end_byte) && self.file.same(&other.file)
    }
}

/// How a call is written.
#[derive(Debug, PartialEq, Eq)]
pub enum CallSyntax {
    Path(Vec<String>),
    SelfMethod(String),
    Method { receiver: String, method: String },
    /// A callee that is an expression rather than a name.
    Expression(String),
    /// A call that stays hidden until a compiler has confirmed it.
    CompilerConfirmed(Box<CallSyntax>),
}

pub enum SyntaxModel {
    Path(Seq<Seq<char>>),
    SelfMethod(Seq<char>),
    Method { receiver: Seq<char>, method: Seq<char> },
    Expression(Seq<char>),
    CompilerConfirmed(Box<SyntaxModel>),
}

impl View for CallSyntax {
    type V = SyntaxModel;

    open spec fn view(&self) -> SyntaxModel
        decreases self,
    {
        match self {
            CallSyntax::Path(parts) => SyntaxModel::Path(texts(parts@)),
            CallSyntax::SelfMethod(method) => SyntaxModel::SelfMethod(method@),
            CallSyntax::Method { receiver, method } => SyntaxModel::Method {
                receiver: receiver@,
                method: method@,
            },
            CallSyntax::Expression(text) => SyntaxModel::Expression(text@),
            CallSyntax::CompilerConfirmed(inner) => SyntaxModel::CompilerConfirmed(
                Box::new((**inner).view()),
            ),
        }
    }
}

impl Clone for CallSyntax {
    fn clone(&self) -> (result: Self)
        ensures
            result@ == self@,
        decreases self,
    {
        match self {
            CallSyntax::Path(parts) => CallSyntax::Path(copy_texts(parts)),
            CallSyntax::SelfMethod(method) => CallSyntax::SelfMethod(method.clone()),
            CallSyntax::Method { receiver, method } => CallSyntax::Method {
                receiver: receiver.clone(),
                method: method.clone(),
            },
            CallSyntax::Expression(text) => CallSyntax::Expression(text.clone()),
            CallSyntax::CompilerConfirmed(inner) => CallSyntax::CompilerConfirmed(
                Box::new((**inner).clone()),
            ),
        }
    }
}

/// The callee as it is written, without the arguments.
pub open spec fn key_fragment(syntax: SyntaxModel) -> Seq<char>
    decreases syntax,
{
    match syntax {
        SyntaxModel::Path(parts) => joined(parts, "::"@),
        SyntaxModel::SelfMethod(method) => "self."@ + method,
        SyntaxModel::Method { receiver, method } => receiver + "."@ + method,
        SyntaxModel::Expression(text) => text,
        SyntaxModel::CompilerConfirmed(inner) => key_fragment(*inner),
    }
}

/// The syntax under any demand for a compiler's confirmation.
pub open spec fn visible_syntax(syntax: SyntaxModel) -> SyntaxModel
    decreases syntax,
{
    match syntax {
        SyntaxModel::CompilerConfirmed(inner) => visible_syntax(*inner),
        _ => syntax,
    }
}

impl CallSyntax {
    /// The callee as it is written, without the arguments.
    pub fn key_fragment(&self) -> (result: String)
        ensures
            result@ == key_fragment(self@),
        decreases self,
    {
        match self {
            CallSyntax::Path(parts) => join_texts(parts, "::"),
            CallSyntax::SelfMethod(method) => concat_texts("self.", method.as_str()),
            CallSyntax::Method { receiver, method } => {
                let mut result = receiver.clone();
                result.append(".");
                result.append(method.as_str());
                result
            },
            CallSyntax::Expression(text) => text.clone(),
            CallSyntax::CompilerConfirmed(inner) => (**inner).key_fragment(),
        }
    }

    /// The syntax under any demand for a compiler's confirmation.
    pub fn visible(&self) -> (result: &CallSyntax)
        ensures
            result@ == visible_syntax(self@),
            !(result is CompilerConfirmed),
        decreases self,
    {
        match self {
            CallSyntax::CompilerConfirmed(inner) => (**inner).visible(),
            _ => self,
        }
    }

    /// Whether the call stays hidden until a compiler has confirmed it.
    pub fn requires_compiler_confirmation(&self) -> (result: bool)
        ensures
            result == (self@ is CompilerConfirmed),
    {
        match self {
            CallSyntax::CompilerConfirmed(_) => true,
            _ => false,
        }
    }
}

/// The identity of a source call: what is called and where it stands.
pub open spec fn source_site(syntax: SyntaxModel, span: SpanModel) -> Seq<char> {
    key_fragment(syntax) + "@"@ + decimal(span.start_line as nat) + ":"@ + decimal(
        span.start_column as nat,
    ) + "-"@ + decimal(span.end_line as nat) + ":"@ + decimal(span.end_column as nat)
}

impl CallSiteId {
    /// The identity of a source call: what is called and where it stands.
    pub fn source(syntax: &CallSyntax, span: &SourceSpan) -> (result: Self)
        ensures
            result@ == source_site(syntax@, span@),
    {
        let mut text = syntax.key_fragment();
        text.append("@");
        text.append(decimal_text(span.start_line).as_str());
        text.append(":");
        text.append(decimal_text(span.start_column).as_str());
        text.append("-");
        text.append(decimal_text(span.end_line).as_str());
        text.append(":");
        text.append(decimal_text(span.end_column).as_str());
        CallSiteId(text)
    }
}

/// Why a candidate set is justified when it is complete.
#[derive(Clone, Copy, Debug, PartialEq, Eq, Structural)]
pub enum DispatchEvidence {
    /// Concrete values were followed to this exact call site.
    ExactFlow,
    /// A closed set of candidates was proved for this call site.
    ClosedSet,
}

/// What an evidence is called.
pub open spec fn evidence_text(evidence: DispatchEvidence) -> Seq<char> {
    match evidence {
        DispatchEvidence::ExactFlow => "exact-flow"@,
        DispatchEvidence::ClosedSet => "closed-set"@,
    }
}

impl DispatchEvidence {
    /// The evidence as text.
    pub fn to_text(&self) -> (result: String)
        ensures
            result@ == evidence_text(*self),
    {
        match self {
            DispatchEvidence::ExactFlow => "exact-flow".to_owned(),
            DispatchEvidence::ClosedSet => "closed-set".to_owned(),
        }
    }
}

impl Default for DispatchEvidence {
    fn default() -> (result: Self)
        ensures
            result == DispatchEvidence::ExactFlow,
    {
        DispatchEvidence::ExactFlow
    }
}

/// Why a call is not, or only partly, resolved. The variants stand in order.
#[derive(Clone, Copy, Debug, PartialEq, Eq, PartialOrd, Ord, Structural)]
pub enum UnresolvedReason {
    OpaqueInput,
    ExternalCode,
    ExternalMemory,
    FunctionPointer,
    CrossCrateBoundary,
    AnalysisLimit,
    UnsupportedConstruct,
}

/// What a reason is called.
pub open spec fn reason_text(reason: UnresolvedReason) -> Seq<char> {
    match reason {
        UnresolvedReason::OpaqueInput => "opaque input"@,
        UnresolvedReason::ExternalCode => "external code"@,
        UnresolvedReason::ExternalMemory => "external memory"@,
        UnresolvedReason::FunctionPointer => "function pointer"@,
        UnresolvedReason::CrossCrateBoundary => "cross-crate boundary"@,
        UnresolvedReason::AnalysisLimit => "analysis limit"@,
        UnresolvedReason::UnsupportedConstruct => "unsupported construct"@,
    }
}

/// The place of a reason among the reasons.
pub open spec fn reason_rank(reason: UnresolvedReason) -> int {
    match reason {
        UnresolvedReason::OpaqueInput => 0,
        UnresolvedReason::ExternalCode => 1,
        UnresolvedReason::ExternalMemory => 2,
        UnresolvedReason::FunctionPointer => 3,
        UnresolvedReason::CrossCrateBoundary => 4,
        UnresolvedReason::AnalysisLimit => 5,
        UnresolvedReason::UnsupportedConstruct => 6,
    }
}

impl UnresolvedReason {
    /// The reason as text.
    pub fn to_text(&self) -> (result: String)
        ensures
            result@ == reason_text(*self),
    {
        match self {
            UnresolvedReason::OpaqueInput => "opaque input".to_owned(),
            UnresolvedReason::ExternalCode => "external code".to_owned(),
            UnresolvedReason::ExternalMemory => "external memory".to_owned(),
            UnresolvedReason::FunctionPointer => "function pointer".to_owned(),
            UnresolvedReason::CrossCrateBoundary => "cross-crate boundary".to_owned(),
            UnresolvedReason::AnalysisLimit => "analysis limit".to_owned(),
            UnresolvedReason::UnsupportedConstruct => "unsupported construct".to_owned(),
        }
    }

    /// The place of this reason among the reasons.
    pub fn rank(&self) -> (result: u8)
        ensures
            result == reason_rank(*self),
    {
        match self {
            UnresolvedReason::OpaqueInput => 0,
            UnresolvedReason::ExternalCode => 1,
            UnresolvedReason::ExternalMemory => 2,
            UnresolvedReason::FunctionPointer => 3,
            UnresolvedReason::CrossCrateBoundary => 4,
            UnresolvedReason::AnalysisLimit => 5,
            UnresolvedReason::UnsupportedConstruct => 6,
        }
    }
}

/// How completely an indirect call site is resolved.
#[derive(Clone, Copy, Debug, PartialEq, Eq, Structural)]
pub enum DispatchResolution {
    Complete,
    /// The candidates are proven, and another, opaque source may reach the
    /// call too.
    Partial,
    Unresolved,
}

impl Default for DispatchResolution {
    fn default() -> (result: Self)
        ensures
            result == DispatchResolution::Complete,
    {
        DispatchResolution::Complete
    }
}

/// A function that an indirect call may reach.
#[derive(Debug, PartialEq, Eq)]
pub struct DispatchCandidate {
    pub target: SymbolId,
    pub label: CallLabel,
}

#[verifier::ext_equal]
pub struct CandidateModel {
    pub target: SymbolModel,
    pub label: LabelModel,
}

impl View for DispatchCandidate {
    type V = CandidateModel;

    open spec fn view(&self) -> CandidateModel {
        CandidateModel { target: self.target@, label: self.label@ }
    }
}

impl Clone for DispatchCandidate {
    fn clone(&self) -> (result: Self)
        ensures
            result@ == self@,
    {
        DispatchCandidate { target: self.target.clone(), label: self.label.clone() }
    }
}

/// What a call reaches, as far as a language backend knows it.
#[derive(Debug, PartialEq, Eq)]
pub enum CallTarget {
    /// Nothing is known but the syntax.
    Unresolved,
    /// A typed indirect call whose callable value is not known.
    Indirect { signature: Option<String>, reason: UnresolvedReason },
    Direct(SymbolId),
    Dynamic {
        dispatch: SymbolId,
        candidates: Vec<DispatchCandidate>,
        resolution: DispatchResolution,
        evidence: DispatchEvidence,
        /// In order, each reason once.
        unresolved_reasons: Vec<UnresolvedReason>,
    },
}

pub enum TargetModel {
    Unresolved,
    Indirect { signature: Option<Seq<char>>, reason: UnresolvedReason },
    Direct(SymbolModel),
    Dynamic {
        dispatch: SymbolModel,
        candidates: Seq<CandidateModel>,
        resolution: DispatchResolution,
        evidence: DispatchEvidence,
        unresolved_reasons: Seq<UnresolvedReason>,
    },
}

/// The models of a list of candidates.
pub open spec fn candidate_models(candidates: Seq<DispatchCandidate>) -> Seq<CandidateModel> {
    candidates.map_values(|candidate: DispatchCandidate| candidate@)
}

impl View for CallTarget {
    type V = TargetModel;

    open spec fn view(&self) -> TargetModel {
        match self {
            CallTarget::Unresolved => TargetModel::Unresolved,
            CallTarget::Indirect { signature, reason } => TargetModel::Indirect {
                signature: optional(*signature),
                reason: *reason,
            },
            CallTarget::Direct(symbol) => TargetModel::Direct(symbol@),
            CallTarget::Dynamic {
                dispatch,
                candidates,
                resolution,
                evidence,
                unresolved_reasons,
            } => TargetModel::Dynamic {
                dispatch: dispatch@,
                candidates: candidate_models(candidates@),
                resolution: *resolution,
                evidence: *evidence,
                unresolved_reasons: unresolved_reasons@,
            },
        }
    }
}

/// A list with equal candidates.
pub fn copy_candidates(candidates: &Vec<DispatchCandidate>) -> (result: Vec<DispatchCandidate>)
    ensures
        candidate_models(result@) == candidate_models(candidates@),
{
    let mut result: Vec<DispatchCandidate> = Vec::new();
    let mut index: usize = 0;
    while index < candidates.len()
        invariant
            index <= candidates@.len(),
            result@.len() == index,
            forall|k: int| 0 <= k < index ==> (#[trigger] result@[k])@ == candidates@[k]@,
        decreases candidates@.len() - index,
    {
        result.push(candidates[index].clone());
        index += 1;
    }
    proof {
        assert(candidate_models(result@) =~= candidate_models(candidates@));
    }
    result
}

/// A list with the same reasons.
pub fn copy_reasons(reasons: &Vec<UnresolvedReason>) -> (result: Vec<UnresolvedReason>)
    ensures
        result@ == reasons@,
{
    let mut result: Vec<UnresolvedReason> = Vec::new();
    let mut index: usize = 0;
    while index < reasons.len()
        invariant
            index <= reasons@.len(),
            result@ == reasons@.take(index as int),
        decreases reasons@.len() - index,
    {
        proof {
            assert(reasons@.take(index + 1) =~= reasons@.take(index as int).push(
                reasons@[index as int],
            ));
        }
        result.push(reasons[index]);
        index += 1;
    }
    proof {
        assert(reasons@.take(reasons@.len() as int) =~= reasons@);
    }
    result
}

impl Clone for CallTarget {
    fn clone(&self) -> (result: Self)
        ensures
            result@ == self@,
    {
        match self {
            CallTarget::Unresolved => CallTarget::Unresolved,
            CallTarget::Indirect { signature, reason } => CallTarget::Indirect {
                signature: copy_optional(signature),
                reason: *reason,
            },
            CallTarget::Direct(symbol) => CallTarget::Direct(symbol.clone()),
            CallTarget::Dynamic {
                dispatch,
                candidates,
                resolution,
                evidence,
                unresolved_reasons,
            } => CallTarget::Dynamic {
                dispatch: dispatch.clone(),
                candidates: copy_candidates(candidates),
                resolution: *resolution,
                evidence: *evidence,
                unresolved_reasons: copy_reasons(unresolved_reasons),
            },
        }
    }
}

impl Default for CallTarget {
    fn default() -> (result: Self)
        ensures
            result@ is Unresolved,
    {
        CallTarget::Unresolved
    }
}

/// A call in the body of a function.
#[derive(Debug, PartialEq, Eq)]
pub struct CallSite {
    /// Kept apart from the callee, because one function may call the same
    /// target more than once.
    pub id: CallSiteId,
    pub syntax: CallSyntax,
    pub target: CallTarget,
    /// Formatted by the language that the call is written in.
    pub label: CallLabel,
    pub span: SourceSpan,
}

#[verifier::ext_equal]
pub struct SiteModel {
    pub id: Seq<char>,
    pub syntax: SyntaxModel,
    pub target: TargetModel,
    pub label: LabelModel,
    pub span: SpanModel,
}

impl View for CallSite {
    type V = SiteModel;

    open spec fn view(&self) -> SiteModel {
        SiteModel {
            id: self.id@,
            syntax: self.syntax@,
            target: self.target@,
            label: self.label@,
            span: self.span@,
        }
    }
}

impl Clone for CallSite {
    fn clone(&self) -> (result: Self)
        ensures
            result@ == self@,
    {
        CallSite {
            id: self.id.clone(),
            syntax: self.syntax.clone(),
            target: self.target.clone(),
            label: self.label.clone(),
            span: self.span.clone(),
        }
    }
}

/// A function and the calls in its body.
#[derive(Debug, PartialEq, Eq)]
pub struct FunctionInfo {
    pub id: SymbolId,
    /// Shown only where the function is the root of a tree.
    pub label: CallLabel,
    pub public: bool,
    pub calls: Vec<CallSite>,
    pub span: SourceSpan,
}

#[verifier::ext_equal]
pub struct FunctionModel {
    pub id: SymbolModel,
    pub label: LabelModel,
    pub public: bool,
    pub calls: Seq<SiteModel>,
    pub span: SpanModel,
}

/// The models of a list of call sites.
pub open spec fn site_models(calls: Seq<CallSite>) -> Seq<SiteModel> {
    calls.map_values(|call: CallSite| call@)
}

impl View for FunctionInfo {
    type V = FunctionModel;

    open spec fn view(&self) -> FunctionModel {
        FunctionModel {
            id: self.id@,
            label: self.label@,
            public: self.public,
            calls: site_models(self.calls@),
            span: self.span@,
        }
    }
}

/// A list with equal call sites.
pub fn copy_calls(calls: &Vec<CallSite>) -> (result: Vec<CallSite>)
    ensures
        site_models(result@) == site_models(calls@),
{
    let mut result: Vec<CallSite> = Vec::new();
    let mut index: usize = 0;
    while index < calls.len()
        invariant
            index <= calls@.len(),
            result@.len() == index,
            forall|k: int| 0 <= k < index ==> (#[trigger] result@[k])@ == calls@[k]@,
        decreases calls@.len() - index,
    {
        result.push(calls[index].clone());
        index += 1;
    }
    proof {
        assert(site_models(result@) =~= site_models(calls@));
    }
    result
}

impl Clone for FunctionInfo {
    fn clone(&self) -> (result: Self)
        ensures
            result@ == self@,
    {
        FunctionInfo {
            id: self.id.clone(),
            label: self.label.clone(),
            public: self.public,
            calls: copy_calls(&self.calls),
            span: self.span.clone(),
        }
    }
}

/// Something that a language backend says of a definition.
#[derive(Debug, PartialEq, Eq)]
pub struct LanguageFact {
    pub subject: SymbolId,
    pub namespace: LanguageId,
    pub kind: String,
    pub key: String,
    pub value: String,
    pub span: SourceSpan,
}

#[verifier::ext_equal]
pub struct FactModel {
    pub subject: SymbolModel,
    pub namespace: Seq<char>,
    pub kind: Seq<char>,
    pub key: Seq<char>,
    pub value: Seq<char>,
    pub span: SpanModel,
}

impl View for LanguageFact {
    type V = FactModel;

    open spec fn view(&self) -> FactModel {
        FactModel {
            subject: self.subject@,
            namespace: self.namespace@,
            kind: self.kind@,
            key: self.key@,
            value: self.value@,
            span: self.span@,
        }
    }
}

impl Clone for LanguageFact {
    fn clone(&self) -> (result: Self)
        ensures
            result@ == self@,
    {
        LanguageFact {
            subject: self.subject.clone(),
            namespace: self.namespace.clone(),
            kind: self.kind.clone(),
            key: self.key.clone(),
            value: self.value.clone(),
            span: self.span.clone(),
        }
    }
}

/// What a language frontend found in some source files.
#[derive(Debug, PartialEq, Eq)]
pub struct SemanticCallGraph {
    pub functions: Vec<FunctionInfo>,
    pub facts: Vec<LanguageFact>,
    /// The files that were read, those without functions among them.
    pub source_files: Vec<SourcePath>,
    /// Roots that a compiler named. Roots are inferred only where there are
    /// none.
    pub roots: Vec<SymbolId>,
}

/// The graph fragment of one source file.
pub type FileAnalysis = SemanticCallGraph;

/// The models of a list of functions.
pub open spec fn function_models(functions: Seq<FunctionInfo>) -> Seq<FunctionModel> {
    functions.map_values(|function: FunctionInfo| function@)
}

/// The models of a list of facts.
pub open spec fn fact_models(facts: Seq<LanguageFact>) -> Seq<FactModel> {
    facts.map_values(|fact: LanguageFact| fact@)
}

/// The models of a list of symbols.
pub open spec fn symbol_models(symbols: Seq<SymbolId>) -> Seq<SymbolModel> {
    symbols.map_values(|symbol: SymbolId| symbol@)
}

/// The characters of each path.
pub open spec fn path_models(paths: Seq<SourcePath>) -> Seq<Seq<char>> {
    paths.map_values(|path: SourcePath| path@)
}

#[verifier::ext_equal]
pub struct AnalysisModel {
    pub functions: Seq<FunctionModel>,
    pub facts: Seq<FactModel>,
    pub source_files: Seq<Seq<char>>,
    pub roots: Seq<SymbolModel>,
}

impl View for SemanticCallGraph {
    type V = AnalysisModel;

    open spec fn view(&self) -> AnalysisModel {
        AnalysisModel {
            functions: function_models(self.functions@),
            facts: fact_models(self.facts@),
            source_files: path_models(self.source_files@),
            roots: symbol_models(self.roots@),
        }
    }
}

impl Default for SemanticCallGraph {
    fn default() -> (result: Self)
        ensures
            result@ == (AnalysisModel {
                functions: Seq::empty(),
                facts: Seq::empty(),
                source_files: Seq::empty(),
                roots: Seq::empty(),
            }),
    {
        SemanticCallGraph {
            functions: Vec::new(),
            facts: Vec::new(),
            source_files: Vec::new(),
            roots: Vec::new(),
        }
    }
}

} // verus!
