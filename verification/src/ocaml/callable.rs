//! The functions that a callable value of an OCaml program may be.
use crate::files::KnownFile;
use crate::lists::{copy_list, views};
use crate::model::{
    copy_reasons, symbol_less, FactModel, FunctionInfo, FunctionModel, LanguageFact, LanguageId,
    SourceSpan, SpanModel, SymbolId, SymbolModel, UnresolvedReason,
};
use crate::ocaml::aliases::ModuleAlias;
use crate::ocaml::symbols::optional_position;
use crate::sets::{add_reason, add_reasons, with_reason, with_reasons};
use crate::text::{copy_texts, same_text, texts};
use vstd::prelude::*;

verus! {

/// How many symbols at the front, from `index` on, come before `symbol`.
pub open spec fn symbol_position(symbols: Seq<SymbolModel>, symbol: SymbolModel, index: nat) -> nat
    decreases symbols.len() - index,
{
    if index < symbols.len() && symbol_less(symbols[index as int], symbol) {
        symbol_position(symbols, symbol, index + 1)
    } else {
        index
    }
}

/// An ordered set of symbols with one more symbol.
pub open spec fn with_symbol(symbols: Seq<SymbolModel>, symbol: SymbolModel) -> Seq<SymbolModel> {
    let place = symbol_position(symbols, symbol, 0) as int;
    if place < symbols.len() && symbols[place] == symbol {
        symbols
    } else if place <= symbols.len() {
        symbols.insert(place, symbol)
    } else {
        symbols
    }
}

/// An ordered set of symbols with the first `count` of some more.
pub open spec fn with_symbols(
    symbols: Seq<SymbolModel>,
    more: Seq<SymbolModel>,
    count: int,
) -> Seq<SymbolModel>
    decreases count,
{
    if count <= 0 {
        symbols
    } else {
        with_symbol(with_symbols(symbols, more, count - 1), more[count - 1])
    }
}

/// Adds a symbol to an ordered set.
pub fn add_symbol(symbols: &mut Vec<SymbolId>, symbol: SymbolId)
    ensures
        views(final(symbols)@) == with_symbol(views(old(symbols)@), symbol@),
{
    let ghost before = views(symbols@);
    let mut index: usize = 0;
    while index < symbols.len() && symbols[index].before(&symbol)
        invariant
            index <= symbols@.len(),
            before == views(symbols@),
            symbol_position(before, symbol@, index as nat) == symbol_position(before, symbol@, 0),
        decreases symbols@.len() - index,
    {
        assert(before[index as int] == symbols@[index as int]@);
        index += 1;
    }
    proof {
        if index < symbols@.len() {
            assert(before[index as int] == symbols@[index as int]@);
        }
    }
    if index < symbols.len() && symbols[index].same(&symbol) {
        return ;
    }
    let ghost model = symbol@;
    symbols.insert(index, symbol);
    proof {
        assert(views(symbols@) =~= before.insert(index as int, model));
    }
}

fn add_symbols(symbols: &mut Vec<SymbolId>, more: &Vec<SymbolId>)
    ensures
        views(final(symbols)@) == with_symbols(
            views(old(symbols)@),
            views(more@),
            more@.len() as int,
        ),
{
    let ghost before = views(symbols@);
    let mut index: usize = 0;
    while index < more.len()
        invariant
            index <= more@.len(),
            views(symbols@) == with_symbols(before, views(more@), index as int),
        decreases more@.len() - index,
    {
        assert(views(more@)[index as int] == more@[index as int]@);
        add_symbol(symbols, more[index].clone());
        index += 1;
    }
}

/// The functions that a callable value may be, and why it may be others.
#[derive(Debug)]
pub struct CallableFlow {
    /// In order, each once.
    pub candidates: Vec<SymbolId>,
    /// In order, each once.
    pub unresolved_reasons: Vec<UnresolvedReason>,
}

#[verifier::ext_equal]
pub struct FlowModel {
    pub candidates: Seq<SymbolModel>,
    pub reasons: Seq<UnresolvedReason>,
}

impl View for CallableFlow {
    type V = FlowModel;

    open spec fn view(&self) -> FlowModel {
        FlowModel { candidates: views(self.candidates@), reasons: self.unresolved_reasons@ }
    }
}

impl Clone for CallableFlow {
    fn clone(&self) -> (result: Self)
        ensures
            result@ == self@,
    {
        CallableFlow {
            candidates: copy_list(&self.candidates),
            unresolved_reasons: copy_reasons(&self.unresolved_reasons),
        }
    }
}

/// The model of an optional value.
pub open spec fn optional_flow(flow: Option<CallableFlow>) -> Option<FlowModel> {
    match flow {
        Some(flow) => Some(flow@),
        None => None,
    }
}

/// A value that is nothing yet.
pub open spec fn empty_flow() -> FlowModel {
    FlowModel { candidates: Seq::empty(), reasons: Seq::empty() }
}

/// A value that is one function.
pub open spec fn single_flow(symbol: SymbolModel) -> FlowModel {
    FlowModel { candidates: seq![symbol], reasons: Seq::empty() }
}

/// A value of which nothing is known, and why.
pub open spec fn unknown_flow(reason: UnresolvedReason) -> FlowModel {
    FlowModel { candidates: Seq::empty(), reasons: seq![reason] }
}

/// A value that is one or the other of two.
pub open spec fn merged_flow(left: FlowModel, right: FlowModel) -> FlowModel {
    FlowModel {
        candidates: with_symbols(
            left.candidates,
            right.candidates,
            right.candidates.len() as int,
        ),
        reasons: with_reasons(left.reasons, right.reasons, right.reasons.len() as int),
    }
}

/// A value with one more reason why it is not known.
pub open spec fn with_doubt(flow: FlowModel, reason: UnresolvedReason) -> FlowModel {
    FlowModel { reasons: with_reason(flow.reasons, reason), ..flow }
}

impl CallableFlow {
    /// A value that is nothing yet.
    pub fn empty() -> (result: Self)
        ensures
            result@ == empty_flow(),
    {
        let result = CallableFlow { candidates: Vec::new(), unresolved_reasons: Vec::new() };
        proof {
            assert(result@ =~= empty_flow());
        }
        result
    }

    /// A value that is one function.
    pub fn single(symbol: SymbolId) -> (result: Self)
        ensures
            result@ == single_flow(symbol@),
    {
        let ghost model = symbol@;
        let mut candidates: Vec<SymbolId> = Vec::new();
        candidates.push(symbol);
        let result = CallableFlow { candidates, unresolved_reasons: Vec::new() };
        proof {
            assert(result@ =~= single_flow(model));
        }
        result
    }

    /// A value of which nothing is known, and why.
    pub fn unknown(reason: UnresolvedReason) -> (result: Self)
        ensures
            result@ == unknown_flow(reason),
    {
        let mut reasons: Vec<UnresolvedReason> = Vec::new();
        reasons.push(reason);
        let result = CallableFlow { candidates: Vec::new(), unresolved_reasons: reasons };
        proof {
            assert(result@ =~= unknown_flow(reason));
        }
        result
    }

    /// Adds a reason why the value is not known.
    pub fn add_doubt(&mut self, reason: UnresolvedReason)
        ensures
            final(self)@ == with_doubt(old(self)@, reason),
    {
        let added = add_reason(&mut self.unresolved_reasons, reason);
    }
}

/// Adds what another value may be.
pub fn merge_callable_flow(destination: &mut CallableFlow, source: &CallableFlow)
    ensures
        final(destination)@ == merged_flow(old(destination)@, source@),
{
    proof {
        assert(views(source.candidates@).len() == source.candidates@.len());
    }
    add_symbols(&mut destination.candidates, &source.candidates);
    add_reasons(&mut destination.unresolved_reasons, &source.unresolved_reasons);
}

/// The value at a place of a context.
pub open spec fn flow_at(context: Seq<FlowModel>, place: int, reason: UnresolvedReason) -> FlowModel {
    if 0 <= place < context.len() {
        context[place]
    } else {
        unknown_flow(reason)
    }
}

/// Finds the value at a place of a context.
pub fn find_flow_at(context: &Vec<CallableFlow>, place: usize, reason: UnresolvedReason) -> (result:
    CallableFlow)
    ensures
        result@ == flow_at(views(context@), place as int, reason),
{
    proof {
        assert(views(context@).len() == context@.len());
    }
    if place < context.len() {
        proof {
            assert(views(context@)[place as int] == context@[place as int]@);
        }
        context[place].clone()
    } else {
        CallableFlow::unknown(reason)
    }
}

/// A symbol that stands for a whole module.
pub open spec fn module_symbol(module: Seq<Seq<char>>) -> SymbolModel {
    SymbolModel { language: "ocaml"@, module, container: None, name: "{module}"@ }
}

/// A symbol that stands for a whole module.
pub fn ocaml_module_flow_candidate(module: &Vec<String>) -> (result: SymbolId)
    ensures
        result@ == module_symbol(texts(module@)),
{
    SymbolId {
        language: LanguageId::new("ocaml"),
        module: copy_texts(module),
        container: None,
        name: "{module}".to_owned(),
    }
}

/// The module that a symbol stands for.
pub open spec fn symbol_module(symbol: SymbolModel) -> Option<Seq<Seq<char>>> {
    if symbol.language == "ocaml"@ && symbol.container is None && symbol.name == "{module}"@ {
        Some(symbol.module)
    } else {
        None
    }
}

/// The module that a symbol stands for.
pub fn ocaml_module_flow_path(candidate: &SymbolId) -> (result: Option<&Vec<String>>)
    ensures
        match result {
            Some(module) => symbol_module(candidate@) == Some(texts(module@)),
            None => symbol_module(candidate@) is None,
        },
{
    if same_text(candidate.language.0.as_str(), "ocaml") && candidate.container.is_none()
        && same_text(candidate.name.as_str(), "{module}") {
        Some(&candidate.module)
    } else {
        None
    }
}

/// What a symbol that stands for a module stands for is the module.
pub proof fn module_symbols_are_read_back(module: Seq<Seq<char>>)
    ensures
        symbol_module(module_symbol(module)) == Some(module),
{
}

/// What is known of an analyzed program: its functions, the files that they
/// are in, what is said of them, and the modules that stand for others.
pub struct OcamlFlowIndex<'a> {
    pub functions: &'a Vec<FunctionInfo>,
    pub known: &'a Vec<KnownFile>,
    pub facts: &'a Vec<LanguageFact>,
    pub aliases: &'a Vec<ModuleAlias>,
}

pub struct IndexModel {
    pub functions: Seq<FunctionModel>,
    pub known: Seq<(Seq<char>, Seq<char>)>,
    pub facts: Seq<FactModel>,
    pub aliases: Seq<(Seq<Seq<char>>, Seq<Seq<char>>)>,
}

impl<'a> View for OcamlFlowIndex<'a> {
    type V = IndexModel;

    open spec fn view(&self) -> IndexModel {
        IndexModel {
            functions: views(self.functions@),
            known: views(self.known@),
            facts: views(self.facts@),
            aliases: views(self.aliases@),
        }
    }
}

/// Where a value is looked at: in a function that was called with some
/// values, at a place in the source.
pub struct FlowPlace<'a> {
    pub caller: &'a SymbolId,
    pub context: &'a Vec<CallableFlow>,
    pub position: Option<&'a SourceSpan>,
}

pub struct PlaceModel {
    pub caller: SymbolModel,
    pub context: Seq<FlowModel>,
    pub position: Option<SpanModel>,
}

impl<'a> View for FlowPlace<'a> {
    type V = PlaceModel;

    open spec fn view(&self) -> PlaceModel {
        PlaceModel {
            caller: self.caller@,
            context: views(self.context@),
            position: optional_position(self.position),
        }
    }
}

proof fn symbol_position_is_inside(symbols: Seq<SymbolModel>, symbol: SymbolModel, index: nat)
    requires
        index <= symbols.len(),
    ensures
        symbol_position(symbols, symbol, index) <= symbols.len(),
    decreases symbols.len() - index,
{
    if index < symbols.len() && symbol_less(symbols[index as int], symbol) {
        symbol_position_is_inside(symbols, symbol, index + 1);
    }
}

proof fn added_symbol_is_there(symbols: Seq<SymbolModel>, symbol: SymbolModel, other: SymbolModel)
    ensures
        with_symbol(symbols, symbol).contains(other) == (symbols.contains(other) || other
            == symbol),
{
    symbol_position_is_inside(symbols, symbol, 0);
    let place = symbol_position(symbols, symbol, 0) as int;
    if place < symbols.len() && symbols[place] == symbol {
        assert(symbols.contains(symbol));
    } else {
        let grown = symbols.insert(place, symbol);
        if symbols.contains(other) {
            let k = choose|k: int| 0 <= k < symbols.len() && symbols[k] == other;
            if k < place {
                assert(grown[k] == other);
            } else {
                assert(grown[k + 1] == other);
            }
        }
        assert(grown[place] == symbol);
        if grown.contains(other) {
            let k = choose|k: int| 0 <= k < grown.len() && grown[k] == other;
            if k < place {
                assert(symbols[k] == other);
            } else if k > place {
                assert(symbols[k - 1] == other);
            }
        }
    }
}

proof fn symbols_are_those_of_both(
    symbols: Seq<SymbolModel>,
    more: Seq<SymbolModel>,
    count: int,
    symbol: SymbolModel,
)
    requires
        0 <= count <= more.len(),
    ensures
        with_symbols(symbols, more, count).contains(symbol) == (symbols.contains(symbol)
            || more.take(count).contains(symbol)),
    decreases count,
{
    if count > 0 {
        symbols_are_those_of_both(symbols, more, count - 1, symbol);
        added_symbol_is_there(with_symbols(symbols, more, count - 1), more[count - 1], symbol);
        let shorter = more.take(count - 1);
        let longer = more.take(count);
        if shorter.contains(symbol) {
            let k = choose|k: int| 0 <= k < shorter.len() && shorter[k] == symbol;
            assert(longer[k] == symbol);
        }
        if more[count - 1] == symbol {
            assert(longer[count - 1] == symbol);
        }
        if longer.contains(symbol) {
            let k = choose|k: int| 0 <= k < longer.len() && longer[k] == symbol;
            if k < count - 1 {
                assert(shorter[k] == symbol);
            }
        }
    }
}

/// The functions that one value or another may be are those that either may
/// be, and no others.
pub proof fn merged_flows_hold_both(left: FlowModel, right: FlowModel, symbol: SymbolModel)
    ensures
        merged_flow(left, right).candidates.contains(symbol) == (left.candidates.contains(symbol)
            || right.candidates.contains(symbol)),
{
    symbols_are_those_of_both(
        left.candidates,
        right.candidates,
        right.candidates.len() as int,
        symbol,
    );
    assert(right.candidates.take(right.candidates.len() as int) =~= right.candidates);
}

} // verus!
