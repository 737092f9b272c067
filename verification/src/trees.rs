//! Call trees of a call graph.
use crate::diff::left_over;
use crate::files::{optional_file, selected, selects, FileModel, SourceFile};
use crate::graph::{function_at, has_function, resolved_call, GraphModel, ProgramGraph};
use crate::model::{
    candidate_models, key_fragment, node_models, site_models, suffixed, symbol_models, symbol_text,
    CallLabel, CallNode, CallRelation, CallSite, CallTarget, CandidateModel, DispatchCandidate,
    DispatchResolution, LabelModel, NodeModel, SiteModel, SymbolId, SymbolModel, TargetModel,
};
use crate::sets::has_symbol;
use crate::text::concat_texts;
use vstd::prelude::*;

verus! {

/// How far, and into which functions, a tree is expanded.
pub struct Expansion<'a> {
    pub max_depth: usize,
    /// The one file whose functions are expanded.
    pub file: Option<&'a SourceFile>,
    /// The only functions that are expanded, with those of the context.
    pub relevant: Option<&'a Vec<SymbolId>>,
    pub context: Option<&'a Vec<SymbolId>>,
    /// What marks a relevant function at the greatest depth.
    pub boundary_marker: Option<&'a str>,
}

#[verifier::ext_equal]
pub struct ExpansionModel {
    pub max_depth: nat,
    pub file: Option<FileModel>,
    pub relevant: Option<Seq<SymbolModel>>,
    pub context: Option<Seq<SymbolModel>>,
    pub boundary_marker: Option<Seq<char>>,
}

/// The model of an optional list of symbols.
pub open spec fn optional_symbols(symbols: Option<&Vec<SymbolId>>) -> Option<Seq<SymbolModel>> {
    match symbols {
        Some(symbols) => Some(symbol_models(symbols@)),
        None => None,
    }
}

impl<'a> View for Expansion<'a> {
    type V = ExpansionModel;

    open spec fn view(&self) -> ExpansionModel {
        ExpansionModel {
            max_depth: self.max_depth as nat,
            file: optional_file(self.file),
            relevant: optional_symbols(self.relevant),
            context: optional_symbols(self.context),
            boundary_marker: match self.boundary_marker {
                Some(marker) => Some(marker@),
                None => None,
            },
        }
    }
}

/// What tells expanded callees apart: the target, or the set of candidates.
pub enum CalleeKey {
    Direct(SymbolModel),
    Dynamic(SymbolModel, Seq<SymbolModel>, DispatchResolution),
}

/// The targets of a list of candidates.
pub open spec fn candidate_targets(candidates: Seq<CandidateModel>) -> Seq<SymbolModel> {
    candidates.map_values(|candidate: CandidateModel| candidate.target)
}

/// What a call of `caller` expands to, where it expands at all.
pub open spec fn callee_key(
    graph: GraphModel,
    caller: SymbolModel,
    call: SiteModel,
) -> Option<CalleeKey> {
    match call.target {
        TargetModel::Direct(target) => Some(CalleeKey::Direct(target)),
        TargetModel::Unresolved => match resolved_call(graph, caller, call.syntax) {
            Some(target) => Some(CalleeKey::Direct(target)),
            None => None,
        },
        TargetModel::Dynamic { dispatch, candidates, resolution, .. } => Some(
            CalleeKey::Dynamic(dispatch, candidate_targets(candidates), resolution),
        ),
        TargetModel::Indirect { .. } => None,
    }
}

/// Whether the call at `index` is the one that shows what its callee calls:
/// of the calls with the same callee, the last one.
pub open spec fn shows_callee(
    graph: GraphModel,
    caller: SymbolModel,
    calls: Seq<SiteModel>,
    index: int,
) -> bool {
    callee_key(graph, caller, calls[index]) is None || forall|later: int|
        index < later < calls.len() ==> callee_key(graph, caller, #[trigger] calls[later])
            != callee_key(graph, caller, calls[index])
}

/// A node without children.
pub open spec fn leaf(key: Seq<char>, label: LabelModel, relation: CallRelation) -> NodeModel {
    NodeModel { key, callsite: None, label, relation, children: Seq::empty() }
}

/// A label without types.
pub open spec fn plain_label(text: Seq<char>) -> LabelModel {
    LabelModel { default: text, typed: None }
}

/// A node with the identity of the call that introduced it.
pub open spec fn at_site(node: NodeModel, site: Seq<char>) -> NodeModel {
    NodeModel { callsite: Some(site), ..node }
}

/// Whether an optional list of symbols holds one.
pub open spec fn holds(symbols: Option<Seq<SymbolModel>>, symbol: SymbolModel) -> bool {
    match symbols {
        Some(symbols) => symbols.contains(symbol),
        None => false,
    }
}

/// Whether a function may be expanded.
pub open spec fn can_expand(
    graph: GraphModel,
    expansion: ExpansionModel,
    target: SymbolModel,
) -> bool {
    &&& match function_at(graph, target) {
        Some(place) => selects(expansion.file, graph.functions[place as int].span.file),
        None => false,
    }
    &&& expansion.relevant is None || holds(expansion.relevant, target) || holds(
        expansion.context,
        target,
    )
}

/// The tree of a function. Below the greatest depth nothing is shown but the
/// marker of a relevant function; a function on the way from the root to
/// itself is a back edge.
pub open spec fn expanded(
    graph: GraphModel,
    expansion: ExpansionModel,
    symbol: SymbolModel,
    label: Option<LabelModel>,
    relation: CallRelation,
    depth: nat,
    visiting: Seq<SymbolModel>,
) -> NodeModel
    decreases left_over(expansion.max_depth, depth), 0nat,
{
    let function = graph.functions[function_at(graph, symbol)->0 as int];
    let shown = match label {
        Some(label) => label,
        None => function.label,
    };
    if depth >= expansion.max_depth {
        NodeModel {
            children: if expansion.boundary_marker is Some && holds(expansion.relevant, symbol) {
                seq![
                    leaf(
                        symbol_text(symbol) + "#"@ + expansion.boundary_marker->0,
                        plain_label(""@),
                        CallRelation::Call,
                    ),
                ]
            } else {
                Seq::empty()
            },
            ..leaf(symbol_text(symbol), shown, relation)
        }
    } else if visiting.contains(symbol) {
        leaf(symbol_text(symbol), shown, CallRelation::BackEdge)
    } else {
        NodeModel {
            children: Seq::new(
                function.calls.len(),
                |index: int|
                    expanded_call(
                        graph,
                        expansion,
                        symbol,
                        function.calls[index],
                        depth + 1,
                        shows_callee(graph, symbol, function.calls, index),
                        visiting.push(symbol),
                    ),
            ),
            ..leaf(symbol_text(symbol), shown, relation)
        }
    }
}

/// The tree of a call.
pub open spec fn expanded_call(
    graph: GraphModel,
    expansion: ExpansionModel,
    caller: SymbolModel,
    call: SiteModel,
    depth: nat,
    expand_target: bool,
    visiting: Seq<SymbolModel>,
) -> NodeModel
    decreases left_over(expansion.max_depth, depth), 3nat,
{
    at_site(
        match call.target {
            TargetModel::Dynamic { dispatch, candidates, resolution, .. } => expanded_dynamic(
                graph,
                expansion,
                dispatch,
                call.label,
                candidates,
                resolution,
                depth,
                expand_target,
                visiting,
            ),
            TargetModel::Direct(target) => expanded_direct(
                graph,
                expansion,
                target,
                call.label,
                CallRelation::Call,
                depth,
                expand_target,
                visiting,
            ),
            TargetModel::Indirect { .. } => leaf(
                caller.language + "://indirect/"@ + call.id,
                suffixed(call.label, " [indirect]"@),
                CallRelation::Call,
            ),
            TargetModel::Unresolved => match resolved_call(graph, caller, call.syntax) {
                Some(target) => expanded_direct(
                    graph,
                    expansion,
                    target,
                    call.label,
                    CallRelation::Call,
                    depth,
                    expand_target,
                    visiting,
                ),
                None => leaf(
                    caller.language + "://?"@ + key_fragment(call.syntax),
                    call.label,
                    CallRelation::Call,
                ),
            },
        },
        call.id,
    )
}

/// The tree of a call of one function.
pub open spec fn expanded_direct(
    graph: GraphModel,
    expansion: ExpansionModel,
    target: SymbolModel,
    label: LabelModel,
    relation: CallRelation,
    depth: nat,
    expand_target: bool,
    visiting: Seq<SymbolModel>,
) -> NodeModel
    decreases left_over(expansion.max_depth, depth), 1nat,
{
    if can_expand(graph, expansion, target) && expand_target {
        expanded(graph, expansion, target, Some(label), relation, depth, visiting)
    } else {
        leaf(symbol_text(target), label, relation)
    }
}

/// What a call with several possible targets shows of how it is resolved.
pub open spec fn dispatch_label(label: LabelModel, resolution: DispatchResolution) -> LabelModel {
    match resolution {
        DispatchResolution::Complete => label,
        DispatchResolution::Partial => suffixed(label, " [partial]"@),
        DispatchResolution::Unresolved => suffixed(label, " [unresolved]"@),
    }
}

/// What stands for the targets that are not known.
pub open spec fn unresolved_tail(dispatch: SymbolModel) -> NodeModel {
    leaf(
        symbol_text(dispatch) + "#unresolved"@,
        plain_label("… unresolved targets"@),
        CallRelation::DispatchCandidate,
    )
}

/// The tree of a call with several possible targets: the candidates, and a
/// tail where others are possible.
pub open spec fn expanded_dynamic(
    graph: GraphModel,
    expansion: ExpansionModel,
    dispatch: SymbolModel,
    label: LabelModel,
    candidates: Seq<CandidateModel>,
    resolution: DispatchResolution,
    depth: nat,
    expand_target: bool,
    visiting: Seq<SymbolModel>,
) -> NodeModel
    decreases left_over(expansion.max_depth, depth), 2nat,
{
    let children = if !expand_target || depth >= expansion.max_depth || resolution
        == DispatchResolution::Unresolved {
        Seq::empty()
    } else {
        let known = Seq::new(
            candidates.len(),
            |index: int|
                expanded_direct(
                    graph,
                    expansion,
                    candidates[index].target,
                    candidates[index].label,
                    CallRelation::DispatchCandidate,
                    depth + 1,
                    true,
                    visiting,
                ),
        );
        if resolution == DispatchResolution::Partial {
            known.push(unresolved_tail(dispatch))
        } else {
            known
        }
    };
    NodeModel {
        children,
        ..leaf(symbol_text(dispatch), dispatch_label(label, resolution), CallRelation::Call)
    }
}

/// The tree of a function, where the graph has it.
pub open spec fn tree_of(
    graph: GraphModel,
    expansion: ExpansionModel,
    entry: SymbolModel,
) -> Option<NodeModel> {
    if has_function(graph, entry) {
        Some(expanded(graph, expansion, entry, None, CallRelation::Call, 0, Seq::empty()))
    } else {
        None
    }
}

/// The model of an optional tree.
pub open spec fn optional_tree(tree: Option<CallNode>) -> Option<NodeModel> {
    match tree {
        Some(tree) => Some(tree@),
        None => None,
    }
}

fn leaf_node(key: String, label: CallLabel, relation: CallRelation) -> (result: CallNode)
    ensures
        result@ == leaf(key@, label@, relation),
{
    let result = CallNode { key, callsite: None, label, relation, children: Vec::new() };
    proof {
        assert(result@.children =~= Seq::<NodeModel>::empty());
    }
    result
}

fn branch_node(
    key: String,
    label: CallLabel,
    relation: CallRelation,
    children: Vec<CallNode>,
) -> (result: CallNode)
    ensures
        result@ == (NodeModel {
            children: node_models(children@),
            ..leaf(key@, label@, relation)
        }),
{
    let result = CallNode { key, callsite: None, label, relation, children };
    proof {
        result.children_view();
    }
    result
}

fn with_site(node: CallNode, call: &CallSite) -> (result: CallNode)
    ensures
        result@ == at_site(node@, call@.id),
{
    let result = CallNode {
        key: node.key,
        callsite: Some(call.id.clone()),
        label: node.label,
        relation: node.relation,
        children: node.children,
    };
    proof {
        result.children_view();
        node.children_view();
    }
    result
}

fn same_symbols(left: &Vec<DispatchCandidate>, right: &Vec<DispatchCandidate>) -> (result: bool)
    ensures
        result == (candidate_targets(candidate_models(left@)) == candidate_targets(
            candidate_models(right@),
        )),
{
    let ghost one = candidate_targets(candidate_models(left@));
    let ghost two = candidate_targets(candidate_models(right@));
    if left.len() != right.len() {
        proof {
            assert(one.len() != two.len());
        }
        return false;
    }
    let mut index: usize = 0;
    while index < left.len()
        invariant
            index <= left@.len(),
            left@.len() == right@.len(),
            one == candidate_targets(candidate_models(left@)),
            two == candidate_targets(candidate_models(right@)),
            forall|k: int| 0 <= k < index ==> #[trigger] one[k] == two[k],
        decreases left@.len() - index,
    {
        assert(one[index as int] == left@[index as int].target@);
        assert(two[index as int] == right@[index as int].target@);
        if !left[index].target.same(&right[index].target) {
            return false;
        }
        index += 1;
    }
    proof {
        assert(one =~= two);
    }
    true
}

impl ProgramGraph {
    /// Whether two calls expand to the same callee. False where the first one
    /// does not expand.
    fn same_callee(&self, caller: &SymbolId, left: &CallSite, right: &CallSite) -> (result: bool)
        ensures
            result == (callee_key(self@, caller@, left@) is Some && callee_key(
                self@,
                caller@,
                left@,
            ) == callee_key(self@, caller@, right@)),
    {
        match (&left.target, &right.target) {
            (
                CallTarget::Dynamic { dispatch, candidates, resolution, .. },
                CallTarget::Dynamic {
                    dispatch: other_dispatch,
                    candidates: other_candidates,
                    resolution: other_resolution,
                    ..
                },
            ) => dispatch.same(other_dispatch) && same_symbols(candidates, other_candidates)
                && *resolution == *other_resolution,
            (CallTarget::Dynamic { .. }, _) => false,
            (_, CallTarget::Dynamic { .. }) => false,
            _ => match (self.single_target(caller, left), self.single_target(caller, right)) {
                (Some(one), Some(two)) => one.same(&two),
                _ => false,
            },
        }
    }

    /// The one target of a call that has no candidates.
    fn single_target(&self, caller: &SymbolId, call: &CallSite) -> (result: Option<SymbolId>)
        ensures
            !(call.target is Dynamic) ==> (match result {
                Some(target) => callee_key(self@, caller@, call@) == Some(
                    CalleeKey::Direct(target@),
                ),
                None => callee_key(self@, caller@, call@) is None,
            }),
    {
        match &call.target {
            CallTarget::Direct(target) => Some(target.clone()),
            CallTarget::Unresolved => self.resolve_call(caller, &call.syntax),
            _ => None,
        }
    }

    /// Whether the call at `index` is the one that shows what its callee
    /// calls.
    fn is_last_expansion(&self, caller: &SymbolId, calls: &Vec<CallSite>, index: usize) -> (result:
        bool)
        requires
            index < calls@.len(),
        ensures
            result == shows_callee(self@, caller@, site_models(calls@), index as int),
    {
        let ghost models = site_models(calls@);
        let length: usize = calls.len();
        let mut later: usize = index;
        assert(models[index as int] == calls@[index as int]@);
        while later < length - 1
            invariant
                index <= later < length == calls@.len(),
                models == site_models(calls@),
                models[index as int] == calls@[index as int]@,
                callee_key(self@, caller@, models[index as int]) is None || forall|k: int|
                    index < k <= later ==> callee_key(self@, caller@, #[trigger] models[k])
                        != callee_key(self@, caller@, models[index as int]),
            decreases length - later,
        {
            later += 1;
            assert(models[later as int] == calls@[later as int]@);
            if self.same_callee(caller, &calls[index], &calls[later]) {
                return false;
            }
        }
        true
    }

    #[verifier::rlimit(30)]
    fn expand(
        &self,
        symbol: &SymbolId,
        callsite_label: Option<&CallLabel>,
        relation: CallRelation,
        depth: usize,
        expansion: &Expansion<'_>,
        visiting: &mut Vec<SymbolId>,
    ) -> (result: CallNode)
        requires
            has_function(self@, symbol@),
            depth <= expansion.max_depth,
        ensures
            result@ == expanded(
                self@,
                expansion@,
                symbol@,
                optional_view(callsite_label),
                relation,
                depth as nat,
                symbol_models(old(visiting)@),
            ),
            final(visiting)@ == old(visiting)@,
        decreases expansion.max_depth - depth, 0nat,
    {
        let ghost on_way = symbol_models(visiting@);
        let ghost on_way_values = visiting@;
        let place: usize = match self.find(symbol) {
            Some(place) => place,
            None => 0,
        };
        let function = &self.functions[place];
        assert(self@.functions[place as int] == function@);
        let label = match callsite_label {
            Some(label) => label.clone(),
            None => function.label.clone(),
        };
        if depth >= expansion.max_depth {
            let mut children: Vec<CallNode> = Vec::new();
            if let Some(marker) = expansion.boundary_marker {
                if let Some(relevant) = expansion.relevant {
                    if has_symbol(relevant, symbol) {
                        let mut key = symbol.to_text();
                        key.append("#");
                        key.append(marker);
                        children.push(leaf_node(key, CallLabel::new(""), CallRelation::Call));
                    }
                }
            }
            let result = branch_node(symbol.to_text(), label, relation, children);
            proof {
                assert(result@.children =~= expanded(
                    self@,
                    expansion@,
                    symbol@,
                    optional_view(callsite_label),
                    relation,
                    depth as nat,
                    on_way,
                ).children);
            }
            return result;
        }
        if has_symbol(visiting, symbol) {
            return leaf_node(symbol.to_text(), label, CallRelation::BackEdge);
        }
        visiting.push(symbol.clone());
        let ghost entered_values = visiting@;
        let ghost entered = symbol_models(visiting@);
        proof {
            assert(entered =~= on_way.push(symbol@));
        }
        let mut children: Vec<CallNode> = Vec::new();
        let mut index: usize = 0;
        while index < function.calls.len()
            invariant
                index <= function.calls@.len(),
                function@.calls == site_models(function.calls@),
                depth < expansion.max_depth,
                visiting@ == entered_values,
                entered == symbol_models(entered_values),
                children@.len() == index,
                forall|k: int|
                    0 <= k < index ==> (#[trigger] children@[k])@ == expanded_call(
                        self@,
                        expansion@,
                        symbol@,
                        function@.calls[k],
                        (depth + 1) as nat,
                        shows_callee(self@, symbol@, function@.calls, k),
                        entered,
                    ),
            decreases function.calls@.len() - index,
        {
            let call = &function.calls[index];
            assert(function@.calls[index as int] == call@);
            let expand_target = self.is_last_expansion(symbol, &function.calls, index);
            let child = self.expand_call(
                symbol,
                call,
                depth + 1,
                expansion,
                expand_target,
                visiting,
            );
            children.push(child);
            index += 1;
        }
        visiting.pop();
        proof {
            assert(visiting@ =~= on_way_values);
        }
        let result = branch_node(symbol.to_text(), label, relation, children);
        proof {
            assert(result@.children =~= expanded(
                self@,
                expansion@,
                symbol@,
                optional_view(callsite_label),
                relation,
                depth as nat,
                on_way,
            ).children);
        }
        result
    }

    fn expand_call(
        &self,
        caller: &SymbolId,
        call: &CallSite,
        depth: usize,
        expansion: &Expansion<'_>,
        expand_target: bool,
        visiting: &mut Vec<SymbolId>,
    ) -> (result: CallNode)
        requires
            depth <= expansion.max_depth,
        ensures
            result@ == expanded_call(
                self@,
                expansion@,
                caller@,
                call@,
                depth as nat,
                expand_target,
                symbol_models(old(visiting)@),
            ),
            final(visiting)@ == old(visiting)@,
        decreases expansion.max_depth - depth, 3nat,
    {
        let node = match &call.target {
            CallTarget::Dynamic { dispatch, candidates, resolution, .. } => {
                self.expand_dynamic_call(
                    dispatch,
                    &call.label,
                    candidates,
                    *resolution,
                    depth,
                    expansion,
                    expand_target,
                    visiting,
                )
            },
            CallTarget::Direct(target) => self.expand_direct_call(
                target,
                &call.label,
                CallRelation::Call,
                depth,
                expansion,
                expand_target,
                visiting,
            ),
            CallTarget::Indirect { .. } => {
                let mut key = caller.language.to_text();
                key.append("://indirect/");
                key.append(call.id.0.as_str());
                leaf_node(key, call.label.with_suffix(" [indirect]"), CallRelation::Call)
            },
            CallTarget::Unresolved => {
                match self.resolve_call(caller, &call.syntax) {
                    Some(target) => self.expand_direct_call(
                        &target,
                        &call.label,
                        CallRelation::Call,
                        depth,
                        expansion,
                        expand_target,
                        visiting,
                    ),
                    None => {
                        let mut key = caller.language.to_text();
                        key.append("://?");
                        key.append(call.syntax.key_fragment().as_str());
                        leaf_node(key, call.label.clone(), CallRelation::Call)
                    },
                }
            },
        };
        with_site(node, call)
    }

    fn expand_direct_call(
        &self,
        target: &SymbolId,
        label: &CallLabel,
        relation: CallRelation,
        depth: usize,
        expansion: &Expansion<'_>,
        expand_target: bool,
        visiting: &mut Vec<SymbolId>,
    ) -> (result: CallNode)
        requires
            depth <= expansion.max_depth,
        ensures
            result@ == expanded_direct(
                self@,
                expansion@,
                target@,
                label@,
                relation,
                depth as nat,
                expand_target,
                symbol_models(old(visiting)@),
            ),
            final(visiting)@ == old(visiting)@,
        decreases expansion.max_depth - depth, 1nat,
    {
        let in_file = match self.find(target) {
            Some(place) => {
                assert(self@.functions[place as int] == self.functions@[place as int]@);
                selected(expansion.file, &self.functions[place].span.file)
            },
            None => false,
        };
        let in_scope = match expansion.relevant {
            None => true,
            Some(relevant) => has_symbol(relevant, target) || match expansion.context {
                Some(context) => has_symbol(context, target),
                None => false,
            },
        };
        if in_file && in_scope && expand_target {
            self.expand(target, Some(label), relation, depth, expansion, visiting)
        } else {
            leaf_node(target.to_text(), label.clone(), relation)
        }
    }

    #[verifier::rlimit(30)]
    fn expand_dynamic_call(
        &self,
        dispatch: &SymbolId,
        label: &CallLabel,
        candidates: &Vec<DispatchCandidate>,
        resolution: DispatchResolution,
        depth: usize,
        expansion: &Expansion<'_>,
        expand_target: bool,
        visiting: &mut Vec<SymbolId>,
    ) -> (result: CallNode)
        requires
            depth <= expansion.max_depth,
        ensures
            result@ == expanded_dynamic(
                self@,
                expansion@,
                dispatch@,
                label@,
                candidate_models(candidates@),
                resolution,
                depth as nat,
                expand_target,
                symbol_models(old(visiting)@),
            ),
            final(visiting)@ == old(visiting)@,
        decreases expansion.max_depth - depth, 2nat,
    {
        let ghost models = candidate_models(candidates@);
        let ghost on_way = symbol_models(visiting@);
        let ghost values = visiting@;
        let mut children: Vec<CallNode> = Vec::new();
        if expand_target && depth < expansion.max_depth && resolution
            != DispatchResolution::Unresolved {
            let mut index: usize = 0;
            while index < candidates.len()
                invariant
                    index <= candidates@.len(),
                    models == candidate_models(candidates@),
                    depth < expansion.max_depth,
                    visiting@ == values,
                    on_way == symbol_models(values),
                    children@.len() == index,
                    forall|k: int|
                        0 <= k < index ==> (#[trigger] children@[k])@ == expanded_direct(
                            self@,
                            expansion@,
                            models[k].target,
                            models[k].label,
                            CallRelation::DispatchCandidate,
                            (depth + 1) as nat,
                            true,
                            on_way,
                        ),
                decreases candidates@.len() - index,
            {
                let candidate = &candidates[index];
                assert(models[index as int] == candidate@);
                let child = self.expand_direct_call(
                    &candidate.target,
                    &candidate.label,
                    CallRelation::DispatchCandidate,
                    depth + 1,
                    expansion,
                    true,
                    visiting,
                );
                children.push(child);
                index += 1;
            }
            if resolution == DispatchResolution::Partial {
                children.push(
                    leaf_node(
                        concat_texts(dispatch.to_text().as_str(), "#unresolved"),
                        CallLabel::new("… unresolved targets"),
                        CallRelation::DispatchCandidate,
                    ),
                );
            }
        }
        let shown = match resolution {
            DispatchResolution::Complete => label.clone(),
            DispatchResolution::Partial => label.with_suffix(" [partial]"),
            DispatchResolution::Unresolved => label.with_suffix(" [unresolved]"),
        };
        let result = branch_node(dispatch.to_text(), shown, CallRelation::Call, children);
        proof {
            assert(result@.children =~= expanded_dynamic(
                self@,
                expansion@,
                dispatch@,
                label@,
                models,
                resolution,
                depth as nat,
                expand_target,
                on_way,
            ).children);
        }
        result
    }

    /// The call tree of a function, where the graph has it.
    pub fn build_call_tree(&self, entry: &SymbolId, max_depth: usize) -> (result: Option<CallNode>)
        ensures
            optional_tree(result) == tree_of(
                self@,
                ExpansionModel {
                    max_depth: max_depth as nat,
                    file: None,
                    relevant: None,
                    context: None,
                    boundary_marker: None,
                },
                entry@,
            ),
    {
        self.build_call_tree_in_file(entry, max_depth, None)
    }

    /// The call tree of a function, expanded only into functions of a file
    /// where one is selected.
    pub fn build_call_tree_in_file(
        &self,
        entry: &SymbolId,
        max_depth: usize,
        file: Option<&SourceFile>,
    ) -> (result: Option<CallNode>)
        ensures
            optional_tree(result) == tree_of(
                self@,
                ExpansionModel {
                    max_depth: max_depth as nat,
                    file: optional_file(file),
                    relevant: None,
                    context: None,
                    boundary_marker: None,
                },
                entry@,
            ),
    {
        let expansion = Expansion {
            max_depth,
            file,
            relevant: None,
            context: None,
            boundary_marker: None,
        };
        self.tree(entry, &expansion)
    }

    fn tree(&self, entry: &SymbolId, expansion: &Expansion<'_>) -> (result: Option<CallNode>)
        ensures
            optional_tree(result) == tree_of(self@, expansion@, entry@),
    {
        if self.find(entry).is_none() {
            return None;
        }
        let mut visiting: Vec<SymbolId> = Vec::new();
        proof {
            assert(symbol_models(visiting@) =~= Seq::<SymbolModel>::empty());
        }
        Some(self.expand(entry, None, CallRelation::Call, 0, expansion, &mut visiting))
    }

    /// The call tree of a function for a comparison: only relevant functions
    /// and their context are expanded, and relevant functions at the greatest
    /// depth are marked.
    pub fn build_diff_call_tree(
        &self,
        entry: &SymbolId,
        max_depth: usize,
        file: Option<&SourceFile>,
        relevant: &Vec<SymbolId>,
        context: &Vec<SymbolId>,
        boundary_marker: &str,
    ) -> (result: Option<CallNode>)
        ensures
            optional_tree(result) == tree_of(
                self@,
                ExpansionModel {
                    max_depth: max_depth as nat,
                    file: optional_file(file),
                    relevant: Some(symbol_models(relevant@)),
                    context: Some(symbol_models(context@)),
                    boundary_marker: Some(boundary_marker@),
                },
                entry@,
            ),
    {
        let expansion = Expansion {
            max_depth,
            file,
            relevant: Some(relevant),
            context: Some(context),
            boundary_marker: Some(boundary_marker),
        };
        self.tree(entry, &expansion)
    }
}

/// A node without children.
pub open spec fn without_children(node: NodeModel) -> NodeModel {
    NodeModel { children: Seq::empty(), ..node }
}

/// What is compared of a call: the call itself and, where it has several
/// possible targets, these.
pub open spec fn call_shape(call: SiteModel, node: NodeModel) -> NodeModel {
    if call.target is Dynamic {
        NodeModel {
            children: node.children.map_values(|child: NodeModel| without_children(child)),
            ..node
        }
    } else {
        without_children(node)
    }
}

/// The expansion that shows the calls of a function and their candidates.
pub open spec fn local_expansion(file: Option<FileModel>) -> ExpansionModel {
    ExpansionModel { max_depth: 2, file, relevant: None, context: None, boundary_marker: None }
}

/// The calls of a function, without what its callees call.
pub open spec fn local_shape(
    graph: GraphModel,
    symbol: SymbolModel,
    file: Option<FileModel>,
) -> Option<NodeModel> {
    match function_at(graph, symbol) {
        None => None,
        Some(place) => {
            let calls = graph.functions[place as int].calls;
            Some(
                NodeModel {
                    children: Seq::new(
                        calls.len(),
                        |index: int|
                            call_shape(
                                calls[index],
                                expanded_call(
                                    graph,
                                    local_expansion(file),
                                    symbol,
                                    calls[index],
                                    1,
                                    true,
                                    seq![symbol],
                                ),
                            ),
                    ),
                    ..leaf(symbol_text(symbol), plain_label(""@), CallRelation::Call)
                },
            )
        },
    }
}

fn strip_children(node: CallNode) -> (result: CallNode)
    ensures
        result@ == without_children(node@),
{
    let result = CallNode {
        key: node.key,
        callsite: node.callsite,
        label: node.label,
        relation: node.relation,
        children: Vec::new(),
    };
    proof {
        assert(result@.children =~= Seq::<NodeModel>::empty());
    }
    result
}

fn shape_of_call(call: &CallSite, node: CallNode) -> (result: CallNode)
    ensures
        result@ == call_shape(call@, node@),
{
    let dynamic = match &call.target {
        CallTarget::Dynamic { .. } => true,
        _ => false,
    };
    if !dynamic {
        return strip_children(node);
    }
    let mut children: Vec<CallNode> = Vec::new();
    let mut index: usize = 0;
    while index < node.children.len()
        invariant
            index <= node.children@.len(),
            children@.len() == index,
            forall|k: int|
                0 <= k < index ==> (#[trigger] children@[k])@ == without_children(
                    node.children@[k]@,
                ),
        decreases node.children@.len() - index,
    {
        children.push(strip_children(node.children[index].clone()));
        index += 1;
    }
    let result = CallNode {
        key: node.key,
        callsite: node.callsite,
        label: node.label,
        relation: node.relation,
        children,
    };
    proof {
        assert(result@.children =~= call_shape(call@, node@).children);
    }
    result
}

impl ProgramGraph {
    /// The calls of a function, without what its callees call. The candidates
    /// of a call stay, because to change them is to change the call graph.
    pub fn local_call_shape(&self, symbol: &SymbolId, file: Option<&SourceFile>) -> (result: Option<
        CallNode,
    >)
        ensures
            optional_tree(result) == local_shape(self@, symbol@, optional_file(file)),
    {
        let place: usize = match self.find(symbol) {
            Some(place) => place,
            None => {
                return None;
            },
        };
        let function = &self.functions[place];
        assert(self@.functions[place as int] == function@);
        let expansion = Expansion {
            max_depth: 2,
            file,
            relevant: None,
            context: None,
            boundary_marker: None,
        };
        let mut visiting: Vec<SymbolId> = Vec::new();
        visiting.push(symbol.clone());
        let ghost values = visiting@;
        proof {
            assert(symbol_models(visiting@) =~= seq![symbol@]);
            assert(expansion@ == local_expansion(optional_file(file)));
        }
        let mut children: Vec<CallNode> = Vec::new();
        let mut index: usize = 0;
        while index < function.calls.len()
            invariant
                index <= function.calls@.len(),
                expansion@ == local_expansion(optional_file(file)),
                expansion.max_depth == 2,
                visiting@ == values,
                symbol_models(values) == seq![symbol@],
                children@.len() == index,
                forall|k: int|
                    0 <= k < index ==> (#[trigger] children@[k])@ == call_shape(
                        function@.calls[k],
                        expanded_call(
                            self@,
                            local_expansion(optional_file(file)),
                            symbol@,
                            function@.calls[k],
                            1,
                            true,
                            seq![symbol@],
                        ),
                    ),
            decreases function.calls@.len() - index,
        {
            let call = &function.calls[index];
            assert(function@.calls[index as int] == call@);
            let node = self.expand_call(symbol, call, 1, &expansion, true, &mut visiting);
            children.push(shape_of_call(call, node));
            index += 1;
        }
        let result = branch_node(
            symbol.to_text(),
            CallLabel::new(""),
            CallRelation::Call,
            children,
        );
        proof {
            assert(result@.children =~= local_shape(
                self@,
                symbol@,
                optional_file(file),
            )->0.children);
        }
        Some(result)
    }
}

/// The model of an optional label.
pub open spec fn optional_view(label: Option<&CallLabel>) -> Option<LabelModel> {
    match label {
        Some(label) => Some(label@),
        None => None,
    }
}

} // verus!
