//! The function instances of a crate: what they do in terms of their
//! parameters, and what they call.
use crate::lists::{bound, copy_list, value_of, views};
use crate::model::{SourceSpan, SpanModel, UnresolvedReason};
use crate::rust::analysis::{
    analyze_body_dyn_flows, body_analysis, join_lists, join_places, lists_differ, lists_joined,
    limited, places_joined, AnalysisModel, BodyDynAnalysis,
};
use crate::rust::dataflow::{
    numbered_flow, summary_place, CallKnowledge, DynSummary, InstanceSummary, KnowledgeModel,
    SummaryModel,
};
use crate::rust::mir::{
    carries_dyn, contains_dyn, type_carries_dyn, type_contains_dyn, well_formed_body, BodyModel,
    MirBody, MirType, TypeModel,
};
use crate::rust::provenance::{
    joint, nothing, parameter_flow, resolve_symbolic_flow, substituted, unresolved_flow, DynFlow,
    DynModel,
};
use crate::rust::respecialize::capped;
use crate::sets::add_reason;
use crate::text::{optional, texts};
use vstd::prelude::*;

verus! {

/// A call in the body of an instance, as rustc sees it.
#[derive(Debug)]
pub struct CallSite {
    pub block: usize,
    /// The name of the instance that is called, if that is known.
    pub target: Option<String>,
    pub definition_name: String,
    pub span: SourceSpan,
    /// The type of what is called, if that is a pointer to a function.
    pub signature: Option<String>,
}

#[verifier::ext_equal]
pub struct SiteModel {
    pub block: usize,
    pub target: Option<Seq<char>>,
    pub definition_name: Seq<char>,
    pub span: SpanModel,
    pub signature: Option<Seq<char>>,
}

impl View for CallSite {
    type V = SiteModel;

    open spec fn view(&self) -> SiteModel {
        SiteModel {
            block: self.block,
            target: optional(self.target),
            definition_name: self.definition_name@,
            span: self.span@,
            signature: optional(self.signature),
        }
    }
}

/// An instance with a body.
#[derive(Debug)]
pub struct InstanceBody {
    pub instance: usize,
    pub name: String,
    pub definition_name: String,
    pub span: SourceSpan,
    pub body: MirBody,
    /// The calls, in the order of their blocks.
    pub sites: Vec<CallSite>,
    pub constructor_spans: Vec<SourceSpan>,
    pub constructor_names: Vec<String>,
    /// The coroutines that the body makes.
    pub coroutines: Vec<usize>,
}

#[verifier::ext_equal]
pub struct ItemModel {
    pub instance: usize,
    pub name: Seq<char>,
    pub definition_name: Seq<char>,
    pub span: SpanModel,
    pub body: BodyModel,
    pub sites: Seq<SiteModel>,
    pub constructor_spans: Seq<SpanModel>,
    pub constructor_names: Seq<Seq<char>>,
    pub coroutines: Seq<usize>,
}

impl View for InstanceBody {
    type V = ItemModel;

    open spec fn view(&self) -> ItemModel {
        ItemModel {
            instance: self.instance,
            name: self.name@,
            definition_name: self.definition_name@,
            span: self.span@,
            body: self.body@,
            sites: views(self.sites@),
            constructor_spans: views(self.constructor_spans@),
            constructor_names: texts(self.constructor_names@),
            coroutines: self.coroutines@,
        }
    }
}

/// Whether the bodies of instances are well-formed.
pub open spec fn well_formed_items(items: Seq<ItemModel>) -> bool {
    forall|index: int| 0 <= index < items.len() ==> well_formed_body((#[trigger] items[index]).body)
}

/// The instances that have a body.
pub open spec fn instances_of(items: Seq<ItemModel>) -> Seq<usize> {
    items.map_values(|item: ItemModel| item.instance)
}

/// The instances that have a body.
pub fn list_instances(items: &Vec<InstanceBody>) -> (result: Vec<usize>)
    ensures
        result@ == instances_of(views(items@)),
{
    let mut result: Vec<usize> = Vec::new();
    let mut index: usize = 0;
    while index < items.len()
        invariant
            index <= items@.len(),
            result@.len() == index,
            forall|k: int| 0 <= k < index ==> result@[k] == items@[k].instance,
        decreases items@.len() - index,
    {
        result.push(items[index].instance);
        index += 1;
    }
    proof {
        assert(result@ =~= instances_of(views(items@)));
    }
    result
}

/// Nothing is known of what a body does.
pub open spec fn no_summary() -> SummaryModel {
    SummaryModel {
        return_flow: nothing(),
        return_aliases: Seq::empty(),
        return_alias_open: false,
        parameter_effects: Seq::empty(),
    }
}

/// The summary of an instance, and whether an analysis added to it.
pub open spec fn summary_after(summary: SummaryModel, analysis: AnalysisModel) -> (
    SummaryModel,
    bool,
) {
    let (aliases, aliases_changed) = places_joined(
        summary.return_aliases,
        analysis.return_aliases,
        analysis.return_aliases.len() as int,
    );
    (
        SummaryModel {
            return_flow: joint(summary.return_flow, analysis.return_flow),
            return_aliases: aliases,
            return_alias_open: summary.return_alias_open || analysis.return_alias_open,
            parameter_effects: lists_joined(
                summary.parameter_effects,
                analysis.parameter_effects,
            ),
        },
        joint(summary.return_flow, analysis.return_flow) != summary.return_flow || aliases_changed
            || (analysis.return_alias_open && !summary.return_alias_open) || lists_differ(
            summary.parameter_effects,
            analysis.parameter_effects,
            analysis.parameter_effects.len() as int,
        ),
    )
}

/// The summary that stands under an instance.
pub open spec fn summary_under(summaries: Seq<(usize, SummaryModel)>, instance: usize) -> SummaryModel {
    match value_of(summaries, instance) {
        Some(summary) => summary,
        None => no_summary(),
    }
}

/// The summaries after the first `count` bodies were analyzed once more, and
/// whether that added to one of them.
pub open spec fn round(
    items: Seq<ItemModel>,
    summaries: Seq<(usize, SummaryModel)>,
    count: int,
) -> (Seq<(usize, SummaryModel)>, bool)
    decreases count,
{
    if count <= 0 {
        (summaries, false)
    } else {
        let (before, changed) = round(items, summaries, count - 1);
        let (after, new) = visited_item(items[count - 1], instances_of(items), before);
        (after, changed || new)
    }
}

/// The summaries after at most `fuel` rounds, and whether nothing more would
/// be added.
pub open spec fn rounds(
    items: Seq<ItemModel>,
    summaries: Seq<(usize, SummaryModel)>,
    fuel: nat,
) -> (Seq<(usize, SummaryModel)>, bool)
    decreases fuel,
{
    if fuel == 0 {
        (summaries, false)
    } else {
        let (after, changed) = round(items, summaries, items.len() as int);
        if changed {
            rounds(items, after, (fuel - 1) as nat)
        } else {
            (after, true)
        }
    }
}

/// The summaries when the rounds stopped too early: what the first `count`
/// bodies return may be more than what is known.
pub open spec fn all_limited(
    items: Seq<ItemModel>,
    summaries: Seq<(usize, SummaryModel)>,
    count: int,
) -> Seq<(usize, SummaryModel)>
    decreases count,
{
    if count <= 0 {
        summaries
    } else {
        let before = all_limited(items, summaries, count - 1);
        let item = items[count - 1];
        if contains_dyn(item.body.return_type.text) {
            let summary = summary_under(before, item.instance);
            bound(
                before,
                item.instance,
                SummaryModel { return_flow: limited(summary.return_flow), ..summary },
            )
        } else {
            before
        }
    }
}

/// How many locals the first `count` bodies have.
pub open spec fn locals_of(items: Seq<ItemModel>, count: int) -> int
    decreases count,
{
    if count <= 0 {
        0
    } else {
        capped(locals_of(items, count - 1) + items[count - 1].body.locals)
    }
}

/// How many rounds are run at most.
pub open spec fn round_limit(items: Seq<ItemModel>) -> nat {
    let limit = capped(locals_of(items, items.len() as int) + items.len());
    if limit < 1 {
        1
    } else {
        limit as nat
    }
}

/// What the instances do, in terms of their parameters.
pub open spec fn summaries_of(items: Seq<ItemModel>) -> Seq<(usize, SummaryModel)> {
    let (summaries, settled) = rounds(items, Seq::empty(), round_limit(items));
    if settled {
        summaries
    } else {
        all_limited(items, summaries, items.len() as int)
    }
}

fn empty_summary() -> (result: DynSummary)
    ensures
        result@ == no_summary(),
{
    let result = DynSummary {
        return_flow: DynFlow::empty(),
        return_aliases: Vec::new(),
        return_alias_open: false,
        parameter_effects: Vec::new(),
    };
    proof {
        assert(result@ =~= no_summary());
    }
    result
}

fn copy_summary(summary: &DynSummary) -> (result: DynSummary)
    ensures
        result@ == summary@,
{
    DynSummary {
        return_flow: summary.return_flow.clone(),
        return_aliases: copy_list(&summary.return_aliases),
        return_alias_open: summary.return_alias_open,
        parameter_effects: copy_list(&summary.parameter_effects),
    }
}

fn find_summary(summaries: &Vec<InstanceSummary>, instance: usize) -> (result: DynSummary)
    ensures
        result@ == summary_under(views(summaries@), instance),
{
    match summary_place(summaries, instance) {
        Some(index) => {
            proof {
                assert(views(summaries@)[index as int] == summaries@[index as int]@);
            }
            copy_summary(&summaries[index].summary)
        },
        None => empty_summary(),
    }
}

fn set_summary(summaries: &mut Vec<InstanceSummary>, instance: usize, summary: DynSummary)
    ensures
        views(final(summaries)@) == bound(views(old(summaries)@), instance, summary@),
{
    let ghost before = views(summaries@);
    let ghost model = summary@;
    match summary_place(summaries, instance) {
        Some(index) => {
            summaries.set(index, InstanceSummary { instance, summary });
            proof {
                assert(views(summaries@) =~= before.update(index as int, (instance, model)));
            }
        },
        None => {
            summaries.push(InstanceSummary { instance, summary });
            proof {
                assert(views(summaries@) =~= before.push((instance, model)));
            }
        },
    }
}

fn add_analysis(summary: &mut DynSummary, analysis: &BodyDynAnalysis) -> (changed: bool)
    ensures
        (final(summary)@, changed) == summary_after(old(summary)@, analysis@),
{
    proof {
        assert(analysis@.return_aliases.len() == analysis.return_aliases@.len());
        assert(analysis@.parameter_effects.len() == analysis.parameter_effects@.len());
    }
    let flow = summary.return_flow.merge(&analysis.return_flow);
    let aliases = join_places(&mut summary.return_aliases, &analysis.return_aliases);
    let open = analysis.return_alias_open && !summary.return_alias_open;
    if analysis.return_alias_open {
        summary.return_alias_open = true;
    }
    let (effects, effects_changed) = join_lists(
        &summary.parameter_effects,
        &analysis.parameter_effects,
    );
    summary.parameter_effects = effects;
    flow || aliases || open || effects_changed
}

/// The summaries after a body was analyzed once more, and whether that added
/// to one of them.
#[verifier::opaque]
pub open spec fn visited_item(
    item: ItemModel,
    instances: Seq<usize>,
    summaries: Seq<(usize, SummaryModel)>,
) -> (Seq<(usize, SummaryModel)>, bool) {
    let analysis = body_analysis(
        item.body,
        KnowledgeModel { summaries, analyzed: instances },
    );
    let (summary, new) = summary_after(summary_under(summaries, item.instance), analysis);
    (bound(summaries, item.instance, summary), new)
}

fn visit_item(
    item: &InstanceBody,
    instances: &Vec<usize>,
    summaries: &mut Vec<InstanceSummary>,
) -> (changed: bool)
    requires
        well_formed_body(item@.body),
    ensures
        (views(final(summaries)@), changed) == visited_item(
            item@,
            instances@,
            views(old(summaries)@),
        ),
{
    proof {
        reveal(visited_item);
    }
    let analysis = analyze_body_dyn_flows(
        &item.body,
        &CallKnowledge { summaries: &*summaries, analyzed: instances },
    );
    let mut summary = find_summary(summaries, item.instance);
    let changed = add_analysis(&mut summary, &analysis);
    set_summary(summaries, item.instance, summary);
    changed
}

fn run_round(
    items: &Vec<InstanceBody>,
    instances: &Vec<usize>,
    summaries: &mut Vec<InstanceSummary>,
) -> (changed: bool)
    requires
        well_formed_items(views(items@)),
        instances@ == instances_of(views(items@)),
    ensures
        (views(final(summaries)@), changed) == round(
            views(items@),
            views(old(summaries)@),
            items@.len() as int,
        ),
{
    let ghost start = views(summaries@);
    let mut changed = false;
    let mut index: usize = 0;
    while index < items.len()
        invariant
            index <= items@.len(),
            well_formed_items(views(items@)),
            instances@ == instances_of(views(items@)),
            (views(summaries@), changed) == round(views(items@), start, index as int),
        decreases items@.len() - index,
    {
        proof {
            assert(views(items@)[index as int] == items@[index as int]@);
            assert(well_formed_body(views(items@)[index as int].body));
        }
        if visit_item(&items[index], instances, summaries) {
            changed = true;
        }
        index += 1;
    }
    changed
}

fn limit_rounds(items: &Vec<InstanceBody>) -> (result: usize)
    ensures
        result == round_limit(views(items@)),
{
    let mut total: usize = 0;
    let mut index: usize = 0;
    while index < items.len()
        invariant
            index <= items@.len(),
            total == locals_of(views(items@), index as int),
        decreases items@.len() - index,
    {
        proof {
            assert(views(items@)[index as int] == items@[index as int]@);
        }
        total = total.saturating_add(items[index].body.locals);
        index += 1;
    }
    proof {
        assert(views(items@).len() == items@.len());
    }
    let limit: usize = total.saturating_add(items.len());
    if limit < 1 {
        1
    } else {
        limit
    }
}

/// Finds out what the instances do, in terms of their parameters: the bodies
/// are analyzed until nothing is added, or a limit is reached.
pub fn summarize_instances(items: &Vec<InstanceBody>) -> (result: Vec<InstanceSummary>)
    requires
        well_formed_items(views(items@)),
    ensures
        views(result@) == summaries_of(views(items@)),
{
    let instances = list_instances(items);
    let mut summaries: Vec<InstanceSummary> = Vec::new();
    let mut fuel: usize = limit_rounds(items);
    let ghost model = views(items@);
    let ghost whole = rounds(model, Seq::empty(), round_limit(model));
    proof {
        assert(views(summaries@) =~= Seq::empty());
        assert(model.len() == items@.len());
    }
    while fuel > 0
        invariant
            well_formed_items(views(items@)),
            instances@ == instances_of(views(items@)),
            model == views(items@),
            model.len() == items@.len(),
            whole == rounds(model, Seq::empty(), round_limit(model)),
            whole == rounds(model, views(summaries@), fuel as nat),
        decreases fuel,
    {
        if !run_round(items, &instances, &mut summaries) {
            return summaries;
        }
        fuel -= 1;
    }
    let ghost start = views(summaries@);
    let mut index: usize = 0;
    while index < items.len()
        invariant
            index <= items@.len(),
            views(summaries@) == all_limited(views(items@), start, index as int),
        decreases items@.len() - index,
    {
        let item = &items[index];
        proof {
            assert(views(items@)[index as int] == item@);
        }
        if type_contains_dyn(&item.body.return_type) {
            let mut summary = find_summary(&summaries, item.instance);
            let added = add_reason(
                &mut summary.return_flow.unresolved_reasons,
                UnresolvedReason::AnalysisLimit,
            );
            set_summary(&mut summaries, item.instance, summary);
        }
        index += 1;
    }
    summaries
}

/// The first item from `index` on for an instance.
pub open spec fn item_from(items: Seq<ItemModel>, instance: usize, index: int) -> Option<int>
    decreases items.len() - index,
{
    if index < 0 || index >= items.len() {
        None
    } else if items[index].instance == instance {
        Some(index)
    } else {
        item_from(items, instance, index + 1)
    }
}

fn find_item(items: &Vec<InstanceBody>, instance: usize) -> (result: Option<usize>)
    ensures
        match result {
            Some(index) => index < items@.len() && item_from(views(items@), instance, 0) == Some(
                index as int,
            ),
            None => item_from(views(items@), instance, 0) is None,
        },
{
    let mut index: usize = 0;
    while index < items.len()
        invariant
            index <= items@.len(),
            item_from(views(items@), instance, index as int) == item_from(
                views(items@),
                instance,
                0,
            ),
        decreases items@.len() - index,
    {
        proof {
            assert(views(items@)[index as int] == items@[index as int]@);
        }
        if items[index].instance == instance {
            return Some(index);
        }
        index += 1;
    }
    None
}

/// The context in which the body of an instance stands for itself.
pub open spec fn own_context(types: Seq<TypeModel>) -> Seq<DynModel> {
    Seq::new(
        types.len(),
        |index: int|
            if carries_dyn(types[index].text) {
                parameter_flow(index as usize)
            } else {
                nothing()
            },
    )
}

/// The context of a coroutine: what it captured is its first parameter.
pub open spec fn coroutine_context(
    types: Seq<TypeModel>,
    captured: DynModel,
    context: Seq<DynModel>,
) -> Seq<DynModel> {
    Seq::new(
        types.len(),
        |index: int|
            if !carries_dyn(types[index].text) {
                nothing()
            } else if index == 0 {
                substituted(captured, context)
            } else {
                unresolved_flow(UnresolvedReason::AnalysisLimit)
            },
    )
}

/// What a coroutine captured, as far as the body that makes it shows.
pub open spec fn captured_flow(analysis: AnalysisModel, child: usize) -> DynModel {
    match value_of(analysis.generated_coroutine_flows, child) {
        Some(flow) => flow,
        None => unresolved_flow(UnresolvedReason::AnalysisLimit),
    }
}

/// The first `count` coroutines of a body that have bodies, with their
/// contexts.
pub open spec fn coroutines_in(
    items: Seq<ItemModel>,
    analysis: AnalysisModel,
    context: Seq<DynModel>,
    children: Seq<usize>,
    count: int,
) -> Seq<(usize, Seq<DynModel>)>
    decreases count,
{
    if count <= 0 {
        Seq::empty()
    } else {
        let before = coroutines_in(items, analysis, context, children, count - 1);
        let child = children[count - 1];
        match item_from(items, child, 0) {
            Some(index) => before.push(
                (
                    child,
                    coroutine_context(
                        items[index].body.argument_types,
                        captured_flow(analysis, child),
                        context,
                    ),
                ),
            ),
            None => before,
        }
    }
}

/// How many of the first `count` items were not visited.
pub open spec fn unseen(items: Seq<ItemModel>, visited: Seq<usize>, count: int) -> nat
    decreases count,
{
    if count <= 0 {
        0
    } else {
        unseen(items, visited, count - 1) + if visited.contains(items[count - 1].instance) {
            0nat
        } else {
            1nat
        }
    }
}

/// A visit leaves fewer items that were not visited.
pub proof fn seeing_leaves_fewer(
    items: Seq<ItemModel>,
    visited: Seq<usize>,
    instance: usize,
    count: int,
)
    requires
        0 <= count <= items.len(),
    ensures
        unseen(items, visited.push(instance), count) <= unseen(items, visited, count),
        (exists|index: int|
            0 <= index < count && (#[trigger] items[index]).instance == instance)
            && !visited.contains(instance) ==> unseen(items, visited.push(instance), count)
            < unseen(items, visited, count),
    decreases count,
{
    if count > 0 {
        seeing_leaves_fewer(items, visited, instance, count - 1);
        let last = items[count - 1].instance;
        let after = visited.push(instance);
        if visited.contains(last) {
            let place = choose|place: int| 0 <= place < visited.len() && visited[place] == last;
            assert(after[place] == last);
        }
        if last == instance {
            assert(after[visited.len() as int] == last);
        }
    }
}

/// What is found for an instance is its item.
pub proof fn found_items_are_items(items: Seq<ItemModel>, instance: usize, index: int)
    requires
        0 <= index,
    ensures
        match item_from(items, instance, index) {
            Some(found) => index <= found < items.len() && items[found].instance == instance,
            None => true,
        },
    decreases items.len() - index,
{
    if index < items.len() {
        found_items_are_items(items, instance, index + 1);
    }
}

/// One of the bodies that stand for a function of the source: where it stands
/// among those of the crate, what is known of it, and its context.
#[verifier::ext_equal]
pub struct LogicalModel {
    pub item: int,
    pub analysis: AnalysisModel,
    pub context: Seq<DynModel>,
}

/// An instance with the coroutines that it stands for in the source: their
/// items, in the order in which they are found, with what is known of each body
/// and with their contexts.
pub open spec fn logical_from(
    items: Seq<ItemModel>,
    known: KnowledgeModel,
    pending: Seq<(usize, Seq<DynModel>)>,
    visited: Seq<usize>,
) -> Seq<LogicalModel>
    decreases unseen(items, visited, items.len() as int), pending.len(),
{
    if pending.len() == 0 {
        Seq::empty()
    } else {
        let (instance, context) = pending[0];
        let rest = pending.skip(1);
        match item_from(items, instance, 0) {
            Some(index) if !visited.contains(instance) => {
                proof {
                    found_items_are_items(items, instance, 0);
                    seeing_leaves_fewer(items, visited, instance, items.len() as int);
                }
                let children = items[index].coroutines;
                let analysis = body_analysis(items[index].body, known);
                seq![LogicalModel { item: index, analysis, context }] + logical_from(
                    items,
                    known,
                    rest + coroutines_in(
                        items,
                        analysis,
                        context,
                        children,
                        children.len() as int,
                    ),
                    visited.push(instance),
                )
            },
            _ => logical_from(items, known, rest, visited),
        }
    }
}

/// The bodies that stand for one function of the source: that of an instance
/// and those of the coroutines that it makes, with their contexts.
pub open spec fn logical_bodies(items: Seq<ItemModel>, known: KnowledgeModel, root: usize) -> Seq<
    LogicalModel,
> {
    match item_from(items, root, 0) {
        None => Seq::empty(),
        Some(index) => logical_from(
            items,
            known,
            seq![(root, own_context(items[index].body.argument_types))],
            Seq::empty(),
        ),
    }
}

/// An instance that waits, with its context.
struct PendingBody {
    instance: usize,
    context: Vec<DynFlow>,
}

impl View for PendingBody {
    type V = (usize, Seq<DynModel>);

    closed spec fn view(&self) -> (usize, Seq<DynModel>) {
        (self.instance, views(self.context@))
    }
}

/// One of the bodies that stand for a function of the source.
pub struct SourceLogicalInstanceBody {
    /// Where the body stands among those of the crate.
    pub item: usize,
    pub analysis: BodyDynAnalysis,
    pub context: Vec<DynFlow>,
}

impl View for SourceLogicalInstanceBody {
    type V = LogicalModel;

    open spec fn view(&self) -> LogicalModel {
        LogicalModel {
            item: self.item as int,
            analysis: self.analysis@,
            context: views(self.context@),
        }
    }
}

fn context_of_itself(types: &Vec<MirType>) -> (result: Vec<DynFlow>)
    ensures
        views(result@) == own_context(views(types@)),
{
    let mut result: Vec<DynFlow> = Vec::new();
    let mut index: usize = 0;
    while index < types.len()
        invariant
            index <= types@.len(),
            result@.len() == index,
            forall|k: int|
                0 <= k < index ==> (#[trigger] result@[k])@ == own_context(views(types@))[k],
        decreases types@.len() - index,
    {
        proof {
            assert(views(types@)[index as int] == types@[index as int]@);
        }
        if type_carries_dyn(&types[index]) {
            result.push(DynFlow::parameter(index));
        } else {
            result.push(DynFlow::empty());
        }
        index += 1;
    }
    proof {
        assert(views(result@) =~= own_context(views(types@)));
    }
    result
}

fn context_of_coroutine(types: &Vec<MirType>, captured: &DynFlow, context: &Vec<DynFlow>) -> (result:
    Vec<DynFlow>)
    ensures
        views(result@) == coroutine_context(views(types@), captured@, views(context@)),
{
    let mut result: Vec<DynFlow> = Vec::new();
    let mut index: usize = 0;
    while index < types.len()
        invariant
            index <= types@.len(),
            result@.len() == index,
            forall|k: int|
                0 <= k < index ==> (#[trigger] result@[k])@ == coroutine_context(
                    views(types@),
                    captured@,
                    views(context@),
                )[k],
        decreases types@.len() - index,
    {
        proof {
            assert(views(types@)[index as int] == types@[index as int]@);
        }
        if !type_carries_dyn(&types[index]) {
            result.push(DynFlow::empty());
        } else if index == 0 {
            result.push(resolve_symbolic_flow(captured, context));
        } else {
            result.push(DynFlow::unresolved(UnresolvedReason::AnalysisLimit));
        }
        index += 1;
    }
    proof {
        assert(views(result@) =~= coroutine_context(views(types@), captured@, views(context@)));
    }
    result
}

fn find_coroutines(
    items: &Vec<InstanceBody>,
    analysis: &BodyDynAnalysis,
    context: &Vec<DynFlow>,
    children: &Vec<usize>,
) -> (result: Vec<PendingBody>)
    ensures
        views(result@) == coroutines_in(
            views(items@),
            analysis@,
            views(context@),
            children@,
            children@.len() as int,
        ),
{
    let mut result: Vec<PendingBody> = Vec::new();
    let mut index: usize = 0;
    proof {
        assert(views(result@) =~= Seq::empty());
    }
    while index < children.len()
        invariant
            index <= children@.len(),
            views(result@) == coroutines_in(
                views(items@),
                analysis@,
                views(context@),
                children@,
                index as int,
            ),
        decreases children@.len() - index,
    {
        let child: usize = children[index];
        let ghost before = views(result@);
        match find_item(items, child) {
            Some(place) => {
                proof {
                    assert(views(items@)[place as int] == items@[place as int]@);
                }
                let captured = match numbered_flow(&analysis.generated_coroutine_flows, child) {
                    Some(flow) => flow.clone(),
                    None => DynFlow::unresolved(UnresolvedReason::AnalysisLimit),
                };
                let entry = PendingBody {
                    instance: child,
                    context: context_of_coroutine(
                        &items[place].body.argument_types,
                        &captured,
                        context,
                    ),
                };
                let ghost model = entry@;
                result.push(entry);
                proof {
                    assert(views(result@) =~= before.push(model));
                }
            },
            None => {},
        }
        index += 1;
    }
    result
}

/// Whether an instance is in a list.
pub fn has_instance(instances: &Vec<usize>, instance: usize) -> (result: bool)
    ensures
        result == instances@.contains(instance),
{
    let mut index: usize = 0;
    while index < instances.len()
        invariant
            index <= instances@.len(),
            forall|k: int| 0 <= k < index ==> instances@[k] != instance,
        decreases instances@.len() - index,
    {
        if instances[index] == instance {
            return true;
        }
        index += 1;
    }
    false
}

/// Whether some bodies stand among `count` of a crate.
pub open spec fn bodies_are_there(bodies: Seq<SourceLogicalInstanceBody>, count: nat) -> bool {
    forall|index: int|
        0 <= index < bodies.len() ==> (#[trigger] bodies[index]).item < count
}

/// Finds the bodies that stand for one function of the source.
#[verifier::rlimit(30)]
pub fn source_logical_instance_bodies(
    items: &Vec<InstanceBody>,
    known: &CallKnowledge,
    root: usize,
) -> (result: Vec<SourceLogicalInstanceBody>)
    requires
        well_formed_items(views(items@)),
    ensures
        views(result@) == logical_bodies(views(items@), known@, root),
        bodies_are_there(result@, items@.len()),
{
    let mut result: Vec<SourceLogicalInstanceBody> = Vec::new();
    let ghost model = views(items@);
    proof {
        assert(model.len() == items@.len());
        assert(views(result@) =~= Seq::empty());
    }
    let first = match find_item(items, root) {
        Some(index) => {
            proof {
                assert(model[index as int] == items@[index as int]@);
            }
            context_of_itself(&items[index].body.argument_types)
        },
        None => {
            return result;
        },
    };
    let mut pending: Vec<PendingBody> = Vec::new();
    pending.push(PendingBody { instance: root, context: first });
    let mut visited: Vec<usize> = Vec::new();
    proof {
        assert(views(pending@) =~= seq![(root, views(first@))]);
        assert(visited@ =~= Seq::empty());
        let all = logical_from(model, known@, views(pending@), visited@);
        assert(views(result@) + all =~= all);
    }
    while pending.len() > 0
        invariant
            well_formed_items(views(items@)),
            model == views(items@),
            model.len() == items@.len(),
            views(result@) + logical_from(model, known@, views(pending@), visited@)
                == logical_bodies(model, known@, root),
            bodies_are_there(result@, items@.len()),
        decreases unseen(model, visited@, model.len() as int), pending@.len(),
    {
        let ghost before = views(pending@);
        let ghost seen = visited@;
        let ghost done = views(result@);
        let entry = pending.remove(0);
        proof {
            assert(before[0] == entry@);
            assert(views(pending@) =~= before.skip(1));
            found_items_are_items(model, entry.instance, 0);
            seeing_leaves_fewer(model, seen, entry.instance, model.len() as int);
        }
        if !has_instance(&visited, entry.instance) {
            match find_item(items, entry.instance) {
                Some(index) => {
                    let item = &items[index];
                    proof {
                        assert(model[index as int] == item@);
                    }
                    let ghost rest = views(pending@);
                    let analysis = analyze_body_dyn_flows(&item.body, known);
                    let mut more = find_coroutines(
                        items,
                        &analysis,
                        &entry.context,
                        &item.coroutines,
                    );
                    let ghost added = views(more@);
                    pending.append(&mut more);
                    visited.push(entry.instance);
                    let found = SourceLogicalInstanceBody {
                        item: index,
                        analysis,
                        context: entry.context,
                    };
                    let ghost last = found@;
                    result.push(found);
                    proof {
                        assert(views(pending@) =~= rest + added);
                        assert(views(result@) =~= done.push(last));
                        let tail = logical_from(model, known@, views(pending@), visited@);
                        assert(done + (seq![last] + tail) =~= done.push(last) + tail);
                    }
                },
                None => {},
            }
        }
    }
    proof {
        assert(views(pending@).len() == 0);
        assert(views(result@) + Seq::empty() =~= views(result@));
    }
    result
}

} // verus!
