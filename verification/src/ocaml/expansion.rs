//! Specializing all functions of an OCaml program, from those that nobody
//! calls.
use crate::lists::views;
use crate::model::{
    site_models, FactModel, FunctionInfo, FunctionModel, LanguageFact, SymbolId, SymbolModel,
};
use crate::ocaml::callable::{FlowModel, IndexModel, OcamlFlowIndex};
use crate::ocaml::specialize::{
    all_there, calls_in_context, facts_retold, find_calls_in_context, retell_facts, root_context,
    root_ocaml_context, specialized_id, specialized_ocaml_id, CallFlowModel, CalledParameter,
    OcamlCallFlow, PendingCallable,
};
use crate::ocaml::symbols::{
    argument_callable_symbol, argument_function, find_function_at, function_at,
};
use crate::ocaml::syntax::node_list;
use crate::rust::contexts::{covering_leaves_fewer, uncovered};
use crate::rust::respecialize::{find_uncovered, first_uncovered};
use vstd::prelude::*;

verus! {

/// The functions that the first `count` arguments of a call are.
pub open spec fn argument_places(index: IndexModel, flow: CallFlowModel, count: int) -> Seq<int>
    decreases count,
{
    if count <= 0 {
        Seq::empty()
    } else {
        let before = argument_places(index, flow, count - 1);
        match argument_function(
            index.functions,
            index.known,
            flow.arguments[count - 1],
            flow.caller,
            Some(flow.span),
        ) {
            Some(symbol) => match function_at(index.functions, symbol) {
                Some(place) => before.push(place),
                None => before,
            },
            None => before,
        }
    }
}

/// The functions that a call reaches or hands on.
pub open spec fn reached_by(index: IndexModel, flow: CallFlowModel) -> Seq<int> {
    let target = match function_at(index.functions, flow.target) {
        Some(place) => seq![place],
        None => Seq::empty(),
    };
    target + argument_places(index, flow, flow.arguments.len() as int)
}

/// The functions that the first `count` calls reach or hand on.
pub open spec fn reached_places(index: IndexModel, flows: Seq<CallFlowModel>, count: int) -> Seq<int>
    decreases count,
{
    if count <= 0 {
        Seq::empty()
    } else {
        reached_places(index, flows, count - 1) + reached_by(index, flows[count - 1])
    }
}

fn find_reached_by(index: &OcamlFlowIndex, flow: &OcamlCallFlow) -> (result: Vec<usize>)
    ensures
        node_list(result@) == reached_by(index@, flow@),
{
    let ghost values = flow@.arguments;
    let mut result: Vec<usize> = Vec::new();
    if let Some(place) = find_function_at(index.functions, &flow.target) {
        result.push(place);
    }
    let ghost target = node_list(result@);
    proof {
        assert(values.len() == flow.arguments@.len());
        assert(target =~= match function_at(index@.functions, flow@.target) {
            Some(place) => seq![place],
            None => Seq::empty(),
        });
        assert(target + argument_places(index@, flow@, 0) =~= target);
    }
    let mut next: usize = 0;
    while next < flow.arguments.len()
        invariant
            next <= flow.arguments@.len(),
            node_list(result@) == target + argument_places(index@, flow@, next as int),
        decreases flow.arguments@.len() - next,
    {
        let ghost before = node_list(result@);
        proof {
            assert(flow@.arguments[next as int] == flow.arguments@[next as int]@);
        }
        if let Some(symbol) = argument_callable_symbol(
            index.functions,
            index.known,
            flow.arguments[next].as_str(),
            &flow.caller,
            Some(&flow.span),
        ) {
            if let Some(place) = find_function_at(index.functions, &symbol) {
                result.push(place);
                proof {
                    assert(node_list(result@) =~= before.push(place as int));
                    assert(target + argument_places(index@, flow@, next as int).push(place as int)
                        =~= before.push(place as int));
                }
            }
        }
        next += 1;
    }
    result
}

fn find_reached(index: &OcamlFlowIndex, flows: &Vec<OcamlCallFlow>) -> (result: Vec<usize>)
    ensures
        node_list(result@) == reached_places(index@, views(flows@), flows@.len() as int),
{
    let mut result: Vec<usize> = Vec::new();
    let mut next: usize = 0;
    proof {
        assert(node_list(result@) =~= Seq::empty());
    }
    while next < flows.len()
        invariant
            next <= flows@.len(),
            node_list(result@) == reached_places(index@, views(flows@), next as int),
        decreases flows@.len() - next,
    {
        let ghost before = node_list(result@);
        proof {
            assert(views(flows@)[next as int] == flows@[next as int]@);
        }
        let mut more = find_reached_by(index, &flows[next]);
        let ghost added = node_list(more@);
        result.append(&mut more);
        proof {
            assert(node_list(result@) =~= before + added);
        }
        next += 1;
    }
    result
}

/// The first `count` functions that no call reaches, with the values that they
/// are called with from outside.
pub open spec fn root_items(
    index: IndexModel,
    called: Seq<(SymbolModel, usize)>,
    reached: Seq<int>,
    count: int,
) -> Seq<(int, Seq<FlowModel>)>
    decreases count,
{
    if count <= 0 {
        Seq::empty()
    } else {
        let before = root_items(index, called, reached, count - 1);
        if reached.contains(count - 1) {
            before
        } else {
            before.push(
                (count - 1, root_context(index, called, index.functions[count - 1].id)),
            )
        }
    }
}

fn is_reached(reached: &Vec<usize>, place: usize) -> (result: bool)
    ensures
        result == node_list(reached@).contains(place as int),
{
    let ghost nodes = node_list(reached@);
    let mut next: usize = 0;
    while next < reached.len()
        invariant
            next <= reached@.len(),
            nodes == node_list(reached@),
            forall|k: int| 0 <= k < next ==> #[trigger] nodes[k] != place,
        decreases reached@.len() - next,
    {
        proof {
            assert(nodes[next as int] == reached@[next as int]);
        }
        if reached[next] == place {
            return true;
        }
        next += 1;
    }
    false
}

fn find_root_items(
    index: &OcamlFlowIndex,
    called: &Vec<CalledParameter>,
    reached: &Vec<usize>,
) -> (result: Vec<PendingCallable>)
    ensures
        views(result@) == root_items(
            index@,
            views(called@),
            node_list(reached@),
            index.functions@.len() as int,
        ),
        all_there(result@, index.functions@.len()),
{
    let mut result: Vec<PendingCallable> = Vec::new();
    let mut next: usize = 0;
    proof {
        assert(views(result@) =~= Seq::empty());
    }
    while next < index.functions.len()
        invariant
            next <= index.functions@.len(),
            views(result@) == root_items(
                index@,
                views(called@),
                node_list(reached@),
                next as int,
            ),
            all_there(result@, index.functions@.len()),
        decreases index.functions@.len() - next,
    {
        if !is_reached(reached, next) {
            let ghost before = views(result@);
            proof {
                assert(views(index.functions@)[next as int] == index.functions@[next as int]@);
            }
            let item = PendingCallable {
                function: next,
                context: root_ocaml_context(index, called, &index.functions[next].id),
            };
            let ghost model = item@;
            result.push(item);
            proof {
                assert(views(result@) =~= before.push(model));
            }
        }
        next += 1;
    }
    result
}

/// How far specialization has come.
#[verifier::ext_equal]
pub struct ExpansionModel {
    /// The functions that are to be specialized, with the values that they are
    /// called with.
    pub pending: Seq<(int, Seq<FlowModel>)>,
    /// The identities of the specialized functions that are there.
    pub visited: Seq<SymbolModel>,
    /// The functions that were taken up.
    pub covered: Seq<usize>,
    pub functions: Seq<FunctionModel>,
    pub facts: Seq<FactModel>,
}

/// How far specialization has come.
pub struct Expansion {
    pub pending: Vec<PendingCallable>,
    pub visited: Vec<SymbolId>,
    pub covered: Vec<usize>,
    pub functions: Vec<FunctionInfo>,
    pub facts: Vec<LanguageFact>,
}

impl View for Expansion {
    type V = ExpansionModel;

    open spec fn view(&self) -> ExpansionModel {
        ExpansionModel {
            pending: views(self.pending@),
            visited: views(self.visited@),
            covered: self.covered@,
            functions: views(self.functions@),
            facts: views(self.facts@),
        }
    }
}

/// The function that is specialized next: the first that is pending, else the
/// first that was not taken up.
pub open spec fn next_item(
    index: IndexModel,
    called: Seq<(SymbolModel, usize)>,
    work: ExpansionModel,
) -> Option<(int, Seq<FlowModel>)> {
    if work.pending.len() > 0 {
        Some(work.pending[0])
    } else {
        match first_uncovered(work.covered, index.functions.len() as int, 0) {
            Some(place) => Some((place, root_context(index, called, index.functions[place].id))),
            None => None,
        }
    }
}

/// A function that is called with some values.
pub open spec fn function_in_context(
    index: IndexModel,
    called: Seq<(SymbolModel, usize)>,
    function: FunctionModel,
    context: Seq<FlowModel>,
) -> FunctionModel {
    FunctionModel {
        id: specialized_id(function.id, context, called),
        calls: calls_in_context(
            index,
            called,
            function.id,
            context,
            function.calls,
            function.calls.len() as int,
        ).0,
        ..function
    }
}

/// What comes of a function that is taken up.
#[verifier::opaque]
pub open spec fn taken_up(
    index: IndexModel,
    called: Seq<(SymbolModel, usize)>,
    work: ExpansionModel,
    item: (int, Seq<FlowModel>),
) -> ExpansionModel {
    let function = index.functions[item.0];
    let id = specialized_id(function.id, item.1, called);
    let covered = work.covered.push(item.0 as usize);
    if work.visited.contains(id) {
        ExpansionModel { covered, ..work }
    } else {
        ExpansionModel {
            pending: work.pending + calls_in_context(
                index,
                called,
                function.id,
                item.1,
                function.calls,
                function.calls.len() as int,
            ).1,
            visited: work.visited.push(id),
            covered,
            functions: work.functions.push(
                function_in_context(index, called, function, item.1),
            ),
            facts: work.facts + facts_retold(
                index.facts,
                function.id,
                id,
                index.facts.len() as int,
            ),
        }
    }
}

/// The work without its first pending function.
pub open spec fn without_first(work: ExpansionModel) -> ExpansionModel {
    ExpansionModel {
        pending: if work.pending.len() > 0 {
            work.pending.skip(1)
        } else {
            work.pending
        },
        ..work
    }
}

/// One step of specialization.
pub open spec fn step(
    index: IndexModel,
    called: Seq<(SymbolModel, usize)>,
    work: ExpansionModel,
) -> ExpansionModel {
    match next_item(index, called, work) {
        None => work,
        Some(item) => taken_up(index, called, without_first(work), item),
    }
}

/// How far specialization has come after `count` steps.
pub open spec fn steps(
    index: IndexModel,
    called: Seq<(SymbolModel, usize)>,
    start: ExpansionModel,
    count: nat,
) -> ExpansionModel
    decreases count,
{
    if count == 0 {
        start
    } else {
        step(index, called, steps(index, called, start, (count - 1) as nat))
    }
}

/// Whether specialization ends after `count` steps.
pub open spec fn ends_after(
    index: IndexModel,
    called: Seq<(SymbolModel, usize)>,
    start: ExpansionModel,
    count: nat,
) -> bool {
    &&& next_item(index, called, steps(index, called, start, count)) is None
    &&& forall|earlier: nat|
        earlier < count ==> next_item(
            index,
            called,
            #[trigger] steps(index, called, start, earlier),
        ) is Some
}

/// What specialization comes to.
pub open spec fn outcome(
    index: IndexModel,
    called: Seq<(SymbolModel, usize)>,
    start: ExpansionModel,
) -> ExpansionModel {
    steps(
        index,
        called,
        start,
        choose|count: nat| #[trigger] ends_after(index, called, start, count),
    )
}

/// Specialization ends in one way.
pub proof fn steps_end_once(
    index: IndexModel,
    called: Seq<(SymbolModel, usize)>,
    start: ExpansionModel,
    count: nat,
)
    requires
        ends_after(index, called, start, count),
    ensures
        outcome(index, called, start) == steps(index, called, start, count),
{
    let chosen = choose|count: nat| #[trigger] ends_after(index, called, start, count);
    assert(ends_after(index, called, start, chosen));
    if chosen < count {
        assert(next_item(index, called, steps(index, called, start, chosen)) is Some);
    }
    if count < chosen {
        assert(next_item(index, called, steps(index, called, start, count)) is Some);
    }
}

/// The work that specialization begins with.
pub open spec fn first_work(
    index: IndexModel,
    called: Seq<(SymbolModel, usize)>,
    flows: Seq<CallFlowModel>,
) -> ExpansionModel {
    ExpansionModel {
        pending: root_items(
            index,
            called,
            reached_places(index, flows, flows.len() as int),
            index.functions.len() as int,
        ),
        visited: Seq::empty(),
        covered: Seq::empty(),
        functions: Seq::empty(),
        facts: Seq::empty(),
    }
}

/// The specialized functions of a program, and what is said of them.
pub open spec fn specialized(
    index: IndexModel,
    called: Seq<(SymbolModel, usize)>,
    flows: Seq<CallFlowModel>,
) -> (Seq<FunctionModel>, Seq<FactModel>) {
    let end = outcome(index, called, first_work(index, called, flows));
    (end.functions, end.facts)
}

fn take_item(index: &OcamlFlowIndex, called: &Vec<CalledParameter>, work: &mut Expansion) -> (result:
    Option<PendingCallable>)
    requires
        all_there(old(work).pending@, index.functions@.len()),
    ensures
        match result {
            Some(item) => item.function < index.functions@.len() && next_item(
                index@,
                views(called@),
                old(work)@,
            ) == Some(item@) && (old(work)@.pending.len() == 0 ==> !old(
                work,
            )@.covered.contains(item.function)),
            None => next_item(index@, views(called@), old(work)@) is None,
        },
        final(work)@ == without_first(old(work)@),
        all_there(final(work).pending@, index.functions@.len()),
{
    let ghost before = work@;
    let ghost all = work.pending@;
    proof {
        assert(before.pending.len() == all.len());
    }
    if work.pending.len() > 0 {
        let item = work.pending.remove(0);
        proof {
            assert(before.pending[0] == item@);
            assert(views(work.pending@) =~= before.pending.skip(1));
            assert forall|k: int| 0 <= k < work.pending@.len() implies (
            #[trigger] work.pending@[k]).function < index.functions@.len() by {
                assert(work.pending@[k] == all[k + 1]);
            }
        }
        Some(item)
    } else {
        match find_uncovered(&work.covered, index.functions.len()) {
            Some(place) => {
                proof {
                    assert(views(index.functions@).len() == index.functions@.len());
                    assert(views(index.functions@)[place as int]
                        == index.functions@[place as int]@);
                }
                Some(
                    PendingCallable {
                        function: place,
                        context: root_ocaml_context(
                            index,
                            called,
                            &index.functions[place].id,
                        ),
                    },
                )
            },
            None => None,
        }
    }
}

fn has_visited(visited: &Vec<SymbolId>, id: &SymbolId) -> (result: bool)
    ensures
        result == views(visited@).contains(id@),
{
    let ghost model = views(visited@);
    let mut next: usize = 0;
    while next < visited.len()
        invariant
            next <= visited@.len(),
            model == views(visited@),
            forall|k: int| 0 <= k < next ==> #[trigger] model[k] != id@,
        decreases visited@.len() - next,
    {
        proof {
            assert(model[next as int] == visited@[next as int]@);
        }
        if visited[next].same(id) {
            return true;
        }
        next += 1;
    }
    false
}

fn take_up(
    index: &OcamlFlowIndex,
    called: &Vec<CalledParameter>,
    work: &mut Expansion,
    item: PendingCallable,
)
    requires
        item.function < index.functions@.len(),
        all_there(old(work).pending@, index.functions@.len()),
    ensures
        final(work)@ == taken_up(index@, views(called@), old(work)@, item@),
        all_there(final(work).pending@, index.functions@.len()),
        final(work)@.covered == old(work)@.covered.push(item.function),
        (final(work)@.visited == old(work)@.visited && final(work)@.pending == old(
            work,
        )@.pending) || final(work).visited@.len() == old(work).visited@.len() + 1,
{
    reveal(taken_up);
    let ghost before = work@;
    let raw = &index.functions[item.function];
    proof {
        assert(views(index.functions@)[item.function as int] == raw@);
        assert(site_models(raw.calls@) =~= views(raw.calls@));
        assert(index@.facts.len() == index.facts@.len());
    }
    let id = specialized_ocaml_id(&raw.id, &item.context, called);
    work.covered.push(item.function);
    if has_visited(&work.visited, &id) {
        return ;
    }
    let (calls, mut more) = find_calls_in_context(
        index,
        called,
        &raw.id,
        &item.context,
        &raw.calls,
    );
    let ghost added = views(more@);
    let function = FunctionInfo {
        id: id.clone(),
        label: raw.label.clone(),
        public: raw.public,
        calls,
        span: raw.span.clone(),
    };
    proof {
        assert(site_models(function.calls@) =~= views(function.calls@));
        assert(function@ =~= function_in_context(index@, views(called@), raw@, item@.1));
    }
    let ghost model = function@;
    let mut told = retell_facts(index.facts, &raw.id, &id);
    let ghost new_facts = views(told@);
    let ghost name = id@;
    work.visited.push(id);
    work.pending.append(&mut more);
    work.functions.push(function);
    work.facts.append(&mut told);
    proof {
        assert(views(work.pending@) =~= before.pending + added);
        assert(views(work.visited@) =~= before.visited.push(name));
        assert(views(work.functions@) =~= before.functions.push(model));
        assert(views(work.facts@) =~= before.facts + new_facts);
    }
}

/// Specializes the functions of a program for the callable values that they
/// are called with, starting from those that nobody calls.
pub fn specialize_ocaml_function_values(
    index: &OcamlFlowIndex,
    called: &Vec<CalledParameter>,
    flows: &Vec<OcamlCallFlow>,
) -> (result: (Vec<FunctionInfo>, Vec<LanguageFact>))
    ensures
        (views(result.0@), views(result.1@)) == specialized(
            index@,
            views(called@),
            views(flows@),
        ),
{
    let reached = find_reached(index, flows);
    let mut work = Expansion {
        pending: find_root_items(index, called, &reached),
        visited: Vec::new(),
        covered: Vec::new(),
        functions: Vec::new(),
        facts: Vec::new(),
    };
    let total: usize = index.functions.len();
    let ghost set = views(called@);
    let ghost start = first_work(index@, set, views(flows@));
    let ghost mut count: nat = 0;
    proof {
        assert(views(flows@).len() == flows@.len());
        assert(index@.functions.len() == total);
        assert(work@ =~= start);
    }
    loop
        invariant
            set == views(called@),
            index@.functions.len() == total,
            total == index.functions@.len(),
            start == first_work(index@, set, views(flows@)),
            all_there(work.pending@, index.functions@.len()),
            work@ == steps(index@, set, start, count),
            forall|earlier: nat|
                earlier < count ==> next_item(
                    index@,
                    set,
                    #[trigger] steps(index@, set, start, earlier),
                ) is Some,
        decreases
            usize::MAX - work.visited@.len(),
            uncovered(work@.covered, total as int),
            work@.pending.len(),
    {
        let ghost before = work@;
        let held: usize = work.visited.len();
        match take_item(index, called, &mut work) {
            None => {
                proof {
                    assert(ends_after(index@, set, start, count));
                    steps_end_once(index@, set, start, count);
                }
                return (work.functions, work.facts);
            },
            Some(item) => {
                proof {
                    covering_leaves_fewer(before.covered, item.function, total as int);
                    assert(work.visited@.len() == held) by {
                        assert(work@.visited.len() == work.visited@.len());
                        assert(before.visited.len() == held);
                    }
                }
                take_up(index, called, &mut work, item);
                let now: usize = work.visited.len();
                proof {
                    assert(work@.visited.len() == work.visited@.len());
                    assert(work@ == step(index@, set, before));
                    count = count + 1;
                }
            },
        }
    }
}

/// Where specialization ends, every function of the program was taken up and
/// nothing is pending.
pub proof fn every_function_is_taken_up(
    index: IndexModel,
    called: Seq<(SymbolModel, usize)>,
    flows: Seq<CallFlowModel>,
    count: nat,
    place: int,
)
    requires
        ends_after(index, called, first_work(index, called, flows), count),
        0 <= place < index.functions.len(),
    ensures
        outcome(index, called, first_work(index, called, flows)).covered.contains(place as usize),
        outcome(index, called, first_work(index, called, flows)).pending.len() == 0,
{
    let start = first_work(index, called, flows);
    steps_end_once(index, called, start, count);
    crate::rust::specialize::first_uncovered_is_uncovered(
        outcome(index, called, start).covered,
        index.functions.len() as int,
        0,
    );
}

} // verus!
