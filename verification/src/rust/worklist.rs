//! Which function instances of a crate are looked at: those that its functions
//! lead to, one after the other.
use crate::lists::views;
use crate::paths::{lies_under, SourcePath};
use crate::rust::collect::{expand_instance, is_expanded, next_expansion, Expansion};
use crate::rust::mir::{contains_dyn, type_contains_dyn, MirType, TypeModel};
use vstd::prelude::*;

verus! {

/// A function instance: its number, that of its definition, the length of its
/// name, and the name of its definition.
#[derive(Debug)]
pub struct FoundInstance {
    pub id: usize,
    pub definition: usize,
    pub size: usize,
    pub definition_name: String,
    pub has_body: bool,
}

#[verifier::ext_equal]
pub struct FoundModel {
    pub id: usize,
    pub definition: usize,
    pub size: usize,
    pub definition_name: Seq<char>,
    pub has_body: bool,
}

impl View for FoundInstance {
    type V = FoundModel;

    open spec fn view(&self) -> FoundModel {
        FoundModel {
            id: self.id,
            definition: self.definition,
            size: self.size,
            definition_name: self.definition_name@,
            has_body: self.has_body,
        }
    }
}

/// A call that names the instance it calls.
#[derive(Debug)]
pub struct FoundCall {
    pub target: FoundInstance,
    /// Whether which function is called is known only at run time.
    pub is_virtual: bool,
    /// Whether the target belongs to the crate.
    pub is_local: bool,
    /// Whether the body of the target stands in the project.
    pub in_root: bool,
    pub argument_types: Vec<MirType>,
    pub destination_type: Option<MirType>,
}

pub struct FoundCallModel {
    pub target: FoundModel,
    pub is_virtual: bool,
    pub is_local: bool,
    pub in_root: bool,
    pub argument_types: Seq<TypeModel>,
    pub destination_type: Option<TypeModel>,
}

impl View for FoundCall {
    type V = FoundCallModel;

    open spec fn view(&self) -> FoundCallModel {
        FoundCallModel {
            target: self.target@,
            is_virtual: self.is_virtual,
            is_local: self.is_local,
            in_root: self.in_root,
            argument_types: views(self.argument_types@),
            destination_type: crate::rust::mir::optional_type(self.destination_type),
        }
    }
}

/// A block of a body: the coroutines that it makes, and the call that it ends
/// with.
#[derive(Debug)]
pub struct FoundBlock {
    pub coroutines: Vec<FoundInstance>,
    pub call: Option<FoundCall>,
}

pub struct FoundBlockModel {
    pub coroutines: Seq<FoundModel>,
    pub call: Option<FoundCallModel>,
}

impl View for FoundBlock {
    type V = FoundBlockModel;

    open spec fn view(&self) -> FoundBlockModel {
        FoundBlockModel {
            coroutines: views(self.coroutines@),
            call: match self.call {
                Some(call) => Some(call@),
                None => None,
            },
        }
    }
}

/// Whether a body stands in the project that is analyzed.
pub open spec fn lies_in_root(
    file: Seq<char>,
    canonical_file: Option<Seq<char>>,
    root: Seq<char>,
    canonical_root: Option<Seq<char>>,
) -> bool {
    lies_under(file, root) || match (canonical_file, canonical_root) {
        (Some(file), Some(root)) => lies_under(file, root),
        _ => false,
    }
}

/// Whether a body stands in the project that is analyzed, by the places of its
/// file and of the project as they are written and as they really are.
pub fn instance_body_is_in_analysis_root(
    file: &SourcePath,
    canonical_file: Option<&SourcePath>,
    root: &SourcePath,
    canonical_root: Option<&SourcePath>,
) -> (result: bool)
    ensures
        result == lies_in_root(
            file@,
            (match canonical_file {
                Some(file) => Some(file@),
                None => None,
            }),
            root@,
            (match canonical_root {
                Some(root) => Some(root@),
                None => None,
            }),
        ),
{
    if file.starts_with(root) {
        return true;
    }
    match (canonical_file, canonical_root) {
        (Some(file), Some(root)) => file.starts_with(root),
        _ => false,
    }
}

/// Whether a dynamic value passes into a call or out of it.
pub open spec fn passes_dyn(arguments: Seq<TypeModel>, destination: Option<TypeModel>) -> bool {
    (exists|k: int| 0 <= k < arguments.len() && contains_dyn((#[trigger] arguments[k]).text)) || (
    match destination {
        Some(ty) => contains_dyn(ty.text),
        None => false,
    })
}

/// Whether a dynamic value passes into a call or out of it.
pub fn call_boundary_contains_dyn(arguments: &Vec<MirType>, destination: &Option<MirType>) -> (result: bool)
    ensures
        result == passes_dyn(
            views(arguments@),
            crate::rust::mir::optional_type(*destination),
        ),
{
    let ghost model = views(arguments@);
    let mut index: usize = 0;
    while index < arguments.len()
        invariant
            index <= arguments@.len(),
            model == views(arguments@),
            forall|k: int| 0 <= k < index ==> !contains_dyn((#[trigger] model[k]).text),
        decreases arguments@.len() - index,
    {
        proof {
            assert(model[index as int] == arguments@[index as int]@);
        }
        if type_contains_dyn(&arguments[index]) {
            return true;
        }
        index += 1;
    }
    match destination {
        Some(ty) => type_contains_dyn(ty),
        None => false,
    }
}

/// Whether a call leads to its target: the target is known, has a body, and
/// either belongs to the project or can carry a dynamic value.
pub open spec fn leads_on(call: FoundCallModel) -> bool {
    !call.is_virtual && call.target.has_body && (call.is_local || call.in_root || passes_dyn(
        call.argument_types,
        call.destination_type,
    ))
}

fn follows_call(call: &FoundCall) -> (result: bool)
    ensures
        result == leads_on(call@),
{
    !call.is_virtual && call.target.has_body && (call.is_local || call.in_root
        || call_boundary_contains_dyn(&call.argument_types, &call.destination_type))
}

/// How often definitions led to instances of themselves, on the way to an
/// instance.
#[derive(Debug)]
pub struct ExpansionHistory {
    pub entries: Vec<(usize, Expansion)>,
}

impl View for ExpansionHistory {
    type V = Seq<(usize, Expansion)>;

    open spec fn view(&self) -> Seq<(usize, Expansion)> {
        self.entries@
    }
}

/// The last of the first `count` entries for a definition.
pub open spec fn history_of(entries: Seq<(usize, Expansion)>, definition: usize, count: int) -> Option<
    Expansion,
>
    decreases count,
{
    if count <= 0 {
        None
    } else if entries[count - 1].0 == definition {
        Some(entries[count - 1].1)
    } else {
        history_of(entries, definition, count - 1)
    }
}

fn find_history(history: &ExpansionHistory, definition: usize) -> (result: Option<Expansion>)
    ensures
        result == history_of(history@, definition, history@.len() as int),
{
    let mut count: usize = history.entries.len();
    while count > 0
        invariant
            count <= history.entries@.len(),
            history_of(history@, definition, count as int) == history_of(
                history@,
                definition,
                history@.len() as int,
            ),
        decreases count,
    {
        if history.entries[count - 1].0 == definition {
            return Some(history.entries[count - 1].1);
        }
        count -= 1;
    }
    None
}

fn extend_history(history: &ExpansionHistory, definition: usize, expansion: Expansion) -> (result:
    ExpansionHistory)
    ensures
        result@ == history@.push((definition, expansion)),
{
    let mut entries: Vec<(usize, Expansion)> = Vec::new();
    let mut index: usize = 0;
    while index < history.entries.len()
        invariant
            index <= history.entries@.len(),
            entries@ == history.entries@.take(index as int),
        decreases history.entries@.len() - index,
    {
        entries.push(history.entries[index]);
        proof {
            assert(history.entries@.take(index + 1) =~= history.entries@.take(
                index as int,
            ).push(history.entries@[index as int]));
        }
        index += 1;
    }
    entries.push((definition, expansion));
    proof {
        assert(entries@ =~= history@.push((definition, expansion)));
    }
    ExpansionHistory { entries }
}

/// An instance that waits, with its history.
#[derive(Debug)]
pub struct WaitingInstance {
    pub id: usize,
    pub history: ExpansionHistory,
}

impl View for WaitingInstance {
    type V = (usize, Seq<(usize, Expansion)>);

    open spec fn view(&self) -> (usize, Seq<(usize, Expansion)>) {
        (self.id, self.history@)
    }
}

/// The coroutines that an instance makes.
#[derive(Debug)]
pub struct GeneratedCoroutines {
    pub instance: usize,
    pub coroutines: Vec<usize>,
}

impl View for GeneratedCoroutines {
    type V = (usize, Seq<usize>);

    open spec fn view(&self) -> (usize, Seq<usize>) {
        (self.instance, self.coroutines@)
    }
}

/// What is known so far: the instances that wait, those that were taken up,
/// those whose bodies are there, the coroutines that each of them makes, the
/// implementations of traits that dynamic values were seen to have, and
/// whether an instance led to others without end.
#[derive(Debug)]
pub struct InstanceWork {
    pub queue: Vec<WaitingInstance>,
    pub visited: Vec<usize>,
    pub bodies: Vec<usize>,
    pub generated: Vec<GeneratedCoroutines>,
    pub vtables: Vec<usize>,
    pub expanding: bool,
}

#[verifier::ext_equal]
pub struct WorkModel {
    pub queue: Seq<(usize, Seq<(usize, Expansion)>)>,
    pub visited: Seq<usize>,
    pub bodies: Seq<usize>,
    pub generated: Seq<(usize, Seq<usize>)>,
    pub vtables: Seq<usize>,
    pub expanding: bool,
}

impl View for InstanceWork {
    type V = WorkModel;

    open spec fn view(&self) -> WorkModel {
        WorkModel {
            queue: views(self.queue@),
            visited: self.visited@,
            bodies: self.bodies@,
            generated: views(self.generated@),
            vtables: self.vtables@,
            expanding: self.expanding,
        }
    }
}

fn has_number(numbers: &Vec<usize>, number: usize) -> (result: bool)
    ensures
        result == numbers@.contains(number),
{
    let mut index: usize = 0;
    while index < numbers.len()
        invariant
            index <= numbers@.len(),
            forall|k: int| 0 <= k < index ==> numbers@[k] != number,
        decreases numbers@.len() - index,
    {
        if numbers[index] == number {
            return true;
        }
        index += 1;
    }
    false
}

/// What is known once an instance has been found: it waits, unless it was
/// taken up, or its definition leads to instances without end.
pub open spec fn enqueued(
    work: WorkModel,
    instance: FoundModel,
    history: Seq<(usize, Expansion)>,
) -> WorkModel {
    let next = next_expansion(
        history_of(history, instance.definition, history.len() as int),
        instance.size,
    );
    if work.visited.contains(instance.id) {
        work
    } else if !is_expanded(instance.definition_name, next) {
        WorkModel { expanding: true, ..work }
    } else {
        WorkModel {
            queue: work.queue.push((instance.id, history.push((instance.definition, next)))),
            ..work
        }
    }
}

/// Puts an instance that has been found among those that wait.
pub fn enqueue_rust_instance(work: &mut InstanceWork, instance: &FoundInstance, history: &ExpansionHistory)
    ensures
        final(work)@ == enqueued(old(work)@, instance@, history@),
{
    let ghost start = work@;
    if has_number(&work.visited, instance.id) {
        return ;
    }
    let before = find_history(history, instance.definition);
    match expand_instance(instance.definition_name.as_str(), before, instance.size) {
        None => {
            work.expanding = true;
        },
        Some(next) => {
            let waiting = WaitingInstance {
                id: instance.id,
                history: extend_history(history, instance.definition, next),
            };
            let ghost model = waiting@;
            work.queue.push(waiting);
            proof {
                assert(views(work.queue@) =~= start.queue.push(model));
            }
        },
    }
}

/// The list of coroutines of an instance, with one more that is not yet there.
pub open spec fn with_coroutine(
    generated: Seq<(usize, Seq<usize>)>,
    instance: usize,
    coroutine: usize,
) -> Seq<(usize, Seq<usize>)> {
    match crate::lists::place_of(generated, instance, 0) {
        Some(place) => if generated[place].1.contains(coroutine) {
            generated
        } else {
            generated.update(place, (instance, generated[place].1.push(coroutine)))
        },
        None => generated.push((instance, seq![coroutine])),
    }
}

fn add_coroutine(generated: &mut Vec<GeneratedCoroutines>, instance: usize, coroutine: usize)
    ensures
        views(final(generated)@) == with_coroutine(views(old(generated)@), instance, coroutine),
{
    let ghost start = views(generated@);
    let mut index: usize = 0;
    while index < generated.len()
        invariant
            index <= generated@.len(),
            start == views(generated@),
            crate::lists::place_of(start, instance, index as int) == crate::lists::place_of(
                start,
                instance,
                0,
            ),
            start == views(old(generated)@),
        decreases generated@.len() - index,
    {
        proof {
            assert(start[index as int] == generated@[index as int]@);
        }
        if generated[index].instance == instance {
            if !has_number(&generated[index].coroutines, coroutine) {
                let mut coroutines: Vec<usize> = Vec::new();
                let ghost own = generated@[index as int].coroutines@;
                let mut next: usize = 0;
                while next < generated[index].coroutines.len()
                    invariant
                        index < generated@.len(),
                        start == views(generated@),
                        own == generated@[index as int].coroutines@,
                        next <= own.len(),
                        coroutines@ == own.take(next as int),
                    decreases own.len() - next,
                {
                    coroutines.push(generated[index].coroutines[next]);
                    proof {
                        assert(own.take(next + 1) =~= own.take(next as int).push(
                            own[next as int],
                        ));
                    }
                    next += 1;
                }
                coroutines.push(coroutine);
                proof {
                    assert(coroutines@ =~= own.push(coroutine));
                }
                generated.set(index, GeneratedCoroutines { instance, coroutines });
                proof {
                    assert(views(generated@) =~= start.update(
                        index as int,
                        (instance, own.push(coroutine)),
                    ));
                }
            }
            return ;
        }
        index += 1;
    }
    let mut coroutines: Vec<usize> = Vec::new();
    coroutines.push(coroutine);
    proof {
        assert(coroutines@ =~= seq![coroutine]);
    }
    generated.push(GeneratedCoroutines { instance, coroutines });
    proof {
        assert(views(generated@) =~= start.push((instance, seq![coroutine])));
    }
}

/// What is known behind the first `count` coroutines that a block of an
/// instance makes.
pub open spec fn behind_coroutines(
    work: WorkModel,
    instance: usize,
    history: Seq<(usize, Expansion)>,
    coroutines: Seq<FoundModel>,
    count: int,
) -> WorkModel
    decreases count,
{
    if count <= 0 {
        work
    } else {
        let before = behind_coroutines(work, instance, history, coroutines, count - 1);
        let coroutine = coroutines[count - 1];
        if coroutine.has_body {
            let waiting = enqueued(before, coroutine, history);
            WorkModel {
                generated: with_coroutine(waiting.generated, instance, coroutine.id),
                ..waiting
            }
        } else {
            before
        }
    }
}

/// What is known behind a block of an instance.
pub open spec fn behind_block(
    work: WorkModel,
    instance: usize,
    history: Seq<(usize, Expansion)>,
    block: FoundBlockModel,
) -> WorkModel {
    let made = behind_coroutines(
        work,
        instance,
        history,
        block.coroutines,
        block.coroutines.len() as int,
    );
    match block.call {
        Some(call) => if leads_on(call) {
            enqueued(made, call.target, history)
        } else {
            made
        },
        None => made,
    }
}

/// What is known behind the first `count` blocks of an instance.
pub open spec fn behind_blocks(
    work: WorkModel,
    instance: usize,
    history: Seq<(usize, Expansion)>,
    blocks: Seq<FoundBlockModel>,
    count: int,
) -> WorkModel
    decreases count,
{
    if count <= 0 {
        work
    } else {
        behind_block(
            behind_blocks(work, instance, history, blocks, count - 1),
            instance,
            history,
            blocks[count - 1],
        )
    }
}

/// The implementations with the first `count` of some more, each once.
pub open spec fn with_vtables(vtables: Seq<usize>, more: Seq<usize>, count: int) -> Seq<usize>
    decreases count,
{
    if count <= 0 {
        vtables
    } else {
        let before = with_vtables(vtables, more, count - 1);
        if before.contains(more[count - 1]) {
            before
        } else {
            before.push(more[count - 1])
        }
    }
}

/// What is known behind an instance whose body is there.
pub open spec fn behind_instance(
    work: WorkModel,
    instance: usize,
    history: Seq<(usize, Expansion)>,
    vtables: Seq<usize>,
    blocks: Seq<FoundBlockModel>,
) -> WorkModel {
    let seen = WorkModel {
        vtables: with_vtables(work.vtables, vtables, vtables.len() as int),
        ..work
    };
    let found = behind_blocks(seen, instance, history, blocks, blocks.len() as int);
    WorkModel { bodies: found.bodies.push(instance), ..found }
}

fn visit_coroutines(
    work: &mut InstanceWork,
    instance: usize,
    history: &ExpansionHistory,
    coroutines: &Vec<FoundInstance>,
)
    ensures
        final(work)@ == behind_coroutines(
            old(work)@,
            instance,
            history@,
            views(coroutines@),
            coroutines@.len() as int,
        ),
{
    let ghost start = work@;
    let mut index: usize = 0;
    while index < coroutines.len()
        invariant
            index <= coroutines@.len(),
            work@ == behind_coroutines(
                start,
                instance,
                history@,
                views(coroutines@),
                index as int,
            ),
        decreases coroutines@.len() - index,
    {
        proof {
            assert(views(coroutines@)[index as int] == coroutines@[index as int]@);
        }
        if coroutines[index].has_body {
            enqueue_rust_instance(work, &coroutines[index], history);
            add_coroutine(&mut work.generated, instance, coroutines[index].id);
        }
        index += 1;
    }
}

/// Takes up an instance whose body is there: what its blocks lead to waits.
pub fn visit_instance(
    work: &mut InstanceWork,
    instance: usize,
    history: &ExpansionHistory,
    vtables: &Vec<usize>,
    blocks: &Vec<FoundBlock>,
)
    ensures
        final(work)@ == behind_instance(
            old(work)@,
            instance,
            history@,
            vtables@,
            views(blocks@),
        ),
{
    let ghost start = work@;
    let mut next: usize = 0;
    while next < vtables.len()
        invariant
            next <= vtables@.len(),
            work@ == (WorkModel {
                vtables: with_vtables(start.vtables, vtables@, next as int),
                ..start
            }),
        decreases vtables@.len() - next,
    {
        if !has_number(&work.vtables, vtables[next]) {
            work.vtables.push(vtables[next]);
        }
        next += 1;
    }
    let ghost seen = work@;
    let mut index: usize = 0;
    while index < blocks.len()
        invariant
            index <= blocks@.len(),
            work@ == behind_blocks(seen, instance, history@, views(blocks@), index as int),
        decreases blocks@.len() - index,
    {
        let block = &blocks[index];
        proof {
            assert(views(blocks@)[index as int] == block@);
            assert(views(block.coroutines@).len() == block.coroutines@.len());
        }
        visit_coroutines(work, instance, history, &block.coroutines);
        if let Some(call) = &block.call {
            if follows_call(call) {
                enqueue_rust_instance(work, &call.target, history);
            }
        }
        index += 1;
    }
    proof {
        assert(views(blocks@).len() == blocks@.len());
    }
    work.bodies.push(instance);
}

/// The first waiting instance from `index` on that was not taken up.
pub open spec fn next_place(
    queue: Seq<(usize, Seq<(usize, Expansion)>)>,
    visited: Seq<usize>,
    index: int,
) -> int
    decreases queue.len() - index,
{
    if 0 <= index < queue.len() && visited.contains(queue[index].0) {
        next_place(queue, visited, index + 1)
    } else {
        index
    }
}

/// What is known once the next instance is taken up: it no longer waits, nor
/// do those before it, which were taken up earlier.
pub open spec fn taken(work: WorkModel) -> WorkModel {
    let place = next_place(work.queue, work.visited, 0);
    if place < work.queue.len() {
        WorkModel {
            queue: work.queue.skip(place + 1),
            visited: work.visited.push(work.queue[place].0),
            ..work
        }
    } else {
        WorkModel { queue: Seq::empty(), ..work }
    }
}

/// Takes the next instance from those that wait. None where none waits.
pub fn take_instance(work: &mut InstanceWork) -> (result: Option<WaitingInstance>)
    ensures
        final(work)@ == taken(old(work)@),
        ({
            let place = next_place(old(work)@.queue, old(work)@.visited, 0);
            match result {
                Some(waiting) => place < old(work)@.queue.len() && waiting@ == old(
                    work,
                )@.queue[place],
                None => place >= old(work)@.queue.len(),
            }
        }),
{
    let ghost start = work@;
    let ghost all = views(work.queue@);
    let mut dropped: Ghost<int> = Ghost(0);
    proof {
        assert(all.skip(0) =~= all);
    }
    while work.queue.len() > 0
        invariant
            0 <= dropped@ <= all.len(),
            views(work.queue@) == all.skip(dropped@),
            all == start.queue,
            start == old(work)@,
            next_place(all, start.visited, dropped@) == next_place(all, start.visited, 0),
            work@ == (WorkModel { queue: all.skip(dropped@), ..start }),
        decreases work.queue@.len(),
    {
        let ghost before = work.queue@;
        let waiting = work.queue.remove(0);
        proof {
            assert(views(before).len() == before.len());
            assert(views(before)[0] == waiting@);
            assert(all.skip(dropped@)[0] == all[dropped@]);
            assert(views(work.queue@) =~= all.skip(dropped@ + 1)) by {
                assert(work.queue@ =~= before.skip(1));
                assert(views(before).skip(1) =~= all.skip(dropped@ + 1));
                assert(views(before.skip(1)) =~= views(before).skip(1));
            }
        }
        if !has_number(&work.visited, waiting.id) {
            work.visited.push(waiting.id);
            return Some(waiting);
        }
        proof {
            dropped@ = dropped@ + 1;
        }
    }
    proof {
        assert(views(work.queue@) =~= Seq::empty());
        assert(dropped@ == all.len());
    }
    None
}

/// What is known once the first `count` functions that dynamic calls can lead
/// to have been found.
pub open spec fn behind_candidates(work: WorkModel, candidates: Seq<FoundModel>, count: int) -> WorkModel
    decreases count,
{
    if count <= 0 {
        work
    } else {
        let before = behind_candidates(work, candidates, count - 1);
        if candidates[count - 1].has_body {
            enqueued(before, candidates[count - 1], Seq::empty())
        } else {
            before
        }
    }
}

/// Puts the functions that dynamic calls can lead to among the instances that
/// wait.
pub fn visit_candidates(work: &mut InstanceWork, candidates: &Vec<FoundInstance>)
    ensures
        final(work)@ == behind_candidates(
            old(work)@,
            views(candidates@),
            candidates@.len() as int,
        ),
{
    let ghost start = work@;
    let history = ExpansionHistory { entries: Vec::new() };
    let mut index: usize = 0;
    while index < candidates.len()
        invariant
            index <= candidates@.len(),
            history@ == Seq::<(usize, Expansion)>::empty(),
            work@ == behind_candidates(start, views(candidates@), index as int),
        decreases candidates@.len() - index,
    {
        proof {
            assert(views(candidates@)[index as int] == candidates@[index as int]@);
        }
        if candidates[index].has_body {
            enqueue_rust_instance(work, &candidates[index], &history);
        }
        index += 1;
    }
}

/// The instances of the functions of a crate, which wait without a history.
pub open spec fn waiting_from(instances: Seq<usize>) -> Seq<(usize, Seq<(usize, Expansion)>)> {
    instances.map_values(|id: usize| (id, Seq::<(usize, Expansion)>::empty()))
}

/// The work that begins with the functions of a crate.
pub fn collect_instance_bodies(instances: &Vec<usize>) -> (result: InstanceWork)
    ensures
        result@ == (WorkModel {
            queue: waiting_from(instances@),
            visited: Seq::empty(),
            bodies: Seq::empty(),
            generated: Seq::empty(),
            vtables: Seq::empty(),
            expanding: false,
        }),
{
    let mut queue: Vec<WaitingInstance> = Vec::new();
    let mut index: usize = 0;
    while index < instances.len()
        invariant
            index <= instances@.len(),
            queue@.len() == index,
            forall|k: int|
                0 <= k < index ==> (#[trigger] queue@[k])@ == waiting_from(instances@)[k],
        decreases instances@.len() - index,
    {
        let history = ExpansionHistory { entries: Vec::new() };
        proof {
            assert(history@ =~= Seq::empty());
        }
        queue.push(WaitingInstance { id: instances[index], history });
        index += 1;
    }
    let generated: Vec<GeneratedCoroutines> = Vec::new();
    proof {
        assert(views(queue@) =~= waiting_from(instances@));
        assert(views(generated@) =~= Seq::empty());
    }
    InstanceWork {
        queue,
        visited: Vec::new(),
        bodies: Vec::new(),
        generated,
        vtables: Vec::new(),
        expanding: false,
    }
}

/// Whether each instance was taken up at most once.
pub open spec fn taken_up_once(work: WorkModel) -> bool {
    forall|i: int, j: int|
        0 <= i < j < work.visited.len() ==> #[trigger] work.visited[i] != #[trigger] work.visited[j]
}

/// No instance is taken up twice, whatever is found on the way.
pub proof fn no_instance_is_taken_up_twice(work: WorkModel)
    requires
        taken_up_once(work),
    ensures
        taken_up_once(taken(work)),
{
    next_place_is_new(work.queue, work.visited, 0);
}

proof fn next_place_is_new(
    queue: Seq<(usize, Seq<(usize, Expansion)>)>,
    visited: Seq<usize>,
    index: int,
)
    requires
        0 <= index,
    ensures
        index <= next_place(queue, visited, index),
        next_place(queue, visited, index) < queue.len() ==> !visited.contains(
            queue[next_place(queue, visited, index)].0,
        ),
    decreases queue.len() - index,
{
    if index < queue.len() && visited.contains(queue[index].0) {
        next_place_is_new(queue, visited, index + 1);
    }
}

/// An instance that was taken up never waits again, and finding instances
/// takes none up.
pub proof fn found_instances_are_new(
    work: WorkModel,
    instance: FoundModel,
    history: Seq<(usize, Expansion)>,
)
    requires
        forall|k: int|
            0 <= k < work.queue.len() ==> !work.visited.contains((#[trigger] work.queue[k]).0),
    ensures
        enqueued(work, instance, history).visited == work.visited,
        forall|k: int|
            0 <= k < enqueued(work, instance, history).queue.len() ==> !work.visited.contains(
                (#[trigger] enqueued(work, instance, history).queue[k]).0,
            ),
{
}

} // verus!
