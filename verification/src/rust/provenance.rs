//! Which concrete types can stand behind the places of a body.
use crate::lists::{bound, copy_list, place_of, value_of, views};
use crate::model::{copy_reasons, UnresolvedReason};
use crate::rust::mir::{whole, ConcreteModel, ConcreteType, Place, PlaceModel, Projection};
use crate::rust::semantic::copy_numbers;
use crate::sets::{add_reason, add_reasons, with_reason, with_reasons};
use vstd::prelude::*;

verus! {

/// The concrete types that can stand behind a value, the parameters whose
/// values can, and why there may be more.
#[derive(Debug)]
pub struct DynFlow {
    pub concrete: Vec<ConcreteType>,
    /// In order, each parameter once.
    pub parameters: Vec<usize>,
    /// In order, each reason once.
    pub unresolved_reasons: Vec<UnresolvedReason>,
}

#[verifier::ext_equal]
pub struct DynModel {
    pub concrete: Seq<ConcreteModel>,
    pub parameters: Seq<usize>,
    pub unresolved_reasons: Seq<UnresolvedReason>,
}

impl View for DynFlow {
    type V = DynModel;

    open spec fn view(&self) -> DynModel {
        DynModel {
            concrete: views(self.concrete@),
            parameters: self.parameters@,
            unresolved_reasons: self.unresolved_reasons@,
        }
    }
}

impl Clone for DynFlow {
    fn clone(&self) -> (result: Self)
        ensures
            result@ == self@,
    {
        DynFlow {
            concrete: copy_list(&self.concrete),
            parameters: copy_numbers(&self.parameters),
            unresolved_reasons: copy_reasons(&self.unresolved_reasons),
        }
    }
}

/// Nothing stands behind a value.
pub open spec fn nothing() -> DynModel {
    DynModel {
        concrete: Seq::empty(),
        parameters: Seq::empty(),
        unresolved_reasons: Seq::empty(),
    }
}

/// Whether nothing stands behind a value.
pub open spec fn is_nothing(flow: DynModel) -> bool {
    flow.concrete.len() == 0 && flow.parameters.len() == 0 && flow.unresolved_reasons.len() == 0
}

/// The value of a parameter.
pub open spec fn parameter_flow(index: usize) -> DynModel {
    DynModel { parameters: seq![index], ..nothing() }
}

/// A value of a known type.
pub open spec fn concrete_flow(concrete: ConcreteModel) -> DynModel {
    DynModel { concrete: seq![concrete], ..nothing() }
}

/// A value of which nothing is known, for a reason.
pub open spec fn unresolved_flow(reason: UnresolvedReason) -> DynModel {
    DynModel { unresolved_reasons: seq![reason], ..nothing() }
}

/// Whether a type is in a list.
pub open spec fn has_concrete(list: Seq<ConcreteModel>, id: usize) -> bool {
    exists|index: int| 0 <= index < list.len() && (#[trigger] list[index]).id == id
}

/// The types of a list and the first `count` of more.
pub open spec fn with_concretes(list: Seq<ConcreteModel>, more: Seq<ConcreteModel>, count: int) -> Seq<
    ConcreteModel,
>
    decreases count,
{
    if count <= 0 {
        list
    } else {
        let before = with_concretes(list, more, count - 1);
        if has_concrete(before, more[count - 1].id) {
            before
        } else {
            before.push(more[count - 1])
        }
    }
}

/// How many numbers at the front, from `index` on, are less than `number`.
pub open spec fn number_position(numbers: Seq<usize>, number: usize, index: nat) -> nat
    decreases numbers.len() - index,
{
    if index < numbers.len() && numbers[index as int] < number {
        number_position(numbers, number, index + 1)
    } else {
        index
    }
}

/// An ordered set of numbers with one more.
pub open spec fn with_number(numbers: Seq<usize>, number: usize) -> Seq<usize> {
    let place = number_position(numbers, number, 0) as int;
    if place < numbers.len() && numbers[place] == number {
        numbers
    } else if place <= numbers.len() {
        numbers.insert(place, number)
    } else {
        numbers
    }
}

/// An ordered set of numbers with the first `count` of more.
pub open spec fn with_numbers(numbers: Seq<usize>, more: Seq<usize>, count: int) -> Seq<usize>
    decreases count,
{
    if count <= 0 {
        numbers
    } else {
        with_number(with_numbers(numbers, more, count - 1), more[count - 1])
    }
}

/// What stands behind one value or another.
pub open spec fn joint(left: DynModel, right: DynModel) -> DynModel {
    DynModel {
        concrete: with_concretes(left.concrete, right.concrete, right.concrete.len() as int),
        parameters: with_numbers(left.parameters, right.parameters, right.parameters.len() as int),
        unresolved_reasons: with_reasons(
            left.unresolved_reasons,
            right.unresolved_reasons,
            right.unresolved_reasons.len() as int,
        ),
    }
}

fn holds_concrete(list: &Vec<ConcreteType>, id: usize) -> (result: bool)
    ensures
        result == has_concrete(views(list@), id),
{
    let mut index: usize = 0;
    while index < list.len()
        invariant
            index <= list@.len(),
            forall|k: int| 0 <= k < index ==> (#[trigger] views(list@)[k]).id != id,
        decreases list@.len() - index,
    {
        proof {
            assert(views(list@)[index as int] == list@[index as int]@);
        }
        if list[index].id == id {
            return true;
        }
        index += 1;
    }
    false
}

fn add_number(numbers: &mut Vec<usize>, number: usize) -> (added: bool)
    ensures
        final(numbers)@ == with_number(old(numbers)@, number),
        added == (final(numbers)@ != old(numbers)@),
{
    let ghost before = numbers@;
    let mut index: usize = 0;
    while index < numbers.len() && numbers[index] < number
        invariant
            index <= numbers@.len(),
            before == numbers@,
            number_position(before, number, index as nat) == number_position(before, number, 0),
        decreases numbers@.len() - index,
    {
        index += 1;
    }
    if index < numbers.len() && numbers[index] == number {
        return false;
    }
    numbers.insert(index, number);
    proof {
        assert(numbers@.len() == before.len() + 1);
    }
    true
}

proof fn more_concretes(list: Seq<ConcreteModel>, more: Seq<ConcreteModel>, count: int)
    ensures
        with_concretes(list, more, count).len() >= list.len(),
        with_concretes(list, more, count).len() == list.len() ==> with_concretes(list, more, count)
            == list,
    decreases count,
{
    if count > 0 {
        more_concretes(list, more, count - 1);
    }
}

proof fn more_numbers(numbers: Seq<usize>, more: Seq<usize>, count: int)
    ensures
        with_numbers(numbers, more, count).len() >= numbers.len(),
        with_numbers(numbers, more, count).len() == numbers.len() ==> with_numbers(
            numbers,
            more,
            count,
        ) == numbers,
    decreases count,
{
    if count > 0 {
        more_numbers(numbers, more, count - 1);
    }
}

proof fn more_reasons(
    reasons: Seq<UnresolvedReason>,
    more: Seq<UnresolvedReason>,
    count: int,
)
    ensures
        with_reasons(reasons, more, count).len() >= reasons.len(),
        with_reasons(reasons, more, count).len() == reasons.len() ==> with_reasons(
            reasons,
            more,
            count,
        ) == reasons,
    decreases count,
{
    if count > 0 {
        more_reasons(reasons, more, count - 1);
    }
}

impl DynFlow {
    /// Nothing stands behind a value.
    pub fn empty() -> (result: Self)
        ensures
            result@ == nothing(),
    {
        let result = DynFlow {
            concrete: Vec::new(),
            parameters: Vec::new(),
            unresolved_reasons: Vec::new(),
        };
        proof {
            assert(result@ =~= nothing());
        }
        result
    }

    /// The value of a parameter.
    pub fn parameter(index: usize) -> (result: Self)
        ensures
            result@ == parameter_flow(index),
    {
        let mut result = DynFlow::empty();
        result.parameters.push(index);
        proof {
            assert(result@ =~= parameter_flow(index));
        }
        result
    }

    /// A value of a known type.
    pub fn concrete(concrete: ConcreteType) -> (result: Self)
        ensures
            result@ == concrete_flow(concrete@),
    {
        let mut result = DynFlow::empty();
        let ghost model = concrete@;
        result.concrete.push(concrete);
        proof {
            assert(result@ =~= concrete_flow(model));
        }
        result
    }

    /// A value of which nothing is known, for a reason.
    pub fn unresolved(reason: UnresolvedReason) -> (result: Self)
        ensures
            result@ == unresolved_flow(reason),
    {
        let mut result = DynFlow::empty();
        result.unresolved_reasons.push(reason);
        proof {
            assert(result@ =~= unresolved_flow(reason));
        }
        result
    }

    /// Whether nothing stands behind the value.
    pub fn is_empty(&self) -> (result: bool)
        ensures
            result == is_nothing(self@),
    {
        proof {
            assert(views(self.concrete@).len() == self.concrete@.len());
        }
        self.concrete.len() == 0 && self.parameters.len() == 0 && self.unresolved_reasons.len()
            == 0
    }

    /// Adds what stands behind another value, and says whether that changed
    /// anything.
    pub fn merge(&mut self, other: &DynFlow) -> (changed: bool)
        ensures
            final(self)@ == joint(old(self)@, other@),
            changed == (final(self)@ != old(self)@),
    {
        let ghost before = self@;
        let mut changed = false;
        let mut index: usize = 0;
        while index < other.concrete.len()
            invariant
                index <= other.concrete@.len(),
                self@ == (DynModel {
                    concrete: with_concretes(before.concrete, other@.concrete, index as int),
                    ..before
                }),
                changed == (self@.concrete.len() != before.concrete.len()),
            decreases other.concrete@.len() - index,
        {
            let ghost list = self@.concrete;
            proof {
                assert(other@.concrete[index as int] == other.concrete@[index as int]@);
                more_concretes(before.concrete, other@.concrete, index as int);
            }
            if !holds_concrete(&self.concrete, other.concrete[index].id) {
                let concrete = other.concrete[index].clone();
                self.concrete.push(concrete);
                proof {
                    assert(views(self.concrete@) =~= list.push(concrete@));
                }
                changed = true;
            }
            index += 1;
        }
        proof {
            assert(views(other.concrete@).len() == other.concrete@.len());
            more_concretes(before.concrete, other@.concrete, other@.concrete.len() as int);
        }
        let ghost middle = self@;
        let mut place: usize = 0;
        while place < other.parameters.len()
            invariant
                place <= other.parameters@.len(),
                self@ == (DynModel {
                    parameters: with_numbers(before.parameters, other@.parameters, place as int),
                    ..middle
                }),
                middle.parameters == before.parameters,
                middle.unresolved_reasons == before.unresolved_reasons,
                changed == (middle.concrete.len() != before.concrete.len()
                    || self@.parameters.len() != before.parameters.len()),
            decreases other.parameters@.len() - place,
        {
            proof {
                more_numbers(before.parameters, other@.parameters, place as int);
                more_numbers(before.parameters, other@.parameters, place + 1);
            }
            if add_number(&mut self.parameters, other.parameters[place]) {
                changed = true;
            }
            place += 1;
        }
        proof {
            more_numbers(before.parameters, other@.parameters, other@.parameters.len() as int);
            more_reasons(
                before.unresolved_reasons,
                other@.unresolved_reasons,
                other@.unresolved_reasons.len() as int,
            );
        }
        let count: usize = self.unresolved_reasons.len();
        add_reasons(&mut self.unresolved_reasons, &other.unresolved_reasons);
        changed || self.unresolved_reasons.len() != count
    }
}

/// What a flow holds when the parameters have the given values, by the first
/// `count` parameters in it.
pub open spec fn substituted_to(flow: DynModel, arguments: Seq<DynModel>, count: int) -> DynModel
    decreases count,
{
    if count <= 0 {
        DynModel { parameters: Seq::empty(), ..flow }
    } else {
        let before = substituted_to(flow, arguments, count - 1);
        let parameter = flow.parameters[count - 1] as int;
        if parameter < arguments.len() {
            joint(before, arguments[parameter])
        } else {
            DynModel {
                unresolved_reasons: with_reason(
                    before.unresolved_reasons,
                    UnresolvedReason::AnalysisLimit,
                ),
                ..before
            }
        }
    }
}

/// What a flow holds when the parameters have the given values.
pub open spec fn substituted(flow: DynModel, arguments: Seq<DynModel>) -> DynModel {
    substituted_to(flow, arguments, flow.parameters.len() as int)
}

/// What a flow holds when the parameters have the given values.
pub fn resolve_symbolic_flow(flow: &DynFlow, arguments: &Vec<DynFlow>) -> (result: DynFlow)
    ensures
        result@ == substituted(flow@, views(arguments@)),
{
    let mut result = DynFlow {
        concrete: copy_list(&flow.concrete),
        parameters: Vec::new(),
        unresolved_reasons: copy_reasons(&flow.unresolved_reasons),
    };
    let mut index: usize = 0;
    while index < flow.parameters.len()
        invariant
            index <= flow.parameters@.len(),
            result@ == substituted_to(flow@, views(arguments@), index as int),
        decreases flow.parameters@.len() - index,
    {
        let parameter: usize = flow.parameters[index];
        if parameter < arguments.len() {
            proof {
                assert(views(arguments@)[parameter as int] == arguments@[parameter as int]@);
            }
            let changed = result.merge(&arguments[parameter]);
        } else {
            let added = add_reason(
                &mut result.unresolved_reasons,
                UnresolvedReason::AnalysisLimit,
            );
        }
        index += 1;
    }
    result
}

/// A value at a place.
#[derive(Debug)]
pub struct PlaceEntry<T> {
    pub place: Place,
    pub value: T,
}

impl<T: View> View for PlaceEntry<T> {
    type V = (PlaceModel, T::V);

    open spec fn view(&self) -> (PlaceModel, T::V) {
        (self.place@, self.value@)
    }
}

impl Clone for PlaceEntry<DynFlow> {
    fn clone(&self) -> (result: Self)
        ensures
            result@ == self@,
    {
        PlaceEntry { place: self.place.clone(), value: self.value.clone() }
    }
}

/// Places that a place can stand for.
#[derive(Debug)]
pub struct PlaceList {
    pub places: Vec<Place>,
}

impl View for PlaceList {
    type V = Seq<PlaceModel>;

    open spec fn view(&self) -> Seq<PlaceModel> {
        views(self.places@)
    }
}

impl Clone for PlaceList {
    fn clone(&self) -> (result: Self)
        ensures
            result@ == self@,
    {
        PlaceList { places: copy_list(&self.places) }
    }
}

impl Clone for PlaceEntry<PlaceList> {
    fn clone(&self) -> (result: Self)
        ensures
            result@ == self@,
    {
        PlaceEntry { place: self.place.clone(), value: self.value.clone() }
    }
}

/// What is known at a point of a body.
pub struct DynState {
    pub flows: Vec<PlaceEntry<DynFlow>>,
    pub aliases: Vec<PlaceEntry<PlaceList>>,
    /// Aliases that lead through code that is not known: what is read through
    /// them is known, what is written is not.
    pub uncertain_aliases: Vec<Place>,
    /// The numbers that locals are known to hold.
    pub constant_indices: Vec<(usize, u64)>,
    /// Places that were written to, also where nothing stands behind them.
    pub known: Vec<Place>,
}

#[verifier::ext_equal]
pub struct StateModel {
    pub flows: Seq<(PlaceModel, DynModel)>,
    pub aliases: Seq<(PlaceModel, Seq<PlaceModel>)>,
    pub uncertain_aliases: Seq<PlaceModel>,
    pub constant_indices: Seq<(usize, u64)>,
    pub known: Seq<PlaceModel>,
}

impl View for DynState {
    type V = StateModel;

    open spec fn view(&self) -> StateModel {
        StateModel {
            flows: views(self.flows@),
            aliases: views(self.aliases@),
            uncertain_aliases: views(self.uncertain_aliases@),
            constant_indices: self.constant_indices@,
            known: views(self.known@),
        }
    }
}

fn copy_pairs(pairs: &Vec<(usize, u64)>) -> (result: Vec<(usize, u64)>)
    ensures
        result@ == pairs@,
{
    let mut result: Vec<(usize, u64)> = Vec::new();
    let mut index: usize = 0;
    while index < pairs.len()
        invariant
            index <= pairs@.len(),
            result@.len() == index,
            forall|k: int| 0 <= k < index ==> result@[k] == pairs@[k],
        decreases pairs@.len() - index,
    {
        let (local, value): (usize, u64) = pairs[index];
        result.push((local, value));
        index += 1;
    }
    proof {
        assert(result@ =~= pairs@);
    }
    result
}

impl Clone for DynState {
    fn clone(&self) -> (result: Self)
        ensures
            result@ == self@,
    {
        DynState {
            flows: copy_list(&self.flows),
            aliases: copy_list(&self.aliases),
            uncertain_aliases: copy_list(&self.uncertain_aliases),
            constant_indices: copy_pairs(&self.constant_indices),
            known: copy_list(&self.known),
        }
    }
}

/// Nothing is known.
pub open spec fn blank() -> StateModel {
    StateModel {
        flows: Seq::empty(),
        aliases: Seq::empty(),
        uncertain_aliases: Seq::empty(),
        constant_indices: Seq::empty(),
        known: Seq::empty(),
    }
}

impl DynState {
    /// Nothing is known.
    pub fn new() -> (result: Self)
        ensures
            result@ == blank(),
    {
        let result = DynState {
            flows: Vec::new(),
            aliases: Vec::new(),
            uncertain_aliases: Vec::new(),
            constant_indices: Vec::new(),
            known: Vec::new(),
        };
        proof {
            assert(result@ =~= blank());
        }
        result
    }
}

/// Where a value stands under a place.
pub fn find_place<T: View>(entries: &Vec<PlaceEntry<T>>, place: &Place) -> (result: Option<usize>)
    ensures
        match result {
            Some(index) => index < entries@.len() && place_of(views(entries@), place@, 0) == Some(
                index as int,
            ),
            None => place_of(views(entries@), place@, 0) is None,
        },
{
    let mut index: usize = 0;
    while index < entries.len()
        invariant
            index <= entries@.len(),
            place_of(views(entries@), place@, index as int) == place_of(
                views(entries@),
                place@,
                0,
            ),
        decreases entries@.len() - index,
    {
        proof {
            assert(views(entries@)[index as int] == entries@[index as int]@);
        }
        if entries[index].place.same(place) {
            return Some(index);
        }
        index += 1;
    }
    None
}

/// The value under a place.
pub fn value_at<'a, T: View>(entries: &'a Vec<PlaceEntry<T>>, place: &Place) -> (result: Option<
    &'a T,
>)
    ensures
        match result {
            Some(value) => value_of(views(entries@), place@) == Some(value@),
            None => value_of(views(entries@), place@) is None,
        },
{
    match find_place(entries, place) {
        Some(index) => {
            proof {
                assert(views(entries@)[index as int] == entries@[index as int]@);
            }
            Some(&entries[index].value)
        },
        None => None,
    }
}

/// Puts a value under a place.
pub fn set_at<T: View>(entries: &mut Vec<PlaceEntry<T>>, place: &Place, value: T)
    ensures
        views(final(entries)@) == bound(views(old(entries)@), place@, value@),
{
    let ghost before = views(entries@);
    let ghost entry = (place@, value@);
    match find_place(entries, place) {
        Some(index) => {
            entries.set(index, PlaceEntry { place: place.clone(), value });
            proof {
                assert(views(entries@) =~= before.update(index as int, entry));
            }
        },
        None => {
            entries.push(PlaceEntry { place: place.clone(), value });
            proof {
                assert(views(entries@) =~= before.push(entry));
            }
        },
    }
}

/// The entries without that of a key.
pub open spec fn without_key<K, V>(entries: Seq<(K, V)>, key: K) -> Seq<(K, V)> {
    match place_of(entries, key, 0) {
        Some(index) => entries.remove(index),
        None => entries,
    }
}

/// Removes the value under a place.
pub fn remove_at<T: View>(entries: &mut Vec<PlaceEntry<T>>, place: &Place)
    ensures
        views(final(entries)@) == without_key(views(old(entries)@), place@),
{
    let ghost before = views(entries@);
    match find_place(entries, place) {
        Some(index) => {
            let removed = entries.remove(index);
            proof {
                assert(views(entries@) =~= before.remove(index as int));
            }
        },
        None => {},
    }
}

/// Whether a place is in a list.
pub fn has_place(places: &Vec<Place>, place: &Place) -> (result: bool)
    ensures
        result == views(places@).contains(place@),
{
    let mut index: usize = 0;
    while index < places.len()
        invariant
            index <= places@.len(),
            forall|k: int| 0 <= k < index ==> (#[trigger] views(places@)[k]) != place@,
        decreases places@.len() - index,
    {
        proof {
            assert(views(places@)[index as int] == places@[index as int]@);
        }
        if places[index].same(place) {
            return true;
        }
        index += 1;
    }
    false
}

/// The places of a list, and one more.
pub open spec fn with_item<T>(items: Seq<T>, item: T) -> Seq<T> {
    if items.contains(item) {
        items
    } else {
        items.push(item)
    }
}

/// Adds a place to a list, and says whether it was new.
pub fn add_place(places: &mut Vec<Place>, place: &Place) -> (added: bool)
    ensures
        views(final(places)@) == with_item(views(old(places)@), place@),
        added == (views(final(places)@) != views(old(places)@)),
{
    if has_place(places, place) {
        return false;
    }
    let ghost before = views(places@);
    places.push(place.clone());
    proof {
        assert(views(places@) =~= before.push(place@));
        assert(views(places@).len() == before.len() + 1);
    }
    true
}

/// The first `count` places but for one.
pub open spec fn without_item<T>(items: Seq<T>, item: T, count: int) -> Seq<T>
    decreases count,
{
    if count <= 0 {
        Seq::empty()
    } else if items[count - 1] == item {
        without_item(items, item, count - 1)
    } else {
        without_item(items, item, count - 1).push(items[count - 1])
    }
}

/// Removes a place from a list.
pub fn remove_place(places: &mut Vec<Place>, place: &Place)
    ensures
        views(final(places)@) == without_item(
            views(old(places)@),
            place@,
            old(places)@.len() as int,
        ),
{
    let mut result: Vec<Place> = Vec::new();
    let mut index: usize = 0;
    proof {
        assert(views(result@) =~= Seq::empty());
    }
    while index < places.len()
        invariant
            index <= places@.len(),
            *places == *old(places),
            views(result@) == without_item(views(places@), place@, index as int),
        decreases places@.len() - index,
    {
        let ghost before = views(result@);
        proof {
            assert(views(places@)[index as int] == places@[index as int]@);
        }
        if !places[index].same(place) {
            let kept = places[index].clone();
            result.push(kept);
            proof {
                assert(views(result@) =~= before.push(kept@));
            }
        }
        index += 1;
    }
    *places = result;
}

/// Whether a place is another place or holds it.
pub open spec fn is_prefix(prefix: PlaceModel, place: PlaceModel) -> bool {
    &&& prefix.local == place.local
    &&& prefix.projection.len() <= place.projection.len()
    &&& place.projection.take(prefix.projection.len() as int) == prefix.projection
}

/// Whether a place is another place or holds it.
pub fn place_is_prefix(prefix: &Place, place: &Place) -> (result: bool)
    ensures
        result == is_prefix(prefix@, place@),
{
    if prefix.local != place.local || prefix.projection.len() > place.projection.len() {
        return false;
    }
    let mut index: usize = 0;
    while index < prefix.projection.len()
        invariant
            index <= prefix.projection@.len() <= place.projection@.len(),
            forall|k: int| 0 <= k < index ==> prefix.projection@[k] == place.projection@[k],
        decreases prefix.projection@.len() - index,
    {
        if prefix.projection[index] != place.projection[index] {
            proof {
                let front = place.projection@.take(prefix.projection@.len() as int);
                assert(front[index as int] != prefix.projection@[index as int]);
            }
            return false;
        }
        index += 1;
    }
    proof {
        assert(place.projection@.take(prefix.projection@.len() as int) =~= prefix.projection@);
    }
    true
}

/// The number that a local is known to hold.
pub open spec fn known_number(numbers: Seq<(usize, u64)>, local: usize) -> Option<u64> {
    value_of(numbers, local)
}

/// The number that a local is known to hold.
pub fn find_number(numbers: &Vec<(usize, u64)>, local: usize) -> (result: Option<u64>)
    ensures
        result == known_number(numbers@, local),
{
    match number_place(numbers, local) {
        Some(index) => {
            let (_, value): (usize, u64) = numbers[index];
            Some(value)
        },
        None => None,
    }
}

fn number_place(numbers: &Vec<(usize, u64)>, local: usize) -> (result: Option<usize>)
    ensures
        match result {
            Some(index) => index < numbers@.len() && place_of(numbers@, local, 0) == Some(
                index as int,
            ),
            None => place_of(numbers@, local, 0) is None,
        },
{
    let mut index: usize = 0;
    while index < numbers.len()
        invariant
            index <= numbers@.len(),
            place_of(numbers@, local, index as int) == place_of(numbers@, local, 0),
        decreases numbers@.len() - index,
    {
        let (other, _): (usize, u64) = numbers[index];
        if other == local {
            return Some(index);
        }
        index += 1;
    }
    None
}

/// Sets the number that a local is known to hold.
pub fn set_number(numbers: &mut Vec<(usize, u64)>, local: usize, value: u64)
    ensures
        final(numbers)@ == bound(old(numbers)@, local, value),
{
    match number_place(numbers, local) {
        Some(index) => {
            numbers.set(index, (local, value));
        },
        None => {
            numbers.push((local, value));
        },
    }
}

/// Forgets the number that a local holds.
pub fn forget_number(numbers: &mut Vec<(usize, u64)>, local: usize)
    ensures
        final(numbers)@ == without_key(old(numbers)@, local),
{
    match number_place(numbers, local) {
        Some(index) => {
            let removed = numbers.remove(index);
        },
        None => {},
    }
}

/// Whether one step of a place can be one step of another: an index by a local
/// that is known to hold the number of the other.
pub open spec fn step_matches(
    numbers: Seq<(usize, u64)>,
    query: Projection,
    candidate: Projection,
) -> bool {
    match (query, candidate) {
        (
            Projection::Index(local),
            Projection::ConstantIndex { offset, min_length, from_end: false },
        ) => known_number(numbers, local) == Some(offset),
        _ => query == candidate,
    }
}

/// Whether a step is an index by a local against one by a number.
pub open spec fn step_is_indexed(query: Projection, candidate: Projection) -> bool {
    match (query, candidate) {
        (
            Projection::Index(_),
            Projection::ConstantIndex { offset, min_length, from_end: false },
        ) => true,
        _ => false,
    }
}

/// Whether a place with an index by a local is another with an index by a
/// number, as the local is known to hold the number.
pub open spec fn index_matches(
    numbers: Seq<(usize, u64)>,
    query: PlaceModel,
    candidate: PlaceModel,
) -> bool {
    &&& query.local == candidate.local
    &&& query.projection.len() == candidate.projection.len()
    &&& forall|index: int|
        0 <= index < query.projection.len() ==> step_matches(
            numbers,
            #[trigger] query.projection[index],
            candidate.projection[index],
        )
    &&& exists|index: int|
        0 <= index < query.projection.len() && step_is_indexed(
            #[trigger] query.projection[index],
            candidate.projection[index],
        )
}

/// Whether a place with an index by a local is another with an index by a
/// number, as the local is known to hold the number.
pub fn constant_index_place_matches(state: &DynState, query: &Place, candidate: &Place) -> (result:
    bool)
    ensures
        result == index_matches(state@.constant_indices, query@, candidate@),
{
    if query.local != candidate.local || query.projection.len() != candidate.projection.len() {
        return false;
    }
    let mut used = false;
    let mut index: usize = 0;
    while index < query.projection.len()
        invariant
            index <= query.projection@.len(),
            query.projection@.len() == candidate.projection@.len(),
            forall|k: int|
                0 <= k < index ==> step_matches(
                    state@.constant_indices,
                    #[trigger] query.projection@[k],
                    candidate.projection@[k],
                ),
            used == (exists|k: int|
                0 <= k < index && step_is_indexed(
                    #[trigger] query.projection@[k],
                    candidate.projection@[k],
                )),
        decreases query.projection@.len() - index,
    {
        let step = query.projection[index];
        let other = candidate.projection[index];
        let fits = match (step, other) {
            (
                Projection::Index(local),
                Projection::ConstantIndex { offset, min_length: _, from_end: false },
            ) => {
                used = true;
                match find_number(&state.constant_indices, local) {
                    Some(value) => value == offset,
                    None => false,
                }
            },
            _ => step == other,
        };
        proof {
            assert(fits == step_matches(
                state@.constant_indices,
                query.projection@[index as int],
                candidate.projection@[index as int],
            ));
        }
        if !fits {
            return false;
        }
        index += 1;
    }
    used
}

/// A place behind the steps of another.
pub open spec fn extended_place(place: PlaceModel, steps: Seq<Projection>) -> PlaceModel {
    PlaceModel { projection: place.projection + steps, ..place }
}

/// The steps of a place behind a first dereference.
pub open spec fn steps_behind_deref(steps: Seq<Projection>) -> Seq<Projection> {
    if steps.len() > 0 && steps[0] is Deref {
        steps.skip(1)
    } else {
        steps
    }
}

/// The places that a place stands for.
pub open spec fn alias_places(state: StateModel, place: PlaceModel) -> Seq<PlaceModel> {
    match value_of(state.aliases, place) {
        Some(targets) => targets,
        None => match value_of(state.aliases, whole(place.local)) {
            None => seq![place],
            Some(targets) => {
                let suffix = steps_behind_deref(place.projection);
                targets.map_values(|target: PlaceModel| extended_place(target, suffix))
            },
        },
    }
}

fn extend_place(place: &Place, steps: &Vec<Projection>, start: usize) -> (result: Place)
    requires
        start <= steps@.len(),
    ensures
        result@ == extended_place(place@, steps@.skip(start as int)),
{
    let mut result = place.clone();
    let mut index: usize = start;
    proof {
        assert(result.projection@ =~= place@.projection + steps@.subrange(start as int, start as int));
    }
    while index < steps.len()
        invariant
            start <= index <= steps@.len(),
            result.local == place.local,
            result.projection@ == place@.projection + steps@.subrange(start as int, index as int),
        decreases steps@.len() - index,
    {
        result.projection.push(steps[index]);
        proof {
            assert(steps@.subrange(start as int, index + 1) =~= steps@.subrange(
                start as int,
                index as int,
            ).push(steps@[index as int]));
            assert(result.projection@ =~= place@.projection + steps@.subrange(
                start as int,
                index + 1,
            ));
        }
        index += 1;
    }
    proof {
        assert(steps@.subrange(start as int, steps@.len() as int) =~= steps@.skip(start as int));
    }
    result
}

/// The places that a place stands for.
pub fn resolve_alias_places(state: &DynState, place: &Place) -> (result: Vec<Place>)
    ensures
        views(result@) == alias_places(state@, place@),
{
    match value_at(&state.aliases, place) {
        Some(targets) => {
            return copy_list(&targets.places);
        },
        None => {},
    }
    let mut result: Vec<Place> = Vec::new();
    match value_at(&state.aliases, &Place::of_local(place.local)) {
        None => {
            result.push(place.clone());
            proof {
                assert(views(result@) =~= seq![place@]);
            }
        },
        Some(targets) => {
            let start: usize = if place.projection.len() > 0 {
                match place.projection[0] {
                    Projection::Deref => 1,
                    _ => 0,
                }
            } else {
                0
            };
            let ghost suffix = steps_behind_deref(place@.projection);
            proof {
                assert(place@.projection.skip(start as int) =~= suffix);
            }
            let mut index: usize = 0;
            while index < targets.places.len()
                invariant
                    index <= targets.places@.len(),
                    start <= place.projection@.len(),
                    place@.projection.skip(start as int) == suffix,
                    result@.len() == index,
                    forall|k: int|
                        0 <= k < index ==> (#[trigger] result@[k])@ == extended_place(
                            targets.places@[k]@,
                            suffix,
                        ),
                decreases targets.places@.len() - index,
            {
                result.push(extend_place(&targets.places[index], &place.projection, start));
                index += 1;
            }
            proof {
                assert(views(result@) =~= targets@.map_values(
                    |target: PlaceModel| extended_place(target, suffix),
                ));
            }
        },
    }
    result
}

/// Whether a place is reached through code that is not known.
pub open spec fn is_uncertain(state: StateModel, place: PlaceModel) -> bool {
    state.uncertain_aliases.contains(place) || state.uncertain_aliases.contains(whole(place.local))
}

/// Whether a place is reached through code that is not known.
pub fn place_alias_is_uncertain(state: &DynState, place: &Place) -> (result: bool)
    ensures
        result == is_uncertain(state@, place@),
{
    has_place(&state.uncertain_aliases, place) || has_place(
        &state.uncertain_aliases,
        &Place::of_local(place.local),
    )
}

/// What stands behind the first `count` entries that an index can mean, and
/// whether there is such an entry.
pub open spec fn indexed_flow(state: StateModel, place: PlaceModel, count: int) -> (bool, DynModel)
    decreases count,
{
    if count <= 0 {
        (false, nothing())
    } else {
        let before = indexed_flow(state, place, count - 1);
        let (candidate, flow) = state.flows[count - 1];
        if index_matches(state.constant_indices, place, candidate) {
            (true, joint(before.1, flow))
        } else {
            before
        }
    }
}

/// What stands behind the nearest place around the first `count` steps of a
/// place.
pub open spec fn ancestor_flow(
    flows: Seq<(PlaceModel, DynModel)>,
    place: PlaceModel,
    count: int,
) -> Option<DynModel>
    decreases count,
{
    if count <= 0 {
        None
    } else {
        let ancestor = PlaceModel { projection: place.projection.take(count - 1), ..place };
        match value_of(flows, ancestor) {
            Some(flow) => Some(flow),
            None => ancestor_flow(flows, place, count - 1),
        }
    }
}

/// What stands behind the first `count` entries that are parts of a place.
pub open spec fn parts_flow(
    flows: Seq<(PlaceModel, DynModel)>,
    place: PlaceModel,
    count: int,
) -> DynModel
    decreases count,
{
    if count <= 0 {
        nothing()
    } else {
        let before = parts_flow(flows, place, count - 1);
        if is_prefix(place, flows[count - 1].0) {
            joint(before, flows[count - 1].1)
        } else {
            before
        }
    }
}

/// What stands behind a place that is not looked up through aliases.
pub open spec fn plain_flow(state: StateModel, place: PlaceModel) -> DynModel {
    match value_of(state.flows, place) {
        Some(flow) => flow,
        None => {
            let (found, flow) = indexed_flow(state, place, state.flows.len() as int);
            if found {
                flow
            } else {
                match ancestor_flow(state.flows, place, place.projection.len() as int) {
                    Some(flow) => flow,
                    None => parts_flow(state.flows, place, state.flows.len() as int),
                }
            }
        },
    }
}

fn find_indexed_flow(state: &DynState, place: &Place) -> (result: (bool, DynFlow))
    ensures
        (result.0, result.1@) == indexed_flow(state@, place@, state@.flows.len() as int),
{
    let mut found = false;
    let mut flow = DynFlow::empty();
    let mut index: usize = 0;
    while index < state.flows.len()
        invariant
            index <= state.flows@.len(),
            (found, flow@) == indexed_flow(state@, place@, index as int),
        decreases state.flows@.len() - index,
    {
        let entry = &state.flows[index];
        proof {
            assert(state@.flows[index as int] == entry@);
        }
        if constant_index_place_matches(state, place, &entry.place) {
            found = true;
            let changed = flow.merge(&entry.value);
        }
        index += 1;
    }
    (found, flow)
}

/// The first steps of a place.
pub fn first_steps(place: &Place, count: usize) -> (result: Place)
    requires
        count <= place@.projection.len(),
    ensures
        result@ == (PlaceModel { projection: place@.projection.take(count as int), ..place@ }),
{
    let mut projection: Vec<Projection> = Vec::new();
    let mut index: usize = 0;
    proof {
        assert(projection@ =~= place@.projection.take(0));
    }
    while index < count
        invariant
            index <= count <= place.projection@.len(),
            projection@ == place@.projection.take(index as int),
        decreases count - index,
    {
        projection.push(place.projection[index]);
        proof {
            assert(place@.projection.take(index + 1) =~= place@.projection.take(index as int).push(
                place@.projection[index as int],
            ));
        }
        index += 1;
    }
    Place { local: place.local, projection }
}

/// What stands behind a place that is not looked up through aliases.
pub fn read_dyn_place_without_alias(state: &DynState, place: &Place) -> (result: DynFlow)
    ensures
        result@ == plain_flow(state@, place@),
{
    match value_at(&state.flows, place) {
        Some(flow) => {
            return flow.clone();
        },
        None => {},
    }
    let (found, indexed) = find_indexed_flow(state, place);
    if found {
        return indexed;
    }
    let mut count: usize = place.projection.len();
    while count > 0
        invariant
            count <= place.projection@.len(),
            value_of(state@.flows, place@) is None,
            !indexed_flow(state@, place@, state@.flows.len() as int).0,
            ancestor_flow(state@.flows, place@, count as int) == ancestor_flow(
                state@.flows,
                place@,
                place@.projection.len() as int,
            ),
        decreases count,
    {
        let ancestor = first_steps(place, count - 1);
        match value_at(&state.flows, &ancestor) {
            Some(flow) => {
                return flow.clone();
            },
            None => {},
        }
        count -= 1;
    }
    let mut result = DynFlow::empty();
    let mut index: usize = 0;
    while index < state.flows.len()
        invariant
            index <= state.flows@.len(),
            result@ == parts_flow(state@.flows, place@, index as int),
        decreases state.flows@.len() - index,
    {
        let entry = &state.flows[index];
        proof {
            assert(state@.flows[index as int] == entry@);
        }
        if place_is_prefix(place, &entry.place) {
            let changed = result.merge(&entry.value);
        }
        index += 1;
    }
    result
}

/// What stands behind the first `count` places that a place stands for, but
/// for itself.
pub open spec fn aliased_flow(
    state: StateModel,
    place: PlaceModel,
    targets: Seq<PlaceModel>,
    count: int,
) -> DynModel
    decreases count,
{
    if count <= 0 {
        nothing()
    } else {
        let before = aliased_flow(state, place, targets, count - 1);
        if targets[count - 1] == place {
            before
        } else {
            joint(before, plain_flow(state, targets[count - 1]))
        }
    }
}

/// What stands behind a place.
pub open spec fn flow_at(state: StateModel, place: PlaceModel) -> DynModel {
    match value_of(state.flows, place) {
        Some(flow) => flow,
        None => {
            let targets = alias_places(state, place);
            let aliased = aliased_flow(state, place, targets, targets.len() as int);
            if is_nothing(aliased) {
                plain_flow(state, place)
            } else {
                aliased
            }
        },
    }
}

/// What stands behind a place.
pub fn read_dyn_place(state: &DynState, place: &Place) -> (result: DynFlow)
    ensures
        result@ == flow_at(state@, place@),
{
    match value_at(&state.flows, place) {
        Some(flow) => {
            return flow.clone();
        },
        None => {},
    }
    let targets = resolve_alias_places(state, place);
    let mut aliased = DynFlow::empty();
    let mut index: usize = 0;
    while index < targets.len()
        invariant
            index <= targets@.len(),
            aliased@ == aliased_flow(state@, place@, views(targets@), index as int),
        decreases targets@.len() - index,
    {
        proof {
            assert(views(targets@)[index as int] == targets@[index as int]@);
        }
        if !targets[index].same(place) {
            let changed = aliased.merge(&read_dyn_place_without_alias(state, &targets[index]));
        }
        index += 1;
    }
    proof {
        assert(views(targets@).len() == targets@.len());
    }
    if !aliased.is_empty() {
        return aliased;
    }
    read_dyn_place_without_alias(state, place)
}

/// Whether a place was written to or has something behind it.
pub open spec fn is_written(state: StateModel, place: PlaceModel) -> bool {
    state.known.contains(place) || value_of(state.flows, place) is Some
}

/// Whether an index can mean one of the first `count` places.
pub open spec fn any_index_matches(
    numbers: Seq<(usize, u64)>,
    place: PlaceModel,
    places: Seq<PlaceModel>,
) -> bool {
    exists|index: int|
        0 <= index < places.len() && index_matches(numbers, place, #[trigger] places[index])
}

/// The places that have something behind them.
pub open spec fn flow_places(flows: Seq<(PlaceModel, DynModel)>) -> Seq<PlaceModel> {
    flows.map_values(|entry: (PlaceModel, DynModel)| entry.0)
}

/// Whether a place around the first `count` steps of a place was written to.
pub open spec fn ancestor_is_written(state: StateModel, place: PlaceModel, count: int) -> bool
    decreases count,
{
    if count <= 0 {
        false
    } else {
        is_written(state, PlaceModel { projection: place.projection.take(count - 1), ..place })
            || ancestor_is_written(state, place, count - 1)
    }
}

/// Whether what stands behind a place is known, without aliases.
pub open spec fn is_plainly_known(state: StateModel, place: PlaceModel) -> bool {
    ||| is_written(state, place)
    ||| any_index_matches(state.constant_indices, place, state.known)
    ||| any_index_matches(state.constant_indices, place, flow_places(state.flows))
    ||| ancestor_is_written(state, place, place.projection.len() as int)
}

fn place_is_written(state: &DynState, place: &Place) -> (result: bool)
    ensures
        result == is_written(state@, place@),
{
    has_place(&state.known, place) || value_at(&state.flows, place).is_some()
}

/// Whether what stands behind a place is known, without aliases.
pub fn dyn_place_is_known_without_alias(state: &DynState, place: &Place) -> (result: bool)
    ensures
        result == is_plainly_known(state@, place@),
{
    if place_is_written(state, place) {
        return true;
    }
    let mut index: usize = 0;
    while index < state.known.len()
        invariant
            index <= state.known@.len(),
            forall|k: int|
                0 <= k < index ==> !index_matches(
                    state@.constant_indices,
                    place@,
                    #[trigger] state@.known[k],
                ),
        decreases state.known@.len() - index,
    {
        proof {
            assert(state@.known[index as int] == state.known@[index as int]@);
        }
        if constant_index_place_matches(state, place, &state.known[index]) {
            return true;
        }
        index += 1;
    }
    let mut entry: usize = 0;
    while entry < state.flows.len()
        invariant
            entry <= state.flows@.len(),
            forall|k: int|
                0 <= k < entry ==> !index_matches(
                    state@.constant_indices,
                    place@,
                    #[trigger] flow_places(state@.flows)[k],
                ),
        decreases state.flows@.len() - entry,
    {
        proof {
            assert(flow_places(state@.flows)[entry as int] == state.flows@[entry as int].place@);
        }
        if constant_index_place_matches(state, place, &state.flows[entry].place) {
            return true;
        }
        entry += 1;
    }
    let mut count: usize = place.projection.len();
    while count > 0
        invariant
            count <= place.projection@.len(),
            ancestor_is_written(state@, place@, count as int) == ancestor_is_written(
                state@,
                place@,
                place@.projection.len() as int,
            ),
        decreases count,
    {
        if place_is_written(state, &first_steps(place, count - 1)) {
            return true;
        }
        count -= 1;
    }
    false
}

/// Whether what stands behind a place is known.
pub open spec fn is_known(state: StateModel, place: PlaceModel) -> bool {
    let targets = alias_places(state, place);
    targets.len() > 0 && forall|index: int|
        0 <= index < targets.len() ==> is_plainly_known(state, #[trigger] targets[index])
}

/// Whether what stands behind a place is known.
pub fn dyn_place_is_known(state: &DynState, place: &Place) -> (result: bool)
    ensures
        result == is_known(state@, place@),
{
    let targets = resolve_alias_places(state, place);
    proof {
        assert(views(targets@).len() == targets@.len());
    }
    let mut index: usize = 0;
    while index < targets.len()
        invariant
            index <= targets@.len(),
            views(targets@) == alias_places(state@, place@),
            forall|k: int|
                0 <= k < index ==> is_plainly_known(state@, #[trigger] views(targets@)[k]),
        decreases targets@.len() - index,
    {
        proof {
            assert(views(targets@)[index as int] == targets@[index as int]@);
        }
        if !dyn_place_is_known_without_alias(state, &targets[index]) {
            return false;
        }
        index += 1;
    }
    targets.len() > 0
}

/// The entries among the first `count` that are no parts of a place.
pub open spec fn flows_outside(
    flows: Seq<(PlaceModel, DynModel)>,
    place: PlaceModel,
    count: int,
) -> Seq<(PlaceModel, DynModel)>
    decreases count,
{
    if count <= 0 {
        Seq::empty()
    } else if is_prefix(place, flows[count - 1].0) {
        flows_outside(flows, place, count - 1)
    } else {
        flows_outside(flows, place, count - 1).push(flows[count - 1])
    }
}

/// The places among the first `count` that are no parts of a place.
pub open spec fn places_outside(places: Seq<PlaceModel>, place: PlaceModel, count: int) -> Seq<
    PlaceModel,
>
    decreases count,
{
    if count <= 0 {
        Seq::empty()
    } else if is_prefix(place, places[count - 1]) {
        places_outside(places, place, count - 1)
    } else {
        places_outside(places, place, count - 1).push(places[count - 1])
    }
}

/// A state in which nothing is known of a place and its parts.
pub open spec fn cleared(state: StateModel, place: PlaceModel) -> StateModel {
    StateModel {
        flows: flows_outside(state.flows, place, state.flows.len() as int),
        known: places_outside(state.known, place, state.known.len() as int),
        ..state
    }
}

fn clear_place(state: &mut DynState, place: &Place)
    ensures
        final(state)@ == cleared(old(state)@, place@),
{
    let ghost before = state@;
    let mut flows: Vec<PlaceEntry<DynFlow>> = Vec::new();
    let mut index: usize = 0;
    proof {
        assert(views(flows@) =~= Seq::empty());
    }
    while index < state.flows.len()
        invariant
            index <= state.flows@.len(),
            state@ == before,
            views(flows@) == flows_outside(before.flows, place@, index as int),
        decreases state.flows@.len() - index,
    {
        let ghost kept = views(flows@);
        proof {
            assert(before.flows[index as int] == state.flows@[index as int]@);
        }
        if !place_is_prefix(place, &state.flows[index].place) {
            let entry = state.flows[index].clone();
            let ghost model = entry@;
            flows.push(entry);
            proof {
                assert(views(flows@) =~= kept.push(model));
            }
        }
        index += 1;
    }
    let mut known: Vec<Place> = Vec::new();
    let mut other: usize = 0;
    proof {
        assert(views(known@) =~= Seq::empty());
        assert(before.flows.len() == state.flows@.len());
    }
    while other < state.known.len()
        invariant
            other <= state.known@.len(),
            state@ == before,
            views(known@) == places_outside(before.known, place@, other as int),
        decreases state.known@.len() - other,
    {
        let ghost kept = views(known@);
        proof {
            assert(before.known[other as int] == state.known@[other as int]@);
        }
        if !place_is_prefix(place, &state.known[other]) {
            let entry = state.known[other].clone();
            let ghost model = entry@;
            known.push(entry);
            proof {
                assert(views(known@) =~= kept.push(model));
            }
        }
        other += 1;
    }
    proof {
        assert(before.known.len() == state.known@.len());
    }
    state.flows = flows;
    state.known = known;
}

/// Flows with more behind a place.
pub open spec fn merged_at(
    flows: Seq<(PlaceModel, DynModel)>,
    place: PlaceModel,
    flow: DynModel,
) -> Seq<(PlaceModel, DynModel)> {
    let before = match value_of(flows, place) {
        Some(before) => before,
        None => nothing(),
    };
    bound(flows, place, joint(before, flow))
}

/// Adds to what stands behind a place, and says whether that changed anything
/// of it.
pub fn merge_at(flows: &mut Vec<PlaceEntry<DynFlow>>, place: &Place, flow: &DynFlow) -> (changed:
    bool)
    ensures
        views(final(flows)@) == merged_at(views(old(flows)@), place@, flow@),
        changed == ({
            let before = match value_of(views(old(flows)@), place@) {
                Some(before) => before,
                None => nothing(),
            };
            joint(before, flow@) != before
        }),
{
    let mut value = match value_at(flows, place) {
        Some(value) => value.clone(),
        None => DynFlow::empty(),
    };
    let changed = value.merge(flow);
    set_at(flows, place, value);
    changed
}

/// A state in which more can stand behind a place that stays as it is
/// otherwise.
pub open spec fn weakly_written(
    state: StateModel,
    place: PlaceModel,
    flow: DynModel,
) -> StateModel {
    StateModel {
        known: with_item(state.known, place),
        flows: if is_nothing(flow) {
            state.flows
        } else {
            merged_at(state.flows, place, flow)
        },
        ..state
    }
}

fn write_weakly(state: &mut DynState, place: &Place, flow: &DynFlow)
    ensures
        final(state)@ == weakly_written(old(state)@, place@, flow@),
{
    let added = add_place(&mut state.known, place);
    if !flow.is_empty() {
        let changed = merge_at(&mut state.flows, place, flow);
    }
}

/// The first index by a local from `index` on.
pub open spec fn runtime_index(steps: Seq<Projection>, index: int) -> Option<int>
    decreases steps.len() - index,
{
    if index < 0 || index >= steps.len() {
        None
    } else if steps[index] is Index {
        Some(index)
    } else {
        runtime_index(steps, index + 1)
    }
}

fn find_runtime_index(place: &Place) -> (result: Option<usize>)
    ensures
        match result {
            Some(index) => index < place@.projection.len() && runtime_index(place@.projection, 0)
                == Some(index as int),
            None => runtime_index(place@.projection, 0) is None,
        },
{
    let mut index: usize = 0;
    while index < place.projection.len()
        invariant
            index <= place.projection@.len(),
            runtime_index(place@.projection, index as int) == runtime_index(place@.projection, 0),
        decreases place.projection@.len() - index,
    {
        match place.projection[index] {
            Projection::Index(_) => {
                return Some(index);
            },
            _ => {},
        }
        index += 1;
    }
    None
}

/// Whether a step is an index.
pub open spec fn is_index(step: Projection) -> bool {
    step is Index || step is ConstantIndex
}

/// Whether a write through the index at `index` can reach a place.
pub open spec fn write_reaches(target: PlaceModel, candidate: PlaceModel, index: int) -> bool {
    &&& target.local == candidate.local
    &&& target.projection.len() == candidate.projection.len()
    &&& forall|step: int|
        0 <= step < target.projection.len() ==> if step == index {
            is_index(#[trigger] candidate.projection[step])
        } else {
            target.projection[step] == candidate.projection[step]
        }
}

/// Whether a write through the index at `index` can reach a place.
pub fn runtime_index_write_overlaps(target: &Place, candidate: &Place, index: usize) -> (result:
    bool)
    ensures
        result == write_reaches(target@, candidate@, index as int),
{
    if target.local != candidate.local || target.projection.len() != candidate.projection.len() {
        return false;
    }
    let mut step: usize = 0;
    while step < target.projection.len()
        invariant
            step <= target.projection@.len(),
            target.projection@.len() == candidate.projection@.len(),
            forall|k: int|
                0 <= k < step ==> if k == index {
                    is_index(#[trigger] candidate.projection@[k])
                } else {
                    target.projection@[k] == candidate.projection@[k]
                },
        decreases target.projection@.len() - step,
    {
        let fits = if step == index {
            match candidate.projection[step] {
                Projection::Index(_) => true,
                Projection::ConstantIndex { .. } => true,
                _ => false,
            }
        } else {
            target.projection[step] == candidate.projection[step]
        };
        proof {
            assert(candidate@.projection[step as int] == candidate.projection@[step as int]);
        }
        if !fits {
            return false;
        }
        step += 1;
    }
    true
}

/// The places among the first `count` that a write through an index can reach.
pub open spec fn reached_places(
    places: Seq<PlaceModel>,
    target: PlaceModel,
    index: int,
    count: int,
) -> Seq<PlaceModel>
    decreases count,
{
    if count <= 0 {
        Seq::empty()
    } else if write_reaches(target, places[count - 1], index) {
        reached_places(places, target, index, count - 1).push(places[count - 1])
    } else {
        reached_places(places, target, index, count - 1)
    }
}

/// A state after weak writes to the first `count` places.
pub open spec fn all_weakly_written(
    state: StateModel,
    places: Seq<PlaceModel>,
    flow: DynModel,
    count: int,
) -> StateModel
    decreases count,
{
    if count <= 0 {
        state
    } else {
        weakly_written(
            all_weakly_written(state, places, flow, count - 1),
            places[count - 1],
            flow,
        )
    }
}

/// A state after a write to any element of an aggregate.
pub open spec fn element_written(
    state: StateModel,
    target: PlaceModel,
    index: int,
    flow: DynModel,
) -> StateModel {
    let aggregate = PlaceModel { projection: target.projection.take(index), ..target };
    let state = weakly_written(state, aggregate, flow);
    let places = flow_places(state.flows);
    let reached = reached_places(places, target, index, places.len() as int);
    all_weakly_written(state, reached, flow, reached.len() as int)
}

fn find_reached_places(state: &DynState, target: &Place, index: usize) -> (result: Vec<Place>)
    ensures
        views(result@) == reached_places(
            flow_places(state@.flows),
            target@,
            index as int,
            state@.flows.len() as int,
        ),
{
    let mut result: Vec<Place> = Vec::new();
    let mut entry: usize = 0;
    proof {
        assert(views(result@) =~= Seq::empty());
    }
    while entry < state.flows.len()
        invariant
            entry <= state.flows@.len(),
            views(result@) == reached_places(
                flow_places(state@.flows),
                target@,
                index as int,
                entry as int,
            ),
        decreases state.flows@.len() - entry,
    {
        let place = &state.flows[entry].place;
        let ghost before = views(result@);
        proof {
            assert(flow_places(state@.flows)[entry as int] == place@);
        }
        if runtime_index_write_overlaps(target, place, index) {
            result.push(place.clone());
            proof {
                assert(views(result@) =~= before.push(place@));
            }
        }
        entry += 1;
    }
    result
}

fn write_element(state: &mut DynState, target: &Place, index: usize, flow: &DynFlow)
    requires
        index < target@.projection.len(),
    ensures
        final(state)@ == element_written(old(state)@, target@, index as int, flow@),
{
    let aggregate = first_steps(target, index);
    write_weakly(state, &aggregate, flow);
    let reached = find_reached_places(state, target, index);
    let ghost start = state@;
    let mut place: usize = 0;
    while place < reached.len()
        invariant
            place <= reached@.len(),
            state@ == all_weakly_written(start, views(reached@), flow@, place as int),
        decreases reached@.len() - place,
    {
        proof {
            assert(views(reached@)[place as int] == reached@[place as int]@);
        }
        write_weakly(state, &reached[place], flow);
        place += 1;
    }
    proof {
        assert(views(reached@).len() == reached@.len());
        assert(flow_places(start.flows).len() == start.flows.len());
    }
}

/// The different places among the first `count` that an index can mean.
pub open spec fn meant_places(
    numbers: Seq<(usize, u64)>,
    target: PlaceModel,
    places: Seq<PlaceModel>,
    count: int,
) -> Seq<PlaceModel>
    decreases count,
{
    if count <= 0 {
        Seq::empty()
    } else {
        let before = meant_places(numbers, target, places, count - 1);
        if index_matches(numbers, target, places[count - 1]) {
            with_item(before, places[count - 1])
        } else {
            before
        }
    }
}

/// A place with its index by a local written as a number, where there is one
/// place that it can mean.
pub open spec fn concretized(state: StateModel, target: PlaceModel) -> PlaceModel {
    let places = flow_places(state.flows) + state.known;
    let meant = meant_places(state.constant_indices, target, places, places.len() as int);
    if meant.len() == 1 {
        meant[0]
    } else {
        target
    }
}

/// A place with its index by a local written as a number, where there is one
/// place that it can mean.
pub fn concretize_constant_index_place(state: &DynState, target: &Place) -> (result: Place)
    ensures
        result@ == concretized(state@, target@),
{
    let mut places: Vec<Place> = Vec::new();
    let mut index: usize = 0;
    let ghost all = flow_places(state@.flows) + state@.known;
    proof {
        assert(views(places@) =~= Seq::empty());
    }
    while index < state.flows.len()
        invariant
            index <= state.flows@.len(),
            all == flow_places(state@.flows) + state@.known,
            views(places@) == meant_places(
                state@.constant_indices,
                target@,
                all,
                index as int,
            ),
        decreases state.flows@.len() - index,
    {
        proof {
            assert(all[index as int] == state.flows@[index as int].place@);
        }
        if constant_index_place_matches(state, target, &state.flows[index].place) {
            let added = add_place(&mut places, &state.flows[index].place);
        }
        index += 1;
    }
    let mut other: usize = 0;
    while other < state.known.len()
        invariant
            other <= state.known@.len(),
            all == flow_places(state@.flows) + state@.known,
            views(places@) == meant_places(
                state@.constant_indices,
                target@,
                all,
                state@.flows.len() + other,
            ),
        decreases state.known@.len() - other,
    {
        proof {
            assert(all[state@.flows.len() + other] == state.known@[other as int]@);
        }
        if constant_index_place_matches(state, target, &state.known[other]) {
            let added = add_place(&mut places, &state.known[other]);
        }
        other += 1;
    }
    proof {
        assert(all.len() == state@.flows.len() + state@.known.len());
        assert(views(places@).len() == places@.len());
    }
    if places.len() == 1 {
        proof {
            assert(views(places@)[0] == places@[0]@);
        }
        places[0].clone()
    } else {
        target.clone()
    }
}

/// A state after a write to one place.
pub open spec fn target_written(
    state: StateModel,
    target: PlaceModel,
    flow: DynModel,
    weak: bool,
) -> StateModel {
    let target = concretized(state, target);
    match runtime_index(target.projection, 0) {
        Some(index) => element_written(state, target, index, flow),
        None => if weak {
            weakly_written(state, target, flow)
        } else {
            let state = cleared(state, target);
            StateModel {
                known: with_item(state.known, target),
                flows: if is_nothing(flow) {
                    state.flows
                } else {
                    bound(state.flows, target, flow)
                },
                ..state
            }
        },
    }
}

fn write_target(state: &mut DynState, target: &Place, flow: &DynFlow, weak: bool)
    ensures
        final(state)@ == target_written(old(state)@, target@, flow@, weak),
{
    let target = concretize_constant_index_place(state, target);
    match find_runtime_index(&target) {
        Some(index) => {
            write_element(state, &target, index, flow);
        },
        None => {
            if weak {
                write_weakly(state, &target, flow);
            } else {
                clear_place(state, &target);
                let added = add_place(&mut state.known, &target);
                if !flow.is_empty() {
                    set_at(&mut state.flows, &target, flow.clone());
                }
            }
        },
    }
}

/// A state in which nothing is known of the first `count` places, for a
/// reason.
pub open spec fn invalidated(
    state: StateModel,
    places: Seq<PlaceModel>,
    reason: UnresolvedReason,
    count: int,
) -> StateModel
    decreases count,
{
    if count <= 0 {
        state
    } else {
        let before = cleared(
            invalidated(state, places, reason, count - 1),
            places[count - 1],
        );
        StateModel {
            known: with_item(before.known, places[count - 1]),
            flows: bound(before.flows, places[count - 1], unresolved_flow(reason)),
            ..before
        }
    }
}

/// Forgets what is known of places, for a reason.
pub fn invalidate_dyn_places(state: &mut DynState, places: &Vec<Place>, reason: UnresolvedReason)
    ensures
        final(state)@ == invalidated(
            old(state)@,
            views(places@),
            reason,
            places@.len() as int,
        ),
{
    let ghost start = state@;
    let mut index: usize = 0;
    while index < places.len()
        invariant
            index <= places@.len(),
            state@ == invalidated(start, views(places@), reason, index as int),
        decreases places@.len() - index,
    {
        proof {
            assert(views(places@)[index as int] == places@[index as int]@);
        }
        clear_place(state, &places[index]);
        let added = add_place(&mut state.known, &places[index]);
        set_at(&mut state.flows, &places[index], DynFlow::unresolved(reason));
        index += 1;
    }
}

/// The first `count` places, each once.
pub open spec fn distinct(places: Seq<PlaceModel>, count: int) -> Seq<PlaceModel>
    decreases count,
{
    if count <= 0 {
        Seq::empty()
    } else {
        with_item(distinct(places, count - 1), places[count - 1])
    }
}

/// A state after writes to the first `count` places.
pub open spec fn targets_written(
    state: StateModel,
    targets: Seq<PlaceModel>,
    flow: DynModel,
    weak: bool,
    count: int,
) -> StateModel
    decreases count,
{
    if count <= 0 {
        state
    } else {
        target_written(
            targets_written(state, targets, flow, weak, count - 1),
            targets[count - 1],
            flow,
            weak,
        )
    }
}

/// A state after a write to a place. A place that stands for several is only
/// added to, and one behind unknown code is forgotten.
pub open spec fn written(state: StateModel, place: PlaceModel, flow: DynModel) -> StateModel {
    let aliases = alias_places(state, place);
    let targets = distinct(aliases, aliases.len() as int);
    let initializes = place.projection.len() == 0 && value_of(state.aliases, place) is Some;
    if !initializes && is_uncertain(state, place) {
        invalidated(state, targets, UnresolvedReason::ExternalCode, targets.len() as int)
    } else {
        targets_written(state, targets, flow, targets.len() > 1, targets.len() as int)
    }
}

fn distinct_places(places: &Vec<Place>) -> (result: Vec<Place>)
    ensures
        views(result@) == distinct(views(places@), places@.len() as int),
{
    let mut result: Vec<Place> = Vec::new();
    let mut index: usize = 0;
    proof {
        assert(views(result@) =~= Seq::empty());
    }
    while index < places.len()
        invariant
            index <= places@.len(),
            views(result@) == distinct(views(places@), index as int),
        decreases places@.len() - index,
    {
        proof {
            assert(views(places@)[index as int] == places@[index as int]@);
        }
        let added = add_place(&mut result, &places[index]);
        index += 1;
    }
    result
}

/// Writes to a place.
pub fn write_dyn_place(state: &mut DynState, place: &Place, flow: &DynFlow)
    ensures
        final(state)@ == written(old(state)@, place@, flow@),
{
    let aliases = resolve_alias_places(state, place);
    let targets = distinct_places(&aliases);
    proof {
        assert(views(aliases@).len() == aliases@.len());
        assert(views(targets@).len() == targets@.len());
    }
    let initializes = place.projection.len() == 0 && value_at(&state.aliases, place).is_some();
    if !initializes && place_alias_is_uncertain(state, place) {
        invalidate_dyn_places(state, &targets, UnresolvedReason::ExternalCode);
        return ;
    }
    let weak = targets.len() > 1;
    let ghost start = state@;
    let mut index: usize = 0;
    while index < targets.len()
        invariant
            index <= targets@.len(),
            state@ == targets_written(start, views(targets@), flow@, weak, index as int),
        decreases targets@.len() - index,
    {
        proof {
            assert(views(targets@)[index as int] == targets@[index as int]@);
        }
        write_target(state, &targets[index], flow, weak);
        index += 1;
    }
}

/// A state in which more stands behind the first `count` places.
pub open spec fn places_merged(
    state: StateModel,
    targets: Seq<PlaceModel>,
    flow: DynModel,
    count: int,
) -> StateModel
    decreases count,
{
    if count <= 0 {
        state
    } else {
        let before = places_merged(state, targets, flow, count - 1);
        StateModel {
            known: with_item(before.known, targets[count - 1]),
            flows: merged_at(before.flows, targets[count - 1], flow),
            ..before
        }
    }
}

/// A state in which more stands behind a place.
pub open spec fn merged_place(state: StateModel, place: PlaceModel, flow: DynModel) -> StateModel {
    let targets = alias_places(state, place);
    if is_nothing(flow) {
        state
    } else if is_uncertain(state, place) {
        invalidated(state, targets, UnresolvedReason::ExternalCode, targets.len() as int)
    } else {
        places_merged(state, targets, flow, targets.len() as int)
    }
}

/// Adds to what stands behind a place.
pub fn merge_dyn_place(state: &mut DynState, place: &Place, flow: &DynFlow)
    ensures
        final(state)@ == merged_place(old(state)@, place@, flow@),
{
    if flow.is_empty() {
        return ;
    }
    let targets = resolve_alias_places(state, place);
    proof {
        assert(views(targets@).len() == targets@.len());
    }
    if place_alias_is_uncertain(state, place) {
        invalidate_dyn_places(state, &targets, UnresolvedReason::ExternalCode);
        return ;
    }
    let ghost start = state@;
    let mut index: usize = 0;
    while index < targets.len()
        invariant
            index <= targets@.len(),
            state@ == places_merged(start, views(targets@), flow@, index as int),
        decreases targets@.len() - index,
    {
        proof {
            assert(views(targets@)[index as int] == targets@[index as int]@);
        }
        let added = add_place(&mut state.known, &targets[index]);
        let changed = merge_at(&mut state.flows, &targets[index], flow);
        index += 1;
    }
}

} // verus!
