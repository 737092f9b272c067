//! Lists of values that have a model, and lists of values under names.
use crate::text::same_text;
use vstd::prelude::*;

verus! {

/// The models of the items of a list.
pub open spec fn views<T: View>(items: Seq<T>) -> Seq<T::V> {
    items.map_values(|item: T| item@)
}

/// Whether the clone of a value has the model of the value.
pub open spec fn clones_keep_models<T: View + Clone>() -> bool {
    forall|item: &T, result: T| #[trigger]
        call_ensures(T::clone, (item,), result) ==> result@ == item@
}

/// A list of items with equal models.
pub fn copy_list<T: View + Clone>(items: &Vec<T>) -> (result: Vec<T>)
    requires
        clones_keep_models::<T>(),
    ensures
        views(result@) == views(items@),
        result@.len() == items@.len(),
{
    let mut result: Vec<T> = Vec::new();
    let mut index: usize = 0;
    while index < items.len()
        invariant
            index <= items@.len(),
            result@.len() == index,
            clones_keep_models::<T>(),
            forall|k: int| 0 <= k < index ==> (#[trigger] result@[k])@ == items@[k]@,
        decreases items@.len() - index,
    {
        let item = items[index].clone();
        result.push(item);
        index += 1;
    }
    proof {
        assert(views(result@) =~= views(items@));
    }
    result
}

/// A value under a name.
#[derive(Debug)]
pub struct Binding<T> {
    pub key: String,
    pub value: T,
}

impl<T: View> View for Binding<T> {
    type V = (Seq<char>, T::V);

    open spec fn view(&self) -> (Seq<char>, T::V) {
        (self.key@, self.value@)
    }
}

/// The first place from `index` on where a value stands under `key`.
pub open spec fn place_of<K, V>(entries: Seq<(K, V)>, key: K, index: int) -> Option<int>
    decreases entries.len() - index,
{
    if index < 0 || index >= entries.len() {
        None
    } else if entries[index].0 == key {
        Some(index)
    } else {
        place_of(entries, key, index + 1)
    }
}

/// The value under `key`.
pub open spec fn value_of<K, V>(entries: Seq<(K, V)>, key: K) -> Option<V> {
    match place_of(entries, key, 0) {
        Some(index) => Some(entries[index].1),
        None => None,
    }
}

/// The entries with `value` under `key`: in place of the value that stood
/// there, or at the end.
pub open spec fn bound<K, V>(entries: Seq<(K, V)>, key: K, value: V) -> Seq<(K, V)> {
    match place_of(entries, key, 0) {
        Some(index) => entries.update(index, (key, value)),
        None => entries.push((key, value)),
    }
}

proof fn place_of_is_first<K, V>(entries: Seq<(K, V)>, key: K, index: int)
    requires
        0 <= index,
    ensures
        match place_of(entries, key, index) {
            Some(place) => index <= place < entries.len() && entries[place].0 == key
                && forall|other: int| index <= other < place ==> (#[trigger] entries[other]).0 != key,
            None => forall|other: int|
                index <= other < entries.len() ==> (#[trigger] entries[other]).0 != key,
        },
    decreases entries.len() - index,
{
    if index < entries.len() && entries[index].0 != key {
        place_of_is_first(entries, key, index + 1);
    }
}

proof fn place_of_is_unique<K, V>(entries: Seq<(K, V)>, key: K, index: int, place: int)
    requires
        0 <= index <= place < entries.len(),
        entries[place].0 == key,
        forall|other: int| index <= other < place ==> (#[trigger] entries[other]).0 != key,
    ensures
        place_of(entries, key, index) == Some(place),
    decreases place - index,
{
    if index < place {
        place_of_is_unique(entries, key, index + 1, place);
    }
}

/// What was bound to a name is found under it, and what stands under other
/// names stays.
pub proof fn bound_values_are_found<K, V>(entries: Seq<(K, V)>, key: K, value: V, other: K)
    ensures
        value_of(bound(entries, key, value), other) == (if other == key {
            Some(value)
        } else {
            value_of(entries, other)
        }),
{
    let after = bound(entries, key, value);
    place_of_is_first(entries, key, 0);
    place_of_is_first(entries, other, 0);
    place_of_is_first(after, other, 0);
    let spot = match place_of(entries, key, 0) {
        Some(index) => index,
        None => entries.len() as int,
    };
    if other == key {
        assert(after[spot].0 == key);
        assert forall|k: int| 0 <= k < spot implies (#[trigger] after[k]).0 != key by {
            assert(after[k] == entries[k]);
        }
        place_of_is_unique(after, key, 0, spot);
    } else {
        match place_of(entries, other, 0) {
            Some(place) => {
                assert(after[place] == entries[place]);
                assert forall|k: int| 0 <= k < place implies (#[trigger] after[k]).0 != other by {
                    if k != spot {
                        assert(after[k] == entries[k]);
                    }
                }
                place_of_is_unique(after, other, 0, place);
            },
            None => {
                if let Some(place) = place_of(after, other, 0) {
                    if place != spot {
                        assert(after[place] == entries[place]);
                    }
                }
            },
        }
    }
}

/// The place where a value stands under `key`.
pub fn find_binding<T: View>(entries: &Vec<Binding<T>>, key: &str) -> (result: Option<usize>)
    ensures
        match result {
            Some(index) => index < entries@.len() && place_of(views(entries@), key@, 0) == Some(
                index as int,
            ),
            None => place_of(views(entries@), key@, 0) is None,
        },
{
    let mut index: usize = 0;
    while index < entries.len()
        invariant
            index <= entries@.len(),
            place_of(views(entries@), key@, index as int) == place_of(views(entries@), key@, 0),
        decreases entries@.len() - index,
    {
        assert(views(entries@)[index as int] == entries@[index as int]@);
        if same_text(entries[index].key.as_str(), key) {
            return Some(index);
        }
        index += 1;
    }
    None
}

/// The value under `key`.
pub fn find_value<'a, T: View>(entries: &'a Vec<Binding<T>>, key: &str) -> (result: Option<&'a T>)
    ensures
        match result {
            Some(value) => value_of(views(entries@), key@) == Some(value@),
            None => value_of(views(entries@), key@) is None,
        },
{
    match find_binding(entries, key) {
        Some(index) => {
            assert(views(entries@)[index as int] == entries@[index as int]@);
            Some(&entries[index].value)
        },
        None => None,
    }
}

/// Puts `value` under `key`, in place of what stood there.
pub fn bind<T: View>(entries: &mut Vec<Binding<T>>, key: String, value: T)
    ensures
        views(final(entries)@) == bound(views(old(entries)@), key@, value@),
{
    let ghost before = views(entries@);
    match find_binding(entries, key.as_str()) {
        Some(index) => {
            let ghost entry = (key@, value@);
            entries.set(index, Binding { key, value });
            proof {
                assert(views(entries@) =~= before.update(index as int, entry));
            }
        },
        None => {
            let ghost entry = (key@, value@);
            entries.push(Binding { key, value });
            proof {
                assert(views(entries@) =~= before.push(entry));
            }
        },
    }
}

/// A list with one more item holds that item and those of the list.
pub proof fn pushed_items<T>(items: Seq<T>, added: T, item: T)
    ensures
        items.push(added).contains(item) == (items.contains(item) || item == added),
{
    let all = items.push(added);
    if items.contains(item) {
        let k = choose|k: int| 0 <= k < items.len() && items[k] == item;
        assert(all[k] == item);
    }
    if item == added {
        assert(all[items.len() as int] == item);
    }
    if all.contains(item) {
        let k = choose|k: int| 0 <= k < all.len() && all[k] == item;
        if k < items.len() {
            assert(items[k] == item);
        }
    }
}

/// Two lists hold the items of each.
pub proof fn joint_items<T>(left: Seq<T>, right: Seq<T>, item: T)
    ensures
        (left + right).contains(item) == (left.contains(item) || right.contains(item)),
{
    let all = left + right;
    if left.contains(item) {
        let k = choose|k: int| 0 <= k < left.len() && left[k] == item;
        assert(all[k] == item);
    }
    if right.contains(item) {
        let k = choose|k: int| 0 <= k < right.len() && right[k] == item;
        assert(all[left.len() + k] == item);
    }
    if all.contains(item) {
        let k = choose|k: int| 0 <= k < all.len() && all[k] == item;
        if k < left.len() {
            assert(left[k] == item);
        } else {
            assert(right[k - left.len()] == item);
        }
    }
}

/// A list with an item put in holds that item and those of the list.
pub proof fn insertion_holds<T>(items: Seq<T>, place: int, item: T, other: T)
    requires
        0 <= place <= items.len(),
    ensures
        items.insert(place, item).contains(other) == (items.contains(other) || other == item),
{
    let grown = items.insert(place, item);
    if items.contains(other) {
        let k = choose|k: int| 0 <= k < items.len() && items[k] == other;
        if k < place {
            assert(grown[k] == other);
        } else {
            assert(grown[k + 1] == other);
        }
    }
    if other == item {
        assert(grown[place] == other);
    }
    if grown.contains(other) {
        let k = choose|k: int| 0 <= k < grown.len() && grown[k] == other;
        if k < place {
            assert(items[k] == other);
        } else if k > place {
            assert(items[k - 1] == other);
        }
    }
}

} // verus!
