//! What counts as a change of a label or of a key, and what does not.
use crate::diff::{
    after_digits, after_digits_is_not_before, compared, equal_labels, is_ascii_digit,
    keys_equivalent, normal_key, normal_key_from, normal_label, normal_label_from, DiffStatus,
};
use crate::model::NodeModel;
use crate::text::{find_from, find_from_is_first, occurs_at};
use vstd::prelude::*;

verus! {

/// Whether a lambda with a number may begin at a place of a label.
pub open spec fn lambda_at(label: Seq<char>, place: int) -> bool {
    0 <= place && place + 1 < label.len() && label[place] == 'λ' && label[place + 1] == '#'
}

/// Whether no lambda with a number stands in a label.
pub open spec fn is_plain(label: Seq<char>) -> bool {
    forall|place: int| !#[trigger] lambda_at(label, place)
}

/// Whether a text is made of decimal digits alone.
pub open spec fn is_number(text: Seq<char>) -> bool {
    forall|place: int| 0 <= place < text.len() ==> '0' <= #[trigger] text[place] <= '9'
}

/// Whether no decimal digit begins a text.
pub open spec fn begins_plainly(text: Seq<char>) -> bool {
    text.len() > 0 ==> !('0' <= text[0] <= '9')
}

proof fn lambdas_are_found(label: Seq<char>, place: int)
    ensures
        occurs_at(label, "λ#"@, place) == lambda_at(label, place),
{
    reveal_strlit("λ#");
    if lambda_at(label, place) {
        assert(label.subrange(place, place + 2) =~= "λ#"@);
    }
    if occurs_at(label, "λ#"@, place) {
        let part = label.subrange(place, place + 2);
        assert(part[0] == label[place]);
        assert(part[1] == label[place + 1]);
    }
}

/// The first search result, told by what it is.
proof fn first_is_found(text: Seq<char>, part: Seq<char>, start: int, found: int)
    requires
        0 <= start <= found,
        occurs_at(text, part, found),
        forall|other: int| start <= other < found ==> !#[trigger] occurs_at(text, part, other),
    ensures
        find_from(text, part, start) == Some(found),
    decreases found - start,
{
    if start < found {
        assert(!occurs_at(text, part, start));
        first_is_found(text, part, start + 1, found);
    }
}

proof fn nothing_is_found(text: Seq<char>, part: Seq<char>, start: int)
    requires
        0 <= start,
        forall|other: int| start <= other ==> !#[trigger] occurs_at(text, part, other),
    ensures
        find_from(text, part, start) is None,
{
    find_from_is_first(text, part, start);
}

/// A label without numbered lambdas is shown and compared as it is.
pub proof fn plain_labels_stay(label: Seq<char>)
    requires
        is_plain(label),
    ensures
        normal_label(label) == label,
{
    assert forall|other: int| 0 <= other implies !#[trigger] occurs_at(label, "λ#"@, other) by {
        lambdas_are_found(label, other);
    }
    nothing_is_found(label, "λ#"@, 0);
    assert(label.skip(0) =~= label);
}

/// What comes behind the digits does not depend on what comes in front.
proof fn digits_end(text: Seq<char>, start: int, end: int)
    requires
        0 <= start <= end <= text.len(),
        forall|place: int| start <= place < end ==> is_ascii_digit(#[trigger] text[place]),
        end < text.len() ==> !is_ascii_digit(text[end]),
    ensures
        after_digits(text, start) == end,
    decreases end - start,
{
    if start < end {
        digits_end(text, start + 1, end);
    }
}

/// A label from a place on is normalized as if nothing stood in front of it.
proof fn the_rest_is_a_label(front: Seq<char>, rest: Seq<char>, start: nat)
    requires
        start <= rest.len(),
    ensures
        normal_label_from(front + rest, front.len() + start) == normal_label_from(rest, start),
    decreases rest.len() + 1 - start,
{
    let label = front + rest;
    let begin = (front.len() + start) as int;
    reveal_strlit("λ#");
    find_from_is_first(rest, "λ#"@, start as int);
    assert forall|place: int| 0 <= place implies #[trigger] lambda_at(
        label,
        front.len() + place,
    ) == lambda_at(rest, place) by {}
    match find_from(rest, "λ#"@, start as int) {
        None => {
            assert forall|other: int| begin <= other implies !#[trigger] occurs_at(
                label,
                "λ#"@,
                other,
            ) by {
                let inner = other - front.len();
                lambdas_are_found(label, other);
                lambdas_are_found(rest, inner);
                assert(!occurs_at(rest, "λ#"@, inner));
                assert(lambda_at(label, front.len() + inner) == lambda_at(rest, inner));
            }
            nothing_is_found(label, "λ#"@, begin);
            assert(label.skip(begin) =~= rest.skip(start as int));
        },
        Some(found) => {
            let index = front.len() + found;
            lambdas_are_found(rest, found);
            lambdas_are_found(label, index);
            assert forall|other: int| begin <= other < index implies !#[trigger] occurs_at(
                label,
                "λ#"@,
                other,
            ) by {
                let inner = other - front.len();
                lambdas_are_found(label, other);
                lambdas_are_found(rest, inner);
                assert(!occurs_at(rest, "λ#"@, inner));
                assert(lambda_at(label, front.len() + inner) == lambda_at(rest, inner));
            }
            first_is_found(label, "λ#"@, begin, index);
            after_digits_is_not_before(rest, found + 2);
            let end = after_digits(rest, found + 2);
            digits_are_skipped(rest, found + 2);
            digits_end(label, index + 2, front.len() + end);
            the_rest_is_a_label(front, rest, end as nat);
            assert(label.subrange(begin, index + 2) =~= rest.subrange(start as int, found + 2));
        },
    }
}

proof fn digits_are_skipped(text: Seq<char>, start: int)
    requires
        0 <= start <= text.len(),
    ensures
        forall|place: int|
            start <= place < after_digits(text, start) ==> is_ascii_digit(#[trigger] text[place]),
        after_digits(text, start) < text.len() ==> !is_ascii_digit(
            text[after_digits(text, start)],
        ),
    decreases text.len() - start,
{
    if start < text.len() && is_ascii_digit(text[start]) {
        digits_are_skipped(text, start + 1);
    }
}

proof fn lambdas_lose_their_numbers_from(
    front: Seq<char>,
    number: Seq<char>,
    back: Seq<char>,
    start: nat,
)
    requires
        start <= front.len(),
        is_number(number),
        begins_plainly(back),
    ensures
        normal_label_from(front + seq!['λ', '#'] + number + back, start) == normal_label_from(
            front,
            start,
        ) + seq!['λ', '#'] + normal_label(back),
    decreases front.len() + 1 - start,
{
    let mark = seq!['λ', '#'];
    let label = front + mark + number + back;
    reveal_strlit("λ#");
    find_from_is_first(front, "λ#"@, start as int);
    match find_from(front, "λ#"@, start as int) {
        None => {
            let index = front.len() as int;
            assert(lambda_at(label, index));
            lambdas_are_found(label, index);
            assert forall|other: int| start <= other < index implies !#[trigger] occurs_at(
                label,
                "λ#"@,
                other,
            ) by {
                lambdas_are_found(label, other);
                lambdas_are_found(front, other);
                assert(!occurs_at(front, "λ#"@, other));
                if lambda_at(label, other) {
                    if other + 1 < front.len() {
                        assert(front[other] == label[other]);
                        assert(front[other + 1] == label[other + 1]);
                        assert(lambda_at(front, other));
                    } else {
                        assert(label[other + 1] == 'λ');
                    }
                }
            }
            first_is_found(label, "λ#"@, start as int, index);
            let end = index + 2 + number.len();
            assert forall|place: int| index + 2 <= place < end implies is_ascii_digit(
                #[trigger] label[place],
            ) by {
                assert(label[place] == number[place - index - 2]);
            }
            if end < label.len() {
                assert(label[end] == back[0]);
            }
            digits_end(label, index + 2, end);
            the_rest_is_a_label(front + mark + number, back, 0);
            assert(label.subrange(start as int, index + 2) =~= front.skip(start as int) + mark);
        },
        Some(found) => {
            lambdas_are_found(front, found);
            assert(lambda_at(label, found)) by {
                assert(label[found] == front[found]);
                assert(label[found + 1] == front[found + 1]);
            }
            lambdas_are_found(label, found);
            assert forall|other: int| start <= other < found implies !#[trigger] occurs_at(
                label,
                "λ#"@,
                other,
            ) by {
                lambdas_are_found(label, other);
                lambdas_are_found(front, other);
                assert(!occurs_at(front, "λ#"@, other));
                assert(label[other] == front[other]);
                assert(label[other + 1] == front[other + 1]);
            }
            first_is_found(label, "λ#"@, start as int, found);
            after_digits_is_not_before(front, found + 2);
            digits_are_skipped(front, found + 2);
            let end = after_digits(front, found + 2);
            assert forall|place: int| found + 2 <= place < end implies is_ascii_digit(
                #[trigger] label[place],
            ) by {
                assert(label[place] == front[place]);
            }
            if end < front.len() {
                assert(label[end] == front[end]);
            } else {
                assert(label[end] == 'λ');
            }
            digits_end(label, found + 2, end);
            lambdas_lose_their_numbers_from(front, number, back, end as nat);
            assert(label.subrange(start as int, found + 2) =~= front.subrange(
                start as int,
                found + 2,
            ));
            assert(front.subrange(start as int, found + 2) + (normal_label_from(front, end as nat)
                + mark + normal_label(back)) =~= front.subrange(start as int, found + 2)
                + normal_label_from(front, end as nat) + mark + normal_label(back));
        },
    }
}

/// Of a label nothing is taken out but the numbers of its lambdas: what stands
/// in front of a numbered lambda and what stands behind it are kept as they
/// would be alone.
pub proof fn lambdas_lose_their_numbers(front: Seq<char>, number: Seq<char>, back: Seq<char>)
    requires
        is_number(number),
        begins_plainly(back),
    ensures
        normal_label(front + seq!['λ', '#'] + number + back) == normal_label(front) + seq![
            'λ',
            '#',
        ] + normal_label(back),
{
    lambdas_lose_their_numbers_from(front, number, back, 0);
}

/// Two labels without numbered lambdas count as the same exactly where they
/// are the same.
pub proof fn plain_labels_are_compared_whole(before: Seq<char>, after: Seq<char>)
    requires
        is_plain(before),
        is_plain(after),
    ensures
        equal_labels(before, after) == (before == after),
{
    plain_labels_stay(before);
    plain_labels_stay(after);
}

/// Two labels that differ in the number of one lambda count as the same.
pub proof fn numbers_of_lambdas_do_not_count(
    front: Seq<char>,
    first: Seq<char>,
    second: Seq<char>,
    back: Seq<char>,
)
    requires
        is_number(first),
        is_number(second),
        begins_plainly(back),
    ensures
        equal_labels(
            front + seq!['λ', '#'] + first + back,
            front + seq!['λ', '#'] + second + back,
        ),
{
    lambdas_lose_their_numbers(front, first, back);
    lambdas_lose_their_numbers(front, second, back);
}

/// Of two calls that are the same function and whose labels have no numbered
/// lambdas, a change of the label is reported, with the label before, and so
/// is a change of how they are called; nothing else is.
pub proof fn changed_labels_are_reported(before: NodeModel, after: NodeModel)
    requires
        is_plain(before.label.default),
        is_plain(after.label.default),
    ensures
        (compared(before, after).status == DiffStatus::Same) == (before.label.default
            == after.label.default && before.relation == after.relation),
        (compared(before, after).status == DiffStatus::Modified) == (before.label.default
            != after.label.default || before.relation != after.relation),
        before.label.default != after.label.default ==> compared(before, after).before_label
            == Some(before.label),
        before.relation != after.relation ==> compared(before, after).before_relation == Some(
            before.relation,
        ),
        compared(before, after).label == after.label,
{
    plain_labels_are_compared_whole(before.label.default, after.label.default);
}

/// Whether a lambda with a location may begin at a place of a key.
pub open spec fn located_at(key: Seq<char>, place: int) -> bool {
    0 <= place && place + 8 <= key.len() && key.subrange(place, place + 8) == "{lambda:"@
}

/// Whether no lambda with a location stands in a key.
pub open spec fn has_no_location(key: Seq<char>) -> bool {
    forall|place: int| !#[trigger] located_at(key, place)
}

proof fn locations_are_found(key: Seq<char>, place: int)
    ensures
        occurs_at(key, "{lambda:"@, place) == located_at(key, place),
{
    reveal_strlit("{lambda:");
}

/// A key without lambdas is compared as it is.
pub proof fn plain_keys_stay(key: Seq<char>)
    requires
        has_no_location(key),
    ensures
        normal_key(key) == key,
{
    assert forall|other: int| 0 <= other implies !#[trigger] occurs_at(key, "{lambda:"@, other) by {
        locations_are_found(key, other);
    }
    nothing_is_found(key, "{lambda:"@, 0);
    assert(key.skip(0) =~= key);
}

/// Two keys without lambdas stand for the same function exactly where they are
/// the same.
pub proof fn plain_keys_are_compared_whole(before: Seq<char>, after: Seq<char>)
    requires
        has_no_location(before),
        has_no_location(after),
    ensures
        keys_equivalent(before, after) == (before == after),
{
    plain_keys_stay(before);
    plain_keys_stay(after);
}

proof fn parts_occur_alike(front: Seq<char>, rest: Seq<char>, part: Seq<char>, place: int)
    requires
        0 <= place,
    ensures
        occurs_at(front + rest, part, front.len() + place) == occurs_at(rest, part, place),
{
    if place + part.len() <= rest.len() {
        assert((front + rest).subrange(
            front.len() + place,
            front.len() + place + part.len(),
        ) =~= rest.subrange(place, place + part.len()));
    }
}

proof fn parts_are_found_alike(front: Seq<char>, rest: Seq<char>, part: Seq<char>, start: int)
    requires
        0 <= start,
    ensures
        find_from(front + rest, part, front.len() + start) == (match find_from(rest, part, start) {
            Some(found) => Some(front.len() + found),
            None => None,
        }),
    decreases rest.len() + 1 - start,
{
    parts_occur_alike(front, rest, part, start);
    if start + part.len() <= rest.len() && !occurs_at(rest, part, start) {
        parts_are_found_alike(front, rest, part, start + 1);
    }
}

/// A key from a place on is normalized as if nothing stood in front of it.
proof fn the_rest_is_a_key(front: Seq<char>, rest: Seq<char>, start: nat)
    requires
        start <= rest.len(),
    ensures
        normal_key_from(front + rest, front.len() + start) == normal_key_from(rest, start),
    decreases rest.len() + 1 - start,
{
    let key = front + rest;
    let begin = (front.len() + start) as int;
    parts_are_found_alike(front, rest, "{lambda:"@, start as int);
    find_from_is_first(rest, "{lambda:"@, start as int);
    reveal_strlit("}");
    match find_from(rest, "{lambda:"@, start as int) {
        None => {
            assert(key.skip(begin) =~= rest.skip(start as int));
        },
        Some(open) => {
            parts_are_found_alike(front, rest, "}"@, open);
            find_from_is_first(rest, "}"@, open);
            assert(key.subrange(begin, front.len() + open) =~= rest.subrange(start as int, open));
            match find_from(rest, "}"@, open) {
                None => {
                    assert(key.skip(front.len() + open) =~= rest.skip(open));
                },
                Some(close) => {
                    the_rest_is_a_key(front, rest, (close + 1) as nat);
                },
            }
        },
    }
}

/// Of a key nothing is taken out but where its lambdas stand: what is in front
/// of a lambda and what is behind it are kept as they would be alone.
pub proof fn lambdas_lose_their_locations(
    front: Seq<char>,
    location: Seq<char>,
    back: Seq<char>,
)
    requires
        has_no_location(front),
        !location.contains('}'),
    ensures
        normal_key(front + "{lambda:"@ + location + seq!['}'] + back) == front + "{lambda}"@
            + normal_key(back),
{
    let open = front.len() as int;
    let key = front + "{lambda:"@ + location + seq!['}'] + back;
    reveal_strlit("{lambda:");
    reveal_strlit("}");
    assert(key.subrange(open, open + 8) =~= "{lambda:"@);
    assert forall|other: int| 0 <= other < open implies !#[trigger] occurs_at(
        key,
        "{lambda:"@,
        other,
    ) by {
        if occurs_at(key, "{lambda:"@, other) {
            let part = key.subrange(other, other + 8);
            if other + 8 <= open {
                assert(front.subrange(other, other + 8) =~= part);
                assert(located_at(front, other));
            } else {
                assert(part[open - other] == key[open]);
                assert(key[open] == '{');
            }
        }
    }
    first_is_found(key, "{lambda:"@, 0, open);
    let close = open + 8 + location.len();
    assert(key.subrange(close, close + 1) =~= "}"@);
    assert forall|other: int| open <= other < close implies !#[trigger] occurs_at(
        key,
        "}"@,
        other,
    ) by {
        if occurs_at(key, "}"@, other) {
            let part = key.subrange(other, other + 1);
            assert(part[0] == key[other]);
            if other < open + 8 {
                assert(key[other] == "{lambda:"@[other - open]);
            } else {
                assert(key[other] == location[other - open - 8]);
            }
        }
    }
    first_is_found(key, "}"@, open, close);
    the_rest_is_a_key(front + "{lambda:"@ + location + seq!['}'], back, 0);
    assert(key.subrange(0, open) =~= front);
}

/// Two keys that differ in where one lambda stands stand for the same function.
pub proof fn locations_of_lambdas_do_not_count(
    front: Seq<char>,
    first: Seq<char>,
    second: Seq<char>,
    back: Seq<char>,
)
    requires
        has_no_location(front),
        !first.contains('}'),
        !second.contains('}'),
    ensures
        keys_equivalent(
            front + "{lambda:"@ + first + seq!['}'] + back,
            front + "{lambda:"@ + second + seq!['}'] + back,
        ),
{
    lambdas_lose_their_locations(front, first, back);
    lambdas_lose_their_locations(front, second, back);
}

} // verus!
