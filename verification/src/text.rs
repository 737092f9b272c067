//! Text as sequences of characters.
//!
//! The rest of the library states what it does to a string in terms of the
//! sequence of its characters. The functions here search, cut, replace and
//! join such sequences.
use vstd::prelude::*;

verus! {

/// `String::push` appends one character.
pub assume_specification[ String::push ](text: &mut String, character: char)
    ensures
        final(text)@ == old(text)@.push(character),
;

/// Whether a character has the Unicode property `Uppercase`.
pub uninterp spec fn is_upper(character: char) -> bool;

/// `char::is_uppercase` tells whether a character has the Unicode property
/// `Uppercase`. Of the ASCII characters, the letters `A` to `Z` have it.
pub assume_specification[ char::is_uppercase ](character: char) -> (result: bool)
    ensures
        result == is_upper(character),
        (character as u32) < 128 ==> result == ('A' <= character <= 'Z'),
;

/// A character, in lower case where it is a letter of ASCII.
pub open spec fn lower(character: char) -> char {
    if 'A' <= character <= 'Z' {
        (character as int + 32) as char
    } else {
        character
    }
}

/// `char::to_ascii_lowercase` maps the letters `A` to `Z` to `a` to `z` and
/// leaves all other characters as they are.
pub assume_specification[ char::to_ascii_lowercase ](character: &char) -> (result: char)
    ensures
        result == lower(*character),
;

/// A string, with its ASCII letters in lower case.
pub open spec fn lowered(text: Seq<char>) -> Seq<char> {
    text.map_values(|character: char| lower(character))
}

/// A string, with its ASCII letters in lower case.
pub fn lower_text(text: &str) -> (result: String)
    ensures
        result@ == lowered(text@),
{
    let characters = chars_of(text);
    let mut result = String::new();
    let mut index: usize = 0;
    proof {
        assert(lowered(text@).take(0) =~= Seq::<char>::empty());
    }
    while index < characters.len()
        invariant
            index <= characters@.len(),
            characters@ == text@,
            result@ == lowered(text@).take(index as int),
        decreases characters@.len() - index,
    {
        let character: char = characters[index];
        result.push(character.to_ascii_lowercase());
        proof {
            assert(lowered(text@).take(index + 1) =~= lowered(text@).take(index as int).push(
                lower(character),
            ));
        }
        index += 1;
    }
    proof {
        assert(lowered(text@).take(text@.len() as int) =~= lowered(text@));
    }
    result
}

/// The characters of a string, in order.
pub fn chars_of(text: &str) -> (result: Vec<char>)
    ensures
        result@ == text@,
{
    broadcast use vstd::string::group_string_axioms;

    let mut result: Vec<char> = Vec::new();
    for character in iter: text.chars()
        invariant
            iter.seq() == text@,
            result@ == text@.take(iter.index() as int),
    {
        proof {
            assert(text@.take(iter.index() as int + 1) =~= text@.take(iter.index() as int).push(
                text@[iter.index() as int],
            ));
        }
        result.push(character);
    }
    proof {
        assert(text@.take(text@.len() as int) =~= text@);
    }
    result
}

/// The string made of the given characters.
pub fn text_of(characters: &[char]) -> (result: String)
    ensures
        result@ == characters@,
{
    let mut result = String::new();
    let mut index: usize = 0;
    while index < characters.len()
        invariant
            index <= characters@.len(),
            result@ == characters@.take(index as int),
        decreases characters@.len() - index,
    {
        proof {
            assert(characters@.take(index as int + 1) =~= characters@.take(index as int).push(
                characters@[index as int],
            ));
        }
        result.push(characters[index]);
        index += 1;
    }
    proof {
        assert(characters@.take(characters@.len() as int) =~= characters@);
    }
    result
}

/// The characters of `characters` from `start` up to `end`, as a string.
pub fn slice_text(characters: &[char], start: usize, end: usize) -> (result: String)
    requires
        start <= end <= characters@.len(),
    ensures
        result@ == characters@.subrange(start as int, end as int),
{
    let mut result = String::new();
    let mut index: usize = start;
    while index < end
        invariant
            start <= index <= end <= characters@.len(),
            result@ == characters@.subrange(start as int, index as int),
        decreases end - index,
    {
        result.push(characters[index]);
        index += 1;
        proof {
            assert(characters@.subrange(start as int, index as int) =~= characters@.subrange(
                start as int,
                index - 1,
            ).push(characters@[index - 1]));
        }
    }
    result
}

/// Whether `part` stands in `text` at `index`.
pub open spec fn occurs_at(text: Seq<char>, part: Seq<char>, index: int) -> bool {
    0 <= index && index + part.len() <= text.len() && text.subrange(index, index + part.len())
        == part
}

/// The first place at or after `start` where `part` stands in `text`.
pub open spec fn find_from(text: Seq<char>, part: Seq<char>, start: int) -> Option<int>
    decreases text.len() + 1 - start,
{
    if start + part.len() > text.len() {
        None
    } else if occurs_at(text, part, start) {
        Some(start)
    } else {
        find_from(text, part, start + 1)
    }
}

/// The first place where `part` stands in `text`.
pub open spec fn find(text: Seq<char>, part: Seq<char>) -> Option<int> {
    find_from(text, part, 0)
}

/// Whether `part` stands anywhere in `text`.
pub open spec fn contains(text: Seq<char>, part: Seq<char>) -> bool {
    find(text, part) is Some
}

/// The last place at or before `end` where `part` stands in `text`.
pub open spec fn rfind_to(text: Seq<char>, part: Seq<char>, end: int) -> Option<int>
    decreases end + 1,
{
    if end < 0 {
        None
    } else if occurs_at(text, part, end) {
        Some(end)
    } else {
        rfind_to(text, part, end - 1)
    }
}

/// The last place where `part` stands in `text`.
pub open spec fn rfind(text: Seq<char>, part: Seq<char>) -> Option<int> {
    rfind_to(text, part, text.len() - part.len())
}

/// What a search finds is an occurrence, and none stands between the start
/// and it; a search that finds nothing means that there is none.
pub proof fn find_from_is_first(text: Seq<char>, part: Seq<char>, start: int)
    requires
        0 <= start,
    ensures
        match find_from(text, part, start) {
            Some(index) => start <= index && occurs_at(text, part, index) && forall|other: int|
                start <= other < index ==> !#[trigger] occurs_at(text, part, other),
            None => forall|other: int| start <= other ==> !#[trigger] occurs_at(text, part, other),
        },
    decreases text.len() + 1 - start,
{
    if start + part.len() > text.len() {
    } else if occurs_at(text, part, start) {
    } else {
        find_from_is_first(text, part, start + 1);
    }
}

/// What a search from the end finds is an occurrence, and none stands after
/// it; a search that finds nothing means that there is none.
pub proof fn rfind_to_is_last(text: Seq<char>, part: Seq<char>, end: int)
    ensures
        match rfind_to(text, part, end) {
            Some(index) => index <= end && occurs_at(text, part, index) && forall|other: int|
                index < other <= end ==> !#[trigger] occurs_at(text, part, other),
            None => forall|other: int| other <= end ==> !#[trigger] occurs_at(text, part, other),
        },
    decreases end + 1,
{
    if end < 0 {
    } else if occurs_at(text, part, end) {
    } else {
        rfind_to_is_last(text, part, end - 1);
    }
}

/// Whether `part` stands in `text` at `index`.
pub fn matches_at(text: &[char], part: &[char], index: usize) -> (result: bool)
    ensures
        result == occurs_at(text@, part@, index as int),
{
    if part.len() > text.len() || index > text.len() - part.len() {
        return false;
    }
    let mut offset: usize = 0;
    while offset < part.len()
        invariant
            offset <= part@.len(),
            index + part@.len() <= text@.len() <= usize::MAX,
            forall|k: int| 0 <= k < offset ==> text@[index + k] == part@[k],
        decreases part@.len() - offset,
    {
        if text[index + offset] != part[offset] {
            proof {
                let found = text@.subrange(index as int, index + part@.len());
                assert(found[offset as int] == text@[index + offset]);
            }
            return false;
        }
        offset += 1;
    }
    proof {
        assert(text@.subrange(index as int, index + part@.len()) =~= part@);
    }
    true
}

/// The first place at or after `start` where `part` stands in `text`.
pub fn find_chars(text: &[char], part: &[char], start: usize) -> (result: Option<usize>)
    requires
        start <= text@.len(),
    ensures
        match result {
            Some(index) => find_from(text@, part@, start as int) == Some(index as int) && start
                <= index && occurs_at(text@, part@, index as int),
            None => find_from(text@, part@, start as int) is None,
        },
{
    let mut index: usize = start;
    while part.len() <= text.len() && index <= text.len() - part.len()
        invariant
            start <= index <= text@.len() + 1,
            find_from(text@, part@, index as int) == find_from(text@, part@, start as int),
        decreases text@.len() + 1 - index,
    {
        if matches_at(text, part, index) {
            return Some(index);
        }
        if index == text.len() {
            proof {
                assert(find_from(text@, part@, index + 1) is None);
            }
            return None;
        }
        index += 1;
    }
    None
}

/// The last place where `part` stands in `text`.
pub fn rfind_chars(text: &[char], part: &[char]) -> (result: Option<usize>)
    ensures
        match result {
            Some(index) => rfind(text@, part@) == Some(index as int) && occurs_at(
                text@,
                part@,
                index as int,
            ),
            None => rfind(text@, part@) is None,
        },
{
    if part.len() > text.len() {
        return None;
    }
    let mut index: usize = text.len() - part.len();
    loop
        invariant
            index <= text@.len(),
            rfind_to(text@, part@, index as int) == rfind(text@, part@),
        decreases index,
    {
        if matches_at(text, part, index) {
            return Some(index);
        }
        if index == 0 {
            proof {
                assert(rfind_to(text@, part@, -1int) is None);
            }
            return None;
        }
        index -= 1;
    }
}

/// Whether two strings hold the same characters.
pub fn same_text(left: &str, right: &str) -> (result: bool)
    ensures
        result == (left@ == right@),
{
    same_chars(chars_of(left).as_slice(), chars_of(right).as_slice())
}

/// Whether two character sequences are equal.
pub fn same_chars(left: &[char], right: &[char]) -> (result: bool)
    ensures
        result == (left@ == right@),
{
    if left.len() != right.len() {
        return false;
    }
    let mut index: usize = 0;
    while index < left.len()
        invariant
            index <= left@.len(),
            left@.len() == right@.len(),
            forall|k: int| 0 <= k < index ==> left@[k] == right@[k],
        decreases left@.len() - index,
    {
        if left[index] != right[index] {
            return false;
        }
        index += 1;
    }
    proof {
        assert(left@ =~= right@);
    }
    true
}

/// Whether `part` stands anywhere in `text`.
pub fn contains_text(text: &str, part: &str) -> (result: bool)
    ensures
        result == contains(text@, part@),
{
    find_chars(chars_of(text).as_slice(), chars_of(part).as_slice(), 0).is_some()
}

/// Whether `text` begins with `prefix`.
pub open spec fn starts_with(text: Seq<char>, prefix: Seq<char>) -> bool {
    occurs_at(text, prefix, 0)
}

/// Whether `text` ends with `suffix`.
pub open spec fn ends_with(text: Seq<char>, suffix: Seq<char>) -> bool {
    occurs_at(text, suffix, text.len() - suffix.len())
}

/// Whether `text` begins with `prefix`.
pub fn starts_with_text(text: &str, prefix: &str) -> (result: bool)
    ensures
        result == starts_with(text@, prefix@),
{
    matches_at(chars_of(text).as_slice(), chars_of(prefix).as_slice(), 0)
}

/// Whether `text` ends with `suffix`.
pub fn ends_with_text(text: &str, suffix: &str) -> (result: bool)
    ensures
        result == ends_with(text@, suffix@),
{
    let text_chars = chars_of(text);
    let suffix_chars = chars_of(suffix);
    if suffix_chars.len() > text_chars.len() {
        return false;
    }
    matches_at(
        text_chars.as_slice(),
        suffix_chars.as_slice(),
        text_chars.len() - suffix_chars.len(),
    )
}

/// What is left of `text` without `prefix` in front.
pub open spec fn strip_prefix(text: Seq<char>, prefix: Seq<char>) -> Option<Seq<char>> {
    if starts_with(text, prefix) {
        Some(text.skip(prefix.len() as int))
    } else {
        None
    }
}

/// What is left of `text` without `suffix` at the end.
pub open spec fn strip_suffix(text: Seq<char>, suffix: Seq<char>) -> Option<Seq<char>> {
    if ends_with(text, suffix) {
        Some(text.take(text.len() - suffix.len()))
    } else {
        None
    }
}

/// The characters of an optional string.
pub open spec fn optional(text: Option<String>) -> Option<Seq<char>> {
    match text {
        Some(value) => Some(value@),
        None => None,
    }
}

/// The characters of each string.
pub open spec fn texts(values: Seq<String>) -> Seq<Seq<char>> {
    values.map_values(|value: String| value@)
}

/// What is left of `text` without `prefix` in front.
pub fn strip_prefix_text(text: &str, prefix: &str) -> (result: Option<String>)
    ensures
        optional(result) == strip_prefix(text@, prefix@),
{
    let text_chars = chars_of(text);
    let prefix_chars = chars_of(prefix);
    if matches_at(text_chars.as_slice(), prefix_chars.as_slice(), 0) {
        Some(slice_text(text_chars.as_slice(), prefix_chars.len(), text_chars.len()))
    } else {
        None
    }
}

/// What is left of `text` without `suffix` at the end.
pub fn strip_suffix_text(text: &str, suffix: &str) -> (result: Option<String>)
    ensures
        optional(result) == strip_suffix(text@, suffix@),
{
    let text_chars = chars_of(text);
    let suffix_chars = chars_of(suffix);
    if suffix_chars.len() > text_chars.len() {
        return None;
    }
    let length: usize = text_chars.len() - suffix_chars.len();
    if matches_at(text_chars.as_slice(), suffix_chars.as_slice(), length) {
        Some(slice_text(text_chars.as_slice(), 0, length))
    } else {
        None
    }
}

/// What stands before and behind the first occurrence of `separator`.
pub open spec fn split_once(
    text: Seq<char>,
    separator: Seq<char>,
) -> Option<(Seq<char>, Seq<char>)> {
    match find(text, separator) {
        Some(index) => Some((text.take(index), text.skip(index + separator.len()))),
        None => None,
    }
}

/// What stands before and behind the last occurrence of `separator`.
pub open spec fn rsplit_once(
    text: Seq<char>,
    separator: Seq<char>,
) -> Option<(Seq<char>, Seq<char>)> {
    match rfind(text, separator) {
        Some(index) => Some((text.take(index), text.skip(index + separator.len()))),
        None => None,
    }
}

/// The characters of two strings.
pub open spec fn optional_pair(pair: Option<(String, String)>) -> Option<(Seq<char>, Seq<char>)> {
    match pair {
        Some((left, right)) => Some((left@, right@)),
        None => None,
    }
}

/// What stands before and behind the first occurrence of `separator`.
pub fn split_text_once(text: &str, separator: &str) -> (result: Option<(String, String)>)
    ensures
        optional_pair(result) == split_once(text@, separator@),
{
    let text_chars = chars_of(text);
    let part_chars = chars_of(separator);
    let length: usize = text_chars.len();
    match find_chars(text_chars.as_slice(), part_chars.as_slice(), 0) {
        Some(index) => {
            let end: usize = index + part_chars.len();
            proof {
                assert(text@.subrange(0, index as int) =~= text@.take(index as int));
                assert(text@.subrange(end as int, text@.len() as int) =~= text@.skip(end as int));
            }
            Some(
                (
                    slice_text(text_chars.as_slice(), 0, index),
                    slice_text(text_chars.as_slice(), end, length),
                ),
            )
        },
        None => None,
    }
}

/// `text` with the first occurrence of `part` replaced.
pub open spec fn replaced_once(text: Seq<char>, part: Seq<char>, with: Seq<char>) -> Seq<char> {
    match split_once(text, part) {
        Some((before, behind)) => before + with + behind,
        None => text,
    }
}

/// `text` with the first occurrence of `part` replaced.
pub fn replace_text_once(text: &str, part: &str, with: &str) -> (result: String)
    ensures
        result@ == replaced_once(text@, part@, with@),
{
    match split_text_once(text, part) {
        Some((before, behind)) => {
            let mut result = before;
            result.append(with);
            result.append(behind.as_str());
            result
        },
        None => text.to_owned(),
    }
}

/// What stands before and behind the last occurrence of `separator`.
pub fn rsplit_text_once(text: &str, separator: &str) -> (result: Option<(String, String)>)
    ensures
        optional_pair(result) == rsplit_once(text@, separator@),
{
    let text_chars = chars_of(text);
    let part_chars = chars_of(separator);
    let length: usize = text_chars.len();
    match rfind_chars(text_chars.as_slice(), part_chars.as_slice()) {
        Some(index) => {
            let end: usize = index + part_chars.len();
            proof {
                assert(text@.subrange(0, index as int) =~= text@.take(index as int));
                assert(text@.subrange(end as int, text@.len() as int) =~= text@.skip(end as int));
            }
            Some(
                (
                    slice_text(text_chars.as_slice(), 0, index),
                    slice_text(text_chars.as_slice(), end, length),
                ),
            )
        },
        None => None,
    }
}

/// `text` from `start` on, with each occurrence of `part` replaced by `with`.
/// Occurrences are taken from left to right and do not overlap.
pub open spec fn replaced_from(
    text: Seq<char>,
    part: Seq<char>,
    with: Seq<char>,
    start: int,
) -> Seq<char>
    decreases text.len() - start,
{
    if part.len() == 0 || start < 0 || start + part.len() > text.len() {
        text.skip(start)
    } else if occurs_at(text, part, start) {
        with + replaced_from(text, part, with, start + part.len())
    } else {
        seq![text[start]] + replaced_from(text, part, with, start + 1)
    }
}

/// `text` with each occurrence of `part` replaced by `with`.
pub open spec fn replaced(text: Seq<char>, part: Seq<char>, with: Seq<char>) -> Seq<char> {
    replaced_from(text, part, with, 0)
}

/// `text` with each occurrence of `part` replaced by `with`.
pub fn replace_text(text: &str, part: &str, with: &str) -> (result: String)
    requires
        part@.len() > 0,
    ensures
        result@ == replaced(text@, part@, with@),
{
    let text_chars = chars_of(text);
    let part_chars = chars_of(part);
    let mut result = String::new();
    let mut index: usize = 0;
    while part_chars.len() <= text_chars.len() && index <= text_chars.len() - part_chars.len()
        invariant
            index <= text_chars@.len(),
            text_chars@ == text@,
            part_chars@ == part@,
            part@.len() > 0,
            result@ + replaced_from(text@, part@, with@, index as int) == replaced(
                text@,
                part@,
                with@,
            ),
        decreases text_chars@.len() - index,
    {
        let ghost before = result@;
        if matches_at(text_chars.as_slice(), part_chars.as_slice(), index) {
            result.append(with);
            proof {
                assert(before + (with@ + replaced_from(text@, part@, with@, index + part@.len()))
                    =~= result@ + replaced_from(text@, part@, with@, index + part@.len()));
            }
            index += part_chars.len();
        } else {
            result.push(text_chars[index]);
            proof {
                assert(before + (seq![text@[index as int]] + replaced_from(
                    text@,
                    part@,
                    with@,
                    index + 1,
                )) =~= result@ + replaced_from(text@, part@, with@, index + 1));
            }
            index += 1;
        }
    }
    result.append(slice_text(text_chars.as_slice(), index, text_chars.len()).as_str());
    proof {
        assert(text@.skip(index as int) =~= text@.subrange(index as int, text@.len() as int));
    }
    result
}

/// `text` with `with` before each character, from `index` on, and at the end.
pub open spec fn interleaved(text: Seq<char>, with: Seq<char>, index: int) -> Seq<char>
    decreases text.len() - index,
{
    if 0 <= index < text.len() {
        with + (seq![text[index]] + interleaved(text, with, index + 1))
    } else {
        with
    }
}

/// `text` with each occurrence of `part` replaced by `with`. An empty part
/// occurs before each character and at the end.
pub open spec fn substituted(text: Seq<char>, part: Seq<char>, with: Seq<char>) -> Seq<char> {
    if part.len() == 0 {
        interleaved(text, with, 0)
    } else {
        replaced(text, part, with)
    }
}

/// `text` with each occurrence of `part` replaced by `with`. An empty part
/// occurs before each character and at the end.
pub fn substitute_text(text: &str, part: &str, with: &str) -> (result: String)
    ensures
        result@ == substituted(text@, part@, with@),
{
    if chars_of(part).len() > 0 {
        return replace_text(text, part, with);
    }
    let characters = chars_of(text);
    let mut result = String::new();
    let mut index: usize = 0;
    while index < characters.len()
        invariant
            index <= characters@.len(),
            characters@ == text@,
            result@ + interleaved(text@, with@, index as int) == interleaved(text@, with@, 0),
        decreases characters@.len() - index,
    {
        let ghost before = result@;
        let ghost rest = interleaved(text@, with@, index + 1);
        result.append(with);
        result.push(characters[index]);
        proof {
            assert(before + (with@ + (seq![text@[index as int]] + rest)) =~= result@ + rest);
        }
        index += 1;
    }
    result.append(with);
    result
}

/// The parts, with `separator` between each two of them.
pub open spec fn joined(parts: Seq<Seq<char>>, separator: Seq<char>) -> Seq<char>
    decreases parts.len(),
{
    if parts.len() == 0 {
        Seq::empty()
    } else if parts.len() == 1 {
        parts[0]
    } else {
        joined(parts.drop_last(), separator) + separator + parts.last()
    }
}

/// The strings, with `separator` between each two of them.
pub fn join_texts(parts: &Vec<String>, separator: &str) -> (result: String)
    ensures
        result@ == joined(texts(parts@), separator@),
{
    let mut result = String::new();
    let mut index: usize = 0;
    while index < parts.len()
        invariant
            index <= parts@.len(),
            result@ == joined(texts(parts@).take(index as int), separator@),
        decreases parts@.len() - index,
    {
        proof {
            assert(texts(parts@).take(index + 1).drop_last() =~= texts(parts@).take(index as int));
            assert(texts(parts@).take(index + 1).last() == parts@[index as int]@);
        }
        if index > 0 {
            result.append(separator);
        }
        result.append(parts[index].as_str());
        index += 1;
    }
    proof {
        assert(texts(parts@).take(parts@.len() as int) =~= texts(parts@));
    }
    result
}

/// The pieces of `text` between the occurrences of `separator`, where the
/// piece that is being read began at `piece` and reading is at `index`.
pub open spec fn pieces_from(
    text: Seq<char>,
    separator: Seq<char>,
    piece: int,
    index: int,
) -> Seq<Seq<char>>
    decreases text.len() - index,
{
    if separator.len() == 0 || index + separator.len() > text.len() {
        seq![text.skip(piece)]
    } else if occurs_at(text, separator, index) {
        seq![text.subrange(piece, index)] + pieces_from(
            text,
            separator,
            index + separator.len(),
            index + separator.len(),
        )
    } else {
        pieces_from(text, separator, piece, index + 1)
    }
}

/// The pieces of `text` between the occurrences of `separator`.
pub open spec fn pieces(text: Seq<char>, separator: Seq<char>) -> Seq<Seq<char>> {
    pieces_from(text, separator, 0, 0)
}

/// There is always at least one piece.
pub proof fn pieces_are_some(text: Seq<char>, separator: Seq<char>, piece: int, index: int)
    ensures
        pieces_from(text, separator, piece, index).len() > 0,
    decreases text.len() - index,
{
    if separator.len() == 0 || index + separator.len() > text.len() {
    } else if occurs_at(text, separator, index) {
    } else {
        pieces_are_some(text, separator, piece, index + 1);
    }
}

/// The pieces of `text` between the occurrences of `separator`.
pub fn split_text(text: &str, separator: &str) -> (result: Vec<String>)
    requires
        separator@.len() > 0,
    ensures
        texts(result@) == pieces(text@, separator@),
        result@.len() > 0,
{
    let text_chars = chars_of(text);
    let part_chars = chars_of(separator);
    let mut result: Vec<String> = Vec::new();
    let mut piece: usize = 0;
    let mut index: usize = 0;
    while part_chars.len() <= text_chars.len() && index <= text_chars.len() - part_chars.len()
        invariant
            piece <= index <= text_chars@.len(),
            text_chars@ == text@,
            part_chars@ == separator@,
            separator@.len() > 0,
            texts(result@) + pieces_from(text@, separator@, piece as int, index as int) == pieces(
                text@,
                separator@,
            ),
        decreases text_chars@.len() - index,
    {
        if matches_at(text_chars.as_slice(), part_chars.as_slice(), index) {
            let ghost before = texts(result@);
            let part = slice_text(text_chars.as_slice(), piece, index);
            result.push(part);
            let ghost next = index + separator@.len();
            proof {
                assert(texts(result@) =~= before.push(text@.subrange(piece as int, index as int)));
                assert(before + (seq![text@.subrange(piece as int, index as int)] + pieces_from(
                    text@,
                    separator@,
                    next,
                    next,
                )) =~= texts(result@) + pieces_from(text@, separator@, next, next));
            }
            index += part_chars.len();
            piece = index;
        } else {
            index += 1;
        }
    }
    let ghost before = texts(result@);
    result.push(slice_text(text_chars.as_slice(), piece, text_chars.len()));
    proof {
        assert(text@.skip(piece as int) =~= text@.subrange(piece as int, text@.len() as int));
        assert(texts(result@) =~= before + seq![text@.skip(piece as int)]);
    }
    result
}

/// Whether a character is white space (the Unicode property of that name).
pub open spec fn is_space(character: char) -> bool {
    let code = character as u32;
    ||| 0x9 <= code <= 0xd
    ||| code == 0x20
    ||| code == 0x85
    ||| code == 0xa0
    ||| code == 0x1680
    ||| 0x2000 <= code <= 0x200a
    ||| code == 0x2028
    ||| code == 0x2029
    ||| code == 0x202f
    ||| code == 0x205f
    ||| code == 0x3000
}

/// Whether a character is white space (the Unicode property of that name).
pub fn is_white_space(character: char) -> (result: bool)
    ensures
        result == is_space(character),
{
    let code: u32 = character as u32;
    (0x9 <= code && code <= 0xd) || code == 0x20 || code == 0x85 || code == 0xa0 || code == 0x1680
        || (0x2000 <= code && code <= 0x200a) || code == 0x2028 || code == 0x2029 || code == 0x202f
        || code == 0x205f || code == 0x3000
}

/// `text` without white space at the end.
pub open spec fn trimmed_end(text: Seq<char>) -> Seq<char>
    decreases text.len(),
{
    if text.len() > 0 && is_space(text.last()) {
        trimmed_end(text.drop_last())
    } else {
        text
    }
}

/// `text` without white space in front.
pub open spec fn trimmed_start(text: Seq<char>) -> Seq<char>
    decreases text.len(),
{
    if text.len() > 0 && is_space(text[0]) {
        trimmed_start(text.skip(1))
    } else {
        text
    }
}

/// `text` without white space at either end.
pub open spec fn trimmed(text: Seq<char>) -> Seq<char> {
    trimmed_end(trimmed_start(text))
}

/// How many characters are left when white space at the end is cut off.
pub fn trimmed_end_length(characters: &[char]) -> (result: usize)
    ensures
        result <= characters@.len(),
        characters@.take(result as int) == trimmed_end(characters@),
{
    let mut length: usize = characters.len();
    proof {
        assert(characters@.take(length as int) =~= characters@);
    }
    while length > 0 && is_white_space(characters[length - 1])
        invariant
            length <= characters@.len(),
            trimmed_end(characters@.take(length as int)) == trimmed_end(characters@),
        decreases length,
    {
        proof {
            assert(characters@.take(length as int).drop_last() =~= characters@.take(length - 1));
        }
        length -= 1;
    }
    length
}

/// How many characters of white space stand in front.
pub fn leading_space_length(characters: &[char]) -> (result: usize)
    ensures
        result <= characters@.len(),
        characters@.skip(result as int) == trimmed_start(characters@),
{
    let mut length: usize = 0;
    proof {
        assert(characters@.skip(0) =~= characters@);
    }
    while length < characters.len() && is_white_space(characters[length])
        invariant
            length <= characters@.len(),
            trimmed_start(characters@.skip(length as int)) == trimmed_start(characters@),
        decreases characters@.len() - length,
    {
        proof {
            assert(characters@.skip(length as int).skip(1) =~= characters@.skip(length + 1));
        }
        length += 1;
    }
    length
}

/// `text` without white space at the end.
pub fn trim_end_text(text: &str) -> (result: String)
    ensures
        result@ == trimmed_end(text@),
{
    let characters = chars_of(text);
    let length: usize = trimmed_end_length(characters.as_slice());
    proof {
        assert(text@.subrange(0, length as int) =~= text@.take(length as int));
    }
    slice_text(characters.as_slice(), 0, length)
}

/// `text` without white space in front.
pub fn trim_start_text(text: &str) -> (result: String)
    ensures
        result@ == trimmed_start(text@),
{
    let characters = chars_of(text);
    let length: usize = leading_space_length(characters.as_slice());
    proof {
        assert(text@.subrange(length as int, text@.len() as int) =~= text@.skip(length as int));
    }
    slice_text(characters.as_slice(), length, characters.len())
}

/// `text` without white space at either end.
pub fn trim_text(text: &str) -> (result: String)
    ensures
        result@ == trimmed(text@),
{
    trim_end_text(trim_start_text(text).as_str())
}

/// The decimal digit with the given value.
pub open spec fn digit(value: int) -> char {
    (48 + value) as char
}

/// A number in decimal, without leading zeros.
pub open spec fn decimal(value: nat) -> Seq<char>
    decreases value,
{
    if value < 10 {
        seq![digit(value as int)]
    } else {
        decimal(value / 10).push(digit((value % 10) as int))
    }
}

fn digit_char(value: u128) -> (result: char)
    requires
        value < 10,
    ensures
        result == digit(value as int),
{
    match value {
        0 => '0',
        1 => '1',
        2 => '2',
        3 => '3',
        4 => '4',
        5 => '5',
        6 => '6',
        7 => '7',
        8 => '8',
        _ => '9',
    }
}

/// A number in decimal, without leading zeros.
pub fn decimal_text(value: usize) -> (result: String)
    ensures
        result@ == decimal(value as nat),
{
    wide_decimal_text(value as u128)
}

/// A number in decimal, without leading zeros.
pub fn wide_decimal_text(value: u128) -> (result: String)
    ensures
        result@ == decimal(value as nat),
    decreases value,
{
    if value < 10 {
        let mut result = String::new();
        result.push(digit_char(value));
        proof {
            assert(result@ =~= seq![digit(value as int)]);
        }
        result
    } else {
        let mut result = wide_decimal_text(value / 10);
        result.push(digit_char(value % 10));
        result
    }
}

/// Whether a character is a decimal digit.
pub open spec fn is_digit(character: char) -> bool {
    '0' <= character <= '9'
}

/// Whether all characters are decimal digits.
pub open spec fn all_digits(digits: Seq<char>) -> bool {
    forall|index: int| 0 <= index < digits.len() ==> is_digit(#[trigger] digits[index])
}

/// The number that decimal digits stand for.
pub open spec fn digits_value(digits: Seq<char>) -> nat
    decreases digits.len(),
{
    if digits.len() == 0 {
        0
    } else {
        (digits_value(digits.drop_last()) * 10 + (digits.last() as int - '0' as int)) as nat
    }
}

/// The number that a text stands for: decimal digits, behind an optional `+`,
/// for a number that fits in a machine word.
pub open spec fn number(text: Seq<char>) -> Option<nat> {
    let digits = if text.len() > 0 && text[0] == '+' {
        text.skip(1)
    } else {
        text
    };
    if digits.len() > 0 && all_digits(digits) && digits_value(digits) <= usize::MAX {
        Some(digits_value(digits))
    } else {
        None
    }
}

proof fn longer_digits_are_larger(digits: Seq<char>, count: int)
    requires
        all_digits(digits),
        0 <= count <= digits.len(),
    ensures
        digits_value(digits.take(count)) <= digits_value(digits),
    decreases digits.len() - count,
{
    if count == digits.len() {
        assert(digits.take(count) =~= digits);
    } else {
        assert(digits.take(count + 1).drop_last() =~= digits.take(count));
        assert(is_digit(digits[count]));
        longer_digits_are_larger(digits, count + 1);
    }
}

/// A number is read back from its decimal digits.
pub proof fn decimals_are_read_back(value: nat)
    ensures
        digits_value(decimal(value)) == value,
        all_digits(decimal(value)),
        decimal(value).len() > 0,
    decreases value,
{
    if value >= 10 {
        decimals_are_read_back(value / 10);
        assert(decimal(value).drop_last() =~= decimal(value / 10));
        assert(decimal(value).last() == digit((value % 10) as int));
    } else {
        assert(decimal(value).drop_last() =~= Seq::empty());
        assert(digits_value(Seq::empty()) == 0);
        assert(decimal(value).last() == digit(value as int));
    }
}

/// A machine word, as an optional mathematical number.
pub open spec fn optional_number(value: Option<usize>) -> Option<nat> {
    match value {
        Some(value) => Some(value as nat),
        None => None,
    }
}

fn digit_of(character: char) -> (result: usize)
    requires
        is_digit(character),
    ensures
        result == character as int - '0' as int,
        result < 10,
{
    (character as u32 - 48) as usize
}

/// The number that a text stands for: decimal digits, behind an optional `+`,
/// for a number that fits in a machine word.
pub fn parse_number(text: &str) -> (result: Option<usize>)
    ensures
        optional_number(result) == number(text@),
{
    let characters = chars_of(text);
    let length: usize = characters.len();
    let first: usize = if length > 0 && characters[0] == '+' {
        1
    } else {
        0
    };
    let ghost digits = text@.skip(first as int);
    proof {
        assert(text@.skip(0) =~= text@);
        assert(digits.take(0) =~= Seq::<char>::empty());
    }
    if first >= length {
        return None;
    }
    let mut value: usize = 0;
    let mut index: usize = first;
    while index < length
        invariant
            first <= index <= length,
            length == characters@.len(),
            characters@ == text@,
            digits == text@.skip(first as int),
            digits.len() == length - first,
            digits == (if text@.len() > 0 && text@[0] == '+' {
                text@.skip(1)
            } else {
                text@
            }),
            all_digits(digits.take(index - first)),
            value == digits_value(digits.take(index - first)),
        decreases length - index,
    {
        let character: char = characters[index];
        proof {
            assert(digits[index - first] == character);
        }
        if !('0' <= character && character <= '9') {
            return None;
        }
        let digit: usize = digit_of(character);
        let ghost longer = digits.take(index - first + 1);
        proof {
            assert(longer.drop_last() =~= digits.take(index - first));
            assert(longer.last() == character);
            assert(digits_value(longer) == value * 10 + digit);
            assert forall|k: int| 0 <= k < longer.len() implies is_digit(#[trigger] longer[k]) by {
                if k < index - first {
                    assert(digits.take(index - first)[k] == longer[k]);
                }
            }
        }
        if value > (usize::MAX - digit) / 10 {
            proof {
                assert(value * 10 + digit > usize::MAX);
                if all_digits(digits) {
                    longer_digits_are_larger(digits, index - first + 1);
                }
            }
            return None;
        }
        value = value * 10 + digit;
        index += 1;
    }
    proof {
        assert(digits.take(length - first) =~= digits);
    }
    Some(value)
}

/// `text` without characters of `set` at the end.
pub open spec fn trimmed_end_of(text: Seq<char>, set: Seq<char>) -> Seq<char>
    decreases text.len(),
{
    if text.len() > 0 && set.contains(text.last()) {
        trimmed_end_of(text.drop_last(), set)
    } else {
        text
    }
}

/// `text` without characters of `set` in front.
pub open spec fn trimmed_start_of(text: Seq<char>, set: Seq<char>) -> Seq<char>
    decreases text.len(),
{
    if text.len() > 0 && set.contains(text[0]) {
        trimmed_start_of(text.skip(1), set)
    } else {
        text
    }
}

/// `text` without characters of `set` at either end.
pub open spec fn trimmed_of(text: Seq<char>, set: Seq<char>) -> Seq<char> {
    trimmed_end_of(trimmed_start_of(text, set), set)
}

fn among(set: &[char], character: char) -> (result: bool)
    ensures
        result == set@.contains(character),
{
    let mut index: usize = 0;
    while index < set.len()
        invariant
            index <= set@.len(),
            forall|k: int| 0 <= k < index ==> set@[k] != character,
        decreases set@.len() - index,
    {
        if set[index] == character {
            return true;
        }
        index += 1;
    }
    false
}

/// `text` without characters of `set` at the end.
pub fn trim_end_of(text: &str, set: &str) -> (result: String)
    ensures
        result@ == trimmed_end_of(text@, set@),
{
    let characters = chars_of(text);
    let members = chars_of(set);
    let mut length: usize = characters.len();
    proof {
        assert(text@.take(length as int) =~= text@);
    }
    while length > 0 && among(members.as_slice(), characters[length - 1])
        invariant
            length <= characters@.len(),
            characters@ == text@,
            members@ == set@,
            trimmed_end_of(text@.take(length as int), set@) == trimmed_end_of(text@, set@),
        decreases length,
    {
        proof {
            assert(text@.take(length as int).drop_last() =~= text@.take(length - 1));
        }
        length -= 1;
    }
    proof {
        assert(text@.subrange(0, length as int) =~= text@.take(length as int));
    }
    slice_text(characters.as_slice(), 0, length)
}

/// `text` without characters of `set` at either end.
pub fn trim_of(text: &str, set: &str) -> (result: String)
    ensures
        result@ == trimmed_of(text@, set@),
{
    let characters = chars_of(text);
    let members = chars_of(set);
    let mut start: usize = 0;
    proof {
        assert(text@.skip(0) =~= text@);
    }
    while start < characters.len() && among(members.as_slice(), characters[start])
        invariant
            start <= characters@.len(),
            characters@ == text@,
            members@ == set@,
            trimmed_start_of(text@.skip(start as int), set@) == trimmed_start_of(text@, set@),
        decreases characters@.len() - start,
    {
        proof {
            assert(text@.skip(start as int).skip(1) =~= text@.skip(start + 1));
        }
        start += 1;
    }
    proof {
        assert(text@.subrange(start as int, text@.len() as int) =~= text@.skip(start as int));
    }
    trim_end_of(slice_text(characters.as_slice(), start, characters.len()).as_str(), set)
}

/// Two strings, one behind the other.
pub fn concat_texts(left: &str, right: &str) -> (result: String)
    ensures
        result@ == left@ + right@,
{
    let mut result = left.to_owned();
    result.append(right);
    result
}

/// Whether `left` comes before `right` in the order of code points, where the
/// two are equal before `index`.
pub open spec fn less_from(left: Seq<char>, right: Seq<char>, index: int) -> bool
    decreases left.len() - index,
{
    if index >= right.len() {
        false
    } else if index >= left.len() {
        true
    } else if left[index] == right[index] {
        less_from(left, right, index + 1)
    } else {
        (left[index] as int) < (right[index] as int)
    }
}

/// Whether `left` comes before `right` in the order of code points.
pub open spec fn text_less(left: Seq<char>, right: Seq<char>) -> bool {
    less_from(left, right, 0)
}

/// Whether `left` comes before `right` in the order of code points.
pub fn comes_before(left: &str, right: &str) -> (result: bool)
    ensures
        result == text_less(left@, right@),
{
    let left_chars = chars_of(left);
    let right_chars = chars_of(right);
    let mut index: usize = 0;
    while index < left_chars.len() && index < right_chars.len()
        invariant
            index <= left_chars@.len(),
            index <= right_chars@.len(),
            left_chars@ == left@,
            right_chars@ == right@,
            less_from(left@, right@, index as int) == text_less(left@, right@),
        decreases left_chars@.len() - index,
    {
        if left_chars[index] != right_chars[index] {
            let left_char: char = left_chars[index];
            let right_char: char = right_chars[index];
            return left_char < right_char;
        }
        index += 1;
    }
    index < right_chars.len()
}

proof fn less_from_is_total(left: Seq<char>, right: Seq<char>, index: int)
    requires
        0 <= index <= left.len(),
        index <= right.len(),
        left.take(index) == right.take(index),
    ensures
        !less_from(left, left, index),
        less_from(left, right, index) ==> !less_from(right, left, index),
        less_from(left, right, index) || less_from(right, left, index) || left == right,
    decreases left.len() - index,
{
    if index < left.len() {
        assert(left.take(index + 1) =~= left.take(index).push(left[index]));
        if index < right.len() && left[index] == right[index] {
            assert(right.take(index + 1) =~= left.take(index + 1));
            less_from_is_total(left, right, index + 1);
        } else {
            less_from_is_total(left, left, index + 1);
        }
    } else {
        assert(left =~= left.take(index));
        if index == right.len() {
            assert(right =~= right.take(index));
        }
    }
}

proof fn less_from_is_transitive(
    left: Seq<char>,
    right: Seq<char>,
    third: Seq<char>,
    index: int,
)
    requires
        less_from(left, right, index),
        less_from(right, third, index),
    ensures
        less_from(left, third, index),
    decreases left.len() - index,
{
    if index < left.len() && index < right.len() && index < third.len() && left[index]
        == right[index] && right[index] == third[index] {
        less_from_is_transitive(left, right, third, index + 1);
    }
}

/// The order of strings is a strict total order.
pub proof fn text_order_laws(left: Seq<char>, right: Seq<char>, third: Seq<char>)
    ensures
        !text_less(left, left),
        text_less(left, right) ==> !text_less(right, left),
        text_less(left, right) || text_less(right, left) || left == right,
        text_less(left, right) && text_less(right, third) ==> text_less(left, third),
{
    assert(left.take(0) =~= right.take(0));
    less_from_is_total(left, right, 0);
    if text_less(left, right) && text_less(right, third) {
        less_from_is_transitive(left, right, third, 0);
    }
}

/// Whether one list of strings comes before another, string by string, where
/// the two are equal before `index`.
pub open spec fn list_less_from(left: Seq<Seq<char>>, right: Seq<Seq<char>>, index: int) -> bool
    decreases left.len() - index,
{
    if index >= right.len() {
        false
    } else if index >= left.len() {
        true
    } else if left[index] == right[index] {
        list_less_from(left, right, index + 1)
    } else {
        text_less(left[index], right[index])
    }
}

/// Whether one list of strings comes before another, string by string.
pub open spec fn list_less(left: Seq<Seq<char>>, right: Seq<Seq<char>>) -> bool {
    list_less_from(left, right, 0)
}

/// Whether one list of strings comes before another, string by string.
pub fn list_comes_before(left: &Vec<String>, right: &Vec<String>) -> (result: bool)
    ensures
        result == list_less(texts(left@), texts(right@)),
{
    let mut index: usize = 0;
    while index < left.len() && index < right.len()
        invariant
            index <= left@.len(),
            index <= right@.len(),
            list_less_from(texts(left@), texts(right@), index as int) == list_less(
                texts(left@),
                texts(right@),
            ),
        decreases left@.len() - index,
    {
        if !same_text(left[index].as_str(), right[index].as_str()) {
            return comes_before(left[index].as_str(), right[index].as_str());
        }
        index += 1;
    }
    index < right.len()
}

/// Whether two lists hold the same strings.
pub fn same_list(left: &Vec<String>, right: &Vec<String>) -> (result: bool)
    ensures
        result == (texts(left@) == texts(right@)),
{
    if left.len() != right.len() {
        proof {
            assert(texts(left@).len() != texts(right@).len());
        }
        return false;
    }
    let mut index: usize = 0;
    while index < left.len()
        invariant
            index <= left@.len(),
            left@.len() == right@.len(),
            forall|k: int| 0 <= k < index ==> left@[k]@ == right@[k]@,
        decreases left@.len() - index,
    {
        if !same_text(left[index].as_str(), right[index].as_str()) {
            proof {
                assert(texts(left@)[index as int] != texts(right@)[index as int]);
            }
            return false;
        }
        index += 1;
    }
    proof {
        assert(texts(left@) =~= texts(right@));
    }
    true
}

/// Whether two optional strings are equal.
pub fn same_optional(left: &Option<String>, right: &Option<String>) -> (result: bool)
    ensures
        result == (optional(*left) == optional(*right)),
{
    match (left, right) {
        (Some(left), Some(right)) => same_text(left.as_str(), right.as_str()),
        (None, None) => true,
        _ => false,
    }
}

/// A list with the same strings.
pub fn copy_texts(values: &Vec<String>) -> (result: Vec<String>)
    ensures
        texts(result@) == texts(values@),
        result@.len() == values@.len(),
{
    let mut result: Vec<String> = Vec::new();
    let mut index: usize = 0;
    while index < values.len()
        invariant
            index <= values@.len(),
            result@.len() == index,
            forall|k: int| 0 <= k < index ==> result@[k]@ == values@[k]@,
        decreases values@.len() - index,
    {
        result.push(values[index].clone());
        index += 1;
    }
    proof {
        assert(texts(result@) =~= texts(values@));
    }
    result
}

proof fn list_less_from_is_total(left: Seq<Seq<char>>, right: Seq<Seq<char>>, index: int)
    requires
        0 <= index <= left.len(),
        index <= right.len(),
        left.take(index) == right.take(index),
    ensures
        !list_less_from(left, left, index),
        list_less_from(left, right, index) ==> !list_less_from(right, left, index),
        list_less_from(left, right, index) || list_less_from(right, left, index) || left == right,
    decreases left.len() - index,
{
    if index < left.len() {
        assert(left.take(index + 1) =~= left.take(index).push(left[index]));
        if index < right.len() && left[index] == right[index] {
            assert(right.take(index + 1) =~= left.take(index + 1));
            list_less_from_is_total(left, right, index + 1);
        } else {
            list_less_from_is_total(left, left, index + 1);
            if index < right.len() {
                text_order_laws(left[index], right[index], left[index]);
            }
        }
    } else {
        assert(left =~= left.take(index));
        if index == right.len() {
            assert(right =~= right.take(index));
        }
    }
}

proof fn list_less_from_is_transitive(
    left: Seq<Seq<char>>,
    right: Seq<Seq<char>>,
    third: Seq<Seq<char>>,
    index: int,
)
    requires
        list_less_from(left, right, index),
        list_less_from(right, third, index),
    ensures
        list_less_from(left, third, index),
    decreases left.len() - index,
{
    if index < left.len() && index < right.len() && index < third.len() {
        if left[index] == right[index] && right[index] == third[index] {
            list_less_from_is_transitive(left, right, third, index + 1);
        } else {
            text_order_laws(left[index], right[index], third[index]);
            text_order_laws(left[index], third[index], right[index]);
        }
    }
}

/// The order of lists of strings is a strict total order.
pub proof fn list_order_laws(
    left: Seq<Seq<char>>,
    right: Seq<Seq<char>>,
    third: Seq<Seq<char>>,
)
    ensures
        !list_less(left, left),
        list_less(left, right) ==> !list_less(right, left),
        list_less(left, right) || list_less(right, left) || left == right,
        list_less(left, right) && list_less(right, third) ==> list_less(left, third),
{
    assert(left.take(0) =~= right.take(0));
    list_less_from_is_total(left, right, 0);
    if list_less(left, right) && list_less(right, third) {
        list_less_from_is_transitive(left, right, third, 0);
    }
}

} // verus!
