//! The marks under which closures appear in the names that rustc prints.
use crate::digest::{short_digest, short_digest_text};
use crate::names::text_of_tail;
use crate::rust::labels::{
    ascii_word, begins_with, begins_with_char, is_ascii_word, last_part, last_path_part,
    optional_place,
};
use crate::text::{
    chars_of, decimal, find, find_chars, find_from, find_from_is_first, join_texts, joined, number,
    optional, parse_number, rfind, rfind_chars, rsplit_once, rsplit_text_once, slice_text,
    strip_suffix, strip_suffix_text, texts, is_space, trim_of, trim_text, trimmed, trimmed_end,
    trimmed_of, trimmed_start, wide_decimal_text,
};
use vstd::prelude::*;

verus! {

/// The earlier of two places.
pub open spec fn earlier(left: Option<int>, right: Option<int>) -> Option<int> {
    match (left, right) {
        (Some(left), Some(right)) => Some(
            if left <= right {
                left
            } else {
                right
            },
        ),
        (Some(_), None) => left,
        (None, _) => right,
    }
}

/// The later of two places.
pub open spec fn later(left: Option<int>, right: Option<int>) -> Option<int> {
    match (left, right) {
        (Some(left), Some(right)) => Some(
            if left >= right {
                left
            } else {
                right
            },
        ),
        (Some(_), None) => left,
        (None, _) => right,
    }
}

/// The first closure in a text that rustc names by where it stands.
pub open spec fn located_closure(text: Seq<char>) -> Option<Seq<char>> {
    match earlier(find(text, "{closure@"@), find(text, "{async closure@"@)) {
        None => None,
        Some(start) => match find_from(text, "}"@, start) {
            None => None,
            Some(end) => Some(text.subrange(start, end + 1)),
        },
    }
}

/// The first closure in a text that rustc names by where it stands.
pub fn located_closure_token(value: &str) -> (result: Option<String>)
    ensures
        optional(result) == located_closure(value@),
{
    let characters = chars_of(value);
    let length: usize = characters.len();
    let plain = find_chars(characters.as_slice(), chars_of("{closure@").as_slice(), 0);
    let asynchronous = find_chars(characters.as_slice(), chars_of("{async closure@").as_slice(), 0);
    let start: usize = match (plain, asynchronous) {
        (Some(plain), Some(asynchronous)) => if plain <= asynchronous {
            plain
        } else {
            asynchronous
        },
        (Some(plain), None) => plain,
        (None, Some(asynchronous)) => asynchronous,
        (None, None) => {
            return None;
        },
    };
    proof {
        reveal_strlit("}");
    }
    match find_chars(characters.as_slice(), chars_of("}").as_slice(), start) {
        None => None,
        Some(end) => {
            assert(end < length);
            Some(slice_text(characters.as_slice(), start, end + 1))
        },
    }
}

/// The path of the function that a closure is written in, and what follows
/// the mark of the closure.
pub open spec fn closure_split(name: Seq<char>) -> Option<(Seq<char>, Seq<char>)> {
    match rsplit_once(name, "::{closure#"@) {
        Some(parts) => Some(parts),
        None => rsplit_once(name, "::{async closure#"@),
    }
}

/// `text` with an underscore for each character that is no ASCII letter or
/// digit.
pub open spec fn as_word(text: Seq<char>) -> Seq<char> {
    text.map_values(
        |character: char|
            if is_ascii_word(character) {
                character
            } else {
                '_'
            },
    )
}

fn word_of(text: &str) -> (result: String)
    ensures
        result@ == as_word(text@),
{
    let characters = chars_of(text);
    let mut result = String::new();
    let mut index: usize = 0;
    while index < characters.len()
        invariant
            index <= characters@.len(),
            characters@ == text@,
            result@ == as_word(text@).take(index as int),
        decreases characters@.len() - index,
    {
        let character: char = characters[index];
        proof {
            assert(as_word(text@).take(index + 1) =~= as_word(text@).take(index as int).push(
                as_word(text@)[index as int],
            ));
        }
        if ascii_word(character) {
            result.push(character);
        } else {
            result.push('_');
        }
        index += 1;
    }
    proof {
        assert(as_word(text@).take(text@.len() as int) =~= as_word(text@));
    }
    result
}

/// What the function around a closure is called in the closure's label.
pub open spec fn closure_owner(parent: Seq<char>) -> Seq<char> {
    let word = trimmed_of(as_word(last_part(parent)), "_"@);
    if word.len() == 0 {
        "closure"@
    } else {
        word
    }
}

/// The label of a closure that rustc calls `name`. None where `name` is not
/// the name of a closure.
pub open spec fn closure_label(name: Seq<char>) -> Option<Seq<char>> {
    match closure_split(name) {
        None => None,
        Some((parent, rest)) => match strip_suffix(rest, "}"@) {
            None => None,
            Some(digits) => match number(digits) {
                None => None,
                Some(ordinal) => Some("λ"@ + closure_owner(parent) + "#"@ + decimal(ordinal + 1)),
            },
        },
    }
}

/// The label of a closure that rustc calls `definition_name`. None where that
/// is not the name of a closure.
pub fn compiler_closure_label(definition_name: &str) -> (result: Option<String>)
    ensures
        optional(result) == closure_label(definition_name@),
{
    let parts = match rsplit_text_once(definition_name, "::{closure#") {
        Some(parts) => Some(parts),
        None => rsplit_text_once(definition_name, "::{async closure#"),
    };
    match parts {
        None => None,
        Some((parent, rest)) => match strip_suffix_text(rest.as_str(), "}") {
            None => None,
            Some(digits) => match parse_number(digits.as_str()) {
                None => None,
                Some(ordinal) => {
                    let word = trim_of(
                        word_of(last_path_part(parent.as_str()).as_str()).as_str(),
                        "_",
                    );
                    let mut label = "λ".to_owned();
                    if chars_of(word.as_str()).len() == 0 {
                        label.append("closure");
                    } else {
                        label.append(word.as_str());
                    }
                    label.append("#");
                    label.append(wide_decimal_text(ordinal as u128 + 1).as_str());
                    Some(label)
                },
            },
        },
    }
}

/// The mark that stands for a closure in the names of instances. It holds a
/// digest of what rustc calls the closure, and the closure's label.
pub open spec fn closure_marker(name: Seq<char>) -> Option<Seq<char>> {
    match closure_label(name) {
        None => None,
        Some(label) => Some("{lambda-def:"@ + short_digest(name) + ":"@ + label + "}"@),
    }
}

/// The mark that stands for a closure in the names of instances.
pub fn compiler_closure_marker(definition_name: &str) -> (result: Option<String>)
    ensures
        optional(result) == closure_marker(definition_name@),
{
    match compiler_closure_label(definition_name) {
        None => None,
        Some(label) => {
            let mut marker = "{lambda-def:".to_owned();
            marker.append(short_digest_text(definition_name).as_str());
            marker.append(":");
            marker.append(label.as_str());
            marker.append("}");
            Some(marker)
        },
    }
}

/// `text` from `start` on without the environments of closures.
pub open spec fn without_environments_from(text: Seq<char>, start: int) -> Seq<char>
    decreases text.len() - start,
{
    if start < 0 || start > text.len() {
        Seq::empty()
    } else {
        match find_from(text, "[[diffkit-closure-env:"@, start) {
            None => text.skip(start),
            Some(found) => match find_from(
                text,
                "]]"@,
                found + "[[diffkit-closure-env:"@.len(),
            ) {
                None => text.skip(start),
                Some(end) => {
                    proof {
                        reveal_strlit("]]");
                        reveal_strlit("[[diffkit-closure-env:");
                        find_from_is_first(text, "[[diffkit-closure-env:"@, start);
                        find_from_is_first(
                            text,
                            "]]"@,
                            found + "[[diffkit-closure-env:"@.len(),
                        );
                    }
                    text.subrange(start, found) + without_environments_from(text, end + 2)
                },
            },
        }
    }
}

/// `text` without the environments of closures.
pub open spec fn without_environments(text: Seq<char>) -> Seq<char> {
    without_environments_from(text, 0)
}

/// `value` without the environments of closures.
pub fn strip_closure_environment_contexts(value: &str) -> (result: String)
    ensures
        result@ == without_environments(value@),
{
    let characters = chars_of(value);
    let prefix = chars_of("[[diffkit-closure-env:");
    let suffix = chars_of("]]");
    let length: usize = characters.len();
    let mut output = String::new();
    let mut start: usize = 0;
    proof {
        reveal_strlit("]]");
        reveal_strlit("[[diffkit-closure-env:");
        assert(output@ + without_environments(value@) =~= without_environments(value@));
    }
    loop
        invariant
            start <= length,
            length == characters@.len(),
            characters@ == value@,
            prefix@ == "[[diffkit-closure-env:"@,
            suffix@ == "]]"@,
            suffix@.len() == 2,
            prefix@.len() > 0,
            output@ + without_environments_from(value@, start as int) == without_environments(
                value@,
            ),
        decreases length - start,
    {
        let found: usize = match find_chars(characters.as_slice(), prefix.as_slice(), start) {
            Some(found) => found,
            None => {
                output.append(text_of_tail(&characters, start).as_str());
                return output;
            },
        };
        let context: usize = found + prefix.len();
        match find_chars(characters.as_slice(), suffix.as_slice(), context) {
            None => {
                output.append(text_of_tail(&characters, start).as_str());
                return output;
            },
            Some(end) => {
                let ghost before = output@;
                let kept = slice_text(characters.as_slice(), start, found);
                output.append(kept.as_str());
                proof {
                    let rest = without_environments_from(value@, end + 2);
                    assert(before + (kept@ + rest) =~= output@ + rest);
                }
                start = end + 2;
            },
        }
    }
}

/// What is shown in place of a mark: what stands behind its last colon.
pub open spec fn shown_marker(marker: Seq<char>) -> Seq<char> {
    match rsplit_once(marker, ":"@) {
        Some((_, label)) => label,
        None => marker + "}"@,
    }
}

/// `text` from `start` on with the label of each closure in place of its mark.
pub open spec fn with_labels_from(text: Seq<char>, start: int) -> Seq<char>
    decreases text.len() - start,
{
    if start < 0 || start > text.len() {
        Seq::empty()
    } else {
        match find_from(text, "{lambda-def:"@, start) {
            None => text.skip(start),
            Some(found) => match find_from(text, "}"@, found) {
                None => text.skip(start),
                Some(end) => {
                    proof {
                        reveal_strlit("}");
                        find_from_is_first(text, "{lambda-def:"@, start);
                        find_from_is_first(text, "}"@, found);
                    }
                    text.subrange(start, found) + shown_marker(text.subrange(found, end))
                        + with_labels_from(text, end + 1)
                },
            },
        }
    }
}

/// `text` with the label of each closure in place of its mark.
pub open spec fn with_labels(text: Seq<char>) -> Seq<char> {
    with_labels_from(text, 0)
}

/// `value` with the label of each closure in place of its mark.
pub fn render_compiler_closure_markers(value: &str) -> (result: String)
    ensures
        result@ == with_labels(value@),
{
    let characters = chars_of(value);
    let prefix = chars_of("{lambda-def:");
    let brace = chars_of("}");
    let length: usize = characters.len();
    let mut output = String::new();
    let mut start: usize = 0;
    proof {
        reveal_strlit("}");
        assert(output@ + with_labels(value@) =~= with_labels(value@));
    }
    loop
        invariant
            start <= length,
            length == characters@.len(),
            characters@ == value@,
            prefix@ == "{lambda-def:"@,
            brace@ == "}"@,
            brace@.len() == 1,
            output@ + with_labels_from(value@, start as int) == with_labels(value@),
        decreases length - start,
    {
        let found: usize = match find_chars(characters.as_slice(), prefix.as_slice(), start) {
            Some(found) => found,
            None => {
                output.append(text_of_tail(&characters, start).as_str());
                return output;
            },
        };
        match find_chars(characters.as_slice(), brace.as_slice(), found) {
            None => {
                output.append(text_of_tail(&characters, start).as_str());
                return output;
            },
            Some(end) => {
                let ghost before = output@;
                let kept = slice_text(characters.as_slice(), start, found);
                let marker = slice_text(characters.as_slice(), found, end);
                let label = match rsplit_text_once(marker.as_str(), ":") {
                    Some((_, label)) => label,
                    None => crate::text::concat_texts(marker.as_str(), "}"),
                };
                output.append(kept.as_str());
                output.append(label.as_str());
                proof {
                    let rest = with_labels_from(value@, end + 1);
                    assert(before + (kept@ + label@ + rest) =~= output@ + rest);
                }
                start = end + 1;
            },
        }
    }
}

/// Where a closure stands: its file, the line and the column it begins at.
pub open spec fn closure_place(location: Seq<char>) -> Option<(Seq<char>, nat, nat)> {
    match rsplit_once(location, ":"@) {
        Some((rest, end_column)) => match rsplit_once(rest, ":"@) {
            Some((rest, end_line)) => match rsplit_once(rest, ":"@) {
                Some((rest, start_column)) => match rsplit_once(rest, ":"@) {
                    Some((file, start_line)) => match (
                        number(trimmed(end_column)),
                        number(trimmed(end_line)),
                        number(trimmed(start_column)),
                        number(trimmed(start_line)),
                    ) {
                        (Some(_), Some(_), Some(column), Some(line)) => Some(
                            (trimmed(file), line, column),
                        ),
                        _ => None,
                    },
                    None => None,
                },
                None => None,
            },
            None => None,
        },
        None => None,
    }
}

/// A place as mathematical values.
pub open spec fn optional_location(place: Option<(String, usize, usize)>) -> Option<
    (Seq<char>, nat, nat),
> {
    match place {
        Some((file, line, column)) => Some((file@, line as nat, column as nat)),
        None => None,
    }
}

fn field(text: &str) -> (result: Option<usize>)
    ensures
        crate::text::optional_number(result) == number(trimmed(text@)),
{
    parse_number(trim_text(text).as_str())
}

/// Where a closure stands: its file, the line and the column it begins at.
pub fn parse_anonymous_location(location: &str) -> (result: Option<(String, usize, usize)>)
    ensures
        optional_location(result) == closure_place(location@),
{
    let (rest, end_column) = match rsplit_text_once(location, ":") {
        Some(parts) => parts,
        None => {
            return None;
        },
    };
    let (rest, end_line) = match rsplit_text_once(rest.as_str(), ":") {
        Some(parts) => parts,
        None => {
            return None;
        },
    };
    let (rest, start_column) = match rsplit_text_once(rest.as_str(), ":") {
        Some(parts) => parts,
        None => {
            return None;
        },
    };
    let (file, start_line) = match rsplit_text_once(rest.as_str(), ":") {
        Some(parts) => parts,
        None => {
            return None;
        },
    };
    match (
        field(end_column.as_str()),
        field(end_line.as_str()),
        field(start_column.as_str()),
        field(start_line.as_str()),
    ) {
        (Some(_), Some(_), Some(column), Some(line)) => Some(
            (trim_text(file.as_str()), line, column),
        ),
        _ => None,
    }
}

/// `value` with `replacement` in place of the last closure that rustc names
/// by its number.
pub open spec fn with_definition(value: Seq<char>, replacement: Seq<char>) -> Seq<char> {
    match later(rfind(value, "{closure#"@), rfind(value, "{async closure#"@)) {
        None => value,
        Some(start) => match find_from(value, "}"@, start) {
            None => value,
            Some(end) => value.take(start) + replacement + value.skip(end + 1),
        },
    }
}

fn last_of(characters: &Vec<char>, left: &str, right: &str) -> (result: Option<usize>)
    ensures
        optional_place(result) == later(rfind(characters@, left@), rfind(characters@, right@)),
        match result {
            Some(place) => place <= characters@.len(),
            None => true,
        },
{
    match (
        rfind_chars(characters.as_slice(), chars_of(left).as_slice()),
        rfind_chars(characters.as_slice(), chars_of(right).as_slice()),
    ) {
        (Some(left), Some(right)) => if left >= right {
            Some(left)
        } else {
            Some(right)
        },
        (Some(left), None) => Some(left),
        (None, right) => right,
    }
}

/// `value` with `replacement` in place of the last closure that rustc names
/// by its number.
pub fn replace_closure_definition(value: &str, replacement: &str) -> (result: String)
    ensures
        result@ == with_definition(value@, replacement@),
{
    let characters = chars_of(value);
    let length: usize = characters.len();
    let start: usize = match last_of(&characters, "{closure#", "{async closure#") {
        Some(start) => start,
        None => {
            return value.to_owned();
        },
    };
    proof {
        reveal_strlit("}");
    }
    match find_chars(characters.as_slice(), chars_of("}").as_slice(), start) {
        None => value.to_owned(),
        Some(end) => {
            let mut result = slice_text(characters.as_slice(), 0, start);
            proof {
                assert(end < length);
                assert(value@.subrange(0, start as int) =~= value@.take(start as int));
            }
            result.append(replacement);
            result.append(text_of_tail(&characters, end + 1).as_str());
            result
        },
    }
}

/// Where the angle bracket opens that closes at the end, before `end` and with
/// `depth` of them open.
pub open spec fn angle_start(value: Seq<char>, end: int, depth: nat) -> Option<int>
    decreases end,
{
    if end <= 0 {
        None
    } else if value[end - 1] == '>' {
        angle_start(value, end - 1, depth + 1)
    } else if value[end - 1] == '<' {
        if depth == 0 {
            None
        } else if depth == 1 {
            Some(end - 1)
        } else {
            angle_start(value, end - 1, (depth - 1) as nat)
        }
    } else {
        angle_start(value, end - 1, depth)
    }
}

/// Where the generic arguments begin that a name ends with.
pub open spec fn generics_start(value: Seq<char>) -> Option<int> {
    if value.len() > 0 && value.last() == '>' {
        angle_start(value, value.len() as int, 0)
    } else {
        None
    }
}

/// Where the generic arguments begin that a name ends with.
pub fn trailing_generic_arguments_start(value: &str) -> (result: Option<usize>)
    ensures
        optional_place(result) == generics_start(value@),
        match result {
            Some(start) => start < value@.len() - 1 && value@[start as int] == '<',
            None => true,
        },
{
    let characters = chars_of(value);
    if characters.len() == 0 || characters[characters.len() - 1] != '>' {
        return None;
    }
    let mut depth: usize = 0;
    let mut end: usize = characters.len();
    while end > 0
        invariant
            end + depth <= characters@.len(),
            characters@.len() <= usize::MAX,
            characters@.len() > 0,
            characters@.last() == '>',
            characters@ == value@,
            angle_start(value@, end as int, depth as nat) == generics_start(value@),
        decreases end,
    {
        let character: char = characters[end - 1];
        if character == '>' {
            depth += 1;
        } else if character == '<' {
            if depth == 0 {
                return None;
            }
            depth -= 1;
            if depth == 0 {
                return Some(end - 1);
            }
        }
        end -= 1;
    }
    None
}

/// A callee with more generic arguments behind those that it has.
pub open spec fn with_generics(callee: Seq<char>, additions: Seq<Seq<char>>) -> Seq<char> {
    if additions.len() == 0 {
        callee
    } else {
        match generics_start(callee) {
            None => callee + "<"@ + joined(additions, ", "@) + ">"@,
            Some(start) => {
                let existing = callee.subrange(start + 1, callee.len() - 1);
                let separator = if existing.len() == 0 {
                    ""@
                } else {
                    ", "@
                };
                callee.take(start) + "<"@ + existing + separator + joined(additions, ", "@) + ">"@
            },
        }
    }
}

/// A callee with more generic arguments behind those that it has.
pub fn append_generic_arguments(callee: &str, additions: &Vec<String>) -> (result: String)
    ensures
        result@ == with_generics(callee@, texts(additions@)),
{
    if additions.len() == 0 {
        return callee.to_owned();
    }
    let list = join_texts(additions, ", ");
    match trailing_generic_arguments_start(callee) {
        None => {
            let mut result = callee.to_owned();
            result.append("<");
            result.append(list.as_str());
            result.append(">");
            result
        },
        Some(start) => {
            let characters = chars_of(callee);
            let length: usize = characters.len();
            let existing = slice_text(characters.as_slice(), start + 1, length - 1);
            let mut result = slice_text(characters.as_slice(), 0, start);
            proof {
                assert(callee@.subrange(0, start as int) =~= callee@.take(start as int));
            }
            let separator = if chars_of(existing.as_str()).len() == 0 {
                ""
            } else {
                ", "
            };
            result.append("<");
            result.append(existing.as_str());
            result.append(separator);
            result.append(list.as_str());
            result.append(">");
            result
        },
    }
}

/// Where the parentheses close of which `depth` are open at `index`.
pub open spec fn closing_place(text: Seq<char>, index: int, depth: nat) -> Option<int>
    decreases text.len() - index,
{
    if index < 0 || index >= text.len() {
        None
    } else if text[index] == '(' {
        closing_place(text, index + 1, depth + 1)
    } else if text[index] == ')' {
        if depth <= 1 {
            Some(index)
        } else {
            closing_place(text, index + 1, (depth - 1) as nat)
        }
    } else {
        closing_place(text, index + 1, depth)
    }
}

fn find_closing(characters: &Vec<char>) -> (result: Option<usize>)
    requires
        characters@.len() < usize::MAX,
    ensures
        optional_place(result) == closing_place(characters@, 0, 1),
        match result {
            Some(place) => place < characters@.len(),
            None => true,
        },
{
    let length: usize = characters.len();
    let mut depth: usize = 1;
    let mut index: usize = 0;
    while index < length
        invariant
            index <= length,
            length == characters@.len(),
            length < usize::MAX,
            1 <= depth <= index + 1,
            closing_place(characters@, index as int, depth as nat) == closing_place(
                characters@,
                0,
                1,
            ),
        decreases length - index,
    {
        let character: char = characters[index];
        if character == '(' {
            depth += 1;
        } else if character == ')' {
            if depth == 1 {
                return Some(index);
            }
            depth -= 1;
        }
        index += 1;
    }
    None
}

proof fn trimming_shortens(text: Seq<char>)
    ensures
        trimmed_start(text).len() <= text.len(),
    decreases text.len(),
{
    if text.len() > 0 && is_space(text[0]) {
        trimming_shortens(text.skip(1));
    }
}

proof fn trimming_end_shortens(text: Seq<char>)
    ensures
        trimmed_end(text).len() <= text.len(),
    decreases text.len(),
{
    if text.len() > 0 && is_space(text.last()) {
        trimming_end_shortens(text.drop_last());
    }
}

/// Trimming does not make a text longer.
pub proof fn trimmed_is_no_longer(text: Seq<char>)
    ensures
        trimmed(text).len() <= text.len(),
{
    trimming_shortens(text);
    trimming_end_shortens(trimmed_start(text));
}

/// An expression without the parentheses around it. None where one is left
/// open.
pub open spec fn unwrapped(expression: Seq<char>) -> Option<Seq<char>>
    decreases expression.len(),
{
    if begins_with(expression, '(') {
        let inner = expression.skip(1);
        match closing_place(inner, 0, 1) {
            None => None,
            Some(closing) => if 0 <= closing && closing + 1 == inner.len() {
                proof {
                    trimmed_is_no_longer(inner.take(closing));
                }
                unwrapped(trimmed(inner.take(closing)))
            } else {
                Some(expression)
            },
        }
    } else {
        Some(expression)
    }
}

/// The closure that an expression is, under any parentheses around it.
pub open spec fn direct_lambda(expression: Seq<char>) -> Option<Seq<char>> {
    match unwrapped(trimmed(expression)) {
        Some(inner) => if begins_with(inner, 'λ') {
            Some(inner)
        } else {
            None
        },
        None => None,
    }
}

/// The closure that an expression is, under any parentheses around it.
pub fn direct_lambda_callee(expression: &str) -> (result: Option<String>)
    ensures
        optional(result) == direct_lambda(expression@),
{
    let mut inner = trim_text(expression);
    loop
        invariant
            unwrapped(inner@) == unwrapped(trimmed(expression@)),
        decreases inner@.len(),
    {
        if !begins_with_char(inner.as_str(), '(') {
            return if begins_with_char(inner.as_str(), 'λ') {
                Some(inner)
            } else {
                None
            };
        }
        let characters = chars_of(inner.as_str());
        let length: usize = characters.len();
        let body = slice_text(characters.as_slice(), 1, length);
        let body_chars = chars_of(body.as_str());
        proof {
            assert(body@ =~= inner@.skip(1));
        }
        match find_closing(&body_chars) {
            None => {
                return None;
            },
            Some(closing) => {
                if closing + 1 != body_chars.len() {
                    return None;
                }
                let inside = slice_text(body_chars.as_slice(), 0, closing);
                proof {
                    assert(inside@ =~= inner@.skip(1).take(closing as int));
                    trimmed_is_no_longer(inside@);
                }
                inner = trim_text(inside.as_str());
            },
        }
    }
}

/// What is shown for an instance of a closure: its label, with the generic
/// arguments of the function that it is written in.
pub open spec fn instance_lambda(lambda: Seq<char>, semantic: Seq<char>) -> Seq<char> {
    match later(rfind(semantic, "::{closure#"@), rfind(semantic, "::{async closure#"@)) {
        None => lambda,
        Some(start) => match generics_start(semantic.take(start)) {
            None => lambda,
            Some(generics) => lambda + semantic.take(start).skip(generics),
        },
    }
}

/// What is shown for an instance of a closure: its label, with the generic
/// arguments of the function that it is written in.
pub fn closure_instance_display(lambda: &str, semantic: &str) -> (result: String)
    ensures
        result@ == instance_lambda(lambda@, semantic@),
{
    let characters = chars_of(semantic);
    let start: usize = match last_of(&characters, "::{closure#", "::{async closure#") {
        Some(start) => start,
        None => {
            return lambda.to_owned();
        },
    };
    let parent = slice_text(characters.as_slice(), 0, start);
    proof {
        assert(semantic@.subrange(0, start as int) =~= semantic@.take(start as int));
    }
    match trailing_generic_arguments_start(parent.as_str()) {
        None => lambda.to_owned(),
        Some(generics) => crate::text::concat_texts(
            lambda,
            text_of_tail(&chars_of(parent.as_str()), generics).as_str(),
        ),
    }
}

} // verus!
