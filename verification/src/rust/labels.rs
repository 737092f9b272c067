//! The text of Rust call labels and of the names that rustc prints.
use crate::model::{CallLabel, LabelModel};
use crate::names::{last_group_start, text_of_tail};
use crate::text::{
    chars_of, concat_texts, find_chars, find_from, find_from_is_first, join_texts, joined, pieces,
    replace_text, replaced, rsplit_once, rsplit_text_once, slice_text, split_text, starts_with,
    starts_with_text, strip_prefix, strip_prefix_text, is_upper, texts, trim_text, trimmed,
};
use vstd::prelude::*;

verus! {

/// A place in a text, as a mathematical integer.
pub open spec fn optional_place(place: Option<usize>) -> Option<int> {
    match place {
        Some(place) => Some(place as int),
        None => None,
    }
}

/// Whether a text begins with a character.
pub open spec fn begins_with(text: Seq<char>, character: char) -> bool {
    text.len() > 0 && text[0] == character
}

/// Whether a text holds a character.
pub fn has_char(text: &str, character: char) -> (result: bool)
    ensures
        result == text@.contains(character),
{
    let characters = chars_of(text);
    let mut index: usize = 0;
    while index < characters.len()
        invariant
            index <= characters@.len(),
            characters@ == text@,
            forall|k: int| 0 <= k < index ==> characters@[k] != character,
        decreases characters@.len() - index,
    {
        if characters[index] == character {
            return true;
        }
        index += 1;
    }
    false
}

/// Whether a text begins with a character.
pub fn begins_with_char(text: &str, character: char) -> (result: bool)
    ensures
        result == begins_with(text@, character),
{
    let characters = chars_of(text);
    characters.len() > 0 && characters[0] == character
}

/// Where the last argument list of a label opens.
pub open spec fn arguments_start(label: Seq<char>) -> Option<int> {
    last_group_start(label, label.len() as int, 0)
}

/// Where the last argument list of a label opens.
pub fn outer_call_arguments_start(label: &str) -> (result: Option<usize>)
    ensures
        optional_place(result) == arguments_start(label@),
        match result {
            Some(index) => index < label@.len() && label@[index as int] == '(',
            None => true,
        },
{
    let characters = chars_of(label);
    let mut depth: usize = 0;
    let mut end: usize = characters.len();
    while end > 0
        invariant
            end + depth <= characters@.len(),
            characters@.len() <= usize::MAX,
            characters@ == label@,
            last_group_start(label@, end as int, depth as nat) == arguments_start(label@),
        decreases end,
    {
        let character: char = characters[end - 1];
        if character == ')' {
            depth += 1;
        } else if character == '(' {
            if depth == 0 {
                return None;
            }
            depth -= 1;
            if depth == 0 {
                return Some(end - 1);
            }
        }
        end -= 1;
    }
    None
}

/// Where the parenthesis closes that closes all, from `index` on with `depth`
/// of them open. Parentheses in string literals do not count.
pub open spec fn group_end(
    label: Seq<char>,
    index: int,
    depth: nat,
    quoted: bool,
    escaped: bool,
) -> Option<int>
    decreases label.len() - index,
{
    if index < 0 || index >= label.len() {
        None
    } else if quoted {
        if escaped {
            group_end(label, index + 1, depth, true, false)
        } else {
            group_end(label, index + 1, depth, label[index] != '"', label[index] == '\\')
        }
    } else if label[index] == '"' {
        group_end(label, index + 1, depth, true, false)
    } else if label[index] == '(' {
        group_end(label, index + 1, depth + 1, false, false)
    } else if label[index] == ')' {
        if depth == 0 {
            None
        } else if depth == 1 {
            Some(index)
        } else {
            group_end(label, index + 1, (depth - 1) as nat, false, false)
        }
    } else {
        group_end(label, index + 1, depth, false, false)
    }
}

/// Where the parenthesis at `start` closes. Parentheses in string literals do
/// not count.
pub fn matching_parenthesis(label: &str, start: usize) -> (result: Option<usize>)
    requires
        start <= label@.len(),
    ensures
        optional_place(result) == group_end(label@, start as int, 0, false, false),
        match result {
            Some(index) => start <= index < label@.len() && label@[index as int] == ')',
            None => true,
        },
{
    let characters = chars_of(label);
    let length: usize = characters.len();
    let mut depth: usize = 0;
    let mut quoted = false;
    let mut escaped = false;
    let mut index: usize = start;
    while index < length
        invariant
            start <= index <= length,
            depth <= index,
            length == characters@.len(),
            characters@ == label@,
            escaped ==> quoted,
            group_end(label@, index as int, depth as nat, quoted, escaped) == group_end(
                label@,
                start as int,
                0,
                false,
                false,
            ),
        decreases length - index,
    {
        let character: char = characters[index];
        if quoted {
            if escaped {
                escaped = false;
            } else if character == '\\' {
                escaped = true;
            } else if character == '"' {
                quoted = false;
            }
        } else if character == '"' {
            quoted = true;
        } else if character == '(' {
            depth += 1;
        } else if character == ')' {
            if depth == 0 {
                return None;
            }
            depth -= 1;
            if depth == 0 {
                return Some(index);
            }
        }
        index += 1;
    }
    None
}

/// Whether a character opens a bracket.
pub open spec fn opens(character: char) -> bool {
    character == '(' || character == '[' || character == '{' || character == '<'
}

/// Whether a character closes a bracket.
pub open spec fn closes(character: char) -> bool {
    character == ')' || character == ']' || character == '}' || character == '>'
}

/// The arguments between top-level commas, where the one that is being read
/// began at `piece` and reading is at `index` with `depth` brackets open.
pub open spec fn arguments_from(
    text: Seq<char>,
    piece: int,
    index: int,
    depth: nat,
    quoted: bool,
    escaped: bool,
) -> Seq<Seq<char>>
    decreases text.len() - index,
{
    if index < 0 || index >= text.len() {
        seq![trimmed(text.skip(piece))]
    } else if quoted {
        if escaped {
            arguments_from(text, piece, index + 1, depth, true, false)
        } else {
            arguments_from(text, piece, index + 1, depth, text[index] != '"', text[index] == '\\')
        }
    } else if text[index] == '"' {
        arguments_from(text, piece, index + 1, depth, true, false)
    } else if opens(text[index]) {
        arguments_from(text, piece, index + 1, depth + 1, false, false)
    } else if closes(text[index]) {
        arguments_from(
            text,
            piece,
            index + 1,
            if depth > 0 {
                (depth - 1) as nat
            } else {
                0
            },
            false,
            false,
        )
    } else if text[index] == ',' && depth == 0 {
        seq![trimmed(text.subrange(piece, index))] + arguments_from(
            text,
            index + 1,
            index + 1,
            0,
            false,
            false,
        )
    } else {
        arguments_from(text, piece, index + 1, depth, false, false)
    }
}

/// The arguments of an argument list, each without white space around it.
pub open spec fn argument_list(text: Seq<char>) -> Seq<Seq<char>> {
    if trimmed(text).len() == 0 {
        Seq::empty()
    } else {
        arguments_from(text, 0, 0, 0, false, false)
    }
}

/// The arguments of an argument list, each without white space around it.
pub fn split_rust_arguments(arguments: &str) -> (result: Vec<String>)
    ensures
        texts(result@) == argument_list(arguments@),
{
    let mut result: Vec<String> = Vec::new();
    if chars_of(trim_text(arguments).as_str()).len() == 0 {
        proof {
            assert(texts(result@) =~= Seq::empty());
        }
        return result;
    }
    let characters = chars_of(arguments);
    let length: usize = characters.len();
    let mut piece: usize = 0;
    let mut depth: usize = 0;
    let mut quoted = false;
    let mut escaped = false;
    let mut index: usize = 0;
    proof {
        assert(texts(result@) + arguments_from(arguments@, 0, 0, 0, false, false)
            =~= arguments_from(arguments@, 0, 0, 0, false, false));
    }
    while index < length
        invariant
            piece <= index <= length,
            depth <= index,
            length == characters@.len(),
            characters@ == arguments@,
            escaped ==> quoted,
            texts(result@) + arguments_from(
                arguments@,
                piece as int,
                index as int,
                depth as nat,
                quoted,
                escaped,
            ) == arguments_from(arguments@, 0, 0, 0, false, false),
        decreases length - index,
    {
        let character: char = characters[index];
        if quoted {
            if escaped {
                escaped = false;
            } else if character == '\\' {
                escaped = true;
            } else if character == '"' {
                quoted = false;
            }
        } else if character == '"' {
            quoted = true;
        } else if character == '(' || character == '[' || character == '{' || character == '<' {
            depth += 1;
        } else if character == ')' || character == ']' || character == '}' || character == '>' {
            if depth > 0 {
                depth -= 1;
            }
        } else if character == ',' && depth == 0 {
            let ghost before = texts(result@);
            let argument = trim_text(slice_text(characters.as_slice(), piece, index).as_str());
            result.push(argument);
            proof {
                let next = arguments_from(arguments@, index + 1, index + 1, 0, false, false);
                assert(texts(result@) =~= before.push(argument@));
                assert(before + (seq![argument@] + next) =~= texts(result@) + next);
            }
            piece = index + 1;
        }
        index += 1;
    }
    let ghost before = texts(result@);
    let argument = trim_text(text_of_tail(&characters, piece).as_str());
    result.push(argument);
    proof {
        assert(texts(result@) =~= before + seq![argument@]);
    }
    result
}

/// The segments between the `::` outside of angle brackets, where the one
/// that is being read began at `start` and reading is at `index`.
pub open spec fn segments_from(text: Seq<char>, start: int, index: int, depth: nat) -> Seq<
    Seq<char>,
>
    decreases text.len() - index,
{
    if index < 0 || index >= text.len() {
        seq![text.skip(start)]
    } else if text[index] == '<' {
        segments_from(text, start, index + 1, depth + 1)
    } else if text[index] == '>' {
        segments_from(
            text,
            start,
            index + 1,
            if depth > 0 {
                (depth - 1) as nat
            } else {
                0
            },
        )
    } else if text[index] == ':' && depth == 0 && index + 1 < text.len() && text[index + 1]
        == ':' {
        seq![text.subrange(start, index)] + segments_from(text, index + 2, index + 2, 0)
    } else {
        segments_from(text, start, index + 1, depth)
    }
}

/// The segments of a path between the `::` outside of angle brackets.
pub open spec fn segments(path: Seq<char>) -> Seq<Seq<char>> {
    segments_from(path, 0, 0, 0)
}

/// The segments of a path between the `::` outside of angle brackets.
pub fn split_top_level_path(value: &str) -> (result: Vec<String>)
    ensures
        texts(result@) == segments(value@),
        result@.len() > 0,
{
    let characters = chars_of(value);
    let length: usize = characters.len();
    let mut result: Vec<String> = Vec::new();
    let mut depth: usize = 0;
    let mut start: usize = 0;
    let mut index: usize = 0;
    proof {
        assert(texts(result@) + segments(value@) =~= segments(value@));
    }
    while index < length
        invariant
            start <= index <= length,
            depth <= index,
            length == characters@.len(),
            characters@ == value@,
            texts(result@) + segments_from(value@, start as int, index as int, depth as nat)
                == segments(value@),
        decreases length - index,
    {
        let character: char = characters[index];
        if character == '<' {
            depth += 1;
        } else if character == '>' {
            if depth > 0 {
                depth -= 1;
            }
        } else if character == ':' && depth == 0 && index < length - 1 && characters[index + 1]
            == ':' {
            let ghost before = texts(result@);
            let segment = slice_text(characters.as_slice(), start, index);
            result.push(segment);
            proof {
                let next = segments_from(value@, index + 2, index + 2, 0);
                assert(texts(result@) =~= before.push(segment@));
                assert(before + (seq![segment@] + next) =~= texts(result@) + next);
            }
            index += 1;
            start = index + 1;
        }
        index += 1;
    }
    let ghost before = texts(result@);
    let segment = text_of_tail(&characters, start);
    result.push(segment);
    proof {
        assert(texts(result@) =~= before + seq![segment@]);
    }
    result
}

/// What stands behind the last `::`.
pub open spec fn last_part(path: Seq<char>) -> Seq<char> {
    match rsplit_once(path, "::"@) {
        Some((_, tail)) => tail,
        None => path,
    }
}

/// What stands behind the last `::`.
pub fn last_path_part(path: &str) -> (result: String)
    ensures
        result@ == last_part(path@),
{
    match rsplit_text_once(path, "::") {
        Some((_, tail)) => tail,
        None => path.to_owned(),
    }
}

/// Whether a character is a letter or a digit of ASCII.
pub open spec fn is_ascii_word(character: char) -> bool {
    'a' <= character <= 'z' || 'A' <= character <= 'Z' || '0' <= character <= '9'
}

/// Whether a character is a letter or a digit of ASCII.
pub fn ascii_word(character: char) -> (result: bool)
    ensures
        result == is_ascii_word(character),
{
    ('a' <= character && character <= 'z') || ('A' <= character && character <= 'Z') || ('0'
        <= character && character <= '9')
}

/// Whether a character can stand in a path of a type.
pub open spec fn in_type_path(character: char) -> bool {
    is_ascii_word(character) || character == '_' || character == ':' || character == '\''
}

/// A type from `index` on with each path cut down to its last part, where
/// `token` is the part of a path that was read before.
pub open spec fn simplified_from(text: Seq<char>, index: int, token: Seq<char>) -> Seq<char>
    decreases text.len() - index,
{
    if index < 0 || index >= text.len() {
        last_part(token)
    } else if in_type_path(text[index]) {
        simplified_from(text, index + 1, token.push(text[index]))
    } else {
        last_part(token) + seq![text[index]] + simplified_from(text, index + 1, Seq::empty())
    }
}

/// A type with each path in it cut down to its last part.
pub open spec fn simplified(text: Seq<char>) -> Seq<char> {
    simplified_from(text, 0, Seq::empty())
}

/// A type with each path in it cut down to its last part.
pub fn simplify_type_paths(value: &str) -> (result: String)
    ensures
        result@ == simplified(value@),
{
    let characters = chars_of(value);
    let mut output = String::new();
    let mut token = String::new();
    let mut index: usize = 0;
    proof {
        assert(token@ =~= Seq::<char>::empty());
        assert(output@ + simplified(value@) =~= simplified(value@));
    }
    while index < characters.len()
        invariant
            index <= characters@.len(),
            characters@ == value@,
            output@ + simplified_from(value@, index as int, token@) == simplified(value@),
        decreases characters@.len() - index,
    {
        let character: char = characters[index];
        if ascii_word(character) || character == '_' || character == ':' || character == '\'' {
            token.push(character);
        } else {
            let ghost before = output@;
            let part = last_path_part(token.as_str());
            output.append(part.as_str());
            output.push(character);
            token = String::new();
            proof {
                assert(token@ =~= Seq::<char>::empty());
                let rest = simplified_from(value@, index + 1, Seq::empty());
                assert(before + (part@ + seq![character] + rest) =~= output@ + rest);
            }
        }
        index += 1;
    }
    output.append(last_path_part(token.as_str()).as_str());
    output
}

/// The segments with their paths cut down.
pub open spec fn simplified_all(segments: Seq<Seq<char>>) -> Seq<Seq<char>> {
    segments.map_values(|segment: Seq<char>| simplified(segment))
}

/// The segments from `start` on, with their paths cut down, joined by `::`.
pub fn join_simplified(segments: &Vec<String>, start: usize) -> (result: String)
    requires
        start <= segments@.len(),
    ensures
        result@ == joined(simplified_all(texts(segments@).skip(start as int)), "::"@),
{
    let mut parts: Vec<String> = Vec::new();
    let mut index: usize = start;
    while index < segments.len()
        invariant
            start <= index <= segments@.len(),
            parts@.len() == index - start,
            forall|k: int|
                0 <= k < parts@.len() ==> (#[trigger] parts@[k])@ == simplified(
                    segments@[start + k]@,
                ),
        decreases segments@.len() - index,
    {
        parts.push(simplify_type_paths(segments[index].as_str()));
        index += 1;
    }
    proof {
        assert(texts(parts@) =~= simplified_all(texts(segments@).skip(start as int)));
    }
    join_texts(&parts, "::")
}

/// `text` from `start` on, with each stretch from `prefix` to the next `}`
/// replaced.
pub open spec fn without_locations_from(
    text: Seq<char>,
    prefix: Seq<char>,
    replacement: Seq<char>,
    start: int,
) -> Seq<char>
    decreases text.len() - start,
{
    if start < 0 || start > text.len() {
        Seq::empty()
    } else {
        match find_from(text, prefix, start) {
            None => text.skip(start),
            Some(found) => match find_from(text, "}"@, found) {
                None => text.skip(start),
                Some(end) => {
                    proof {
                        reveal_strlit("}");
                        find_from_is_first(text, prefix, start);
                        find_from_is_first(text, "}"@, found);
                    }
                    text.subrange(start, found) + replacement + without_locations_from(
                        text,
                        prefix,
                        replacement,
                        end + 1,
                    )
                },
            },
        }
    }
}

/// `text` with each stretch from `prefix` to the next `}` replaced.
pub open spec fn without_locations(
    text: Seq<char>,
    prefix: Seq<char>,
    replacement: Seq<char>,
) -> Seq<char> {
    without_locations_from(text, prefix, replacement, 0)
}

/// `value` with each stretch from `prefix` to the next `}` replaced.
pub fn replace_braced_location(value: &str, prefix: &str, replacement: &str) -> (result: String)
    ensures
        result@ == without_locations(value@, prefix@, replacement@),
{
    let characters = chars_of(value);
    let prefix_chars = chars_of(prefix);
    let brace_chars = chars_of("}");
    let length: usize = characters.len();
    let mut output = String::new();
    let mut start: usize = 0;
    proof {
        reveal_strlit("}");
        assert(output@ + without_locations(value@, prefix@, replacement@) =~= without_locations(
            value@,
            prefix@,
            replacement@,
        ));
    }
    loop
        invariant
            start <= length,
            length == characters@.len(),
            characters@ == value@,
            prefix_chars@ == prefix@,
            brace_chars@ == "}"@,
            "}"@.len() == 1,
            output@ + without_locations_from(value@, prefix@, replacement@, start as int)
                == without_locations(value@, prefix@, replacement@),
        decreases characters@.len() - start,
    {
        match find_chars(characters.as_slice(), prefix_chars.as_slice(), start) {
            None => {
                output.append(text_of_tail(&characters, start).as_str());
                return output;
            },
            Some(found) => {
                match find_chars(characters.as_slice(), brace_chars.as_slice(), found) {
                    None => {
                        output.append(text_of_tail(&characters, start).as_str());
                        return output;
                    },
                    Some(end) => {
                        let ghost before = output@;
                        let kept = slice_text(characters.as_slice(), start, found);
                        output.append(kept.as_str());
                        output.append(replacement);
                        proof {
                            let rest = without_locations_from(
                                value@,
                                prefix@,
                                replacement@,
                                end + 1,
                            );
                            assert(before + (kept@ + replacement@ + rest) =~= output@ + rest);
                        }
                        start = end + 1;
                    },
                }
            },
        }
    }
}

/// `text` without the places where futures, coroutines and generators were
/// written.
pub open spec fn anonymous(text: Seq<char>) -> Seq<char> {
    let text = without_locations(text, "{async closure body@"@, "{async closure body}"@);
    let text = without_locations(text, "{async block@"@, "{async block}"@);
    let text = without_locations(text, "{coroutine@"@, "{coroutine}"@);
    without_locations(text, "{generator@"@, "{generator}"@)
}

/// `text` without the places where futures, coroutines and generators were
/// written.
pub fn normalize_anonymous_type_locations(value: &str) -> (result: String)
    ensures
        result@ == anonymous(value@),
{
    let text = replace_braced_location(value, "{async closure body@", "{async closure body}");
    let text = replace_braced_location(text.as_str(), "{async block@", "{async block}");
    let text = replace_braced_location(text.as_str(), "{coroutine@", "{coroutine}");
    replace_braced_location(text.as_str(), "{generator@", "{generator}")
}

/// `text` without the places where anything anonymous was written.
pub open spec fn identity_shape(text: Seq<char>) -> Seq<char> {
    let text = without_locations(text, "{closure@"@, "{closure}"@);
    let text = without_locations(text, "{async closure body@"@, "{async closure body}"@);
    let text = without_locations(text, "{async closure@"@, "{async closure}"@);
    let text = without_locations(text, "{async block@"@, "{async block}"@);
    let text = without_locations(text, "{coroutine@"@, "{coroutine}"@);
    without_locations(text, "{generator@"@, "{generator}"@)
}

/// `text` without the places where anything anonymous was written.
pub fn normalize_type_identity_shape(value: &str) -> (result: String)
    ensures
        result@ == identity_shape(value@),
{
    let text = replace_braced_location(value, "{closure@", "{closure}");
    let text = replace_braced_location(
        text.as_str(),
        "{async closure body@",
        "{async closure body}",
    );
    let text = replace_braced_location(text.as_str(), "{async closure@", "{async closure}");
    let text = replace_braced_location(text.as_str(), "{async block@", "{async block}");
    let text = replace_braced_location(text.as_str(), "{coroutine@", "{coroutine}");
    replace_braced_location(text.as_str(), "{generator@", "{generator}")
}

/// The key of a function instance that rustc calls `name`.
pub open spec fn instance_key(name: Seq<char>) -> Seq<char> {
    anonymous(replaced(name, "::<"@, "<"@))
}

/// The key of a function instance that rustc calls `name`.
pub fn normalize_instance_key(name: &str) -> (result: String)
    ensures
        result@ == instance_key(name@),
{
    proof {
        reveal_strlit("::<");
    }
    normalize_anonymous_type_locations(replace_text(name, "::<", "<").as_str())
}

/// `<Type as Trait>::method` as `Type::method`; other names as they are.
pub open spec fn without_trait(name: Seq<char>) -> Seq<char> {
    match strip_prefix(name, "<"@) {
        None => name,
        Some(rest) => match rsplit_once(rest, ">::"@) {
            None => name,
            Some((qualification, method)) => match rsplit_once(qualification, " as "@) {
                None => name,
                Some((self_type, _)) => self_type + "::"@ + method,
            },
        },
    }
}

/// `<Type as Trait>::method` as `Type::method`; other names as they are.
pub fn collapse_trait_qualification(name: &str) -> (result: String)
    ensures
        result@ == without_trait(name@),
{
    match strip_prefix_text(name, "<") {
        None => name.to_owned(),
        Some(rest) => match rsplit_text_once(rest.as_str(), ">::") {
            None => name.to_owned(),
            Some((qualification, method)) => match rsplit_text_once(
                qualification.as_str(),
                " as ",
            ) {
                None => name.to_owned(),
                Some((self_type, _)) => {
                    let mut result = self_type;
                    result.append("::");
                    result.append(method.as_str());
                    result
                },
            },
        },
    }
}

/// `name` without the name of the crate in front of its paths.
pub open spec fn without_crate(name: Seq<char>, crate_name: Seq<char>) -> Seq<char> {
    replaced(name, crate_name + "::"@, ""@)
}

/// `name` without the name of the crate in front of its paths.
pub fn strip_crate(name: &str, crate_name: &str) -> (result: String)
    ensures
        result@ == without_crate(name@, crate_name@),
{
    let part = concat_texts(crate_name, "::");
    proof {
        reveal_strlit("::");
        assert(part@.len() >= 2);
    }
    replace_text(name, part.as_str(), "")
}

/// What is shown for a function instance that rustc calls `name`.
pub open spec fn instance_display(name: Seq<char>, crate_name: Seq<char>) -> Seq<char> {
    let local = if crate_name.len() == 0 {
        name
    } else {
        without_crate(name, crate_name)
    };
    without_trait(anonymous(replaced(local, "::<"@, "<"@)))
}

/// What is shown for a function instance that rustc calls `name`.
pub fn normalize_instance_display(name: &str, crate_name: &str) -> (result: String)
    ensures
        result@ == instance_display(name@, crate_name@),
{
    let local = if chars_of(crate_name).len() == 0 {
        name.to_owned()
    } else {
        strip_crate(name, crate_name)
    };
    collapse_trait_qualification(normalize_instance_key(local.as_str()).as_str())
}

/// What is shown for a type.
pub open spec fn type_display(value: Seq<char>, crate_name: Seq<char>) -> Seq<char> {
    simplified(anonymous(without_crate(value, crate_name)))
}

/// What is shown for a type.
pub fn normalize_type_display(value: &str, crate_name: &str) -> (result: String)
    ensures
        result@ == type_display(value@, crate_name@),
{
    simplify_type_paths(
        normalize_anonymous_type_locations(strip_crate(value, crate_name).as_str()).as_str(),
    )
}

/// Whether a text begins with an upper-case character.
pub open spec fn begins_upper(text: Seq<char>) -> bool {
    text.len() > 0 && is_upper(text[0])
}

/// Whether a text begins with an upper-case character.
pub fn begins_with_upper(text: &str) -> (result: bool)
    ensures
        result == begins_upper(text@),
{
    let characters = chars_of(text);
    characters.len() > 0 && characters[0].is_uppercase()
}

/// Whether the source names a callee through a value or a type, so that the
/// concrete type belongs in its label.
pub open spec fn asks_for_receiver(source: Seq<char>) -> bool {
    source.contains('.') || begins_with(source, '<') || match rsplit_once(source, "::"@) {
        Some((receiver, _)) => last_part(receiver) == "Self"@ || begins_upper(last_part(receiver)),
        None => false,
    }
}

fn requests_concrete_receiver(source: &str) -> (result: bool)
    ensures
        result == asks_for_receiver(source@),
{
    if has_char(source, '.') || begins_with_char(source, '<') {
        return true;
    }
    match rsplit_text_once(source, "::") {
        Some((receiver, _)) => {
            let last = last_path_part(receiver.as_str());
            crate::text::same_text(last.as_str(), "Self") || begins_with_upper(last.as_str())
        },
        None => false,
    }
}

/// The smaller of two numbers of segments, but at least one.
pub open spec fn kept_segments(source: nat, semantic: nat) -> nat {
    let least = if source < semantic {
        source
    } else {
        semantic
    };
    if least < 1 {
        1
    } else {
        least
    }
}

/// The callee of a label whose source text is `source`, once rustc has said
/// that it is `semantic`.
pub open spec fn resolved_callee(source: Seq<char>, semantic: Seq<char>) -> Seq<char> {
    if begins_with(semantic, 'λ') {
        semantic
    } else if source.contains('<') && source.contains('λ') {
        source
    } else if starts_with(semantic, "dyn "@) {
        match rsplit_once(semantic, "::"@) {
            None => semantic,
            Some((dispatch, method)) => simplified(dispatch) + "::"@ + method,
        }
    } else if semantic.contains('<') {
        let named = segments(semantic);
        let keep = kept_segments(segments(source).len(), named.len());
        joined(simplified_all(named.skip(named.len() - keep)), "::"@)
    } else {
        let parts = pieces(semantic, "::"@);
        if parts.len() >= 2 && (asks_for_receiver(source) || begins_upper(parts[parts.len() - 2])) {
            parts[parts.len() - 2] + "::"@ + parts[parts.len() - 1]
        } else {
            source
        }
    }
}

/// The callee of a label whose source text is `source`, once rustc has said
/// that it is `semantic`.
pub fn semantic_callee(source: &str, semantic: &str) -> (result: String)
    ensures
        result@ == resolved_callee(source@, semantic@),
{
    if begins_with_char(semantic, 'λ') {
        return semantic.to_owned();
    }
    if has_char(source, '<') && has_char(source, 'λ') {
        // The future of an async closure shows up as one more generic
        // argument. The closure that the source names is the callable.
        return source.to_owned();
    }
    if starts_with_text(semantic, "dyn ") {
        return match rsplit_text_once(semantic, "::") {
            None => semantic.to_owned(),
            Some((dispatch, method)) => {
                let mut result = simplify_type_paths(dispatch.as_str());
                result.append("::");
                result.append(method.as_str());
                result
            },
        };
    }
    if has_char(semantic, '<') {
        let source_segments = split_top_level_path(source);
        let named = split_top_level_path(semantic);
        let keep: usize = if source_segments.len() < named.len() {
            source_segments.len()
        } else {
            named.len()
        };
        proof {
            assert(texts(named@).len() == named@.len());
            assert(texts(source_segments@).len() == source_segments@.len());
        }
        return join_simplified(&named, named.len() - keep);
    }
    proof {
        reveal_strlit("::");
    }
    let parts = split_text(semantic, "::");
    proof {
        assert(texts(parts@).len() == parts@.len());
    }
    if parts.len() >= 2 {
        let owner: &String = &parts[parts.len() - 2];
        if requests_concrete_receiver(source) || begins_with_upper(owner.as_str()) {
            let mut result = owner.clone();
            result.append("::");
            result.append(parts[parts.len() - 1].as_str());
            return result;
        }
    }
    source.to_owned()
}

/// A label with its callee as rustc knows it.
pub open spec fn with_callee(label: Seq<char>, callee: Seq<char>) -> Seq<char> {
    match arguments_start(label) {
        Some(start) => resolved_callee(label.take(start), callee) + label.skip(start),
        None => resolved_callee(label, callee),
    }
}

/// A label with its callee as rustc knows it.
pub fn replace_callee_text(label: &str, callee: &str) -> (result: String)
    ensures
        result@ == with_callee(label@, callee@),
{
    match outer_call_arguments_start(label) {
        Some(start) => {
            let characters = chars_of(label);
            let source = slice_text(characters.as_slice(), 0, start);
            proof {
                assert(label@.subrange(0, start as int) =~= label@.take(start as int));
            }
            let mut result = semantic_callee(source.as_str(), callee);
            result.append(text_of_tail(&characters, start).as_str());
            result
        },
        None => semantic_callee(label, callee),
    }
}

/// Both texts of a label with the callee as rustc knows it.
pub open spec fn label_with_callee(label: LabelModel, callee: Seq<char>) -> LabelModel {
    LabelModel {
        default: with_callee(label.default, callee),
        typed: match label.typed {
            Some(typed) => Some(with_callee(typed, callee)),
            None => None,
        },
    }
}

/// Both texts of a label with the callee as rustc knows it.
pub fn replace_label_callee(label: &CallLabel, callee: &str) -> (result: CallLabel)
    ensures
        result@ == label_with_callee(label@, callee@),
{
    CallLabel {
        default: replace_callee_text(label.default.as_str(), callee),
        typed: match &label.typed {
            Some(typed) => Some(replace_callee_text(typed.as_str(), callee)),
            None => None,
        },
    }
}

/// What a candidate of a dynamic call is called: its last two segments.
pub open spec fn candidate_name(callee: Seq<char>) -> Seq<char> {
    let callee = without_trait(callee);
    if begins_with(callee, 'λ') {
        callee
    } else {
        let parts = segments(callee);
        joined(
            simplified_all(
                if parts.len() > 2 {
                    parts.skip(parts.len() - 2)
                } else {
                    parts
                },
            ),
            "::"@,
        )
    }
}

/// What a candidate of a dynamic call is called: its last two segments.
pub fn dispatch_candidate_callee(callee: &str) -> (result: String)
    ensures
        result@ == candidate_name(callee@),
{
    let callee = collapse_trait_qualification(callee);
    if begins_with_char(callee.as_str(), 'λ') {
        return callee;
    }
    let parts = split_top_level_path(callee.as_str());
    let start: usize = if parts.len() > 2 {
        parts.len() - 2
    } else {
        0
    };
    proof {
        assert(texts(parts@).len() == parts@.len());
        assert(texts(parts@).skip(0) =~= texts(parts@));
    }
    join_simplified(&parts, start)
}

/// A label of a dynamic call as the label of one of its candidates.
pub open spec fn candidate_text(label: Seq<char>, callee: Seq<char>) -> Seq<char> {
    match arguments_start(label) {
        Some(start) => candidate_name(callee) + label.skip(start),
        None => candidate_name(callee),
    }
}

/// A label of a dynamic call as the label of one of its candidates.
pub fn candidate_label_text(label: &str, callee: &str) -> (result: String)
    ensures
        result@ == candidate_text(label@, callee@),
{
    let mut result = dispatch_candidate_callee(callee);
    match outer_call_arguments_start(label) {
        Some(start) => {
            result.append(text_of_tail(&chars_of(label), start).as_str());
        },
        None => {},
    }
    result
}

/// Both texts of the label of a dynamic call, for one of its candidates.
pub open spec fn candidate_label(label: LabelModel, callee: Seq<char>) -> LabelModel {
    LabelModel {
        default: candidate_text(label.default, callee),
        typed: match label.typed {
            Some(typed) => Some(candidate_text(typed, callee)),
            None => None,
        },
    }
}

/// Both texts of the label of a dynamic call, for one of its candidates.
pub fn replace_dispatch_candidate_label(label: &CallLabel, callee: &str) -> (result: CallLabel)
    ensures
        result@ == candidate_label(label@, callee@),
{
    CallLabel {
        default: candidate_label_text(label.default.as_str(), callee),
        typed: match &label.typed {
            Some(typed) => Some(candidate_label_text(typed.as_str(), callee)),
            None => None,
        },
    }
}

/// The arguments with their types. Where there are fewer types than arguments
/// the first arguments have none; of more types, the last ones count.
pub open spec fn typed_arguments(arguments: Seq<Seq<char>>, types: Seq<Seq<char>>) -> Seq<
    Seq<char>,
> {
    Seq::new(
        arguments.len(),
        |index: int|
            if index + types.len() < arguments.len() {
                arguments[index]
            } else {
                arguments[index] + ": "@ + types[index + types.len() - arguments.len()]
            },
    )
}

/// A label with the types of its arguments.
pub open spec fn annotated(label: Seq<char>, types: Seq<Seq<char>>) -> Seq<char> {
    match arguments_start(label) {
        None => label,
        Some(start) => match group_end(label, start, 0, false, false) {
            None => label,
            Some(end) => {
                let arguments = argument_list(label.subrange(start + 1, end));
                if arguments.len() == 0 || types.len() == 0 {
                    label
                } else {
                    label.take(start) + "("@ + joined(typed_arguments(arguments, types), ", "@)
                        + ")"@ + label.skip(end + 1)
                }
            },
        },
    }
}

fn type_arguments(arguments: &Vec<String>, types: &Vec<String>) -> (result: Vec<String>)
    ensures
        texts(result@) == typed_arguments(texts(arguments@), texts(types@)),
{
    let mut result: Vec<String> = Vec::new();
    let length: usize = arguments.len();
    let count: usize = types.len();
    let untyped: usize = if count < length {
        length - count
    } else {
        0
    };
    let surplus: usize = if count > length {
        count - length
    } else {
        0
    };
    let mut index: usize = 0;
    while index < length
        invariant
            index <= length,
            length == arguments@.len(),
            count == types@.len(),
            untyped == (if count < length { length - count } else { 0 }),
            surplus == (if count > length { count - length } else { 0 }),
            result@.len() == index,
            forall|k: int|
                0 <= k < index ==> (#[trigger] result@[k])@ == typed_arguments(
                    texts(arguments@),
                    texts(types@),
                )[k],
        decreases length - index,
    {
        let mut argument = arguments[index].clone();
        if index >= untyped {
            argument.append(": ");
            argument.append(types[index - untyped + surplus].as_str());
        }
        result.push(argument);
        index += 1;
    }
    proof {
        assert(texts(result@) =~= typed_arguments(texts(arguments@), texts(types@)));
    }
    result
}

/// A label with the types of its arguments.
pub fn annotate_rust_label(label: &str, semantic_types: &Vec<String>) -> (result: String)
    ensures
        result@ == annotated(label@, texts(semantic_types@)),
{
    let start: usize = match outer_call_arguments_start(label) {
        Some(start) => start,
        None => {
            return label.to_owned();
        },
    };
    let end: usize = match matching_parenthesis(label, start) {
        Some(end) => end,
        None => {
            return label.to_owned();
        },
    };
    let characters = chars_of(label);
    let list = slice_text(characters.as_slice(), start + 1, end);
    let arguments = split_rust_arguments(list.as_str());
    proof {
        assert(texts(arguments@).len() == arguments@.len());
        assert(texts(semantic_types@).len() == semantic_types@.len());
    }
    if arguments.len() == 0 || semantic_types.len() == 0 {
        return label.to_owned();
    }
    let typed = type_arguments(&arguments, semantic_types);
    let mut result = slice_text(characters.as_slice(), 0, start);
    proof {
        assert(label@.subrange(0, start as int) =~= label@.take(start as int));
    }
    result.append("(");
    result.append(join_texts(&typed, ", ").as_str());
    result.append(")");
    result.append(text_of_tail(&characters, end + 1).as_str());
    result
}

} // verus!
