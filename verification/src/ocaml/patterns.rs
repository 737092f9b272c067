//! The parts of OCaml expressions and patterns.
use crate::lists::views;
use crate::ocaml::words::{
    closes, depth_after, normal, normalize_source, opens, quote_after, read_quoted,
    strip_outer_ocaml_parentheses, trimmed_is_no_longer, unquoted, without_parentheses,
    without_parentheses_is_no_longer, Quote,
};
use crate::text::{
    chars_of, is_space, is_white_space, rsplit_once, rsplit_text_once, slice_text, strip_prefix,
    strip_prefix_text, strip_suffix, strip_suffix_text, texts, trim_text, trimmed,
};
use vstd::prelude::*;

verus! {

/// Whether a character is a letter or a digit of some script: whether it has
/// one of the Unicode properties `Alphabetic`, `Nd`, `Nl` and `No`.
pub uninterp spec fn is_letter_or_digit(character: char) -> bool;

/// `char::is_alphanumeric` tells whether a character is alphabetic or numeric.
/// Of the ASCII characters, the letters and the digits are.
pub assume_specification[ char::is_alphanumeric ](character: char) -> (result: bool)
    ensures
        result == is_letter_or_digit(character),
        (character as u32) < 128 ==> result == ('a' <= character <= 'z' || 'A' <= character <= 'Z'
            || '0' <= character <= '9'),
;

/// The pieces of a text between the separators outside of groups and strings,
/// where the piece that is being read began at `start` and reading is at
/// `index`.
pub open spec fn top_pieces_from(
    text: Seq<char>,
    separator: char,
    start: int,
    index: int,
    depth: nat,
    quote: Quote,
) -> Seq<Seq<char>>
    decreases text.len() - index,
{
    if index < 0 || index >= text.len() {
        seq![trimmed(text.skip(start))]
    } else {
        let character = text[index];
        if quote.in_string {
            top_pieces_from(
                text,
                separator,
                start,
                index + 1,
                depth,
                quote_after(quote, character),
            )
        } else if character == '"' {
            top_pieces_from(
                text,
                separator,
                start,
                index + 1,
                depth,
                Quote { in_string: true, escaped: quote.escaped },
            )
        } else if opens(character) || closes(character) {
            top_pieces_from(
                text,
                separator,
                start,
                index + 1,
                depth_after(depth, character),
                quote,
            )
        } else if character == separator && depth == 0 {
            seq![trimmed(text.subrange(start, index))] + top_pieces_from(
                text,
                separator,
                index + 1,
                index + 1,
                depth,
                quote,
            )
        } else {
            top_pieces_from(text, separator, start, index + 1, depth, quote)
        }
    }
}

/// The pieces of a text between the separators outside of groups and strings.
pub open spec fn top_pieces(text: Seq<char>, separator: char) -> Seq<Seq<char>> {
    top_pieces_from(text, separator, 0, 0, 0, unquoted())
}

proof fn pieces_are_shorter(
    text: Seq<char>,
    separator: char,
    start: int,
    index: int,
    depth: nat,
    quote: Quote,
)
    requires
        0 <= start <= index <= text.len(),
    ensures
        ({
            let all = top_pieces_from(text, separator, start, index, depth, quote);
            all.len() > 0 && forall|place: int|
                0 <= place < all.len() ==> {
                    &&& (#[trigger] all[place]).len() <= text.len() - start
                    &&& all.len() > 1 ==> all[place].len() < text.len() - start
                }
        }),
    decreases text.len() - index,
{
    let all = top_pieces_from(text, separator, start, index, depth, quote);
    if index >= text.len() {
        trimmed_is_no_longer(text.skip(start));
    } else {
        let character = text[index];
        if quote.in_string {
            pieces_are_shorter(
                text,
                separator,
                start,
                index + 1,
                depth,
                quote_after(quote, character),
            );
        } else if character == '"' {
            pieces_are_shorter(
                text,
                separator,
                start,
                index + 1,
                depth,
                Quote { in_string: true, escaped: quote.escaped },
            );
        } else if opens(character) || closes(character) {
            pieces_are_shorter(
                text,
                separator,
                start,
                index + 1,
                depth_after(depth, character),
                quote,
            );
        } else if character == separator && depth == 0 {
            let rest = top_pieces_from(text, separator, index + 1, index + 1, depth, quote);
            pieces_are_shorter(text, separator, index + 1, index + 1, depth, quote);
            trimmed_is_no_longer(text.subrange(start, index));
            assert forall|place: int| 0 <= place < all.len() implies (#[trigger] all[place]).len()
                < text.len() - start by {
                if place > 0 {
                    assert(all[place] == rest[place - 1]);
                }
            }
        } else {
            pieces_are_shorter(text, separator, start, index + 1, depth, quote);
        }
    }
}

/// There is a piece, none is longer than the text, and where there are more
/// than one, each is shorter.
pub proof fn top_pieces_are_shorter(text: Seq<char>, separator: char)
    ensures
        top_pieces(text, separator).len() > 0,
        forall|place: int|
            0 <= place < top_pieces(text, separator).len() ==> {
                &&& (#[trigger] top_pieces(text, separator)[place]).len() <= text.len()
                &&& top_pieces(text, separator).len() > 1 ==> top_pieces(text, separator)[place].len()
                    < text.len()
            },
{
    pieces_are_shorter(text, separator, 0, 0, 0, unquoted());
}

/// Whether a character opens a group.
pub fn is_opening(character: char) -> (result: bool)
    ensures
        result == opens(character),
{
    character == '(' || character == '[' || character == '{'
}

/// Whether a character closes a group.
pub fn is_closing(character: char) -> (result: bool)
    ensures
        result == closes(character),
{
    character == ')' || character == ']' || character == '}'
}

/// The pieces of a text between the separators outside of groups and strings.
pub fn split_top_level_ocaml(value: &str, separator: char) -> (result: Vec<String>)
    ensures
        texts(result@) == top_pieces(value@, separator),
        result@.len() > 0,
{
    let characters = chars_of(value);
    let length: usize = characters.len();
    let mut result: Vec<String> = Vec::new();
    let mut quote = Quote { in_string: false, escaped: false };
    let mut depth: usize = 0;
    let mut start: usize = 0;
    let mut index: usize = 0;
    let ghost whole = top_pieces(value@, separator);
    proof {
        assert(texts(result@) + whole =~= whole);
    }
    while index < length
        invariant
            start <= index <= length,
            length == characters@.len(),
            characters@ == value@,
            depth <= index,
            texts(result@) + top_pieces_from(
                value@,
                separator,
                start as int,
                index as int,
                depth as nat,
                quote,
            ) == whole,
        decreases length - index,
    {
        let character: char = characters[index];
        if quote.in_string {
            quote = read_quoted(quote, character);
        } else if character == '"' {
            quote = Quote { in_string: true, escaped: quote.escaped };
        } else if is_opening(character) {
            depth += 1;
        } else if is_closing(character) {
            if depth > 0 {
                depth -= 1;
            }
        } else if character == separator && depth == 0 {
            let ghost before = texts(result@);
            let piece = trim_text(slice_text(characters.as_slice(), start, index).as_str());
            let ghost model = piece@;
            result.push(piece);
            proof {
                let rest = top_pieces_from(
                    value@,
                    separator,
                    index + 1,
                    index + 1,
                    depth as nat,
                    quote,
                );
                assert(texts(result@) =~= before.push(model));
                assert(before + (seq![model] + rest) =~= before.push(model) + rest);
            }
            start = index + 1;
        }
        index += 1;
    }
    let ghost before = texts(result@);
    let piece = trim_text(slice_text(characters.as_slice(), start, length).as_str());
    let ghost model = piece@;
    result.push(piece);
    proof {
        assert(value@.subrange(start as int, length as int) =~= value@.skip(start as int));
        assert(texts(result@) =~= before.push(model));
        assert(before + seq![model] =~= before.push(model));
    }
    result
}

/// Whether a character can stand in a name behind the first.
pub open spec fn is_name_character(character: char) -> bool {
    character == '_' || character == '\'' || 'a' <= character <= 'z' || 'A' <= character <= 'Z'
        || '0' <= character <= '9'
}

/// Whether a text is the name of a value.
pub open spec fn is_identifier(text: Seq<char>) -> bool {
    &&& text.len() > 0
    &&& text[0] == '_' || 'a' <= text[0] <= 'z'
    &&& forall|index: int| 1 <= index < text.len() ==> is_name_character(#[trigger] text[index])
}

/// Whether a text is the name of a value.
pub fn is_value_identifier(value: &str) -> (result: bool)
    ensures
        result == is_identifier(value@),
{
    let characters = chars_of(value);
    if characters.len() == 0 {
        return false;
    }
    let first: char = characters[0];
    if !(first == '_' || ('a' <= first && first <= 'z')) {
        return false;
    }
    let mut index: usize = 1;
    while index < characters.len()
        invariant
            1 <= index <= characters@.len(),
            characters@ == value@,
            forall|k: int| 1 <= k < index ==> is_name_character(#[trigger] value@[k]),
        decreases characters@.len() - index,
    {
        let character: char = characters[index];
        let allowed = character == '_' || character == '\'' || ('a' <= character && character
            <= 'z') || ('A' <= character && character <= 'Z') || ('0' <= character && character
            <= '9');
        if !allowed {
            return false;
        }
        index += 1;
    }
    true
}

/// What stands behind the last dot.
pub open spec fn after_last_dot(text: Seq<char>) -> Seq<char> {
    match rsplit_once(text, "."@) {
        Some((before, after)) => after,
        None => text,
    }
}

/// What stands behind the last dot.
pub fn text_after_last_dot(text: &str) -> (result: String)
    ensures
        result@ == after_last_dot(text@),
{
    match rsplit_text_once(text, ".") {
        Some((_, after)) => after,
        None => text.to_owned(),
    }
}

/// The name and the value of a field.
pub open spec fn field_of(text: Seq<char>) -> Option<(Seq<char>, Seq<char>)> {
    let sides = top_pieces(text, '=');
    if sides.len() > 2 {
        None
    } else {
        let name = trimmed(after_last_dot(sides[0]));
        if is_identifier(name) {
            Some((name, normal(sides.last())))
        } else {
            None
        }
    }
}

/// The fields that the first `count` pieces of a record are.
pub open spec fn fields_to(parts: Seq<Seq<char>>, count: int) -> Option<Seq<(Seq<char>, Seq<char>)>>
    decreases count,
{
    if count <= 0 {
        Some(Seq::empty())
    } else {
        match fields_to(parts, count - 1) {
            None => None,
            Some(before) => {
                let text = trimmed(parts[count - 1]);
                if text.len() == 0 {
                    Some(before)
                } else {
                    match field_of(text) {
                        Some(field) => Some(before.push(field)),
                        None => None,
                    }
                }
            },
        }
    }
}

/// The text between the braces of a record.
pub open spec fn record_inner(text: Seq<char>) -> Option<Seq<char>> {
    match strip_prefix(trimmed(without_parentheses(text)), "{"@) {
        None => None,
        Some(rest) => match strip_suffix(rest, "}"@) {
            None => None,
            Some(inner) => Some(trimmed(inner)),
        },
    }
}

/// The fields of a record or of a record pattern, with their values.
pub open spec fn record_fields(text: Seq<char>) -> Option<Seq<(Seq<char>, Seq<char>)>> {
    match record_inner(text) {
        None => None,
        Some(inner) => {
            let parts = top_pieces(inner, ';');
            if inner.len() == 0 || parts.contains("_"@) {
                None
            } else {
                match fields_to(parts, parts.len() as int) {
                    Some(fields) => if fields.len() > 0 {
                        Some(fields)
                    } else {
                        None
                    },
                    None => None,
                }
            }
        },
    }
}

/// A field of a record: its name and its value.
#[derive(Debug)]
pub struct RecordField {
    pub name: String,
    pub value: String,
}

impl View for RecordField {
    type V = (Seq<char>, Seq<char>);

    open spec fn view(&self) -> (Seq<char>, Seq<char>) {
        (self.name@, self.value@)
    }
}

fn read_field(text: &str) -> (result: Option<RecordField>)
    ensures
        match result {
            Some(field) => field_of(text@) == Some(field@),
            None => field_of(text@) is None,
        },
{
    let sides = split_top_level_ocaml(text, '=');
    proof {
        assert(texts(sides@).len() == sides@.len());
        assert(texts(sides@)[0] == sides@[0]@);
        assert(texts(sides@).last() == sides@.last()@);
    }
    if sides.len() > 2 {
        return None;
    }
    let name = trim_text(text_after_last_dot(sides[0].as_str()).as_str());
    if is_value_identifier(name.as_str()) {
        let value = normalize_source(sides[sides.len() - 1].as_str());
        Some(RecordField { name, value })
    } else {
        None
    }
}

fn find_record_inner(value: &str) -> (result: Option<String>)
    ensures
        crate::text::optional(result) == record_inner(value@),
{
    let stripped = trim_text(strip_outer_ocaml_parentheses(value).as_str());
    match strip_prefix_text(stripped.as_str(), "{") {
        None => None,
        Some(rest) => match strip_suffix_text(rest.as_str(), "}") {
            None => None,
            Some(inner) => Some(trim_text(inner.as_str())),
        },
    }
}

/// The fields of a record or of a record pattern, with their values.
pub fn split_ocaml_record_fields(value: &str) -> (result: Option<Vec<RecordField>>)
    ensures
        match result {
            Some(fields) => record_fields(value@) == Some(views(fields@)),
            None => record_fields(value@) is None,
        },
{
    let inner = match find_record_inner(value) {
        Some(inner) => inner,
        None => {
            return None;
        },
    };
    let parts = split_top_level_ocaml(inner.as_str(), ';');
    if chars_of(inner.as_str()).len() == 0 || crate::rust::calls::has_text(&parts, "_") {
        return None;
    }
    let mut fields: Vec<RecordField> = Vec::new();
    let mut index: usize = 0;
    proof {
        assert(views(fields@) =~= Seq::empty());
        assert(texts(parts@).len() == parts@.len());
    }
    while index < parts.len()
        invariant
            index <= parts@.len(),
            texts(parts@).len() == parts@.len(),
            texts(parts@) == top_pieces(inner@, ';'),
            record_inner(value@) == Some(inner@),
            fields_to(texts(parts@), index as int) == Some(views(fields@)),
        decreases parts@.len() - index,
    {
        let ghost before = views(fields@);
        proof {
            assert(texts(parts@)[index as int] == parts@[index as int]@);
        }
        let text = trim_text(parts[index].as_str());
        if chars_of(text.as_str()).len() > 0 {
            match read_field(text.as_str()) {
                Some(field) => {
                    let ghost model = field@;
                    fields.push(field);
                    proof {
                        assert(views(fields@) =~= before.push(model));
                    }
                },
                None => {
                    proof {
                        failed_fields_stay_failed(
                            texts(parts@),
                            index + 1,
                            parts@.len() as int,
                        );
                    }
                    return None;
                },
            }
        }
        index += 1;
    }
    proof {
        assert(views(fields@).len() == fields@.len());
    }
    if fields.len() > 0 {
        Some(fields)
    } else {
        None
    }
}

proof fn failed_fields_stay_failed(parts: Seq<Seq<char>>, count: int, end: int)
    requires
        fields_to(parts, count) is None,
        count <= end,
    ensures
        fields_to(parts, end) is None,
    decreases end - count,
{
    if count < end {
        failed_fields_stay_failed(parts, count + 1, end);
    }
}

/// The first white space outside of groups.
pub open spec fn top_space_from(text: Seq<char>, index: int, depth: nat) -> Option<int>
    decreases text.len() - index,
{
    if index < 0 || index >= text.len() {
        None
    } else if opens(text[index]) || closes(text[index]) {
        top_space_from(text, index + 1, depth_after(depth, text[index]))
    } else if is_space(text[index]) && depth == 0 {
        Some(index)
    } else {
        top_space_from(text, index + 1, depth)
    }
}

/// Whether a name is that of a constructor.
pub open spec fn is_constructor(name: Seq<char>) -> bool {
    name.len() > 0 && (name[0] == '`' || 'A' <= name[0] <= 'Z')
}

/// Whether a name is that of a constructor.
pub fn is_constructor_name(name: &str) -> (result: bool)
    ensures
        result == is_constructor(name@),
{
    let characters = chars_of(name);
    if characters.len() == 0 {
        return false;
    }
    let first: char = characters[0];
    first == '`' || ('A' <= first && first <= 'Z')
}

/// A constructor and what it is applied to.
pub open spec fn constructor_application(text: Seq<char>) -> Option<(Seq<char>, Seq<char>)> {
    let value = trimmed(without_parentheses(text));
    match top_space_from(value, 0, 0) {
        None => None,
        Some(split) => {
            let constructor = trimmed(value.take(split));
            let payload = trimmed(value.skip(split));
            if is_constructor(after_last_dot(constructor)) && payload.len() > 0 {
                Some((constructor, payload))
            } else {
                None
            }
        },
    }
}

fn find_top_space(text: &Vec<char>) -> (result: Option<usize>)
    ensures
        match result {
            Some(split) => split < text@.len() && top_space_from(text@, 0, 0) == Some(
                split as int,
            ),
            None => top_space_from(text@, 0, 0) is None,
        },
{
    let mut depth: usize = 0;
    let mut index: usize = 0;
    while index < text.len()
        invariant
            index <= text@.len(),
            depth <= index,
            top_space_from(text@, index as int, depth as nat) == top_space_from(text@, 0, 0),
        decreases text@.len() - index,
    {
        let character: char = text[index];
        if is_opening(character) {
            depth += 1;
        } else if is_closing(character) {
            if depth > 0 {
                depth -= 1;
            }
        } else if is_white_space(character) && depth == 0 {
            return Some(index);
        }
        index += 1;
    }
    None
}

/// A constructor and what it is applied to.
pub fn split_ocaml_constructor_application(value: &str) -> (result: Option<(String, String)>)
    ensures
        crate::text::optional_pair(result) == constructor_application(value@),
{
    let stripped = trim_text(strip_outer_ocaml_parentheses(value).as_str());
    let characters = chars_of(stripped.as_str());
    let length: usize = characters.len();
    match find_top_space(&characters) {
        None => None,
        Some(split) => {
            let front = slice_text(characters.as_slice(), 0, split);
            let back = slice_text(characters.as_slice(), split, length);
            proof {
                assert(front@ =~= stripped@.take(split as int));
                assert(back@ =~= stripped@.skip(split as int));
            }
            let constructor = trim_text(front.as_str());
            let payload = trim_text(back.as_str());
            if is_constructor_name(text_after_last_dot(constructor.as_str()).as_str())
                && chars_of(payload.as_str()).len() > 0 {
                Some((constructor, payload))
            } else {
                None
            }
        },
    }
}

proof fn space_is_inside(text: Seq<char>, index: int, depth: nat)
    requires
        0 <= index,
    ensures
        match top_space_from(text, index, depth) {
            Some(split) => index <= split < text.len() && is_space(text[split]),
            None => true,
        },
    decreases text.len() - index,
{
    if index < text.len() {
        if opens(text[index]) || closes(text[index]) {
            space_is_inside(text, index + 1, depth_after(depth, text[index]));
        } else if !(is_space(text[index]) && depth == 0) {
            space_is_inside(text, index + 1, depth);
        }
    }
}

/// What a constructor is applied to is shorter than the application.
pub proof fn payload_is_shorter(text: Seq<char>)
    ensures
        match constructor_application(text) {
            Some((constructor, payload)) => payload.len() < text.len(),
            None => true,
        },
{
    let value = trimmed(without_parentheses(text));
    without_parentheses_is_no_longer(text);
    trimmed_is_no_longer(without_parentheses(text));
    space_is_inside(value, 0, 0);
    match top_space_from(value, 0, 0) {
        Some(split) => {
            let back = value.skip(split);
            trimmed_is_no_longer(back.skip(1));
        },
        None => {},
    }
}

} // verus!
