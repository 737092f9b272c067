//! The text of OCaml expressions and patterns.
use crate::text::{
    chars_of, is_space, is_white_space, slice_text, text_of, trim_text, trimmed, trimmed_end,
    trimmed_start,
};
use vstd::prelude::*;

verus! {

/// Trimming does not make a text longer.
pub proof fn trimmed_is_no_longer(text: Seq<char>)
    ensures
        trimmed(text).len() <= text.len(),
        trimmed_start(text).len() <= text.len(),
        trimmed_end(text).len() <= text.len(),
    decreases text.len(),
{
    start_is_no_longer(text);
    end_is_no_longer(trimmed_start(text));
    end_is_no_longer(text);
    start_is_no_longer(trimmed_end(text));
}

proof fn start_is_no_longer(text: Seq<char>)
    ensures
        trimmed_start(text).len() <= text.len(),
    decreases text.len(),
{
    if text.len() > 0 && is_space(text[0]) {
        start_is_no_longer(text.skip(1));
    }
}

proof fn end_is_no_longer(text: Seq<char>)
    ensures
        trimmed_end(text).len() <= text.len(),
    decreases text.len(),
{
    if text.len() > 0 && is_space(text.last()) {
        end_is_no_longer(text.drop_last());
    }
}

/// Where reading is in a text with strings in it.
#[derive(Clone, Copy, Debug, PartialEq, Eq, Structural)]
pub struct Quote {
    pub in_string: bool,
    pub escaped: bool,
}

/// Reading starts outside of strings.
pub open spec fn unquoted() -> Quote {
    Quote { in_string: false, escaped: false }
}

/// Where reading is behind a character within a string.
pub open spec fn quote_after(quote: Quote, character: char) -> Quote {
    if quote.escaped {
        Quote { in_string: true, escaped: false }
    } else if character == '\\' {
        Quote { in_string: true, escaped: true }
    } else if character == '"' {
        unquoted()
    } else {
        quote
    }
}

/// Where reading is behind a character within a string.
pub fn read_quoted(quote: Quote, character: char) -> (result: Quote)
    ensures
        result == quote_after(quote, character),
{
    if quote.escaped {
        Quote { in_string: true, escaped: false }
    } else if character == '\\' {
        Quote { in_string: true, escaped: true }
    } else if character == '"' {
        Quote { in_string: false, escaped: false }
    } else {
        quote
    }
}

/// A text that is being normalized.
#[verifier::ext_equal]
pub struct NormalModel {
    pub output: Seq<char>,
    pub quote: Quote,
    pub pending_space: bool,
}

/// The output with a space, where one is due, and a character.
pub open spec fn spaced(state: NormalModel, character: char) -> Seq<char> {
    if state.pending_space && state.output.len() > 0 {
        state.output.push(' ').push(character)
    } else {
        state.output.push(character)
    }
}

/// A text, normalized up to `count`: white space outside of strings becomes
/// one space.
pub open spec fn normal_to(text: Seq<char>, count: int) -> NormalModel
    decreases count,
{
    if count <= 0 {
        NormalModel { output: Seq::empty(), quote: unquoted(), pending_space: false }
    } else {
        let before = normal_to(text, count - 1);
        let character = text[count - 1];
        if before.quote.in_string {
            NormalModel {
                output: before.output.push(character),
                quote: quote_after(before.quote, character),
                ..before
            }
        } else if character == '"' {
            NormalModel {
                output: spaced(before, character),
                quote: Quote { in_string: true, escaped: before.quote.escaped },
                pending_space: false,
            }
        } else if is_space(character) {
            NormalModel { pending_space: true, ..before }
        } else {
            NormalModel { output: spaced(before, character), pending_space: false, ..before }
        }
    }
}

/// A text with one space for each stretch of white space outside of strings,
/// and none at its ends.
pub open spec fn normal(text: Seq<char>) -> Seq<char> {
    trimmed(normal_to(text, text.len() as int).output)
}

proof fn normal_prefix_is_no_longer(text: Seq<char>, count: int)
    requires
        0 <= count <= text.len(),
    ensures
        normal_to(text, count).output.len() + (if normal_to(text, count).pending_space {
            1int
        } else {
            0int
        }) <= count,
    decreases count,
{
    if count > 0 {
        normal_prefix_is_no_longer(text, count - 1);
    }
}

/// Normalizing does not make a text longer.
pub proof fn normal_is_no_longer(text: Seq<char>)
    ensures
        normal(text).len() <= text.len(),
{
    normal_prefix_is_no_longer(text, text.len() as int);
    trimmed_is_no_longer(normal_to(text, text.len() as int).output);
}

/// Puts one space for each stretch of white space outside of strings.
pub fn normalize_source(source: &str) -> (result: String)
    ensures
        result@ == normal(source@),
{
    let characters = chars_of(source);
    let mut output: Vec<char> = Vec::new();
    let mut quote = Quote { in_string: false, escaped: false };
    let mut pending_space = false;
    let mut index: usize = 0;
    while index < characters.len()
        invariant
            index <= characters@.len(),
            characters@ == source@,
            normal_to(source@, index as int) == (NormalModel {
                output: output@,
                quote,
                pending_space,
            }),
        decreases characters@.len() - index,
    {
        let character: char = characters[index];
        if quote.in_string {
            output.push(character);
            quote = read_quoted(quote, character);
        } else if character == '"' {
            if pending_space && output.len() > 0 {
                output.push(' ');
            }
            pending_space = false;
            quote = Quote { in_string: true, escaped: quote.escaped };
            output.push(character);
        } else if is_white_space(character) {
            pending_space = true;
        } else {
            if pending_space && output.len() > 0 {
                output.push(' ');
            }
            pending_space = false;
            output.push(character);
        }
        index += 1;
    }
    trim_text(text_of(output.as_slice()).as_str())
}

/// Whether a character opens a group.
pub open spec fn opens(character: char) -> bool {
    character == '(' || character == '[' || character == '{'
}

/// Whether a character closes a group.
pub open spec fn closes(character: char) -> bool {
    character == ')' || character == ']' || character == '}'
}

/// The depth of groups behind a character.
pub open spec fn depth_after(depth: nat, character: char) -> nat {
    if opens(character) {
        depth + 1
    } else if closes(character) && depth > 0 {
        (depth - 1) as nat
    } else {
        depth
    }
}

/// Where the group closes that is open at `depth` when reading is at `index`.
pub open spec fn closing_from(text: Seq<char>, index: int, depth: nat, quote: Quote) -> Option<int>
    decreases text.len() - index,
{
    if index < 0 || index >= text.len() {
        None
    } else if quote.in_string {
        closing_from(text, index + 1, depth, quote_after(quote, text[index]))
    } else if text[index] == '"' {
        closing_from(text, index + 1, depth, Quote { in_string: true, escaped: quote.escaped })
    } else if text[index] == '(' {
        closing_from(text, index + 1, depth + 1, quote)
    } else if text[index] == ')' {
        if depth <= 1 {
            Some(index)
        } else {
            closing_from(text, index + 1, (depth - 1) as nat, quote)
        }
    } else {
        closing_from(text, index + 1, depth, quote)
    }
}

/// The group closes within the text.
pub proof fn closing_is_inside(text: Seq<char>, index: int, depth: nat, quote: Quote)
    requires
        0 <= index,
    ensures
        match closing_from(text, index, depth, quote) {
            Some(closing) => index <= closing < text.len(),
            None => true,
        },
    decreases text.len() - index,
{
    if index < text.len() {
        if quote.in_string {
            closing_is_inside(text, index + 1, depth, quote_after(quote, text[index]));
        } else if text[index] == '"' {
            closing_is_inside(
                text,
                index + 1,
                depth,
                Quote { in_string: true, escaped: quote.escaped },
            );
        } else if text[index] == '(' {
            closing_is_inside(text, index + 1, depth + 1, quote);
        } else if text[index] == ')' {
            if depth > 1 {
                closing_is_inside(text, index + 1, (depth - 1) as nat, quote);
            }
        } else {
            closing_is_inside(text, index + 1, depth, quote);
        }
    }
}

/// A text without the parentheses around the whole of it.
pub open spec fn without_parentheses(text: Seq<char>) -> Seq<char>
    decreases text.len(),
{
    let value = trimmed(text);
    if value.len() == 0 || value[0] != '(' {
        value
    } else {
        let inner = value.skip(1);
        match closing_from(inner, 0, 1, unquoted()) {
            Some(closing) if closing + 1 == inner.len() => {
                proof {
                    trimmed_is_no_longer(text);
                    closing_is_inside(inner, 0, 1, unquoted());
                }
                without_parentheses(inner.take(closing))
            },
            _ => value,
        }
    }
}

/// Parentheses are taken off, never put on.
pub proof fn without_parentheses_is_no_longer(text: Seq<char>)
    ensures
        without_parentheses(text).len() <= text.len(),
    decreases text.len(),
{
    let value = trimmed(text);
    trimmed_is_no_longer(text);
    if value.len() > 0 && value[0] == '(' {
        let inner = value.skip(1);
        closing_is_inside(inner, 0, 1, unquoted());
        match closing_from(inner, 0, 1, unquoted()) {
            Some(closing) if closing + 1 == inner.len() => {
                without_parentheses_is_no_longer(inner.take(closing));
            },
            _ => {},
        }
    }
}

fn find_closing(text: &Vec<char>) -> (result: Option<usize>)
    ensures
        match result {
            Some(closing) => closing < text@.len() && closing_from(text@, 0, 1, unquoted())
                == Some(closing as int),
            None => closing_from(text@, 0, 1, unquoted()) is None,
        },
{
    let mut quote = Quote { in_string: false, escaped: false };
    let mut inside: usize = 0;
    let mut index: usize = 0;
    while index < text.len()
        invariant
            index <= text@.len(),
            inside <= index,
            closing_from(text@, index as int, (inside + 1) as nat, quote) == closing_from(
                text@,
                0,
                1,
                unquoted(),
            ),
        decreases text@.len() - index,
    {
        let character: char = text[index];
        if quote.in_string {
            quote = read_quoted(quote, character);
        } else if character == '"' {
            quote = Quote { in_string: true, escaped: quote.escaped };
        } else if character == '(' {
            inside += 1;
        } else if character == ')' {
            if inside == 0 {
                return Some(index);
            }
            inside -= 1;
        }
        index += 1;
    }
    None
}

/// Takes off the parentheses around the whole of a text.
pub fn strip_outer_ocaml_parentheses(text: &str) -> (result: String)
    ensures
        result@ == without_parentheses(text@),
{
    let mut value = trim_text(text);
    proof {
        trimming_twice(text@);
    }
    loop
        invariant
            value@ == trimmed(value@),
            without_parentheses(text@) == without_parentheses(value@),
        decreases value@.len(),
    {
        let characters = chars_of(value.as_str());
        if characters.len() == 0 || characters[0] != '(' {
            return value;
        }
        let length: usize = characters.len();
        let inner = chars_of(slice_text(characters.as_slice(), 1, length).as_str());
        proof {
            assert(inner@ =~= value@.skip(1));
        }
        match find_closing(&inner) {
            Some(closing) => {
                if closing + 1 != inner.len() {
                    return value;
                }
                let group = slice_text(inner.as_slice(), 0, closing);
                proof {
                    assert(group@ =~= value@.skip(1).take(closing as int));
                    trimmed_is_no_longer(group@);
                    trimming_twice(group@);
                }
                value = trim_text(group.as_str());
            },
            None => {
                return value;
            },
        }
    }
}

proof fn start_has_no_space(text: Seq<char>)
    ensures
        trimmed_start(text).len() > 0 ==> !is_space(trimmed_start(text)[0]),
    decreases text.len(),
{
    if text.len() > 0 && is_space(text[0]) {
        start_has_no_space(text.skip(1));
    }
}

proof fn end_keeps_start(text: Seq<char>)
    ensures
        trimmed_end(text).len() > 0 ==> trimmed_end(text)[0] == text[0] && !is_space(
            trimmed_end(text).last(),
        ),
    decreases text.len(),
{
    if text.len() > 0 && is_space(text.last()) {
        end_keeps_start(text.drop_last());
        end_is_no_longer(text.drop_last());
    }
}

proof fn start_keeps_end(text: Seq<char>)
    ensures
        trimmed_start(text).len() > 0 ==> trimmed_start(text).last() == text.last(),
    decreases text.len(),
{
    if text.len() > 0 && is_space(text[0]) {
        start_keeps_end(text.skip(1));
        start_is_no_longer(text.skip(1));
    }
}

/// Trimming a trimmed text changes nothing.
pub proof fn trimming_twice(text: Seq<char>)
    ensures
        trimmed(trimmed(text)) == trimmed(text),
        without_parentheses(trimmed(text)) == without_parentheses(text),
{
    start_has_no_space(text);
    end_keeps_start(trimmed_start(text));
    start_has_no_space(trimmed_end(text));
    start_keeps_end(trimmed_end(text));
    end_keeps_start(text);
}

} // verus!
