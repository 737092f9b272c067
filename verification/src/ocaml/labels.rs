//! How OCaml functions and calls are named and shown.
use crate::digest::{short_digest, short_digest_text};
use crate::model::{
    key_fragment, visible_syntax, CallLabel, CallSite, CallSyntax, FunctionInfo, FunctionModel,
    LabelModel, LanguageId, SiteModel, SymbolId, SymbolModel, SyntaxModel,
};
use crate::ocaml::bindings::{normalize_ocaml_callable_argument, plain_argument};
use crate::ocaml::patterns::{is_closing, is_opening};
use crate::ocaml::words::{closes, depth_after, opens, quote_after, read_quoted, unquoted, Quote};
use crate::text::{
    all_digits, chars_of, concat_texts, copy_texts, decimal, decimal_text, is_digit, is_space,
    is_white_space, join_texts, joined, optional, pieces, rsplit_once, rsplit_text_once, same_text,
    slice_text, split_once, split_text, split_text_once, starts_with, starts_with_text,
    strip_prefix, strip_prefix_text, texts, trim_text, trimmed,
};
use vstd::prelude::*;

verus! {

/// The words of a text, where the word that is being read began at `start` and
/// reading is at `index`.
pub open spec fn words_from(text: Seq<char>, start: Option<int>, index: int) -> Seq<Seq<char>>
    decreases text.len() - index,
{
    if index < 0 || index >= text.len() {
        match start {
            Some(start) => seq![text.skip(start)],
            None => Seq::empty(),
        }
    } else if is_space(text[index]) {
        match start {
            Some(start) => seq![text.subrange(start, index)] + words_from(text, None, index + 1),
            None => words_from(text, None, index + 1),
        }
    } else {
        words_from(
            text,
            match start {
                Some(start) => Some(start),
                None => Some(index),
            },
            index + 1,
        )
    }
}

/// The words of a text: what stands between stretches of white space.
pub open spec fn words(text: Seq<char>) -> Seq<Seq<char>> {
    words_from(text, None, 0)
}

/// The model of an optional place in a text.
pub open spec fn optional_index(place: Option<usize>) -> Option<int> {
    match place {
        Some(place) => Some(place as int),
        None => None,
    }
}

/// The words of a text.
pub fn split_words(text: &str) -> (result: Vec<String>)
    ensures
        texts(result@) == words(text@),
{
    let characters = chars_of(text);
    let length: usize = characters.len();
    let mut result: Vec<String> = Vec::new();
    let mut start: Option<usize> = None;
    let mut index: usize = 0;
    let ghost whole = words(text@);
    proof {
        assert(texts(result@) + whole =~= whole);
    }
    while index < length
        invariant
            index <= length,
            length == characters@.len(),
            characters@ == text@,
            match start {
                Some(place) => place <= index,
                None => true,
            },
            texts(result@) + words_from(text@, optional_index(start), index as int) == whole,
        decreases length - index,
    {
        if is_white_space(characters[index]) {
            match start {
                Some(place) => {
                    let ghost before = texts(result@);
                    let word = slice_text(characters.as_slice(), place, index);
                    let ghost model = word@;
                    result.push(word);
                    proof {
                        let rest = words_from(text@, None, index + 1);
                        assert(texts(result@) =~= before.push(model));
                        assert(before + (seq![model] + rest) =~= before.push(model) + rest);
                    }
                },
                None => {},
            }
            start = None;
        } else {
            match start {
                Some(place) => {},
                None => {
                    start = Some(index);
                },
            }
        }
        index += 1;
    }
    match start {
        Some(place) => {
            let ghost before = texts(result@);
            let word = slice_text(characters.as_slice(), place, length);
            let ghost model = word@;
            result.push(word);
            proof {
                assert(model =~= text@.skip(place as int));
                assert(texts(result@) =~= before.push(model));
                assert(before + seq![model] =~= before.push(model));
            }
        },
        None => {
            proof {
                assert(texts(result@) + Seq::<Seq<char>>::empty() =~= texts(result@));
            }
        },
    }
    result
}

/// The arguments in a text, where the argument that is being read began at
/// `start` and reading is at `index`.
pub open spec fn arguments_from(
    text: Seq<char>,
    start: Option<int>,
    index: int,
    depth: nat,
    quote: Quote,
) -> Seq<Seq<char>>
    decreases text.len() - index,
{
    if index < 0 || index >= text.len() {
        match start {
            Some(start) => seq![text.skip(start)],
            None => Seq::empty(),
        }
    } else {
        let character = text[index];
        let begun = match start {
            Some(start) => Some(start),
            None => Some(index),
        };
        if quote.in_string {
            arguments_from(text, start, index + 1, depth, quote_after(quote, character))
        } else if character == '"' {
            arguments_from(
                text,
                begun,
                index + 1,
                depth,
                Quote { in_string: true, escaped: quote.escaped },
            )
        } else if opens(character) {
            arguments_from(text, begun, index + 1, depth + 1, quote)
        } else if closes(character) {
            arguments_from(text, start, index + 1, depth_after(depth, character), quote)
        } else if is_space(character) && depth == 0 {
            match start {
                Some(start) => seq![text.subrange(start, index)] + arguments_from(
                    text,
                    None,
                    index + 1,
                    depth,
                    quote,
                ),
                None => arguments_from(text, None, index + 1, depth, quote),
            }
        } else {
            arguments_from(text, begun, index + 1, depth, quote)
        }
    }
}

/// The arguments in a text: what stands between stretches of white space
/// outside of groups and strings.
pub open spec fn arguments(text: Seq<char>) -> Seq<Seq<char>> {
    arguments_from(text, None, 0, 0, unquoted())
}

/// The arguments in a text.
#[verifier::rlimit(30)]
pub fn split_ocaml_arguments(text: &str) -> (result: Vec<String>)
    ensures
        texts(result@) == arguments(text@),
{
    let characters = chars_of(text);
    let length: usize = characters.len();
    let mut result: Vec<String> = Vec::new();
    let mut start: Option<usize> = None;
    let mut depth: usize = 0;
    let mut quote = Quote { in_string: false, escaped: false };
    let mut index: usize = 0;
    let ghost whole = arguments(text@);
    proof {
        assert(texts(result@) + whole =~= whole);
    }
    while index < length
        invariant
            index <= length,
            length == characters@.len(),
            characters@ == text@,
            depth <= index,
            match start {
                Some(place) => place <= index,
                None => true,
            },
            texts(result@) + arguments_from(
                text@,
                optional_index(start),
                index as int,
                depth as nat,
                quote,
            ) == whole,
        decreases length - index,
    {
        let character: char = characters[index];
        let begun: Option<usize> = match start {
            Some(place) => Some(place),
            None => Some(index),
        };
        if quote.in_string {
            quote = read_quoted(quote, character);
        } else if character == '"' {
            quote = Quote { in_string: true, escaped: quote.escaped };
            start = begun;
        } else if is_opening(character) {
            depth += 1;
            start = begun;
        } else if is_closing(character) {
            if depth > 0 {
                depth -= 1;
            }
        } else if is_white_space(character) && depth == 0 {
            match start {
                Some(place) => {
                    let ghost before = texts(result@);
                    let argument = slice_text(characters.as_slice(), place, index);
                    let ghost model = argument@;
                    result.push(argument);
                    proof {
                        let rest = arguments_from(text@, None, index + 1, depth as nat, quote);
                        assert(texts(result@) =~= before.push(model));
                        assert(before + (seq![model] + rest) =~= before.push(model) + rest);
                    }
                },
                None => {},
            }
            start = None;
        } else {
            start = begun;
        }
        index += 1;
    }
    match start {
        Some(place) => {
            let ghost before = texts(result@);
            let argument = slice_text(characters.as_slice(), place, length);
            let ghost model = argument@;
            result.push(argument);
            proof {
                assert(model =~= text@.skip(place as int));
                assert(texts(result@) =~= before.push(model));
                assert(before + seq![model] =~= before.push(model));
            }
        },
        None => {
            proof {
                assert(texts(result@) + Seq::<Seq<char>>::empty() =~= texts(result@));
            }
        },
    }
    result
}

/// The types between the arrows of a function type outside of groups, where
/// the type that is being read began at `start` and reading is at `index`.
pub open spec fn arrow_pieces_from(text: Seq<char>, start: int, index: int, depth: nat) -> Seq<
    Seq<char>,
>
    decreases text.len() - index,
{
    if index < 0 || index + 1 >= text.len() {
        seq![trimmed(text.skip(start))]
    } else if opens(text[index]) || closes(text[index]) {
        arrow_pieces_from(text, start, index + 1, depth_after(depth, text[index]))
    } else if text[index] == '-' && text[index + 1] == '>' && depth == 0 {
        seq![trimmed(text.subrange(start, index))] + arrow_pieces_from(
            text,
            index + 2,
            index + 2,
            depth,
        )
    } else {
        arrow_pieces_from(text, start, index + 1, depth)
    }
}

/// The types of the parameters of a function type, and that of its result.
pub open spec fn function_types(signature: Seq<char>) -> Seq<Seq<char>> {
    arrow_pieces_from(signature, 0, 0, 0)
}

/// The types of the parameters of a function type, and that of its result.
pub fn split_ocaml_function_type(signature: &str) -> (result: Vec<String>)
    ensures
        texts(result@) == function_types(signature@),
        result@.len() > 0,
{
    let characters = chars_of(signature);
    let length: usize = characters.len();
    let mut result: Vec<String> = Vec::new();
    let mut start: usize = 0;
    let mut depth: usize = 0;
    let mut index: usize = 0;
    let ghost whole = function_types(signature@);
    proof {
        assert(texts(result@) + whole =~= whole);
    }
    while index < length && length - index > 1
        invariant
            start <= index <= length,
            length == characters@.len(),
            characters@ == signature@,
            depth <= index,
            texts(result@) + arrow_pieces_from(
                signature@,
                start as int,
                index as int,
                depth as nat,
            ) == whole,
        decreases length - index,
    {
        let character: char = characters[index];
        if is_opening(character) {
            depth += 1;
            index += 1;
        } else if is_closing(character) {
            if depth > 0 {
                depth -= 1;
            }
            index += 1;
        } else if character == '-' && characters[index + 1] == '>' && depth == 0 {
            let ghost before = texts(result@);
            let piece = trim_text(slice_text(characters.as_slice(), start, index).as_str());
            let ghost model = piece@;
            result.push(piece);
            proof {
                let rest = arrow_pieces_from(signature@, index + 2, index + 2, depth as nat);
                assert(texts(result@) =~= before.push(model));
                assert(before + (seq![model] + rest) =~= before.push(model) + rest);
            }
            start = index + 2;
            index += 2;
        } else {
            index += 1;
        }
    }
    let ghost before = texts(result@);
    let last = slice_text(characters.as_slice(), start, length);
    proof {
        assert(last@ =~= signature@.skip(start as int));
    }
    let piece = trim_text(last.as_str());
    let ghost model = piece@;
    result.push(piece);
    proof {
        assert(texts(result@) =~= before.push(model));
        assert(before + seq![model] =~= before.push(model));
    }
    result
}

/// A name without a number behind a mark.
pub open spec fn without_number(name: Seq<char>, marker: Seq<char>) -> Seq<char> {
    match rsplit_once(name, marker) {
        Some((base, suffix)) => if all_digits(suffix) {
            base
        } else {
            name
        },
        None => name,
    }
}

/// The name that a function has in the source.
pub open spec fn source_name(name: Seq<char>) -> Seq<char> {
    let plain = match split_once(name, "#ctx["@) {
        Some((before, after)) => before,
        None => name,
    };
    without_number(without_number(plain, "#closure"@), "#binding"@)
}

fn strip_ocaml_numeric_suffix(name: &str, marker: &str) -> (result: String)
    ensures
        result@ == without_number(name@, marker@),
{
    match rsplit_text_once(name, marker) {
        Some((base, suffix)) => {
            let characters = chars_of(suffix.as_str());
            let mut index: usize = 0;
            while index < characters.len()
                invariant
                    index <= characters@.len(),
                    characters@ == suffix@,
                    rsplit_once(name@, marker@) == Some((base@, suffix@)),
                    forall|k: int| 0 <= k < index ==> is_digit(#[trigger] suffix@[k]),
                decreases characters@.len() - index,
            {
                let character: char = characters[index];
                if !('0' <= character && character <= '9') {
                    proof {
                        assert(!is_digit(suffix@[index as int]));
                    }
                    return name.to_owned();
                }
                index += 1;
            }
            base
        },
        None => name.to_owned(),
    }
}

/// The name that a function has in the source.
pub fn ocaml_source_name(name: &str) -> (result: String)
    ensures
        result@ == source_name(name@),
{
    let plain = match split_text_once(name, "#ctx[") {
        Some((before, _)) => before,
        None => name.to_owned(),
    };
    let without = strip_ocaml_numeric_suffix(plain.as_str(), "#closure");
    strip_ocaml_numeric_suffix(without.as_str(), "#binding")
}

/// The name that stands for an anonymous function: a digest of its text.
pub open spec fn lambda_name(expression: Seq<char>) -> Seq<char> {
    "{lambda:"@ + short_digest(joined(words(expression), " "@)) + "}"@
}

/// The name that stands for an anonymous function.
pub fn anonymous_callable_identity(expression: &str) -> (result: String)
    ensures
        result@ == lambda_name(expression@),
{
    let text = join_texts(&split_words(expression), " ");
    let mut result = concat_texts("{lambda:", short_digest_text(text.as_str()).as_str());
    result.append("}");
    result
}

/// The name that stands for an expression, if that is an anonymous function.
pub open spec fn lambda_of(expression: Seq<char>) -> Option<Seq<char>> {
    let plain = plain_argument(expression);
    if starts_with(plain, "fun "@) || plain == "fun"@ || starts_with(plain, "function"@) {
        Some(lambda_name(plain))
    } else {
        None
    }
}

/// The name that stands for an expression, if that is an anonymous function.
pub fn anonymous_callable_base(expression: &str) -> (result: Option<String>)
    ensures
        optional(result) == lambda_of(expression@),
{
    let plain = normalize_ocaml_callable_argument(expression);
    if starts_with_text(plain.as_str(), "fun ") || same_text(plain.as_str(), "fun")
        || starts_with_text(plain.as_str(), "function") {
        Some(anonymous_callable_identity(plain.as_str()))
    } else {
        None
    }
}

/// The callee of a call, as it is written.
pub open spec fn callee_text(syntax: SyntaxModel) -> Seq<char> {
    match visible_syntax(syntax) {
        SyntaxModel::Path(parts) => joined(parts, "."@),
        SyntaxModel::SelfMethod(method) => method,
        SyntaxModel::Method { receiver, method } => receiver + "#"@ + method,
        SyntaxModel::Expression(expression) => expression,
        SyntaxModel::CompilerConfirmed(inner) => key_fragment(*inner),
    }
}

fn text_of_callee(syntax: &CallSyntax) -> (result: String)
    ensures
        result@ == callee_text(syntax@),
{
    match syntax.visible() {
        CallSyntax::Path(parts) => join_texts(parts, "."),
        CallSyntax::SelfMethod(method) => method.clone(),
        CallSyntax::Method { receiver, method } => {
            let mut result = concat_texts(receiver.as_str(), "#");
            result.append(method.as_str());
            result
        },
        CallSyntax::Expression(expression) => expression.clone(),
        CallSyntax::CompilerConfirmed(inner) => inner.key_fragment(),
    }
}

/// The arguments of a call, as they are written.
pub open spec fn call_arguments(call: SiteModel) -> Seq<Seq<char>> {
    let label = call.label.default;
    arguments(
        trimmed(
            match strip_prefix(label, callee_text(call.syntax)) {
                Some(rest) => rest,
                None => label,
            },
        ),
    )
}

/// The arguments of a call, as they are written.
pub fn ocaml_call_arguments(call: &CallSite) -> (result: Vec<String>)
    ensures
        texts(result@) == call_arguments(call@),
{
    let callee = text_of_callee(&call.syntax);
    let remainder = match strip_prefix_text(call.label.default.as_str(), callee.as_str()) {
        Some(rest) => rest,
        None => call.label.default.clone(),
    };
    split_ocaml_arguments(trim_text(remainder.as_str()).as_str())
}

/// A type without the label of its parameter.
pub open spec fn unlabeled_type(ty: Seq<char>) -> Seq<char> {
    trimmed(
        match split_once(ty, ":"@) {
            Some((before, after)) => after,
            None => ty,
        },
    )
}

/// Arguments with their types.
pub open spec fn typed_arguments(values: Seq<Seq<char>>, types: Seq<Seq<char>>) -> Seq<Seq<char>> {
    Seq::new(
        values.len(),
        |index: int| "("@ + values[index] + ": "@ + unlabeled_type(types[index]) + ")"@,
    )
}

/// A label with the types of the arguments, as far as the signature of what is
/// called gives them.
pub open spec fn annotated(label: Seq<char>, call: SiteModel, signature: Seq<char>) -> Seq<char> {
    let values = call_arguments(call);
    let all = function_types(signature);
    let types = all.drop_last();
    if values.len() == 0 || all.len() <= 1 || types.len() < values.len() {
        label
    } else {
        callee_text(call.syntax) + " "@ + joined(
            typed_arguments(values, types.skip(types.len() - values.len())),
            " "@,
        )
    }
}

/// A label with the types of the arguments.
pub fn annotate_ocaml_call(label: &str, call: &CallSite, signature: &str) -> (result: String)
    ensures
        result@ == annotated(label@, call@, signature@),
{
    let values = ocaml_call_arguments(call);
    let types = split_ocaml_function_type(signature);
    proof {
        assert(texts(values@).len() == values@.len());
        assert(texts(types@).len() == types@.len());
    }
    if values.len() == 0 || types.len() <= 1 || types.len() - 1 < values.len() {
        return label.to_owned();
    }
    let total: usize = types.len();
    let skipped: usize = total - 1 - values.len();
    let ghost wanted = typed_arguments(
        texts(values@),
        texts(types@).drop_last().skip(skipped as int),
    );
    let mut parts: Vec<String> = Vec::new();
    let mut index: usize = 0;
    while index < values.len()
        invariant
            index <= values@.len(),
            skipped + values@.len() + 1 == total,
            total == types@.len(),
            parts@.len() == index,
            wanted == typed_arguments(
                texts(values@),
                texts(types@).drop_last().skip(skipped as int),
            ),
            forall|k: int| 0 <= k < index ==> (#[trigger] parts@[k])@ == wanted[k],
        decreases values@.len() - index,
    {
        let ty = types[skipped + index].as_str();
        proof {
            assert(texts(values@)[index as int] == values@[index as int]@);
            assert(texts(types@).drop_last().skip(skipped as int)[index as int] == ty@);
        }
        let plain = match split_text_once(ty, ":") {
            Some((_, after)) => after,
            None => ty.to_owned(),
        };
        let mut part = concat_texts("(", values[index].as_str());
        part.append(": ");
        part.append(trim_text(plain.as_str()).as_str());
        part.append(")");
        parts.push(part);
        index += 1;
    }
    proof {
        assert(texts(parts@) =~= wanted);
    }
    let mut result = text_of_callee(&call.syntax);
    result.append(" ");
    result.append(join_texts(&parts, " ").as_str());
    result
}

/// The first word of a text.
pub open spec fn first_word(text: Seq<char>) -> Option<Seq<char>> {
    if words(text).len() > 0 {
        Some(words(text)[0])
    } else {
        None
    }
}

/// The first word of a text.
pub fn find_first_word(text: &str) -> (result: Option<String>)
    ensures
        optional(result) == first_word(text@),
{
    let all = split_words(text);
    proof {
        assert(texts(all@).len() == all@.len());
    }
    if all.len() > 0 {
        proof {
            assert(texts(all@)[0] == all@[0]@);
        }
        Some(all[0].clone())
    } else {
        None
    }
}

/// A name behind the path of its module.
pub open spec fn qualified(module: Seq<Seq<char>>, name: Seq<char>) -> Seq<char> {
    joined(module.push(name), "."@)
}

/// A name behind the path of its module.
pub fn qualify(module: &Vec<String>, name: &str) -> (result: String)
    ensures
        result@ == qualified(texts(module@), name@),
{
    let mut parts = copy_texts(module);
    let ghost before = texts(parts@);
    let last = name.to_owned();
    parts.push(last);
    proof {
        assert(texts(parts@) =~= before.push(name@));
    }
    join_texts(&parts, ".")
}

/// A name with arguments behind it.
pub open spec fn applied(name: Seq<char>, values: Seq<Seq<char>>) -> Seq<char> {
    if values.len() == 0 {
        name
    } else {
        name + " "@ + joined(values, " "@)
    }
}

/// A name with arguments behind it.
pub fn apply_name(name: &str, values: &Vec<String>) -> (result: String)
    ensures
        result@ == applied(name@, texts(values@)),
{
    proof {
        assert(texts(values@).len() == values@.len());
    }
    let mut result = name.to_owned();
    if values.len() > 0 {
        result.append(" ");
        result.append(join_texts(values, " ").as_str());
    }
    result
}

/// Whether a function is anonymous.
pub open spec fn is_anonymous(function: FunctionModel) -> bool {
    starts_with(source_name(function.id.name), "{lambda:"@)
}

/// How a function is shown where a call reaches it.
pub open spec fn candidate_label(function: FunctionModel, values: Seq<Seq<char>>) -> Seq<char> {
    let name = if is_anonymous(function) {
        match first_word(function.label.default) {
            Some(word) => word,
            None => "λ"@,
        }
    } else {
        source_name(function.id.name)
    };
    let shown = if function.id.container is None && function.id.module.len() > 0 {
        qualified(function.id.module, name)
    } else {
        name
    };
    let label = applied(shown, values);
    match rsplit_once(function.id.name, "#closure"@) {
        Some((before, ordinal)) => if is_anonymous(function) {
            label
        } else {
            label + " [closure#"@ + ordinal + "]"@
        },
        None => label,
    }
}

/// How a function is shown where a call reaches it.
pub fn ocaml_candidate_call_label(function: &FunctionInfo, values: &Vec<String>) -> (result: String)
    ensures
        result@ == candidate_label(function@, texts(values@)),
{
    let plain = ocaml_source_name(function.id.name.as_str());
    let anonymous = starts_with_text(plain.as_str(), "{lambda:");
    let name = if anonymous {
        match find_first_word(function.label.default.as_str()) {
            Some(word) => word,
            None => "λ".to_owned(),
        }
    } else {
        plain
    };
    proof {
        assert(function@.id.module.len() == function.id.module@.len());
    }
    let shown = if function.id.container.is_none() && function.id.module.len() > 0 {
        qualify(&function.id.module, name.as_str())
    } else {
        name
    };
    let mut label = apply_name(shown.as_str(), values);
    if !anonymous {
        match rsplit_text_once(function.id.name.as_str(), "#closure") {
            Some((_, ordinal)) => {
                label.append(" [closure#");
                label.append(ordinal.as_str());
                label.append("]");
            },
            None => {},
        }
    }
    label
}

/// From the first white space on.
pub open spec fn tail_from(text: Seq<char>, index: int) -> Seq<char>
    decreases text.len() - index,
{
    if index < 0 || index >= text.len() {
        Seq::empty()
    } else if is_space(text[index]) {
        text.skip(index)
    } else {
        tail_from(text, index + 1)
    }
}

/// The label of a local function: its name, its arguments and its number.
pub open spec fn local_label(text: Seq<char>, name: Seq<char>, ordinal: nat) -> Seq<char> {
    name + tail_from(text, 0) + " [closure#"@ + decimal(ordinal) + "]"@
}

fn rewrite_label(text: &str, name: &str, ordinal: usize) -> (result: String)
    ensures
        result@ == local_label(text@, name@, ordinal as nat),
{
    let characters = chars_of(text);
    let length: usize = characters.len();
    let mut index: usize = 0;
    while index < length && !is_white_space(characters[index])
        invariant
            index <= length,
            length == characters@.len(),
            characters@ == text@,
            tail_from(text@, index as int) == tail_from(text@, 0),
        decreases length - index,
    {
        index += 1;
    }
    let tail = slice_text(characters.as_slice(), index, length);
    proof {
        if index < length {
            assert(tail@ =~= text@.skip(index as int));
        } else {
            assert(tail@ =~= Seq::empty());
        }
    }
    let mut result = concat_texts(name, tail.as_str());
    result.append(" [closure#");
    result.append(decimal_text(ordinal).as_str());
    result.append("]");
    result
}

/// The label of a local function.
pub fn local_callable_label(label: &CallLabel, name: &str, ordinal: usize) -> (result: CallLabel)
    ensures
        result@ == (LabelModel {
            default: local_label(label@.default, name@, ordinal as nat),
            typed: match label@.typed {
                Some(typed) => Some(local_label(typed, name@, ordinal as nat)),
                None => None,
            },
        }),
{
    CallLabel {
        default: rewrite_label(label.default.as_str(), name, ordinal),
        typed: match &label.typed {
            Some(typed) => Some(rewrite_label(typed.as_str(), name, ordinal)),
            None => None,
        },
    }
}

/// A text without any number of times a prefix.
pub open spec fn without_prefixes(text: Seq<char>, prefix: Seq<char>) -> Seq<char>
    decreases text.len(),
{
    if prefix.len() > 0 && starts_with(text, prefix) {
        without_prefixes(text.skip(prefix.len() as int), prefix)
    } else {
        text
    }
}

/// What stands behind the last double underscore.
pub open spec fn after_underscores(text: Seq<char>) -> Seq<char> {
    match rsplit_once(text, "__"@) {
        Some((before, after)) => after,
        None => text,
    }
}

/// The parts of a compiler's path among the first `count` texts.
pub open spec fn compiler_parts(parts: Seq<Seq<char>>, count: int) -> Seq<Seq<char>>
    decreases count,
{
    if count <= 0 {
        Seq::empty()
    } else {
        let before = compiler_parts(parts, count - 1);
        if parts[count - 1].len() > 0 {
            before.push(after_underscores(parts[count - 1]))
        } else {
            before
        }
    }
}

/// The symbol that a compiler's path names.
pub open spec fn path_symbol(path: Seq<char>) -> SymbolModel {
    let all = pieces(without_prefixes(path, "global "@), "."@);
    let parts = compiler_parts(all, all.len() as int);
    SymbolModel {
        language: "ocaml"@,
        module: if parts.len() > 0 {
            parts.drop_last()
        } else {
            parts
        },
        container: None,
        name: if parts.len() > 0 {
            parts.last()
        } else {
            path
        },
    }
}

/// The symbol that a compiler's path names.
pub fn ocaml_path_symbol(path: &str) -> (result: SymbolId)
    ensures
        result@ == path_symbol(path@),
{
    let mut rest = path.to_owned();
    proof {
        reveal_strlit("global ");
        reveal_strlit(".");
    }
    loop
        invariant
            without_prefixes(path@, "global "@) == without_prefixes(rest@, "global "@),
            "global "@.len() == 7,
        ensures
            rest@ == without_prefixes(path@, "global "@),
        decreases rest@.len(),
    {
        match strip_prefix_text(rest.as_str(), "global ") {
            Some(shorter) => {
                rest = shorter;
            },
            None => {
                break;
            },
        }
    }
    let all = split_text(rest.as_str(), ".");
    let mut parts: Vec<String> = Vec::new();
    let mut index: usize = 0;
    proof {
        assert(texts(parts@) =~= Seq::empty());
        assert(texts(all@).len() == all@.len());
    }
    while index < all.len()
        invariant
            index <= all@.len(),
            texts(parts@) == compiler_parts(texts(all@), index as int),
        decreases all@.len() - index,
    {
        let ghost before = texts(parts@);
        proof {
            assert(texts(all@)[index as int] == all@[index as int]@);
        }
        if chars_of(all[index].as_str()).len() > 0 {
            let part = match rsplit_text_once(all[index].as_str(), "__") {
                Some((_, after)) => after,
                None => all[index].clone(),
            };
            let ghost model = part@;
            parts.push(part);
            proof {
                assert(texts(parts@) =~= before.push(model));
            }
        }
        index += 1;
    }
    let ghost found = texts(parts@);
    proof {
        assert(found.len() == parts@.len());
    }
    let name = match parts.pop() {
        Some(name) => name,
        None => path.to_owned(),
    };
    proof {
        if found.len() > 0 {
            assert(texts(parts@) =~= found.drop_last());
            assert(found.last() == name@);
        } else {
            assert(texts(parts@) =~= found);
        }
    }
    SymbolId { language: LanguageId::new("ocaml"), module: parts, container: None, name }
}

/// A character in upper case, which can be more than one character.
pub uninterp spec fn upper_case(character: char) -> Seq<char>;

/// `char::to_uppercase` maps a character to upper case by the Unicode data.
/// Of the ASCII characters, only the letters `a` to `z` change.
#[verifier::external_body]
fn to_upper_case(character: char) -> (result: String)
    ensures
        result@ == upper_case(character),
        (character as u32) < 128 ==> result@ == seq![
            if 'a' <= character <= 'z' {
                ((character as u32 - 32) as u32) as char
            } else {
                character
            },
        ],
{
    character.to_uppercase().collect()
}

/// The name of the module that a file is.
pub open spec fn module_name(value: Seq<char>) -> Seq<char> {
    if value.len() == 0 {
        value
    } else {
        upper_case(value[0]) + value.skip(1)
    }
}

/// The name of the module that a file is.
pub fn ocaml_module_name(value: &str) -> (result: String)
    ensures
        result@ == module_name(value@),
{
    let characters = chars_of(value);
    let length: usize = characters.len();
    if length == 0 {
        return value.to_owned();
    }
    let rest = slice_text(characters.as_slice(), 1, length);
    proof {
        assert(rest@ =~= value@.skip(1));
    }
    concat_texts(to_upper_case(characters[0]).as_str(), rest.as_str())
}

} // verus!
