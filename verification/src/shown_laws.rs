//! What labels show: the callee, and each of its arguments or parameters.
use crate::model::SymbolModel;
use crate::ocaml::declarations::function_label;
use crate::ocaml::expressions::{path_label, plain_text};
use crate::ocaml::extract::{default_label, parameter_labels};
use crate::ocaml::syntax::RowModel;
use crate::rust::extract::{
    applied, call_text, closure_arguments, is_simple, method_text, value_arguments,
};
use crate::rust::items::{RustCallModel, RustExprModel, RustMethodCallModel};
use crate::rust::lambdas::{compact_expression, expression_source, lambda_name, SourceModel};
use crate::rust::markers::with_generics;
use crate::text::joined;
use vstd::prelude::*;

verus! {

/// Whether a text stands somewhere in another.
pub open spec fn shows(text: Seq<char>, part: Seq<char>) -> bool {
    exists|at: int| 0 <= at && at + part.len() <= text.len() && #[trigger] text.subrange(
        at,
        at + part.len(),
    ) == part
}

/// What a part of a text shows, the text shows.
pub proof fn shown_within(front: Seq<char>, middle: Seq<char>, back: Seq<char>, part: Seq<char>)
    requires
        shows(middle, part),
    ensures
        shows(front + middle + back, part),
{
    let at = choose|at: int|
        0 <= at && at + part.len() <= middle.len() && #[trigger] middle.subrange(
            at,
            at + part.len(),
        ) == part;
    let whole = front + middle + back;
    let place = front.len() + at;
    assert(whole.subrange(place, place + part.len()) =~= middle.subrange(at, at + part.len()));
}

/// A text shows itself.
pub proof fn texts_show_themselves(text: Seq<char>)
    ensures
        shows(text, text),
{
    assert(text.subrange(0, 0 + text.len() as int) =~= text);
}

/// Joined texts show each of them.
pub proof fn joined_texts_are_shown(parts: Seq<Seq<char>>, separator: Seq<char>, at: int)
    requires
        0 <= at < parts.len(),
    ensures
        shows(joined(parts, separator), parts[at]),
    decreases parts.len(),
{
    let whole = joined(parts, separator);
    let none = Seq::<char>::empty();
    texts_show_themselves(parts[at]);
    if parts.len() > 1 {
        let front = joined(parts.drop_last(), separator);
        if at < parts.len() - 1 {
            joined_texts_are_shown(parts.drop_last(), separator, at);
            shown_within(none, front, separator + parts.last(), parts[at]);
            assert(none + front + (separator + parts.last()) =~= whole);
        } else {
            shown_within(front + separator, parts.last(), none, parts[at]);
            assert(front + separator + parts.last() + none =~= whole);
        }
    }
}

/// What a label shows of an argument: all of it, unless it is too long.
pub open spec fn shown_argument(expression: RustExprModel, sources: Seq<SourceModel>) -> Seq<char> {
    if compact_expression(expression, sources).len() <= 96 {
        compact_expression(expression, sources)
    } else {
        seq!['…']
    }
}

proof fn values_are_listed(
    arguments: Seq<RustExprModel>,
    sources: Seq<SourceModel>,
    count: int,
    at: int,
) -> (place: int)
    requires
        0 <= at < count <= arguments.len(),
        expression_source(arguments[at], sources) is None,
    ensures
        0 <= place < value_arguments(arguments, sources, count).len(),
        value_arguments(arguments, sources, count)[place] == shown_argument(
            arguments[at],
            sources,
        ),
    decreases count,
{
    let before = value_arguments(arguments, sources, count - 1);
    if at < count - 1 {
        values_are_listed(arguments, sources, count - 1, at)
    } else {
        reveal_strlit("…");
        assert("…"@ =~= seq!['…']);
        before.len() as int
    }
}

proof fn closures_are_listed(
    arguments: Seq<RustExprModel>,
    sources: Seq<SourceModel>,
    count: int,
    at: int,
) -> (place: int)
    requires
        0 <= at < count <= arguments.len(),
        expression_source(arguments[at], sources) is Some,
    ensures
        0 <= place < closure_arguments(arguments, sources, count).len(),
        closure_arguments(arguments, sources, count)[place] == lambda_name(
            expression_source(arguments[at], sources)->0,
        ),
    decreases count,
{
    let before = closure_arguments(arguments, sources, count - 1);
    if at < count - 1 {
        closures_are_listed(arguments, sources, count - 1, at)
    } else {
        before.len() as int
    }
}

proof fn additions_are_shown(callee: Seq<char>, additions: Seq<Seq<char>>, part: Seq<char>)
    requires
        additions.len() > 0,
        shows(joined(additions, ", "@), part),
    ensures
        shows(with_generics(callee, additions), part),
{
    let middle = joined(additions, ", "@);
    match crate::rust::markers::generics_start(callee) {
        None => {
            shown_within(callee + "<"@, middle, ">"@, part);
        },
        Some(start) => {
            let existing = callee.subrange(start + 1, callee.len() - 1);
            let separator = if existing.len() == 0 {
                ""@
            } else {
                ", "@
            };
            shown_within(
                callee.take(start) + "<"@ + existing + separator,
                middle,
                ">"@,
                part,
            );
        },
    }
}

proof fn applications_show_arguments(
    callee: Seq<char>,
    arguments: Seq<RustExprModel>,
    sources: Seq<SourceModel>,
    at: int,
)
    requires
        0 <= at < arguments.len(),
    ensures
        match expression_source(arguments[at], sources) {
            Some(source) => shows(applied(callee, arguments, sources), lambda_name(source)),
            None => shows(
                applied(callee, arguments, sources),
                shown_argument(arguments[at], sources),
            ),
        },
{
    let count = arguments.len() as int;
    let closures = closure_arguments(arguments, sources, count);
    let values = value_arguments(arguments, sources, count);
    let head = with_generics(callee, closures);
    let list = joined(values, ", "@);
    let whole = applied(callee, arguments, sources);
    let none = Seq::<char>::empty();
    match expression_source(arguments[at], sources) {
        Some(source) => {
            let place = closures_are_listed(arguments, sources, count, at);
            joined_texts_are_shown(closures, ", "@, place);
            additions_are_shown(callee, closures, lambda_name(source));
            shown_within(none, head, "("@ + list + ")"@, lambda_name(source));
            assert(none + head + ("("@ + list + ")"@) =~= whole);
        },
        None => {
            let place = values_are_listed(arguments, sources, count, at);
            joined_texts_are_shown(values, ", "@, place);
            shown_within(head + "("@, list, ")"@, shown_argument(arguments[at], sources));
        },
    }
}

/// The label of a call shows each of its arguments, up to a length, and each
/// closure by its name.
pub proof fn call_labels_show_arguments(call: RustCallModel, sources: Seq<SourceModel>, at: int)
    requires
        0 <= at < call.arguments.len(),
    ensures
        match expression_source(call.arguments[at], sources) {
            Some(source) => shows(call_text(call, sources), lambda_name(source)),
            None => shows(
                call_text(call, sources),
                shown_argument(call.arguments[at], sources),
            ),
        },
{
    applications_show_arguments(
        crate::text::replaced(
            crate::rust::lambdas::compact(call.function.tokens),
            "::<"@,
            "<"@,
        ),
        call.arguments,
        sources,
        at,
    );
}

/// The label of a method call shows each of its arguments, up to a length, and
/// each closure by its name.
pub proof fn method_labels_show_arguments(
    call: RustMethodCallModel,
    sources: Seq<SourceModel>,
    at: int,
)
    requires
        0 <= at < call.arguments.len(),
    ensures
        match expression_source(call.arguments[at], sources) {
            Some(source) => shows(method_text(call, sources), lambda_name(source)),
            None => shows(
                method_text(call, sources),
                shown_argument(call.arguments[at], sources),
            ),
        },
{
    let method = call.method + crate::text::replaced(
        crate::rust::lambdas::compact(call.turbofish),
        "::<"@,
        "<"@,
    );
    let callee = if is_simple(call.receiver.shape) {
        compact_expression(call.receiver, sources) + "."@ + method
    } else {
        method
    };
    applications_show_arguments(callee, call.arguments, sources, at);
}

proof fn no_closures_are_listed(
    arguments: Seq<RustExprModel>,
    sources: Seq<SourceModel>,
    count: int,
)
    requires
        0 <= count <= arguments.len(),
        forall|at: int|
            0 <= at < arguments.len() ==> expression_source(
                #[trigger] arguments[at],
                sources,
            ) is None,
    ensures
        closure_arguments(arguments, sources, count).len() == 0,
        value_arguments(arguments, sources, count).len() == count,
        forall|at: int|
            0 <= at < count ==> #[trigger] value_arguments(arguments, sources, count)[at]
                == shown_argument(arguments[at], sources),
    decreases count,
{
    if count > 0 {
        no_closures_are_listed(arguments, sources, count - 1);
        reveal_strlit("…");
        assert("…"@ =~= seq!['…']);
        assert(expression_source(arguments[count - 1], sources) is None);
    }
}

/// The label of a call without closures is its callee and, in parentheses, its
/// arguments in order.
pub proof fn plain_call_labels_are_read_off(call: RustCallModel, sources: Seq<SourceModel>)
    requires
        forall|at: int|
            0 <= at < call.arguments.len() ==> expression_source(
                #[trigger] call.arguments[at],
                sources,
            ) is None,
    ensures
        call_text(call, sources) == crate::text::replaced(
            crate::rust::lambdas::compact(call.function.tokens),
            seq![':', ':', '<'],
            seq!['<'],
        ) + seq!['('] + joined(
            call.arguments.map_values(
                |argument: RustExprModel| shown_argument(argument, sources),
            ),
            seq![',', ' '],
        ) + seq![')'],
{
    let count = call.arguments.len() as int;
    no_closures_are_listed(call.arguments, sources, count);
    let values = value_arguments(call.arguments, sources, count);
    assert(values =~= call.arguments.map_values(
        |argument: RustExprModel| shown_argument(argument, sources),
    ));
    reveal_strlit("::<");
    reveal_strlit("<");
    reveal_strlit("(");
    reveal_strlit(")");
    reveal_strlit(", ");
    assert("::<"@ =~= seq![':', ':', '<']);
    assert("<"@ =~= seq!['<']);
    assert("("@ =~= seq!['(']);
    assert(")"@ =~= seq![')']);
    assert(", "@ =~= seq![',', ' ']);
}

/// The label of an OCaml function shows its name behind its modules, and each
/// of its parameters.
pub proof fn function_labels_show_parameters(
    rows: Seq<RowModel>,
    id: SymbolModel,
    parameters: Seq<int>,
    at: int,
)
    requires
        0 <= at < parameters.len(),
    ensures
        shows(function_label(rows, id, parameters).default, id.name),
        rows[parameters[at]].kind != "function_expression"@ ==> shows(
            function_label(rows, id, parameters).default,
            default_label(rows, parameters[at]),
        ),
{
    let labels = parameter_labels(rows, parameters);
    let name = joined(id.module.push(id.name), "."@);
    let list = joined(labels, " "@);
    let whole = function_label(rows, id, parameters).default;
    let none = Seq::<char>::empty();
    assert(whole == name + " "@ + list);
    joined_texts_are_shown(id.module.push(id.name), "."@, id.module.len() as int);
    shown_within(none, name, " "@ + list, id.name);
    assert(none + name + (" "@ + list) =~= whole);
    joined_texts_are_shown(labels, " "@, at);
    shown_within(name + " "@, list, none, labels[at]);
    assert(name + " "@ + list + none =~= whole);
}

/// The label of an OCaml call is its text, with the whole path of the callee in
/// place of what is written of it.
pub proof fn path_labels_are_the_source(
    rows: Seq<RowModel>,
    application: int,
    function: int,
    parts: Seq<Seq<char>>,
    values: Seq<char>,
)
    requires
        plain_text(rows, application) == plain_text(rows, function) + values,
    ensures
        path_label(rows, application, function, parts) == joined(parts, seq!['.']) + values,
{
    let whole = plain_text(rows, application);
    let callee = plain_text(rows, function);
    reveal_strlit(".");
    assert("."@ =~= seq!['.']);
    assert(whole.take(callee.len() as int) =~= callee);
    assert(whole.skip(callee.len() as int) =~= values);
    assert(whole.subrange(0, callee.len() as int) =~= callee);
}

} // verus!
