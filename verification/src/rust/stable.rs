//! Names of function instances that do not depend on where closures stand in
//! their files.
use crate::digest::{short_digest, short_digest_text};
use crate::lists::views;
use crate::model::{path_models, FileAnalysis, FunctionModel, SiteModel};
use crate::paths::SourcePath;
use crate::rust::labels::{identity_shape, normalize_type_identity_shape};
use crate::rust::markers::{
    closure_marker, compiler_closure_marker, located_closure, located_closure_token,
};
use crate::rust::semantic::{SemanticCallModel, SemanticModel, SemanticProgram};
use crate::sets::{insert_path, with_path};
use crate::text::{
    comes_before, optional, same_text, starts_with, starts_with_text, substitute_text, substituted,
    text_less,
};
use vstd::prelude::*;

verus! {

/// A generic argument of an instance.
#[derive(Debug)]
pub enum GenericArgument {
    /// A type, as rustc prints it, with its definition and its arguments where
    /// it is a closure.
    Type { rendered: String, closure: Option<ClosureType> },
    Other,
}

/// A closure as a type: the name of its definition, and its arguments.
#[derive(Debug)]
pub struct ClosureType {
    pub definition_name: String,
    pub arguments: Vec<GenericArgument>,
}

/// A replacement of a located closure. None where it could mean more than one.
#[derive(Debug)]
pub struct Replacement {
    pub located: String,
    pub marker: Option<String>,
}

impl View for Replacement {
    type V = (Seq<char>, Option<Seq<char>>);

    open spec fn view(&self) -> (Seq<char>, Option<Seq<char>>) {
        (self.located@, optional(self.marker))
    }
}

/// The place from `index` on of a text among replacements in order.
pub open spec fn replacement_place(
    replacements: Seq<(Seq<char>, Option<Seq<char>>)>,
    located: Seq<char>,
    index: int,
) -> int
    decreases replacements.len() - index,
{
    if 0 <= index < replacements.len() && text_less(replacements[index].0, located) {
        replacement_place(replacements, located, index + 1)
    } else {
        index
    }
}

/// The replacements with one more. A text that two markers stand for is not
/// replaced.
pub open spec fn with_replacement(
    replacements: Seq<(Seq<char>, Option<Seq<char>>)>,
    located: Seq<char>,
    marker: Seq<char>,
) -> Seq<(Seq<char>, Option<Seq<char>>)> {
    let place = replacement_place(replacements, located, 0);
    if place < replacements.len() && replacements[place].0 == located {
        if replacements[place].1 == Some(marker) {
            replacements
        } else {
            replacements.update(place, (located, None))
        }
    } else {
        replacements.insert(place, (located, Some(marker)))
    }
}

/// The replacements with the one that a closure asks for.
pub open spec fn with_closure(
    replacements: Seq<(Seq<char>, Option<Seq<char>>)>,
    rendered: Seq<char>,
    definition_name: Seq<char>,
) -> Seq<(Seq<char>, Option<Seq<char>>)> {
    match (located_closure(rendered), closure_marker(definition_name)) {
        (Some(located), Some(marker)) => with_replacement(replacements, located, marker),
        _ => replacements,
    }
}

/// Adds the replacement that a closure asks for.
pub fn record_compiler_closure(
    replacements: &mut Vec<Replacement>,
    rendered: &str,
    definition_name: &str,
)
    ensures
        views(final(replacements)@) == with_closure(
            views(old(replacements)@),
            rendered@,
            definition_name@,
        ),
{
    let ghost start = views(replacements@);
    let located = match located_closure_token(rendered) {
        Some(located) => located,
        None => {
            return ;
        },
    };
    let marker = match compiler_closure_marker(definition_name) {
        Some(marker) => marker,
        None => {
            return ;
        },
    };
    let mut index: usize = 0;
    while index < replacements.len() && comes_before(
        replacements[index].located.as_str(),
        located.as_str(),
    )
        invariant
            index <= replacements@.len(),
            start == views(replacements@),
            replacement_place(start, located@, index as int) == replacement_place(
                start,
                located@,
                0,
            ),
        decreases replacements@.len() - index,
    {
        proof {
            assert(start[index as int] == replacements@[index as int]@);
        }
        index += 1;
    }
    proof {
        assert(start.len() == replacements@.len());
        if index < replacements@.len() {
            assert(start[index as int] == replacements@[index as int]@);
        }
    }
    if index < replacements.len() && same_text(
        replacements[index].located.as_str(),
        located.as_str(),
    ) {
        let same = match &replacements[index].marker {
            Some(current) => same_text(current.as_str(), marker.as_str()),
            None => false,
        };
        if !same {
            let ghost name = located@;
            replacements.set(index, Replacement { located, marker: None });
            proof {
                assert(views(replacements@) =~= start.update(index as int, (name, None)));
            }
        }
        return ;
    }
    let replacement = Replacement { located, marker: Some(marker) };
    let ghost model = replacement@;
    replacements.insert(index, replacement);
    proof {
        assert(views(replacements@) =~= start.insert(index as int, model));
    }
}

/// The closure that an argument is.
pub open spec fn direct_closure(argument: GenericArgument) -> Option<(Seq<char>, ClosureType)> {
    match argument {
        GenericArgument::Type { rendered, closure: Some(closure) } => if starts_with(
            rendered@,
            "{closure@"@,
        ) {
            Some((rendered@, closure))
        } else {
            None
        },
        _ => None,
    }
}

/// The replacements that the first `count` arguments ask for.
pub open spec fn replacements_for(arguments: Seq<GenericArgument>, count: int) -> Seq<
    (Seq<char>, Option<Seq<char>>),
>
    decreases count,
{
    if count <= 0 {
        Seq::empty()
    } else {
        let before = replacements_for(arguments, count - 1);
        match direct_closure(arguments[count - 1]) {
            Some((rendered, closure)) => with_closure(
                before,
                rendered,
                closure.definition_name@,
            ),
            None => before,
        }
    }
}

/// The replacements that the arguments of an instance ask for.
pub fn collect_compiler_closure_replacements(arguments: &Vec<GenericArgument>) -> (result: Vec<Replacement>)
    ensures
        views(result@) == replacements_for(arguments@, arguments@.len() as int),
{
    let mut result: Vec<Replacement> = Vec::new();
    let mut index: usize = 0;
    proof {
        assert(views(result@) =~= Seq::empty());
    }
    while index < arguments.len()
        invariant
            index <= arguments@.len(),
            views(result@) == replacements_for(arguments@, index as int),
        decreases arguments@.len() - index,
    {
        if let GenericArgument::Type { rendered, closure: Some(closure) } = &arguments[index] {
            if starts_with_text(rendered.as_str(), "{closure@") {
                record_compiler_closure(
                    &mut result,
                    rendered.as_str(),
                    closure.definition_name.as_str(),
                );
            }
        }
        index += 1;
    }
    result
}

/// What stands for a closure in the environment of an instance.
pub open spec fn environment_marker(definition_name: Seq<char>) -> Seq<char> {
    match closure_marker(definition_name) {
        Some(marker) => marker,
        None => "{lambda-def:unknown:λclosure}"@,
    }
}

/// The environment that the first `count` arguments of an instance are.
pub open spec fn environment_of(arguments: Seq<GenericArgument>, count: nat) -> Seq<char>
    decreases arguments, count,
{
    if count == 0 || count > arguments.len() {
        "("@
    } else {
        let separator = if count > 1 {
            ","@
        } else {
            ""@
        };
        environment_of(arguments, (count - 1) as nat) + separator + argument_text(
            arguments[count - 1],
        )
    }
}

/// What an argument of an instance is in its environment: a closure with its
/// own environment, or a digest of the shape of a type.
pub open spec fn argument_text(argument: GenericArgument) -> Seq<char>
    decreases argument, 0nat,
{
    match argument {
        GenericArgument::Other => "_"@,
        GenericArgument::Type { rendered, closure } => match closure {
            Some(inner) => if starts_with(rendered@, "{closure@"@) {
                environment_marker(inner.definition_name@) + environment_of(
                    inner.arguments@,
                    inner.arguments@.len(),
                ) + ")"@
            } else {
                "t:"@ + short_digest(identity_shape(rendered@))
            },
            None => "t:"@ + short_digest(identity_shape(rendered@)),
        },
    }
}

fn append_closure_environment(arguments: &Vec<GenericArgument>, output: &mut String)
    ensures
        final(output)@ == old(output)@ + (environment_of(arguments@, arguments@.len()) + ")"@),
    decreases arguments,
{
    let ghost start = output@;
    output.append("(");
    let mut index: usize = 0;
    while index < arguments.len()
        invariant
            index <= arguments@.len(),
            output@ == start + environment_of(arguments@, index as nat),
        decreases arguments@.len() - index,
    {
        let argument = &arguments[index];
        let ghost before = output@;
        let ghost lower = environment_of(arguments@, index as nat);
        if index > 0 {
            output.append(",");
        } else {
            proof {
                reveal_strlit("");
                assert(output@ + ""@ =~= output@);
            }
        }
        let ghost separator = if index > 0 {
            ","@
        } else {
            ""@
        };
        assert(decreases_to!(arguments => argument));
        match argument {
            GenericArgument::Other => {
                output.append("_");
            },
            GenericArgument::Type { rendered, closure } => {
                let mut nested = false;
                if starts_with_text(rendered.as_str(), "{closure@") {
                    if let Some(inner) = closure {
                        nested = true;
                        match compiler_closure_marker(inner.definition_name.as_str()) {
                            Some(marker) => output.append(marker.as_str()),
                            None => output.append("{lambda-def:unknown:λclosure}"),
                        }
                        assert(decreases_to!(argument => closure));
                        assert(decreases_to!(closure => inner));
                        append_closure_environment(&inner.arguments, output);
                    }
                }
                if !nested {
                    let shape = normalize_type_identity_shape(rendered.as_str());
                    output.append("t:");
                    output.append(short_digest_text(shape.as_str()).as_str());
                }
            },
        }
        proof {
            assert(output@ =~= before + separator + argument_text(*argument));
            assert(environment_of(arguments@, (index + 1) as nat) == lower + separator
                + argument_text(arguments@[index as int]));
            assert(start + lower + separator + argument_text(*argument) =~= start + (lower
                + separator + argument_text(*argument)));
        }
        index += 1;
    }
    output.append(")");
    proof {
        assert(output@ =~= start + (environment_of(arguments@, arguments@.len()) + ")"@));
    }
}

/// Whether an instance has a closure among its first `count` arguments.
pub open spec fn has_closure(arguments: Seq<GenericArgument>, count: int) -> bool
    decreases count,
{
    count > 0 && (has_closure(arguments, count - 1) || direct_closure(
        arguments[count - 1],
    ) is Some)
}

fn find_closure(arguments: &Vec<GenericArgument>) -> (result: bool)
    ensures
        result == has_closure(arguments@, arguments@.len() as int),
{
    let mut found = false;
    let mut index: usize = 0;
    while index < arguments.len()
        invariant
            index <= arguments@.len(),
            found == has_closure(arguments@, index as int),
        decreases arguments@.len() - index,
    {
        if let GenericArgument::Type { rendered, closure: Some(_) } = &arguments[index] {
            if starts_with_text(rendered.as_str(), "{closure@") {
                found = true;
            }
        }
        index += 1;
    }
    found
}

/// A name with markers in place of the first `count` located closures.
pub open spec fn with_markers(
    name: Seq<char>,
    replacements: Seq<(Seq<char>, Option<Seq<char>>)>,
    count: int,
) -> Seq<char>
    decreases count,
{
    if count <= 0 {
        name
    } else {
        let before = with_markers(name, replacements, count - 1);
        match replacements[count - 1].1 {
            Some(marker) => substituted(before, replacements[count - 1].0, marker),
            None => before,
        }
    }
}

/// The name of an instance, with markers in place of closures and with the
/// closures that its arguments are.
pub open spec fn stable_name(name: Seq<char>, arguments: Seq<GenericArgument>) -> Seq<char> {
    let replacements = replacements_for(arguments, arguments.len() as int);
    let stable = with_markers(name, replacements, replacements.len() as int);
    if has_closure(arguments, arguments.len() as int) {
        stable + "[[diffkit-closure-env:"@ + (environment_of(arguments, arguments.len()) + ")"@)
            + "]]"@
    } else {
        stable
    }
}

/// The name of an instance, with markers in place of closures and with the
/// closures that its arguments are.
pub fn stable_instance_name(name: &str, arguments: &Vec<GenericArgument>) -> (result: String)
    ensures
        result@ == stable_name(name@, arguments@),
{
    let replacements = collect_compiler_closure_replacements(arguments);
    proof {
        assert(views(replacements@).len() == replacements@.len());
    }
    let mut stable = name.to_owned();
    let mut index: usize = 0;
    while index < replacements.len()
        invariant
            index <= replacements@.len(),
            stable@ == with_markers(name@, views(replacements@), index as int),
        decreases replacements@.len() - index,
    {
        proof {
            assert(views(replacements@)[index as int] == replacements@[index as int]@);
        }
        if let Some(marker) = &replacements[index].marker {
            stable = substitute_text(
                stable.as_str(),
                replacements[index].located.as_str(),
                marker.as_str(),
            );
        }
        index += 1;
    }
    if find_closure(arguments) {
        stable.append("[[diffkit-closure-env:");
        append_closure_environment(arguments, &mut stable);
        stable.append("]]");
    }
    stable
}

/// The files of the first `count` calls of a function, with those that are
/// there.
pub open spec fn call_files(files: Seq<Seq<char>>, calls: Seq<SiteModel>, count: int) -> Seq<Seq<char>>
    decreases count,
{
    if count <= 0 {
        files
    } else {
        with_path(call_files(files, calls, count - 1), calls[count - 1].span.file)
    }
}

/// The files that the first `count` functions of a source speak of.
pub open spec fn syntax_files(functions: Seq<FunctionModel>, count: int) -> Seq<Seq<char>>
    decreases count,
{
    if count <= 0 {
        Seq::empty()
    } else {
        let function = functions[count - 1];
        call_files(
            with_path(syntax_files(functions, count - 1), function.span.file),
            function.calls,
            function.calls.len() as int,
        )
    }
}

/// The files of the first `count` calls that rustc found in a function, with
/// those that are there.
pub open spec fn semantic_call_files(
    files: Seq<Seq<char>>,
    calls: Seq<SemanticCallModel>,
    count: int,
) -> Seq<Seq<char>>
    decreases count,
{
    if count <= 0 {
        files
    } else {
        with_path(semantic_call_files(files, calls, count - 1), calls[count - 1].span.file)
    }
}

/// The files that the first `count` functions that rustc found speak of, with
/// those that are there.
pub open spec fn semantic_files(files: Seq<Seq<char>>, functions: Seq<SemanticModel>, count: int) -> Seq<
    Seq<char>,
>
    decreases count,
{
    if count <= 0 {
        files
    } else {
        let function = functions[count - 1];
        semantic_call_files(
            with_path(semantic_files(files, functions, count - 1), function.body_span.file),
            function.calls,
            function.calls.len() as int,
        )
    }
}

/// The files that have to be told apart where what a source says is merged
/// with what rustc says.
pub fn source_file_identities(syntax: &FileAnalysis, semantic: &SemanticProgram) -> (result: Vec<
    SourcePath,
>)
    ensures
        path_models(result@) == semantic_files(
            syntax_files(syntax@.functions, syntax@.functions.len() as int),
            semantic@.functions,
            semantic@.functions.len() as int,
        ),
{
    let mut files: Vec<SourcePath> = Vec::new();
    let mut index: usize = 0;
    proof {
        assert(path_models(files@) =~= Seq::empty());
        assert(syntax@.functions.len() == syntax.functions@.len());
        assert(semantic@.functions.len() == semantic.functions@.len());
    }
    while index < syntax.functions.len()
        invariant
            index <= syntax.functions@.len(),
            path_models(files@) == syntax_files(syntax@.functions, index as int),
        decreases syntax.functions@.len() - index,
    {
        let function = &syntax.functions[index];
        proof {
            assert(syntax@.functions[index as int] == function@);
            assert(function@.calls.len() == function.calls@.len());
        }
        insert_path(&mut files, function.span.file.clone());
        let ghost start = path_models(files@);
        let mut next: usize = 0;
        while next < function.calls.len()
            invariant
                next <= function.calls@.len(),
                path_models(files@) == call_files(start, function@.calls, next as int),
            decreases function.calls@.len() - next,
        {
            proof {
                assert(function@.calls[next as int] == function.calls@[next as int]@);
            }
            insert_path(&mut files, function.calls[next].span.file.clone());
            next += 1;
        }
        index += 1;
    }
    let ghost found = path_models(files@);
    let mut place: usize = 0;
    while place < semantic.functions.len()
        invariant
            place <= semantic.functions@.len(),
            path_models(files@) == semantic_files(found, semantic@.functions, place as int),
        decreases semantic.functions@.len() - place,
    {
        let function = &semantic.functions[place];
        proof {
            assert(semantic@.functions[place as int] == function@);
            assert(function@.calls.len() == function.calls@.len());
        }
        insert_path(&mut files, function.body_span.file.clone());
        let ghost start = path_models(files@);
        let mut next: usize = 0;
        while next < function.calls.len()
            invariant
                next <= function.calls@.len(),
                path_models(files@) == semantic_call_files(
                    start,
                    function@.calls,
                    next as int,
                ),
            decreases function.calls@.len() - next,
        {
            proof {
                assert(function@.calls[next as int] == function.calls@[next as int]@);
            }
            insert_path(&mut files, function.calls[next].span.file.clone());
            next += 1;
        }
        place += 1;
    }
    files
}

} // verus!
