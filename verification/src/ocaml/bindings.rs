//! The names that OCaml patterns bind, and the parts of arguments that they
//! stand for.
use crate::lists::{copy_list, views};
use crate::model::{SourceSpan, SpanModel};
use crate::ocaml::patterns::{
    constructor_application, fields_to, is_identifier, is_letter_or_digit, is_value_identifier,
    payload_is_shorter, record_fields, split_ocaml_constructor_application,
    split_ocaml_record_fields, split_top_level_ocaml, top_pieces, top_pieces_are_shorter,
    RecordField,
};
use crate::ocaml::words::{
    normal, normal_is_no_longer, normalize_source, strip_outer_ocaml_parentheses,
    trimmed_is_no_longer, without_parentheses, without_parentheses_is_no_longer,
};
use crate::text::{
    chars_of, find, optional, pieces, same_text, slice_text, split_once, split_text,
    split_text_once, strip_prefix, strip_prefix_text, strip_suffix, texts, trim_text, trimmed,
};
use vstd::prelude::*;

verus! {

/// A step from a value to a part of it.
#[derive(Debug)]
pub enum OcamlProjection {
    Tuple(usize),
    Constructor(String),
    RecordField(String),
}

pub enum StepModel {
    Tuple(usize),
    Constructor(Seq<char>),
    RecordField(Seq<char>),
}

impl View for OcamlProjection {
    type V = StepModel;

    open spec fn view(&self) -> StepModel {
        match self {
            OcamlProjection::Tuple(index) => StepModel::Tuple(*index),
            OcamlProjection::Constructor(name) => StepModel::Constructor(name@),
            OcamlProjection::RecordField(name) => StepModel::RecordField(name@),
        }
    }
}

impl Clone for OcamlProjection {
    fn clone(&self) -> (result: Self)
        ensures
            result@ == self@,
    {
        match self {
            OcamlProjection::Tuple(index) => OcamlProjection::Tuple(*index),
            OcamlProjection::Constructor(name) => OcamlProjection::Constructor(name.clone()),
            OcamlProjection::RecordField(name) => OcamlProjection::RecordField(name.clone()),
        }
    }
}

/// Whether a parameter is a value or a module.
#[derive(Clone, Copy, Debug, PartialEq, Eq, Structural)]
pub enum OcamlParameterKind {
    Value,
    Module,
}

/// A name that a parameter binds.
#[derive(Debug)]
pub struct OcamlParameterBinding {
    pub name: String,
    pub argument_index: usize,
    /// The part of the argument that the name stands for.
    pub projection: Vec<OcamlProjection>,
    pub kind: OcamlParameterKind,
    /// Where the name is bound, if not in the whole function.
    pub scope: Option<SourceSpan>,
}

#[verifier::ext_equal]
pub struct BindingModel {
    pub name: Seq<char>,
    pub argument_index: usize,
    pub projection: Seq<StepModel>,
    pub kind: OcamlParameterKind,
    pub scope: Option<SpanModel>,
}

/// The model of an optional stretch.
pub open spec fn optional_span(span: Option<SourceSpan>) -> Option<SpanModel> {
    match span {
        Some(span) => Some(span@),
        None => None,
    }
}

impl View for OcamlParameterBinding {
    type V = BindingModel;

    open spec fn view(&self) -> BindingModel {
        BindingModel {
            name: self.name@,
            argument_index: self.argument_index,
            projection: views(self.projection@),
            kind: self.kind,
            scope: optional_span(self.scope),
        }
    }
}

impl Clone for OcamlParameterBinding {
    fn clone(&self) -> (result: Self)
        ensures
            result@ == self@,
    {
        OcamlParameterBinding {
            name: self.name.clone(),
            argument_index: self.argument_index,
            projection: copy_list(&self.projection),
            kind: self.kind,
            scope: match &self.scope {
                Some(scope) => Some(scope.clone()),
                None => None,
            },
        }
    }
}

/// Whether a text begins with the mark of a label.
pub open spec fn is_labeled(text: Seq<char>) -> bool {
    text.len() > 0 && (text[0] == '~' || text[0] == '?')
}

/// What stands behind the first colon, or the whole text.
pub open spec fn after_colon(text: Seq<char>) -> Seq<char> {
    match split_once(text, ":"@) {
        Some((before, after)) => after,
        None => text,
    }
}

/// What stands before the first equals sign, or the whole text.
pub open spec fn before_equals(text: Seq<char>) -> Seq<char> {
    match split_once(text, "="@) {
        Some((before, after)) => before,
        None => text,
    }
}

/// A pattern without its label, its default and the parentheses around it.
pub open spec fn plain_pattern(text: Seq<char>) -> Seq<char> {
    let value = trimmed(text);
    let unlabeled = if is_labeled(value) {
        match split_once(value.skip(1), ":"@) {
            Some((before, after)) => after,
            None => before_equals(value.skip(1)),
        }
    } else {
        value
    };
    trimmed(without_parentheses(unlabeled))
}

/// An argument without its label and the parentheses around it.
pub open spec fn plain_argument(text: Seq<char>) -> Seq<char> {
    let value = trimmed(text);
    let unlabeled = if is_labeled(value) {
        after_colon(value.skip(1))
    } else {
        value
    };
    trimmed(without_parentheses(unlabeled))
}

fn has_label(characters: &Vec<char>) -> (result: bool)
    ensures
        result == is_labeled(characters@),
{
    characters.len() > 0 && (characters[0] == '~' || characters[0] == '?')
}

fn without_first(text: &str) -> (result: String)
    requires
        text@.len() > 0,
    ensures
        result@ == text@.skip(1),
{
    let characters = chars_of(text);
    let length: usize = characters.len();
    let result = slice_text(characters.as_slice(), 1, length);
    proof {
        assert(result@ =~= text@.skip(1));
    }
    result
}

/// A pattern without its label, its default and the parentheses around it.
pub fn normalize_ocaml_pattern(pattern: &str) -> (result: String)
    ensures
        result@ == plain_pattern(pattern@),
{
    let mut value = trim_text(pattern);
    if has_label(&chars_of(value.as_str())) {
        let stripped = without_first(value.as_str());
        value =
        match split_text_once(stripped.as_str(), ":") {
            Some((_, after)) => after,
            None => match split_text_once(stripped.as_str(), "=") {
                Some((before, _)) => before,
                None => stripped,
            },
        };
    }
    trim_text(strip_outer_ocaml_parentheses(value.as_str()).as_str())
}

/// An argument without its label and the parentheses around it.
pub fn normalize_ocaml_callable_argument(argument: &str) -> (result: String)
    ensures
        result@ == plain_argument(argument@),
{
    let mut value = trim_text(argument);
    if has_label(&chars_of(value.as_str())) {
        let stripped = without_first(value.as_str());
        value =
        match split_text_once(stripped.as_str(), ":") {
            Some((_, after)) => after,
            None => stripped,
        };
    }
    trim_text(strip_outer_ocaml_parentheses(value.as_str()).as_str())
}

proof fn found_is_inside(text: Seq<char>, part: Seq<char>)
    ensures
        match find(text, part) {
            Some(index) => 0 <= index && index + part.len() <= text.len(),
            None => true,
        },
{
    crate::text::find_from_is_first(text, part, 0);
}

/// A plain pattern is no longer than the pattern.
pub proof fn plain_pattern_is_no_longer(text: Seq<char>)
    ensures
        plain_pattern(text).len() <= text.len(),
{
    let value = trimmed(text);
    trimmed_is_no_longer(text);
    found_is_inside(value.skip(1), ":"@);
    found_is_inside(value.skip(1), "="@);
    let unlabeled = if is_labeled(value) {
        match split_once(value.skip(1), ":"@) {
            Some((before, after)) => after,
            None => before_equals(value.skip(1)),
        }
    } else {
        value
    };
    without_parentheses_is_no_longer(unlabeled);
    trimmed_is_no_longer(without_parentheses(unlabeled));
}

/// How many characters at the front are neither spaces nor colons.
pub open spec fn module_name_end(text: Seq<char>, index: int) -> int
    decreases text.len() - index,
{
    if 0 <= index < text.len() && text[index] != ' ' && text[index] != ':' {
        module_name_end(text, index + 1)
    } else {
        index
    }
}

/// The module that a pattern unpacks.
pub open spec fn module_pattern(text: Seq<char>) -> Option<Seq<char>> {
    match strip_prefix(trimmed(without_parentheses(text)), "module "@) {
        Some(module) => Some(trimmed(module.take(module_name_end(module, 0)))),
        None => None,
    }
}

fn find_module_pattern(pattern: &str) -> (result: Option<String>)
    ensures
        optional(result) == module_pattern(pattern@),
{
    let unwrapped = trim_text(strip_outer_ocaml_parentheses(pattern).as_str());
    match strip_prefix_text(unwrapped.as_str(), "module ") {
        Some(module) => {
            let characters = chars_of(module.as_str());
            let mut end: usize = 0;
            while end < characters.len() && characters[end] != ' ' && characters[end] != ':'
                invariant
                    end <= characters@.len(),
                    characters@ == module@,
                    module_name_end(module@, end as int) == module_name_end(module@, 0),
                decreases characters@.len() - end,
            {
                end += 1;
            }
            let name = slice_text(characters.as_slice(), 0, end);
            proof {
                assert(name@ =~= module@.take(end as int));
            }
            Some(trim_text(name.as_str()))
        },
        None => None,
    }
}

/// A binding of a whole name.
pub open spec fn binding(
    name: Seq<char>,
    argument_index: usize,
    projection: Seq<StepModel>,
    kind: OcamlParameterKind,
) -> BindingModel {
    BindingModel { name, argument_index, projection, kind, scope: None }
}

/// The names that the first `count` elements of a tuple pattern bind.
pub open spec fn tuple_bindings(
    pattern: Seq<char>,
    argument_index: usize,
    projection: Seq<StepModel>,
    count: int,
) -> Seq<BindingModel>
    decreases pattern.len(), 1int, count,
{
    let elements = top_pieces(plain_pattern(pattern), ',');
    if count <= 0 || count > elements.len() || elements.len() <= 1 {
        Seq::empty()
    } else {
        proof {
            plain_pattern_is_no_longer(pattern);
            top_pieces_are_shorter(plain_pattern(pattern), ',');
        }
        tuple_bindings(pattern, argument_index, projection, count - 1) + bindings_of(
            elements[count - 1],
            argument_index,
            projection.push(StepModel::Tuple((count - 1) as usize)),
        )
    }
}

/// The names that the first `count` fields of a record pattern bind.
pub open spec fn record_bindings(
    pattern: Seq<char>,
    argument_index: usize,
    projection: Seq<StepModel>,
    count: int,
) -> Seq<BindingModel>
    decreases pattern.len(), 1int, count,
{
    match record_fields(plain_pattern(pattern)) {
        None => Seq::empty(),
        Some(fields) => if count <= 0 || count > fields.len() {
            Seq::empty()
        } else {
            proof {
                plain_pattern_is_no_longer(pattern);
                field_values_are_shorter(plain_pattern(pattern), count - 1);
            }
            let (name, value) = fields[count - 1];
            record_bindings(pattern, argument_index, projection, count - 1) + bindings_of(
                value,
                argument_index,
                projection.push(StepModel::RecordField(name)),
            )
        },
    }
}

/// The names that a pattern binds.
pub open spec fn bindings_of(
    pattern: Seq<char>,
    argument_index: usize,
    projection: Seq<StepModel>,
) -> Seq<BindingModel>
    decreases pattern.len(), 2int, 0int,
{
    match module_pattern(pattern) {
        Some(name) => if name.len() > 0 {
            seq![binding(name, argument_index, projection, OcamlParameterKind::Module)]
        } else {
            Seq::empty()
        },
        None => {
            let plain = plain_pattern(pattern);
            let elements = top_pieces(plain, ',');
            if elements.len() > 1 {
                tuple_bindings(pattern, argument_index, projection, elements.len() as int)
            } else {
                match record_fields(plain) {
                    Some(fields) => record_bindings(
                        pattern,
                        argument_index,
                        projection,
                        fields.len() as int,
                    ),
                    None => match constructor_application(plain) {
                        Some((constructor, payload)) => {
                            proof {
                                plain_pattern_is_no_longer(pattern);
                                payload_is_shorter(plain);
                            }
                            bindings_of(
                                payload,
                                argument_index,
                                projection.push(StepModel::Constructor(constructor)),
                            )
                        },
                        None => if is_identifier(plain) && plain != "_"@ {
                            seq![
                                binding(
                                    plain,
                                    argument_index,
                                    projection,
                                    OcamlParameterKind::Value,
                                ),
                            ]
                        } else {
                            Seq::empty()
                        },
                    },
                }
            }
        },
    }
}

proof fn listed_fields_are_shorter(parts: Seq<Seq<char>>, count: int, limit: nat)
    requires
        0 <= count <= parts.len(),
        forall|index: int| 0 <= index < parts.len() ==> (#[trigger] parts[index]).len() <= limit,
    ensures
        match fields_to(parts, count) {
            Some(fields) => forall|index: int|
                0 <= index < fields.len() ==> (#[trigger] fields[index]).1.len() <= limit,
            None => true,
        },
    decreases count,
{
    if count > 0 {
        listed_fields_are_shorter(parts, count - 1, limit);
        let text = trimmed(parts[count - 1]);
        trimmed_is_no_longer(parts[count - 1]);
        top_pieces_are_shorter(text, '=');
        normal_is_no_longer(top_pieces(text, '=').last());
    }
}

/// The value of a field is shorter than the record.
pub proof fn field_values_are_shorter(text: Seq<char>, index: int)
    ensures
        match record_fields(text) {
            Some(fields) => 0 <= index < fields.len() ==> fields[index].1.len() < text.len(),
            None => true,
        },
{
    let value = trimmed(without_parentheses(text));
    without_parentheses_is_no_longer(text);
    trimmed_is_no_longer(without_parentheses(text));
    reveal_strlit("{");
    reveal_strlit("}");
    match strip_prefix(value, "{"@) {
        Some(rest) => match strip_suffix(rest, "}"@) {
            Some(inside) => {
                let inner = trimmed(inside);
                trimmed_is_no_longer(inside);
                let parts = top_pieces(inner, ';');
                top_pieces_are_shorter(inner, ';');
                listed_fields_are_shorter(parts, parts.len() as int, inner.len());
            },
            None => {},
        },
        None => {},
    }
}

fn plus_step(projection: &Vec<OcamlProjection>, step: OcamlProjection) -> (result: Vec<
    OcamlProjection,
>)
    ensures
        views(result@) == views(projection@).push(step@),
{
    let mut result = copy_list(projection);
    let ghost before = views(result@);
    let ghost model = step@;
    result.push(step);
    proof {
        assert(views(result@) =~= before.push(model));
    }
    result
}

fn one_binding(
    name: String,
    argument_index: usize,
    projection: &Vec<OcamlProjection>,
    kind: OcamlParameterKind,
) -> (result: Vec<OcamlParameterBinding>)
    ensures
        views(result@) == seq![binding(name@, argument_index, views(projection@), kind)],
{
    let mut result: Vec<OcamlParameterBinding> = Vec::new();
    let ghost model = binding(name@, argument_index, views(projection@), kind);
    result.push(
        OcamlParameterBinding {
            name,
            argument_index,
            projection: copy_list(projection),
            kind,
            scope: None,
        },
    );
    proof {
        assert(views(result@) =~= seq![model]);
    }
    result
}

fn no_bindings() -> (result: Vec<OcamlParameterBinding>)
    ensures
        views(result@) == Seq::<BindingModel>::empty(),
{
    let result: Vec<OcamlParameterBinding> = Vec::new();
    proof {
        assert(views(result@) =~= Seq::empty());
    }
    result
}

fn add_bindings(
    bindings: &mut Vec<OcamlParameterBinding>,
    mut more: Vec<OcamlParameterBinding>,
)
    ensures
        views(final(bindings)@) == views(old(bindings)@) + views(more@),
{
    let ghost before = views(bindings@);
    let ghost added = views(more@);
    bindings.append(&mut more);
    proof {
        assert(views(bindings@) =~= before + added);
    }
}

/// The names that a pattern binds.
#[verifier::rlimit(30)]
pub fn collect_ocaml_parameter_bindings(
    pattern: &str,
    argument_index: usize,
    projection: &Vec<OcamlProjection>,
) -> (result: Vec<OcamlParameterBinding>)
    ensures
        views(result@) == bindings_of(pattern@, argument_index, views(projection@)),
    decreases pattern@.len(),
{
    match find_module_pattern(pattern) {
        Some(name) => {
            return if chars_of(name.as_str()).len() > 0 {
                one_binding(name, argument_index, projection, OcamlParameterKind::Module)
            } else {
                no_bindings()
            };
        },
        None => {},
    }
    let plain = normalize_ocaml_pattern(pattern);
    proof {
        plain_pattern_is_no_longer(pattern@);
        payload_is_shorter(plain@);
    }
    let elements = split_top_level_ocaml(plain.as_str(), ',');
    let ghost steps = views(projection@);
    proof {
        assert(texts(elements@).len() == elements@.len());
        top_pieces_are_shorter(plain@, ',');
    }
    if elements.len() > 1 {
        let mut result = no_bindings();
        let mut index: usize = 0;
        while index < elements.len()
            invariant
                index <= elements@.len(),
                elements@.len() > 1,
                steps == views(projection@),
                plain@ == plain_pattern(pattern@),
                plain@.len() <= pattern@.len(),
                texts(elements@) == top_pieces(plain@, ','),
                texts(elements@).len() == elements@.len(),
                forall|place: int|
                    0 <= place < elements@.len() ==> (#[trigger] top_pieces(
                        plain@,
                        ',',
                    )[place]).len() < plain@.len(),
                views(result@) == tuple_bindings(
                    pattern@,
                    argument_index,
                    steps,
                    index as int,
                ),
            decreases elements@.len() - index,
        {
            proof {
                assert(texts(elements@)[index as int] == elements@[index as int]@);
                assert(top_pieces(plain@, ',')[index as int].len() < plain@.len());
            }
            let inner = plus_step(projection, OcamlProjection::Tuple(index));
            let more = collect_ocaml_parameter_bindings(
                elements[index].as_str(),
                argument_index,
                &inner,
            );
            add_bindings(&mut result, more);
            index += 1;
        }
        return result;
    }
    match split_ocaml_record_fields(plain.as_str()) {
        Some(fields) => {
            let mut result = no_bindings();
            let mut index: usize = 0;
            proof {
                assert(views(fields@).len() == fields@.len());
            }
            while index < fields.len()
                invariant
                    index <= fields@.len(),
                    steps == views(projection@),
                    plain@ == plain_pattern(pattern@),
                    plain@.len() <= pattern@.len(),
                    record_fields(plain@) == Some(views(fields@)),
                    views(fields@).len() == fields@.len(),
                    views(result@) == record_bindings(
                        pattern@,
                        argument_index,
                        steps,
                        index as int,
                    ),
                decreases fields@.len() - index,
            {
                let field = &fields[index];
                proof {
                    assert(views(fields@)[index as int] == field@);
                    field_values_are_shorter(plain@, index as int);
                }
                let inner = plus_step(
                    projection,
                    OcamlProjection::RecordField(field.name.clone()),
                );
                let more = collect_ocaml_parameter_bindings(
                    field.value.as_str(),
                    argument_index,
                    &inner,
                );
                add_bindings(&mut result, more);
                index += 1;
            }
            return result;
        },
        None => {},
    }
    match split_ocaml_constructor_application(plain.as_str()) {
        Some((constructor, payload)) => {
            let inner = plus_step(projection, OcamlProjection::Constructor(constructor));
            collect_ocaml_parameter_bindings(payload.as_str(), argument_index, &inner)
        },
        None => if is_value_identifier(plain.as_str()) && !same_text(plain.as_str(), "_") {
            one_binding(plain, argument_index, projection, OcamlParameterKind::Value)
        } else {
            no_bindings()
        },
    }
}

/// The value of a field.
pub open spec fn field_value(fields: Seq<(Seq<char>, Seq<char>)>, name: Seq<char>) -> Option<
    Seq<char>,
> {
    crate::lists::value_of(fields, name)
}

/// The part of a value behind a step.
pub open spec fn part_of(value: Seq<char>, step: StepModel) -> Option<Seq<char>> {
    let current = trimmed(without_parentheses(value));
    match step {
        StepModel::Tuple(index) => {
            let elements = top_pieces(current, ',');
            if index < elements.len() {
                Some(trimmed(elements[index as int]))
            } else {
                None
            }
        },
        StepModel::Constructor(expected) => match constructor_application(current) {
            Some((constructor, payload)) => if constructor == expected {
                Some(payload)
            } else {
                None
            },
            None => None,
        },
        StepModel::RecordField(expected) => match record_fields(current) {
            Some(fields) => field_value(fields, expected),
            None => None,
        },
    }
}

/// The part of a value behind the first `count` steps.
pub open spec fn part_behind(value: Seq<char>, steps: Seq<StepModel>, count: int) -> Option<
    Seq<char>,
>
    decreases count,
{
    if count <= 0 {
        Some(value)
    } else {
        match part_behind(value, steps, count - 1) {
            Some(value) => part_of(value, steps[count - 1]),
            None => None,
        }
    }
}

/// The text of an argument without its label.
pub open spec fn unlabeled(argument: Seq<char>) -> Seq<char> {
    let value = trimmed(argument);
    if is_labeled(value) {
        after_colon(value.skip(1))
    } else {
        value
    }
}

/// The part of an argument that a name stands for.
pub open spec fn projected(argument: Seq<char>, steps: Seq<StepModel>) -> Option<Seq<char>> {
    match part_behind(unlabeled(argument), steps, steps.len() as int) {
        Some(value) => Some(normal(trimmed(without_parentheses(value)))),
        None => None,
    }
}

fn find_field(fields: Vec<RecordField>, name: &str) -> (result: Option<String>)
    ensures
        optional(result) == field_value(views(fields@), name@),
{
    let mut index: usize = 0;
    while index < fields.len()
        invariant
            index <= fields@.len(),
            crate::lists::place_of(views(fields@), name@, index as int) == crate::lists::place_of(
                views(fields@),
                name@,
                0,
            ),
        decreases fields@.len() - index,
    {
        proof {
            assert(views(fields@)[index as int] == fields@[index as int]@);
        }
        if same_text(fields[index].name.as_str(), name) {
            return Some(fields[index].value.clone());
        }
        index += 1;
    }
    None
}

fn take_part(value: &str, step: &OcamlProjection) -> (result: Option<String>)
    ensures
        optional(result) == part_of(value@, step@),
{
    let current = trim_text(strip_outer_ocaml_parentheses(value).as_str());
    match step {
        OcamlProjection::Tuple(index) => {
            let elements = split_top_level_ocaml(current.as_str(), ',');
            proof {
                assert(texts(elements@).len() == elements@.len());
            }
            if *index < elements.len() {
                proof {
                    assert(texts(elements@)[*index as int] == elements@[*index as int]@);
                }
                Some(trim_text(elements[*index].as_str()))
            } else {
                None
            }
        },
        OcamlProjection::Constructor(expected) => match split_ocaml_constructor_application(
            current.as_str(),
        ) {
            Some((constructor, payload)) => if same_text(
                constructor.as_str(),
                expected.as_str(),
            ) {
                Some(payload)
            } else {
                None
            },
            None => None,
        },
        OcamlProjection::RecordField(expected) => match split_ocaml_record_fields(
            current.as_str(),
        ) {
            Some(fields) => find_field(fields, expected.as_str()),
            None => None,
        },
    }
}

proof fn failed_parts_stay_failed(value: Seq<char>, steps: Seq<StepModel>, count: int, end: int)
    requires
        part_behind(value, steps, count) is None,
        count <= end,
    ensures
        part_behind(value, steps, end) is None,
    decreases end - count,
{
    if count < end {
        failed_parts_stay_failed(value, steps, count + 1, end);
    }
}

/// The part of an argument that a name stands for.
pub fn project_ocaml_argument(argument: &str, projection: &Vec<OcamlProjection>) -> (result: Option<
    String,
>)
    ensures
        optional(result) == projected(argument@, views(projection@)),
{
    let mut value = trim_text(argument);
    if has_label(&chars_of(value.as_str())) {
        let stripped = without_first(value.as_str());
        value =
        match split_text_once(stripped.as_str(), ":") {
            Some((_, after)) => after,
            None => stripped,
        };
    }
    let ghost start = value@;
    let ghost steps = views(projection@);
    let mut index: usize = 0;
    proof {
        assert(steps.len() == projection@.len());
    }
    while index < projection.len()
        invariant
            index <= projection@.len(),
            steps == views(projection@),
            steps.len() == projection@.len(),
            start == unlabeled(argument@),
            part_behind(start, steps, index as int) == Some(value@),
        decreases projection@.len() - index,
    {
        proof {
            assert(steps[index as int] == projection@[index as int]@);
        }
        match take_part(value.as_str(), &projection[index]) {
            Some(part) => {
                value = part;
            },
            None => {
                proof {
                    failed_parts_stay_failed(start, steps, index + 1, steps.len() as int);
                }
                return None;
            },
        }
        index += 1;
    }
    Some(
        normalize_source(trim_text(strip_outer_ocaml_parentheses(value.as_str()).as_str()).as_str()),
    )
}

/// Whether a text can stand in a module path.
pub open spec fn is_path_part(text: Seq<char>) -> bool {
    text.len() > 0 && forall|index: int|
        0 <= index < text.len() ==> (#[trigger] text[index] == '_' || text[index] == '\''
            || is_letter_or_digit(text[index]))
}

/// The parts of a module path among the first `count` texts.
pub open spec fn path_parts_of(parts: Seq<Seq<char>>, count: int) -> Seq<Seq<char>>
    decreases count,
{
    if count <= 0 {
        Seq::empty()
    } else {
        let before = path_parts_of(parts, count - 1);
        let part = trimmed(parts[count - 1]);
        if is_path_part(part) {
            before.push(part)
        } else {
            before
        }
    }
}

/// The module that an argument packs.
pub open spec fn packed_module(argument: Seq<char>) -> Option<Seq<Seq<char>>> {
    match strip_prefix(trimmed(without_parentheses(argument)), "module "@) {
        None => None,
        Some(rest) => {
            let path = trimmed(top_pieces(trimmed(rest), ':')[0]);
            let all = pieces(path, "."@);
            let parts = path_parts_of(all, all.len() as int);
            if parts.len() > 0 {
                Some(parts)
            } else {
                None
            }
        },
    }
}

fn can_stand_in_path(text: &str) -> (result: bool)
    ensures
        result == is_path_part(text@),
{
    let characters = chars_of(text);
    if characters.len() == 0 {
        return false;
    }
    let mut index: usize = 0;
    while index < characters.len()
        invariant
            index <= characters@.len(),
            characters@ == text@,
            forall|k: int|
                0 <= k < index ==> (#[trigger] text@[k] == '_' || text@[k] == '\''
                    || is_letter_or_digit(text@[k])),
        decreases characters@.len() - index,
    {
        let character: char = characters[index];
        if !(character == '_' || character == '\'' || character.is_alphanumeric()) {
            proof {
                assert(!(text@[index as int] == '_'));
            }
            return false;
        }
        index += 1;
    }
    true
}

/// The module that an argument packs.
pub fn ocaml_module_package_path(argument: &str) -> (result: Option<Vec<String>>)
    ensures
        match result {
            Some(parts) => packed_module(argument@) == Some(texts(parts@)),
            None => packed_module(argument@) is None,
        },
{
    let stripped = trim_text(strip_outer_ocaml_parentheses(argument).as_str());
    let rest = match strip_prefix_text(stripped.as_str(), "module ") {
        Some(rest) => rest,
        None => {
            return None;
        },
    };
    let sides = split_top_level_ocaml(trim_text(rest.as_str()).as_str(), ':');
    proof {
        assert(texts(sides@)[0] == sides@[0]@);
        reveal_strlit(".");
    }
    let path = trim_text(sides[0].as_str());
    let all = split_text(path.as_str(), ".");
    let mut parts: Vec<String> = Vec::new();
    let mut index: usize = 0;
    proof {
        assert(texts(parts@) =~= Seq::empty());
        assert(texts(all@).len() == all@.len());
    }
    while index < all.len()
        invariant
            index <= all@.len(),
            texts(parts@) == path_parts_of(texts(all@), index as int),
        decreases all@.len() - index,
    {
        let ghost before = texts(parts@);
        proof {
            assert(texts(all@)[index as int] == all@[index as int]@);
        }
        let part = trim_text(all[index].as_str());
        if can_stand_in_path(part.as_str()) {
            let ghost model = part@;
            parts.push(part);
            proof {
                assert(texts(parts@) =~= before.push(model));
            }
        }
        index += 1;
    }
    proof {
        assert(texts(parts@).len() == parts@.len());
    }
    if parts.len() > 0 {
        Some(parts)
    } else {
        None
    }
}

} // verus!
