//! What the OCaml compiler says of the calls of a source.
use crate::files::{files_match, source_files_match, KnownFile};
use crate::lists::views;
use crate::model::{
    site_models, AnalysisModel, CallLabel, CallSite, CallTarget, FactModel, FileAnalysis,
    FunctionInfo, FunctionModel, LabelModel, LanguageFact, SiteModel, SourceSpan, SpanModel,
    SymbolId, SymbolModel, TargetModel, UnresolvedReason,
};
use crate::ocaml::calls::{calls_value, is_value_call};
use crate::ocaml::labels::{
    annotate_ocaml_call, annotated, ocaml_path_symbol, path_symbol,
};
use crate::ocaml::parameters::ocaml_parameters;
use crate::ocaml::symbols::{find_function_at, function_at};
use crate::ocaml::syntax::{node_list, optional_node};
use crate::paths::{
    is_absolute, optional_path, parts_of, path_behind, path_parts, path_under, same_place,
    SourcePath,
};
use crate::spans::{boundary_distance, overlap, span_boundary_distance, spans_overlap};
use crate::text::{
    chars_of, number, optional, parse_number, pieces, same_text, split_text, strip_suffix,
    strip_suffix_text, texts, trim_text, trimmed,
};
use vstd::prelude::*;

verus! {

/// The first `count` lines of a text that was split at its line ends.
pub open spec fn lines_to(all: Seq<Seq<char>>, count: int) -> Seq<Seq<char>>
    decreases count,
{
    if count <= 0 {
        Seq::empty()
    } else {
        let before = lines_to(all, count - 1);
        let line = all[count - 1];
        if count < all.len() {
            before.push(
                match strip_suffix(line, "\r"@) {
                    Some(rest) => rest,
                    None => line,
                },
            )
        } else if line.len() > 0 {
            before.push(line)
        } else {
            before
        }
    }
}

/// The lines of a text. A carriage return before a line end is no part of the
/// line.
pub open spec fn lines(text: Seq<char>) -> Seq<Seq<char>> {
    let all = pieces(text, "\n"@);
    lines_to(all, all.len() as int)
}

/// The lines of a text.
pub fn split_lines(text: &str) -> (result: Vec<String>)
    ensures
        texts(result@) == lines(text@),
{
    proof {
        reveal_strlit("\n");
    }
    let all = split_text(text, "\n");
    let mut result: Vec<String> = Vec::new();
    let mut index: usize = 0;
    proof {
        assert(texts(result@) =~= Seq::empty());
        assert(texts(all@).len() == all@.len());
    }
    while index < all.len()
        invariant
            index <= all@.len(),
            texts(all@).len() == all@.len(),
            texts(result@) == lines_to(texts(all@), index as int),
        decreases all@.len() - index,
    {
        let ghost before = texts(result@);
        proof {
            assert(texts(all@)[index as int] == all@[index as int]@);
        }
        if index + 1 < all.len() {
            let line = match strip_suffix_text(all[index].as_str(), "\r") {
                Some(rest) => rest,
                None => all[index].clone(),
            };
            let ghost model = line@;
            result.push(line);
            proof {
                assert(texts(result@) =~= before.push(model));
            }
        } else if chars_of(all[index].as_str()).len() > 0 {
            let line = all[index].clone();
            let ghost model = line@;
            result.push(line);
            proof {
                assert(texts(result@) =~= before.push(model));
            }
        }
        index += 1;
    }
    result
}

/// What the compiler says of a call: the function that it reaches, its type,
/// and where it stands.
#[derive(Debug)]
pub struct TypedCallEvent {
    pub target: Option<String>,
    pub signature: Option<String>,
    pub span: SourceSpan,
}

pub struct EventModel {
    pub target: Option<Seq<char>>,
    pub signature: Option<Seq<char>>,
    pub span: SpanModel,
}

impl View for TypedCallEvent {
    type V = EventModel;

    open spec fn view(&self) -> EventModel {
        EventModel {
            target: optional(self.target),
            signature: optional(self.signature),
            span: self.span@,
        }
    }
}

impl Clone for TypedCallEvent {
    fn clone(&self) -> (result: Self)
        ensures
            result@ == self@,
    {
        TypedCallEvent {
            target: crate::model::copy_optional(&self.target),
            signature: crate::model::copy_optional(&self.signature),
            span: self.span.clone(),
        }
    }
}

/// Why what the compiler says cannot be read.
#[derive(Debug)]
pub enum EventError {
    /// A line does not have eight fields.
    Invalid(String),
    /// A line or a column is no number.
    Number(String),
}

pub enum EventErrorModel {
    Invalid(Seq<char>),
    Number(Seq<char>),
}

impl View for EventError {
    type V = EventErrorModel;

    open spec fn view(&self) -> EventErrorModel {
        match self {
            EventError::Invalid(line) => EventErrorModel::Invalid(line@),
            EventError::Number(text) => EventErrorModel::Number(text@),
        }
    }
}

/// What an error says.
pub open spec fn event_error_text(error: EventErrorModel) -> Seq<char> {
    match error {
        EventErrorModel::Invalid(line) => "invalid compiler-libs event: "@ + line,
        EventErrorModel::Number(text) => "invalid number in compiler-libs event: "@ + text,
    }
}

impl EventError {
    /// What the error says.
    pub fn to_text(&self) -> (result: String)
        ensures
            result@ == event_error_text(self@),
    {
        match self {
            EventError::Invalid(line) => crate::text::concat_texts(
                "invalid compiler-libs event: ",
                line.as_str(),
            ),
            EventError::Number(text) => crate::text::concat_texts(
                "invalid number in compiler-libs event: ",
                text.as_str(),
            ),
        }
    }
}

/// A directory with the first `count` parts of a path behind it.
pub open spec fn behind_all(base: Seq<char>, parts: Seq<Seq<char>>, start: int, count: int) -> Seq<char>
    decreases count - start,
{
    if count <= start {
        base
    } else {
        path_behind(behind_all(base, parts, start, count - 1), parts[count - 1])
    }
}

/// The source that a file of a Dune build was copied from, if it is one: the
/// build directory and the build context are left out.
pub open spec fn dune_candidate(root: Seq<char>, file: Seq<char>) -> Option<Seq<char>> {
    let relative = match path_under(file, path_behind(root, "_build"@)) {
        Some(rest) => Some(rest),
        None => path_under(file, "_build"@),
    };
    match relative {
        None => None,
        Some(rest) => {
            let parts = path_parts(rest);
            let skipped = if parts.len() > 0 && parts[0] == ".sandbox"@ {
                3int
            } else {
                1
            };
            if skipped > parts.len() {
                None
            } else {
                Some(behind_all(root, parts, skipped, parts.len() as int))
            }
        },
    }
}

/// Finds the source that a file of a Dune build was copied from.
pub fn find_dune_candidate(root: &SourcePath, file: &SourcePath) -> (result: Option<SourcePath>)
    ensures
        optional_path(result) == dune_candidate(root@, file@),
{
    let rest = match file.strip_prefix(&root.join("_build")) {
        Some(rest) => rest,
        None => match file.strip_prefix(&SourcePath::new("_build")) {
            Some(rest) => rest,
            None => {
                return None;
            },
        },
    };
    let parts = parts_of(rest.text.as_str());
    proof {
        assert(texts(parts@).len() == parts@.len());
        if parts@.len() > 0 {
            assert(texts(parts@)[0] == parts@[0]@);
        }
    }
    let skipped: usize = if parts.len() > 0 && same_text(parts[0].as_str(), ".sandbox") {
        3
    } else {
        1
    };
    if skipped > parts.len() {
        return None;
    }
    let mut result = root.clone();
    let mut index: usize = skipped;
    while index < parts.len()
        invariant
            skipped <= index <= parts@.len(),
            result@ == behind_all(root@, texts(parts@), skipped as int, index as int),
        decreases parts@.len() - index,
    {
        proof {
            assert(texts(parts@)[index as int] == parts@[index as int]@);
        }
        result = result.join(parts[index].as_str());
        index += 1;
    }
    Some(result)
}

/// Whether a place is among some paths.
pub open spec fn is_among(paths: Seq<Seq<char>>, path: Seq<char>) -> bool {
    exists|k: int| 0 <= k < paths.len() && same_place(#[trigger] paths[k], path)
}

fn path_is_among(paths: &Vec<SourcePath>, path: &SourcePath) -> (result: bool)
    ensures
        result == is_among(views(paths@), path@),
{
    let ghost model = views(paths@);
    let mut index: usize = 0;
    while index < paths.len()
        invariant
            index <= paths@.len(),
            model == views(paths@),
            forall|k: int| 0 <= k < index ==> !same_place(#[trigger] model[k], path@),
        decreases paths@.len() - index,
    {
        proof {
            assert(model[index as int] == paths@[index as int]@);
        }
        if paths[index].same(path) {
            return true;
        }
        index += 1;
    }
    false
}

/// The source that a file of a Dune build was copied from, if it exists.
pub open spec fn dune_source(
    root: Seq<char>,
    file: Seq<char>,
    existing: Seq<Seq<char>>,
) -> Option<Seq<char>> {
    match dune_candidate(root, file) {
        Some(candidate) => if is_among(existing, candidate) {
            Some(candidate)
        } else {
            None
        },
        None => None,
    }
}

/// Finds the source that a file of a Dune build was copied from, if it exists.
pub fn dune_source_path(root: &SourcePath, file: &SourcePath, existing: &Vec<SourcePath>) -> (result:
    Option<SourcePath>)
    ensures
        optional_path(result) == dune_source(root@, file@, views(existing@)),
{
    match find_dune_candidate(root, file) {
        Some(candidate) => if path_is_among(existing, &candidate) {
            Some(candidate)
        } else {
            None
        },
        None => None,
    }
}

/// The file that a line of events names.
pub open spec fn event_file(root: Seq<char>, field: Seq<char>) -> Seq<char> {
    if is_absolute(field) {
        field
    } else {
        path_behind(root, field)
    }
}

fn make_event_file(root: &SourcePath, field: &str) -> (result: SourcePath)
    ensures
        result@ == event_file(root@, field@),
{
    let file = SourcePath::new(field);
    if file.is_absolute() {
        file
    } else {
        root.join(field)
    }
}

/// A line of events, or why it cannot be read.
pub open spec fn event_of(root: Seq<char>, line: Seq<char>, existing: Seq<Seq<char>>) -> Result<
    EventModel,
    EventErrorModel,
> {
    let fields = pieces(line, "\t"@);
    if fields.len() != 8 {
        Err(EventErrorModel::Invalid(line))
    } else {
        let named = event_file(root, fields[2]);
        let file = match dune_source(root, named, existing) {
            Some(source) => source,
            None => named,
        };
        match (number(fields[3]), number(fields[4]), number(fields[5]), number(fields[6])) {
            (None, _, _, _) => Err(EventErrorModel::Number(fields[3])),
            (_, None, _, _) => Err(EventErrorModel::Number(fields[4])),
            (_, _, None, _) => Err(EventErrorModel::Number(fields[5])),
            (_, _, _, None) => Err(EventErrorModel::Number(fields[6])),
            (Some(start_line), Some(start_column), Some(end_line), Some(end_column)) => Ok(
                EventModel {
                    target: if fields[0] == "direct"@ {
                        Some(fields[1])
                    } else {
                        None
                    },
                    signature: if fields[7].len() > 0 {
                        Some(fields[7])
                    } else {
                        None
                    },
                    span: SpanModel {
                        file,
                        start_line: start_line as usize,
                        start_column: start_column as usize,
                        start_byte: None,
                        end_line: end_line as usize,
                        end_column: end_column as usize,
                        end_byte: None,
                    },
                },
            ),
        }
    }
}

fn parse_event(root: &SourcePath, line: &str, existing: &Vec<SourcePath>) -> (result: Result<
    TypedCallEvent,
    EventError,
>)
    ensures
        match result {
            Ok(event) => event_of(root@, line@, views(existing@)) == Ok::<
                EventModel,
                EventErrorModel,
            >(event@),
            Err(error) => event_of(root@, line@, views(existing@)) == Err::<
                EventModel,
                EventErrorModel,
            >(error@),
        },
{
    proof {
        reveal_strlit("\t");
    }
    let fields = split_text(line, "\t");
    let ghost model = texts(fields@);
    proof {
        assert(model.len() == fields@.len());
    }
    if fields.len() != 8 {
        return Err(EventError::Invalid(line.to_owned()));
    }
    proof {
        assert(model[0] == fields@[0]@ && model[1] == fields@[1]@ && model[2] == fields@[2]@);
        assert(model[3] == fields@[3]@ && model[4] == fields@[4]@ && model[5] == fields@[5]@);
        assert(model[6] == fields@[6]@ && model[7] == fields@[7]@);
    }
    let named = make_event_file(root, fields[2].as_str());
    let file = match dune_source_path(root, &named, existing) {
        Some(source) => source,
        None => named,
    };
    let start_line: usize = match parse_number(fields[3].as_str()) {
        Some(value) => value,
        None => {
            return Err(EventError::Number(fields[3].clone()));
        },
    };
    let start_column: usize = match parse_number(fields[4].as_str()) {
        Some(value) => value,
        None => {
            return Err(EventError::Number(fields[4].clone()));
        },
    };
    let end_line: usize = match parse_number(fields[5].as_str()) {
        Some(value) => value,
        None => {
            return Err(EventError::Number(fields[5].clone()));
        },
    };
    let end_column: usize = match parse_number(fields[6].as_str()) {
        Some(value) => value,
        None => {
            return Err(EventError::Number(fields[6].clone()));
        },
    };
    let target = if same_text(fields[0].as_str(), "direct") {
        Some(fields[1].clone())
    } else {
        None
    };
    let signature = if chars_of(fields[7].as_str()).len() > 0 {
        Some(fields[7].clone())
    } else {
        None
    };
    Ok(
        TypedCallEvent {
            target,
            signature,
            span: SourceSpan {
                file,
                start_line,
                start_column,
                start_byte: None,
                end_line,
                end_column,
                end_byte: None,
            },
        },
    )
}

/// The events of the first `count` lines, or why one cannot be read.
pub open spec fn events_to(
    root: Seq<char>,
    all: Seq<Seq<char>>,
    existing: Seq<Seq<char>>,
    count: int,
) -> Result<Seq<EventModel>, EventErrorModel>
    decreases count,
{
    if count <= 0 {
        Ok(Seq::empty())
    } else {
        match events_to(root, all, existing, count - 1) {
            Err(error) => Err(error),
            Ok(before) => if trimmed(all[count - 1]).len() == 0 {
                Ok(before)
            } else {
                match event_of(root, all[count - 1], existing) {
                    Ok(event) => Ok(before.push(event)),
                    Err(error) => Err(error),
                }
            },
        }
    }
}

/// The events that the compiler gives, or why they cannot be read.
pub open spec fn events_of(root: Seq<char>, output: Seq<char>, existing: Seq<Seq<char>>) -> Result<
    Seq<EventModel>,
    EventErrorModel,
> {
    let all = lines(output);
    events_to(root, all, existing, all.len() as int)
}

proof fn errors_stay(
    root: Seq<char>,
    all: Seq<Seq<char>>,
    existing: Seq<Seq<char>>,
    count: int,
    end: int,
)
    requires
        count <= end,
        events_to(root, all, existing, count) is Err,
    ensures
        events_to(root, all, existing, end) == events_to(root, all, existing, count),
    decreases end - count,
{
    if count < end {
        errors_stay(root, all, existing, count, end - 1);
    }
}

/// Reads the events that the compiler gives, one on each line that is not
/// blank. `existing` are the files that exist.
pub fn parse_typed_events(root: &SourcePath, output: &str, existing: &Vec<SourcePath>) -> (result: Result<
    Vec<TypedCallEvent>,
    EventError,
>)
    ensures
        match result {
            Ok(events) => events_of(root@, output@, views(existing@)) == Ok::<
                Seq<EventModel>,
                EventErrorModel,
            >(views(events@)),
            Err(error) => events_of(root@, output@, views(existing@)) == Err::<
                Seq<EventModel>,
                EventErrorModel,
            >(error@),
        },
{
    let all = split_lines(output);
    let ghost known = views(existing@);
    let mut events: Vec<TypedCallEvent> = Vec::new();
    let mut index: usize = 0;
    proof {
        assert(views(events@) =~= Seq::empty());
        assert(texts(all@).len() == all@.len());
    }
    while index < all.len()
        invariant
            index <= all@.len(),
            known == views(existing@),
            texts(all@) == lines(output@),
            texts(all@).len() == all@.len(),
            events_to(root@, texts(all@), known, index as int) == Ok::<
                Seq<EventModel>,
                EventErrorModel,
            >(views(events@)),
        decreases all@.len() - index,
    {
        proof {
            assert(texts(all@)[index as int] == all@[index as int]@);
        }
        if chars_of(trim_text(all[index].as_str()).as_str()).len() > 0 {
            match parse_event(root, all[index].as_str(), existing) {
                Ok(event) => {
                    let ghost before = views(events@);
                    let ghost model = event@;
                    events.push(event);
                    proof {
                        assert(views(events@) =~= before.push(model));
                    }
                },
                Err(error) => {
                    proof {
                        errors_stay(
                            root@,
                            texts(all@),
                            known,
                            index + 1,
                            all@.len() as int,
                        );
                    }
                    return Err(error);
                },
            }
        }
        index += 1;
    }
    Ok(events)
}

/// The sources that the first `count` lines may speak of in place of files of
/// a Dune build.
pub open spec fn candidates_to(root: Seq<char>, all: Seq<Seq<char>>, count: int) -> Seq<Seq<char>>
    decreases count,
{
    if count <= 0 {
        Seq::empty()
    } else {
        let before = candidates_to(root, all, count - 1);
        let fields = pieces(all[count - 1], "\t"@);
        if fields.len() == 8 {
            match dune_candidate(root, event_file(root, fields[2])) {
                Some(candidate) => before.push(candidate),
                None => before,
            }
        } else {
            before
        }
    }
}

/// The sources that events may speak of in place of files of a Dune build:
/// those of which it matters whether they exist.
pub fn event_source_candidates(root: &SourcePath, output: &str) -> (result: Vec<SourcePath>)
    ensures
        views(result@) == candidates_to(root@, lines(output@), lines(output@).len() as int),
{
    let all = split_lines(output);
    let mut result: Vec<SourcePath> = Vec::new();
    let mut index: usize = 0;
    proof {
        reveal_strlit("\t");
        assert(views(result@) =~= Seq::empty());
        assert(texts(all@).len() == all@.len());
    }
    while index < all.len()
        invariant
            index <= all@.len(),
            "\t"@.len() > 0,
            views(result@) == candidates_to(root@, texts(all@), index as int),
        decreases all@.len() - index,
    {
        proof {
            assert(texts(all@)[index as int] == all@[index as int]@);
        }
        let fields = split_text(all[index].as_str(), "\t");
        proof {
            assert(texts(fields@).len() == fields@.len());
        }
        if fields.len() == 8 {
            proof {
                assert(texts(fields@)[2] == fields@[2]@);
            }
            if let Some(candidate) = find_dune_candidate(
                root,
                &make_event_file(root, fields[2].as_str()),
            ) {
                let ghost before = views(result@);
                let ghost model = candidate@;
                result.push(candidate);
                proof {
                    assert(views(result@) =~= before.push(model));
                }
            }
        }
        index += 1;
    }
    result
}

/// The nearest of the first `count` events that is not taken and meets a
/// call. Of equally near ones the first.
pub open spec fn nearest_event(
    known: Seq<(Seq<char>, Seq<char>)>,
    events: Seq<EventModel>,
    taken: Seq<int>,
    span: SpanModel,
    count: int,
) -> Option<int>
    decreases count,
{
    if count <= 0 {
        None
    } else {
        let before = nearest_event(known, events, taken, span, count - 1);
        let event = events[count - 1];
        if taken.contains(count - 1) || !files_match(known, event.span.file, span.file)
            || !overlap(event.span, span) {
            before
        } else {
            match before {
                Some(best) => if boundary_distance(event.span, span) < boundary_distance(
                    events[best].span,
                    span,
                ) {
                    Some(count - 1)
                } else {
                    before
                },
                None => Some(count - 1),
            }
        }
    }
}

fn is_taken(taken: &Vec<usize>, event: usize) -> (result: bool)
    ensures
        result == node_list(taken@).contains(event as int),
{
    let ghost nodes = node_list(taken@);
    let mut index: usize = 0;
    while index < taken.len()
        invariant
            index <= taken@.len(),
            nodes == node_list(taken@),
            forall|k: int| 0 <= k < index ==> #[trigger] nodes[k] != event,
        decreases taken@.len() - index,
    {
        proof {
            assert(nodes[index as int] == taken@[index as int]);
        }
        if taken[index] == event {
            return true;
        }
        index += 1;
    }
    false
}

fn find_nearest_event(
    known: &Vec<KnownFile>,
    events: &Vec<TypedCallEvent>,
    taken: &Vec<usize>,
    span: &SourceSpan,
) -> (result: Option<usize>)
    ensures
        optional_node(result) == nearest_event(
            views(known@),
            views(events@),
            node_list(taken@),
            span@,
            events@.len() as int,
        ),
        match result {
            Some(event) => event < events@.len(),
            None => true,
        },
{
    let ghost model = views(events@);
    let mut best: Option<usize> = None;
    let mut index: usize = 0;
    while index < events.len()
        invariant
            index <= events@.len(),
            model == views(events@),
            optional_node(best) == nearest_event(
                views(known@),
                model,
                node_list(taken@),
                span@,
                index as int,
            ),
            match best {
                Some(event) => event < events@.len(),
                None => true,
            },
        decreases events@.len() - index,
    {
        let event = &events[index];
        proof {
            assert(model[index as int] == event@);
        }
        if !is_taken(taken, index) && source_files_match(
            known,
            &event.span.file,
            &span.file,
        ) && spans_overlap(&event.span, span) {
            match best {
                Some(other) => {
                    proof {
                        assert(model[other as int] == events@[other as int]@);
                    }
                    if span_boundary_distance(&event.span, span) < span_boundary_distance(
                        &events[other].span,
                        span,
                    ) {
                        best = Some(index);
                    }
                },
                None => {
                    best = Some(index);
                },
            }
        }
        index += 1;
    }
    best
}

/// Whether events say nothing new of a call: it reaches a function of the
/// source, or what it reaches is known to depend on the run.
pub open spec fn is_settled(functions: Seq<FunctionModel>, target: TargetModel) -> bool {
    match target {
        TargetModel::Direct(symbol) => function_at(functions, symbol) is Some,
        TargetModel::Dynamic { .. } => true,
        _ => false,
    }
}

/// What an event says of a call.
pub open spec fn with_event(
    facts: Seq<FactModel>,
    id: SymbolModel,
    call: SiteModel,
    event: EventModel,
) -> SiteModel {
    SiteModel {
        label: match event.signature {
            Some(signature) => LabelModel {
                typed: Some(annotated(call.label.default, call, signature)),
                ..call.label
            },
            None => call.label,
        },
        target: if calls_value(facts, id, call) {
            TargetModel::Unresolved
        } else {
            match event.target {
                Some(target) => TargetModel::Direct(path_symbol(target)),
                None => TargetModel::Indirect {
                    signature: event.signature,
                    reason: UnresolvedReason::OpaqueInput,
                },
            }
        },
        ..call
    }
}

/// The first `count` calls of a function with what the events say, and the
/// events that are taken.
pub open spec fn calls_with_events(
    analysis: AnalysisModel,
    known: Seq<(Seq<char>, Seq<char>)>,
    events: Seq<EventModel>,
    taken: Seq<int>,
    function: FunctionModel,
    count: int,
) -> (Seq<SiteModel>, Seq<int>)
    decreases count,
{
    if count <= 0 {
        (Seq::empty(), taken)
    } else {
        let before = calls_with_events(
            analysis,
            known,
            events,
            taken,
            function,
            count - 1,
        );
        let call = function.calls[count - 1];
        if is_settled(analysis.functions, call.target) {
            (before.0.push(call), before.1)
        } else {
            match nearest_event(known, events, before.1, call.span, events.len() as int) {
                Some(event) => (
                    before.0.push(with_event(analysis.facts, function.id, call, events[event])),
                    before.1.push(event),
                ),
                None => (before.0.push(call), before.1),
            }
        }
    }
}

/// The first `count` functions with what the events say, and the events that
/// are taken.
pub open spec fn functions_with_events(
    analysis: AnalysisModel,
    known: Seq<(Seq<char>, Seq<char>)>,
    events: Seq<EventModel>,
    count: int,
) -> (Seq<FunctionModel>, Seq<int>)
    decreases count,
{
    if count <= 0 {
        (Seq::empty(), Seq::empty())
    } else {
        let before = functions_with_events(analysis, known, events, count - 1);
        let function = analysis.functions[count - 1];
        let (calls, taken) = calls_with_events(
            analysis,
            known,
            events,
            before.1,
            function,
            function.calls.len() as int,
        );
        (before.0.push(FunctionModel { calls, ..function }), taken)
    }
}

fn is_settled_target(functions: &Vec<FunctionInfo>, target: &CallTarget) -> (result: bool)
    ensures
        result == is_settled(views(functions@), target@),
{
    match target {
        CallTarget::Direct(symbol) => find_function_at(functions, symbol).is_some(),
        CallTarget::Dynamic { .. } => true,
        _ => false,
    }
}

fn apply_event(
    facts: &Vec<LanguageFact>,
    id: &SymbolId,
    call: &CallSite,
    event: &TypedCallEvent,
) -> (result: CallSite)
    ensures
        result@ == with_event(views(facts@), id@, call@, event@),
{
    let bindings = ocaml_parameters(facts, id);
    let mut result = call.clone();
    if let Some(signature) = &event.signature {
        result.label = CallLabel {
            default: call.label.default.clone(),
            typed: Some(
                annotate_ocaml_call(call.label.default.as_str(), call, signature.as_str()),
            ),
        };
    }
    result.target = if is_value_call(facts, id, &bindings, call) {
        CallTarget::Unresolved
    } else {
        match &event.target {
            Some(target) => CallTarget::Direct(ocaml_path_symbol(target.as_str())),
            None => CallTarget::Indirect {
                signature: crate::model::copy_optional(&event.signature),
                reason: UnresolvedReason::OpaqueInput,
            },
        }
    };
    result
}

fn apply_to_calls(
    functions: &Vec<FunctionInfo>,
    facts: &Vec<LanguageFact>,
    known: &Vec<KnownFile>,
    events: &Vec<TypedCallEvent>,
    taken: &mut Vec<usize>,
    function: &FunctionInfo,
    Ghost(analysis): Ghost<AnalysisModel>,
) -> (result: Vec<CallSite>)
    requires
        analysis.functions == views(functions@),
        analysis.facts == views(facts@),
    ensures
        (views(result@), node_list(final(taken)@)) == calls_with_events(
            analysis,
            views(known@),
            views(events@),
            node_list(old(taken)@),
            function@,
            function@.calls.len() as int,
        ),
{
    let ghost first = node_list(taken@);
    let mut calls: Vec<CallSite> = Vec::new();
    let mut index: usize = 0;
    proof {
        assert(views(calls@) =~= Seq::empty());
        assert(function@.calls.len() == function.calls@.len());
        assert(views(events@).len() == events@.len());
    }
    while index < function.calls.len()
        invariant
            index <= function.calls@.len(),
            first == node_list(old(taken)@),
            analysis.functions == views(functions@),
            analysis.facts == views(facts@),
            views(events@).len() == events@.len(),
            (views(calls@), node_list(taken@)) == calls_with_events(
                analysis,
                views(known@),
                views(events@),
                first,
                function@,
                index as int,
            ),
        decreases function.calls@.len() - index,
    {
        let call = &function.calls[index];
        let ghost before = (views(calls@), node_list(taken@));
        proof {
            assert(function@.calls[index as int] == call@);
        }
        let mut site = call.clone();
        if !is_settled_target(functions, &call.target) {
            if let Some(event) = find_nearest_event(known, events, taken, &call.span) {
                proof {
                    assert(views(events@)[event as int] == events@[event as int]@);
                }
                site = apply_event(facts, &function.id, call, &events[event]);
                taken.push(event);
                proof {
                    assert(node_list(taken@) =~= before.1.push(event as int));
                }
            }
        }
        let ghost model = site@;
        calls.push(site);
        proof {
            assert(views(calls@) =~= before.0.push(model));
        }
        index += 1;
    }
    calls
}

/// An analysis with what the events say of its calls. Each event speaks of one
/// call.
pub open spec fn with_events(
    analysis: AnalysisModel,
    known: Seq<(Seq<char>, Seq<char>)>,
    events: Seq<EventModel>,
) -> AnalysisModel {
    AnalysisModel {
        functions: functions_with_events(
            analysis,
            known,
            events,
            analysis.functions.len() as int,
        ).0,
        ..analysis
    }
}

/// Tells the calls of an analysis what the events say of them.
pub fn apply_typed_events(
    analysis: &mut FileAnalysis,
    known: &Vec<KnownFile>,
    events: &Vec<TypedCallEvent>,
)
    ensures
        final(analysis)@ == with_events(old(analysis)@, views(known@), views(events@)),
{
    let ghost start = analysis@;
    let mut functions: Vec<FunctionInfo> = Vec::new();
    let mut taken: Vec<usize> = Vec::new();
    let mut index: usize = 0;
    proof {
        assert(views(analysis.functions@) =~= start.functions);
        assert(views(analysis.facts@) =~= start.facts);
        assert(views(functions@) =~= Seq::empty());
        assert(node_list(taken@) =~= Seq::empty());
        assert(start.functions.len() == analysis.functions@.len());
    }
    while index < analysis.functions.len()
        invariant
            index <= analysis.functions@.len(),
            views(analysis.functions@) == start.functions,
            views(analysis.facts@) == start.facts,
            (views(functions@), node_list(taken@)) == functions_with_events(
                start,
                views(known@),
                views(events@),
                index as int,
            ),
        decreases analysis.functions@.len() - index,
    {
        let ghost before = views(functions@);
        let function = &analysis.functions[index];
        proof {
            assert(start.functions[index as int] == function@);
        }
        let calls = apply_to_calls(
            &analysis.functions,
            &analysis.facts,
            known,
            events,
            &mut taken,
            function,
            Ghost(start),
        );
        let changed = FunctionInfo {
            id: function.id.clone(),
            label: function.label.clone(),
            public: function.public,
            calls,
            span: function.span.clone(),
        };
        proof {
            assert(site_models(changed.calls@) =~= views(changed.calls@));
        }
        let ghost model = changed@;
        functions.push(changed);
        proof {
            assert(views(functions@) =~= before.push(model));
        }
        index += 1;
    }
    analysis.functions = functions;
    proof {
        assert(analysis@.functions =~= views(analysis.functions@));
    }
}

proof fn events_are_taken_once(
    analysis: AnalysisModel,
    known: Seq<(Seq<char>, Seq<char>)>,
    events: Seq<EventModel>,
    taken: Seq<int>,
    function: FunctionModel,
    count: int,
)
    requires
        taken.no_duplicates(),
    ensures
        calls_with_events(analysis, known, events, taken, function, count).1.no_duplicates(),
    decreases count,
{
    if count > 0 {
        events_are_taken_once(analysis, known, events, taken, function, count - 1);
        let before = calls_with_events(analysis, known, events, taken, function, count - 1);
        nearest_events_are_free(
            known,
            events,
            before.1,
            function.calls[count - 1].span,
            events.len() as int,
        );
    }
}

proof fn nearest_events_are_free(
    known: Seq<(Seq<char>, Seq<char>)>,
    events: Seq<EventModel>,
    taken: Seq<int>,
    span: SpanModel,
    count: int,
)
    ensures
        match nearest_event(known, events, taken, span, count) {
            Some(event) => !taken.contains(event),
            None => true,
        },
    decreases count,
{
    if count > 0 {
        nearest_events_are_free(known, events, taken, span, count - 1);
    }
}

/// No event is taken for two calls.
pub proof fn one_event_speaks_of_one_call(
    analysis: AnalysisModel,
    known: Seq<(Seq<char>, Seq<char>)>,
    events: Seq<EventModel>,
    count: int,
)
    ensures
        functions_with_events(analysis, known, events, count).1.no_duplicates(),
    decreases count,
{
    if count > 0 {
        one_event_speaks_of_one_call(analysis, known, events, count - 1);
        let function = analysis.functions[count - 1];
        events_are_taken_once(
            analysis,
            known,
            events,
            functions_with_events(analysis, known, events, count - 1).1,
            function,
            function.calls.len() as int,
        );
    }
}

} // verus!
