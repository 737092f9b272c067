//! Closures: the names that rustc gives them, and the ones that the source
//! gives them.
use crate::files::{same_identity, same_source_file, source_file_identity, identity_of, KnownFile};
use crate::lists::{bind, bound, copy_list, find_value, value_of, views, Binding};
use crate::model::{
    copy_reasons, function_models, symbol_text, FunctionInfo, FunctionModel, SourceSpan, SpanModel,
};
use crate::names::{callable_part, callable_prefix, text_of_tail};
use crate::paths::{ends_in, is_absolute, same_place, SourcePath};
use crate::rust::markers::{
    closure_instance_display, closure_marker, closure_place, compiler_closure_marker, earlier,
    instance_lambda, parse_anonymous_location, render_compiler_closure_markers,
    replace_closure_definition, strip_closure_environment_contexts, with_definition, with_labels,
    without_environments,
};
use crate::rust::semantic::{
    InstanceModel, ProgramModel, SemanticCall, SemanticCallModel, SemanticCallTarget,
    SemanticDispatchCandidate, SemanticFunction, SemanticModel, SemanticProgram,
    SemanticTargetModel,
};
use crate::spans::{apart, contains_span, difference, extent, span_contains, span_size};
use crate::text::{
    chars_of, copy_texts, find_chars, find_from, find_from_is_first, occurs_at, replace_text,
    replaced, slice_text, starts_with, starts_with_text, texts,
};
use vstd::prelude::*;

verus! {

/// Whether a function of the source is a closure.
pub open spec fn is_lambda(function: FunctionModel) -> bool {
    starts_with(function.id.name, "{lambda:"@)
}

/// Whether a function of the source is a closure.
pub fn is_source_closure(function: &FunctionInfo) -> (result: bool)
    ensures
        result == is_lambda(function@),
{
    starts_with_text(function.id.name.as_str(), "{lambda:")
}

/// A closure of the source, with the texts that stand for it in keys and in
/// labels.
#[derive(Debug)]
pub struct SemanticClosureSource {
    pub span: SourceSpan,
    pub identity: String,
    pub lambda: String,
}

#[verifier::ext_equal]
pub struct ClosureModel {
    pub span: SpanModel,
    pub identity: Seq<char>,
    pub lambda: Seq<char>,
}

impl View for SemanticClosureSource {
    type V = ClosureModel;

    open spec fn view(&self) -> ClosureModel {
        ClosureModel { span: self.span@, identity: self.identity@, lambda: self.lambda@ }
    }
}

/// What a rewritten text is for.
#[derive(Clone, Copy, Debug, PartialEq, Eq, Structural)]
pub enum ClosureRewrite {
    Identity,
    Display,
}

/// A closure of the source, with the texts that stand for it.
pub open spec fn closure_source(function: FunctionModel) -> ClosureModel {
    ClosureModel {
        span: function.span,
        identity: "{lambda-id:"@ + symbol_text(function.id) + "}"@,
        lambda: callable_part(function.label.default),
    }
}

/// The closures among the first `count` functions.
pub open spec fn closure_sources(functions: Seq<FunctionModel>, count: int) -> Seq<ClosureModel>
    decreases count,
{
    if count <= 0 {
        Seq::empty()
    } else if is_lambda(functions[count - 1]) {
        closure_sources(functions, count - 1).push(closure_source(functions[count - 1]))
    } else {
        closure_sources(functions, count - 1)
    }
}

fn source_closures(functions: &Vec<FunctionInfo>) -> (result: Vec<SemanticClosureSource>)
    ensures
        views(result@) == closure_sources(function_models(functions@), functions@.len() as int),
{
    let mut result: Vec<SemanticClosureSource> = Vec::new();
    let mut index: usize = 0;
    proof {
        assert(views(result@) =~= Seq::empty());
    }
    while index < functions.len()
        invariant
            index <= functions@.len(),
            views(result@) == closure_sources(function_models(functions@), index as int),
        decreases functions@.len() - index,
    {
        let function = &functions[index];
        proof {
            assert(function_models(functions@)[index as int] == function@);
        }
        if is_source_closure(function) {
            let mut identity = "{lambda-id:".to_owned();
            identity.append(function.id.to_text().as_str());
            identity.append("}");
            let closure = SemanticClosureSource {
                span: function.span.clone(),
                identity,
                lambda: callable_prefix(function.label.default.as_str()),
            };
            let ghost before = views(result@);
            result.push(closure);
            proof {
                assert(closure@ == closure_source(function@));
                assert(views(result@) =~= before.push(closure@));
            }
        }
        index += 1;
    }
    result
}

/// Whether a stretch lies in a closure.
pub open spec fn closure_holds(
    closure: ClosureModel,
    body: SpanModel,
    known: Seq<(Seq<char>, Seq<char>)>,
) -> bool {
    same_identity(known, closure.span.file, body.file) && contains_span(closure.span, body)
}

/// The innermost of the first `count` closures that a stretch lies in.
pub open spec fn innermost_closure(
    closures: Seq<ClosureModel>,
    body: SpanModel,
    known: Seq<(Seq<char>, Seq<char>)>,
    count: int,
) -> Option<int>
    decreases count,
{
    if count <= 0 {
        None
    } else {
        let before = innermost_closure(closures, body, known, count - 1);
        let closure = closures[count - 1];
        if closure_holds(closure, body, known) && match before {
            Some(best) => extent(closure.span) < extent(closures[best].span),
            None => true,
        } {
            Some(count - 1)
        } else {
            before
        }
    }
}

/// The closure that a stretch lies in: of several, the innermost.
pub open spec fn closure_around(
    closures: Seq<ClosureModel>,
    body: SpanModel,
    known: Seq<(Seq<char>, Seq<char>)>,
) -> Option<ClosureModel> {
    match innermost_closure(closures, body, known, closures.len() as int) {
        Some(index) => Some(closures[index]),
        None => None,
    }
}

/// The model of an optional closure.
pub open spec fn optional_closure(closure: Option<&SemanticClosureSource>) -> Option<ClosureModel> {
    match closure {
        Some(closure) => Some(closure@),
        None => None,
    }
}

/// The closure that a stretch lies in: of several, the innermost.
pub fn closure_for_body_span<'a>(
    body: &SourceSpan,
    closures: &'a Vec<SemanticClosureSource>,
    file_identities: &Vec<KnownFile>,
) -> (result: Option<&'a SemanticClosureSource>)
    ensures
        optional_closure(result) == closure_around(views(closures@), body@, views(file_identities@)),
{
    let mut best: Option<usize> = None;
    let mut index: usize = 0;
    while index < closures.len()
        invariant
            index <= closures@.len(),
            match best {
                Some(best) => best < index && innermost_closure(
                    views(closures@),
                    body@,
                    views(file_identities@),
                    index as int,
                ) == Some(best as int),
                None => innermost_closure(
                    views(closures@),
                    body@,
                    views(file_identities@),
                    index as int,
                ) is None,
            },
        decreases closures@.len() - index,
    {
        let closure = &closures[index];
        proof {
            assert(views(closures@)[index as int] == closure@);
        }
        if same_source_file(file_identities, &closure.span.file, &body.file) && span_contains(
            &closure.span,
            body,
        ) {
            match best {
                Some(earlier) => {
                    proof {
                        assert(views(closures@)[earlier as int] == closures@[earlier as int]@);
                    }
                    if span_size(&closure.span) < span_size(&closures[earlier].span) {
                        best = Some(index);
                    }
                },
                None => {
                    best = Some(index);
                },
            }
        }
        index += 1;
    }
    match best {
        Some(best) => {
            proof {
                assert(views(closures@)[best as int] == closures@[best as int]@);
            }
            Some(&closures[best])
        },
        None => None,
    }
}

/// Whether two paths lead to the same file, where one of them may lack the
/// directories in front.
pub open spec fn paths_meet(
    known: Seq<(Seq<char>, Seq<char>)>,
    left: Seq<char>,
    right: Seq<char>,
) -> bool {
    let left = identity_of(known, left);
    let right = identity_of(known, right);
    ||| same_place(left, right)
    ||| is_absolute(left) && !is_absolute(right) && ends_in(left, right)
    ||| is_absolute(right) && !is_absolute(left) && ends_in(right, left)
}

/// Whether two paths lead to the same file, where one of them may lack the
/// directories in front.
pub fn source_paths_match(
    identities: &Vec<KnownFile>,
    left: &SourcePath,
    right: &SourcePath,
) -> (result: bool)
    ensures
        result == paths_meet(views(identities@), left@, right@),
{
    let left = source_file_identity(identities, left);
    let right = source_file_identity(identities, right);
    left.same(right) || (left.is_absolute() && !right.is_absolute() && left.ends_with(right)) || (
    right.is_absolute() && !left.is_absolute() && right.ends_with(left))
}

/// How far from a column a closure begins. Columns of rustc count from one.
pub open spec fn column_distance(closure: ClosureModel, column: usize) -> int {
    let start = if closure.span.start_column < usize::MAX {
        (closure.span.start_column + 1) as usize
    } else {
        usize::MAX
    };
    apart(start, column)
}

/// Whether a closure begins on a line of a file.
pub open spec fn begins_on(
    closure: ClosureModel,
    file: Seq<char>,
    line: usize,
    known: Seq<(Seq<char>, Seq<char>)>,
) -> bool {
    paths_meet(known, closure.span.file, file) && closure.span.start_line == line
}

/// The first of the closures among `count` that begin nearest to a place, and
/// whether there are more of them.
pub open spec fn nearest(
    closures: Seq<ClosureModel>,
    file: Seq<char>,
    line: usize,
    column: usize,
    known: Seq<(Seq<char>, Seq<char>)>,
    count: int,
) -> Option<(int, bool)>
    decreases count,
{
    if count <= 0 {
        None
    } else {
        let before = nearest(closures, file, line, column, known, count - 1);
        let closure = closures[count - 1];
        if !begins_on(closure, file, line, known) {
            before
        } else {
            match before {
                None => Some((count - 1, false)),
                Some((best, _)) => {
                    let least = column_distance(closures[best], column);
                    if column_distance(closure, column) < least {
                        Some((count - 1, false))
                    } else if column_distance(closure, column) == least {
                        Some((best, true))
                    } else {
                        before
                    }
                },
            }
        }
    }
}

/// The closure that begins nearest to a place. None where there are several.
pub open spec fn closure_at(
    closures: Seq<ClosureModel>,
    file: Seq<char>,
    line: usize,
    column: usize,
    known: Seq<(Seq<char>, Seq<char>)>,
) -> Option<ClosureModel> {
    match nearest(closures, file, line, column, known, closures.len() as int) {
        Some((index, false)) => Some(closures[index]),
        _ => None,
    }
}

fn distance_to(closure: &SemanticClosureSource, column: usize) -> (result: usize)
    ensures
        result == column_distance(closure@, column),
{
    difference(closure.span.start_column.saturating_add(1), column)
}

/// The closure that begins nearest to a place. None where there are several.
pub fn closure_for_location<'a>(
    file: &SourcePath,
    line: usize,
    column: usize,
    closures: &'a Vec<SemanticClosureSource>,
    file_identities: &Vec<KnownFile>,
) -> (result: Option<&'a SemanticClosureSource>)
    ensures
        optional_closure(result) == closure_at(
            views(closures@),
            file@,
            line,
            column,
            views(file_identities@),
        ),
{
    let mut best: Option<usize> = None;
    let mut tied = false;
    let mut index: usize = 0;
    while index < closures.len()
        invariant
            index <= closures@.len(),
            match best {
                Some(best) => best < index && nearest(
                    views(closures@),
                    file@,
                    line,
                    column,
                    views(file_identities@),
                    index as int,
                ) == Some((best as int, tied)),
                None => nearest(
                    views(closures@),
                    file@,
                    line,
                    column,
                    views(file_identities@),
                    index as int,
                ) is None,
            },
        decreases closures@.len() - index,
    {
        let closure = &closures[index];
        proof {
            assert(views(closures@)[index as int] == closure@);
        }
        if source_paths_match(file_identities, &closure.span.file, file) && closure.span.start_line
            == line {
            match best {
                Some(earlier) => {
                    proof {
                        assert(views(closures@)[earlier as int] == closures@[earlier as int]@);
                    }
                    let least: usize = distance_to(&closures[earlier], column);
                    let distance: usize = distance_to(closure, column);
                    if distance < least {
                        best = Some(index);
                        tied = false;
                    } else if distance == least {
                        tied = true;
                    }
                },
                None => {
                    best = Some(index);
                    tied = false;
                },
            }
        }
        index += 1;
    }
    match best {
        Some(best) => if tied {
            None
        } else {
            proof {
                assert(views(closures@)[best as int] == closures@[best as int]@);
            }
            Some(&closures[best])
        },
        None => None,
    }
}

/// The text that stands for a closure.
pub open spec fn rewritten(closure: ClosureModel, rewrite: ClosureRewrite) -> Seq<char> {
    match rewrite {
        ClosureRewrite::Identity => closure.identity,
        ClosureRewrite::Display => closure.lambda,
    }
}

/// What stands for a closure that rustc names by its location; `written` is
/// how rustc names it.
pub open spec fn located_replacement(
    written: Seq<char>,
    location: Seq<char>,
    closures: Seq<ClosureModel>,
    known: Seq<(Seq<char>, Seq<char>)>,
    rewrite: ClosureRewrite,
) -> Seq<char> {
    match closure_place(location) {
        None => written,
        Some((file, line, column)) => match closure_at(
            closures,
            file,
            line as usize,
            column as usize,
            known,
        ) {
            None => written,
            Some(closure) => rewritten(closure, rewrite),
        },
    }
}

/// How long the mark of a closure is that stands at `found`.
pub open spec fn mark_length(text: Seq<char>, found: int) -> int {
    if occurs_at(text, "{closure@"@, found) {
        "{closure@"@.len() as int
    } else {
        "{async closure@"@.len() as int
    }
}

/// The first place from `start` on where a closure stands that rustc names by
/// its location.
pub open spec fn next_located(text: Seq<char>, start: int) -> Option<int> {
    earlier(find_from(text, "{closure@"@, start), find_from(text, "{async closure@"@, start))
}

/// `text` from `start` on with the names of the source for the closures that
/// rustc names by location.
pub open spec fn with_located_from(
    text: Seq<char>,
    closures: Seq<ClosureModel>,
    known: Seq<(Seq<char>, Seq<char>)>,
    rewrite: ClosureRewrite,
    start: int,
) -> Seq<char>
    decreases text.len() - start,
{
    if start < 0 || start > text.len() {
        Seq::empty()
    } else {
        match next_located(text, start) {
            None => text.skip(start),
            Some(found) => match find_from(text, "}"@, found) {
                None => text.skip(start),
                Some(end) => {
                    proof {
                        reveal_strlit("}");
                        find_from_is_first(text, "{closure@"@, start);
                        find_from_is_first(text, "{async closure@"@, start);
                        find_from_is_first(text, "}"@, found);
                    }
                    text.subrange(start, found) + located_replacement(
                        text.subrange(found, end + 1),
                        text.subrange(found + mark_length(text, found), end),
                        closures,
                        known,
                        rewrite,
                    ) + with_located_from(text, closures, known, rewrite, end + 1)
                },
            },
        }
    }
}

proof fn marks_hold_no_brace(text: Seq<char>, found: int, end: int)
    requires
        occurs_at(text, "{closure@"@, found) || occurs_at(text, "{async closure@"@, found),
        found <= end,
        occurs_at(text, "}"@, end),
    ensures
        found + mark_length(text, found) <= end,
{
    reveal_strlit("}");
    reveal_strlit("{closure@");
    reveal_strlit("{async closure@");
    assert(text.subrange(end, end + 1)[0] == '}');
    let plain = "{closure@"@;
    let other = "{async closure@"@;
    assert(forall|k: int| 0 <= k < plain.len() ==> plain[k] != '}');
    assert(forall|k: int| 0 <= k < other.len() ==> other[k] != '}');
    if occurs_at(text, plain, found) {
        if end < found + plain.len() {
            assert(text.subrange(found, found + plain.len())[end - found] == plain[end - found]);
        }
    } else {
        if end < found + other.len() {
            assert(text.subrange(found, found + other.len())[end - found] == other[end - found]);
        }
    }
}

fn located_text(
    written: String,
    location: &str,
    closures: &Vec<SemanticClosureSource>,
    file_identities: &Vec<KnownFile>,
    rewrite: ClosureRewrite,
) -> (result: String)
    ensures
        result@ == located_replacement(
            written@,
            location@,
            views(closures@),
            views(file_identities@),
            rewrite,
        ),
{
    match parse_anonymous_location(location) {
        None => written,
        Some((file, line, column)) => match closure_for_location(
            &SourcePath { text: file },
            line,
            column,
            closures,
            file_identities,
        ) {
            None => written,
            Some(closure) => match rewrite {
                ClosureRewrite::Identity => closure.identity.clone(),
                ClosureRewrite::Display => closure.lambda.clone(),
            },
        },
    }
}

fn find_located(characters: &Vec<char>, start: usize) -> (result: Option<(usize, usize)>)
    requires
        start <= characters@.len(),
    ensures
        match result {
            Some((found, length)) => next_located(characters@, start as int) == Some(found as int)
                && start <= found <= characters@.len() && length == mark_length(
                characters@,
                found as int,
            ) && (occurs_at(characters@, "{closure@"@, found as int) || occurs_at(
                characters@,
                "{async closure@"@,
                found as int,
            )),
            None => next_located(characters@, start as int) is None,
        },
{
    let plain = chars_of("{closure@");
    let other = chars_of("{async closure@");
    proof {
        find_from_is_first(characters@, "{closure@"@, start as int);
        find_from_is_first(characters@, "{async closure@"@, start as int);
        reveal_strlit("{closure@");
        reveal_strlit("{async closure@");
    }
    match (
        find_chars(characters.as_slice(), plain.as_slice(), start),
        find_chars(characters.as_slice(), other.as_slice(), start),
    ) {
        (Some(left), Some(right)) => if left <= right {
            Some((left, plain.len()))
        } else {
            Some((right, other.len()))
        },
        (Some(left), None) => Some((left, plain.len())),
        (None, Some(right)) => Some((right, other.len())),
        (None, None) => None,
    }
}

/// `value` with the names of the source for the closures that rustc names by
/// location.
#[verifier::rlimit(30)]
pub fn rewrite_located_closures(
    value: &str,
    closures: &Vec<SemanticClosureSource>,
    file_identities: &Vec<KnownFile>,
    rewrite: ClosureRewrite,
) -> (result: String)
    ensures
        result@ == with_located_from(
            value@,
            views(closures@),
            views(file_identities@),
            rewrite,
            0,
        ),
{
    let characters = chars_of(value);
    let brace = chars_of("}");
    let length: usize = characters.len();
    let mut output = String::new();
    let mut start: usize = 0;
    let ghost whole = with_located_from(
        value@,
        views(closures@),
        views(file_identities@),
        rewrite,
        0,
    );
    proof {
        reveal_strlit("}");
        assert(output@ + whole =~= whole);
    }
    loop
        invariant
            start <= length,
            length == characters@.len(),
            characters@ == value@,
            brace@ == "}"@,
            brace@.len() == 1,
            output@ + with_located_from(
                value@,
                views(closures@),
                views(file_identities@),
                rewrite,
                start as int,
            ) == whole,
            whole == with_located_from(
                value@,
                views(closures@),
                views(file_identities@),
                rewrite,
                0,
            ),
        decreases length - start,
    {
        let (found, mark): (usize, usize) = match find_located(&characters, start) {
            Some(found) => found,
            None => {
                output.append(text_of_tail(&characters, start).as_str());
                return output;
            },
        };
        match find_chars(characters.as_slice(), brace.as_slice(), found) {
            None => {
                output.append(text_of_tail(&characters, start).as_str());
                return output;
            },
            Some(end) => {
                proof {
                    marks_hold_no_brace(value@, found as int, end as int);
                }
                let ghost before = output@;
                let kept = slice_text(characters.as_slice(), start, found);
                let written = slice_text(characters.as_slice(), found, end + 1);
                let location = slice_text(characters.as_slice(), found + mark, end);
                let replacement = located_text(
                    written,
                    location.as_str(),
                    closures,
                    file_identities,
                    rewrite,
                );
                output.append(kept.as_str());
                output.append(replacement.as_str());
                proof {
                    let rest = with_located_from(
                        value@,
                        views(closures@),
                        views(file_identities@),
                        rewrite,
                        end + 1,
                    );
                    assert(before + (kept@ + replacement@ + rest) =~= output@ + rest);
                }
                start = end + 1;
            },
        }
    }
}

/// `text` with the names of the source in place of the first `count` marks.
pub open spec fn with_sources(
    text: Seq<char>,
    sources: Seq<(Seq<char>, (Seq<char>, Seq<char>))>,
    rewrite: ClosureRewrite,
    count: int,
) -> Seq<char>
    decreases count,
{
    if count <= 0 {
        text
    } else {
        let (marker, (identity, lambda)) = sources[count - 1];
        replaced(
            with_sources(text, sources, rewrite, count - 1),
            marker,
            match rewrite {
                ClosureRewrite::Identity => identity,
                ClosureRewrite::Display => lambda,
            },
        )
    }
}

/// What is known of the closures of a program.
#[derive(Debug)]
pub struct ClosureTable {
    pub closures: Vec<SemanticClosureSource>,
    pub identities: Vec<KnownFile>,
    /// The identity and the label of the source under the mark of rustc.
    pub sources: Vec<Binding<(String, String)>>,
    /// The key and the text to show under the key that rustc gives a closure.
    pub direct: Vec<Binding<(String, String)>>,
}

#[verifier::ext_equal]
pub struct TableModel {
    pub closures: Seq<ClosureModel>,
    pub identities: Seq<(Seq<char>, Seq<char>)>,
    pub sources: Seq<(Seq<char>, (Seq<char>, Seq<char>))>,
    pub direct: Seq<(Seq<char>, (Seq<char>, Seq<char>))>,
}

impl View for ClosureTable {
    type V = TableModel;

    open spec fn view(&self) -> TableModel {
        TableModel {
            closures: views(self.closures@),
            identities: views(self.identities@),
            sources: views(self.sources@),
            direct: views(self.direct@),
        }
    }
}

/// A text of rustc with the names of the source for closures.
pub open spec fn canonical_text(
    table: TableModel,
    value: Seq<char>,
    rewrite: ClosureRewrite,
) -> Seq<char> {
    let located = with_located_from(value, table.closures, table.identities, rewrite, 0);
    let sourced = with_sources(located, table.sources, rewrite, table.sources.len() as int);
    match rewrite {
        ClosureRewrite::Identity => sourced,
        ClosureRewrite::Display => with_labels(without_environments(sourced)),
    }
}

/// A text of rustc with the names of the source for closures.
pub fn canonicalize_closure_value(
    value: &str,
    table: &ClosureTable,
    rewrite: ClosureRewrite,
) -> (result: String)
    ensures
        result@ == canonical_text(table@, value@, rewrite),
{
    let mut value = rewrite_located_closures(value, &table.closures, &table.identities, rewrite);
    let ghost located = value@;
    let mut index: usize = 0;
    while index < table.sources.len()
        invariant
            index <= table.sources@.len(),
            value@ == with_sources(located, table@.sources, rewrite, index as int),
        decreases table.sources@.len() - index,
    {
        let entry = &table.sources[index];
        proof {
            assert(table@.sources[index as int] == entry@);
            assert(value@.skip(0) =~= value@);
        }
        let replacement = match rewrite {
            ClosureRewrite::Identity => entry.value.0.as_str(),
            ClosureRewrite::Display => entry.value.1.as_str(),
        };
        if chars_of(entry.key.as_str()).len() > 0 {
            value = replace_text(value.as_str(), entry.key.as_str(), replacement);
        }
        index += 1;
    }
    match rewrite {
        ClosureRewrite::Identity => value,
        ClosureRewrite::Display => render_compiler_closure_markers(
            strip_closure_environment_contexts(value.as_str()).as_str(),
        ),
    }
}

/// The key of an instance and the text to show for it, with the names of the
/// source for closures.
pub open spec fn canonical_instance(table: TableModel, key: Seq<char>, display: Seq<char>) -> (
    Seq<char>,
    Seq<char>,
) {
    match value_of(table.direct, key) {
        Some(direct) => direct,
        None => (
            canonical_text(table, key, ClosureRewrite::Identity),
            canonical_text(table, display, ClosureRewrite::Display),
        ),
    }
}

/// The key of an instance and the text to show for it, with the names of the
/// source for closures.
pub fn rewrite_closure_target(key: &str, display: &str, table: &ClosureTable) -> (result: (
    String,
    String,
))
    ensures
        (result.0@, result.1@) == canonical_instance(table@, key@, display@),
{
    match find_value(&table.direct, key) {
        Some(direct) => (direct.0.clone(), direct.1.clone()),
        None => (
            canonicalize_closure_value(key, table, ClosureRewrite::Identity),
            canonicalize_closure_value(display, table, ClosureRewrite::Display),
        ),
    }
}

/// Texts to show, with the names of the source for closures.
pub open spec fn canonical_texts(table: TableModel, values: Seq<Seq<char>>) -> Seq<Seq<char>> {
    values.map_values(|value: Seq<char>| canonical_text(table, value, ClosureRewrite::Display))
}

fn canonicalize_texts(values: &Vec<String>, table: &ClosureTable) -> (result: Vec<String>)
    ensures
        texts(result@) == canonical_texts(table@, texts(values@)),
{
    let mut result: Vec<String> = Vec::new();
    let mut index: usize = 0;
    while index < values.len()
        invariant
            index <= values@.len(),
            result@.len() == index,
            forall|k: int|
                0 <= k < index ==> (#[trigger] result@[k])@ == canonical_text(
                    table@,
                    values@[k]@,
                    ClosureRewrite::Display,
                ),
        decreases values@.len() - index,
    {
        result.push(
            canonicalize_closure_value(values[index].as_str(), table, ClosureRewrite::Display),
        );
        index += 1;
    }
    proof {
        assert(texts(result@) =~= canonical_texts(table@, texts(values@)));
    }
    result
}

/// A candidate with the names of the source for closures.
pub open spec fn canonical_candidate(table: TableModel, candidate: InstanceModel) -> InstanceModel {
    let (key, display) = canonical_instance(table, candidate.key, candidate.display);
    InstanceModel { key, display }
}

/// A call target with the names of the source for closures.
pub open spec fn canonical_target(
    table: TableModel,
    target: SemanticTargetModel,
) -> SemanticTargetModel {
    match target {
        SemanticTargetModel::Direct { key, display } => {
            let (key, display) = canonical_instance(table, key, display);
            SemanticTargetModel::Direct { key, display }
        },
        SemanticTargetModel::Dynamic {
            key,
            display,
            candidates,
            open,
            unresolved_reasons,
            receiver_flow,
        } => {
            let (key, display) = canonical_instance(table, key, display);
            SemanticTargetModel::Dynamic {
                key,
                display,
                candidates: candidates.map_values(
                    |candidate: InstanceModel| canonical_candidate(table, candidate),
                ),
                open,
                unresolved_reasons,
                receiver_flow,
            }
        },
        _ => target,
    }
}

fn canonicalize_candidates(
    candidates: &Vec<SemanticDispatchCandidate>,
    table: &ClosureTable,
) -> (result: Vec<SemanticDispatchCandidate>)
    ensures
        views(result@) == views(candidates@).map_values(
            |candidate: InstanceModel| canonical_candidate(table@, candidate),
        ),
{
    let mut result: Vec<SemanticDispatchCandidate> = Vec::new();
    let mut index: usize = 0;
    while index < candidates.len()
        invariant
            index <= candidates@.len(),
            result@.len() == index,
            forall|k: int|
                0 <= k < index ==> (#[trigger] result@[k])@ == canonical_candidate(
                    table@,
                    candidates@[k]@,
                ),
        decreases candidates@.len() - index,
    {
        let candidate = &candidates[index];
        let (key, display) = rewrite_closure_target(
            candidate.key.as_str(),
            candidate.display.as_str(),
            table,
        );
        result.push(SemanticDispatchCandidate { key, display });
        index += 1;
    }
    proof {
        assert(views(result@) =~= views(candidates@).map_values(
            |candidate: InstanceModel| canonical_candidate(table@, candidate),
        ));
    }
    result
}

fn canonicalize_target(target: &SemanticCallTarget, table: &ClosureTable) -> (result:
    SemanticCallTarget)
    ensures
        result@ == canonical_target(table@, target@),
{
    match target {
        SemanticCallTarget::Direct { key, display } => {
            let (key, display) = rewrite_closure_target(key.as_str(), display.as_str(), table);
            SemanticCallTarget::Direct { key, display }
        },
        SemanticCallTarget::Dynamic {
            key,
            display,
            candidates,
            open,
            unresolved_reasons,
            receiver_flow,
        } => {
            let (key, display) = rewrite_closure_target(key.as_str(), display.as_str(), table);
            SemanticCallTarget::Dynamic {
                key,
                display,
                candidates: canonicalize_candidates(candidates, table),
                open: *open,
                unresolved_reasons: copy_reasons(unresolved_reasons),
                receiver_flow: receiver_flow.clone(),
            }
        },
        SemanticCallTarget::Indirect { signature } => SemanticCallTarget::Indirect {
            signature: signature.clone(),
        },
        SemanticCallTarget::Unresolved => SemanticCallTarget::Unresolved,
    }
}

/// A call with the names of the source for closures.
pub open spec fn canonical_call(table: TableModel, call: SemanticCallModel) -> SemanticCallModel {
    SemanticCallModel {
        target: canonical_target(table, call.target),
        argument_types: canonical_texts(table, call.argument_types),
        ..call
    }
}

/// A function instance with the names of the source for closures.
pub open spec fn canonical_function(table: TableModel, function: SemanticModel) -> SemanticModel {
    let (key, display) = canonical_instance(table, function.key, function.display);
    SemanticModel {
        key,
        display,
        calls: function.calls.map_values(|call: SemanticCallModel| canonical_call(table, call)),
        parameter_types: canonical_texts(table, function.parameter_types),
        ..function
    }
}

fn canonicalize_calls(calls: &Vec<SemanticCall>, table: &ClosureTable) -> (result: Vec<
    SemanticCall,
>)
    ensures
        views(result@) == views(calls@).map_values(
            |call: SemanticCallModel| canonical_call(table@, call),
        ),
{
    let mut result: Vec<SemanticCall> = Vec::new();
    let mut index: usize = 0;
    while index < calls.len()
        invariant
            index <= calls@.len(),
            result@.len() == index,
            forall|k: int|
                0 <= k < index ==> (#[trigger] result@[k])@ == canonical_call(table@, calls@[k]@),
        decreases calls@.len() - index,
    {
        let call = &calls[index];
        result.push(
            SemanticCall {
                target: canonicalize_target(&call.target, table),
                definition_name: call.definition_name.clone(),
                span: call.span.clone(),
                argument_types: canonicalize_texts(&call.argument_types, table),
                argument_flows: copy_list(&call.argument_flows),
            },
        );
        index += 1;
    }
    proof {
        assert(views(result@) =~= views(calls@).map_values(
            |call: SemanticCallModel| canonical_call(table@, call),
        ));
    }
    result
}

fn canonicalize_function(function: &SemanticFunction, table: &ClosureTable) -> (result:
    SemanticFunction)
    ensures
        result@ == canonical_function(table@, function@),
{
    let (key, display) = rewrite_closure_target(
        function.key.as_str(),
        function.display.as_str(),
        table,
    );
    SemanticFunction {
        base_key: function.base_key.clone(),
        key,
        display,
        definition_name: function.definition_name.clone(),
        body_span: function.body_span.clone(),
        calls: canonicalize_calls(&function.calls, table),
        constructor_spans: copy_list(&function.constructor_spans),
        constructor_names: copy_texts(&function.constructor_names),
        parameter_types: canonicalize_texts(&function.parameter_types, table),
    }
}

/// The names of the source under the marks of the closures among the first
/// `count` function instances.
pub open spec fn marked_sources(
    functions: Seq<SemanticModel>,
    closures: Seq<ClosureModel>,
    known: Seq<(Seq<char>, Seq<char>)>,
    count: int,
) -> Seq<(Seq<char>, (Seq<char>, Seq<char>))>
    decreases count,
{
    if count <= 0 {
        Seq::empty()
    } else {
        let before = marked_sources(functions, closures, known, count - 1);
        let function = functions[count - 1];
        match (
            closure_around(closures, function.body_span, known),
            closure_marker(function.definition_name),
        ) {
            (Some(closure), Some(marker)) => bound(
                before,
                marker,
                (closure.identity, closure.lambda),
            ),
            _ => before,
        }
    }
}

/// The key and the text to show for an instance of a closure.
pub open spec fn direct_instance(
    table: TableModel,
    function: SemanticModel,
    closure: ClosureModel,
) -> (Seq<char>, Seq<char>) {
    (
        with_definition(
            canonical_text(table, function.key, ClosureRewrite::Identity),
            closure.identity,
        ),
        canonical_text(
            table,
            instance_lambda(closure.lambda, function.display),
            ClosureRewrite::Display,
        ),
    )
}

/// The keys and the texts to show for the instances of closures among the
/// first `count` function instances, under the keys of rustc.
pub open spec fn direct_instances(
    functions: Seq<SemanticModel>,
    table: TableModel,
    count: int,
) -> Seq<(Seq<char>, (Seq<char>, Seq<char>))>
    decreases count,
{
    if count <= 0 {
        Seq::empty()
    } else {
        let before = direct_instances(functions, table, count - 1);
        let function = functions[count - 1];
        match closure_around(table.closures, function.body_span, table.identities) {
            Some(closure) => bound(
                before,
                function.key,
                direct_instance(table, function, closure),
            ),
            None => before,
        }
    }
}

/// What is known of the closures of a program without the keys of instances.
pub open spec fn source_table(
    syntax: Seq<FunctionModel>,
    functions: Seq<SemanticModel>,
    known: Seq<(Seq<char>, Seq<char>)>,
) -> TableModel {
    let closures = closure_sources(syntax, syntax.len() as int);
    TableModel {
        closures,
        identities: known,
        sources: marked_sources(functions, closures, known, functions.len() as int),
        direct: Seq::empty(),
    }
}

/// What is known of the closures of a program.
pub open spec fn closure_table(
    syntax: Seq<FunctionModel>,
    functions: Seq<SemanticModel>,
    known: Seq<(Seq<char>, Seq<char>)>,
) -> TableModel {
    let table = source_table(syntax, functions, known);
    TableModel { direct: direct_instances(functions, table, functions.len() as int), ..table }
}

/// A program with the names of the source for closures.
pub open spec fn canonical_program(
    syntax: Seq<FunctionModel>,
    program: ProgramModel,
    known: Seq<(Seq<char>, Seq<char>)>,
) -> ProgramModel {
    let table = closure_table(syntax, program.functions, known);
    ProgramModel {
        functions: program.functions.map_values(
            |function: SemanticModel| canonical_function(table, function),
        ),
        ..program
    }
}

fn mark_sources(
    functions: &Vec<SemanticFunction>,
    closures: &Vec<SemanticClosureSource>,
    file_identities: &Vec<KnownFile>,
) -> (result: Vec<Binding<(String, String)>>)
    ensures
        views(result@) == marked_sources(
            views(functions@),
            views(closures@),
            views(file_identities@),
            functions@.len() as int,
        ),
{
    let mut result: Vec<Binding<(String, String)>> = Vec::new();
    let mut index: usize = 0;
    proof {
        assert(views(result@) =~= Seq::empty());
    }
    while index < functions.len()
        invariant
            index <= functions@.len(),
            views(result@) == marked_sources(
                views(functions@),
                views(closures@),
                views(file_identities@),
                index as int,
            ),
        decreases functions@.len() - index,
    {
        let function = &functions[index];
        proof {
            assert(views(functions@)[index as int] == function@);
        }
        match (
            closure_for_body_span(&function.body_span, closures, file_identities),
            compiler_closure_marker(function.definition_name.as_str()),
        ) {
            (Some(closure), Some(marker)) => {
                bind(&mut result, marker, (closure.identity.clone(), closure.lambda.clone()));
            },
            _ => {},
        }
        index += 1;
    }
    result
}

fn direct_closures(functions: &Vec<SemanticFunction>, table: &ClosureTable) -> (result: Vec<
    Binding<(String, String)>,
>)
    ensures
        views(result@) == direct_instances(views(functions@), table@, functions@.len() as int),
{
    let mut result: Vec<Binding<(String, String)>> = Vec::new();
    let mut index: usize = 0;
    proof {
        assert(views(result@) =~= Seq::empty());
    }
    while index < functions.len()
        invariant
            index <= functions@.len(),
            views(result@) == direct_instances(views(functions@), table@, index as int),
        decreases functions@.len() - index,
    {
        let function = &functions[index];
        proof {
            assert(views(functions@)[index as int] == function@);
        }
        match closure_for_body_span(&function.body_span, &table.closures, &table.identities) {
            Some(closure) => {
                let located = canonicalize_closure_value(
                    function.key.as_str(),
                    table,
                    ClosureRewrite::Identity,
                );
                let key = replace_closure_definition(located.as_str(), closure.identity.as_str());
                let instance = closure_instance_display(
                    closure.lambda.as_str(),
                    function.display.as_str(),
                );
                let display = canonicalize_closure_value(
                    instance.as_str(),
                    table,
                    ClosureRewrite::Display,
                );
                bind(&mut result, function.key.clone(), (key, display));
            },
            None => {},
        }
        index += 1;
    }
    result
}

/// Gives the closures of a program the names that the source gives them.
pub fn canonicalize_semantic_closures(
    syntax: &Vec<FunctionInfo>,
    semantic: &mut SemanticProgram,
    file_identities: &Vec<KnownFile>,
)
    ensures
        final(semantic)@ == canonical_program(
            function_models(syntax@),
            old(semantic)@,
            views(file_identities@),
        ),
{
    let closures = source_closures(syntax);
    let sources = mark_sources(&semantic.functions, &closures, file_identities);
    let mut table = ClosureTable {
        closures,
        identities: copy_list(file_identities),
        sources,
        direct: Vec::new(),
    };
    proof {
        assert(views(table.direct@) =~= Seq::empty());
        assert(table@ =~= source_table(
            function_models(syntax@),
            semantic@.functions,
            views(file_identities@),
        ));
    }
    table.direct = direct_closures(&semantic.functions, &table);
    let ghost known = closure_table(
        function_models(syntax@),
        semantic@.functions,
        views(file_identities@),
    );
    proof {
        assert(table@ =~= known);
    }
    let mut functions: Vec<SemanticFunction> = Vec::new();
    let mut index: usize = 0;
    while index < semantic.functions.len()
        invariant
            index <= semantic.functions@.len(),
            *semantic == *old(semantic),
            table@ == known,
            functions@.len() == index,
            forall|k: int|
                0 <= k < index ==> (#[trigger] functions@[k])@ == canonical_function(
                    known,
                    semantic.functions@[k]@,
                ),
        decreases semantic.functions@.len() - index,
    {
        functions.push(canonicalize_function(&semantic.functions[index], &table));
        index += 1;
    }
    proof {
        assert(views(functions@) =~= semantic@.functions.map_values(
            |function: SemanticModel| canonical_function(known, function),
        ));
    }
    semantic.functions = functions;
}

} // verus!
