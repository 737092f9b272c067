//! How stretches of a source file lie to each other.
use crate::files::{file_identity, unresolved_identity};
use crate::model::{SourceSpan, SpanModel};
use crate::paths::{optional_path, SourcePath};
use vstd::prelude::*;

verus! {

/// Whether a place in a file is not behind another.
pub open spec fn not_after(
    line: usize,
    column: usize,
    other_line: usize,
    other_column: usize,
) -> bool {
    line < other_line || (line == other_line && column <= other_column)
}

/// Whether a place in a file is not behind another.
pub fn position_le(
    left_line: usize,
    left_column: usize,
    right_line: usize,
    right_column: usize,
) -> (result: bool)
    ensures
        result == not_after(left_line, left_column, right_line, right_column),
{
    left_line < right_line || (left_line == right_line && left_column <= right_column)
}

/// Whether a stretch lies in another, by lines and columns alone.
pub open spec fn contains_span(outer: SpanModel, inner: SpanModel) -> bool {
    not_after(outer.start_line, outer.start_column, inner.start_line, inner.start_column)
        && not_after(inner.end_line, inner.end_column, outer.end_line, outer.end_column)
}

/// Whether a stretch lies in another, by lines and columns alone.
pub fn span_contains(outer: &SourceSpan, inner: &SourceSpan) -> (result: bool)
    ensures
        result == contains_span(outer@, inner@),
{
    position_le(outer.start_line, outer.start_column, inner.start_line, inner.start_column)
        && position_le(inner.end_line, inner.end_column, outer.end_line, outer.end_column)
}

/// Whether two stretches meet, by lines and columns alone.
pub open spec fn overlap(left: SpanModel, right: SpanModel) -> bool {
    not_after(left.start_line, left.start_column, right.end_line, right.end_column) && not_after(
        right.start_line,
        right.start_column,
        left.end_line,
        left.end_column,
    )
}

/// Whether two stretches meet, by lines and columns alone.
pub fn spans_overlap(left: &SourceSpan, right: &SourceSpan) -> (result: bool)
    ensures
        result == overlap(left@, right@),
{
    position_le(left.start_line, left.start_column, right.end_line, right.end_column)
        && position_le(right.start_line, right.start_column, left.end_line, left.end_column)
}

/// Whether two stretches have the same lines and columns.
pub open spec fn same_coordinates(left: SpanModel, right: SpanModel) -> bool {
    left.start_line == right.start_line && left.start_column == right.start_column
        && left.end_line == right.end_line && left.end_column == right.end_column
}

/// Whether two stretches have the same lines and columns.
pub fn span_coordinates_equal(left: &SourceSpan, right: &SourceSpan) -> (result: bool)
    ensures
        result == same_coordinates(left@, right@),
{
    left.start_line == right.start_line && left.start_column == right.start_column && left.end_line
        == right.end_line && left.end_column == right.end_column
}

/// What is left of `value` behind `less`; nothing where there is no more.
pub open spec fn monus(value: usize, less: usize) -> int {
    if value >= less {
        value - less
    } else {
        0
    }
}

/// How far a stretch reaches: a line counts as ten thousand columns.
pub open spec fn extent(span: SpanModel) -> int {
    monus(span.end_line, span.start_line) * 10_000 + monus(span.end_column, span.start_column)
}

/// How far a stretch reaches: a line counts as ten thousand columns.
pub fn span_size(span: &SourceSpan) -> (result: u128)
    ensures
        result == extent(span@),
{
    span.end_line.saturating_sub(span.start_line) as u128 * 10_000 + span.end_column.saturating_sub(
        span.start_column,
    ) as u128
}

/// The difference of two numbers.
pub open spec fn apart(left: usize, right: usize) -> int {
    if left >= right {
        left - right
    } else {
        right - left
    }
}

/// How far apart two stretches begin: a line counts as ten thousand columns.
pub open spec fn start_distance(left: SpanModel, right: SpanModel) -> int {
    apart(left.start_line, right.start_line) * 10_000 + apart(left.start_column, right.start_column)
}

/// The difference of two numbers.
pub fn difference(left: usize, right: usize) -> (result: usize)
    ensures
        result == apart(left, right),
{
    if left >= right {
        left - right
    } else {
        right - left
    }
}

/// How far apart two stretches begin: a line counts as ten thousand columns.
pub fn span_distance(left: &SourceSpan, right: &SourceSpan) -> (result: u128)
    ensures
        result == start_distance(left@, right@),
        result <= 18_446_744_073_709_551_615 * 10_001,
{
    difference(left.start_line, right.start_line) as u128 * 10_000 + difference(
        left.start_column,
        right.start_column,
    ) as u128
}

/// How far apart two stretches end: a line counts as ten thousand columns.
pub open spec fn end_distance(left: SpanModel, right: SpanModel) -> int {
    apart(left.end_line, right.end_line) * 10_000 + apart(left.end_column, right.end_column)
}

/// How far apart two stretches begin and end.
pub open spec fn boundary_distance(left: SpanModel, right: SpanModel) -> int {
    start_distance(left, right) + end_distance(left, right)
}

/// How far apart two stretches begin and end.
pub fn span_boundary_distance(left: &SourceSpan, right: &SourceSpan) -> (result: u128)
    ensures
        result == boundary_distance(left@, right@),
{
    let start: u128 = span_distance(left, right);
    let end: u128 = difference(left.end_line, right.end_line) as u128 * 10_000 + difference(
        left.end_column,
        right.end_column,
    ) as u128;
    start + end
}

/// A stretch that rustc tells: its columns begin at one, and an end that is
/// missing is that of the first line.
pub open spec fn compiler_span(
    file: Seq<char>,
    current: Option<Seq<char>>,
    start: (usize, usize),
    end: (usize, usize),
) -> SpanModel {
    SpanModel {
        file: unresolved_identity(file, current),
        start_line: start.0,
        start_column: if start.1 == 0 {
            0
        } else {
            (start.1 - 1) as usize
        },
        start_byte: None,
        end_line: if end.0 < start.0 {
            start.0
        } else {
            end.0
        },
        end_column: if end.1 == 0 {
            0
        } else {
            (end.1 - 1) as usize
        },
        end_byte: None,
    }
}

/// A stretch that rustc tells by the lines and columns of its ends, in a file
/// that is named from the current directory on.
pub fn rustc_source_span(
    file: SourcePath,
    current: Option<SourcePath>,
    start: (usize, usize),
    end: (usize, usize),
) -> (result: SourceSpan)
    ensures
        result@ == compiler_span(file@, optional_path(current), start, end),
{
    SourceSpan {
        file: file_identity(&file, None, current),
        start_line: start.0,
        start_column: start.1.saturating_sub(1),
        start_byte: None,
        end_line: if end.0 < start.0 {
            start.0
        } else {
            end.0
        },
        end_column: end.1.saturating_sub(1),
        end_byte: None,
    }
}

/// A stretch lies in itself, and stretches that lie in each other have the
/// same lines and columns.
pub proof fn containment_laws(left: SpanModel, right: SpanModel, third: SpanModel)
    ensures
        contains_span(left, left),
        contains_span(left, right) && contains_span(right, left) ==> same_coordinates(left, right),
        contains_span(left, right) && contains_span(right, third) ==> contains_span(left, third),
        overlap(left, right) == overlap(right, left),
        start_distance(left, right) == start_distance(right, left),
        boundary_distance(left, right) == boundary_distance(right, left),
        boundary_distance(left, right) == 0 <==> same_coordinates(left, right),
{
}

} // verus!
