//! Rails of back edges are drawn beside the lines, never over them.
use crate::render::{
    connected, drawn, line_length, padded, rail_column, rail_end, widest, with_glyph, with_rail,
    with_run, LineModel,
};
use crate::text::{is_space, trimmed_end};
use vstd::prelude::*;

verus! {

/// Whether a text begins with another.
pub open spec fn starts_as(text: Seq<char>, front: Seq<char>) -> bool {
    front.len() <= text.len() && text.subrange(0, front.len() as int) == front
}

proof fn glyphs_keep_the_front(row: Seq<char>, column: nat, glyph: char, front: Seq<char>)
    requires
        starts_as(row, front),
        front.len() <= column,
    ensures
        starts_as(with_glyph(row, column, glyph), front),
{
    let drawn = with_glyph(row, column, glyph);
    assert(drawn.len() >= row.len());
    assert forall|at: int| 0 <= at < front.len() implies drawn[at] == #[trigger] front[at] by {
        assert(row.subrange(0, front.len() as int)[at] == front[at]);
        assert(padded(row, column + 1)[at] == row[at]);
    }
    assert(drawn.subrange(0, front.len() as int) =~= front);
}

proof fn runs_keep_the_front(row: Seq<char>, from: nat, to: nat, glyph: char, front: Seq<char>)
    requires
        starts_as(row, front),
        front.len() <= from,
    ensures
        starts_as(with_run(row, from, to, glyph), front),
    decreases to - from,
{
    if from < to {
        glyphs_keep_the_front(row, from, glyph, front);
        runs_keep_the_front(with_glyph(row, from, glyph), from + 1, to, glyph, front);
    }
}

proof fn lines_are_no_wider(lines: Seq<LineModel>, index: int, count: nat)
    requires
        0 <= index < count <= lines.len(),
    ensures
        line_length(lines[index]) <= widest(lines, count),
    decreases count,
{
    if index < count - 1 {
        lines_are_no_wider(lines, index, (count - 1) as nat);
    }
}

proof fn rails_keep_the_front(
    lines: Seq<LineModel>,
    row: Seq<char>,
    index: nat,
    start: nat,
    end: nat,
)
    requires
        index < lines.len(),
        starts_as(row, trimmed_end(lines[index as int].text)),
    ensures
        starts_as(
            with_rail(lines, row, index, start, end),
            trimmed_end(lines[index as int].text),
        ),
{
    let front = trimmed_end(lines[index as int].text);
    let rail = rail_column(lines, start);
    let length = line_length(lines[index as int]);
    lines_are_no_wider(lines, index as int, lines.len());
    if index == start {
        glyphs_keep_the_front(row, length + 1, '◀', front);
        let arrow = with_glyph(row, length + 1, '◀');
        runs_keep_the_front(arrow, length + 2, rail, '─', front);
        glyphs_keep_the_front(with_run(arrow, length + 2, rail, '─'), rail, '┐', front);
    } else if start < index < end {
        glyphs_keep_the_front(row, rail, '│', front);
        let crossed = with_glyph(row, rail, '│');
        runs_keep_the_front(crossed, length + 1, rail, '─', front);
        glyphs_keep_the_front(with_run(crossed, length + 1, rail, '─'), rail, '┤', front);
    } else if index == end {
        runs_keep_the_front(row, length + 1, rail, '─', front);
        glyphs_keep_the_front(with_run(row, length + 1, rail, '─'), rail, '┘', front);
    }
}

proof fn drawings_keep_the_front(lines: Seq<LineModel>, index: nat, count: nat)
    requires
        index < lines.len(),
        count <= lines.len(),
    ensures
        starts_as(drawn(lines, index, count), trimmed_end(lines[index as int].text)),
    decreases count,
{
    let front = trimmed_end(lines[index as int].text);
    if count == 0 {
        assert(front.subrange(0, front.len() as int) =~= front);
    } else {
        let start = (count - 1) as nat;
        drawings_keep_the_front(lines, index, start);
        if rail_end(lines, start) is Some {
            rails_keep_the_front(
                lines,
                drawn(lines, index, start),
                index,
                start,
                rail_end(lines, start)->0,
            );
        }
    }
}

proof fn trimming_keeps_the_front(row: Seq<char>, front: Seq<char>)
    requires
        starts_as(row, front),
        front.len() > 0 ==> !is_space(front.last()),
    ensures
        starts_as(trimmed_end(row), front),
    decreases row.len(),
{
    if row.len() > 0 && is_space(row.last()) {
        if row.len() == front.len() {
            assert(row.subrange(0, front.len() as int) =~= row);
        }
        assert(row.drop_last().subrange(0, front.len() as int) =~= row.subrange(
            0,
            front.len() as int,
        ));
        trimming_keeps_the_front(row.drop_last(), front);
    }
}

proof fn trimmed_texts_end_without_a_space(text: Seq<char>)
    ensures
        trimmed_end(text).len() > 0 ==> !is_space(trimmed_end(text).last()),
        starts_as(text, trimmed_end(text)),
    decreases text.len(),
{
    if text.len() > 0 && is_space(text.last()) {
        trimmed_texts_end_without_a_space(text.drop_last());
        let front = trimmed_end(text);
        assert(text.drop_last().subrange(0, front.len() as int) =~= text.subrange(
            0,
            front.len() as int,
        ));
    } else {
        assert(text.subrange(0, text.len() as int) =~= text);
    }
}

/// A line with the rails of back edges still begins with its own text, up to
/// the spaces at its end.
pub proof fn rails_keep_the_lines(lines: Seq<LineModel>, index: nat)
    requires
        index < lines.len(),
    ensures
        starts_as(connected(lines, index), trimmed_end(lines[index as int].text)),
{
    let text = lines[index as int].text;
    trimmed_texts_end_without_a_space(text);
    drawings_keep_the_front(lines, index, lines.len());
    trimming_keeps_the_front(drawn(lines, index, lines.len()), trimmed_end(text));
}

} // verus!
