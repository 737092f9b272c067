//! Call trees and their comparisons as text.
use crate::diff::{compared, diff_optional, DiffModel, DiffNode, DiffStatus};
use crate::diff_laws::{carries_previous_labels, comparisons_carry_labels};
use crate::engine::{
    DiffReport, DiffReportModel, EntryDiffModel, EntryTreeModel, TreeReport, TreeReportModel,
};
use crate::model::{label_text, CallNode, CallRelation};
use crate::text::{
    chars_of, concat_texts, join_texts, joined, optional, same_text, text_of, texts, trim_end_text,
    trimmed_end,
};
use vstd::prelude::*;

verus! {

/// Whether lines are colored with terminal control sequences.
#[derive(Clone, Copy, Debug, PartialEq, Eq, Structural)]
pub enum ColorMode {
    Ansi,
    Plain,
}

impl Default for ColorMode {
    fn default() -> (result: Self)
        ensures
            result == ColorMode::Ansi,
    {
        ColorMode::Ansi
    }
}

/// How trees are shown.
#[derive(Clone, Copy, Debug, PartialEq, Eq, Structural)]
pub struct RenderOptions {
    pub show_types: bool,
    pub color: ColorMode,
}

impl Default for RenderOptions {
    fn default() -> (result: Self)
        ensures
            result == (RenderOptions { show_types: false, color: ColorMode::Ansi }),
    {
        RenderOptions { show_types: false, color: ColorMode::Ansi }
    }
}

/// A color of changed lines.
#[derive(Clone, Copy, Debug, PartialEq, Eq, Structural)]
pub enum AnsiColor {
    Red,
    Green,
}

/// A line of a tree.
#[derive(Debug)]
pub struct RenderLine {
    pub text: String,
    pub color: Option<AnsiColor>,
    /// The key of a node that back edges may lead to.
    pub key: Option<String>,
    /// The key of the node that this back edge leads to.
    pub backedge_target: Option<String>,
}

#[verifier::ext_equal]
pub struct LineModel {
    pub text: Seq<char>,
    pub color: Option<AnsiColor>,
    pub key: Option<Seq<char>>,
    pub backedge_target: Option<Seq<char>>,
}

impl View for RenderLine {
    type V = LineModel;

    open spec fn view(&self) -> LineModel {
        LineModel {
            text: self.text@,
            color: self.color,
            key: optional(self.key),
            backedge_target: optional(self.backedge_target),
        }
    }
}

/// The models of a list of lines.
pub open spec fn line_models(lines: Seq<RenderLine>) -> Seq<LineModel> {
    lines.map_values(|line: RenderLine| line@)
}

/// What connects a node to its parent.
pub open spec fn branch_text(relation: CallRelation, is_last: bool, is_root: bool) -> Seq<char> {
    if is_root {
        ""@
    } else {
        match (relation, is_last) {
            (CallRelation::DispatchCandidate, false) => "╠═ "@,
            (CallRelation::DispatchCandidate, true) => "╚═ "@,
            (_, false) => "├─ "@,
            (_, true) => "└─ "@,
        }
    }
}

fn branch(relation: CallRelation, is_last: bool, is_root: bool) -> (result: &'static str)
    ensures
        result@ == branch_text(relation, is_last, is_root),
{
    if is_root {
        ""
    } else {
        match (relation, is_last) {
            (CallRelation::DispatchCandidate, false) => "╠═ ",
            (CallRelation::DispatchCandidate, true) => "╚═ ",
            (_, false) => "├─ ",
            (_, true) => "└─ ",
        }
    }
}

/// The mark and the color of a line of a status. A modified node's new line
/// looks like an added one.
pub open spec fn status_mark(status: DiffStatus) -> (Seq<char>, Option<AnsiColor>) {
    match status {
        DiffStatus::Same => ("  "@, None),
        DiffStatus::Added => ("+ "@, Some(AnsiColor::Green)),
        DiffStatus::Removed => ("- "@, Some(AnsiColor::Red)),
        DiffStatus::Modified => ("+ "@, Some(AnsiColor::Green)),
    }
}

fn mark_of(status: DiffStatus) -> (result: (&'static str, Option<AnsiColor>))
    ensures
        (result.0@, result.1) == status_mark(status),
{
    match status {
        DiffStatus::Same => ("  ", None),
        DiffStatus::Added => ("+ ", Some(AnsiColor::Green)),
        DiffStatus::Removed => ("- ", Some(AnsiColor::Red)),
        DiffStatus::Modified => ("+ ", Some(AnsiColor::Green)),
    }
}

/// The key of a node that back edges may lead to: one with children.
pub open spec fn anchor(node: DiffModel) -> Option<Seq<char>> {
    if node.children.len() > 0 {
        Some(node.key)
    } else {
        None
    }
}

/// The line or lines of a node itself. A modified node shows its previous
/// label first.
pub open spec fn own_lines(
    node: DiffModel,
    indent: Seq<char>,
    is_last: bool,
    is_root: bool,
    types: bool,
) -> Seq<LineModel> {
    let (mark, color) = status_mark(node.status);
    let text = mark + indent + branch_text(node.relation, is_last, is_root) + label_text(
        node.label,
        types,
    );
    if node.relation == CallRelation::BackEdge {
        seq![LineModel { text, color, key: None, backedge_target: Some(node.key) }]
    } else {
        let line = LineModel { text, color, key: anchor(node), backedge_target: None };
        if node.status == DiffStatus::Modified {
            let relation = match node.before_relation {
                Some(relation) => relation,
                None => node.relation,
            };
            let before = "- "@ + indent + branch_text(relation, is_last, is_root) + label_text(
                node.before_label->0,
                types,
            );
            seq![
                LineModel {
                    text: before,
                    color: Some(AnsiColor::Red),
                    key: anchor(node),
                    backedge_target: None,
                },
                line,
            ]
        } else {
            seq![line]
        }
    }
}

/// What stands in front of the children of a node.
pub open spec fn child_indent(
    node: DiffModel,
    indent: Seq<char>,
    is_last: bool,
    is_root: bool,
) -> Seq<char> {
    if is_root {
        Seq::empty()
    } else if is_last {
        indent + "   "@
    } else if node.relation == CallRelation::DispatchCandidate {
        indent + "║  "@
    } else {
        indent + "│  "@
    }
}

/// The lines of a tree. A back edge shows no children.
pub open spec fn tree_lines(
    node: DiffModel,
    indent: Seq<char>,
    is_last: bool,
    is_root: bool,
    types: bool,
) -> Seq<LineModel>
    decreases node, 0nat,
{
    let own = own_lines(node, indent, is_last, is_root, types);
    if node.relation == CallRelation::BackEdge {
        own
    } else {
        own + children_lines(
            node.children,
            child_indent(node, indent, is_last, is_root),
            types,
            node.children.len(),
        )
    }
}

/// The lines of the first `count` children.
pub open spec fn children_lines(
    children: Seq<DiffModel>,
    indent: Seq<char>,
    types: bool,
    count: nat,
) -> Seq<LineModel>
    decreases children, count,
{
    if count == 0 || count > children.len() {
        Seq::empty()
    } else {
        children_lines(children, indent, types, (count - 1) as nat) + tree_lines(
            children[count - 1],
            indent,
            count == children.len(),
            false,
            types,
        )
    }
}

fn line_text(mark: &str, indent: &str, branch: &str, label: &str) -> (result: String)
    ensures
        result@ == mark@ + indent@ + branch@ + label@,
{
    let mut result = concat_texts(mark, indent);
    result.append(branch);
    result.append(label);
    result
}

fn backedge_anchor(node: &DiffNode) -> (result: Option<String>)
    ensures
        optional(result) == anchor(node@),
{
    if node.children.len() > 0 {
        Some(node.key.clone())
    } else {
        None
    }
}

fn push_line(lines: &mut Vec<RenderLine>, line: RenderLine)
    ensures
        line_models(final(lines)@) == line_models(old(lines)@).push(line@),
{
    let ghost before = line_models(lines@);
    lines.push(line);
    proof {
        assert(line_models(lines@) =~= before.push(line@));
    }
}

#[verifier::rlimit(30)]
fn render_node(
    node: &DiffNode,
    indent: &str,
    is_last: bool,
    is_root: bool,
    options: &RenderOptions,
    lines: &mut Vec<RenderLine>,
)
    requires
        carries_previous_labels(node@),
    ensures
        line_models(final(lines)@) == line_models(old(lines)@) + tree_lines(
            node@,
            indent@,
            is_last,
            is_root,
            options.show_types,
        ),
    decreases node,
{
    let ghost start = line_models(lines@);
    let ghost own = own_lines(node@, indent@, is_last, is_root, options.show_types);
    let (mark, color) = mark_of(node.status);
    let branch_prefix = branch(node.relation, is_last, is_root);
    let text = line_text(mark, indent, branch_prefix, node.label.text(options.show_types));
    if node.relation == CallRelation::BackEdge {
        push_line(
            lines,
            RenderLine { text, color, key: None, backedge_target: Some(node.key.clone()) },
        );
        proof {
            assert(line_models(lines@) =~= start + own);
        }
        return ;
    }
    if node.status == DiffStatus::Modified {
        if let Some(label) = &node.before_label {
            let relation = match node.before_relation {
                Some(relation) => relation,
                None => node.relation,
            };
            let before = line_text(
                "- ",
                indent,
                branch(relation, is_last, is_root),
                label.text(options.show_types),
            );
            push_line(
                lines,
                RenderLine {
                    text: before,
                    color: Some(AnsiColor::Red),
                    key: backedge_anchor(node),
                    backedge_target: None,
                },
            );
        }
    }
    push_line(
        lines,
        RenderLine { text, color, key: backedge_anchor(node), backedge_target: None },
    );
    proof {
        assert(line_models(lines@) =~= start + own);
    }
    let child_indent_text = if is_root {
        String::new()
    } else if is_last {
        concat_texts(indent, "   ")
    } else if node.relation == CallRelation::DispatchCandidate {
        concat_texts(indent, "║  ")
    } else {
        concat_texts(indent, "│  ")
    };
    let ghost inner = child_indent(node@, indent@, is_last, is_root);
    let count: usize = node.children.len();
    let mut index: usize = 0;
    proof {
        assert(start + own + children_lines(node@.children, inner, options.show_types, 0)
            =~= start + own);
    }
    while index < count
        invariant
            index <= count,
            count == node.children@.len(),
            node.relation != CallRelation::BackEdge,
            carries_previous_labels(node@),
            child_indent_text@ == inner,
            line_models(lines@) == start + own + children_lines(
                node@.children,
                inner,
                options.show_types,
                index as nat,
            ),
        decreases count - index,
    {
        let child = &node.children[index];
        assert(decreases_to!(node => child));
        assert(node@.children[index as int] == child@);
        let ghost before = line_models(lines@);
        render_node(
            child,
            child_indent_text.as_str(),
            index + 1 == count,
            false,
            options,
            lines,
        );
        proof {
            let lower = children_lines(node@.children, inner, options.show_types, index as nat);
            let next = tree_lines(
                child@,
                inner,
                index + 1 == count,
                false,
                options.show_types,
            );
            assert(children_lines(
                node@.children,
                inner,
                options.show_types,
                (index + 1) as nat,
            ) == lower + next);
            assert(start + own + lower + next =~= start + own + (lower + next));
        }
        index += 1;
    }
    proof {
        let all = children_lines(node@.children, inner, options.show_types, count as nat);
        assert(start + own + all =~= start + (own + all));
    }
}

/// How many characters a line has without white space at the end.
pub open spec fn line_length(line: LineModel) -> nat {
    trimmed_end(line.text).len()
}

/// The length of the longest of the first `count` lines.
pub open spec fn widest(lines: Seq<LineModel>, count: nat) -> nat
    decreases count,
{
    if count == 0 {
        0
    } else {
        let before = widest(lines, (count - 1) as nat);
        let length = line_length(lines[count - 1]);
        if length > before {
            length
        } else {
            before
        }
    }
}

/// The last of the first `count` lines that stands for the node of a key.
pub open spec fn last_anchor(lines: Seq<LineModel>, key: Seq<char>, count: nat) -> Option<nat>
    decreases count,
{
    if count == 0 {
        None
    } else if lines[count - 1].key == Some(key) {
        Some((count - 1) as nat)
    } else {
        last_anchor(lines, key, (count - 1) as nat)
    }
}

/// Where the back edge of a line leads to, where it is one.
pub open spec fn edge_start(lines: Seq<LineModel>, end: int) -> Option<nat> {
    match lines[end].backedge_target {
        Some(key) => last_anchor(lines, key, end as nat),
        None => None,
    }
}

/// The last of the first `count` lines whose back edge leads to `start`.
pub open spec fn last_end(lines: Seq<LineModel>, start: nat, count: nat) -> Option<nat>
    decreases count,
{
    if count == 0 {
        None
    } else if edge_start(lines, count - 1) == Some(start) {
        Some((count - 1) as nat)
    } else {
        last_end(lines, start, (count - 1) as nat)
    }
}

/// The last line whose back edge leads to `start`.
pub open spec fn rail_end(lines: Seq<LineModel>, start: nat) -> Option<nat> {
    last_end(lines, start, lines.len())
}

/// How many of the first `count` lines back edges lead to.
pub open spec fn rail_count(lines: Seq<LineModel>, count: nat) -> nat
    decreases count,
{
    if count == 0 {
        0
    } else {
        rail_count(lines, (count - 1) as nat) + if rail_end(lines, (count - 1) as nat) is Some {
            1nat
        } else {
            0
        }
    }
}

/// The column of the rail that leads to a line: three apart, right of all
/// lines.
pub open spec fn rail_column(lines: Seq<LineModel>, start: nat) -> nat {
    widest(lines, lines.len()) + 3 + rail_count(lines, start) * 3
}

/// What is left of a character when another is drawn over it.
pub open spec fn merged(existing: char, next: char) -> char {
    if (existing == '─' && next == '│') || (existing == '│' && next == '─') {
        '┼'
    } else {
        next
    }
}

/// A row, with blanks up to a length.
pub open spec fn padded(row: Seq<char>, length: nat) -> Seq<char> {
    if row.len() >= length {
        row
    } else {
        row + Seq::new((length - row.len()) as nat, |index: int| ' ')
    }
}

/// A row with a character drawn in a column.
pub open spec fn with_glyph(row: Seq<char>, column: nat, glyph: char) -> Seq<char> {
    let wide = padded(row, column + 1);
    wide.update(column as int, merged(wide[column as int], glyph))
}

/// A row with a character drawn in the columns from `from` up to `to`.
pub open spec fn with_run(row: Seq<char>, from: nat, to: nat, glyph: char) -> Seq<char>
    decreases to - from,
{
    if from >= to {
        row
    } else {
        with_run(with_glyph(row, from, glyph), from + 1, to, glyph)
    }
}

/// A row with its part of the rail that leads to the line `start`.
pub open spec fn with_rail(
    lines: Seq<LineModel>,
    row: Seq<char>,
    index: nat,
    start: nat,
    end: nat,
) -> Seq<char> {
    let rail = rail_column(lines, start);
    let length = line_length(lines[index as int]);
    if index == start {
        with_glyph(
            with_run(with_glyph(row, length + 1, '◀'), length + 2, rail, '─'),
            rail,
            '┐',
        )
    } else if start < index < end {
        let crossed = with_glyph(row, rail, '│');
        if edge_start(lines, index as int) == Some(start) {
            with_glyph(with_run(crossed, length + 1, rail, '─'), rail, '┤')
        } else {
            crossed
        }
    } else if index == end {
        with_glyph(with_run(row, length + 1, rail, '─'), rail, '┘')
    } else {
        row
    }
}

/// The row of a line with its parts of the rails that lead to the first
/// `count` lines.
pub open spec fn drawn(lines: Seq<LineModel>, index: nat, count: nat) -> Seq<char>
    decreases count,
{
    if count == 0 {
        trimmed_end(lines[index as int].text)
    } else {
        let start = (count - 1) as nat;
        let before = drawn(lines, index, start);
        match rail_end(lines, start) {
            Some(end) => with_rail(lines, before, index, start, end),
            None => before,
        }
    }
}

/// The text of a line with the rails of all back edges.
pub open spec fn connected(lines: Seq<LineModel>, index: nat) -> Seq<char> {
    if rail_count(lines, lines.len()) == 0 {
        lines[index as int].text
    } else {
        trimmed_end(drawn(lines, index, lines.len()))
    }
}

/// Whether all columns of the rails can be counted.
pub open spec fn rails_fit(lines: Seq<LineModel>) -> bool {
    widest(lines, lines.len()) + 3 + lines.len() * 3 < usize::MAX
}

fn merge_glyph(existing: char, next: char) -> (result: char)
    ensures
        result == merged(existing, next),
{
    if (existing == '─' && next == '│') || (existing == '│' && next == '─') {
        '┼'
    } else {
        next
    }
}

fn set_glyph(row: &mut Vec<char>, column: usize, glyph: char)
    requires
        column < usize::MAX,
    ensures
        final(row)@ == with_glyph(old(row)@, column as nat, glyph),
{
    let ghost before = row@;
    while row.len() <= column
        invariant
            column < usize::MAX,
            before.len() <= row@.len(),
            row@.len() <= column + 1 || row@ == before,
            row@ == padded(before, row@.len()),
        decreases column + 1 - row@.len(),
    {
        row.push(' ');
        proof {
            assert(row@ =~= padded(before, row@.len()));
        }
    }
    proof {
        assert(row@ =~= padded(before, (column + 1) as nat));
    }
    let merged_glyph: char = merge_glyph(row[column], glyph);
    row.set(column, merged_glyph);
}

fn set_run(row: &mut Vec<char>, from: usize, to: usize, glyph: char)
    ensures
        final(row)@ == with_run(old(row)@, from as nat, to as nat, glyph),
{
    let ghost before = row@;
    let mut column: usize = from;
    while column < to
        invariant
            from <= column,
            with_run(row@, column as nat, to as nat, glyph) == with_run(
                before,
                from as nat,
                to as nat,
                glyph,
            ),
        decreases to - column,
    {
        set_glyph(row, column, glyph);
        column += 1;
    }
}

proof fn widest_is_widest(lines: Seq<LineModel>, index: int, count: nat)
    requires
        0 <= index < count <= lines.len(),
    ensures
        line_length(lines[index]) <= widest(lines, count),
    decreases count,
{
    if index < count - 1 {
        widest_is_widest(lines, index, (count - 1) as nat);
    }
}

proof fn rail_count_grows(lines: Seq<LineModel>, left: nat, right: nat)
    requires
        left <= right,
    ensures
        rail_count(lines, left) <= rail_count(lines, right) <= rail_count(lines, left) + (right
            - left),
    decreases right,
{
    if left < right {
        rail_count_grows(lines, left, (right - 1) as nat);
    }
}

proof fn last_anchor_is_before(lines: Seq<LineModel>, key: Seq<char>, count: nat)
    ensures
        last_anchor(lines, key, count) matches Some(found) ==> found < count,
    decreases count,
{
    if count > 0 {
        last_anchor_is_before(lines, key, (count - 1) as nat);
    }
}

proof fn last_end_is_behind(lines: Seq<LineModel>, start: nat, count: nat)
    ensures
        last_end(lines, start, count) matches Some(found) ==> start < found < count,
    decreases count,
{
    if count > 0 {
        last_end_is_behind(lines, start, (count - 1) as nat);
        if let Some(key) = lines[count - 1].backedge_target {
            last_anchor_is_before(lines, key, (count - 1) as nat);
        }
    }
}

/// Where the back edge of a line leads to, where it is one.
fn find_start(lines: &Vec<RenderLine>, end: usize) -> (result: Option<usize>)
    requires
        end < lines@.len(),
    ensures
        match result {
            Some(start) => edge_start(line_models(lines@), end as int) == Some(start as nat),
            None => edge_start(line_models(lines@), end as int) is None,
        },
{
    let ghost models = line_models(lines@);
    assert(models[end as int] == lines@[end as int]@);
    match &lines[end].backedge_target {
        None => None,
        Some(target) => {
            let mut index: usize = end;
            while index > 0
                invariant
                    index <= end < lines@.len(),
                    models == line_models(lines@),
                    models[end as int].backedge_target == Some(target@),
                    last_anchor(models, target@, index as nat) == last_anchor(
                        models,
                        target@,
                        end as nat,
                    ),
                decreases index,
            {
                assert(models[index - 1] == lines@[index - 1]@);
                if let Some(key) = &lines[index - 1].key {
                    if same_text(key.as_str(), target.as_str()) {
                        return Some(index - 1);
                    }
                }
                index -= 1;
            }
            None
        },
    }
}

/// The last line whose back edge leads to `start`.
fn find_end(starts: &Vec<Option<usize>>, start: usize, Ghost(models): Ghost<Seq<LineModel>>)
    -> (result: Option<usize>)
    requires
        starts@.len() == models.len(),
        forall|k: int|
            0 <= k < starts@.len() ==> match #[trigger] starts@[k] {
                Some(found) => edge_start(models, k) == Some(found as nat),
                None => edge_start(models, k) is None,
            },
    ensures
        match result {
            Some(end) => rail_end(models, start as nat) == Some(end as nat),
            None => rail_end(models, start as nat) is None,
        },
{
    let mut index: usize = starts.len();
    while index > 0
        invariant
            index <= starts@.len(),
            starts@.len() == models.len(),
            forall|k: int|
                0 <= k < starts@.len() ==> match #[trigger] starts@[k] {
                    Some(found) => edge_start(models, k) == Some(found as nat),
                    None => edge_start(models, k) is None,
                },
            last_end(models, start as nat, index as nat) == rail_end(models, start as nat),
        decreases index,
    {
        if let Some(found) = starts[index - 1] {
            if found == start {
                return Some(index - 1);
            }
        }
        index -= 1;
    }
    None
}

fn draw_rail(
    row: &mut Vec<char>,
    length: usize,
    index: usize,
    start: usize,
    end: usize,
    rail: usize,
    is_end: bool,
    Ghost(models): Ghost<Seq<LineModel>>,
)
    requires
        index < models.len(),
        length == line_length(models[index as int]),
        rail == rail_column(models, start as nat),
        length + 3 <= rail < usize::MAX,
        start <= index <= end,
        start < end,
        is_end == (edge_start(models, index as int) == Some(start as nat)),
    ensures
        final(row)@ == with_rail(models, old(row)@, index as nat, start as nat, end as nat),
{
    if index == start {
        set_glyph(row, length + 1, '◀');
        set_run(row, length + 2, rail, '─');
        set_glyph(row, rail, '┐');
    } else if index < end {
        set_glyph(row, rail, '│');
        if is_end {
            set_run(row, length + 1, rail, '─');
            set_glyph(row, rail, '┤');
        }
    } else {
        set_run(row, length + 1, rail, '─');
        set_glyph(row, rail, '┘');
    }
}

/// Draws the rails of all back edges: the texts of the lines with them.
#[verifier::rlimit(30)]
fn connect_back_edges(lines: &Vec<RenderLine>) -> (result: Vec<String>)
    requires
        rails_fit(line_models(lines@)),
    ensures
        result@.len() == lines@.len(),
        forall|k: int|
            0 <= k < lines@.len() ==> (#[trigger] result@[k])@ == connected(
                line_models(lines@),
                k as nat,
            ),
{
    let ghost models = line_models(lines@);
    let count: usize = lines.len();
    let mut starts: Vec<Option<usize>> = Vec::new();
    let mut rows: Vec<Vec<char>> = Vec::new();
    let mut lengths: Vec<usize> = Vec::new();
    let mut width: usize = 0;
    let mut index: usize = 0;
    while index < count
        invariant
            index <= count == lines@.len(),
            models == line_models(lines@),
            starts@.len() == index,
            rows@.len() == index,
            lengths@.len() == index,
            forall|k: int|
                0 <= k < index ==> match #[trigger] starts@[k] {
                    Some(found) => edge_start(models, k) == Some(found as nat),
                    None => edge_start(models, k) is None,
                },
            forall|k: int| 0 <= k < index ==> (#[trigger] rows@[k])@ == drawn(models, k as nat, 0),
            forall|k: int| 0 <= k < index ==> (#[trigger] lengths@[k]) == line_length(models[k]),
            width == widest(models, index as nat),
        decreases count - index,
    {
        assert(models[index as int] == lines@[index as int]@);
        starts.push(find_start(lines, index));
        let trimmed_text = trim_end_text(lines[index].text.as_str());
        let row = chars_of(trimmed_text.as_str());
        let length: usize = row.len();
        rows.push(row);
        lengths.push(length);
        if length > width {
            width = length;
        }
        index += 1;
    }
    let mut rails: usize = 0;
    let mut start: usize = 0;
    while start < count
        invariant
            start <= count == lines@.len(),
            models == line_models(lines@),
            models.len() == count,
            starts@.len() == count,
            rows@.len() == count,
            lengths@.len() == count,
            forall|k: int|
                0 <= k < count ==> match #[trigger] starts@[k] {
                    Some(found) => edge_start(models, k) == Some(found as nat),
                    None => edge_start(models, k) is None,
                },
            forall|k: int|
                0 <= k < count ==> (#[trigger] rows@[k])@ == drawn(models, k as nat, start as nat),
            forall|k: int| 0 <= k < count ==> (#[trigger] lengths@[k]) == line_length(models[k]),
            width == widest(models, count as nat),
            rails_fit(models),
            rails <= start,
            rails == rail_count(models, start as nat),
        decreases count - start,
    {
        let ghost previous = rows@;
        proof {
            last_end_is_behind(models, start as nat, count as nat);
        }
        if let Some(end) = find_end(&starts, start, Ghost(models)) {
            let rail: usize = width + 3 + rails * 3;
            let mut row_index: usize = start;
            while row_index <= end
                invariant
                    start <= row_index <= end + 1,
                    start < end < count,
                    models.len() == count,
                    starts@.len() == count,
                    rows@.len() == count,
                    lengths@.len() == count,
                    previous.len() == count,
                    forall|k: int|
                        0 <= k < count ==> match #[trigger] starts@[k] {
                            Some(found) => edge_start(models, k) == Some(found as nat),
                            None => edge_start(models, k) is None,
                        },
                    forall|k: int|
                        0 <= k < count ==> (#[trigger] lengths@[k]) == line_length(models[k]),
                    width == widest(models, count as nat),
                    rail == rail_column(models, start as nat),
                    width + 3 <= rail < usize::MAX,
                    forall|k: int|
                        start <= k < row_index ==> (#[trigger] rows@[k])@ == with_rail(
                            models,
                            previous[k]@,
                            k as nat,
                            start as nat,
                            end as nat,
                        ),
                    forall|k: int|
                        0 <= k < start || row_index <= k < count ==> (#[trigger] rows@[k])
                            == previous[k],
                decreases end + 1 - row_index,
            {
                proof {
                    widest_is_widest(models, row_index as int, count as nat);
                }
                let is_end = match starts[row_index] {
                    Some(found) => found == start,
                    None => false,
                };
                let length: usize = lengths[row_index];
                draw_rail(
                    &mut rows[row_index],
                    length,
                    row_index,
                    start,
                    end,
                    rail,
                    is_end,
                    Ghost(models),
                );
                row_index += 1;
            }
            rails += 1;
        }
        start += 1;
    }
    let mut result: Vec<String> = Vec::new();
    let mut index: usize = 0;
    while index < count
        invariant
            index <= count == lines@.len(),
            models == line_models(lines@),
            models.len() == count,
            rows@.len() == count,
            forall|k: int|
                0 <= k < count ==> (#[trigger] rows@[k])@ == drawn(models, k as nat, count as nat),
            rails == rail_count(models, count as nat),
            result@.len() == index,
            forall|k: int|
                0 <= k < index ==> (#[trigger] result@[k])@ == connected(models, k as nat),
        decreases count - index,
    {
        assert(models[index as int] == lines@[index as int]@);
        if rails == 0 {
            result.push(lines[index].text.clone());
        } else {
            let text = text_of(rows[index].as_slice());
            result.push(trim_end_text(text.as_str()));
        }
        index += 1;
    }
    result
}

/// A line in a color, or as it is.
pub open spec fn colored(line: Seq<char>, color: Option<AnsiColor>, mode: ColorMode) -> Seq<char> {
    match color {
        Some(color) if mode == ColorMode::Ansi => {
            let code = match color {
                AnsiColor::Red => "31"@,
                AnsiColor::Green => "32"@,
            };
            "\u{1b}["@ + code + "m"@ + line + "\u{1b}[0m"@
        },
        _ => line,
    }
}

/// A line in a color, unless colors are off.
pub fn color_line(line: String, color: AnsiColor, mode: ColorMode) -> (result: String)
    ensures
        result@ == colored(line@, Some(color), mode),
{
    if mode == ColorMode::Plain {
        return line;
    }
    let mut result = match color {
        AnsiColor::Red => concat_texts("\u{1b}[", "31"),
        AnsiColor::Green => concat_texts("\u{1b}[", "32"),
    };
    result.append("m");
    result.append(line.as_str());
    result.append("\u{1b}[0m");
    result
}

/// The lines of a whole tree.
pub open spec fn root_lines(root: DiffModel, options: RenderOptions) -> Seq<LineModel> {
    tree_lines(root, ""@, true, true, options.show_types)
}

/// The texts of the lines of a whole tree, connected and colored.
pub open spec fn shown_lines(root: DiffModel, options: RenderOptions) -> Seq<Seq<char>> {
    let lines = root_lines(root, options);
    Seq::new(
        lines.len(),
        |index: int| colored(connected(lines, index as nat), lines[index].color, options.color),
    )
}

/// A comparison as text.
pub open spec fn diff_tree_text(root: DiffModel, options: RenderOptions) -> Seq<char> {
    joined(shown_lines(root, options), "\n"@)
}

/// Whether a comparison can be shown: its modified nodes carry their previous
/// labels, and the columns of its rails can be counted.
pub open spec fn can_show(root: DiffModel, options: RenderOptions) -> bool {
    carries_previous_labels(root) && rails_fit(root_lines(root, options))
}

/// A comparison as text, with the usual options.
pub fn render_diff_tree(root: &DiffNode) -> (result: String)
    requires
        can_show(root@, RenderOptions { show_types: false, color: ColorMode::Ansi }),
    ensures
        result@ == diff_tree_text(
            root@,
            RenderOptions { show_types: false, color: ColorMode::Ansi },
        ),
{
    render_diff_tree_with_options(root, &RenderOptions::default())
}

/// A comparison as text.
pub fn render_diff_tree_with_options(root: &DiffNode, options: &RenderOptions) -> (result: String)
    requires
        can_show(root@, *options),
    ensures
        result@ == diff_tree_text(root@, *options),
{
    let mut lines: Vec<RenderLine> = Vec::new();
    render_node(root, "", true, true, options, &mut lines);
    proof {
        assert(line_models(lines@) =~= root_lines(root@, *options));
    }
    let connected_texts = connect_back_edges(&lines);
    let ghost models = line_models(lines@);
    let mut shown: Vec<String> = Vec::new();
    let mut index: usize = 0;
    while index < lines.len()
        invariant
            index <= lines@.len(),
            models == line_models(lines@),
            connected_texts@.len() == lines@.len(),
            forall|k: int|
                0 <= k < lines@.len() ==> (#[trigger] connected_texts@[k])@ == connected(
                    models,
                    k as nat,
                ),
            shown@.len() == index,
            forall|k: int|
                0 <= k < index ==> (#[trigger] shown@[k])@ == colored(
                    connected(models, k as nat),
                    models[k].color,
                    options.color,
                ),
        decreases lines@.len() - index,
    {
        assert(models[index as int] == lines@[index as int]@);
        let text = connected_texts[index].clone();
        match lines[index].color {
            Some(color) => {
                shown.push(color_line(text, color, options.color));
            },
            None => {
                shown.push(text);
            },
        }
        index += 1;
    }
    proof {
        assert(texts(shown@) =~= shown_lines(root@, *options));
    }
    join_texts(&shown, "\n")
}

/// A call tree as text: its comparison with itself.
pub fn render_call_tree_with_options(root: &CallNode, options: &RenderOptions) -> (result: String)
    requires
        rails_fit(root_lines(compared(root@, root@), *options)),
    ensures
        result@ == diff_tree_text(compared(root@, root@), *options),
{
    proof {
        comparisons_carry_labels(root@, root@);
    }
    match diff_optional(Some(root), Some(root)) {
        Some(diff) => render_diff_tree_with_options(&diff, options),
        None => String::new(),
    }
}

/// The first lines of a comparison report: what is compared, then an empty
/// line.
pub open spec fn report_head(report: DiffReportModel) -> Seq<Seq<char>> {
    seq![
        report.language + "diff "@ + report.before + " → "@ + report.after,
        Seq::empty(),
    ]
}

/// The parts of a report with the first `count` trees: an empty line between
/// each two trees.
pub open spec fn report_parts(
    head: Seq<Seq<char>>,
    trees: Seq<Seq<char>>,
    count: nat,
) -> Seq<Seq<char>>
    decreases count,
{
    if count == 0 {
        head
    } else {
        let before = report_parts(head, trees, (count - 1) as nat);
        if count > 1 {
            before.push(Seq::empty()).push(trees[count - 1])
        } else {
            before.push(trees[count - 1])
        }
    }
}

/// The texts of the trees of a comparison report.
pub open spec fn diff_texts(trees: Seq<EntryDiffModel>, options: RenderOptions) -> Seq<Seq<char>> {
    trees.map_values(|entry: EntryDiffModel| diff_tree_text(entry.tree, options))
}

/// The texts of the trees of a tree report.
pub open spec fn tree_texts(trees: Seq<EntryTreeModel>, options: RenderOptions) -> Seq<Seq<char>> {
    trees.map_values(
        |entry: EntryTreeModel| diff_tree_text(compared(entry.tree, entry.tree), options),
    )
}

/// A report as text: the head, then the message or the trees.
pub open spec fn report_text(
    head: Seq<Seq<char>>,
    message: Option<Seq<char>>,
    trees: Seq<Seq<char>>,
) -> Seq<char> {
    match message {
        Some(message) => joined(head.push(message), "\n"@),
        None => joined(report_parts(head, trees, trees.len()), "\n"@),
    }
}

/// Whether all trees of a comparison report can be shown.
pub open spec fn can_show_report(report: DiffReportModel, options: RenderOptions) -> bool {
    forall|k: int|
        0 <= k < report.trees.len() ==> can_show((#[trigger] report.trees[k]).tree, options)
}

/// Whether all trees of a tree report can be shown.
pub open spec fn can_show_trees(report: TreeReportModel, options: RenderOptions) -> bool {
    forall|k: int|
        0 <= k < report.trees.len() ==> rails_fit(
            root_lines(
                compared((#[trigger] report.trees[k]).tree, report.trees[k].tree),
                options,
            ),
        )
}

fn push_text(parts: &mut Vec<String>, text: String)
    ensures
        texts(final(parts)@) == texts(old(parts)@).push(text@),
{
    let ghost before = texts(parts@);
    let ghost added = text@;
    parts.push(text);
    proof {
        assert(texts(parts@) =~= before.push(added));
    }
}

/// A comparison report as text, with the usual options.
pub fn render_report(report: &DiffReport) -> (result: String)
    requires
        can_show_report(report@, RenderOptions { show_types: false, color: ColorMode::Ansi }),
    ensures
        result@ == report_text(
            report_head(report@),
            report@.message,
            diff_texts(
                report@.trees,
                RenderOptions { show_types: false, color: ColorMode::Ansi },
            ),
        ),
{
    render_report_with_options(report, &RenderOptions::default())
}

/// A comparison report as text.
pub fn render_report_with_options(report: &DiffReport, options: &RenderOptions) -> (result: String)
    requires
        can_show_report(report@, *options),
    ensures
        result@ == report_text(
            report_head(report@),
            report@.message,
            diff_texts(report@.trees, *options),
        ),
{
    let mut title = concat_texts(report.language.as_str(), "diff ");
    title.append(report.before.as_str());
    title.append(" → ");
    title.append(report.after.as_str());
    let mut parts: Vec<String> = Vec::new();
    parts.push(title);
    parts.push(String::new());
    let ghost head = report_head(report@);
    proof {
        assert(texts(parts@) =~= head);
    }
    if let Some(message) = &report.message {
        push_text(&mut parts, message.clone());
        return join_texts(&parts, "\n");
    }
    let ghost shown = diff_texts(report@.trees, *options);
    let mut index: usize = 0;
    while index < report.trees.len()
        invariant
            index <= report.trees@.len(),
            can_show_report(report@, *options),
            shown == diff_texts(report@.trees, *options),
            texts(parts@) == report_parts(head, shown, index as nat),
        decreases report.trees@.len() - index,
    {
        assert(report@.trees[index as int] == report.trees@[index as int]@);
        if index > 0 {
            push_text(&mut parts, String::new());
        }
        push_text(&mut parts, render_diff_tree_with_options(&report.trees[index].tree, options));
        index += 1;
    }
    join_texts(&parts, "\n")
}

/// A tree report as text.
pub fn render_tree_report_with_options(report: &TreeReport, options: &RenderOptions) -> (result:
    String)
    requires
        can_show_trees(report@, *options),
    ensures
        result@ == report_text(
            seq![report@.source, Seq::empty()],
            report@.message,
            tree_texts(report@.trees, *options),
        ),
{
    let mut parts: Vec<String> = Vec::new();
    parts.push(report.source.clone());
    parts.push(String::new());
    let ghost head: Seq<Seq<char>> = seq![report@.source, Seq::empty()];
    proof {
        assert(texts(parts@) =~= head);
    }
    if let Some(message) = &report.message {
        push_text(&mut parts, message.clone());
        return join_texts(&parts, "\n");
    }
    let ghost shown = tree_texts(report@.trees, *options);
    let mut index: usize = 0;
    while index < report.trees.len()
        invariant
            index <= report.trees@.len(),
            can_show_trees(report@, *options),
            shown == tree_texts(report@.trees, *options),
            texts(parts@) == report_parts(head, shown, index as nat),
        decreases report.trees@.len() - index,
    {
        assert(report@.trees[index as int] == report.trees@[index as int]@);
        if index > 0 {
            push_text(&mut parts, String::new());
        }
        push_text(&mut parts, render_call_tree_with_options(&report.trees[index].tree, options));
        index += 1;
    }
    join_texts(&parts, "\n")
}

/// Rails stand right of all lines, and three columns apart.
pub proof fn rails_stand_apart(lines: Seq<LineModel>, start: nat, later: nat, index: int)
    requires
        rail_end(lines, start) is Some,
        start < later,
        0 <= index < lines.len(),
    ensures
        rail_column(lines, start) >= line_length(lines[index]) + 3,
        rail_column(lines, later) >= rail_column(lines, start) + 3,
{
    widest_is_widest(lines, index, lines.len());
    rail_count_grows(lines, start + 1, later);
}

proof fn unchanged_lines_are_uncolored(
    node: DiffModel,
    indent: Seq<char>,
    is_last: bool,
    is_root: bool,
    types: bool,
)
    requires
        !crate::diff::has_changes(node),
    ensures
        forall|k: int|
            0 <= k < tree_lines(node, indent, is_last, is_root, types).len() ==> (
            #[trigger] tree_lines(node, indent, is_last, is_root, types)[k]).color is None,
    decreases node, 0nat,
{
    let own = own_lines(node, indent, is_last, is_root, types);
    let all = tree_lines(node, indent, is_last, is_root, types);
    assert(own.len() == 1);
    if node.relation != CallRelation::BackEdge {
        let inner = child_indent(node, indent, is_last, is_root);
        assert forall|k: int| #![trigger node.children[k]]
            0 <= k < node.children.len() implies !crate::diff::has_changes(node.children[k]) by {}
        unchanged_children_are_uncolored(node.children, inner, types, node.children.len());
        assert forall|k: int| 0 <= k < all.len() implies (#[trigger] all[k]).color is None by {
            if k >= own.len() {
                assert(all[k] == children_lines(
                    node.children,
                    inner,
                    types,
                    node.children.len(),
                )[k - own.len()]);
            }
        }
    }
}

proof fn unchanged_children_are_uncolored(
    children: Seq<DiffModel>,
    indent: Seq<char>,
    types: bool,
    count: nat,
)
    requires
        count <= children.len(),
        forall|k: int| #![trigger children[k]]
            0 <= k < children.len() ==> !crate::diff::has_changes(children[k]),
    ensures
        forall|k: int|
            0 <= k < children_lines(children, indent, types, count).len() ==> (
            #[trigger] children_lines(children, indent, types, count)[k]).color is None,
    decreases children, count,
{
    if count > 0 {
        let lower = children_lines(children, indent, types, (count - 1) as nat);
        let last = tree_lines(
            children[count - 1],
            indent,
            count == children.len(),
            false,
            types,
        );
        let all = children_lines(children, indent, types, count);
        unchanged_children_are_uncolored(children, indent, types, (count - 1) as nat);
        unchanged_lines_are_uncolored(
            children[count - 1],
            indent,
            count == children.len(),
            false,
            types,
        );
        assert(all == lower + last);
        assert forall|k: int| 0 <= k < all.len() implies (#[trigger] all[k]).color is None by {
            if k < lower.len() {
                assert(all[k] == lower[k]);
            } else {
                assert(all[k] == last[k - lower.len()]);
            }
        }
    }
}

/// A comparison without changes has no colors: it looks the same in both
/// modes.
pub proof fn unchanged_trees_are_uncolored(root: DiffModel, types: bool)
    requires
        !crate::diff::has_changes(root),
    ensures
        diff_tree_text(root, RenderOptions { show_types: types, color: ColorMode::Ansi })
            == diff_tree_text(root, RenderOptions { show_types: types, color: ColorMode::Plain }),
{
    unchanged_lines_are_uncolored(root, ""@, true, true, types);
    assert(shown_lines(root, RenderOptions { show_types: types, color: ColorMode::Ansi })
        =~= shown_lines(root, RenderOptions { show_types: types, color: ColorMode::Plain }));
}

/// Without colors, the lines of a comparison are its connected lines as they
/// are.
pub proof fn plain_lines_are_bare(root: DiffModel, types: bool, index: int)
    requires
        0 <= index < tree_lines(root, ""@, true, true, types).len(),
    ensures
        shown_lines(
            root,
            RenderOptions { show_types: types, color: ColorMode::Plain },
        )[index] == connected(tree_lines(root, ""@, true, true, types), index as nat),
{
}

} // verus!
