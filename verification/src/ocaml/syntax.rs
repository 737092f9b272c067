//! The syntax trees of OCaml sources.
use crate::lists::views;
use crate::model::{SourceSpan, SpanModel};
use crate::paths::SourcePath;
use crate::rust::respecialize::capped;
use crate::text::{chars_of, optional, same_text, slice_text};
use tree_sitter::{Parser, Point};
use tree_sitter_ocaml::{LANGUAGE_OCAML, LANGUAGE_OCAML_INTERFACE};
use vstd::prelude::*;
use vstd::utf8::encode_utf8;

verus! {

/// A node of a syntax tree. The nodes of a tree stand in a list, each before
/// its children, and say how deep they are.
#[derive(Debug)]
pub struct SyntaxRow {
    pub depth: u32,
    pub kind: String,
    /// What the node is to its parent.
    pub field: Option<String>,
    pub named: bool,
    /// Whether there is a syntax error in the node.
    pub error: bool,
    pub text: String,
    pub start_byte: usize,
    pub row: usize,
    pub column: usize,
}

#[verifier::ext_equal]
pub struct RowModel {
    pub depth: u32,
    pub kind: Seq<char>,
    pub field: Option<Seq<char>>,
    pub named: bool,
    pub error: bool,
    pub text: Seq<char>,
    pub start_byte: usize,
    pub row: usize,
    pub column: usize,
}

impl View for SyntaxRow {
    type V = RowModel;

    open spec fn view(&self) -> RowModel {
        RowModel {
            depth: self.depth,
            kind: self.kind@,
            field: optional(self.field),
            named: self.named,
            error: self.error,
            text: self.text@,
            start_byte: self.start_byte,
            row: self.row,
            column: self.column,
        }
    }
}

/// The syntax tree of an OCaml source, or of an OCaml interface. None where
/// there is none.
pub uninterp spec fn syntax_rows(source: Seq<char>, interface: bool) -> Option<Seq<RowModel>>;

/// `tree_sitter::Parser`, with one of the two grammars of `tree_sitter_ocaml`,
/// parses a source. `TreeCursor::goto_descendant` visits the nodes of the tree
/// in the order in which they begin, parents first. What is claimed is that
/// the tree depends on the source and the grammar alone; which tree belongs to
/// which source is not stated.
#[verifier::external_body]
pub(crate) fn parse_rows(source: &str, interface: bool) -> (result: Option<Vec<SyntaxRow>>)
    ensures
        match result {
            Some(rows) => syntax_rows(source@, interface) == Some(views(rows@)),
            None => syntax_rows(source@, interface) is None,
        },
{
    let mut parser = Parser::new();
    parser.set_language(&(if interface { LANGUAGE_OCAML_INTERFACE } else { LANGUAGE_OCAML }).into()).ok()?;
    let tree = parser.parse(source, None)?;
    let mut cursor = tree.walk();
    Some((0..cursor.node().descendant_count()).map(|index| {
        cursor.goto_descendant(index);
        let node = cursor.node();
        let Point { row, column } = node.start_position();
        SyntaxRow { row, column, depth: cursor.depth(), kind: node.kind().into(),
            field: cursor.field_name().map(Into::into), named: node.is_named(),
            error: node.has_error(), text: source[node.byte_range()].into(),
            start_byte: node.start_byte() }
    }).collect())
}

/// The end of the part of the list, from `at` on, that lies deeper than
/// `depth`.
pub open spec fn deeper_end(rows: Seq<RowModel>, depth: u32, at: int) -> int
    decreases rows.len() - at,
{
    if 0 <= at < rows.len() && rows[at].depth > depth {
        deeper_end(rows, depth, at + 1)
    } else {
        at
    }
}

/// The end of a node and all that is in it.
pub open spec fn end_of(rows: Seq<RowModel>, node: int) -> int {
    deeper_end(rows, rows[node].depth, node + 1)
}

/// The end of what lies deeper comes behind its start, and within the list.
pub proof fn deeper_end_is_behind(rows: Seq<RowModel>, depth: u32, at: int)
    requires
        0 <= at <= rows.len(),
    ensures
        at <= deeper_end(rows, depth, at) <= rows.len(),
    decreases rows.len() - at,
{
    if at < rows.len() && rows[at].depth > depth {
        deeper_end_is_behind(rows, depth, at + 1);
    }
}

/// The end of a node comes behind it, and within the list.
pub proof fn ends_are_behind(rows: Seq<RowModel>, node: int)
    requires
        0 <= node < rows.len(),
    ensures
        node < end_of(rows, node) <= rows.len(),
{
    deeper_end_is_behind(rows, rows[node].depth, node + 1);
}

/// The end of a node and all that is in it.
pub fn find_end(rows: &Vec<SyntaxRow>, node: usize) -> (result: usize)
    requires
        node < rows@.len(),
    ensures
        result == end_of(views(rows@), node as int),
        node < result <= rows@.len(),
{
    let ghost model = views(rows@);
    let depth: u32 = rows[node].depth;
    let length: usize = rows.len();
    let mut at: usize = node + 1;
    proof {
        assert(model[node as int] == rows@[node as int]@);
    }
    while at < length && rows[at].depth > depth
        invariant
            node < at <= length,
            length == rows@.len(),
            model == views(rows@),
            deeper_end(model, depth, at as int) == deeper_end(model, depth, node + 1),
        decreases rows@.len() - at,
    {
        proof {
            assert(model[at as int] == rows@[at as int]@);
        }
        at += 1;
    }
    proof {
        if at < rows@.len() {
            assert(model[at as int] == rows@[at as int]@);
        }
    }
    at
}

/// The first child, from `at` up to `end`, that is a field.
pub open spec fn field_from(rows: Seq<RowModel>, at: int, end: int, name: Seq<char>) -> Option<int>
    decreases rows.len() - at,
{
    if at < 0 || at >= end || at >= rows.len() {
        None
    } else if rows[at].field == Some(name) {
        Some(at)
    } else {
        proof {
            ends_are_behind(rows, at);
        }
        field_from(rows, end_of(rows, at), end, name)
    }
}

/// The child of a node that is a field.
pub open spec fn child_by_field(rows: Seq<RowModel>, node: int, name: Seq<char>) -> Option<int> {
    field_from(rows, node + 1, end_of(rows, node), name)
}

/// What is found is a row behind the start.
pub proof fn fields_are_behind(rows: Seq<RowModel>, at: int, end: int, name: Seq<char>)
    requires
        0 <= at,
    ensures
        match field_from(rows, at, end, name) {
            Some(found) => at <= found < rows.len() && found < end && rows[found].field == Some(name),
            None => true,
        },
    decreases rows.len() - at,
{
    if at < end && at < rows.len() && rows[at].field != Some(name) {
        ends_are_behind(rows, at);
        fields_are_behind(rows, end_of(rows, at), end, name);
    }
}

/// The model of an optional node.
pub open spec fn optional_node(node: Option<usize>) -> Option<int> {
    match node {
        Some(node) => Some(node as int),
        None => None,
    }
}

fn is_field(row: &SyntaxRow, name: &str) -> (result: bool)
    ensures
        result == (row@.field == Some(name@)),
{
    match &row.field {
        Some(field) => same_text(field.as_str(), name),
        None => false,
    }
}

/// The child of a node that is a field.
pub fn child_by_field_name(rows: &Vec<SyntaxRow>, node: usize, name: &str) -> (result: Option<usize>)
    requires
        node < rows@.len(),
    ensures
        optional_node(result) == child_by_field(views(rows@), node as int, name@),
        match result {
            Some(child) => node < child < rows@.len(),
            None => true,
        },
{
    let ghost model = views(rows@);
    let end: usize = find_end(rows, node);
    let mut at: usize = node + 1;
    while at < end
        invariant
            node < at <= rows@.len(),
            end <= rows@.len(),
            model == views(rows@),
            end == end_of(model, node as int),
            field_from(model, at as int, end as int, name@) == field_from(
                model,
                node + 1,
                end as int,
                name@,
            ),
        decreases rows@.len() - at,
    {
        proof {
            assert(model[at as int] == rows@[at as int]@);
        }
        if is_field(&rows[at], name) {
            return Some(at);
        }
        at = find_end(rows, at);
    }
    None
}

/// The named children from `at` up to `end`.
pub open spec fn named_from(rows: Seq<RowModel>, at: int, end: int) -> Seq<int>
    decreases rows.len() - at,
{
    if at < 0 || at >= end || at >= rows.len() {
        Seq::empty()
    } else {
        proof {
            ends_are_behind(rows, at);
        }
        let rest = named_from(rows, end_of(rows, at), end);
        if rows[at].named {
            seq![at] + rest
        } else {
            rest
        }
    }
}

/// The named children of a node.
pub open spec fn named_children(rows: Seq<RowModel>, node: int) -> Seq<int> {
    named_from(rows, node + 1, end_of(rows, node))
}

/// Named children are rows behind the start.
pub proof fn named_are_behind(rows: Seq<RowModel>, at: int, end: int)
    requires
        0 <= at,
    ensures
        forall|place: int|
            0 <= place < named_from(rows, at, end).len() ==> at <= #[trigger] named_from(
                rows,
                at,
                end,
            )[place] < rows.len(),
    decreases rows.len() - at,
{
    if at < end && at < rows.len() {
        ends_are_behind(rows, at);
        let next = end_of(rows, at);
        named_are_behind(rows, next, end);
        let rest = named_from(rows, next, end);
        assert forall|place: int| 0 <= place < named_from(rows, at, end).len() implies at
            <= #[trigger] named_from(rows, at, end)[place] < rows.len() by {
            if rows[at].named {
                if place > 0 {
                    assert(named_from(rows, at, end)[place] == rest[place - 1]);
                }
            } else {
                assert(named_from(rows, at, end)[place] == rest[place]);
            }
        }
    }
}

/// The models of nodes.
pub open spec fn node_list(nodes: Seq<usize>) -> Seq<int> {
    nodes.map_values(|node: usize| node as int)
}

/// The named children of a node.
pub fn find_named_children(rows: &Vec<SyntaxRow>, node: usize) -> (result: Vec<usize>)
    requires
        node < rows@.len(),
    ensures
        node_list(result@) == named_children(views(rows@), node as int),
        forall|place: int|
            0 <= place < result@.len() ==> node < #[trigger] result@[place] < rows@.len(),
{
    let ghost model = views(rows@);
    let end: usize = find_end(rows, node);
    let mut result: Vec<usize> = Vec::new();
    let mut at: usize = node + 1;
    let ghost whole = named_from(model, node + 1, end as int);
    proof {
        assert(node_list(result@) + whole =~= whole);
    }
    while at < end
        invariant
            node < at <= rows@.len(),
            end <= rows@.len(),
            model == views(rows@),
            node_list(result@) + named_from(model, at as int, end as int) == whole,
            forall|place: int|
                0 <= place < result@.len() ==> node < #[trigger] result@[place] < rows@.len(),
        decreases rows@.len() - at,
    {
        let ghost before = node_list(result@);
        proof {
            assert(model[at as int] == rows@[at as int]@);
        }
        let next: usize = find_end(rows, at);
        if rows[at].named {
            result.push(at);
            proof {
                let rest = named_from(model, next as int, end as int);
                assert(node_list(result@) =~= before.push(at as int));
                assert(before + (seq![at as int] + rest) =~= before.push(at as int) + rest);
            }
        }
        at = next;
    }
    proof {
        assert(node_list(result@) + Seq::<int>::empty() =~= node_list(result@));
    }
    result
}

/// The nodes of a kind among the first `count` of a list.
pub open spec fn of_kind(rows: Seq<RowModel>, nodes: Seq<int>, kind: Seq<char>, count: int) -> Seq<
    int,
>
    decreases count,
{
    if count <= 0 {
        Seq::empty()
    } else {
        let before = of_kind(rows, nodes, kind, count - 1);
        if rows[nodes[count - 1]].kind == kind {
            before.push(nodes[count - 1])
        } else {
            before
        }
    }
}

/// The named children of a node that are of a kind.
pub open spec fn children_of_kind(rows: Seq<RowModel>, node: int, kind: Seq<char>) -> Seq<int> {
    let nodes = named_children(rows, node);
    of_kind(rows, nodes, kind, nodes.len() as int)
}

/// Whether a node is of a kind.
pub fn is_kind(rows: &Vec<SyntaxRow>, node: usize, kind: &str) -> (result: bool)
    requires
        node < rows@.len(),
    ensures
        result == (views(rows@)[node as int].kind == kind@),
{
    proof {
        assert(views(rows@)[node as int] == rows@[node as int]@);
    }
    same_text(rows[node].kind.as_str(), kind)
}

/// The named children of a node that are of a kind.
pub fn direct_named_children(rows: &Vec<SyntaxRow>, node: usize, kind: &str) -> (result: Vec<usize>)
    requires
        node < rows@.len(),
    ensures
        node_list(result@) == children_of_kind(views(rows@), node as int, kind@),
        forall|place: int|
            0 <= place < result@.len() ==> node < #[trigger] result@[place] < rows@.len(),
{
    let nodes = find_named_children(rows, node);
    let ghost model = views(rows@);
    let ghost all = node_list(nodes@);
    let mut result: Vec<usize> = Vec::new();
    let mut index: usize = 0;
    proof {
        assert(node_list(result@) =~= Seq::empty());
        assert(all.len() == nodes@.len());
    }
    while index < nodes.len()
        invariant
            index <= nodes@.len(),
            model == views(rows@),
            all == node_list(nodes@),
            forall|place: int|
                0 <= place < nodes@.len() ==> node < #[trigger] nodes@[place] < rows@.len(),
            node_list(result@) == of_kind(model, all, kind@, index as int),
            forall|place: int|
                0 <= place < result@.len() ==> node < #[trigger] result@[place] < rows@.len(),
        decreases nodes@.len() - index,
    {
        let ghost before = node_list(result@);
        proof {
            assert(all[index as int] == nodes@[index as int]);
        }
        if is_kind(rows, nodes[index], kind) {
            result.push(nodes[index]);
            proof {
                assert(node_list(result@) =~= before.push(nodes@[index as int] as int));
            }
        }
        index += 1;
    }
    result
}

/// The first named child of a node that is of a kind.
pub open spec fn child_of_kind(rows: Seq<RowModel>, node: int, kind: Seq<char>) -> Option<int> {
    let nodes = children_of_kind(rows, node, kind);
    if nodes.len() > 0 {
        Some(nodes[0])
    } else {
        None
    }
}

/// The first named child of a node that is of a kind.
pub fn direct_named_child(rows: &Vec<SyntaxRow>, node: usize, kind: &str) -> (result: Option<usize>)
    requires
        node < rows@.len(),
    ensures
        optional_node(result) == child_of_kind(views(rows@), node as int, kind@),
        match result {
            Some(child) => node < child < rows@.len(),
            None => true,
        },
{
    let nodes = direct_named_children(rows, node, kind);
    proof {
        assert(node_list(nodes@).len() == nodes@.len());
    }
    if nodes.len() > 0 {
        proof {
            assert(node_list(nodes@)[0] == nodes@[0]);
        }
        Some(nodes[0])
    } else {
        None
    }
}

/// The first named child of a node.
pub open spec fn first_named(rows: Seq<RowModel>, node: int) -> Option<int> {
    let nodes = named_children(rows, node);
    if nodes.len() > 0 {
        Some(nodes[0])
    } else {
        None
    }
}

/// The first named child of a node.
pub fn first_named_child(rows: &Vec<SyntaxRow>, node: usize) -> (result: Option<usize>)
    requires
        node < rows@.len(),
    ensures
        optional_node(result) == first_named(views(rows@), node as int),
        match result {
            Some(child) => node < child < rows@.len(),
            None => true,
        },
{
    let nodes = find_named_children(rows, node);
    proof {
        assert(node_list(nodes@).len() == nodes@.len());
    }
    if nodes.len() > 0 {
        proof {
            assert(node_list(nodes@)[0] == nodes@[0]);
        }
        Some(nodes[0])
    } else {
        None
    }
}

/// The last node before `at` that lies less deep than `depth`.
pub open spec fn shallower_before(rows: Seq<RowModel>, depth: u32, at: int) -> Option<int>
    decreases at,
{
    if at <= 0 || at > rows.len() {
        None
    } else if rows[at - 1].depth < depth {
        Some(at - 1)
    } else {
        shallower_before(rows, depth, at - 1)
    }
}

/// The parent of a node.
pub open spec fn parent_of(rows: Seq<RowModel>, node: int) -> Option<int> {
    shallower_before(rows, rows[node].depth, node)
}

/// A parent comes before its child.
pub proof fn parents_are_before(rows: Seq<RowModel>, depth: u32, at: int)
    ensures
        match shallower_before(rows, depth, at) {
            Some(found) => 0 <= found < at && found < rows.len(),
            None => true,
        },
    decreases at,
{
    if 0 < at <= rows.len() && rows[at - 1].depth >= depth {
        parents_are_before(rows, depth, at - 1);
    }
}

/// The parent of a node.
pub fn find_parent(rows: &Vec<SyntaxRow>, node: usize) -> (result: Option<usize>)
    requires
        node < rows@.len(),
    ensures
        optional_node(result) == parent_of(views(rows@), node as int),
        match result {
            Some(parent) => parent < node,
            None => true,
        },
{
    let ghost model = views(rows@);
    let depth: u32 = rows[node].depth;
    let mut at: usize = node;
    proof {
        assert(model[node as int] == rows@[node as int]@);
    }
    while at > 0
        invariant
            at <= node < rows@.len(),
            model == views(rows@),
            depth == model[node as int].depth,
            shallower_before(model, depth, at as int) == shallower_before(
                model,
                depth,
                node as int,
            ),
        decreases at,
    {
        proof {
            assert(model[at - 1] == rows@[at - 1]@);
        }
        if rows[at - 1].depth < depth {
            return Some(at - 1);
        }
        at -= 1;
    }
    None
}

/// How many lines end in a text up to `count`.
pub open spec fn line_ends(text: Seq<char>, count: int) -> nat
    decreases count,
{
    if count <= 0 {
        0
    } else {
        line_ends(text, count - 1) + if text[count - 1] == '\n' {
            1nat
        } else {
            0nat
        }
    }
}

/// Where the last line of a text up to `count` begins.
pub open spec fn last_line(text: Seq<char>, count: int) -> int
    decreases count,
{
    if count <= 0 {
        0
    } else if text[count - 1] == '\n' {
        count
    } else {
        last_line(text, count - 1)
    }
}

/// A number and one more, up to the largest machine word.
pub open spec fn sum_of(left: int, right: int) -> usize {
    capped(left + right) as usize
}

/// How many bytes a text has.
pub open spec fn byte_length(text: Seq<char>) -> int {
    capped(encode_utf8(text).len() as int)
}

/// Where a node stands in a file.
pub open spec fn span_of(file: Seq<char>, row: RowModel) -> SpanModel {
    let count = row.text.len() as int;
    let lines = line_ends(row.text, count);
    SpanModel {
        file,
        start_line: sum_of(row.row as int, 1),
        start_column: row.column,
        start_byte: Some(row.start_byte),
        end_line: sum_of(sum_of(row.row as int, lines as int) as int, 1),
        end_column: if lines == 0 {
            sum_of(row.column as int, byte_length(row.text))
        } else {
            byte_length(row.text.skip(last_line(row.text, count))) as usize
        },
        end_byte: Some(sum_of(row.start_byte as int, byte_length(row.text))),
    }
}

fn count_bytes(text: &str) -> (result: usize)
    ensures
        result == byte_length(text@),
{
    text.as_bytes().len()
}

/// Where a node stands in a file.
pub fn tree_sitter_span(file: &SourcePath, row: &SyntaxRow) -> (result: SourceSpan)
    ensures
        result@ == span_of(file@, row@),
{
    let characters = chars_of(row.text.as_str());
    let length: usize = characters.len();
    let mut lines: usize = 0;
    let mut last: usize = 0;
    let mut index: usize = 0;
    while index < length
        invariant
            index <= length,
            length == characters@.len(),
            characters@ == row@.text,
            lines <= index,
            last <= index,
            lines == line_ends(row@.text, index as int),
            last == last_line(row@.text, index as int),
        decreases length - index,
    {
        if characters[index] == '\n' {
            lines += 1;
            last = index + 1;
        }
        index += 1;
    }
    let bytes: usize = count_bytes(row.text.as_str());
    let end_column: usize = if lines == 0 {
        row.column.saturating_add(bytes)
    } else {
        let tail = slice_text(characters.as_slice(), last, length);
        proof {
            assert(tail@ =~= row@.text.skip(last as int));
        }
        count_bytes(tail.as_str())
    };
    SourceSpan {
        file: file.clone(),
        start_line: row.row.saturating_add(1),
        start_column: row.column,
        start_byte: Some(row.start_byte),
        end_line: row.row.saturating_add(lines).saturating_add(1),
        end_column,
        end_byte: Some(row.start_byte.saturating_add(bytes)),
    }
}

/// The first node of a kind in the children from `at` up to `end`, each before
/// what is in it.
pub open spec fn descendant_from(rows: Seq<RowModel>, at: int, end: int, kind: Seq<char>) -> Option<
    int,
>
    decreases rows.len() - at,
{
    if at < 0 || at >= end || at >= rows.len() {
        None
    } else {
        let next = end_of(rows, at);
        proof {
            ends_are_behind(rows, at);
        }
        if !rows[at].named {
            descendant_from(rows, next, end, kind)
        } else if rows[at].kind == kind {
            Some(at)
        } else {
            match descendant_from(rows, at + 1, next, kind) {
                Some(found) => Some(found),
                None => descendant_from(rows, next, end, kind),
            }
        }
    }
}

/// The first node of a kind in a node.
pub open spec fn first_descendant(rows: Seq<RowModel>, node: int, kind: Seq<char>) -> Option<int> {
    descendant_from(rows, node + 1, end_of(rows, node), kind)
}

fn find_descendant(rows: &Vec<SyntaxRow>, start: usize, end: usize, kind: &str) -> (result: Option<
    usize,
>)
    requires
        end <= rows@.len(),
    ensures
        optional_node(result) == descendant_from(
            views(rows@),
            start as int,
            end as int,
            kind@,
        ),
        match result {
            Some(found) => start <= found < rows@.len(),
            None => true,
        },
    decreases rows@.len() - start,
{
    let ghost model = views(rows@);
    let mut at: usize = start;
    while at < end
        invariant
            start <= at,
            at < end ==> at <= rows@.len(),
            end <= rows@.len(),
            model == views(rows@),
            descendant_from(model, at as int, end as int, kind@) == descendant_from(
                model,
                start as int,
                end as int,
                kind@,
            ),
        decreases rows@.len() - at,
    {
        proof {
            assert(model[at as int] == rows@[at as int]@);
        }
        let next: usize = find_end(rows, at);
        if rows[at].named {
            if is_kind(rows, at, kind) {
                return Some(at);
            }
            match find_descendant(rows, at + 1, next, kind) {
                Some(found) => {
                    return Some(found);
                },
                None => {},
            }
        }
        at = next;
    }
    None
}

/// The first node of a kind in a node.
pub fn first_descendant_of_kind(rows: &Vec<SyntaxRow>, node: usize, kind: &str) -> (result: Option<
    usize,
>)
    requires
        node < rows@.len(),
    ensures
        optional_node(result) == first_descendant(views(rows@), node as int, kind@),
        match result {
            Some(found) => node < found < rows@.len(),
            None => true,
        },
{
    let end: usize = find_end(rows, node);
    find_descendant(rows, node + 1, end, kind)
}

} // verus!
