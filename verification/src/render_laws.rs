//! What holds of the text of a comparison in every color mode.
use crate::diff::{DiffModel, DiffStatus};
use crate::diff_laws::carries_previous_labels;
use crate::model::{label_text, CallRelation, LabelModel};
use crate::render::{
    branch_text, child_indent, children_lines, colored, connected, diff_tree_text, drawn, merged,
    own_lines, padded, rail_column, rail_count, rail_end, root_lines, shown_lines, status_mark,
    tree_lines, with_glyph, with_rail, with_run, AnsiColor, ColorMode, LineModel, RenderOptions,
};
use crate::text::{joined, trimmed_end};
use vstd::prelude::*;

verus! {

/// Whether a text holds no escape character.
pub open spec fn is_bare(text: Seq<char>) -> bool {
    forall|k: int| 0 <= k < text.len() ==> #[trigger] text[k] != '\u{1b}'
}

/// Whether a label holds no escape character.
pub open spec fn has_bare_label(label: LabelModel) -> bool {
    is_bare(label.default) && match label.typed {
        Some(typed) => is_bare(typed),
        None => true,
    }
}

/// Whether no label of a comparison holds an escape character.
pub open spec fn has_bare_labels(node: DiffModel) -> bool
    decreases node,
{
    &&& has_bare_label(node.label)
    &&& match node.before_label {
        Some(label) => has_bare_label(label),
        None => true,
    }
    &&& forall|index: int| #![trigger node.children[index]]
        0 <= index < node.children.len() ==> has_bare_labels(node.children[index])
}

/// Whether a text begins with the code of a color.
pub open spec fn begins_with_color(text: Seq<char>) -> bool {
    text.len() >= 5 && text[0] == '\u{1b}' && text[1] == '[' && text[2] == '3' && (text[3] == '1'
        || text[3] == '2') && text[4] == 'm'
}

/// Whether a text begins with the code that ends a color.
pub open spec fn begins_with_end(text: Seq<char>) -> bool {
    text.len() >= 4 && text[0] == '\u{1b}' && text[1] == '[' && text[2] == '0' && text[3] == 'm'
}

/// A text without the codes of colors.
pub open spec fn without_codes(text: Seq<char>) -> Seq<char>
    decreases text.len(),
{
    if text.len() == 0 {
        Seq::empty()
    } else if begins_with_color(text) {
        without_codes(text.skip(5))
    } else if begins_with_end(text) {
        without_codes(text.skip(4))
    } else {
        seq![text[0]] + without_codes(text.skip(1))
    }
}

proof fn bare_text_stays(text: Seq<char>, rest: Seq<char>)
    requires
        is_bare(text),
    ensures
        without_codes(text + rest) == text + without_codes(rest),
    decreases text.len(),
{
    if text.len() == 0 {
        assert(text + rest =~= rest);
        assert(text + without_codes(rest) =~= without_codes(rest));
    } else {
        let whole = text + rest;
        assert(whole[0] == text[0]);
        assert forall|k: int| 0 <= k < text.skip(1).len() implies #[trigger] text.skip(1)[k]
            != '\u{1b}' by {
            assert(text.skip(1)[k] == text[k + 1]);
        }
        bare_text_stays(text.skip(1), rest);
        assert(whole.skip(1) =~= text.skip(1) + rest);
        assert(seq![text[0]] + (text.skip(1) + without_codes(rest)) =~= text + without_codes(rest));
    }
}

proof fn colored_line_stays(line: Seq<char>, color: Option<AnsiColor>, rest: Seq<char>)
    requires
        is_bare(line),
    ensures
        without_codes(colored(line, color, ColorMode::Ansi) + rest) == line + without_codes(rest),
{
    match color {
        Some(color) => {
            reveal_strlit("\u{1b}[");
            reveal_strlit("31");
            reveal_strlit("32");
            reveal_strlit("m");
            reveal_strlit("\u{1b}[0m");
            let code = match color {
                AnsiColor::Red => "31"@,
                AnsiColor::Green => "32"@,
            };
            let end = "\u{1b}[0m"@;
            let start = "\u{1b}["@ + code + "m"@;
            let whole = colored(line, Some(color), ColorMode::Ansi) + rest;
            assert(start.len() == 5);
            assert(whole =~= start + (line + (end + rest)));
            assert(begins_with_color(whole)) by {
                assert(whole[0] == start[0]);
                assert(whole[1] == start[1]);
                assert(whole[2] == start[2]);
                assert(whole[3] == start[3]);
                assert(whole[4] == start[4]);
            }
            assert(whole.skip(5) =~= line + (end + rest));
            bare_text_stays(line, end + rest);
            let tail = end + rest;
            assert(tail[0] == end[0] && tail[1] == end[1] && tail[2] == end[2] && tail[3]
                == end[3]);
            assert(!begins_with_color(tail));
            assert(begins_with_end(tail));
            assert(tail.skip(4) =~= rest);
        },
        None => {
            bare_text_stays(line, rest);
        },
    }
}

proof fn joined_lines_stay(
    shown: Seq<Seq<char>>,
    plain: Seq<Seq<char>>,
    colors: Seq<Option<AnsiColor>>,
    rest: Seq<char>,
)
    requires
        shown.len() == plain.len() == colors.len(),
        forall|k: int| 0 <= k < plain.len() ==> is_bare(#[trigger] plain[k]),
        forall|k: int|
            0 <= k < plain.len() ==> #[trigger] shown[k] == colored(
                plain[k],
                colors[k],
                ColorMode::Ansi,
            ),
    ensures
        without_codes(joined(shown, "\n"@) + rest) == joined(plain, "\n"@) + without_codes(rest),
    decreases shown.len(),
{
    if shown.len() == 0 {
        assert(joined(shown, "\n"@) + rest =~= rest);
        assert(joined(plain, "\n"@) + without_codes(rest) =~= without_codes(rest));
    } else if shown.len() == 1 {
        assert(shown[0] == colored(plain[0], colors[0], ColorMode::Ansi));
        colored_line_stays(plain[0], colors[0], rest);
    } else {
        let last = shown.len() - 1;
        assert(shown[last] == colored(plain[last], colors[last], ColorMode::Ansi));
        let separator = "\n"@;
        let tail = separator + (shown[last] + rest);
        joined_lines_stay(shown.drop_last(), plain.drop_last(), colors.drop_last(), tail);
        reveal_strlit("\n");
        assert(is_bare(separator));
        bare_text_stays(separator, shown[last] + rest);
        colored_line_stays(plain[last], colors[last], rest);
        let before = joined(shown.drop_last(), separator);
        assert(joined(shown, separator) + rest =~= before + tail);
        let bare = joined(plain.drop_last(), separator);
        assert(bare + (separator + (plain[last] + without_codes(rest))) =~= joined(plain, separator)
            + without_codes(rest));
    }
}

proof fn bare_texts_join(parts: Seq<Seq<char>>)
    requires
        forall|k: int| 0 <= k < parts.len() ==> is_bare(#[trigger] parts[k]),
    ensures
        is_bare(joined(parts, "\n"@)),
    decreases parts.len(),
{
    if parts.len() > 1 {
        bare_texts_join(parts.drop_last());
        reveal_strlit("\n");
        let before = joined(parts.drop_last(), "\n"@);
        let text = before + "\n"@ + parts.last();
        assert forall|k: int| 0 <= k < text.len() implies #[trigger] text[k] != '\u{1b}' by {
            if k < before.len() {
                assert(text[k] == before[k]);
            } else if k > before.len() {
                assert(text[k] == parts.last()[k - before.len() - 1]);
            }
        }
    } else if parts.len() == 1 {
        assert(joined(parts, "\n"@) == parts[0]);
    }
}

proof fn bare_ends_are_bare(text: Seq<char>)
    requires
        is_bare(text),
    ensures
        is_bare(trimmed_end(text)),
    decreases text.len(),
{
    if text.len() > 0 {
        bare_ends_are_bare(text.drop_last());
    }
}

proof fn glyphs_are_bare(row: Seq<char>, column: nat, glyph: char)
    requires
        is_bare(row),
        glyph != '\u{1b}',
    ensures
        is_bare(with_glyph(row, column, glyph)),
{
    let wide = padded(row, column + 1);
    let text = with_glyph(row, column, glyph);
    assert forall|k: int| 0 <= k < text.len() implies #[trigger] text[k] != '\u{1b}' by {
        if k != column {
            assert(text[k] == wide[k]);
        } else {
            assert(text[k] == merged(wide[k], glyph));
        }
    }
}

proof fn runs_are_bare(row: Seq<char>, from: nat, to: nat, glyph: char)
    requires
        is_bare(row),
        glyph != '\u{1b}',
    ensures
        is_bare(with_run(row, from, to, glyph)),
    decreases to - from,
{
    if from < to {
        glyphs_are_bare(row, from, glyph);
        runs_are_bare(with_glyph(row, from, glyph), from + 1, to, glyph);
    }
}

proof fn rails_are_bare(lines: Seq<LineModel>, row: Seq<char>, index: nat, start: nat, end: nat)
    requires
        is_bare(row),
    ensures
        is_bare(with_rail(lines, row, index, start, end)),
{
    let rail = rail_column(lines, start);
    let length = crate::render::line_length(lines[index as int]);
    if index == start {
        let first = with_glyph(row, length + 1, '◀');
        glyphs_are_bare(row, length + 1, '◀');
        runs_are_bare(first, length + 2, rail, '─');
        glyphs_are_bare(with_run(first, length + 2, rail, '─'), rail, '┐');
    } else if start < index < end {
        let crossed = with_glyph(row, rail, '│');
        glyphs_are_bare(row, rail, '│');
        runs_are_bare(crossed, length + 1, rail, '─');
        glyphs_are_bare(with_run(crossed, length + 1, rail, '─'), rail, '┤');
    } else if index == end {
        runs_are_bare(row, length + 1, rail, '─');
        glyphs_are_bare(with_run(row, length + 1, rail, '─'), rail, '┘');
    }
}

proof fn drawn_rows_are_bare(lines: Seq<LineModel>, index: nat, count: nat)
    requires
        index < lines.len(),
        is_bare(lines[index as int].text),
    ensures
        is_bare(drawn(lines, index, count)),
    decreases count,
{
    if count == 0 {
        bare_ends_are_bare(lines[index as int].text);
    } else {
        let start = (count - 1) as nat;
        drawn_rows_are_bare(lines, index, start);
        match rail_end(lines, start) {
            Some(end) => rails_are_bare(lines, drawn(lines, index, start), index, start, end),
            None => {},
        }
    }
}

proof fn connected_lines_are_bare(lines: Seq<LineModel>, index: nat)
    requires
        index < lines.len(),
        is_bare(lines[index as int].text),
    ensures
        is_bare(connected(lines, index)),
{
    if rail_count(lines, lines.len()) != 0 {
        drawn_rows_are_bare(lines, index, lines.len());
        bare_ends_are_bare(drawn(lines, index, lines.len()));
    }
}

proof fn marks_are_bare(status: DiffStatus, relation: CallRelation, is_last: bool, is_root: bool)
    ensures
        is_bare(status_mark(status).0),
        is_bare("- "@),
        is_bare(branch_text(relation, is_last, is_root)),
{
    reveal_strlit("  ");
    reveal_strlit("+ ");
    reveal_strlit("- ");
    reveal_strlit("");
    reveal_strlit("╠═ ");
    reveal_strlit("╚═ ");
    reveal_strlit("├─ ");
    reveal_strlit("└─ ");
}

proof fn bare_texts_add_up(left: Seq<char>, right: Seq<char>)
    requires
        is_bare(left),
        is_bare(right),
    ensures
        is_bare(left + right),
{
    let text = left + right;
    assert forall|k: int| 0 <= k < text.len() implies #[trigger] text[k] != '\u{1b}' by {
        if k < left.len() {
            assert(text[k] == left[k]);
        } else {
            assert(text[k] == right[k - left.len()]);
        }
    }
}

proof fn line_texts_are_bare(mark: Seq<char>, indent: Seq<char>, branch: Seq<char>, label: Seq<char>)
    requires
        is_bare(mark),
        is_bare(indent),
        is_bare(branch),
        is_bare(label),
    ensures
        is_bare(mark + indent + branch + label),
{
    bare_texts_add_up(mark, indent);
    bare_texts_add_up(mark + indent, branch);
    bare_texts_add_up(mark + indent + branch, label);
}

proof fn own_lines_are_bare(
    node: DiffModel,
    indent: Seq<char>,
    is_last: bool,
    is_root: bool,
    types: bool,
)
    requires
        carries_previous_labels(node),
        has_bare_labels(node),
        is_bare(indent),
    ensures
        forall|k: int|
            0 <= k < own_lines(node, indent, is_last, is_root, types).len() ==> is_bare(
                (#[trigger] own_lines(node, indent, is_last, is_root, types)[k]).text,
            ),
{
    let relation = match node.before_relation {
        Some(relation) => relation,
        None => node.relation,
    };
    marks_are_bare(node.status, node.relation, is_last, is_root);
    marks_are_bare(node.status, relation, is_last, is_root);
    line_texts_are_bare(
        status_mark(node.status).0,
        indent,
        branch_text(node.relation, is_last, is_root),
        label_text(node.label, types),
    );
    if node.before_label is Some {
        line_texts_are_bare(
            "- "@,
            indent,
            branch_text(relation, is_last, is_root),
            label_text(node.before_label->0, types),
        );
    }
}

proof fn tree_lines_are_bare(
    node: DiffModel,
    indent: Seq<char>,
    is_last: bool,
    is_root: bool,
    types: bool,
)
    requires
        carries_previous_labels(node),
        has_bare_labels(node),
        is_bare(indent),
    ensures
        forall|k: int|
            0 <= k < tree_lines(node, indent, is_last, is_root, types).len() ==> is_bare(
                (#[trigger] tree_lines(node, indent, is_last, is_root, types)[k]).text,
            ),
    decreases node, 0nat,
{
    own_lines_are_bare(node, indent, is_last, is_root, types);
    let own = own_lines(node, indent, is_last, is_root, types);
    let all = tree_lines(node, indent, is_last, is_root, types);
    if node.relation != CallRelation::BackEdge {
        let inner = child_indent(node, indent, is_last, is_root);
        reveal_strlit("   ");
        reveal_strlit("║  ");
        reveal_strlit("│  ");
        assert(is_bare("   "@));
        assert(is_bare("║  "@));
        assert(is_bare("│  "@));
        bare_texts_add_up(indent, "   "@);
        bare_texts_add_up(indent, "║  "@);
        bare_texts_add_up(indent, "│  "@);
        assert(is_bare(Seq::<char>::empty()));
        children_lines_are_bare(node.children, inner, types, node.children.len());
        let below = children_lines(node.children, inner, types, node.children.len());
        assert forall|k: int| 0 <= k < all.len() implies is_bare((#[trigger] all[k]).text) by {
            if k < own.len() {
                assert(all[k] == own[k]);
            } else {
                assert(all[k] == below[k - own.len()]);
            }
        }
    }
}

proof fn children_lines_are_bare(
    children: Seq<DiffModel>,
    indent: Seq<char>,
    types: bool,
    count: nat,
)
    requires
        count <= children.len(),
        forall|index: int| #![trigger children[index]]
            0 <= index < children.len() ==> carries_previous_labels(children[index])
                && has_bare_labels(children[index]),
        is_bare(indent),
    ensures
        forall|k: int|
            0 <= k < children_lines(children, indent, types, count).len() ==> is_bare(
                (#[trigger] children_lines(children, indent, types, count)[k]).text,
            ),
    decreases children, count,
{
    if count > 0 {
        let lower = children_lines(children, indent, types, (count - 1) as nat);
        let is_last = count == children.len();
        let last = tree_lines(children[count - 1], indent, is_last, false, types);
        let all = children_lines(children, indent, types, count);
        children_lines_are_bare(children, indent, types, (count - 1) as nat);
        tree_lines_are_bare(children[count - 1], indent, is_last, false, types);
        assert(all == lower + last);
        assert forall|k: int| 0 <= k < all.len() implies is_bare((#[trigger] all[k]).text) by {
            if k < lower.len() {
                assert(all[k] == lower[k]);
            } else {
                assert(all[k] == last[k - lower.len()]);
            }
        }
    }
}

/// Color changes neither lines nor text: where no label holds an escape
/// character, the plain text of a comparison holds none, and the colored text
/// without the codes of colors is the plain text.
pub proof fn colors_change_no_text(root: DiffModel, types: bool)
    requires
        carries_previous_labels(root),
        has_bare_labels(root),
    ensures
        is_bare(
            diff_tree_text(root, RenderOptions { show_types: types, color: ColorMode::Plain }),
        ),
        without_codes(
            diff_tree_text(root, RenderOptions { show_types: types, color: ColorMode::Ansi }),
        ) == diff_tree_text(root, RenderOptions { show_types: types, color: ColorMode::Plain }),
{
    let plain_options = RenderOptions { show_types: types, color: ColorMode::Plain };
    let options = RenderOptions { show_types: types, color: ColorMode::Ansi };
    let lines = root_lines(root, options);
    reveal_strlit("");
    assert(is_bare(""@));
    tree_lines_are_bare(root, ""@, true, true, types);
    let shown = shown_lines(root, options);
    let plain = shown_lines(root, plain_options);
    let colors = Seq::new(lines.len(), |index: int| lines[index].color);
    assert forall|k: int| 0 <= k < plain.len() implies is_bare(#[trigger] plain[k]) by {
        connected_lines_are_bare(lines, k as nat);
    }
    bare_texts_join(plain);
    let none = Seq::<char>::empty();
    joined_lines_stay(shown, plain, colors, none);
    assert(joined(shown, "\n"@) + none =~= joined(shown, "\n"@));
    assert(without_codes(none) =~= none);
    assert(joined(plain, "\n"@) + none =~= joined(plain, "\n"@));
}

} // verus!
