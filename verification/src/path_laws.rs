//! What holds of paths that are taken apart and put together again.
use crate::paths::{
    is_absolute, kept_parts, lies_under, part_key, path_behind, path_key, path_of, path_parts,
    path_under, same_place,
};
use crate::rust::remap::rerooted;
use crate::text::{ends_with, joined, occurs_at, pieces, pieces_are_some, pieces_from};
use vstd::prelude::*;

verus! {

/// Whether a text holds no separator of paths.
pub open spec fn is_unbroken(text: Seq<char>) -> bool {
    forall|k: int| 0 <= k < text.len() ==> #[trigger] text[k] != '/'
}

proof fn slash_is_one_character()
    ensures
        "/"@ == seq!['/'],
{
    reveal_strlit("/");
    assert("/"@ =~= seq!['/']);
}

proof fn slash_occurs(text: Seq<char>, index: int)
    requires
        0 <= index,
    ensures
        occurs_at(text, "/"@, index) == (index < text.len() && text[index] == '/'),
{
    slash_is_one_character();
    if index + 1 <= text.len() {
        let part = text.subrange(index, index + 1);
        assert(part.len() == 1);
        assert(part[0] == text[index]);
        if text[index] == '/' {
            assert(part =~= "/"@);
        }
    }
}

proof fn later_pieces(before: Seq<char>, text: Seq<char>, piece: int, index: int)
    requires
        0 <= piece <= index <= text.len(),
    ensures
        pieces_from(before + text, "/"@, before.len() + piece, before.len() + index)
            == pieces_from(text, "/"@, piece, index),
    decreases text.len() - index,
{
    slash_is_one_character();
    let whole = before + text;
    let first = before.len();
    slash_occurs(whole, first + index);
    slash_occurs(text, index);
    if index + 1 > text.len() {
        assert(whole.skip(first + piece) =~= text.skip(piece));
    } else {
        assert(whole[first + index] == text[index]);
        if text[index] == '/' {
            assert(whole.subrange(first + piece, first + index) =~= text.subrange(piece, index));
            later_pieces(before, text, index + 1, index + 1);
        } else {
            later_pieces(before, text, piece, index + 1);
        }
    }
}

proof fn pieces_of_both(left: Seq<char>, right: Seq<char>, piece: int, index: int)
    requires
        0 <= piece <= index <= left.len(),
    ensures
        pieces_from(left + "/"@ + right, "/"@, piece, index) == pieces_from(
            left,
            "/"@,
            piece,
            index,
        ) + pieces(right, "/"@),
    decreases left.len() - index,
{
    slash_is_one_character();
    let whole = left + "/"@ + right;
    slash_occurs(whole, index);
    slash_occurs(left, index);
    if index == left.len() {
        assert(whole[index] == '/');
        assert(whole.subrange(piece, index) =~= left.skip(piece));
        later_pieces(left + "/"@, right, 0, 0);
        assert(pieces_from(left, "/"@, piece, index) == seq![left.skip(piece)]);
    } else {
        assert(whole[index] == left[index]);
        if left[index] == '/' {
            pieces_of_both(left, right, index + 1, index + 1);
            assert(whole.subrange(piece, index) =~= left.subrange(piece, index));
            assert(pieces_from(whole, "/"@, piece, index) =~= pieces_from(left, "/"@, piece, index)
                + pieces(right, "/"@));
        } else {
            pieces_of_both(left, right, piece, index + 1);
        }
    }
}

proof fn unbroken_is_one_piece(text: Seq<char>, index: int)
    requires
        is_unbroken(text),
        0 <= index <= text.len(),
    ensures
        pieces_from(text, "/"@, 0, index) == seq![text],
    decreases text.len() - index,
{
    slash_is_one_character();
    slash_occurs(text, index);
    if index + 1 > text.len() {
        assert(text.skip(0) =~= text);
    } else {
        assert(text[index] != '/');
        unbroken_is_one_piece(text, index + 1);
    }
}

proof fn pieces_are_unbroken(text: Seq<char>, piece: int, index: int, place: int)
    requires
        0 <= piece <= index <= text.len(),
        forall|k: int| piece <= k < index ==> text[k] != '/',
        0 <= place < pieces_from(text, "/"@, piece, index).len(),
    ensures
        is_unbroken(pieces_from(text, "/"@, piece, index)[place]),
    decreases text.len() - index,
{
    slash_is_one_character();
    slash_occurs(text, index);
    if index + 1 > text.len() {
    } else if text[index] == '/' {
        if place > 0 {
            pieces_are_unbroken(text, index + 1, index + 1, place - 1);
        }
    } else {
        pieces_are_unbroken(text, piece, index + 1, place);
    }
}

/// Parts without separators are read back from the path that they are joined
/// to.
pub proof fn joined_parts_are_read_back(parts: Seq<Seq<char>>)
    requires
        parts.len() > 0,
        forall|k: int| 0 <= k < parts.len() ==> is_unbroken(#[trigger] parts[k]),
    ensures
        pieces(joined(parts, "/"@), "/"@) == parts,
    decreases parts.len(),
{
    if parts.len() == 1 {
        unbroken_is_one_piece(parts[0], 0);
        assert(parts =~= seq![parts[0]]);
    } else {
        let before = parts.drop_last();
        assert forall|k: int| 0 <= k < before.len() implies is_unbroken(#[trigger] before[k]) by {
            assert(before[k] == parts[k]);
        }
        joined_parts_are_read_back(before);
        pieces_of_both(joined(before, "/"@), parts.last(), 0, 0);
        unbroken_is_one_piece(parts.last(), 0);
        assert(parts =~= before + seq![parts.last()]);
    }
}

/// Whether a part of a path stays where it stands behind other parts.
pub open spec fn is_kept(part: Seq<char>) -> bool {
    is_unbroken(part) && part != ""@ && part != "."@
}

proof fn parts_come_from_pieces(pieces: Seq<Seq<char>>, count: int, place: int)
    requires
        0 <= count <= pieces.len(),
        forall|k: int| 0 <= k < pieces.len() ==> is_unbroken(#[trigger] pieces[k]),
        0 <= place < kept_parts(pieces, count).len(),
    ensures
        is_unbroken(kept_parts(pieces, count)[place]),
        kept_parts(pieces, count)[place] != ""@,
        place > 0 ==> kept_parts(pieces, count)[place] != "."@,
    decreases count,
{
    if count > 0 {
        let before = kept_parts(pieces, count - 1);
        if place < before.len() {
            parts_come_from_pieces(pieces, count - 1, place);
        } else {
            assert(kept_parts(pieces, count)[place] == pieces[count - 1]);
            if count == 1 {
                assert(kept_parts(pieces, 0).len() == 0);
            }
        }
    }
}

proof fn parts_are_unbroken(path: Seq<char>, place: int)
    requires
        0 <= place < path_parts(path).len(),
    ensures
        is_unbroken(path_parts(path)[place]),
        path_parts(path)[place] != ""@,
        place > 0 ==> path_parts(path)[place] != "."@,
{
    let all = pieces(path, "/"@);
    assert forall|k: int| 0 <= k < all.len() implies is_unbroken(#[trigger] all[k]) by {
        pieces_are_unbroken(path, 0, 0, k);
    }
    parts_come_from_pieces(all, all.len() as int, place);
}

proof fn more_parts_are_kept(first: Seq<Seq<char>>, more: Seq<Seq<char>>, count: int)
    requires
        first.len() > 0,
        0 <= count <= more.len(),
        forall|k: int| 0 <= k < more.len() ==> #[trigger] more[k] != ""@ && more[k] != "."@,
    ensures
        kept_parts(first + more, first.len() + count) == kept_parts(first, first.len() as int)
            + more.take(count),
    decreases count,
{
    let all = first + more;
    if count == 0 {
        same_parts(first, more, first.len() as int);
        assert(more.take(0) =~= Seq::empty());
        assert(kept_parts(first, first.len() as int) + more.take(0) =~= kept_parts(
            first,
            first.len() as int,
        ));
    } else {
        more_parts_are_kept(first, more, count - 1);
        assert(all[first.len() + count - 1] == more[count - 1]);
        assert(more.take(count) =~= more.take(count - 1).push(more[count - 1]));
        assert(kept_parts(all, first.len() + count) =~= kept_parts(first, first.len() as int)
            + more.take(count));
    }
}

proof fn same_parts(first: Seq<Seq<char>>, more: Seq<Seq<char>>, count: int)
    requires
        0 <= count <= first.len(),
    ensures
        kept_parts(first + more, count) == kept_parts(first, count),
    decreases count,
{
    if count > 0 {
        same_parts(first, more, count - 1);
        assert((first + more)[count - 1] == first[count - 1]);
    }
}

proof fn lone_parts_are_kept(parts: Seq<Seq<char>>, count: int)
    requires
        0 <= count <= parts.len(),
        forall|k: int| 0 <= k < parts.len() ==> is_kept(#[trigger] parts[k]),
    ensures
        kept_parts(parts, count) == parts.take(count),
    decreases count,
{
    if count > 0 {
        lone_parts_are_kept(parts, count - 1);
        assert(is_kept(parts[count - 1]));
        assert(parts.take(count) =~= parts.take(count - 1).push(parts[count - 1]));
    } else {
        assert(parts.take(0) =~= Seq::empty());
    }
}

/// The parts of what is behind a separator stand behind those before it.
proof fn parts_behind_a_slash(before: Seq<char>, rest: Seq<Seq<char>>)
    requires
        forall|k: int| 0 <= k < rest.len() ==> is_kept(#[trigger] rest[k]),
    ensures
        path_parts(before + "/"@ + joined(rest, "/"@)) == path_parts(before) + rest,
{
    let first = pieces(before, "/"@);
    pieces_are_some(before, "/"@, 0, 0);
    pieces_of_both(before, joined(rest, "/"@), 0, 0);
    if rest.len() == 0 {
        reveal_strlit("");
        let empty = Seq::<char>::empty();
        assert(""@ =~= empty);
        unbroken_is_one_piece(empty, 0);
        let all = first + seq![empty];
        same_parts(first, seq![empty], first.len() as int);
        assert(all[first.len() as int] == empty);
        assert(kept_parts(all, all.len() as int) == kept_parts(first, first.len() as int));
        assert(path_parts(before) + rest =~= path_parts(before));
    } else {
        assert forall|k: int| 0 <= k < rest.len() implies is_unbroken(#[trigger] rest[k]) by {
            assert(is_kept(rest[k]));
        }
        assert forall|k: int| 0 <= k < rest.len() implies #[trigger] rest[k] != ""@ && rest[k]
            != "."@ by {
            assert(is_kept(rest[k]));
        }
        joined_parts_are_read_back(rest);
        more_parts_are_kept(first, rest, rest.len() as int);
        assert(rest.take(rest.len() as int) =~= rest);
    }
}

proof fn joined_parts_are_relative(rest: Seq<Seq<char>>)
    requires
        forall|k: int| 0 <= k < rest.len() ==> is_kept(#[trigger] rest[k]),
    ensures
        !is_absolute(joined(rest, "/"@)),
        rest.len() > 0 ==> joined(rest, "/"@).len() > 0,
    decreases rest.len(),
{
    slash_is_one_character();
    let text = joined(rest, "/"@);
    slash_occurs(text, 0);
    if rest.len() == 0 {
    } else if rest.len() == 1 {
        assert(is_kept(rest[0]));
        reveal_strlit("");
        if rest[0].len() == 0 {
            assert(rest[0] =~= ""@);
        }
    } else {
        let before = rest.drop_last();
        assert forall|k: int| 0 <= k < before.len() implies is_kept(#[trigger] before[k]) by {
            assert(before[k] == rest[k]);
            assert(is_kept(rest[k]));
        }
        joined_parts_are_relative(before);
        slash_occurs(joined(before, "/"@), 0);
        assert(text[0] == joined(before, "/"@)[0]);
    }
}

/// A path behind a directory leads through the parts of the directory and then
/// through its own.
pub proof fn paths_behind_hold_both(base: Seq<char>, rest: Seq<Seq<char>>)
    requires
        forall|k: int| 0 <= k < rest.len() ==> is_kept(#[trigger] rest[k]),
    ensures
        path_parts(path_behind(base, joined(rest, "/"@))) == path_parts(base) + rest,
        is_absolute(path_behind(base, joined(rest, "/"@))) == is_absolute(base),
{
    let relative = joined(rest, "/"@);
    let whole = path_behind(base, relative);
    joined_parts_are_relative(rest);
    slash_is_one_character();
    slash_occurs(base, 0);
    slash_occurs(whole, 0);
    if base.len() == 0 {
        reveal_strlit("");
        let empty = Seq::<char>::empty();
        assert(base =~= empty);
        assert(""@ =~= empty);
        unbroken_is_one_piece(empty, 0);
        assert(pieces(base, "/"@)[0] == empty);
        assert(kept_parts(pieces(base, "/"@), 1) == kept_parts(pieces(base, "/"@), 0));
        assert(path_parts(base) =~= Seq::empty());
        assert(path_parts(base) + rest =~= rest);
        if rest.len() == 0 {
            assert(relative =~= empty);
        } else {
            assert forall|k: int| 0 <= k < rest.len() implies is_unbroken(#[trigger] rest[k]) by {
                assert(is_kept(rest[k]));
            }
            joined_parts_are_read_back(rest);
            lone_parts_are_kept(rest, rest.len() as int);
            assert(rest.take(rest.len() as int) =~= rest);
        }
    } else {
        slash_occurs(base, base.len() - 1);
        if ends_with(base, "/"@) {
            let before = base.drop_last();
            assert(base =~= before + "/"@);
            assert(whole =~= before + "/"@ + relative);
            parts_behind_a_slash(before, rest);
            let none = Seq::<Seq<char>>::empty();
            parts_behind_a_slash(before, none);
            assert(before + "/"@ + joined(none, "/"@) =~= base);
            assert(path_parts(before) + none =~= path_parts(before));
        } else {
            parts_behind_a_slash(base, rest);
        }
        assert(whole[0] == base[0]);
    }
}

proof fn keys_of_parts(path: Seq<char>, parts: Seq<Seq<char>>, rest: Seq<Seq<char>>)
    requires
        path_parts(path) == parts + rest,
    ensures
        path_key(path) == (if is_absolute(path) {
            seq!["0"@]
        } else {
            Seq::empty()
        }) + parts.map_values(|part: Seq<char>| part_key(part)) + rest.map_values(
            |part: Seq<char>| part_key(part),
        ),
{
    assert((parts + rest).map_values(|part: Seq<char>| part_key(part)) =~= parts.map_values(
        |part: Seq<char>| part_key(part),
    ) + rest.map_values(|part: Seq<char>| part_key(part)));
    assert(path_key(path) =~= (if is_absolute(path) {
        seq!["0"@]
    } else {
        Seq::empty()
    }) + parts.map_values(|part: Seq<char>| part_key(part)) + rest.map_values(
        |part: Seq<char>| part_key(part),
    ));
}

proof fn same_roots(path: Seq<char>, base: Seq<char>)
    requires
        lies_under(path, base),
        is_absolute(base),
    ensures
        is_absolute(path),
{
    reveal_strlit("0");
    reveal_strlit("1");
    reveal_strlit("2");
    reveal_strlit("3");
    let outer = path_key(base);
    assert(outer[0] == "0"@);
    assert(path_key(path).take(outer.len() as int)[0] == path_key(path)[0]);
    if !is_absolute(path) {
        assert(path_key(path)[0] == part_key(path_parts(path)[0]));
        assert(part_key(path_parts(path)[0])[0] != "0"@[0]);
    }
}

/// A file that is moved from one directory to another lies in the same place
/// below it, and is where it was when it is moved back.
pub proof fn moved_files_keep_their_place(path: Seq<char>, from: Seq<char>, to: Seq<char>)
    requires
        lies_under(path, from),
        is_absolute(path) ==> is_absolute(from),
        path_parts(from).len() == 0 && path_parts(path).len() > 0 ==> path_parts(path)[0] != "."@,
    ensures
        path_parts(rerooted(path, from, to)) == path_parts(to) + path_parts(path).skip(
            path_parts(from).len() as int,
        ),
        lies_under(rerooted(path, from, to), to),
        same_place(rerooted(rerooted(path, from, to), to, from), path),
{
    let skipped = path_parts(from).len();
    let rest = path_parts(path).skip(skipped as int);
    let keys = rest.map_values(|part: Seq<char>| part_key(part));
    let none = Seq::<Seq<char>>::empty();
    if is_absolute(from) {
        same_roots(path, from);
    }
    assert(path_parts(path) =~= path_parts(path) + none);
    assert(path_parts(from) =~= path_parts(from) + none);
    keys_of_parts(path, path_parts(path), none);
    keys_of_parts(from, path_parts(from), none);
    assert(skipped <= path_parts(path).len());
    assert(path_key(path).skip(path_key(from).len() as int) =~= keys);
    assert(path_key(path) =~= path_key(from) + keys);
    assert forall|k: int| 0 <= k < rest.len() implies is_kept(#[trigger] rest[k]) by {
        assert(rest[k] == path_parts(path)[k + skipped]);
        parts_are_unbroken(path, k + skipped);
    }
    let moved = rerooted(path, from, to);
    assert(path_under(path, from) == Some(path_of(false, rest)));
    paths_behind_hold_both(to, rest);
    keys_of_parts(moved, path_parts(to), rest);
    assert(path_parts(to) =~= path_parts(to) + none);
    keys_of_parts(to, path_parts(to), none);
    assert(path_key(moved) =~= path_key(to) + keys);
    assert(path_key(moved).take(path_key(to).len() as int) =~= path_key(to));
    assert(path_parts(moved).skip(path_parts(to).len() as int) =~= rest);
    let back = rerooted(moved, to, from);
    paths_behind_hold_both(from, rest);
    keys_of_parts(back, path_parts(from), rest);
    assert(path_key(back) =~= path_key(from) + keys);
}

} // verus!
