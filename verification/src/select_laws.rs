//! Which revisions, paths and projects a comparison looks at.
use crate::git::{endpoints_of, entries_from, EndpointModel};
use crate::lists::pushed_items;
use crate::paths::{lies_under, same_place};
use crate::plans::{is_covered, paths_below, paths_without, relevant, sources_below};
use crate::selection::{config_changed, passes, selected_paths, PathFilter};
use vstd::prelude::*;

verus! {

/// Without a revision the last commit is compared with the worktree, one
/// revision with its parent before it, and two with each other in their order.
pub proof fn revisions_are_compared_in_order(first: Seq<char>, second: Seq<char>)
    ensures
        endpoints_of(Seq::empty()) == Some(
            (EndpointModel::Revision(seq!['H', 'E', 'A', 'D']), EndpointModel::Worktree),
        ),
        endpoints_of(seq![first]) == Some(
            (EndpointModel::Revision(first + seq!['^']), EndpointModel::Revision(first)),
        ),
        endpoints_of(seq![first, second]) == Some(
            (EndpointModel::Revision(first), EndpointModel::Revision(second)),
        ),
        forall|revisions: Seq<Seq<char>>|
            revisions.len() > 2 ==> #[trigger] endpoints_of(revisions) is None,
{
    reveal_strlit("HEAD");
    reveal_strlit("^");
    assert("HEAD"@ =~= seq!['H', 'E', 'A', 'D']);
    assert("^"@ =~= seq!['^']);
}

proof fn entries_end(bytes: Seq<u8>, start: nat, index: nat, end: nat)
    requires
        start <= index <= end < bytes.len(),
        start < end,
        bytes[end as int] == 0,
        forall|at: int| start <= at < end ==> #[trigger] bytes[at] != 0,
    ensures
        entries_from(bytes, start, index) == seq![bytes.subrange(start as int, end as int)]
            + entries_from(bytes, end + 1, end + 1),
    decreases end - index,
{
    if index < end {
        entries_end(bytes, start, index + 1, end);
    }
}

proof fn entries_do_not_look_back(front: Seq<u8>, rest: Seq<u8>, start: nat, index: nat)
    requires
        start <= index <= rest.len(),
    ensures
        entries_from(front + rest, front.len() + start, front.len() + index) == entries_from(
            rest,
            start,
            index,
        ),
    decreases rest.len() - index,
{
    let bytes = front + rest;
    if index >= rest.len() {
        if start < rest.len() {
            assert(bytes.subrange((front.len() + start) as int, bytes.len() as int)
                =~= rest.subrange(start as int, rest.len() as int));
        }
    } else {
        assert(bytes[(front.len() + index) as int] == rest[index as int]);
        if rest[index as int] == 0 {
            entries_do_not_look_back(front, rest, index + 1, index + 1);
            if start < index {
                assert(bytes.subrange((front.len() + start) as int, (front.len() + index) as int)
                    =~= rest.subrange(start as int, index as int));
            }
        } else {
            entries_do_not_look_back(front, rest, start, index + 1);
        }
    }
}

/// A list that Git wrote is read back entry by entry: an entry, a zero byte and
/// the rest are the entry and what the rest is read as.
pub proof fn entries_are_read_back(entry: Seq<u8>, rest: Seq<u8>)
    requires
        entry.len() > 0,
        !entry.contains(0u8),
    ensures
        entries_from(entry + seq![0u8] + rest, 0, 0) == seq![entry] + entries_from(rest, 0, 0),
        entries_from(Seq::empty(), 0, 0) == Seq::<Seq<u8>>::empty(),
        entries_from(seq![0u8] + rest, 0, 0) == entries_from(rest, 0, 0),
{
    let front = entry + seq![0u8];
    let bytes = front + rest;
    let end = entry.len();
    assert(bytes[end as int] == 0);
    assert forall|at: int| 0 <= at < end implies #[trigger] bytes[at] != 0 by {
        assert(bytes[at] == entry[at]);
    }
    entries_end(bytes, 0, 0, end);
    assert(bytes.subrange(0, end as int) =~= entry);
    entries_do_not_look_back(front, rest, 0, 0);
    let zero = seq![0u8];
    assert((zero + rest)[0] == 0);
    entries_do_not_look_back(zero, rest, 0, 0);
}

/// The paths that are selected are those of the list that pass, and no others.
pub proof fn paths_are_selected(
    filter: PathFilter,
    paths: Seq<Seq<char>>,
    count: nat,
    path: Seq<char>,
)
    requires
        count <= paths.len(),
    ensures
        selected_paths(filter, paths, count).contains(path) == (paths.take(
            count as int,
        ).contains(path) && passes(filter, path)),
    decreases count,
{
    if count > 0 {
        paths_are_selected(filter, paths, (count - 1) as nat, path);
        let last = paths[count - 1];
        let shorter = paths.take(count - 1);
        assert(paths.take(count as int) =~= shorter.push(last));
        pushed_items(shorter, last, path);
        pushed_items(selected_paths(filter, paths, (count - 1) as nat), last, path);
    }
}

/// The paths that are left over are those of the list that no other stands for.
pub proof fn paths_are_left_over(
    paths: Seq<Seq<char>>,
    covered: Seq<Seq<char>>,
    count: int,
    path: Seq<char>,
)
    requires
        0 <= count <= paths.len(),
    ensures
        paths_without(paths, covered, count).contains(path) == (paths.take(count).contains(path)
            && !(exists|at: int| 0 <= at < covered.len() && same_place(
            #[trigger] covered[at],
            path,
        ))),
    decreases count,
{
    if count > 0 {
        paths_are_left_over(paths, covered, count - 1, path);
        let last = paths[count - 1];
        let shorter = paths.take(count - 1);
        assert(paths.take(count) =~= shorter.push(last));
        pushed_items(shorter, last, path);
        pushed_items(paths_without(paths, covered, count - 1), last, path);
        assert(is_covered(covered, last) == exists|at: int|
            0 <= at < covered.len() && same_place(#[trigger] covered[at], last));
    }
}

/// The paths of a project are those of the list that lie in its directory.
pub proof fn paths_lie_in_their_project(
    paths: Seq<Seq<char>>,
    root: Seq<char>,
    count: int,
    path: Seq<char>,
)
    requires
        0 <= count <= paths.len(),
    ensures
        paths_below(paths, root, count).contains(path) == (paths.take(count).contains(path)
            && lies_under(path, root)),
    decreases count,
{
    if count > 0 {
        paths_lie_in_their_project(paths, root, count - 1, path);
        let last = paths[count - 1];
        let shorter = paths.take(count - 1);
        assert(paths.take(count) =~= shorter.push(last));
        pushed_items(shorter, last, path);
        pushed_items(paths_below(paths, root, count - 1), last, path);
    }
}

proof fn sources_lie_in_their_project(
    paths: Seq<Seq<char>>,
    root: Seq<char>,
    is_source: Seq<bool>,
    count: int,
    at: int,
)
    requires
        0 <= at < count <= paths.len(),
        at < is_source.len(),
        is_source[at],
        lies_under(paths[at], root),
    ensures
        sources_below(paths, root, is_source, count).contains(paths[at]),
    decreases count,
{
    pushed_items(
        sources_below(paths, root, is_source, count - 1),
        paths[count - 1],
        paths[at],
    );
    if at < count - 1 {
        sources_lie_in_their_project(paths, root, is_source, count - 1, at);
    }
}

/// A project is compared where one of its sources changed, with each that did,
/// and where something changed by which it is built; it is passed over only
/// where neither did.
pub proof fn changed_projects_are_compared(
    paths: Seq<Seq<char>>,
    triggers: Seq<Seq<char>>,
    root: Seq<char>,
    is_source: Seq<bool>,
    at: int,
)
    ensures
        0 <= at < paths.len() && at < is_source.len() && is_source[at] && lies_under(
            paths[at],
            root,
        ) ==> relevant(paths, triggers, root, is_source) is Some && relevant(
            paths,
            triggers,
            root,
            is_source,
        )->0.contains(paths[at]),
        config_changed(triggers, root) ==> relevant(paths, triggers, root, is_source) is Some,
{
    if 0 <= at < paths.len() && at < is_source.len() && is_source[at] && lies_under(
        paths[at],
        root,
    ) {
        sources_lie_in_their_project(paths, root, is_source, paths.len() as int, at);
    }
}

} // verus!
