//! What Cargo's metadata tell of a workspace: where each package lies, and the
//! root file of each of its targets.
use crate::json::{list_under, member_from, member_of, text_under, JsonModel};
use crate::lists::{joint_items, pushed_items};
use crate::paths::parent_of;
use crate::source::{all_target_files, metadata_layout, package_directories, target_files};
use vstd::prelude::*;

verus! {

/// Whether a value stands in an object under a name, and no other in front of
/// it does.
pub open spec fn stands_under(object: JsonModel, name: Seq<char>, value: JsonModel) -> bool {
    match object {
        JsonModel::Object(members) => exists|at: int|
            0 <= at < members.len() && #[trigger] members[at] == (name, value) && forall|
                earlier: int,
            |
                0 <= earlier < at ==> (#[trigger] members[earlier]).0 != name,
        _ => false,
    }
}

proof fn members_are_found_from(
    members: Seq<(Seq<char>, JsonModel)>,
    name: Seq<char>,
    index: int,
    at: int,
)
    requires
        0 <= index <= at < members.len(),
        members[at].0 == name,
        forall|earlier: int| 0 <= earlier < at ==> (#[trigger] members[earlier]).0 != name,
    ensures
        member_from(members, name, index) == Some(members[at].1),
    decreases at - index,
{
    if index < at {
        members_are_found_from(members, name, index + 1, at);
    }
}

/// What stands in an object under a name is found there.
pub proof fn members_are_found(object: JsonModel, name: Seq<char>, value: JsonModel)
    requires
        stands_under(object, name, value),
    ensures
        member_of(object, name) == Some(value),
{
    let members = object->Object_0;
    let at = choose|at: int|
        0 <= at < members.len() && #[trigger] members[at] == (name, value) && forall|earlier: int|
            0 <= earlier < at ==> (#[trigger] members[earlier]).0 != name;
    members_are_found_from(members, name, 0, at);
}

proof fn directories_are_listed(packages: Seq<JsonModel>, count: int, at: int, manifest: Seq<char>)
    requires
        0 <= at < count <= packages.len(),
        text_under(packages[at], "manifest_path"@) == Some(manifest),
        parent_of(manifest) is Some,
    ensures
        package_directories(packages, count).contains(parent_of(manifest)->0),
    decreases count,
{
    let before = package_directories(packages, count - 1);
    let wanted = parent_of(manifest)->0;
    if at < count - 1 {
        directories_are_listed(packages, count - 1, at, manifest);
    }
    match text_under(packages[count - 1], "manifest_path"@) {
        Some(other) => match parent_of(other) {
            Some(directory) => {
                pushed_items(before, directory, wanted);
            },
            None => {},
        },
        None => {},
    }
}

proof fn files_are_listed(targets: Seq<JsonModel>, count: int, at: int, file: Seq<char>)
    requires
        0 <= at < count <= targets.len(),
        text_under(targets[at], "src_path"@) == Some(file),
    ensures
        target_files(targets, count).contains(file),
    decreases count,
{
    let before = target_files(targets, count - 1);
    if at < count - 1 {
        files_are_listed(targets, count - 1, at, file);
    }
    match text_under(targets[count - 1], "src_path"@) {
        Some(other) => {
            pushed_items(before, other, file);
        },
        None => {},
    }
}

proof fn all_files_are_listed(
    packages: Seq<JsonModel>,
    count: int,
    at: int,
    targets: Seq<JsonModel>,
    file: Seq<char>,
)
    requires
        0 <= at < count <= packages.len(),
        list_under(packages[at], "targets"@) == Some(targets),
        target_files(targets, targets.len() as int).contains(file),
    ensures
        all_target_files(packages, count).contains(file),
    decreases count,
{
    let before = all_target_files(packages, count - 1);
    if at < count - 1 {
        all_files_are_listed(packages, count - 1, at, targets, file);
    }
    match list_under(packages[count - 1], "targets"@) {
        Some(others) => {
            joint_items(before, target_files(others, others.len() as int), file);
        },
        None => {},
    }
}

/// The layout of a workspace has the directory of each package that the
/// metadata list, and the root file of each target of each package.
pub proof fn packages_and_targets_are_listed(
    metadata: JsonModel,
    packages: Seq<JsonModel>,
    package: int,
    manifest: Seq<char>,
    targets: Seq<JsonModel>,
    target: int,
    file: Seq<char>,
)
    requires
        stands_under(metadata, "packages"@, JsonModel::List(packages)),
        0 <= package < packages.len(),
    ensures
        metadata_layout(metadata) is Some,
        stands_under(packages[package], "manifest_path"@, JsonModel::Text(manifest)) && parent_of(
            manifest,
        ) is Some ==> (metadata_layout(metadata)->0).0.contains(parent_of(manifest)->0),
        stands_under(packages[package], "targets"@, JsonModel::List(targets)) && 0 <= target
            < targets.len() && stands_under(targets[target], "src_path"@, JsonModel::Text(file))
            ==> (metadata_layout(metadata)->0).1.contains(file),
{
    members_are_found(metadata, "packages"@, JsonModel::List(packages));
    if stands_under(packages[package], "manifest_path"@, JsonModel::Text(manifest)) && parent_of(
        manifest,
    ) is Some {
        members_are_found(packages[package], "manifest_path"@, JsonModel::Text(manifest));
        directories_are_listed(packages, packages.len() as int, package, manifest);
    }
    if stands_under(packages[package], "targets"@, JsonModel::List(targets)) && 0 <= target
        < targets.len() && stands_under(targets[target], "src_path"@, JsonModel::Text(file)) {
        members_are_found(packages[package], "targets"@, JsonModel::List(targets));
        members_are_found(targets[target], "src_path"@, JsonModel::Text(file));
        files_are_listed(targets, targets.len() as int, target, file);
        all_files_are_listed(packages, packages.len() as int, package, targets, file);
    }
}

} // verus!
