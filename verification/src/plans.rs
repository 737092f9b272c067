//! What a command compares: the projects of two snapshots that changes touch,
//! and how files are looked at.
use crate::engine::DiffReport;
use crate::files::{leads_to, FileModel, SourceFile};
use crate::lists::views;
use crate::model::path_models;
use crate::paths::{
    ancestors_of, lies_under, optional_path, parent_of, path_behind, same_place, SourcePath,
};
use crate::selection::{
    config_changed, place_in_snapshot, relative_snapshot_path, report_analyzes_path,
    rust_config_changed, SourceLanguage,
};
use crate::text::{trim_text, trimmed};
use vstd::prelude::*;

verus! {

/// Whether a search in a snapshot ends at a directory.
pub open spec fn ends_search(directory: Seq<char>, snapshot: Seq<char>) -> bool {
    same_place(directory, snapshot) || !lies_under(directory, snapshot)
}

/// The directories from `index` on up to the one at which a search in a
/// snapshot ends.
pub open spec fn up_to_snapshot(directories: Seq<Seq<char>>, snapshot: Seq<char>, index: int) -> Seq<
    Seq<char>,
>
    decreases directories.len() - index,
{
    if index < 0 || index >= directories.len() {
        Seq::empty()
    } else if ends_search(directories[index], snapshot) {
        seq![directories[index]]
    } else {
        seq![directories[index]] + up_to_snapshot(directories, snapshot, index + 1)
    }
}

/// The directories in which a search for the project of a file in a snapshot
/// looks, in order.
pub open spec fn marker_search(snapshot: Seq<char>, relative: Seq<char>) -> Seq<Seq<char>> {
    match parent_of(path_behind(snapshot, relative)) {
        Some(parent) => up_to_snapshot(ancestors_of(parent), snapshot, 0),
        None => Seq::empty(),
    }
}

/// The directories in which a search for the project of a file in a snapshot
/// looks, in order.
pub fn marker_directories(snapshot: &SourcePath, relative: &SourcePath) -> (result: Vec<SourcePath>)
    ensures
        path_models(result@) == marker_search(snapshot@, relative@),
{
    let mut result: Vec<SourcePath> = Vec::new();
    proof {
        assert(path_models(result@) =~= Seq::<Seq<char>>::empty());
    }
    let parent = match snapshot.join(relative.text.as_str()).parent() {
        Some(parent) => parent,
        None => {
            return result;
        },
    };
    let directories = parent.ancestors();
    let ghost all = path_models(directories@);
    proof {
        assert(all =~= ancestors_of(parent@));
        assert(path_models(result@) + up_to_snapshot(all, snapshot@, 0) =~= up_to_snapshot(
            all,
            snapshot@,
            0,
        ));
    }
    let mut index: usize = 0;
    while index < directories.len()
        invariant
            index <= directories@.len(),
            all == path_models(directories@),
            all == ancestors_of(parent@),
            parent_of(path_behind(snapshot@, relative@)) == Some(parent@),
            path_models(result@) + up_to_snapshot(all, snapshot@, index as int) == up_to_snapshot(
                all,
                snapshot@,
                0,
            ),
        decreases directories@.len() - index,
    {
        let directory = &directories[index];
        let ghost before = path_models(result@);
        proof {
            assert(all[index as int] == directory@);
        }
        let ends = directory.same(snapshot) || !directory.starts_with(snapshot);
        result.push(directory.clone());
        proof {
            assert(path_models(result@) =~= before.push(directory@));
            let later = up_to_snapshot(all, snapshot@, index + 1);
            if ends {
                assert(before + seq![directory@] =~= before.push(directory@));
            } else {
                assert(before + (seq![directory@] + later) =~= before.push(directory@) + later);
            }
        }
        if ends {
            return result;
        }
        index += 1;
    }
    proof {
        assert(path_models(result@) + Seq::<Seq<char>>::empty() =~= path_models(result@));
    }
    result
}

/// Where the project that Cargo builds lies in a snapshot: its workspace where
/// that lies in the snapshot, or the package itself.
pub open spec fn cargo_place(
    snapshot: Seq<char>,
    canonical: Option<Seq<char>>,
    root: Seq<char>,
    workspace: Option<Seq<char>>,
) -> Option<Seq<char>> {
    let outer = match workspace {
        Some(workspace) => workspace,
        None => root,
    };
    match place_in_snapshot(snapshot, canonical, outer) {
        Some(place) => Some(place),
        None => place_in_snapshot(snapshot, canonical, root),
    }
}

/// Where the project that Cargo builds lies in a snapshot.
pub fn relative_cargo_root(
    snapshot: &SourcePath,
    canonical: Option<&SourcePath>,
    root: &SourcePath,
    workspace: Option<&SourcePath>,
) -> (result: Option<SourcePath>)
    ensures
        optional_path(result) == cargo_place(
            snapshot@,
            (match canonical {
                Some(canonical) => Some(canonical@),
                None => None,
            }),
            root@,
            (match workspace {
                Some(workspace) => Some(workspace@),
                None => None,
            }),
        ),
{
    let outer = match workspace {
        Some(workspace) => workspace,
        None => root,
    };
    match relative_snapshot_path(snapshot, canonical, outer) {
        Some(place) => Some(place),
        None => relative_snapshot_path(snapshot, canonical, root),
    }
}

/// The directory of the manifest that Cargo names as that of a workspace.
pub fn workspace_directory(output: &str) -> (result: Option<SourcePath>)
    ensures
        optional_path(result) == parent_of(trimmed(output@)),
{
    SourcePath::new(trim_text(output).as_str()).parent()
}

/// The paths among the first `count` that are not among others.
pub open spec fn paths_without(paths: Seq<Seq<char>>, covered: Seq<Seq<char>>, count: int) -> Seq<
    Seq<char>,
>
    decreases count,
{
    if count <= 0 {
        Seq::empty()
    } else {
        let before = paths_without(paths, covered, count - 1);
        if is_covered(covered, paths[count - 1]) {
            before
        } else {
            before.push(paths[count - 1])
        }
    }
}

/// Whether a path is among some.
pub open spec fn is_covered(covered: Seq<Seq<char>>, path: Seq<char>) -> bool {
    exists|k: int| 0 <= k < covered.len() && same_place(#[trigger] covered[k], path)
}

fn check_covered(covered: &Vec<SourcePath>, path: &SourcePath) -> (result: bool)
    ensures
        result == is_covered(path_models(covered@), path@),
{
    let ghost model = path_models(covered@);
    let mut index: usize = 0;
    while index < covered.len()
        invariant
            index <= covered@.len(),
            model == path_models(covered@),
            forall|k: int| 0 <= k < index ==> !same_place(#[trigger] model[k], path@),
        decreases covered@.len() - index,
    {
        proof {
            assert(model[index as int] == covered@[index as int]@);
        }
        if covered[index].same(path) {
            return true;
        }
        index += 1;
    }
    false
}

/// The changed files that no project covers.
pub fn uncovered_paths(paths: &Vec<SourcePath>, covered: &Vec<SourcePath>) -> (result: Vec<SourcePath>)
    ensures
        path_models(result@) == paths_without(
            path_models(paths@),
            path_models(covered@),
            paths@.len() as int,
        ),
{
    let mut result: Vec<SourcePath> = Vec::new();
    let mut index: usize = 0;
    proof {
        assert(path_models(result@) =~= Seq::<Seq<char>>::empty());
    }
    while index < paths.len()
        invariant
            index <= paths@.len(),
            path_models(result@) == paths_without(
                path_models(paths@),
                path_models(covered@),
                index as int,
            ),
        decreases paths@.len() - index,
    {
        let path = &paths[index];
        proof {
            assert(path_models(paths@)[index as int] == path@);
        }
        if !check_covered(covered, path) {
            let ghost before = path_models(result@);
            result.push(path.clone());
            proof {
                assert(path_models(result@) =~= before.push(path@));
            }
        }
        index += 1;
    }
    result
}

/// The paths among the first `count` that lie in a directory.
pub open spec fn paths_below(paths: Seq<Seq<char>>, root: Seq<char>, count: int) -> Seq<Seq<char>>
    decreases count,
{
    if count <= 0 {
        Seq::empty()
    } else {
        let before = paths_below(paths, root, count - 1);
        if lies_under(paths[count - 1], root) {
            before.push(paths[count - 1])
        } else {
            before
        }
    }
}

/// The changed files that lie in a project.
pub fn project_paths(paths: &Vec<SourcePath>, root: &SourcePath) -> (result: Vec<SourcePath>)
    ensures
        path_models(result@) == paths_below(path_models(paths@), root@, paths@.len() as int),
{
    let mut result: Vec<SourcePath> = Vec::new();
    let mut index: usize = 0;
    proof {
        assert(path_models(result@) =~= Seq::<Seq<char>>::empty());
    }
    while index < paths.len()
        invariant
            index <= paths@.len(),
            path_models(result@) == paths_below(path_models(paths@), root@, index as int),
        decreases paths@.len() - index,
    {
        let path = &paths[index];
        proof {
            assert(path_models(paths@)[index as int] == path@);
        }
        if path.starts_with(root) {
            let ghost before = path_models(result@);
            result.push(path.clone());
            proof {
                assert(path_models(result@) =~= before.push(path@));
            }
        }
        index += 1;
    }
    result
}

/// The sources among the first `count` paths that lie in a project and belong
/// to it.
pub open spec fn sources_below(
    paths: Seq<Seq<char>>,
    root: Seq<char>,
    is_source: Seq<bool>,
    count: int,
) -> Seq<Seq<char>>
    decreases count,
{
    if count <= 0 {
        Seq::empty()
    } else {
        let before = sources_below(paths, root, is_source, count - 1);
        if lies_under(paths[count - 1], root) && count <= is_source.len() && is_source[count - 1] {
            before.push(paths[count - 1])
        } else {
            before
        }
    }
}

/// The changed files by which a project is compared, or nothing where the
/// project is passed over.
pub open spec fn relevant(
    paths: Seq<Seq<char>>,
    triggers: Seq<Seq<char>>,
    root: Seq<char>,
    is_source: Seq<bool>,
) -> Option<Seq<Seq<char>>> {
    let found = sources_below(paths, root, is_source, paths.len() as int);
    if found.len() == 0 && !config_changed(triggers, root) {
        None
    } else {
        Some(found)
    }
}

/// The models of an optional list of paths.
pub open spec fn optional_paths(paths: Option<Vec<SourcePath>>) -> Option<Seq<Seq<char>>> {
    match paths {
        Some(paths) => Some(path_models(paths@)),
        None => None,
    }
}

/// The changed files of the Rust project at `root`, by which of them are
/// sources of a project on either side. There is nothing where no such file
/// changed and no configuration did either: then the project is passed over.
pub fn relevant_paths(
    paths: &Vec<SourcePath>,
    triggers: &Vec<SourcePath>,
    root: &SourcePath,
    is_source: &Vec<bool>,
) -> (result: Option<Vec<SourcePath>>)
    ensures
        optional_paths(result) == relevant(
            path_models(paths@),
            path_models(triggers@),
            root@,
            is_source@,
        ),
{
    let mut found: Vec<SourcePath> = Vec::new();
    let mut index: usize = 0;
    proof {
        assert(path_models(found@) =~= Seq::<Seq<char>>::empty());
    }
    while index < paths.len()
        invariant
            index <= paths@.len(),
            path_models(found@) == sources_below(
                path_models(paths@),
                root@,
                is_source@,
                index as int,
            ),
        decreases paths@.len() - index,
    {
        let path = &paths[index];
        proof {
            assert(path_models(paths@)[index as int] == path@);
        }
        if path.starts_with(root) && index < is_source.len() && is_source[index] {
            let ghost before = path_models(found@);
            found.push(path.clone());
            proof {
                assert(path_models(found@) =~= before.push(path@));
            }
        }
        index += 1;
    }
    proof {
        assert(path_models(found@).len() == found@.len());
    }
    if found.len() == 0 && !rust_config_changed(triggers, root) {
        None
    } else {
        Some(found)
    }
}

/// Whether a file is among those that a report has analyzed.
pub open spec fn is_analyzed(analyzed: Seq<Seq<char>>, file: FileModel) -> bool {
    exists|k: int| 0 <= k < analyzed.len() && leads_to(file, #[trigger] analyzed[k])
}

/// The paths among the first `count` that a report has analyzed on either
/// side.
pub open spec fn paths_analyzed(
    analyzed: Seq<Seq<char>>,
    paths: Seq<Seq<char>>,
    before: Seq<FileModel>,
    after: Seq<FileModel>,
    count: int,
) -> Seq<Seq<char>>
    decreases count,
{
    if count <= 0 {
        Seq::empty()
    } else {
        let earlier = paths_analyzed(analyzed, paths, before, after, count - 1);
        if (count <= before.len() && is_analyzed(analyzed, before[count - 1])) || (count
            <= after.len() && is_analyzed(analyzed, after[count - 1])) {
            earlier.push(paths[count - 1])
        } else {
            earlier
        }
    }
}

/// Those of some paths that a report covers: the report has analyzed the file
/// that stands there before, or the one that stands there after.
pub fn covered_paths(
    report: &DiffReport,
    paths: &Vec<SourcePath>,
    before: &Vec<SourceFile>,
    after: &Vec<SourceFile>,
) -> (result: Vec<SourcePath>)
    ensures
        path_models(result@) == paths_analyzed(
            report@.analyzed_files,
            path_models(paths@),
            views(before@),
            views(after@),
            paths@.len() as int,
        ),
{
    let mut result: Vec<SourcePath> = Vec::new();
    let mut index: usize = 0;
    proof {
        assert(path_models(result@) =~= Seq::<Seq<char>>::empty());
    }
    while index < paths.len()
        invariant
            index <= paths@.len(),
            path_models(result@) == paths_analyzed(
                report@.analyzed_files,
                path_models(paths@),
                views(before@),
                views(after@),
                index as int,
            ),
        decreases paths@.len() - index,
    {
        let path = &paths[index];
        proof {
            assert(path_models(paths@)[index as int] == path@);
            assert(views(before@).len() == before@.len());
            assert(views(after@).len() == after@.len());
            if index < before@.len() {
                assert(views(before@)[index as int] == before@[index as int]@);
            }
            if index < after@.len() {
                assert(views(after@)[index as int] == after@[index as int]@);
            }
        }
        let known_before = index < before.len() && report_analyzes_path(report, &before[index]);
        let known_after = index < after.len() && report_analyzes_path(report, &after[index]);
        if known_before || known_after {
            let ghost earlier = path_models(result@);
            result.push(path.clone());
            proof {
                assert(path_models(result@) =~= earlier.push(path@));
            }
        }
        index += 1;
    }
    result
}

/// How files are looked at: on their own, or as parts of their projects.
#[derive(Clone, Copy, Debug, PartialEq, Eq, Structural)]
pub enum FilePlan {
    RustProject,
    RustFile,
    OcamlProject,
    OcamlFile,
}

/// How files are looked at: as parts of their projects where each of them is
/// part of one.
pub open spec fn planned(language: SourceLanguage, before: bool, after: Option<bool>) -> FilePlan {
    let in_projects = before && match after {
        Some(after) => after,
        None => true,
    };
    match language {
        SourceLanguage::Rust => if in_projects {
            FilePlan::RustProject
        } else {
            FilePlan::RustFile
        },
        SourceLanguage::Ocaml => if in_projects {
            FilePlan::OcamlProject
        } else {
            FilePlan::OcamlFile
        },
    }
}

/// How a file is looked at, or two that are compared, by whether each is part
/// of a project.
pub fn plan_files(language: SourceLanguage, before: bool, after: Option<bool>) -> (result: FilePlan)
    ensures
        result == planned(language, before, after),
{
    let in_projects = before && match after {
        Some(after) => after,
        None => true,
    };
    match language {
        SourceLanguage::Rust => if in_projects {
            FilePlan::RustProject
        } else {
            FilePlan::RustFile
        },
        SourceLanguage::Ocaml => if in_projects {
            FilePlan::OcamlProject
        } else {
            FilePlan::OcamlFile
        },
    }
}

} // verus!
