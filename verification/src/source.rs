//! Which files of a project are source files.
use crate::json::{json_value, list_under, parse_json, text_under, Json, JsonModel};
use crate::lists::views;
use crate::model::path_models;
use crate::paths::{
    extension_of, lies_under, name_of, parent_of, parts_of, path_behind, path_parts, path_under,
    some_texts, stem_of, SourcePath,
};
use crate::sets::{insert_path, with_paths};
use crate::text::{concat_texts, same_text, texts};
use vstd::prelude::*;

verus! {

/// Whether a name is that of a directory with generated output or with
/// dependencies.
pub open spec fn is_generated_name(name: Seq<char>) -> bool {
    ||| name == ".git"@
    ||| name == "target"@
    ||| name == "_build"@
    ||| name == "node_modules"@
    ||| name == ".zig-cache"@
    ||| name == "zig-out"@
}

fn names_generated_directory(name: &str) -> (result: bool)
    ensures
        result == is_generated_name(name@),
{
    same_text(name, ".git") || same_text(name, "target") || same_text(name, "_build") || same_text(
        name,
        "node_modules",
    ) || same_text(name, ".zig-cache") || same_text(name, "zig-out")
}

/// Whether a path leads to a directory with generated output or with
/// dependencies.
pub fn is_generated_directory(path: &SourcePath) -> (result: bool)
    ensures
        result == (name_of(path@) matches Some(name) && is_generated_name(name)),
{
    match path.file_name() {
        Some(name) => names_generated_directory(name.as_str()),
        None => false,
    }
}

/// Whether any part of a path names a directory with generated output or with
/// dependencies.
pub open spec fn has_generated_part(path: Seq<char>) -> bool {
    exists|k: int| 0 <= k < path_parts(path).len() && is_generated_name(#[trigger] path_parts(path)[k])
}

/// Whether any part of a path names a directory with generated output or with
/// dependencies.
pub fn contains_generated_component(path: &SourcePath) -> (result: bool)
    ensures
        result == has_generated_part(path@),
{
    let parts = parts_of(path.text.as_str());
    let ghost all = path_parts(path@);
    let mut index: usize = 0;
    while index < parts.len()
        invariant
            index <= parts@.len(),
            all == texts(parts@),
            all == path_parts(path@),
            forall|k: int| 0 <= k < index ==> !is_generated_name(#[trigger] all[k]),
        decreases parts@.len() - index,
    {
        assert(all[index as int] == parts@[index as int]@);
        if names_generated_directory(parts[index].as_str()) {
            return true;
        }
        index += 1;
    }
    false
}

/// Whether a path has one of some extensions.
pub open spec fn extension_among(path: Seq<char>, extensions: Seq<Seq<char>>) -> bool {
    match extension_of(path) {
        Some(extension) => extensions.contains(extension),
        None => false,
    }
}

/// Whether a path has one of some extensions.
pub fn has_extension(path: &SourcePath, extensions: &Vec<String>) -> (result: bool)
    ensures
        result == extension_among(path@, texts(extensions@)),
{
    match path.extension() {
        None => false,
        Some(extension) => {
            let ghost all = texts(extensions@);
            let mut index: usize = 0;
            while index < extensions.len()
                invariant
                    index <= extensions@.len(),
                    all == texts(extensions@),
                    extension_of(path@) == Some(extension@),
                    forall|k: int| 0 <= k < index ==> #[trigger] all[k] != extension@,
                decreases extensions@.len() - index,
            {
                assert(all[index as int] == extensions@[index as int]@);
                if same_text(extensions[index].as_str(), extension.as_str()) {
                    return true;
                }
                index += 1;
            }
            false
        },
    }
}

/// What an entry of a directory is.
#[derive(Clone, Copy, Debug, PartialEq, Eq, Structural)]
pub enum EntryKind {
    Directory,
    File,
    Other,
}

/// What to do with an entry of a directory.
#[derive(Clone, Copy, Debug, PartialEq, Eq, Structural)]
pub enum EntryAction {
    /// Look into the directory.
    Descend,
    /// The file is a source file.
    Keep,
    Skip,
}

/// What to do with an entry of a directory when source files are collected:
/// generated directories are left out, and files without a known extension.
pub open spec fn collect_action(
    path: Seq<char>,
    kind: EntryKind,
    extensions: Seq<Seq<char>>,
) -> EntryAction {
    match kind {
        EntryKind::Directory => if name_of(path) matches Some(name) && is_generated_name(name) {
            EntryAction::Skip
        } else {
            EntryAction::Descend
        },
        EntryKind::File => if extension_among(path, extensions) {
            EntryAction::Keep
        } else {
            EntryAction::Skip
        },
        EntryKind::Other => EntryAction::Skip,
    }
}

/// What to do with an entry of a directory when source files are collected.
pub fn collect_source_files(path: &SourcePath, kind: EntryKind, extensions: &Vec<String>)
    -> (result: EntryAction)
    ensures
        result == collect_action(path@, kind, texts(extensions@)),
{
    match kind {
        EntryKind::Directory => {
            if is_generated_directory(path) {
                EntryAction::Skip
            } else {
                EntryAction::Descend
            }
        },
        EntryKind::File => {
            if has_extension(path, extensions) {
                EntryAction::Keep
            } else {
                EntryAction::Skip
            }
        },
        EntryKind::Other => EntryAction::Skip,
    }
}

/// What to do with an entry of a directory when all files of one extension are
/// collected, generated directories included.
pub fn collect_files_with_extension(path: &SourcePath, kind: EntryKind, extension: &str) -> (result:
    EntryAction)
    ensures
        result == (match kind {
            EntryKind::Directory => EntryAction::Descend,
            EntryKind::File => if extension_of(path@) == Some(extension@) {
                EntryAction::Keep
            } else {
                EntryAction::Skip
            },
            EntryKind::Other => EntryAction::Skip,
        }),
{
    match kind {
        EntryKind::Directory => EntryAction::Descend,
        EntryKind::File => {
            match path.extension() {
                Some(found) => {
                    if same_text(found.as_str(), extension) {
                        EntryAction::Keep
                    } else {
                        EntryAction::Skip
                    }
                },
                None => EntryAction::Skip,
            }
        },
        EntryKind::Other => EntryAction::Skip,
    }
}

/// The names among the first `count` parts of a path: without `.` and `..`.
pub open spec fn named_parts(parts: Seq<Seq<char>>, count: nat) -> Seq<Seq<char>>
    decreases count,
{
    if count == 0 {
        Seq::empty()
    } else {
        let before = named_parts(parts, (count - 1) as nat);
        let part = parts[count - 1];
        if part == "."@ || part == ".."@ {
            before
        } else {
            before.push(part)
        }
    }
}

/// A module path without a leading `src`.
pub open spec fn without_src(parts: Seq<Seq<char>>) -> Seq<Seq<char>> {
    if parts.len() > 0 && parts[0] == "src"@ {
        parts.skip(1)
    } else {
        parts
    }
}

/// The name of a file without its extension, or as it is where it has no name.
pub open spec fn stem_or_name(name: Seq<char>) -> Seq<char> {
    match stem_of(name) {
        Some(stem) => stem,
        None => name,
    }
}

/// A module path whose last part has no extension.
pub open spec fn with_stem(parts: Seq<Seq<char>>) -> Seq<Seq<char>> {
    if parts.len() > 0 {
        parts.drop_last().push(stem_or_name(parts.last()))
    } else {
        parts
    }
}

/// A module path without the file that stands for its directory.
pub open spec fn without_root_file(parts: Seq<Seq<char>>) -> Seq<Seq<char>> {
    if parts.len() > 0 && (parts.last() == "lib"@ || parts.last() == "main"@ || parts.last()
        == "mod"@) {
        parts.drop_last()
    } else {
        parts
    }
}

/// The module that a file of a source tree holds: its path from the root, with
/// no `src` in front, no extension, and no `lib`, `main` or `mod` at the end.
pub open spec fn module_of(root: Seq<char>, file: Seq<char>) -> Seq<Seq<char>> {
    let relative = match path_under(file, root) {
        Some(relative) => relative,
        None => file,
    };
    let parts = path_parts(relative);
    without_root_file(with_stem(without_src(named_parts(parts, parts.len()))))
}

/// The module that a file of a source tree holds.
pub fn source_module(root: &SourcePath, file: &SourcePath) -> (result: Vec<String>)
    ensures
        texts(result@) == module_of(root@, file@),
{
    let relative = match file.strip_prefix(root) {
        Some(relative) => relative,
        None => file.clone(),
    };
    let all = parts_of(relative.text.as_str());
    let ghost every = texts(all@);
    let mut parts: Vec<String> = Vec::new();
    let mut index: usize = 0;
    proof {
        assert(texts(parts@) =~= Seq::<Seq<char>>::empty());
    }
    while index < all.len()
        invariant
            index <= all@.len(),
            every == texts(all@),
            texts(parts@) == named_parts(every, index as nat),
        decreases all@.len() - index,
    {
        assert(every[index as int] == all@[index as int]@);
        if !same_text(all[index].as_str(), ".") && !same_text(all[index].as_str(), "..") {
            let ghost before = texts(parts@);
            parts.push(all[index].clone());
            proof {
                assert(texts(parts@) =~= before.push(every[index as int]));
            }
        }
        index += 1;
    }
    let ghost named = texts(parts@);
    if parts.len() > 0 && same_text(parts[0].as_str(), "src") {
        parts = some_texts(&parts, 1, parts.len());
        proof {
            assert(texts(parts@) =~= named.skip(1));
        }
    }
    let ghost trimmed = texts(parts@);
    proof {
        assert(trimmed == without_src(named));
    }
    if parts.len() > 0 {
        let count: usize = parts.len();
        let ghost last = trimmed.last();
        assert(last == parts@[count - 1]@);
        let path = SourcePath::new(parts[count - 1].as_str());
        let stem = match path.file_stem() {
            Some(stem) => stem,
            None => parts[count - 1].clone(),
        };
        let ghost stem_text = stem@;
        parts.set(count - 1, stem);
        proof {
            assert(texts(parts@) =~= trimmed.drop_last().push(stem_text));
        }
        let ghost stemmed = texts(parts@);
        assert(stemmed == with_stem(trimmed));
        assert(stemmed.last() == parts@[count - 1]@);
        if same_text(parts[count - 1].as_str(), "lib") || same_text(
            parts[count - 1].as_str(),
            "main",
        ) || same_text(parts[count - 1].as_str(), "mod") {
            parts = some_texts(&parts, 0, count - 1);
            proof {
                assert(texts(parts@) =~= stemmed.drop_last());
            }
        }
    }
    parts
}

/// Where Cargo looks for the sources of a workspace.
#[derive(Clone, Debug)]
pub struct CargoSourceLayout {
    pub package_roots: Vec<SourcePath>,
    pub target_sources: Vec<SourcePath>,
}

/// Whether a file lies in the `src` of a package.
pub open spec fn in_package_source(file: Seq<char>, package_root: Seq<char>) -> bool {
    lies_under(file, path_behind(package_root, "src"@))
}

/// Whether a file lies in the `src` of a package.
pub fn conventional_rust_source(file: &SourcePath, package_root: &SourcePath) -> (result: bool)
    ensures
        result == in_package_source(file@, package_root@),
{
    file.starts_with(&package_root.join("src"))
}

/// Whether a file can belong to the crate whose root source is `target`: it is
/// that source, or lies where the modules of that source lie.
pub open spec fn in_target(target: Seq<char>, file: Seq<char>) -> bool {
    crate::paths::same_place(target, file) || match parent_of(target) {
        None => false,
        Some(parent) => match name_of(target) {
            None => false,
            Some(name) => if name == "lib.rs"@ || name == "main.rs"@ || name == "mod.rs"@ {
                lies_under(file, parent)
            } else {
                lies_under(file, path_behind(parent, stem_of(target)->0))
            },
        },
    }
}

/// Whether a file can belong to the crate whose root source is `target`.
pub fn target_contains_source(target: &SourcePath, file: &SourcePath) -> (result: bool)
    ensures
        result == in_target(target@, file@),
{
    if target.same(file) {
        return true;
    }
    let parent = match target.parent() {
        Some(parent) => parent,
        None => {
            return false;
        },
    };
    match target.file_name() {
        None => false,
        Some(name) => {
            if same_text(name.as_str(), "lib.rs") || same_text(name.as_str(), "main.rs")
                || same_text(name.as_str(), "mod.rs") {
                file.starts_with(&parent)
            } else {
                match target.file_stem() {
                    Some(stem) => file.starts_with(&parent.join(stem.as_str())),
                    None => false,
                }
            }
        },
    }
}

/// Whether a file lies in the `src` of any of some packages.
pub open spec fn under_any_package(file: Seq<char>, packages: Seq<Seq<char>>) -> bool {
    exists|k: int| 0 <= k < packages.len() && in_package_source(file, #[trigger] packages[k])
}

/// Whether a file can belong to any of some targets.
pub open spec fn in_some_target(file: Seq<char>, targets: Seq<Seq<char>>) -> bool {
    exists|k: int| 0 <= k < targets.len() && in_target(#[trigger] targets[k], file)
}

/// Whether Cargo can compile a file as part of a workspace: it lies in the
/// `src` of a package or belongs to a target. Without a layout, the `src` of
/// the workspace itself counts; without a workspace, nothing does.
pub open spec fn is_project_source(
    file: Seq<char>,
    root: Option<Seq<char>>,
    layout: Option<(Seq<Seq<char>>, Seq<Seq<char>>)>,
) -> bool {
    match root {
        None => false,
        Some(root) => match layout {
            None => in_package_source(file, root),
            Some((packages, targets)) => under_any_package(file, packages) || in_some_target(
                file,
                targets,
            ),
        },
    }
}

impl View for CargoSourceLayout {
    type V = (Seq<Seq<char>>, Seq<Seq<char>>);

    open spec fn view(&self) -> (Seq<Seq<char>>, Seq<Seq<char>>) {
        (path_models(self.package_roots@), path_models(self.target_sources@))
    }
}

/// The directories of the first `count` packages: those of their manifests.
/// A package without the text of one has none.
pub open spec fn package_directories(packages: Seq<JsonModel>, count: int) -> Seq<Seq<char>>
    decreases count,
{
    if count <= 0 {
        Seq::empty()
    } else {
        let before = package_directories(packages, count - 1);
        match text_under(packages[count - 1], "manifest_path"@) {
            Some(manifest) => match parent_of(manifest) {
                Some(directory) => before.push(directory),
                None => before,
            },
            None => before,
        }
    }
}

/// The root files of the first `count` targets of a package. A target without
/// the text of one has none.
pub open spec fn target_files(targets: Seq<JsonModel>, count: int) -> Seq<Seq<char>>
    decreases count,
{
    if count <= 0 {
        Seq::empty()
    } else {
        let before = target_files(targets, count - 1);
        match text_under(targets[count - 1], "src_path"@) {
            Some(file) => before.push(file),
            None => before,
        }
    }
}

/// The root files of the targets of the first `count` packages, one package
/// behind the other. A package without a list of targets has none.
pub open spec fn all_target_files(packages: Seq<JsonModel>, count: int) -> Seq<Seq<char>>
    decreases count,
{
    if count <= 0 {
        Seq::empty()
    } else {
        let before = all_target_files(packages, count - 1);
        match list_under(packages[count - 1], "targets"@) {
            Some(targets) => before + target_files(targets, targets.len() as int),
            None => before,
        }
    }
}

/// The layout of a workspace by what Cargo's metadata say of its packages.
/// None where they list no packages.
pub open spec fn metadata_layout(metadata: JsonModel) -> Option<
    (Seq<Seq<char>>, Seq<Seq<char>>),
> {
    match list_under(metadata, "packages"@) {
        Some(packages) => Some(
            (
                package_directories(packages, packages.len() as int),
                all_target_files(packages, packages.len() as int),
            ),
        ),
        None => None,
    }
}

/// The model of a layout that may be missing.
pub open spec fn optional_layout(layout: Option<CargoSourceLayout>) -> Option<
    (Seq<Seq<char>>, Seq<Seq<char>>),
> {
    match layout {
        Some(layout) => Some(layout@),
        None => None,
    }
}

fn add_target_files(files: &mut Vec<SourcePath>, targets: &Vec<Json>)
    ensures
        path_models(final(files)@) == path_models(old(files)@) + target_files(
            views(targets@),
            targets@.len() as int,
        ),
{
    let ghost start = path_models(files@);
    let mut index: usize = 0;
    proof {
        assert(start + Seq::<Seq<char>>::empty() =~= start);
    }
    while index < targets.len()
        invariant
            index <= targets@.len(),
            path_models(files@) == start + target_files(views(targets@), index as int),
        decreases targets@.len() - index,
    {
        let ghost before = path_models(files@);
        let ghost found = target_files(views(targets@), index as int);
        proof {
            assert(views(targets@)[index as int] == targets@[index as int]@);
        }
        if let Some(file) = targets[index].text("src_path") {
            files.push(SourcePath::new(file.as_str()));
            proof {
                assert(path_models(files@) =~= before.push(file@));
                assert(before.push(file@) =~= start + found.push(file@));
            }
        }
        index += 1;
    }
}

/// The layout of a workspace by what Cargo's metadata say of its packages.
#[verifier::rlimit(30)]
pub fn layout_of_metadata(metadata: &Json) -> (result: Option<CargoSourceLayout>)
    ensures
        optional_layout(result) == metadata_layout(metadata@),
{
    let packages = match metadata.list("packages") {
        Some(packages) => packages,
        None => {
            return None;
        },
    };
    let ghost all = views(packages@);
    let mut package_roots: Vec<SourcePath> = Vec::new();
    let mut target_sources: Vec<SourcePath> = Vec::new();
    let mut index: usize = 0;
    proof {
        assert(path_models(package_roots@) =~= Seq::<Seq<char>>::empty());
        assert(path_models(target_sources@) =~= Seq::<Seq<char>>::empty());
        assert(all.len() == packages@.len());
    }
    while index < packages.len()
        invariant
            index <= packages@.len(),
            all == views(packages@),
            path_models(package_roots@) == package_directories(all, index as int),
            path_models(target_sources@) == all_target_files(all, index as int),
        decreases packages@.len() - index,
    {
        let package = &packages[index];
        proof {
            assert(all[index as int] == package@);
        }
        if let Some(manifest) = package.text("manifest_path") {
            if let Some(directory) = SourcePath::new(manifest.as_str()).parent() {
                let ghost before = path_models(package_roots@);
                let ghost model = directory@;
                package_roots.push(directory);
                proof {
                    assert(path_models(package_roots@) =~= before.push(model));
                }
            }
        }
        if let Some(targets) = package.list("targets") {
            proof {
                assert(views(targets@).len() == targets@.len());
            }
            add_target_files(&mut target_sources, targets);
        }
        index += 1;
    }
    Some(CargoSourceLayout { package_roots, target_sources })
}

/// The layout of a workspace by what `cargo metadata` puts out. None where that
/// is no JSON text, or lists no packages.
pub fn cargo_source_layout(output: &Vec<u8>) -> (result: Option<CargoSourceLayout>)
    ensures
        optional_layout(result) == (match json_value(output@) {
            Some(metadata) => metadata_layout(metadata),
            None => None,
        }),
{
    match parse_json(output) {
        Some(metadata) => layout_of_metadata(&metadata),
        None => None,
    }
}

/// Whether Cargo can compile a file as part of the workspace at `root`, by
/// what Cargo says of its layout.
pub fn rust_file_is_project_source(
    path: &SourcePath,
    root: Option<&SourcePath>,
    layout: Option<&CargoSourceLayout>,
) -> (result: bool)
    ensures
        result == is_project_source(
            path@,
            (match root {
                Some(root) => Some(root@),
                None => None,
            }),
            (match layout {
                Some(layout) => Some(layout@),
                None => None,
            }),
        ),
{
    match (root, layout) {
        (None, _) => false,
        (Some(root), None) => conventional_rust_source(path, root),
        (Some(_), Some(layout)) => in_any_package(path, &layout.package_roots) || in_any_target(
            path,
            &layout.target_sources,
        ),
    }
}

fn in_any_package(path: &SourcePath, roots: &Vec<SourcePath>) -> (result: bool)
    ensures
        result == under_any_package(path@, path_models(roots@)),
{
    let ghost packages = path_models(roots@);
    let mut index: usize = 0;
    while index < roots.len()
        invariant
            index <= roots@.len(),
            packages == path_models(roots@),
            forall|k: int| 0 <= k < index ==> !in_package_source(path@, #[trigger] packages[k]),
        decreases roots@.len() - index,
    {
        assert(packages[index as int] == roots@[index as int]@);
        if conventional_rust_source(path, &roots[index]) {
            return true;
        }
        index += 1;
    }
    false
}

fn in_any_target(path: &SourcePath, sources: &Vec<SourcePath>) -> (result: bool)
    ensures
        result == in_some_target(path@, path_models(sources@)),
{
    let ghost targets = path_models(sources@);
    let mut index: usize = 0;
    while index < sources.len()
        invariant
            index <= sources@.len(),
            targets == path_models(sources@),
            forall|k: int| 0 <= k < index ==> !in_target(#[trigger] targets[k], path@),
        decreases sources@.len() - index,
    {
        assert(targets[index as int] == sources@[index as int]@);
        if target_contains_source(&sources[index], path) {
            return true;
        }
        index += 1;
    }
    false
}

/// The directory in which a search for a project begins: the path itself where
/// it is a directory, or what holds it.
pub open spec fn search_start(path: Seq<char>, is_directory: bool) -> Seq<char> {
    if is_directory {
        path
    } else {
        match parent_of(path) {
            Some(parent) => parent,
            None => "."@,
        }
    }
}

/// A directory by a path that can be looked up: the empty path is the current
/// directory.
pub open spec fn named_directory(path: Seq<char>) -> Seq<char> {
    if path.len() == 0 {
        "."@
    } else {
        path
    }
}

/// The directories in which a search for a project looks, in order: where it
/// begins, then each directory above, up to the current one for a relative
/// path.
pub open spec fn searched_directories(path: Seq<char>, is_directory: bool) -> Seq<Seq<char>> {
    crate::paths::ancestors_of(search_start(path, is_directory)).map_values(
        |directory: Seq<char>| named_directory(directory),
    )
}

/// The directories in which a search for a project looks, in order.
pub fn search_directories(path: &SourcePath, is_directory: bool) -> (result: Vec<SourcePath>)
    ensures
        path_models(result@) == searched_directories(path@, is_directory),
        result@.len() > 0,
{
    let start = if is_directory {
        path.clone()
    } else {
        match path.parent() {
            Some(parent) => parent,
            None => SourcePath::new("."),
        }
    };
    let above = start.ancestors();
    let ghost all = crate::paths::ancestors_of(start@);
    proof {
        assert(path_models(above@) =~= all);
        assert(all.len() > 0);
    }
    let mut result: Vec<SourcePath> = Vec::new();
    let mut index: usize = 0;
    while index < above.len()
        invariant
            index <= above@.len(),
            all == path_models(above@),
            result@.len() == index,
            forall|k: int| 0 <= k < index ==> (#[trigger] result@[k])@ == named_directory(all[k]),
        decreases above@.len() - index,
    {
        proof {
            assert(all[index as int] == above@[index as int]@);
            reveal_strlit("");
            if all[index as int].len() == 0 {
                assert(all[index as int] =~= ""@);
            }
        }
        if same_text(above[index].text.as_str(), "") {
            result.push(SourcePath::new("."));
        } else {
            result.push(above[index].clone());
        }
        index += 1;
    }
    proof {
        assert(path_models(result@) =~= searched_directories(path@, is_directory));
    }
    result
}

/// The first of some directories that is marked, from `index` on.
pub open spec fn first_marked(
    directories: Seq<Seq<char>>,
    marked: Seq<bool>,
    index: nat,
) -> Option<Seq<char>>
    decreases directories.len() - index,
{
    if index >= directories.len() || index >= marked.len() {
        None
    } else if marked[index as int] {
        Some(directories[index as int])
    } else {
        first_marked(directories, marked, index + 1)
    }
}

/// The first of some directories that is marked.
pub fn first_project_root(directories: &Vec<SourcePath>, marked: &Vec<bool>) -> (result: Option<
    SourcePath,
>)
    ensures
        crate::paths::optional_path(result) == first_marked(
            path_models(directories@),
            marked@,
            0,
        ),
{
    let ghost all = path_models(directories@);
    let mut index: usize = 0;
    while index < directories.len() && index < marked.len()
        invariant
            index <= directories@.len(),
            index <= marked@.len(),
            all == path_models(directories@),
            first_marked(all, marked@, index as nat) == first_marked(all, marked@, 0),
        decreases directories@.len() - index,
    {
        assert(all[index as int] == directories@[index as int]@);
        if marked[index] {
            return Some(directories[index].clone());
        }
        index += 1;
    }
    None
}

/// The nearest directory above `path` that holds a `Cargo.toml`, by which of
/// the searched directories hold one.
pub fn find_cargo_root(path: &SourcePath, is_directory: bool, has_manifest: &Vec<bool>) -> (result:
    Result<SourcePath, String>)
    ensures
        match result {
            Ok(root) => first_marked(
                searched_directories(path@, is_directory),
                has_manifest@,
                0,
            ) == Some(root@),
            Err(message) => first_marked(
                searched_directories(path@, is_directory),
                has_manifest@,
                0,
            ) is None && message@ == "no Cargo.toml found above "@ + path@,
        },
{
    let directories = search_directories(path, is_directory);
    match first_project_root(&directories, has_manifest) {
        Some(root) => Ok(root),
        None => Err(concat_texts("no Cargo.toml found above ", path.text.as_str())),
    }
}

/// The nearest directory above `path` that holds a `dune-project`, by which of
/// the searched directories hold one; where none does, the directory in which
/// the search began.
pub fn find_ocaml_root(path: &SourcePath, is_directory: bool, has_project: &Vec<bool>) -> (result:
    SourcePath)
    ensures
        result@ == (match first_marked(
            searched_directories(path@, is_directory),
            has_project@,
            0,
        ) {
            Some(root) => root,
            None => named_directory(search_start(path@, is_directory)),
        }),
{
    let directories = search_directories(path, is_directory);
    match first_project_root(&directories, has_project) {
        Some(root) => root,
        None => {
            proof {
                assert(path_models(directories@)[0] == directories@[0]@);
            }
            directories[0].clone()
        },
    }
}

/// Paths in order, each place once.
pub fn sort_paths(paths: &Vec<SourcePath>) -> (result: Vec<SourcePath>)
    ensures
        path_models(result@) == with_paths(Seq::empty(), path_models(paths@), paths@.len()),
{
    let ghost models = path_models(paths@);
    let mut result: Vec<SourcePath> = Vec::new();
    let mut index: usize = 0;
    proof {
        assert(path_models(result@) =~= Seq::<Seq<char>>::empty());
    }
    while index < paths.len()
        invariant
            index <= paths@.len(),
            models == path_models(paths@),
            path_models(result@) == with_paths(Seq::empty(), models, index as nat),
        decreases paths@.len() - index,
    {
        assert(models[index as int] == paths@[index as int]@);
        insert_path(&mut result, paths[index].clone());
        index += 1;
    }
    result
}

} // verus!
