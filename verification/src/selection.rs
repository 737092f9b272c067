//! What is compared: languages, projects and files, by the paths that changed.
use crate::engine::DiffReport;
use crate::files::{leads_to, SourceFile};
use crate::model::path_models;
use crate::paths::{extension_of, lies_under, name_of, parts_of, path_parts, path_under, SourcePath};
use crate::text::{concat_texts, join_texts, joined, lower_text, lowered, same_text, texts};
use vstd::prelude::*;

verus! {

/// A source language.
#[derive(Clone, Copy, Debug, PartialEq, Eq, PartialOrd, Ord, Structural)]
pub enum SourceLanguage {
    Rust,
    Ocaml,
}

/// The language of a file, by its extension in any case.
pub open spec fn language_of(path: Seq<char>) -> Option<SourceLanguage> {
    match extension_of(path) {
        None => None,
        Some(extension) => {
            let name = lowered(extension);
            if name == "rs"@ {
                Some(SourceLanguage::Rust)
            } else if name == "ml"@ || name == "mli"@ {
                Some(SourceLanguage::Ocaml)
            } else {
                None
            }
        },
    }
}

/// The language of a file, by its extension in any case.
pub fn language_from_extension(path: &SourcePath) -> (result: Option<SourceLanguage>)
    ensures
        result == language_of(path@),
{
    match path.extension() {
        None => None,
        Some(extension) => {
            let name = lower_text(extension.as_str());
            if same_text(name.as_str(), "rs") {
                Some(SourceLanguage::Rust)
            } else if same_text(name.as_str(), "ml") || same_text(name.as_str(), "mli") {
                Some(SourceLanguage::Ocaml)
            } else {
                None
            }
        },
    }
}

/// The language of a file that has to have one.
pub fn detect_file_language(path: &SourcePath) -> (result: Result<SourceLanguage, String>)
    ensures
        match result {
            Ok(language) => language_of(path@) == Some(language),
            Err(message) => language_of(path@) is None && message@
                == "cannot infer a language from "@ + path@ + "; expected .rs, .ml, or .mli"@,
        },
{
    match language_from_extension(path) {
        Some(language) => Ok(language),
        None => {
            let mut message = concat_texts("cannot infer a language from ", path.text.as_str());
            message.append("; expected .rs, .ml, or .mli");
            Err(message)
        },
    }
}

/// The language in which two files are compared: the one that is asked for, or
/// the one that both have.
pub open spec fn shared_language(
    asked: Option<SourceLanguage>,
    before: Seq<char>,
    after: Seq<char>,
) -> Option<SourceLanguage> {
    match (language_of(before), language_of(after)) {
        (Some(left), Some(right)) => match asked {
            Some(language) => Some(language),
            None => if left == right {
                Some(left)
            } else {
                None
            },
        },
        _ => None,
    }
}

/// The language in which two files are compared.
pub fn comparison_language(
    asked: Option<SourceLanguage>,
    before: &SourcePath,
    after: &SourcePath,
) -> (result: Result<SourceLanguage, String>)
    ensures
        match result {
            Ok(language) => shared_language(asked, before@, after@) == Some(language),
            Err(message) => shared_language(asked, before@, after@) is None && message@ == (
            if language_of(before@) is None {
                "cannot infer a language from "@ + before@ + "; expected .rs, .ml, or .mli"@
            } else if language_of(after@) is None {
                "cannot infer a language from "@ + after@ + "; expected .rs, .ml, or .mli"@
            } else {
                "cannot compare "@ + before@ + " and "@ + after@
                    + " because their languages differ"@
            }),
        },
{
    let left = match detect_file_language(before) {
        Ok(language) => language,
        Err(message) => {
            return Err(message);
        },
    };
    let right = match detect_file_language(after) {
        Ok(language) => language,
        Err(message) => {
            return Err(message);
        },
    };
    match asked {
        Some(language) => Ok(language),
        None => {
            if left == right {
                Ok(left)
            } else {
                let mut message = concat_texts("cannot compare ", before.text.as_str());
                message.append(" and ");
                message.append(after.text.as_str());
                message.append(" because their languages differ");
                Err(message)
            }
        },
    }
}

/// Whether a changed path can change what the calls of a Rust project are:
/// its sources, its manifests, its toolchain and what is under `.cargo`.
pub open spec fn triggers_rust(path: Seq<char>) -> bool {
    ||| language_of(path) == Some(SourceLanguage::Rust)
    ||| name_of(path) == Some("Cargo.toml"@)
    ||| name_of(path) == Some("Cargo.lock"@)
    ||| name_of(path) == Some("rust-toolchain"@)
    ||| name_of(path) == Some("rust-toolchain.toml"@)
    ||| path_parts(path).contains(".cargo"@)
}

/// Whether a changed path can change what the calls of an OCaml project are.
pub open spec fn triggers_ocaml(path: Seq<char>) -> bool {
    ||| language_of(path) == Some(SourceLanguage::Ocaml)
    ||| name_of(path) == Some("dune"@)
    ||| name_of(path) == Some("dune-project"@)
    ||| name_of(path) == Some("dune-workspace"@)
    ||| extension_of(path) == Some("opam"@)
}

fn has_part(path: &SourcePath, wanted: &str) -> (result: bool)
    ensures
        result == path_parts(path@).contains(wanted@),
{
    let parts = parts_of(path.text.as_str());
    let ghost all = path_parts(path@);
    let mut index: usize = 0;
    while index < parts.len()
        invariant
            index <= parts@.len(),
            all == texts(parts@),
            all == path_parts(path@),
            forall|k: int| 0 <= k < index ==> #[trigger] all[k] != wanted@,
        decreases parts@.len() - index,
    {
        assert(all[index as int] == parts@[index as int]@);
        if same_text(parts[index].as_str(), wanted) {
            return true;
        }
        index += 1;
    }
    false
}

/// Whether a changed path can change what the calls of a Rust project are.
pub fn is_rust_project_trigger(path: &SourcePath) -> (result: bool)
    ensures
        result == triggers_rust(path@),
{
    if let Some(SourceLanguage::Rust) = language_from_extension(path) {
        return true;
    }
    if let Some(name) = path.file_name() {
        if same_text(name.as_str(), "Cargo.toml") || same_text(name.as_str(), "Cargo.lock")
            || same_text(name.as_str(), "rust-toolchain") || same_text(
            name.as_str(),
            "rust-toolchain.toml",
        ) {
            return true;
        }
    }
    has_part(path, ".cargo")
}

/// Whether a changed path can change what the calls of an OCaml project are.
pub fn is_ocaml_project_trigger(path: &SourcePath) -> (result: bool)
    ensures
        result == triggers_ocaml(path@),
{
    if let Some(SourceLanguage::Ocaml) = language_from_extension(path) {
        return true;
    }
    if let Some(name) = path.file_name() {
        if same_text(name.as_str(), "dune") || same_text(name.as_str(), "dune-project")
            || same_text(name.as_str(), "dune-workspace") {
            return true;
        }
    }
    match path.extension() {
        Some(extension) => same_text(extension.as_str(), "opam"),
        None => false,
    }
}

/// What a project of an endpoint is called.
pub open spec fn project_label(endpoint: Seq<char>, root: Seq<char>) -> Seq<char> {
    if root.len() == 0 {
        endpoint
    } else {
        endpoint + ":"@ + root
    }
}

/// What a project of an endpoint is called.
pub fn endpoint_project_label(endpoint: &str, relative_root: &SourcePath) -> (result: String)
    ensures
        result@ == project_label(endpoint@, relative_root@),
{
    if relative_root.text.as_str().is_empty() {
        return endpoint.to_owned();
    }
    let mut result = concat_texts(endpoint, ":");
    result.append(relative_root.text.as_str());
    result
}

/// What paths are selected by.
#[derive(Clone, Copy, Debug, PartialEq, Eq, Structural)]
pub enum PathFilter {
    RustSource,
    RustTrigger,
    OcamlSource,
    OcamlTrigger,
}

/// Whether a path is selected.
pub open spec fn passes(filter: PathFilter, path: Seq<char>) -> bool {
    match filter {
        PathFilter::RustSource => language_of(path) == Some(SourceLanguage::Rust),
        PathFilter::RustTrigger => triggers_rust(path),
        PathFilter::OcamlSource => language_of(path) == Some(SourceLanguage::Ocaml),
        PathFilter::OcamlTrigger => triggers_ocaml(path),
    }
}

/// The paths among the first `count` that are selected.
pub open spec fn selected_paths(
    filter: PathFilter,
    paths: Seq<Seq<char>>,
    count: nat,
) -> Seq<Seq<char>>
    decreases count,
{
    if count == 0 {
        Seq::empty()
    } else {
        let before = selected_paths(filter, paths, (count - 1) as nat);
        if passes(filter, paths[count - 1]) {
            before.push(paths[count - 1])
        } else {
            before
        }
    }
}

/// The paths that are selected.
pub fn select_paths(filter: PathFilter, paths: &Vec<SourcePath>) -> (result: Vec<SourcePath>)
    ensures
        path_models(result@) == selected_paths(filter, path_models(paths@), paths@.len()),
{
    let ghost all = path_models(paths@);
    let mut result: Vec<SourcePath> = Vec::new();
    let mut index: usize = 0;
    proof {
        assert(path_models(result@) =~= Seq::<Seq<char>>::empty());
    }
    while index < paths.len()
        invariant
            index <= paths@.len(),
            all == path_models(paths@),
            path_models(result@) == selected_paths(filter, all, index as nat),
        decreases paths@.len() - index,
    {
        let path = &paths[index];
        assert(all[index as int] == path@);
        let selected = match filter {
            PathFilter::RustSource => match language_from_extension(path) {
                Some(SourceLanguage::Rust) => true,
                _ => false,
            },
            PathFilter::RustTrigger => is_rust_project_trigger(path),
            PathFilter::OcamlSource => match language_from_extension(path) {
                Some(SourceLanguage::Ocaml) => true,
                _ => false,
            },
            PathFilter::OcamlTrigger => is_ocaml_project_trigger(path),
        };
        if selected {
            let ghost before = path_models(result@);
            result.push(path.clone());
            proof {
                assert(path_models(result@) =~= before.push(path@));
            }
        }
        index += 1;
    }
    result
}

/// Whether anything but Rust sources changed that can change the calls of the
/// project at `root`.
pub open spec fn config_changed(triggers: Seq<Seq<char>>, root: Seq<char>) -> bool {
    exists|k: int|
        0 <= k < triggers.len() && lies_under(#[trigger] triggers[k], root) && language_of(
            triggers[k],
        ) != Some(SourceLanguage::Rust)
}

/// Whether anything but Rust sources changed that can change the calls of the
/// project at `root`.
pub fn rust_config_changed(triggers: &Vec<SourcePath>, root: &SourcePath) -> (result: bool)
    ensures
        result == config_changed(path_models(triggers@), root@),
{
    let ghost all = path_models(triggers@);
    let mut index: usize = 0;
    while index < triggers.len()
        invariant
            index <= triggers@.len(),
            all == path_models(triggers@),
            forall|k: int|
                0 <= k < index ==> !(lies_under(#[trigger] all[k], root@) && language_of(all[k])
                    != Some(SourceLanguage::Rust)),
        decreases triggers@.len() - index,
    {
        let path = &triggers[index];
        assert(all[index as int] == path@);
        let rust = match language_from_extension(path) {
            Some(SourceLanguage::Rust) => true,
            _ => false,
        };
        if path.starts_with(root) && !rust {
            return true;
        }
        index += 1;
    }
    false
}

/// Whether a report has analyzed a file.
pub fn report_analyzes_path(report: &DiffReport, file: &SourceFile) -> (result: bool)
    ensures
        result == exists|k: int|
            0 <= k < report@.analyzed_files.len() && leads_to(
                file@,
                #[trigger] report@.analyzed_files[k],
            ),
{
    let ghost all = report@.analyzed_files;
    let mut index: usize = 0;
    while index < report.analyzed_files.len()
        invariant
            index <= report.analyzed_files@.len(),
            all == path_models(report.analyzed_files@),
            all == report@.analyzed_files,
            forall|k: int| 0 <= k < index ==> !leads_to(file@, #[trigger] all[k]),
        decreases report.analyzed_files@.len() - index,
    {
        assert(all[index as int] == report.analyzed_files@[index as int]@);
        if file.same_file(&report.analyzed_files[index]) {
            return true;
        }
        index += 1;
    }
    false
}

/// Where a directory lies in a snapshot, whose real place may be another than
/// the one it was made at.
pub open spec fn place_in_snapshot(
    snapshot: Seq<char>,
    canonical: Option<Seq<char>>,
    path: Seq<char>,
) -> Option<Seq<char>> {
    match path_under(path, snapshot) {
        Some(relative) => Some(relative),
        None => match canonical {
            Some(canonical) => path_under(path, canonical),
            None => None,
        },
    }
}

/// Where a directory lies in a snapshot.
pub fn relative_snapshot_path(
    snapshot: &SourcePath,
    canonical: Option<&SourcePath>,
    path: &SourcePath,
) -> (result: Option<SourcePath>)
    ensures
        crate::paths::optional_path(result) == place_in_snapshot(
            snapshot@,
            (match canonical {
                Some(canonical) => Some(canonical@),
                None => None,
            }),
            path@,
        ),
{
    match path.strip_prefix(snapshot) {
        Some(relative) => Some(relative),
        None => match canonical {
            Some(canonical) => path.strip_prefix(canonical),
            None => None,
        },
    }
}

/// What is said where nothing changed in a Git comparison.
pub fn no_git_changes(before: &str, after: &str) -> (result: String)
    ensures
        result@ == "No call changes between "@ + before@ + " and "@ + after@ + "."@,
{
    let mut result = concat_texts("No call changes between ", before);
    result.append(" and ");
    result.append(after);
    result.append(".");
    result
}

/// The output of a Git comparison: the reports, with an empty line between
/// each two, or that nothing changed.
pub fn git_output(reports: &Vec<String>, before: &str, after: &str) -> (result: String)
    ensures
        result@ == (if reports@.len() == 0 {
            "No call changes between "@ + before@ + " and "@ + after@ + "."@
        } else {
            joined(texts(reports@), "\n\n"@)
        }),
{
    if reports.len() == 0 {
        no_git_changes(before, after)
    } else {
        join_texts(reports, "\n\n")
    }
}

} // verus!
