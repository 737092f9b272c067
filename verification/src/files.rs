//! Files that are looked for among the analyzed ones.
use crate::lists::views;
use crate::paths::{is_absolute, optional_path, path_behind, same_place, SourcePath};
use vstd::prelude::*;

verus! {

/// A path and the path that the file system resolves it to.
#[derive(Debug)]
pub struct KnownFile {
    pub path: SourcePath,
    pub canonical: SourcePath,
}

/// A file that is looked for, with what the file system says of the paths
/// that it is compared with.
#[derive(Debug)]
pub struct SourceFile {
    pub path: SourcePath,
    pub known: Vec<KnownFile>,
}

#[verifier::ext_equal]
pub struct FileModel {
    pub path: Seq<char>,
    pub known: Seq<(Seq<char>, Seq<char>)>,
}

impl View for KnownFile {
    type V = (Seq<char>, Seq<char>);

    open spec fn view(&self) -> (Seq<char>, Seq<char>) {
        (self.path@, self.canonical@)
    }
}

impl View for SourceFile {
    type V = FileModel;

    open spec fn view(&self) -> FileModel {
        FileModel {
            path: self.path@,
            known: self.known@.map_values(|known: KnownFile| known@),
        }
    }
}

/// What the file system resolves `path` to, by the entries from `index` on.
pub open spec fn canonical_from(
    known: Seq<(Seq<char>, Seq<char>)>,
    path: Seq<char>,
    index: nat,
) -> Option<Seq<char>>
    decreases known.len() - index,
{
    if index >= known.len() {
        None
    } else if same_place(known[index as int].0, path) {
        Some(known[index as int].1)
    } else {
        canonical_from(known, path, index + 1)
    }
}

/// What a file is told apart by: what the file system resolves its path to,
/// or the path where nothing is known of it.
pub open spec fn identity_of(known: Seq<(Seq<char>, Seq<char>)>, path: Seq<char>) -> Seq<char> {
    match canonical_from(known, path, 0) {
        Some(canonical) => canonical,
        None => path,
    }
}

/// Whether two paths lead to the same file.
pub open spec fn same_identity(
    known: Seq<(Seq<char>, Seq<char>)>,
    left: Seq<char>,
    right: Seq<char>,
) -> bool {
    same_place(identity_of(known, left), identity_of(known, right))
}

/// Whether `other` is a path to the file: the same place by its parts, or by
/// what the file system resolves both to.
pub open spec fn leads_to(file: FileModel, other: Seq<char>) -> bool {
    same_place(other, file.path) || match (
        canonical_from(file.known, other, 0),
        canonical_from(file.known, file.path, 0),
    ) {
        (Some(left), Some(right)) => same_place(left, right),
        _ => false,
    }
}

/// Whether `path` passes an optional selection of one file.
pub open spec fn selects(file: Option<FileModel>, path: Seq<char>) -> bool {
    match file {
        Some(file) => leads_to(file, path),
        None => true,
    }
}

/// The model of an optional file.
pub open spec fn optional_file(file: Option<&SourceFile>) -> Option<FileModel> {
    match file {
        Some(file) => Some(file@),
        None => None,
    }
}

/// What the file system resolves a path to.
pub fn find_canonical<'a>(known: &'a Vec<KnownFile>, path: &SourcePath) -> (result: Option<
    &'a SourcePath,
>)
    ensures
        match result {
            Some(canonical) => canonical_from(views(known@), path@, 0) == Some(canonical@),
            None => canonical_from(views(known@), path@, 0) is None,
        },
{
    let mut index: usize = 0;
    while index < known.len()
        invariant
            index <= known@.len(),
            canonical_from(views(known@), path@, index as nat) == canonical_from(
                views(known@),
                path@,
                0,
            ),
        decreases known@.len() - index,
    {
        assert(views(known@)[index as int] == known@[index as int]@);
        if known[index].path.same(path) {
            return Some(&known[index].canonical);
        }
        index += 1;
    }
    None
}

/// What a file is told apart by: what the file system resolves its path to,
/// or the path where nothing is known of it.
pub fn source_file_identity<'a>(known: &'a Vec<KnownFile>, path: &'a SourcePath) -> (result:
    &'a SourcePath)
    ensures
        result@ == identity_of(views(known@), path@),
{
    match find_canonical(known, path) {
        Some(canonical) => canonical,
        None => path,
    }
}

/// Whether two paths lead to one file, by their parts or by what the file
/// system resolves both to.
pub open spec fn files_match(
    known: Seq<(Seq<char>, Seq<char>)>,
    left: Seq<char>,
    right: Seq<char>,
) -> bool {
    same_place(left, right) || match (
        canonical_from(known, left, 0),
        canonical_from(known, right, 0),
    ) {
        (Some(left), Some(right)) => same_place(left, right),
        _ => false,
    }
}

/// Whether two paths lead to one file.
pub fn source_files_match(known: &Vec<KnownFile>, left: &SourcePath, right: &SourcePath) -> (result:
    bool)
    ensures
        result == files_match(views(known@), left@, right@),
{
    if left.same(right) {
        return true;
    }
    match (find_canonical(known, left), find_canonical(known, right)) {
        (Some(left), Some(right)) => left.same(right),
        _ => false,
    }
}

/// Whether two paths lead to the same file.
pub fn same_source_file(
    known: &Vec<KnownFile>,
    left: &SourcePath,
    right: &SourcePath,
) -> (result: bool)
    ensures
        result == same_identity(views(known@), left@, right@),
{
    source_file_identity(known, left).same(source_file_identity(known, right))
}

/// What a file is told apart by where the file system cannot resolve its
/// path: the path behind the current directory.
pub open spec fn unresolved_identity(path: Seq<char>, current: Option<Seq<char>>) -> Seq<char> {
    match current {
        Some(directory) if !is_absolute(path) => path_behind(directory, path),
        _ => path,
    }
}

/// What a file is told apart by: what the file system resolves its path to,
/// else the path behind the current directory.
pub fn file_identity(
    path: &SourcePath,
    canonical: Option<SourcePath>,
    current: Option<SourcePath>,
) -> (result: SourcePath)
    ensures
        result@ == (match optional_path(canonical) {
            Some(canonical) => canonical,
            None => unresolved_identity(path@, optional_path(current)),
        }),
{
    match canonical {
        Some(canonical) => canonical,
        None => match current {
            Some(directory) => if path.is_absolute() {
                path.clone()
            } else {
                directory.join(path.text.as_str())
            },
            None => path.clone(),
        },
    }
}

impl Clone for KnownFile {
    fn clone(&self) -> (result: Self)
        ensures
            result@ == self@,
    {
        KnownFile { path: self.path.clone(), canonical: self.canonical.clone() }
    }
}

impl SourceFile {
    fn canonical(&self, path: &SourcePath) -> (result: Option<&SourcePath>)
        ensures
            match result {
                Some(canonical) => canonical_from(self@.known, path@, 0) == Some(canonical@),
                None => canonical_from(self@.known, path@, 0) is None,
            },
    {
        proof {
            assert(views(self.known@) =~= self@.known);
        }
        find_canonical(&self.known, path)
    }

    /// Whether `other` is a path to this file.
    pub fn same_file(&self, other: &SourcePath) -> (result: bool)
        ensures
            result == leads_to(self@, other@),
    {
        if other.same(&self.path) {
            return true;
        }
        match (self.canonical(other), self.canonical(&self.path)) {
            (Some(left), Some(right)) => left.same(right),
            _ => false,
        }
    }
}

/// Whether `path` passes an optional selection of one file.
pub fn selected(file: Option<&SourceFile>, path: &SourcePath) -> (result: bool)
    ensures
        result == selects(optional_file(file), path@),
{
    match file {
        Some(file) => file.same_file(path),
        None => true,
    }
}

} // verus!
