//! Comparison of Git revisions: what is compared, what Git is asked, and how
//! its answers are read.
use crate::model::path_models;
use crate::paths::SourcePath;
use crate::sets::{insert_path, with_paths};
use crate::source::{contains_generated_component, has_generated_part, sort_paths};
use crate::text::{concat_texts, texts};
use vstd::prelude::*;

verus! {

/// One side of a comparison.
#[derive(Debug, PartialEq, Eq)]
pub enum GitEndpoint {
    Revision(String),
    Worktree,
}

pub enum EndpointModel {
    Revision(Seq<char>),
    Worktree,
}

impl View for GitEndpoint {
    type V = EndpointModel;

    open spec fn view(&self) -> EndpointModel {
        match self {
            GitEndpoint::Revision(revision) => EndpointModel::Revision(revision@),
            GitEndpoint::Worktree => EndpointModel::Worktree,
        }
    }
}

impl Clone for GitEndpoint {
    fn clone(&self) -> (result: Self)
        ensures
            result@ == self@,
    {
        match self {
            GitEndpoint::Revision(revision) => GitEndpoint::Revision(revision.clone()),
            GitEndpoint::Worktree => GitEndpoint::Worktree,
        }
    }
}

/// What an endpoint is called.
pub open spec fn endpoint_label(endpoint: EndpointModel) -> Seq<char> {
    match endpoint {
        EndpointModel::Revision(revision) => revision,
        EndpointModel::Worktree => "worktree"@,
    }
}

impl GitEndpoint {
    /// What the endpoint is called.
    pub fn label(&self) -> (result: &str)
        ensures
            result@ == endpoint_label(self@),
    {
        match self {
            GitEndpoint::Revision(revision) => revision.as_str(),
            GitEndpoint::Worktree => "worktree",
        }
    }
}

/// What some revisions compare: none, the last commit with the worktree; one,
/// it with its parent; two, each other.
pub open spec fn endpoints_of(revisions: Seq<Seq<char>>) -> Option<(EndpointModel, EndpointModel)> {
    if revisions.len() == 0 {
        Some((EndpointModel::Revision("HEAD"@), EndpointModel::Worktree))
    } else if revisions.len() == 1 {
        Some(
            (
                EndpointModel::Revision(revisions[0] + "^"@),
                EndpointModel::Revision(revisions[0]),
            ),
        )
    } else if revisions.len() == 2 {
        Some((EndpointModel::Revision(revisions[0]), EndpointModel::Revision(revisions[1])))
    } else {
        None
    }
}

/// What some revisions compare. More than two are an error.
pub fn revision_endpoints(revisions: &Vec<String>) -> (result: Result<
    (GitEndpoint, GitEndpoint),
    String,
>)
    ensures
        match result {
            Ok((before, after)) => endpoints_of(texts(revisions@)) == Some((before@, after@)),
            Err(message) => endpoints_of(texts(revisions@)) is None && message@
                == "git accepts zero, one, or two revisions"@,
        },
{
    let ghost names = texts(revisions@);
    if revisions.len() == 0 {
        Ok((GitEndpoint::Revision("HEAD".to_owned()), GitEndpoint::Worktree))
    } else if revisions.len() == 1 {
        assert(names[0] == revisions@[0]@);
        Ok(
            (
                GitEndpoint::Revision(concat_texts(revisions[0].as_str(), "^")),
                GitEndpoint::Revision(revisions[0].clone()),
            ),
        )
    } else if revisions.len() == 2 {
        assert(names[0] == revisions@[0]@);
        assert(names[1] == revisions@[1]@);
        Ok(
            (
                GitEndpoint::Revision(revisions[0].clone()),
                GitEndpoint::Revision(revisions[1].clone()),
            ),
        )
    } else {
        Err("git accepts zero, one, or two revisions".to_owned())
    }
}

/// What Git is asked to tell whether a revision names a commit.
pub open spec fn commit_query(revision: Seq<char>) -> Seq<Seq<char>> {
    seq!["rev-parse"@, "--verify"@, revision + "^{commit}"@]
}

/// What Git is asked to tell whether an endpoint is there; nothing of the
/// worktree.
pub fn validate_endpoint(endpoint: &GitEndpoint) -> (result: Option<Vec<String>>)
    ensures
        match (result, endpoint@) {
            (Some(arguments), EndpointModel::Revision(revision)) => texts(arguments@)
                == commit_query(revision),
            (None, EndpointModel::Worktree) => true,
            _ => false,
        },
{
    match endpoint {
        GitEndpoint::Revision(revision) => {
            let mut arguments: Vec<String> = Vec::new();
            arguments.push("rev-parse".to_owned());
            arguments.push("--verify".to_owned());
            arguments.push(concat_texts(revision.as_str(), "^{commit}"));
            proof {
                assert(texts(arguments@) =~= commit_query(revision@));
            }
            Some(arguments)
        },
        GitEndpoint::Worktree => None,
    }
}

/// A list of arguments, then `--` and the paths where there are any.
pub open spec fn restricted_to(
    arguments: Seq<Seq<char>>,
    pathspecs: Seq<Seq<char>>,
) -> Seq<Seq<char>> {
    if pathspecs.len() == 0 {
        arguments
    } else {
        arguments.push("--"@) + pathspecs
    }
}

/// What Git is asked to list the known paths that changed. The worktree can
/// only stand after.
pub open spec fn diff_query(
    before: EndpointModel,
    after: EndpointModel,
    pathspecs: Seq<Seq<char>>,
) -> Option<Seq<Seq<char>>> {
    let base = seq!["diff"@, "--no-renames"@, "--name-only"@, "-z"@];
    match (before, after) {
        (EndpointModel::Revision(left), EndpointModel::Revision(right)) => Some(
            restricted_to(base.push(left).push(right), pathspecs),
        ),
        (EndpointModel::Revision(left), EndpointModel::Worktree) => Some(
            restricted_to(base.push(left), pathspecs),
        ),
        (EndpointModel::Worktree, _) => None,
    }
}

/// What Git is asked to list the untracked paths.
pub open spec fn untracked_query(pathspecs: Seq<Seq<char>>) -> Seq<Seq<char>> {
    restricted_to(
        seq!["ls-files"@, "--others"@, "--exclude-standard"@, "-z"@],
        pathspecs,
    )
}

fn add_pathspecs(arguments: &mut Vec<String>, pathspecs: &Vec<SourcePath>)
    ensures
        texts(final(arguments)@) == restricted_to(
            texts(old(arguments)@),
            path_models(pathspecs@),
        ),
{
    if pathspecs.len() == 0 {
        return ;
    }
    let ghost before = texts(arguments@);
    let ghost added = path_models(pathspecs@);
    arguments.push("--".to_owned());
    proof {
        assert(texts(arguments@) =~= before.push("--"@) + added.take(0));
    }
    let mut index: usize = 0;
    while index < pathspecs.len()
        invariant
            index <= pathspecs@.len(),
            added == path_models(pathspecs@),
            texts(arguments@) == before.push("--"@) + added.take(index as int),
        decreases pathspecs@.len() - index,
    {
        let ghost reached = texts(arguments@);
        arguments.push(pathspecs[index].text.clone());
        proof {
            assert(added[index as int] == pathspecs@[index as int]@);
            assert(texts(arguments@) =~= reached.push(added[index as int]));
            assert(texts(arguments@) =~= before.push("--"@) + added.take(index + 1));
        }
        index += 1;
    }
    proof {
        assert(added.take(pathspecs@.len() as int) =~= added);
    }
}

/// What Git is asked to list the known paths that changed.
pub fn diff_arguments(before: &GitEndpoint, after: &GitEndpoint, pathspecs: &Vec<SourcePath>)
    -> (result: Result<Vec<String>, String>)
    ensures
        match result {
            Ok(arguments) => diff_query(before@, after@, path_models(pathspecs@)) == Some(
                texts(arguments@),
            ),
            Err(message) => diff_query(before@, after@, path_models(pathspecs@)) is None
                && message@ == "worktree can only be the after endpoint"@,
        },
{
    let mut arguments: Vec<String> = Vec::new();
    arguments.push("diff".to_owned());
    arguments.push("--no-renames".to_owned());
    arguments.push("--name-only".to_owned());
    arguments.push("-z".to_owned());
    let ghost base = seq!["diff"@, "--no-renames"@, "--name-only"@, "-z"@];
    proof {
        assert(texts(arguments@) =~= base);
    }
    match (before, after) {
        (GitEndpoint::Revision(left), GitEndpoint::Revision(right)) => {
            arguments.push(left.clone());
            arguments.push(right.clone());
            proof {
                assert(texts(arguments@) =~= base.push(left@).push(right@));
            }
        },
        (GitEndpoint::Revision(left), GitEndpoint::Worktree) => {
            arguments.push(left.clone());
            proof {
                assert(texts(arguments@) =~= base.push(left@));
            }
        },
        (GitEndpoint::Worktree, _) => {
            return Err("worktree can only be the after endpoint".to_owned());
        },
    }
    add_pathspecs(&mut arguments, pathspecs);
    Ok(arguments)
}

/// What Git is asked to list the untracked paths; nothing where the worktree
/// is not compared.
pub fn untracked_arguments(after: &GitEndpoint, pathspecs: &Vec<SourcePath>) -> (result: Option<
    Vec<String>,
>)
    ensures
        match result {
            Some(arguments) => after@ is Worktree && texts(arguments@) == untracked_query(
                path_models(pathspecs@),
            ),
            None => after@ is Revision,
        },
{
    match after {
        GitEndpoint::Revision(_) => None,
        GitEndpoint::Worktree => {
            let mut arguments: Vec<String> = Vec::new();
            arguments.push("ls-files".to_owned());
            arguments.push("--others".to_owned());
            arguments.push("--exclude-standard".to_owned());
            arguments.push("-z".to_owned());
            proof {
                assert(texts(arguments@) =~= seq![
                    "ls-files"@,
                    "--others"@,
                    "--exclude-standard"@,
                    "-z"@,
                ]);
            }
            add_pathspecs(&mut arguments, pathspecs);
            Some(arguments)
        },
    }
}

/// The bytes of each list.
pub open spec fn byte_lists(lists: Seq<Vec<u8>>) -> Seq<Seq<u8>> {
    lists.map_values(|list: Vec<u8>| list@)
}

/// The entries of a list whose entries end in a zero byte, where the entry
/// that is being read began at `start` and reading is at `index`. Empty
/// entries do not count.
pub open spec fn entries_from(bytes: Seq<u8>, start: nat, index: nat) -> Seq<Seq<u8>>
    decreases bytes.len() - index,
{
    if index >= bytes.len() {
        if start < bytes.len() {
            seq![bytes.subrange(start as int, bytes.len() as int)]
        } else {
            Seq::empty()
        }
    } else if bytes[index as int] == 0 {
        if start < index {
            seq![bytes.subrange(start as int, index as int)] + entries_from(
                bytes,
                index + 1,
                index + 1,
            )
        } else {
            entries_from(bytes, index + 1, index + 1)
        }
    } else {
        entries_from(bytes, start, index + 1)
    }
}

fn copy_bytes(bytes: &Vec<u8>, start: usize, end: usize) -> (result: Vec<u8>)
    requires
        start <= end <= bytes@.len(),
    ensures
        result@ == bytes@.subrange(start as int, end as int),
{
    let mut result: Vec<u8> = Vec::new();
    let mut index: usize = start;
    while index < end
        invariant
            start <= index <= end <= bytes@.len(),
            result@ == bytes@.subrange(start as int, index as int),
        decreases end - index,
    {
        result.push(bytes[index]);
        index += 1;
        proof {
            assert(bytes@.subrange(start as int, index as int) =~= bytes@.subrange(
                start as int,
                index - 1,
            ).push(bytes@[index - 1]));
        }
    }
    result
}

/// The entries of a list whose entries end in a zero byte.
pub fn split_listing(bytes: &Vec<u8>) -> (result: Vec<Vec<u8>>)
    ensures
        byte_lists(result@) == entries_from(bytes@, 0, 0),
{
    let mut result: Vec<Vec<u8>> = Vec::new();
    let length: usize = bytes.len();
    let mut start: usize = 0;
    let mut index: usize = 0;
    proof {
        assert(byte_lists(result@) + entries_from(bytes@, 0, 0) =~= entries_from(bytes@, 0, 0));
    }
    while index < length
        invariant
            start <= index <= length == bytes@.len(),
            byte_lists(result@) + entries_from(bytes@, start as nat, index as nat) == entries_from(
                bytes@,
                0,
                0,
            ),
        decreases length - index,
    {
        if bytes[index] == 0 {
            if start < index {
                let ghost before = byte_lists(result@);
                let ghost entry = bytes@.subrange(start as int, index as int);
                result.push(copy_bytes(bytes, start, index));
                proof {
                    let rest = entries_from(bytes@, (index + 1) as nat, (index + 1) as nat);
                    assert(byte_lists(result@) =~= before.push(entry));
                    assert(before + (seq![entry] + rest) =~= byte_lists(result@) + rest);
                }
            }
            start = index + 1;
        }
        index += 1;
    }
    if start < length {
        let ghost before = byte_lists(result@);
        let ghost entry = bytes@.subrange(start as int, length as int);
        result.push(copy_bytes(bytes, start, length));
        proof {
            assert(byte_lists(result@) =~= before.push(entry));
            assert(before + seq![entry] =~= byte_lists(result@));
        }
    } else {
        proof {
            assert(byte_lists(result@) + Seq::<Seq<u8>>::empty() =~= byte_lists(result@));
        }
    }
    result
}

/// A comparison of two endpoints of a repository.
#[derive(Debug)]
pub struct GitComparison {
    pub root: SourcePath,
    pub before: GitEndpoint,
    pub after: GitEndpoint,
    /// In order, each place once.
    pub changed_paths: Vec<SourcePath>,
    /// Whether only the changed paths are compared.
    pub restricted: bool,
}

/// What to do with a selected path when a comparison is restricted to the
/// selected ones.
#[derive(Clone, Copy, Debug, PartialEq, Eq, Structural)]
pub enum OverlayAction {
    Write,
    RemoveFile,
    RemoveDirectory,
    Leave,
}

/// What was found of a selected path: whether the later side has contents for
/// it, and what of the earlier side stands in its place.
#[derive(Clone, Copy, Debug, PartialEq, Eq, Structural)]
pub struct SelectedPath {
    pub has_contents: bool,
    pub was_file: bool,
    pub was_directory: bool,
}

/// What to do with a selected path: new contents are written, and what is gone
/// is removed.
pub open spec fn overlay_of(selected: SelectedPath) -> OverlayAction {
    if selected.has_contents {
        OverlayAction::Write
    } else if selected.was_file {
        OverlayAction::RemoveFile
    } else if selected.was_directory {
        OverlayAction::RemoveDirectory
    } else {
        OverlayAction::Leave
    }
}

impl GitComparison {
    /// The comparison that some revisions ask for, with the paths that Git
    /// lists as changed and as untracked.
    pub fn discover(
        root: &SourcePath,
        revisions: &Vec<String>,
        pathspecs: &Vec<SourcePath>,
        listed: &Vec<SourcePath>,
        untracked: &Vec<SourcePath>,
    ) -> (result: Result<GitComparison, String>)
        ensures
            match result {
                Ok(comparison) => {
                    &&& comparison.root@ == root@
                    &&& endpoints_of(texts(revisions@)) == Some(
                        (comparison.before@, comparison.after@),
                    )
                    &&& comparison.restricted == (pathspecs@.len() > 0)
                    &&& path_models(comparison.changed_paths@) == with_paths(
                        with_paths(Seq::empty(), path_models(listed@), listed@.len()),
                        if comparison.after@ is Worktree {
                            path_models(untracked@)
                        } else {
                            Seq::empty()
                        },
                        if comparison.after@ is Worktree {
                            untracked@.len()
                        } else {
                            0
                        },
                    )
                },
                Err(message) => endpoints_of(texts(revisions@)) is None && message@
                    == "git accepts zero, one, or two revisions"@,
            },
    {
        let (before, after) = match revision_endpoints(revisions) {
            Ok(endpoints) => endpoints,
            Err(message) => {
                return Err(message);
            },
        };
        let mut changed_paths = sort_paths(listed);
        let ghost sorted = path_models(changed_paths@);
        let worktree = match &after {
            GitEndpoint::Worktree => true,
            GitEndpoint::Revision(_) => false,
        };
        if worktree {
            let ghost added = path_models(untracked@);
            let mut index: usize = 0;
            while index < untracked.len()
                invariant
                    index <= untracked@.len(),
                    added == path_models(untracked@),
                    path_models(changed_paths@) == with_paths(sorted, added, index as nat),
                decreases untracked@.len() - index,
            {
                assert(added[index as int] == untracked@[index as int]@);
                insert_path(&mut changed_paths, untracked[index].clone());
                index += 1;
            }
        }
        Ok(
            GitComparison {
                root: root.clone(),
                before,
                after,
                changed_paths,
                restricted: pathspecs.len() > 0,
            },
        )
    }

    /// What to do with each selected path when the snapshots of a comparison
    /// are made; nothing where all paths are compared.
    pub fn materialize(&self, selected: &Vec<SelectedPath>) -> (result: Vec<OverlayAction>)
        ensures
            result@ == (if self.restricted {
                selected@.map_values(|path: SelectedPath| overlay_of(path))
            } else {
                Seq::empty()
            }),
    {
        let mut result: Vec<OverlayAction> = Vec::new();
        if !self.restricted {
            return result;
        }
        let mut index: usize = 0;
        while index < selected.len()
            invariant
                index <= selected@.len(),
                result@.len() == index,
                forall|k: int| 0 <= k < index ==> (#[trigger] result@[k]) == overlay_of(selected@[k]),
            decreases selected@.len() - index,
        {
            let path = selected[index];
            let action = if path.has_contents {
                OverlayAction::Write
            } else if path.was_file {
                OverlayAction::RemoveFile
            } else if path.was_directory {
                OverlayAction::RemoveDirectory
            } else {
                OverlayAction::Leave
            };
            result.push(action);
            index += 1;
        }
        proof {
            assert(result@ =~= selected@.map_values(|path: SelectedPath| overlay_of(path)));
        }
        result
    }
}

/// A directory that holds the files of an endpoint.
#[derive(Debug)]
pub struct GitSnapshot {
    pub directory: SourcePath,
    pub name: String,
}

impl GitSnapshot {
    /// The snapshot of an endpoint in a directory.
    pub fn new(directory: SourcePath, endpoint: &GitEndpoint) -> (result: GitSnapshot)
        ensures
            result.directory@ == directory@,
            result.name@ == endpoint_label(endpoint@),
    {
        GitSnapshot { directory, name: endpoint.label().to_owned() }
    }

    pub fn path(&self) -> (result: &SourcePath)
        ensures
            *result == self.directory,
    {
        &self.directory
    }

    pub fn label(&self) -> (result: &str)
        ensures
            result@ == self.name@,
    {
        self.name.as_str()
    }
}

/// What Git is asked to show the contents of a path at a revision.
pub fn contents_query(revision: &str, relative: &SourcePath) -> (result: String)
    ensures
        result@ == revision@ + ":"@ + relative@,
{
    let mut result = concat_texts(revision, ":");
    result.append(relative.text.as_str());
    result
}

/// Whether a path is left out of snapshots of the worktree.
pub fn should_skip(relative: &SourcePath) -> (result: bool)
    ensures
        result == has_generated_part(relative@),
{
    contains_generated_component(relative)
}

/// Whether a file stands at a selected path of a snapshot once an action was
/// taken there.
pub open spec fn holds_file(action: OverlayAction, selected: SelectedPath) -> bool {
    match action {
        OverlayAction::Write => true,
        OverlayAction::RemoveFile => false,
        OverlayAction::RemoveDirectory => false,
        OverlayAction::Leave => selected.was_file,
    }
}

/// A snapshot that was overlaid holds a file at a selected path exactly where
/// the later side of the comparison does.
pub proof fn overlays_follow_the_later_side(selected: SelectedPath)
    ensures
        holds_file(overlay_of(selected), selected) == selected.has_contents,
{
}

} // verus!
