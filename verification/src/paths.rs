//! File paths, compared part by part.
//!
//! Repeated and trailing separators, and `.` parts behind the first, do not
//! tell two paths apart.
use crate::text::{
    concat_texts, ends_with, ends_with_text, join_texts, joined, list_comes_before, list_less,
    list_order_laws, optional, pieces, rsplit_once, rsplit_text_once, same_list, same_text,
    split_text, starts_with, starts_with_text, texts,
};
use vstd::prelude::*;
use vstd::std_specs::cmp::PartialEqSpecImpl;

verus! {

/// A path of the file system, as it was written.
#[derive(Debug)]
pub struct SourcePath {
    pub text: String,
}

impl View for SourcePath {
    type V = Seq<char>;

    open spec fn view(&self) -> Seq<char> {
        self.text@
    }
}

/// The parts among the first `count` pieces: those that are not empty and not
/// a `.` behind the first piece.
pub open spec fn kept_parts(pieces: Seq<Seq<char>>, count: int) -> Seq<Seq<char>>
    decreases count,
{
    if count <= 0 {
        Seq::empty()
    } else {
        let piece = pieces[count - 1];
        let before = kept_parts(pieces, count - 1);
        if piece == ""@ || (piece == "."@ && count > 1) {
            before
        } else {
            before.push(piece)
        }
    }
}

/// Whether a path begins at the root of the file system.
pub open spec fn is_absolute(path: Seq<char>) -> bool {
    starts_with(path, "/"@)
}

/// The parts of a path, without the root.
pub open spec fn path_parts(path: Seq<char>) -> Seq<Seq<char>> {
    let all = pieces(path, "/"@);
    kept_parts(all, all.len() as int)
}

/// The sort key of one part: `.` before `..` before names.
pub open spec fn part_key(part: Seq<char>) -> Seq<char> {
    if part == "."@ {
        "1"@ + part
    } else if part == ".."@ {
        "2"@ + part
    } else {
        "3"@ + part
    }
}

/// What tells paths apart and orders them: the root, where there is one, then
/// each part.
pub open spec fn path_key(path: Seq<char>) -> Seq<Seq<char>> {
    let parts = path_parts(path).map_values(|part: Seq<char>| part_key(part));
    if is_absolute(path) {
        seq!["0"@] + parts
    } else {
        parts
    }
}

/// Whether two paths name the same place without looking at the file system.
pub open spec fn same_place(left: Seq<char>, right: Seq<char>) -> bool {
    path_key(left) == path_key(right)
}

/// Whether one path comes before another, part by part.
pub open spec fn path_less(left: Seq<char>, right: Seq<char>) -> bool {
    list_less(path_key(left), path_key(right))
}

/// The order of paths is a strict total order on places.
pub proof fn path_order_laws(left: Seq<char>, right: Seq<char>, third: Seq<char>)
    ensures
        !path_less(left, left),
        path_less(left, right) ==> !path_less(right, left),
        path_less(left, right) || path_less(right, left) || same_place(left, right),
        path_less(left, right) && path_less(right, third) ==> path_less(left, third),
{
    list_order_laws(path_key(left), path_key(right), path_key(third));
}

/// The parts of a path, without the root.
pub fn parts_of(path: &str) -> (result: Vec<String>)
    ensures
        texts(result@) == path_parts(path@),
{
    proof {
        reveal_strlit("/");
        reveal_strlit("");
    }
    let all = split_text(path, "/");
    let mut result: Vec<String> = Vec::new();
    let mut index: usize = 0;
    proof {
        assert(texts(result@) =~= kept_parts(texts(all@), 0));
    }
    while index < all.len()
        invariant
            index <= all@.len(),
            texts(result@) == kept_parts(texts(all@), index as int),
        decreases all@.len() - index,
    {
        let empty = same_text(all[index].as_str(), "");
        let dot = same_text(all[index].as_str(), ".");
        let ghost before = result@;
        if !empty && !(dot && index > 0) {
            result.push(all[index].clone());
            proof {
                assert(texts(result@) =~= texts(before).push(all@[index as int]@));
            }
        }
        index += 1;
    }
    result
}

fn key_of(path: &str) -> (result: Vec<String>)
    ensures
        texts(result@) == path_key(path@),
{
    let parts = parts_of(path);
    let mut result: Vec<String> = Vec::new();
    if starts_with_text(path, "/") {
        result.push("0".to_owned());
    }
    let ghost root = texts(result@);
    let ghost keys = path_parts(path@).map_values(|part: Seq<char>| part_key(part));
    proof {
        assert(is_absolute(path@) ==> root =~= seq!["0"@]);
        assert(!is_absolute(path@) ==> root =~= Seq::empty());
        assert(root =~= root + keys.take(0));
    }
    let mut index: usize = 0;
    while index < parts.len()
        invariant
            index <= parts@.len(),
            texts(parts@) == path_parts(path@),
            keys == path_parts(path@).map_values(|part: Seq<char>| part_key(part)),
            texts(result@) == root + keys.take(index as int),
        decreases parts@.len() - index,
    {
        let ghost before = texts(result@);
        proof {
            assert(parts@[index as int]@ == path_parts(path@)[index as int]);
        }
        let key = if same_text(parts[index].as_str(), ".") {
            concat_texts("1", parts[index].as_str())
        } else if same_text(parts[index].as_str(), "..") {
            concat_texts("2", parts[index].as_str())
        } else {
            concat_texts("3", parts[index].as_str())
        };
        result.push(key);
        proof {
            assert(texts(result@) =~= before.push(keys[index as int]));
            assert(texts(result@) =~= root + keys.take(index + 1));
        }
        index += 1;
    }
    proof {
        assert(keys.take(parts@.len() as int) =~= keys);
        assert(root + keys =~= path_key(path@));
    }
    result
}

impl SourcePath {
    /// The path that is written as `text`.
    pub fn new(text: &str) -> (result: Self)
        ensures
            result@ == text@,
    {
        SourcePath { text: text.to_owned() }
    }

    /// Whether this path comes before another, part by part.
    pub fn before(&self, other: &SourcePath) -> (result: bool)
        ensures
            result == path_less(self@, other@),
    {
        list_comes_before(&key_of(self.text.as_str()), &key_of(other.text.as_str()))
    }

    /// Whether this path names the same place as another, without looking at
    /// the file system.
    pub fn same(&self, other: &SourcePath) -> (result: bool)
        ensures
            result == same_place(self@, other@),
    {
        same_list(&key_of(self.text.as_str()), &key_of(other.text.as_str()))
    }
}

impl Clone for SourcePath {
    fn clone(&self) -> (result: Self)
        ensures
            result@ == self@,
    {
        SourcePath { text: self.text.clone() }
    }
}

impl PartialEq for SourcePath {
    fn eq(&self, other: &SourcePath) -> (result: bool) {
        self.same(other)
    }
}

impl PartialEqSpecImpl for SourcePath {
    open spec fn obeys_eq_spec() -> bool {
        true
    }

    open spec fn eq_spec(&self, other: &SourcePath) -> bool {
        same_place(self@, other@)
    }
}

impl Eq for SourcePath {

}

/// The path from the root, where `absolute`, through some parts.
pub open spec fn path_of(absolute: bool, parts: Seq<Seq<char>>) -> Seq<char> {
    if absolute {
        "/"@ + joined(parts, "/"@)
    } else {
        joined(parts, "/"@)
    }
}

/// The directory that holds what a path leads to.
pub open spec fn parent_of(path: Seq<char>) -> Option<Seq<char>> {
    let parts = path_parts(path);
    if parts.len() == 0 {
        None
    } else {
        Some(path_of(is_absolute(path), parts.drop_last()))
    }
}

/// The name of what a path leads to: its last part, where that is a name.
pub open spec fn name_of(path: Seq<char>) -> Option<Seq<char>> {
    let parts = path_parts(path);
    if parts.len() == 0 || parts.last() == "."@ || parts.last() == ".."@ {
        None
    } else {
        Some(parts.last())
    }
}

/// A name before its last dot, where a dot stands behind the first character,
/// and what follows that dot.
pub open spec fn split_name(name: Seq<char>) -> (Seq<char>, Option<Seq<char>>) {
    match rsplit_once(name, "."@) {
        Some((stem, extension)) => if stem.len() == 0 {
            (name, None)
        } else {
            (stem, Some(extension))
        },
        None => (name, None),
    }
}

/// What follows the last dot of the name that a path ends in.
pub open spec fn extension_of(path: Seq<char>) -> Option<Seq<char>> {
    match name_of(path) {
        Some(name) => split_name(name).1,
        None => None,
    }
}

/// The name that a path ends in, without its extension.
pub open spec fn stem_of(path: Seq<char>) -> Option<Seq<char>> {
    match name_of(path) {
        Some(name) => Some(split_name(name).0),
        None => None,
    }
}

/// A path behind a directory. An absolute path stays as it is.
pub open spec fn path_behind(base: Seq<char>, path: Seq<char>) -> Seq<char> {
    if is_absolute(path) || base.len() == 0 {
        path
    } else if ends_with(base, "/"@) {
        base + path
    } else {
        base + "/"@ + path
    }
}

/// Whether a path begins with all parts of another.
pub open spec fn lies_under(path: Seq<char>, base: Seq<char>) -> bool {
    let inner = path_key(path);
    let outer = path_key(base);
    outer.len() <= inner.len() && inner.take(outer.len() as int) == outer
}

/// Whether a path ends with all parts of another.
pub open spec fn ends_in(path: Seq<char>, tail: Seq<char>) -> bool {
    let whole = path_key(path);
    let end = path_key(tail);
    end.len() <= whole.len() && whole.skip(whole.len() - end.len()) == end
}

/// What is left of a path behind a directory that it begins with. The root is
/// left behind the empty path.
pub open spec fn path_under(path: Seq<char>, base: Seq<char>) -> Option<Seq<char>> {
    if lies_under(path, base) {
        Some(
            path_of(
                is_absolute(path) && !is_absolute(base),
                path_parts(path).skip(path_parts(base).len() as int),
            ),
        )
    } else {
        None
    }
}

/// The path itself, then each directory above it, up to the root or to the
/// empty path.
pub open spec fn ancestors_of(path: Seq<char>) -> Seq<Seq<char>> {
    let parts = path_parts(path);
    seq![path] + Seq::new(
        parts.len(),
        |above: int| path_of(is_absolute(path), parts.take(parts.len() - 1 - above)),
    )
}

/// The characters of an optional path.
pub open spec fn optional_path(path: Option<SourcePath>) -> Option<Seq<char>> {
    match path {
        Some(path) => Some(path@),
        None => None,
    }
}

fn text_of_parts(absolute: bool, parts: &Vec<String>) -> (result: String)
    ensures
        result@ == path_of(absolute, texts(parts@)),
{
    let inner = join_texts(parts, "/");
    if absolute {
        concat_texts("/", inner.as_str())
    } else {
        inner
    }
}

/// The strings from `start` up to `end`.
pub fn some_texts(values: &Vec<String>, start: usize, end: usize) -> (result: Vec<String>)
    requires
        start <= end <= values@.len(),
    ensures
        texts(result@) == texts(values@).subrange(start as int, end as int),
{
    let mut result: Vec<String> = Vec::new();
    let mut index: usize = start;
    while index < end
        invariant
            start <= index <= end <= values@.len(),
            result@.len() == index - start,
            forall|k: int| 0 <= k < index - start ==> (#[trigger] result@[k])@ == values@[start + k]@,
        decreases end - index,
    {
        result.push(values[index].clone());
        index += 1;
    }
    proof {
        assert(texts(result@) =~= texts(values@).subrange(start as int, end as int));
    }
    result
}

fn split_file_name(name: &str) -> (result: (String, Option<String>))
    ensures
        (result.0@, optional(result.1)) == split_name(name@),
{
    match rsplit_text_once(name, ".") {
        Some((stem, extension)) => {
            if stem.as_str().is_empty() {
                (name.to_owned(), None)
            } else {
                (stem, Some(extension))
            }
        },
        None => (name.to_owned(), None),
    }
}

impl SourcePath {
    /// The directory that holds what this path leads to.
    pub fn parent(&self) -> (result: Option<SourcePath>)
        ensures
            optional_path(result) == parent_of(self@),
    {
        let parts = parts_of(self.text.as_str());
        if parts.len() == 0 {
            return None;
        }
        let absolute = starts_with_text(self.text.as_str(), "/");
        let above = some_texts(&parts, 0, parts.len() - 1);
        proof {
            assert(texts(above@) =~= path_parts(self@).drop_last());
        }
        Some(SourcePath { text: text_of_parts(absolute, &above) })
    }

    /// The name of what this path leads to.
    pub fn file_name(&self) -> (result: Option<String>)
        ensures
            optional(result) == name_of(self@),
    {
        let parts = parts_of(self.text.as_str());
        if parts.len() == 0 {
            return None;
        }
        let last = &parts[parts.len() - 1];
        assert(path_parts(self@).last() == last@);
        if same_text(last.as_str(), ".") || same_text(last.as_str(), "..") {
            None
        } else {
            Some(last.clone())
        }
    }

    /// What follows the last dot of the name.
    pub fn extension(&self) -> (result: Option<String>)
        ensures
            optional(result) == extension_of(self@),
    {
        match self.file_name() {
            Some(name) => split_file_name(name.as_str()).1,
            None => None,
        }
    }

    /// The name without its extension.
    pub fn file_stem(&self) -> (result: Option<String>)
        ensures
            optional(result) == stem_of(self@),
    {
        match self.file_name() {
            Some(name) => Some(split_file_name(name.as_str()).0),
            None => None,
        }
    }

    /// A path behind this directory.
    pub fn join(&self, path: &str) -> (result: SourcePath)
        ensures
            result@ == path_behind(self@, path@),
    {
        if starts_with_text(path, "/") || self.text.as_str().is_empty() {
            return SourcePath::new(path);
        }
        let mut text = self.text.clone();
        if !ends_with_text(self.text.as_str(), "/") {
            text.append("/");
        }
        text.append(path);
        SourcePath { text }
    }

    /// Whether this path begins with all parts of another.
    pub fn starts_with(&self, base: &SourcePath) -> (result: bool)
        ensures
            result == lies_under(self@, base@),
    {
        let inner = key_of(self.text.as_str());
        let outer = key_of(base.text.as_str());
        if outer.len() > inner.len() {
            return false;
        }
        let front = some_texts(&inner, 0, outer.len());
        proof {
            assert(texts(front@) =~= path_key(self@).take(path_key(base@).len() as int));
        }
        same_list(&front, &outer)
    }

    /// Whether this path ends with all parts of another.
    pub fn ends_with(&self, tail: &SourcePath) -> (result: bool)
        ensures
            result == ends_in(self@, tail@),
    {
        let whole = key_of(self.text.as_str());
        let end = key_of(tail.text.as_str());
        proof {
            assert(texts(whole@).len() == whole@.len());
            assert(texts(end@).len() == end@.len());
        }
        if end.len() > whole.len() {
            return false;
        }
        let back = some_texts(&whole, whole.len() - end.len(), whole.len());
        proof {
            assert(texts(back@) =~= path_key(self@).skip(whole@.len() - end@.len()));
        }
        same_list(&back, &end)
    }

    /// Whether this path begins at the root of the file system.
    pub fn is_absolute(&self) -> (result: bool)
        ensures
            result == is_absolute(self@),
    {
        starts_with_text(self.text.as_str(), "/")
    }

    /// What is left of this path behind a directory that it begins with.
    pub fn strip_prefix(&self, base: &SourcePath) -> (result: Option<SourcePath>)
        ensures
            optional_path(result) == path_under(self@, base@),
    {
        if !self.starts_with(base) {
            return None;
        }
        let parts = parts_of(self.text.as_str());
        let outer = parts_of(base.text.as_str());
        proof {
            let roots = (is_absolute(self@), is_absolute(base@));
            assert(path_key(self@).len() == path_parts(self@).len() + if roots.0 {
                1int
            } else {
                0
            });
            if path_key(base@).len() > 0 && roots.1 != roots.0 {
                assert(path_key(self@).take(path_key(base@).len() as int)[0] == path_key(self@)[0]);
                reveal_strlit("0");
                reveal_strlit("1");
                reveal_strlit("2");
                reveal_strlit("3");
                if roots.1 {
                    assert(path_key(base@)[0] == "0"@);
                    assert(path_key(self@)[0] == part_key(path_parts(self@)[0]));
                    assert(path_key(self@)[0][0] != "0"@[0]);
                } else {
                    assert(path_key(self@)[0] == "0"@);
                    assert(path_key(base@)[0] == part_key(path_parts(base@)[0]));
                    assert(path_key(base@)[0][0] != "0"@[0]);
                }
            }
            assert(path_parts(base@).len() <= path_parts(self@).len());
        }
        let rest = some_texts(&parts, outer.len(), parts.len());
        proof {
            assert(texts(rest@) =~= path_parts(self@).skip(path_parts(base@).len() as int));
        }
        let rooted = self.is_absolute() && !base.is_absolute();
        Some(SourcePath { text: text_of_parts(rooted, &rest) })
    }

    /// The path itself, then each directory above it.
    pub fn ancestors(&self) -> (result: Vec<SourcePath>)
        ensures
            result@.map_values(|path: SourcePath| path@) == ancestors_of(self@),
    {
        let parts = parts_of(self.text.as_str());
        let absolute = starts_with_text(self.text.as_str(), "/");
        let mut result: Vec<SourcePath> = Vec::new();
        result.push(self.clone());
        let mut left: usize = parts.len();
        while left > 0
            invariant
                left <= parts@.len(),
                texts(parts@) == path_parts(self@),
                absolute == is_absolute(self@),
                result@.len() == 1 + parts@.len() - left,
                result@[0]@ == self@,
                forall|above: int|
                    0 <= above < parts@.len() - left ==> (#[trigger] result@[above + 1])@
                        == path_of(absolute, path_parts(self@).take(parts@.len() - 1 - above)),
            decreases left,
        {
            left -= 1;
            let above = some_texts(&parts, 0, left);
            proof {
                assert(texts(above@) =~= path_parts(self@).take(left as int));
            }
            result.push(SourcePath { text: text_of_parts(absolute, &above) });
        }
        proof {
            let all = result@.map_values(|path: SourcePath| path@);
            assert forall|k: int| 0 <= k < all.len() implies all[k] == ancestors_of(self@)[k] by {
                if k > 0 {
                    assert(result@[(k - 1) + 1]@ == path_of(
                        absolute,
                        path_parts(self@).take(parts@.len() - 1 - (k - 1)),
                    ));
                }
            }
            assert(all =~= ancestors_of(self@));
        }
        result
    }
}

} // verus!
