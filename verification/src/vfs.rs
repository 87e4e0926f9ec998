//! A virtual file system, so that the parser can read documents from any
//! source: the disk, or files held in memory.

use vstd::prelude::*;
use crate::text::str_equal;

verus! {

/// A path as a file system keys files by it.
#[derive(Debug)]
pub struct VfsPath {
    pub inner: String,
}

impl VfsPath {
    pub fn new(p: &str) -> (r: VfsPath)
        ensures
            r.inner@ == p@,
    {
        VfsPath { inner: p.to_owned() }
    }
}

/// A normalized path, owned.
#[derive(Debug)]
pub struct VfsPathBuf(pub String);

impl VfsPathBuf {
    /// The path as text.
    pub fn to_string_lossy(&self) -> (r: String)
        ensures
            r@ == self.0@,
    {
        self.0.clone()
    }

    /// The path, borrowed as a [`VfsPath`].
    pub fn as_path(&self) -> (r: VfsPath)
        ensures
            r.inner@ == self.0@,
    {
        VfsPath { inner: self.0.clone() }
    }
}

/// Why a file could not be read or a path normalized.
#[derive(Debug)]
pub struct VfsError {
    pub not_found: bool,
    pub message: String,
}

/// A file system the parser reads documents from.
pub trait Vfs {
    /// Normalizes a path: at least removes `..` (with the component before
    /// it) and `.` components.
    fn normalize_path(path: &str) -> Result<VfsPathBuf, VfsError>;

    /// The text of the file at `path`.
    fn read_file_to_string(&self, path: &VfsPath) -> Result<String, VfsError>;
}

/// What `path_clean::clean` makes of a path: `.` components removed, `..`
/// components removed with the component before them, repeated slashes
/// merged, and `"."` for an empty result.
pub uninterp spec fn cleaned_path(p: Seq<char>) -> Seq<char>;

/// Cleans a path lexically with `path_clean::clean`; the result is named
/// [`cleaned_path`].
#[verifier::external_body]
fn clean_path(p: &str) -> (r: String)
    ensures
        r@ == cleaned_path(p@),
{
    path_clean::clean(p).to_string_lossy().into_owned()
}

/// The content bound to `path`: the last one added wins.
pub open spec fn file_content(files: Seq<(String, String)>, path: Seq<char>) -> Option<Seq<char>>
    decreases files.len(),
{
    if files.len() == 0 {
        None
    } else if files.last().0@ == path {
        Some(files.last().1@)
    } else {
        file_content(files.drop_last(), path)
    }
}

/// Files held in memory.
#[derive(Debug)]
pub struct InMemoryFS {
    files: Vec<(String, String)>,
}

impl InMemoryFS {
    /// The content of each file, by path.
    pub closed spec fn content(&self, path: Seq<char>) -> Option<Seq<char>> {
        file_content(self.files@, path)
    }

    /// An empty file system.
    pub fn new() -> (r: InMemoryFS)
        ensures
            forall|p: Seq<char>| r.content(p) is None,
    {
        InMemoryFS { files: Vec::new() }
    }

    /// Adds a file under its normalized path (as
    /// [`Vfs::normalize_path`] gives it), replacing the one there if any.
    /// Normalizing a path held as text never fails.
    pub fn add_file(&mut self, path: &VfsPath, content: &str) -> (r: Result<(), VfsError>)
        ensures
            r is Ok,
            forall|p: Seq<char>| #[trigger] final(self).content(p) == if p == cleaned_path(path.inner@) {
                Some(content@)
            } else {
                old(self).content(p)
            },
    {
        let ghost old_files = self.files@;
        let key = clean_path(path.inner.as_str());
        self.files.push((key, content.to_owned()));
        assert(self.files@.drop_last() =~= old_files);
        Ok(())
    }
}

impl Vfs for InMemoryFS {
    fn normalize_path(path: &str) -> (r: Result<VfsPathBuf, VfsError>)
        ensures
            r matches Ok(p) && p.0@ == cleaned_path(path@),
    {
        Ok(VfsPathBuf(clean_path(path)))
    }

    fn read_file_to_string(&self, path: &VfsPath) -> (r: Result<String, VfsError>)
        ensures
            match self.content(path.inner@) {
                Some(c) => r matches Ok(s) && s@ == c,
                None => r matches Err(e) && e.not_found && e.message@ == "file "@ + path.inner@
                    + " not present in in-memory database"@,
            },
    {
        let mut k = self.files.len();
        assert(self.files@.take(k as int) =~= self.files@);
        while k > 0
            invariant
                k <= self.files@.len(),
                file_content(self.files@, path.inner@) == file_content(self.files@.take(k as int), path.inner@),
            decreases k,
        {
            assert(self.files@.take(k as int).drop_last() =~= self.files@.take(k - 1));
            if str_equal(self.files[k - 1].0.as_str(), path.inner.as_str()) {
                return Ok(self.files[k - 1].1.clone());
            }
            k = k - 1;
        }
        let mut m = "file ".to_owned();
        m.append(path.inner.as_str());
        m.append(" not present in in-memory database");
        Err(VfsError { not_found: true, message: m })
    }
}

/// A file reads back as it was last added: once `after` is `before` with
/// `content` added at the normalized path `path`, the file at `path` holds
/// `content` and every other file is as it was.
pub proof fn law_read_after_add(before: InMemoryFS, after: InMemoryFS, path: Seq<char>, content: Seq<char>, other: Seq<char>)
    requires
        forall|p: Seq<char>| #[trigger] after.content(p) == if p == cleaned_path(path) {
            Some(content)
        } else {
            before.content(p)
        },
    ensures
        after.content(cleaned_path(path)) == Some(content),
        other != cleaned_path(path) ==> after.content(other) == before.content(other),
{
    assert(after.content(cleaned_path(path)) == Some(content));
    assert(after.content(other) == if other == cleaned_path(path) { Some(content) } else { before.content(other) });
}

/// What the files added in turn, at `paths` with `contents`, leave at the
/// normalized path `p`: the content of the last one added there.
pub open spec fn added_content(paths: Seq<Seq<char>>, contents: Seq<Seq<char>>, p: Seq<char>) -> Option<Seq<char>>
    decreases paths.len(),
{
    if paths.len() == 0 {
        None
    } else if cleaned_path(paths.last()) == p {
        Some(contents[paths.len() - 1])
    } else {
        added_content(paths.drop_last(), contents.take(paths.len() - 1), p)
    }
}

/// Reading after a sequence of additions to an empty file system: each
/// path holds what was last added under it, and paths where nothing was
/// added hold nothing. `states[0]` is the empty file system and
/// `states[k + 1]` is `states[k]` after adding `contents[k]` at
/// `paths[k]`.
pub proof fn law_read_after_adds(states: Seq<InMemoryFS>, paths: Seq<Seq<char>>, contents: Seq<Seq<char>>, p: Seq<char>)
    requires
        states.len() == paths.len() + 1,
        contents.len() == paths.len(),
        forall|q: Seq<char>| #[trigger] states[0].content(q) is None,
        forall|k: int, q: Seq<char>| 0 <= k < paths.len() ==> #[trigger] states[k + 1].content(q) == if q == cleaned_path(paths[k]) {
            Some(contents[k])
        } else {
            states[k].content(q)
        },
    ensures
        states.last().content(p) == added_content(paths, contents, p),
    decreases paths.len(),
{
    let n = paths.len();
    if n == 0 {
        assert(states.last() == states[0]);
        assert(states[0].content(p) is None);
    } else {
        let s2 = states.drop_last();
        let p2 = paths.drop_last();
        let c2 = contents.take(n - 1);
        assert forall|k: int, q: Seq<char>| 0 <= k < p2.len() implies #[trigger] s2[k + 1].content(q) == if q == cleaned_path(p2[k]) {
            Some(c2[k])
        } else {
            s2[k].content(q)
        } by {
            assert(states[k + 1].content(q) == if q == cleaned_path(paths[k]) { Some(contents[k]) } else { states[k].content(q) });
        }
        assert forall|q: Seq<char>| #[trigger] s2[0].content(q) is None by {
            assert(states[0].content(q) is None);
        }
        law_read_after_adds(s2, p2, c2, p);
        assert(states[n as int].content(p) == if p == cleaned_path(paths[n - 1]) {
            Some(contents[n - 1])
        } else {
            states[n - 1].content(p)
        });
        assert(s2.last() == states[n - 1]);
    }
}

} // verus!
