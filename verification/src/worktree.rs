//! A worktree: where it is, and which repository it belongs to.

use crate::discovery::ProbeDir;
use crate::discovery::ResolveGitDir;
use crate::discovery::Stage;
use crate::discovery::Step;
use crate::filesystem::FileSystem;
use crate::path::components;
use crate::path::relative_to;
use crate::path::same_components;
use crate::path::strip_prefix;
use vstd::prelude::*;
use vstd::slice::slice_to_vec;

verus! {

/// The value of a `GitWorktreeContext`.
#[verifier::ext_equal]
pub struct Worktree {
    /// The directory that holds `.git`.
    pub root: Seq<u8>,
    /// The directory of the repository, which all worktrees linked to it share.
    pub common_dir: Seq<u8>,
}

/// The worktree that a directory lies in.
#[derive(Debug)]
pub struct GitWorktreeContext {
    root: Vec<u8>,
    common_dir: Vec<u8>,
}

impl View for GitWorktreeContext {
    type V = Worktree;

    closed spec fn view(&self) -> Worktree {
        Worktree { root: self.root@, common_dir: self.common_dir@ }
    }
}

impl PartialEq for GitWorktreeContext {
    /// Two contexts are equal if their paths are, however these are spelled.
    fn eq(&self, other: &Self) -> (r: bool) {
        same_components(self.root.as_slice(), other.root.as_slice()) && same_components(
            self.common_dir.as_slice(),
            other.common_dir.as_slice(),
        )
    }
}

impl vstd::std_specs::cmp::PartialEqSpecImpl for GitWorktreeContext {
    open spec fn obeys_eq_spec() -> bool {
        true
    }

    open spec fn eq_spec(&self, other: &Self) -> bool {
        components(self@.root) == components(other@.root) && components(self@.common_dir)
            == components(other@.common_dir)
    }
}

impl Eq for GitWorktreeContext {

}

impl Clone for GitWorktreeContext {
    fn clone(&self) -> (r: Self)
        ensures
            r@ == self@,
    {
        GitWorktreeContext {
            root: slice_to_vec(self.root.as_slice()),
            common_dir: slice_to_vec(self.common_dir.as_slice()),
        }
    }
}

impl GitWorktreeContext {
    /// The context of a worktree whose directories are known.
    pub(crate) fn new(root: Vec<u8>, common_dir: Vec<u8>) -> (r: Self)
        ensures
            r@ == (Worktree { root: root@, common_dir: common_dir@ }),
    {
        // The root keeps the spelling of the directory that the search began
        // in. A canonical spelling may differ from it, and paths below the
        // worktree would no longer match it.
        GitWorktreeContext { root, common_dir }
    }

    /// The directory that holds `.git`, spelled as the search met it.
    pub fn root(&self) -> (r: &[u8])
        ensures
            r@ == self@.root,
    {
        self.root.as_slice()
    }

    /// The canonical path of the directory that all worktrees of the
    /// repository share.
    pub fn common_dir(&self) -> (r: &[u8])
        ensures
            r@ == self@.common_dir,
    {
        self.common_dir.as_slice()
    }

    /// What is left of `path` behind the root, if it lies in the worktree. The
    /// match is lexical, by whole components.
    pub fn relative_path<'a>(&self, path: &'a [u8]) -> (r: Option<&'a [u8]>)
        ensures
            match r {
                Some(rest) => relative_to(path@, self@.root) == Some(rest@),
                None => relative_to(path@, self@.root) is None,
            },
    {
        strip_prefix(path, self.root.as_slice())
    }

    /// Begins the search for the worktree that `cwd` lies in. It walks up from
    /// `cwd` and asks its driver one question about the file system at a time.
    pub fn discover(cwd: &[u8]) -> (r: Step)
        ensures
            r@ == (Stage::ProbeDir { candidate: cwd@ }),
            r matches Step::ProbeDir(ask) && ask.candidate@ == cwd@,
            forall|fs: FileSystem| #[trigger]
                fs.outcome(r@) == fs.discovered(cwd@),
    {
        Step::ProbeDir(ProbeDir { candidate: slice_to_vec(cwd) })
    }

    /// Begins to read the worktree at `root`, whose Git directory is known.
    pub fn from_git_dir(root: &[u8], git_dir: &[u8]) -> (r: Step)
        ensures
            r@ == (Stage::ResolveGitDir { root: root@, git_dir: git_dir@ }),
            r matches Step::ResolveGitDir(ask) && ask.root@ == root@ && ask.git_dir@ == git_dir@,
            forall|fs: FileSystem| #[trigger]
                fs.outcome(r@) == fs.of_git_dir(root@, git_dir@),
    {
        Step::ResolveGitDir(
            ResolveGitDir { root: slice_to_vec(root), git_dir: slice_to_vec(git_dir) },
        )
    }
}

} // verus!
