//! What discovery finds in a file system that does not change meanwhile.

use crate::discovery::Stage;
use crate::error::Failure;
use crate::gitfile::gitdir_file;
use crate::gitfile::path_file;
use crate::path::absolute;
use crate::path::ancestors;
use crate::path::joined;
use crate::path::parent_of;
use crate::worktree::Worktree;
use vstd::prelude::*;
use vstd::utf8::encode_utf8;

verus! {

/// What a search ends with: a worktree, none, or a failure.
pub type Outcome = Result<Option<Worktree>, Failure>;

/// The answers of a file system. A path that does not exist is in none of the
/// sets and maps.
pub struct FileSystem {
    /// The paths that lead to a directory.
    pub dirs: Set<Seq<u8>>,
    /// The paths that lead to a regular file.
    pub files: Set<Seq<u8>>,
    /// The text of the files that can be read as text.
    pub texts: Map<Seq<u8>, Seq<char>>,
    /// The canonical spelling of the paths that have one.
    pub canonical: Map<Seq<u8>, Seq<u8>>,
}

/// The path of `.git` in a directory.
pub open spec fn dot_git(dir: Seq<u8>) -> Seq<u8> {
    joined(dir, encode_utf8(".git"@))
}

/// The path of `commondir` in a Git directory.
pub open spec fn commondir_file(git_dir: Seq<u8>) -> Seq<u8> {
    joined(git_dir, encode_utf8("commondir"@))
}

impl FileSystem {
    /// Whether the canonical spellings are such: each is absolute, and its own
    /// canonical spelling.
    pub open spec fn valid(self) -> bool {
        forall|p: Seq<u8>|
            #![trigger self.resolved(p)]
            self.resolved(p) matches Some(q) ==> absolute(q) && self.resolved(q) == Some(q)
    }

    /// The text of the file at `path`, if it can be read.
    pub open spec fn text(self, path: Seq<u8>) -> Option<Seq<char>> {
        if self.texts.dom().contains(path) {
            Some(self.texts[path])
        } else {
            None
        }
    }

    /// The canonical spelling of `path`, if it has one.
    pub open spec fn resolved(self, path: Seq<u8>) -> Option<Seq<u8>> {
        if self.canonical.dom().contains(path) {
            Some(self.canonical[path])
        } else {
            None
        }
    }

    /// Whether `dir` holds a `.git`, be it a directory or a file.
    pub open spec fn has_git(self, dir: Seq<u8>) -> bool {
        self.dirs.contains(dot_git(dir)) || self.files.contains(dot_git(dir))
    }

    /// The common directory that belongs to a canonical Git directory: what its
    /// `commondir` file names, or itself if it has none.
    pub open spec fn common_path(self, git_dir: Seq<u8>) -> Result<Seq<u8>, Failure> {
        let file = commondir_file(git_dir);
        if !self.files.contains(file) {
            Ok(git_dir)
        } else {
            match path_file(file, "commondir"@, self.text(file)) {
                Err(failure) => Err(failure),
                Ok(path) => Ok(joined(git_dir, path)),
            }
        }
    }

    /// The worktree at `root` with its common directory at `common_dir`.
    pub open spec fn of_common_dir(self, root: Seq<u8>, common_dir: Seq<u8>) -> Outcome {
        match self.resolved(common_dir) {
            None => Err(Failure::ResolveCommonDirectory(common_dir)),
            Some(common_dir) => Ok(Some(Worktree { root, common_dir })),
        }
    }

    /// The worktree at `root` with its canonical Git directory at `git_dir`.
    pub open spec fn of_canonical_git_dir(self, root: Seq<u8>, git_dir: Seq<u8>) -> Outcome {
        match self.common_path(git_dir) {
            Err(failure) => Err(failure),
            Ok(common_dir) => self.of_common_dir(root, common_dir),
        }
    }

    /// The worktree at `root` with its Git directory at `git_dir`.
    pub open spec fn of_git_dir(self, root: Seq<u8>, git_dir: Seq<u8>) -> Outcome {
        match self.resolved(git_dir) {
            None => Err(Failure::ResolveGitDirectory(git_dir)),
            Some(git_dir) => self.of_canonical_git_dir(root, git_dir),
        }
    }

    /// The worktree at `root`, where `.git` is a file that names the Git
    /// directory, relative to `root` or absolute.
    pub open spec fn of_worktree_file(self, root: Seq<u8>) -> Outcome {
        match gitdir_file(dot_git(root), self.text(dot_git(root))) {
            Err(failure) => Err(failure),
            Ok(path) => self.of_git_dir(root, joined(root, path)),
        }
    }

    /// The worktree at `root`, which holds a `.git`.
    pub open spec fn of_root(self, root: Seq<u8>) -> Outcome {
        if self.dirs.contains(dot_git(root)) {
            self.of_git_dir(root, dot_git(root))
        } else {
            self.of_worktree_file(root)
        }
    }

    /// Ancestor `i` of `cwd` is the nearest that holds a `.git`.
    pub open spec fn is_nearest(self, cwd: Seq<u8>, i: int) -> bool {
        let up = ancestors(cwd);
        &&& 0 <= i < up.len()
        &&& self.has_git(up[i])
        &&& forall|j: int| 0 <= j < i ==> !self.has_git(#[trigger] up[j])
    }

    /// The worktree that `cwd` lies in: that of its nearest ancestor with a
    /// `.git`.
    pub open spec fn discovered(self, cwd: Seq<u8>) -> Outcome {
        if exists|i: int| self.is_nearest(cwd, i) {
            self.of_root(ancestors(cwd)[choose|i: int| self.is_nearest(cwd, i)])
        } else {
            Ok(None)
        }
    }

    /// What is found from `dir` up, once it is known that `dir` holds no `.git`.
    pub open spec fn discovered_above(self, dir: Seq<u8>) -> Outcome {
        match parent_of(dir) {
            None => Ok(None),
            Some(parent) => self.discovered(parent),
        }
    }

    /// What a search ends with that has come to `stage`.
    pub open spec fn outcome(self, stage: Stage) -> Outcome {
        match stage {
            Stage::ProbeDir { candidate } => self.discovered(candidate),
            Stage::ProbeFile { candidate } => if self.files.contains(dot_git(candidate)) {
                self.of_worktree_file(candidate)
            } else {
                self.discovered_above(candidate)
            },
            Stage::ReadDotGit { candidate } => self.of_worktree_file(candidate),
            Stage::ResolveGitDir { root, git_dir } => self.of_git_dir(root, git_dir),
            Stage::ProbeCommonDir { root, git_dir } => self.of_canonical_git_dir(root, git_dir),
            Stage::ReadCommonDir { root, git_dir } => {
                let file = commondir_file(git_dir);
                match path_file(file, "commondir"@, self.text(file)) {
                    Err(failure) => Err(failure),
                    Ok(path) => self.of_common_dir(root, joined(git_dir, path)),
                }
            },
            Stage::ResolveCommonDir { root, common_dir } => self.of_common_dir(root, common_dir),
            Stage::Done(outcome) => outcome,
        }
    }

    /// The stage behind `stage`, if its question is answered by this file system.
    pub open spec fn advanced(self, stage: Stage) -> Stage {
        match stage {
            Stage::ProbeDir { candidate } => Stage::after_probe_dir(
                candidate,
                self.dirs.contains(dot_git(candidate)),
            ),
            Stage::ProbeFile { candidate } => Stage::after_probe_file(
                candidate,
                self.files.contains(dot_git(candidate)),
            ),
            Stage::ReadDotGit { candidate } => Stage::after_read_dot_git(
                candidate,
                self.text(dot_git(candidate)),
            ),
            Stage::ResolveGitDir { root, git_dir } => Stage::after_resolve_git_dir(
                root,
                git_dir,
                self.resolved(git_dir),
            ),
            Stage::ProbeCommonDir { root, git_dir } => Stage::after_probe_common_dir(
                root,
                git_dir,
                self.files.contains(commondir_file(git_dir)),
            ),
            Stage::ReadCommonDir { root, git_dir } => Stage::after_read_common_dir(
                root,
                git_dir,
                self.text(commondir_file(git_dir)),
            ),
            Stage::ResolveCommonDir { root, common_dir } => Stage::after_resolve_common_dir(
                root,
                common_dir,
                self.resolved(common_dir),
            ),
            Stage::Done(_) => stage,
        }
    }

    /// The stage that a search at `stage` has come to after `steps` answers.
    pub open spec fn run(self, stage: Stage, steps: nat) -> Stage
        decreases steps,
    {
        if steps == 0 {
            stage
        } else {
            self.run(self.advanced(stage), (steps - 1) as nat)
        }
    }
}

/// Discovery from `dir` looks at `dir` first, and then at what is above it.
pub proof fn lemma_discovered_step(fs: FileSystem, dir: Seq<u8>)
    ensures
        fs.has_git(dir) ==> fs.discovered(dir) == fs.of_root(dir),
        !fs.has_git(dir) ==> fs.discovered(dir) == fs.discovered_above(dir),
{
    let up = ancestors(dir);
    assert(up[0] == dir);
    if fs.has_git(dir) {
        assert(fs.is_nearest(dir, 0));
        let i = choose|i: int| fs.is_nearest(dir, i);
        if i > 0 {
            assert(!fs.has_git(up[0]));
        }
    } else {
        match parent_of(dir) {
            None => {
                if exists|i: int| fs.is_nearest(dir, i) {
                    let i = choose|i: int| fs.is_nearest(dir, i);
                    assert(fs.has_git(up[i]));
                }
            },
            Some(parent) => {
                let above = ancestors(parent);
                assert(forall|j: int| 0 <= j < above.len() ==> up[j + 1] == above[j]);
                if exists|i: int| fs.is_nearest(dir, i) {
                    let i = choose|i: int| fs.is_nearest(dir, i);
                    assert(i > 0);
                    assert(up[i] == above[i - 1]);
                    assert(fs.is_nearest(parent, i - 1)) by {
                        assert forall|j: int| 0 <= j < i - 1 implies !fs.has_git(
                            #[trigger] above[j],
                        ) by {
                            assert(!fs.has_git(up[j + 1]));
                        }
                    }
                    let k = choose|k: int| fs.is_nearest(parent, k);
                    lemma_nearest_unique(fs, parent, i - 1, k);
                } else if exists|k: int| fs.is_nearest(parent, k) {
                    let k = choose|k: int| fs.is_nearest(parent, k);
                    assert(up[k + 1] == above[k]);
                    assert(fs.is_nearest(dir, k + 1)) by {
                        assert forall|j: int| 0 <= j < k + 1 implies !fs.has_git(
                            #[trigger] up[j],
                        ) by {
                            if j > 0 {
                                assert(!fs.has_git(above[j - 1]));
                            }
                        }
                    }
                }
            },
        }
    }
}

/// There is one nearest ancestor.
pub proof fn lemma_nearest_unique(fs: FileSystem, cwd: Seq<u8>, i: int, j: int)
    requires
        fs.is_nearest(cwd, i),
        fs.is_nearest(cwd, j),
    ensures
        i == j,
{
    let up = ancestors(cwd);
    if i < j {
        assert(!fs.has_git(up[i]));
    } else if j < i {
        assert(!fs.has_git(up[j]));
    }
}

/// An answer of the file system does not change what the search ends with.
pub proof fn lemma_advanced(fs: FileSystem, stage: Stage)
    ensures
        fs.outcome(fs.advanced(stage)) == fs.outcome(stage),
{
    match stage {
        Stage::ProbeDir { candidate } => {
            lemma_discovered_step(fs, candidate);
        },
        _ => {},
    }
}

} // verus!
