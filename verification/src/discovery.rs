//! The search for a worktree, one question about the file system at a time.
//!
//! Each struct of this module is a question. Its `path` is what the question is
//! about; its `reply` takes the answer and returns the next step. A driver asks
//! and replies until the step is `Done`.

use crate::error::DiscoverError;
use crate::error::Failure;
use crate::filesystem::FileSystem;
use crate::filesystem::Outcome;
use crate::filesystem::commondir_file;
use crate::filesystem::dot_git;
use crate::filesystem::lemma_advanced;
use crate::gitfile::gitdir_file;
use crate::gitfile::path_file;
use crate::gitfile::read_gitdir_file;
use crate::gitfile::read_path_file;
use crate::gitfile::text_view;
use crate::path::components;
use crate::path::join;
use crate::path::joined;
use crate::path::law_parent;
use crate::path::parent;
use crate::path::parent_of;
use crate::path::SLASH;
use crate::text::blank;
use crate::text::tight;
use crate::worktree::GitWorktreeContext;
use crate::worktree::Worktree;
use vstd::prelude::*;
use vstd::slice::slice_to_vec;
use vstd::utf8::encode_utf8;

verus! {

/// The value of a `Step`.
pub enum Stage {
    ProbeDir { candidate: Seq<u8> },
    ProbeFile { candidate: Seq<u8> },
    ReadDotGit { candidate: Seq<u8> },
    ResolveGitDir { root: Seq<u8>, git_dir: Seq<u8> },
    ProbeCommonDir { root: Seq<u8>, git_dir: Seq<u8> },
    ReadCommonDir { root: Seq<u8>, git_dir: Seq<u8> },
    ResolveCommonDir { root: Seq<u8>, common_dir: Seq<u8> },
    Done(Outcome),
}

impl Stage {
    /// A `.git` directory is the Git directory itself. If there is none, there
    /// may be a `.git` file.
    pub open spec fn after_probe_dir(candidate: Seq<u8>, is_dir: bool) -> Stage {
        if is_dir {
            Stage::ResolveGitDir {
                root: candidate,
                git_dir: dot_git(candidate),
            }
        } else {
            Stage::ProbeFile { candidate }
        }
    }

    /// A `.git` file is read. If there is none either, the search goes on in
    /// the parent, and ends where there is no parent.
    pub open spec fn after_probe_file(candidate: Seq<u8>, is_file: bool) -> Stage {
        if is_file {
            Stage::ReadDotGit { candidate }
        } else {
            match parent_of(candidate) {
                Some(candidate) => Stage::ProbeDir { candidate },
                None => Stage::Done(Ok(None)),
            }
        }
    }

    /// The `.git` file names the Git directory, relative to where it stands.
    pub open spec fn after_read_dot_git(candidate: Seq<u8>, text: Option<Seq<char>>) -> Stage {
        match gitdir_file(dot_git(candidate), text) {
            Ok(path) => Stage::ResolveGitDir {
                root: candidate,
                git_dir: joined(candidate, path),
            },
            Err(failure) => Stage::Done(Err(failure)),
        }
    }

    /// The canonical Git directory may hold a `commondir` file.
    pub open spec fn after_resolve_git_dir(
        root: Seq<u8>,
        git_dir: Seq<u8>,
        canonical: Option<Seq<u8>>,
    ) -> Stage {
        match canonical {
            Some(git_dir) => Stage::ProbeCommonDir { root, git_dir },
            None => Stage::Done(Err(Failure::ResolveGitDirectory(git_dir))),
        }
    }

    /// A `commondir` file is read. Without one, the Git directory is the common
    /// directory.
    pub open spec fn after_probe_common_dir(
        root: Seq<u8>,
        git_dir: Seq<u8>,
        is_file: bool,
    ) -> Stage {
        if is_file {
            Stage::ReadCommonDir { root, git_dir }
        } else {
            Stage::ResolveCommonDir { root, common_dir: git_dir }
        }
    }

    /// The `commondir` file names the common directory, relative to the Git
    /// directory.
    pub open spec fn after_read_common_dir(
        root: Seq<u8>,
        git_dir: Seq<u8>,
        text: Option<Seq<char>>,
    ) -> Stage {
        match path_file(
            commondir_file(git_dir),
            "commondir"@,
            text,
        ) {
            Ok(path) => Stage::ResolveCommonDir {
                root,
                common_dir: joined(git_dir, path),
            },
            Err(failure) => Stage::Done(Err(failure)),
        }
    }

    /// The canonical common directory completes the worktree.
    pub open spec fn after_resolve_common_dir(
        root: Seq<u8>,
        common_dir: Seq<u8>,
        canonical: Option<Seq<u8>>,
    ) -> Stage {
        match canonical {
            Some(common_dir) => Stage::Done(Ok(Some(Worktree { root, common_dir }))),
            None => Stage::Done(Err(Failure::ResolveCommonDirectory(common_dir))),
        }
    }
}

/// Is there a `.git` directory in the candidate?
#[derive(Debug, PartialEq, Eq)]
pub struct ProbeDir {
    pub candidate: Vec<u8>,
}

/// Is there a `.git` file in the candidate?
#[derive(Debug, PartialEq, Eq)]
pub struct ProbeFile {
    pub candidate: Vec<u8>,
}

/// What is the text of the `.git` file in the candidate?
#[derive(Debug, PartialEq, Eq)]
pub struct ReadDotGit {
    pub candidate: Vec<u8>,
}

/// What is the canonical path of the Git directory?
#[derive(Debug, PartialEq, Eq)]
pub struct ResolveGitDir {
    pub root: Vec<u8>,
    pub git_dir: Vec<u8>,
}

/// Is there a `commondir` file in the Git directory?
#[derive(Debug, PartialEq, Eq)]
pub struct ProbeCommonDir {
    pub root: Vec<u8>,
    pub git_dir: Vec<u8>,
}

/// What is the text of the `commondir` file in the Git directory?
#[derive(Debug, PartialEq, Eq)]
pub struct ReadCommonDir {
    pub root: Vec<u8>,
    pub git_dir: Vec<u8>,
}

/// What is the canonical path of the common directory?
#[derive(Debug, PartialEq, Eq)]
pub struct ResolveCommonDir {
    pub root: Vec<u8>,
    pub common_dir: Vec<u8>,
}

/// A step of the search: the next question, or the result.
#[derive(Debug, PartialEq, Eq)]
pub enum Step {
    ProbeDir(ProbeDir),
    ProbeFile(ProbeFile),
    ReadDotGit(ReadDotGit),
    ResolveGitDir(ResolveGitDir),
    ProbeCommonDir(ProbeCommonDir),
    ReadCommonDir(ReadCommonDir),
    ResolveCommonDir(ResolveCommonDir),
    Done(Result<Option<GitWorktreeContext>, DiscoverError>),
}

impl View for ProbeDir {
    type V = Stage;

    open spec fn view(&self) -> Stage {
        Stage::ProbeDir { candidate: self.candidate@ }
    }
}

impl View for ProbeFile {
    type V = Stage;

    open spec fn view(&self) -> Stage {
        Stage::ProbeFile { candidate: self.candidate@ }
    }
}

impl View for ReadDotGit {
    type V = Stage;

    open spec fn view(&self) -> Stage {
        Stage::ReadDotGit { candidate: self.candidate@ }
    }
}

impl View for ResolveGitDir {
    type V = Stage;

    open spec fn view(&self) -> Stage {
        Stage::ResolveGitDir { root: self.root@, git_dir: self.git_dir@ }
    }
}

impl View for ProbeCommonDir {
    type V = Stage;

    open spec fn view(&self) -> Stage {
        Stage::ProbeCommonDir { root: self.root@, git_dir: self.git_dir@ }
    }
}

impl View for ReadCommonDir {
    type V = Stage;

    open spec fn view(&self) -> Stage {
        Stage::ReadCommonDir { root: self.root@, git_dir: self.git_dir@ }
    }
}

impl View for ResolveCommonDir {
    type V = Stage;

    open spec fn view(&self) -> Stage {
        Stage::ResolveCommonDir { root: self.root@, common_dir: self.common_dir@ }
    }
}

/// The value of a result.
pub open spec fn result_view(r: Result<Option<GitWorktreeContext>, DiscoverError>) -> Outcome {
    match r {
        Ok(Some(context)) => Ok(Some(context@)),
        Ok(None) => Ok(None),
        Err(error) => Err(error@),
    }
}

impl View for Step {
    type V = Stage;

    open spec fn view(&self) -> Stage {
        match *self {
            Step::ProbeDir(ask) => ask@,
            Step::ProbeFile(ask) => ask@,
            Step::ReadDotGit(ask) => ask@,
            Step::ResolveGitDir(ask) => ask@,
            Step::ProbeCommonDir(ask) => ask@,
            Step::ReadCommonDir(ask) => ask@,
            Step::ResolveCommonDir(ask) => ask@,
            Step::Done(result) => Stage::Done(result_view(result)),
        }
    }
}

impl ProbeDir {
    /// The path that may lead to a directory.
    pub fn path(&self) -> (r: Vec<u8>)
        ensures
            r@ == dot_git(self.candidate@),
            r@ == joined(self.candidate@, encode_utf8(".git"@)),
    {
        join(self.candidate.as_slice(), ".git".as_bytes())
    }

    /// Goes on with the answer, whether the path leads to a directory.
    pub fn reply(self, is_dir: bool) -> (r: Step)
        ensures
            r@ == Stage::after_probe_dir(self.candidate@, is_dir),
            is_dir ==> (r matches Step::ResolveGitDir(ask) && ask.root@ == self.candidate@
                && ask.git_dir@ == joined(self.candidate@, encode_utf8(".git"@))),
            !is_dir ==> (r matches Step::ProbeFile(ask) && ask.candidate@ == self.candidate@),
            forall|fs: FileSystem|
                fs.dirs.contains(dot_git(self.candidate@)) == is_dir
                    ==> #[trigger] fs.outcome(r@) == fs.outcome(self@),
    {
        proof {
            assert forall|fs: FileSystem|
                fs.dirs.contains(dot_git(self.candidate@))
                    == is_dir implies #[trigger] fs.outcome(
                Stage::after_probe_dir(self.candidate@, is_dir),
            ) == fs.outcome(self@) by {
                lemma_advanced(fs, self@);
            }
        }
        if is_dir {
            GitWorktreeContext::from_git_dir(self.candidate.as_slice(), self.path().as_slice())
        } else {
            Step::ProbeFile(ProbeFile { candidate: self.candidate })
        }
    }
}

impl ProbeFile {
    /// The path that may lead to a file.
    pub fn path(&self) -> (r: Vec<u8>)
        ensures
            r@ == dot_git(self.candidate@),
            r@ == joined(self.candidate@, encode_utf8(".git"@)),
    {
        join(self.candidate.as_slice(), ".git".as_bytes())
    }

    /// Goes on with the answer, whether the path leads to a regular file.
    pub fn reply(self, is_file: bool) -> (r: Step)
        ensures
            r@ == Stage::after_probe_file(self.candidate@, is_file),
            is_file ==> (r matches Step::ReadDotGit(ask) && ask.candidate@ == self.candidate@),
            !is_file && (components(self.candidate@).len() == 0 || components(self.candidate@)
                == seq![seq![SLASH]]) ==> r matches Step::Done(Ok(None)),
            !is_file && components(self.candidate@).len() > 0 && components(self.candidate@)
                != seq![seq![SLASH]] ==> (r matches Step::ProbeDir(ask)
                && parent_of(self.candidate@) == Some(ask.candidate@)
                && ask.candidate@.is_prefix_of(self.candidate@) && components(ask.candidate@)
                == components(self.candidate@).drop_last()),
            forall|fs: FileSystem|
                fs.files.contains(dot_git(self.candidate@)) == is_file
                    ==> #[trigger] fs.outcome(r@) == fs.outcome(self@),
    {
        proof {
            law_parent(self.candidate@);
            if components(self.candidate@).len() == 0 {
                assert(components(self.candidate@) == Seq::<Seq<u8>>::empty());
            }
        }
        if is_file {
            Step::ReadDotGit(ReadDotGit { candidate: self.candidate })
        } else {
            match parent(self.candidate.as_slice()) {
                Some(up) => Step::ProbeDir(ProbeDir { candidate: slice_to_vec(up) }),
                None => Step::Done(Ok(None)),
            }
        }
    }
}

impl ReadDotGit {
    /// The path of the file to read.
    pub fn path(&self) -> (r: Vec<u8>)
        ensures
            r@ == dot_git(self.candidate@),
            r@ == joined(self.candidate@, encode_utf8(".git"@)),
    {
        join(self.candidate.as_slice(), ".git".as_bytes())
    }

    /// Goes on with the text of the file, or `None` where it cannot be read.
    pub fn reply(self, contents: Option<&str>) -> (r: Step)
        ensures
            r@ == Stage::after_read_dot_git(
                self.candidate@,
                text_view(contents),
            ),
            contents is None ==> (r matches Step::Done(Err(DiscoverError::ReadWorktreeFile(file)))
                && file@ == joined(self.candidate@, encode_utf8(".git"@))),
            contents matches Some(text) ==> forall|
                before: Seq<char>,
                between: Seq<char>,
                value: Seq<char>,
                after: Seq<char>,
            |
                blank(before) && blank(between) && blank(after) && tight(value) && text@
                    == #[trigger] (before + "gitdir:"@ + between + value + after) ==> (r matches
                    Step::ResolveGitDir(ask) && ask.root@ == self.candidate@ && ask.git_dir@
                    == joined(self.candidate@, encode_utf8(value))),
            r is ResolveGitDir ==> contents is Some && exists|
                before: Seq<char>,
                between: Seq<char>,
                value: Seq<char>,
                after: Seq<char>,
            |
                blank(before) && blank(between) && blank(after) && tight(value) && contents->0@
                    == #[trigger] (before + "gitdir:"@ + between + value + after),
            contents is Some && !(r is ResolveGitDir) ==> (r matches Step::Done(
                Err(DiscoverError::MalformedWorktreeFile(file)),
            ) && file@ == joined(self.candidate@, encode_utf8(".git"@))),
            forall|fs: FileSystem|
                fs.text(dot_git(self.candidate@)) == text_view(
                    contents,
                ) ==> #[trigger] fs.outcome(r@) == fs.outcome(self@),
    {
        match read_gitdir_file(self.path().as_slice(), contents) {
            Ok(path) => {
                let git_dir: Vec<u8> = join(self.candidate.as_slice(), path.as_slice());
                GitWorktreeContext::from_git_dir(self.candidate.as_slice(), git_dir.as_slice())
            },
            Err(error) => Step::Done(Err(error)),
        }
    }
}

impl ResolveGitDir {
    /// The path to make canonical.
    pub fn path(&self) -> (r: Vec<u8>)
        ensures
            r@ == self.git_dir@,
    {
        slice_to_vec(self.git_dir.as_slice())
    }

    /// Goes on with the canonical path, or `None` where there is none.
    pub fn reply(self, canonical: Option<Vec<u8>>) -> (r: Step)
        ensures
            r@ == Stage::after_resolve_git_dir(
                self.root@,
                self.git_dir@,
                canonical_view(canonical),
            ),
            canonical matches Some(path) ==> (r matches Step::ProbeCommonDir(ask) && ask.root@
                == self.root@ && ask.git_dir@ == path@),
            canonical is None ==> (r matches Step::Done(
                Err(DiscoverError::ResolveGitDirectory(path)),
            ) && path@ == self.git_dir@),
            forall|fs: FileSystem|
                fs.resolved(self.git_dir@) == canonical_view(canonical) ==> #[trigger] fs.outcome(
                    r@,
                ) == fs.outcome(self@),
    {
        match canonical {
            Some(git_dir) => Step::ProbeCommonDir(ProbeCommonDir { root: self.root, git_dir }),
            None => Step::Done(Err(DiscoverError::ResolveGitDirectory(self.git_dir))),
        }
    }
}

impl ProbeCommonDir {
    /// The path that may lead to a file.
    pub fn path(&self) -> (r: Vec<u8>)
        ensures
            r@ == commondir_file(self.git_dir@),
            r@ == joined(self.git_dir@, encode_utf8("commondir"@)),
    {
        join(self.git_dir.as_slice(), "commondir".as_bytes())
    }

    /// Goes on with the answer, whether the path leads to a regular file.
    pub fn reply(self, is_file: bool) -> (r: Step)
        ensures
            r@ == Stage::after_probe_common_dir(self.root@, self.git_dir@, is_file),
            is_file ==> (r matches Step::ReadCommonDir(ask) && ask.root@ == self.root@
                && ask.git_dir@ == self.git_dir@),
            !is_file ==> (r matches Step::ResolveCommonDir(ask) && ask.root@ == self.root@
                && ask.common_dir@ == self.git_dir@),
            forall|fs: FileSystem|
                fs.files.contains(commondir_file(self.git_dir@)) == is_file
                    ==> #[trigger] fs.outcome(r@) == fs.outcome(self@),
    {
        if is_file {
            Step::ReadCommonDir(ReadCommonDir { root: self.root, git_dir: self.git_dir })
        } else {
            Step::ResolveCommonDir(ResolveCommonDir { root: self.root, common_dir: self.git_dir })
        }
    }
}

impl ReadCommonDir {
    /// The path of the file to read.
    pub fn path(&self) -> (r: Vec<u8>)
        ensures
            r@ == commondir_file(self.git_dir@),
            r@ == joined(self.git_dir@, encode_utf8("commondir"@)),
    {
        join(self.git_dir.as_slice(), "commondir".as_bytes())
    }

    /// Goes on with the text of the file, or `None` where it cannot be read.
    pub fn reply(self, contents: Option<&str>) -> (r: Step)
        ensures
            r@ == Stage::after_read_common_dir(
                self.root@,
                self.git_dir@,
                text_view(contents),
            ),
            contents is None ==> (r matches Step::Done(Err(DiscoverError::ReadPathFile(kind, file)))
                && kind@ == "commondir"@ && file@ == joined(
                self.git_dir@,
                encode_utf8("commondir"@),
            )),
            contents matches Some(text) && blank(text@) ==> (r matches Step::Done(
                Err(DiscoverError::EmptyPathFile(kind, file)),
            ) && kind@ == "commondir"@ && file@ == joined(
                self.git_dir@,
                encode_utf8("commondir"@),
            )),
            contents matches Some(text) ==> forall|
                before: Seq<char>,
                value: Seq<char>,
                after: Seq<char>,
            |
                blank(before) && blank(after) && tight(value) && text@ == #[trigger] (before + value
                    + after) ==> (r matches Step::ResolveCommonDir(ask) && ask.root@ == self.root@
                    && ask.common_dir@ == joined(self.git_dir@, encode_utf8(value))),
            forall|fs: FileSystem|
                fs.text(commondir_file(self.git_dir@))
                    == text_view(contents) ==> #[trigger] fs.outcome(r@)
                    == fs.outcome(self@),
    {
        match read_path_file(self.path().as_slice(), "commondir", contents) {
            Ok(path) => {
                let common_dir: Vec<u8> = join(self.git_dir.as_slice(), path.as_slice());
                Step::ResolveCommonDir(ResolveCommonDir { root: self.root, common_dir })
            },
            Err(error) => Step::Done(Err(error)),
        }
    }
}

impl ResolveCommonDir {
    /// The path to make canonical.
    pub fn path(&self) -> (r: Vec<u8>)
        ensures
            r@ == self.common_dir@,
    {
        slice_to_vec(self.common_dir.as_slice())
    }

    /// Goes on with the canonical path, or `None` where there is none.
    pub fn reply(self, canonical: Option<Vec<u8>>) -> (r: Step)
        ensures
            r@ == Stage::after_resolve_common_dir(
                self.root@,
                self.common_dir@,
                canonical_view(canonical),
            ),
            canonical matches Some(path) ==> (r matches Step::Done(Ok(Some(found))) && found@.root
                == self.root@ && found@.common_dir == path@),
            canonical is None ==> (r matches Step::Done(
                Err(DiscoverError::ResolveCommonDirectory(path)),
            ) && path@ == self.common_dir@),
            forall|fs: FileSystem|
                fs.resolved(self.common_dir@) == canonical_view(canonical)
                    ==> #[trigger] fs.outcome(r@) == fs.outcome(self@),
    {
        match canonical {
            Some(common_dir) => Step::Done(
                Ok(Some(GitWorktreeContext::new(self.root, common_dir))),
            ),
            None => Step::Done(Err(DiscoverError::ResolveCommonDirectory(self.common_dir))),
        }
    }
}

/// The value of an optional canonical path.
pub open spec fn canonical_view(canonical: Option<Vec<u8>>) -> Option<Seq<u8>> {
    match canonical {
        Some(path) => Some(path@),
        None => None,
    }
}

/// The value of a step is the question in it with the paths that it holds, or the
/// result in it. An answer has the value of the text or path in it.
pub proof fn law_step_shows_question(
    dir: Vec<u8>,
    other: Vec<u8>,
    text: &str,
    context: GitWorktreeContext,
    error: DiscoverError,
)
    ensures
        Step::ProbeDir(ProbeDir { candidate: dir })@ == (Stage::ProbeDir { candidate: dir@ }),
        Step::ProbeFile(ProbeFile { candidate: dir })@ == (Stage::ProbeFile { candidate: dir@ }),
        Step::ReadDotGit(ReadDotGit { candidate: dir })@ == (Stage::ReadDotGit {
            candidate: dir@,
        }),
        Step::ResolveGitDir(ResolveGitDir { root: dir, git_dir: other })@ == (
        Stage::ResolveGitDir { root: dir@, git_dir: other@ }),
        Step::ProbeCommonDir(ProbeCommonDir { root: dir, git_dir: other })@ == (
        Stage::ProbeCommonDir { root: dir@, git_dir: other@ }),
        Step::ReadCommonDir(ReadCommonDir { root: dir, git_dir: other })@ == (
        Stage::ReadCommonDir { root: dir@, git_dir: other@ }),
        Step::ResolveCommonDir(ResolveCommonDir { root: dir, common_dir: other })@ == (
        Stage::ResolveCommonDir { root: dir@, common_dir: other@ }),
        Step::Done(Ok(Some(context)))@ == Stage::Done(Ok(Some(context@))),
        Step::Done(Ok(None))@ == Stage::Done(Ok(None)),
        Step::Done(Err(error))@ == Stage::Done(Err(error@)),
        text_view(Some(text)) == Some(text@),
        text_view(None) is None,
        canonical_view(Some(dir)) == Some(dir@),
        canonical_view(None) is None,
{
}

} // verus!
