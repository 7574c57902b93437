//! Why a worktree could not be discovered.

use vstd::prelude::*;

verus! {

/// The failures of a discovery. Each names the path that it is about.
#[derive(Debug, PartialEq, Eq)]
pub enum DiscoverError {
    /// The `.git` file could not be read as text.
    ReadWorktreeFile(Vec<u8>),
    /// The `.git` file does not name a Git directory.
    MalformedWorktreeFile(Vec<u8>),
    /// The Git directory could not be made canonical.
    ResolveGitDirectory(Vec<u8>),
    /// A file of the given kind, which holds a path, could not be read as text.
    ReadPathFile(String, Vec<u8>),
    /// A file of the given kind, which should hold a path, is empty.
    EmptyPathFile(String, Vec<u8>),
    /// The common directory could not be made canonical.
    ResolveCommonDirectory(Vec<u8>),
}

/// The value of a `DiscoverError`.
pub enum Failure {
    ReadWorktreeFile(Seq<u8>),
    MalformedWorktreeFile(Seq<u8>),
    ResolveGitDirectory(Seq<u8>),
    ReadPathFile(Seq<char>, Seq<u8>),
    EmptyPathFile(Seq<char>, Seq<u8>),
    ResolveCommonDirectory(Seq<u8>),
}

impl View for DiscoverError {
    type V = Failure;

    open spec fn view(&self) -> Failure {
        match *self {
            DiscoverError::ReadWorktreeFile(p) => Failure::ReadWorktreeFile(p@),
            DiscoverError::MalformedWorktreeFile(p) => Failure::MalformedWorktreeFile(p@),
            DiscoverError::ResolveGitDirectory(p) => Failure::ResolveGitDirectory(p@),
            DiscoverError::ReadPathFile(kind, p) => Failure::ReadPathFile(kind@, p@),
            DiscoverError::EmptyPathFile(kind, p) => Failure::EmptyPathFile(kind@, p@),
            DiscoverError::ResolveCommonDirectory(p) => Failure::ResolveCommonDirectory(p@),
        }
    }
}

impl Failure {
    /// The path that the failure is about.
    pub open spec fn path(self) -> Seq<u8> {
        match self {
            Failure::ReadWorktreeFile(p) => p,
            Failure::MalformedWorktreeFile(p) => p,
            Failure::ResolveGitDirectory(p) => p,
            Failure::ReadPathFile(_, p) => p,
            Failure::EmptyPathFile(_, p) => p,
            Failure::ResolveCommonDirectory(p) => p,
        }
    }

    /// The failure in words, with its path shown as `shown`.
    pub open spec fn message(self, shown: Seq<char>) -> Seq<char> {
        match self {
            Failure::ReadWorktreeFile(_) => "Failed to read Git worktree file "@ + shown,
            Failure::MalformedWorktreeFile(_) => "Malformed Git worktree file "@ + shown,
            Failure::ResolveGitDirectory(_) => "Failed to resolve Git directory "@ + shown,
            Failure::ReadPathFile(kind, _) => "Failed to read Git "@ + kind + " file "@ + shown,
            Failure::EmptyPathFile(kind, _) => "Empty Git "@ + kind + " file "@ + shown,
            Failure::ResolveCommonDirectory(_) => "Failed to resolve Git common directory "@
                + shown,
        }
    }
}

impl DiscoverError {
    /// The path that the error is about.
    pub fn path(&self) -> (r: &[u8])
        ensures
            r@ == self@.path(),
            match *self {
                DiscoverError::ReadWorktreeFile(p) => r@ == p@,
                DiscoverError::MalformedWorktreeFile(p) => r@ == p@,
                DiscoverError::ResolveGitDirectory(p) => r@ == p@,
                DiscoverError::ReadPathFile(_, p) => r@ == p@,
                DiscoverError::EmptyPathFile(_, p) => r@ == p@,
                DiscoverError::ResolveCommonDirectory(p) => r@ == p@,
            },
    {
        match self {
            DiscoverError::ReadWorktreeFile(p) => p.as_slice(),
            DiscoverError::MalformedWorktreeFile(p) => p.as_slice(),
            DiscoverError::ResolveGitDirectory(p) => p.as_slice(),
            DiscoverError::ReadPathFile(_, p) => p.as_slice(),
            DiscoverError::EmptyPathFile(_, p) => p.as_slice(),
            DiscoverError::ResolveCommonDirectory(p) => p.as_slice(),
        }
    }

    /// The error in words, with its path shown as `shown`. A path need not be
    /// text, so the caller chooses how to show it.
    pub fn message(&self, shown: &str) -> (r: String)
        ensures
            r@ == self@.message(shown@),
            match *self {
                DiscoverError::ReadWorktreeFile(_) => r@ == "Failed to read Git worktree file "@
                    + shown@,
                DiscoverError::MalformedWorktreeFile(_) => r@ == "Malformed Git worktree file "@
                    + shown@,
                DiscoverError::ResolveGitDirectory(_) => r@ == "Failed to resolve Git directory "@
                    + shown@,
                DiscoverError::ReadPathFile(kind, _) => r@ == "Failed to read Git "@ + kind@
                    + " file "@ + shown@,
                DiscoverError::EmptyPathFile(kind, _) => r@ == "Empty Git "@ + kind@ + " file "@
                    + shown@,
                DiscoverError::ResolveCommonDirectory(_) => r@
                    == "Failed to resolve Git common directory "@ + shown@,
            },
    {
        let mut r: String = String::new();
        match self {
            DiscoverError::ReadWorktreeFile(_) => {
                r.append("Failed to read Git worktree file ");
            },
            DiscoverError::MalformedWorktreeFile(_) => {
                r.append("Malformed Git worktree file ");
            },
            DiscoverError::ResolveGitDirectory(_) => {
                r.append("Failed to resolve Git directory ");
            },
            DiscoverError::ReadPathFile(kind, _) => {
                r.append("Failed to read Git ");
                r.append(kind.as_str());
                r.append(" file ");
            },
            DiscoverError::EmptyPathFile(kind, _) => {
                r.append("Empty Git ");
                r.append(kind.as_str());
                r.append(" file ");
            },
            DiscoverError::ResolveCommonDirectory(_) => {
                r.append("Failed to resolve Git common directory ");
            },
        }
        r.append(shown);
        assert(r@ == self@.message(shown@));
        r
    }
}

/// An error keeps its kind, and the path that it names, in its value.
pub proof fn law_error_keeps_path(error: DiscoverError)
    ensures
        match error {
            DiscoverError::ReadWorktreeFile(p) => error@ == Failure::ReadWorktreeFile(p@)
                && error@.path() == p@,
            DiscoverError::MalformedWorktreeFile(p) => error@ == Failure::MalformedWorktreeFile(p@)
                && error@.path() == p@,
            DiscoverError::ResolveGitDirectory(p) => error@ == Failure::ResolveGitDirectory(p@)
                && error@.path() == p@,
            DiscoverError::ReadPathFile(kind, p) => error@ == Failure::ReadPathFile(kind@, p@)
                && error@.path() == p@,
            DiscoverError::EmptyPathFile(kind, p) => error@ == Failure::EmptyPathFile(kind@, p@)
                && error@.path() == p@,
            DiscoverError::ResolveCommonDirectory(p) => error@ == Failure::ResolveCommonDirectory(
                p@,
            ) && error@.path() == p@,
        },
{
}

/// A message ends with the path as it is shown. What stands before it depends on
/// the failure alone, and names the kind of the file where there is one. Two paths
/// shown alike are told alike.
pub proof fn law_message_ends_with_path(failure: Failure, shown: Seq<char>, other: Seq<char>)
    ensures
        failure.message(shown).len() > shown.len(),
        shown.is_suffix_of(failure.message(shown)),
        failure.message(shown).take(failure.message(shown).len() - shown.len()) == failure.message(
            other,
        ).take(failure.message(other).len() - other.len()),
        failure is ReadWorktreeFile ==> failure.message(shown)
            == "Failed to read Git worktree file "@ + shown,
        failure is MalformedWorktreeFile ==> failure.message(shown)
            == "Malformed Git worktree file "@ + shown,
        failure is ResolveGitDirectory ==> failure.message(shown)
            == "Failed to resolve Git directory "@ + shown,
        failure matches Failure::ReadPathFile(kind, _) ==> failure.message(shown)
            == "Failed to read Git "@ + kind + " file "@ + shown,
        failure matches Failure::EmptyPathFile(kind, _) ==> failure.message(shown) == "Empty Git "@
            + kind + " file "@ + shown,
        failure is ResolveCommonDirectory ==> failure.message(shown)
            == "Failed to resolve Git common directory "@ + shown,
{
    reveal_strlit("Failed to read Git worktree file ");
    reveal_strlit("Malformed Git worktree file ");
    reveal_strlit("Failed to resolve Git directory ");
    reveal_strlit("Failed to read Git ");
    reveal_strlit("Empty Git ");
    reveal_strlit(" file ");
    reveal_strlit("Failed to resolve Git common directory ");
    let words = failure.message(Seq::empty());
    assert(failure.message(shown) == words + shown);
    assert(failure.message(other) == words + other);
    assert((words + shown).take(words.len() as int) == words);
    assert((words + other).take(words.len() as int) == words);
    assert(shown == (words + shown).skip(words.len() as int));
}

} // verus!
