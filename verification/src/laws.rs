//! What holds of discovery as a whole.

use crate::discovery::Stage;
use crate::error::Failure;
use crate::filesystem::commondir_file;
use crate::filesystem::dot_git;
use crate::filesystem::lemma_advanced;
use crate::filesystem::lemma_discovered_step;
use crate::filesystem::lemma_nearest_unique;
use crate::filesystem::FileSystem;
use crate::filesystem::Outcome;
use crate::gitfile::gitdir_file;
use crate::gitfile::gitdir_value;
use crate::gitfile::law_path_file;
use crate::gitfile::law_worktree_file_holds_nothing_else;
use crate::gitfile::law_worktree_file_names_git_dir;
use crate::gitfile::path_file;
use crate::path::absolute;
use crate::path::ancestors;
use crate::path::components;
use crate::path::joined;
use crate::path::law_ancestors;
use crate::path::leading;
use crate::path::lemma_ancestor;
use crate::path::lemma_joined_components;
use crate::path::lemma_parent;
use crate::path::lemma_relative;
use crate::path::lemma_relative_of_any_joined;
use crate::path::lemma_relative_to_empty;
use crate::path::names;
use crate::path::parent_of;
use crate::path::relative_to;
use crate::path::without_leading;
use crate::path::without_tail;
use crate::text::blank;
use crate::text::lemma_trimmed;
use crate::text::tight;
use crate::worktree::GitWorktreeContext;
use crate::worktree::Worktree;
use vstd::prelude::*;
use vstd::std_specs::cmp::PartialEqSpec;
use vstd::utf8::encode_utf8;

verus! {

/// The number of answers after which a search at `stage` has surely ended.
pub open spec fn questions(stage: Stage) -> nat {
    match stage {
        Stage::ProbeDir { candidate } => 2 * ancestors(candidate).len() + 5,
        Stage::ProbeFile { candidate } => 2 * ancestors(candidate).len() + 4,
        Stage::ReadDotGit { candidate } => 5,
        Stage::ResolveGitDir { root, git_dir } => 4,
        Stage::ProbeCommonDir { root, git_dir } => 3,
        Stage::ReadCommonDir { root, git_dir } => 2,
        Stage::ResolveCommonDir { root, common_dir } => 1,
        Stage::Done(_) => 0,
    }
}

/// Every search ends, whatever it is answered: each answer leaves fewer
/// questions. The file system may change meanwhile.
pub proof fn law_every_answer_makes_progress(
    dir: Seq<u8>,
    other: Seq<u8>,
    yes: bool,
    text: Option<Seq<char>>,
    canonical: Option<Seq<u8>>,
)
    ensures
        questions(Stage::after_probe_dir(dir, yes)) < questions(Stage::ProbeDir { candidate: dir }),
        questions(Stage::after_probe_file(dir, yes)) < questions(
            Stage::ProbeFile { candidate: dir },
        ),
        questions(Stage::after_read_dot_git(dir, text)) < questions(
            Stage::ReadDotGit { candidate: dir },
        ),
        questions(Stage::after_resolve_git_dir(dir, other, canonical)) < questions(
            Stage::ResolveGitDir { root: dir, git_dir: other },
        ),
        questions(Stage::after_probe_common_dir(dir, other, yes)) < questions(
            Stage::ProbeCommonDir { root: dir, git_dir: other },
        ),
        questions(Stage::after_read_common_dir(dir, other, text)) < questions(
            Stage::ReadCommonDir { root: dir, git_dir: other },
        ),
        questions(Stage::after_resolve_common_dir(dir, other, canonical)) < questions(
            Stage::ResolveCommonDir { root: dir, common_dir: other },
        ),
{
}

/// A search that is answered by one file system ends, with the outcome of the
/// stage that it began at.
pub proof fn law_search_ends(fs: FileSystem, stage: Stage, steps: nat)
    requires
        steps >= questions(stage),
    ensures
        fs.run(stage, steps) == Stage::Done(fs.outcome(stage)),
    decreases steps,
{
    if steps > 0 {
        lemma_advanced(fs, stage);
        law_search_ends(fs, fs.advanced(stage), (steps - 1) as nat);
    }
}

/// Discovery from `cwd`, answered by one file system, finds the worktree that
/// `cwd` lies in. It asks at most two questions for each ancestor, and five more.
pub proof fn law_discovery_finds(fs: FileSystem, cwd: Seq<u8>, steps: nat)
    requires
        steps >= 2 * ancestors(cwd).len() + 5,
    ensures
        fs.run(Stage::ProbeDir { candidate: cwd }, steps) == Stage::Done(fs.discovered(cwd)),
{
    law_search_ends(fs, Stage::ProbeDir { candidate: cwd }, steps);
}

/// Discovery finds no worktree, and no failure, exactly where no ancestor of
/// `cwd` holds a `.git`.
pub proof fn law_none_outside_git(fs: FileSystem, cwd: Seq<u8>)
    ensures
        (fs.discovered(cwd) matches Ok(None)) <==> (forall|i: int|
            0 <= i < ancestors(cwd).len() ==> !fs.has_git(#[trigger] ancestors(cwd)[i])),
    decreases cwd.len(),
{
    let up = ancestors(cwd);
    lemma_discovered_step(fs, cwd);
    lemma_parent(cwd);
    assert(up[0] == cwd);
    if !fs.has_git(cwd) && parent_of(cwd) is Some {
        let parent = parent_of(cwd)->0;
        let above = ancestors(parent);
        law_none_outside_git(fs, parent);
        assert(forall|j: int| 0 < j < up.len() ==> up[j] == above[j - 1]);
        assert(forall|j: int| 0 <= j < above.len() ==> above[j] == up[j + 1]);
    }
}

/// The nearest ancestor that holds a `.git` decides. What it leads to is the
/// result, whatever lies above it.
pub proof fn law_nearest_ancestor_decides(fs: FileSystem, cwd: Seq<u8>, i: int)
    requires
        fs.is_nearest(cwd, i),
    ensures
        fs.discovered(cwd) == fs.of_root(ancestors(cwd)[i]),
        fs.discovered(cwd) matches Ok(Some(found)) ==> found.root == ancestors(cwd)[i],
{
    let k = choose|k: int| fs.is_nearest(cwd, k);
    lemma_nearest_unique(fs, cwd, i, k);
}

/// Every directory from `cwd` up to the root of its worktree lies in the same
/// worktree.
pub proof fn law_directories_share_worktree(fs: FileSystem, cwd: Seq<u8>, i: int, j: int)
    requires
        fs.is_nearest(cwd, i),
        0 <= j <= i,
    ensures
        fs.discovered(ancestors(cwd)[j]) == fs.discovered(cwd),
    decreases j,
{
    let up = ancestors(cwd);
    assert(up[0] == cwd);
    if j > 0 {
        assert(!fs.has_git(up[0]));
        lemma_discovered_step(fs, cwd);
        let parent = parent_of(cwd)->0;
        let above = ancestors(parent);
        assert(forall|m: int| 0 <= m < above.len() ==> up[m + 1] == above[m]);
        assert(up[i] == above[i - 1]);
        assert forall|m: int| 0 <= m < i - 1 implies !fs.has_git(#[trigger] above[m]) by {
            assert(!fs.has_git(up[m + 1]));
        }
        law_directories_share_worktree(fs, parent, i - 1, j - 1);
    }
}

/// A `.git` file that names no directory is a failure, and no reason to look
/// further up.
pub proof fn law_malformed_worktree_file_fails(fs: FileSystem, cwd: Seq<u8>, i: int)
    requires
        fs.is_nearest(cwd, i),
        !fs.dirs.contains(dot_git(ancestors(cwd)[i])),
        fs.text(dot_git(ancestors(cwd)[i])) matches Some(text) && gitdir_value(text) is None,
    ensures
        fs.discovered(cwd) matches Err(failure) && failure == Failure::MalformedWorktreeFile(
            dot_git(ancestors(cwd)[i]),
        ),
{
    law_nearest_ancestor_decides(fs, cwd, i);
}

/// The root of a discovered worktree is a prefix of `cwd`, as it was spelled.
/// `cwd` has a path relative to it, and that path leads from the root to `cwd`.
pub proof fn law_root_contains_cwd(fs: FileSystem, cwd: Seq<u8>)
    ensures
        fs.discovered(cwd) matches Ok(Some(found)) ==> {
            &&& found.root.is_prefix_of(cwd)
            &&& relative_to(cwd, found.root) matches Some(rest) && components(
                joined(found.root, rest),
            ) == components(cwd)
        },
{
    if exists|i: int| fs.is_nearest(cwd, i) {
        let i = choose|i: int| fs.is_nearest(cwd, i);
        let root = ancestors(cwd)[i];
        lemma_ancestor(cwd, i);
        assert(root.is_prefix_of(cwd));
        assert(components(root).is_prefix_of(components(cwd)));
        law_relative_path_rejoins(root, cwd);
    }
}

/// A relative path leads from the root to the path that it was taken of.
pub proof fn law_relative_path_rejoins(root: Seq<u8>, path: Seq<u8>)
    ensures
        relative_to(path, root) matches Some(rest) ==> components(joined(root, rest))
            == components(path),
{
    if relative_to(path, root) is Some {
        let rest = relative_to(path, root)->0;
        if root.len() == 0 {
            assert(root == Seq::<u8>::empty());
            lemma_relative_to_empty(path);
            assert(root + rest == rest);
        } else {
            lemma_relative(path, root);
            assert(!absolute(rest));
            lemma_joined_components(root, rest);
            assert(components(rest) == names(rest));
            let k = components(root).len() as int;
            let all = components(path);
            assert(all.take(k) + all.skip(k) == all);
            assert(components(root) == all.take(k));
        }
    }
}

/// A path below the root comes back as the path relative to it, spelled as it
/// was, from its first name to where its last component ends. Below the empty
/// root it keeps a `.` at its start.
pub proof fn law_joined_path_is_relative(root: Seq<u8>, below: Seq<u8>)
    requires
        !absolute(below),
    ensures
        relative_to(joined(root, below), root) == Some(
            if root.len() == 0 {
                without_tail(below)
            } else {
                without_tail(without_leading(below))
            },
        ),
{
    lemma_relative_of_any_joined(root, below);
}

/// The same path below two roots has the same path relative to each of them.
/// This leaves out a path that begins with `.`, below one root that is empty and
/// one that is not.
pub proof fn law_worktrees_share_relative_paths(a: Seq<u8>, b: Seq<u8>, below: Seq<u8>)
    requires
        !absolute(below),
        (a.len() == 0 <==> b.len() == 0) || leading(below).len() == 0,
    ensures
        relative_to(joined(a, below), a) is Some,
        relative_to(joined(a, below), a) == relative_to(joined(b, below), b),
{
    lemma_relative_of_any_joined(a, below);
    lemma_relative_of_any_joined(b, below);
}

/// The root itself has the empty path.
pub proof fn law_root_is_empty_path(root: Seq<u8>)
    ensures
        relative_to(root, root) == Some(Seq::<u8>::empty()),
{
}

/// Spelling does not decide what lies in a worktree. Two paths with the same
/// components lie below the same roots, and so do the paths relative to them.
pub proof fn law_spelling_does_not_decide(root: Seq<u8>, a: Seq<u8>, b: Seq<u8>)
    requires
        components(a) == components(b),
    ensures
        match (relative_to(a, root), relative_to(b, root)) {
            (Some(x), Some(y)) => components(x) == components(y),
            (None, None) => true,
            _ => false,
        },
{
    if root.len() == 0 {
        assert(root == Seq::<u8>::empty());
        lemma_relative_to_empty(a);
        lemma_relative_to_empty(b);
    } else {
        lemma_relative(a, root);
        lemma_relative(b, root);
    }
}

/// A path in a file stands for itself if it is absolute. Else it continues the
/// path of a directory.
pub proof fn law_absolute_path_stands(base: Seq<u8>, path: Seq<u8>)
    ensures
        absolute(path) ==> joined(base, path) == path,
        !absolute(path) ==> base.is_prefix_of(joined(base, path)),
{
}

/// A `.git` file that holds `gitdir:` and a path names that path, with any white
/// space around each of the two.
pub proof fn law_gitdir_file_names_path(
    before: Seq<char>,
    between: Seq<char>,
    path: Seq<char>,
    after: Seq<char>,
)
    requires
        blank(before),
        blank(between),
        blank(after),
        tight(path),
    ensures
        gitdir_value(before + "gitdir:"@ + between + path + after) == Some(path),
{
    law_worktree_file_names_git_dir(Seq::empty(), before, between, path, after);
}

/// A file that holds a path names that path, with any white space around it.
pub proof fn law_path_file_names_path(
    file: Seq<u8>,
    kind: Seq<char>,
    before: Seq<char>,
    path: Seq<char>,
    after: Seq<char>,
)
    requires
        blank(before),
        blank(after),
        tight(path),
    ensures
        path_file(file, kind, Some(before + path + after)) matches Ok(held) && held
            == encode_utf8(path),
{
    lemma_trimmed(before, path, after);
}

/// The common directory of a worktree is what the file system gave as the
/// canonical path of something.
pub proof fn law_common_dir_is_resolved(
    fs: FileSystem,
    root: Seq<u8>,
    git_dir: Seq<u8>,
    cwd: Seq<u8>,
)
    ensures
        fs.of_git_dir(root, git_dir) matches Ok(Some(found)) ==> exists|p: Seq<u8>|
            fs.resolved(p) == Some(found.common_dir),
        fs.discovered(cwd) matches Ok(Some(found)) ==> exists|p: Seq<u8>|
            fs.resolved(p) == Some(found.common_dir),
{
}

/// The common directory of a worktree is absolute, and its own canonical path.
pub proof fn law_common_dir_is_canonical(
    fs: FileSystem,
    root: Seq<u8>,
    git_dir: Seq<u8>,
    cwd: Seq<u8>,
)
    requires
        fs.valid(),
    ensures
        fs.of_git_dir(root, git_dir) matches Ok(Some(found)) ==> absolute(found.common_dir)
            && fs.resolved(found.common_dir) == Some(found.common_dir),
        fs.discovered(cwd) matches Ok(Some(found)) ==> absolute(found.common_dir) && fs.resolved(
            found.common_dir,
        ) == Some(found.common_dir),
{
}

/// Two worktrees have one common directory exactly where what they name as such
/// has one canonical path.
pub proof fn law_common_dir_identifies_repository(
    fs: FileSystem,
    root: Seq<u8>,
    git_dir: Seq<u8>,
    other_root: Seq<u8>,
    other_git_dir: Seq<u8>,
)
    ensures
        match (fs.of_git_dir(root, git_dir), fs.of_git_dir(other_root, other_git_dir)) {
            (Ok(Some(a)), Ok(Some(b))) => a.common_dir == b.common_dir <==> fs.resolved(
                fs.common_path(fs.resolved(git_dir)->0)->Ok_0,
            ) == fs.resolved(fs.common_path(fs.resolved(other_git_dir)->0)->Ok_0),
            _ => true,
        },
{
}

/// A worktree that is linked to a repository shares its common directory with
/// the main worktree. `main` holds `.git` as a directory, with the canonical path
/// `common`. `linked` holds a `.git` file that leads to `git_dir`, and the
/// `commondir` file there leads back to `common`.
pub proof fn law_linked_worktree_shares_common_dir(
    fs: FileSystem,
    main: Seq<u8>,
    linked: Seq<u8>,
    git_dir: Seq<u8>,
    common: Seq<u8>,
)
    requires
        fs.valid(),
        fs.dirs.contains(dot_git(main)),
        fs.resolved(dot_git(main)) == Some(common),
        !fs.files.contains(commondir_file(common)),
        !fs.dirs.contains(dot_git(linked)),
        fs.files.contains(dot_git(linked)),
        gitdir_file(dot_git(linked), fs.text(dot_git(linked))) matches Ok(path) && fs.resolved(
            joined(linked, path),
        ) == Some(git_dir),
        fs.files.contains(commondir_file(git_dir)),
        fs.common_path(git_dir) matches Ok(path) && fs.resolved(path) == Some(common),
    ensures
        fs.discovered(main) matches Ok(Some(found)) && found == (Worktree {
            root: main,
            common_dir: common,
        }),
        fs.discovered(linked) matches Ok(Some(found)) && found == (Worktree {
            root: linked,
            common_dir: common,
        }),
{
    lemma_discovered_step(fs, main);
    lemma_discovered_step(fs, linked);
}

/// Two repositories with a `.git` directory each, neither of which leads
/// elsewhere, share nothing unless the two directories are the same.
pub proof fn law_independent_clones_share_nothing(
    fs: FileSystem,
    a: Seq<u8>,
    b: Seq<u8>,
    a_common: Seq<u8>,
    b_common: Seq<u8>,
)
    requires
        fs.valid(),
        fs.dirs.contains(dot_git(a)),
        fs.dirs.contains(dot_git(b)),
        fs.resolved(dot_git(a)) == Some(a_common),
        fs.resolved(dot_git(b)) == Some(b_common),
        !fs.files.contains(commondir_file(a_common)),
        !fs.files.contains(commondir_file(b_common)),
        a_common != b_common,
    ensures
        match (fs.discovered(a), fs.discovered(b)) {
            (Ok(Some(x)), Ok(Some(y))) => x.common_dir != y.common_dir,
            _ => false,
        },
{
    lemma_discovered_step(fs, a);
    lemma_discovered_step(fs, b);
}

/// A Git directory without a canonical path is a failure. One with a canonical
/// path that holds no `commondir` file is itself the common directory.
pub proof fn law_git_dir_is_resolved(fs: FileSystem, root: Seq<u8>, git_dir: Seq<u8>)
    ensures
        !fs.canonical.dom().contains(git_dir) ==> fs.of_git_dir(root, git_dir) == Outcome::Err(
            Failure::ResolveGitDirectory(git_dir),
        ),
        fs.canonical.dom().contains(git_dir) && !fs.files.contains(
            joined(fs.canonical[git_dir], encode_utf8("commondir"@)),
        ) ==> {
            let common = fs.canonical[git_dir];
            &&& fs.canonical.dom().contains(common) ==> fs.of_git_dir(root, git_dir) == Outcome::Ok(
                Some(Worktree { root, common_dir: fs.canonical[common] }),
            )
            &&& !fs.canonical.dom().contains(common) ==> fs.of_git_dir(root, git_dir)
                == Outcome::Err(Failure::ResolveCommonDirectory(common))
        },
{
}

/// The path in the `commondir` file of a Git directory leads to the common
/// directory, from the canonical path of the Git directory unless it is absolute.
/// White space around it does not matter. A path that has no canonical spelling is
/// a failure.
pub proof fn law_commondir_file_names_common_dir(
    fs: FileSystem,
    root: Seq<u8>,
    git_dir: Seq<u8>,
    before: Seq<char>,
    path: Seq<char>,
    after: Seq<char>,
)
    requires
        blank(before),
        blank(after),
        tight(path),
        fs.canonical.dom().contains(git_dir),
        fs.files.contains(joined(fs.canonical[git_dir], encode_utf8("commondir"@))),
        fs.texts.dom().contains(joined(fs.canonical[git_dir], encode_utf8("commondir"@))),
        fs.texts[joined(fs.canonical[git_dir], encode_utf8("commondir"@))] == before + path + after,
    ensures
        fs.canonical.dom().contains(joined(fs.canonical[git_dir], encode_utf8(path)))
            ==> fs.of_git_dir(root, git_dir) == Outcome::Ok(
            Some(
                Worktree {
                    root,
                    common_dir: fs.canonical[joined(fs.canonical[git_dir], encode_utf8(path))],
                },
            ),
        ),
        !fs.canonical.dom().contains(joined(fs.canonical[git_dir], encode_utf8(path)))
            ==> fs.of_git_dir(root, git_dir) == Outcome::Err(
            Failure::ResolveCommonDirectory(joined(fs.canonical[git_dir], encode_utf8(path))),
        ),
{
    law_path_file(
        joined(fs.canonical[git_dir], encode_utf8("commondir"@)),
        "commondir"@,
        before,
        path,
        after,
    );
}

/// A `commondir` file that cannot be read, or that holds white space alone, is a
/// failure.
pub proof fn law_commondir_file_must_hold_path(fs: FileSystem, root: Seq<u8>, git_dir: Seq<u8>)
    requires
        fs.canonical.dom().contains(git_dir),
        fs.files.contains(joined(fs.canonical[git_dir], encode_utf8("commondir"@))),
    ensures
        ({
            let file = joined(fs.canonical[git_dir], encode_utf8("commondir"@));
            &&& !fs.texts.dom().contains(file) ==> fs.of_git_dir(root, git_dir) == Outcome::Err(
                Failure::ReadPathFile("commondir"@, file),
            )
            &&& fs.texts.dom().contains(file) && blank(fs.texts[file]) ==> fs.of_git_dir(
                root,
                git_dir,
            ) == Outcome::Err(Failure::EmptyPathFile("commondir"@, file))
        }),
{
    let file = joined(fs.canonical[git_dir], encode_utf8("commondir"@));
    if fs.texts.dom().contains(file) && blank(fs.texts[file]) {
        law_path_file(file, "commondir"@, fs.texts[file], Seq::empty(), Seq::empty());
    }
}

/// Discovery finds no worktree, and no failure, exactly where none of the
/// ancestors has a `.git` that is a directory or a file.
pub proof fn law_none_without_dot_git(fs: FileSystem, cwd: Seq<u8>)
    ensures
        fs.discovered(cwd) == Outcome::Ok(None) <==> (forall|i: int|
            0 <= i < ancestors(cwd).len() ==> !fs.dirs.contains(
                joined(#[trigger] ancestors(cwd)[i], encode_utf8(".git"@)),
            ) && !fs.files.contains(joined(ancestors(cwd)[i], encode_utf8(".git"@)))),
{
    let up = ancestors(cwd);
    law_none_outside_git(fs, cwd);
    if fs.discovered(cwd) == Outcome::Ok(None) {
        assert forall|i: int| 0 <= i < up.len() implies !fs.dirs.contains(
            joined(#[trigger] up[i], encode_utf8(".git"@)),
        ) && !fs.files.contains(joined(up[i], encode_utf8(".git"@))) by {
            assert(!fs.has_git(up[i]));
        }
    }
}

proof fn lemma_is_nearest(fs: FileSystem, cwd: Seq<u8>, i: int)
    requires
        0 <= i < ancestors(cwd).len(),
        fs.dirs.contains(joined(ancestors(cwd)[i], encode_utf8(".git"@))) || fs.files.contains(
            joined(ancestors(cwd)[i], encode_utf8(".git"@)),
        ),
        forall|j: int|
            0 <= j < i ==> !fs.dirs.contains(
                joined(#[trigger] ancestors(cwd)[j], encode_utf8(".git"@)),
            ) && !fs.files.contains(joined(ancestors(cwd)[j], encode_utf8(".git"@))),
    ensures
        fs.discovered(cwd) == fs.of_root(ancestors(cwd)[i]),
{
    assert(fs.is_nearest(cwd, i));
    law_nearest_ancestor_decides(fs, cwd, i);
}

/// The nearest ancestor that has a `.git` directory is the root of the worktree,
/// and that directory is its Git directory. A `.git` file beside it is not looked
/// at.
pub proof fn law_git_directory_makes_worktree(fs: FileSystem, cwd: Seq<u8>, i: int)
    requires
        0 <= i < ancestors(cwd).len(),
        fs.dirs.contains(joined(ancestors(cwd)[i], encode_utf8(".git"@))),
        forall|j: int|
            0 <= j < i ==> !fs.dirs.contains(
                joined(#[trigger] ancestors(cwd)[j], encode_utf8(".git"@)),
            ) && !fs.files.contains(joined(ancestors(cwd)[j], encode_utf8(".git"@))),
    ensures
        fs.discovered(cwd) == fs.of_git_dir(
            ancestors(cwd)[i],
            joined(ancestors(cwd)[i], encode_utf8(".git"@)),
        ),
{
    lemma_is_nearest(fs, cwd, i);
}

/// The nearest ancestor that has a `.git` file is the root of the worktree. The
/// path in the file leads to its Git directory, from the root unless it is
/// absolute.
pub proof fn law_git_file_makes_worktree(
    fs: FileSystem,
    cwd: Seq<u8>,
    i: int,
    before: Seq<char>,
    between: Seq<char>,
    path: Seq<char>,
    after: Seq<char>,
)
    requires
        blank(before),
        blank(between),
        blank(after),
        tight(path),
        0 <= i < ancestors(cwd).len(),
        !fs.dirs.contains(joined(ancestors(cwd)[i], encode_utf8(".git"@))),
        fs.files.contains(joined(ancestors(cwd)[i], encode_utf8(".git"@))),
        fs.texts.dom().contains(joined(ancestors(cwd)[i], encode_utf8(".git"@))),
        fs.texts[joined(ancestors(cwd)[i], encode_utf8(".git"@))] == before + "gitdir:"@ + between
            + path + after,
        forall|j: int|
            0 <= j < i ==> !fs.dirs.contains(
                joined(#[trigger] ancestors(cwd)[j], encode_utf8(".git"@)),
            ) && !fs.files.contains(joined(ancestors(cwd)[j], encode_utf8(".git"@))),
    ensures
        fs.discovered(cwd) == fs.of_git_dir(
            ancestors(cwd)[i],
            joined(ancestors(cwd)[i], encode_utf8(path)),
        ),
{
    lemma_is_nearest(fs, cwd, i);
    law_worktree_file_names_git_dir(
        joined(ancestors(cwd)[i], encode_utf8(".git"@)),
        before,
        between,
        path,
        after,
    );
}

/// Where the nearest `.git` is a file that cannot be read, discovery fails. So it
/// does where the file is anything but `gitdir:` and a path, with white space
/// around each of the two. Nothing further up is looked at.
pub proof fn law_other_git_file_fails(fs: FileSystem, cwd: Seq<u8>, i: int)
    requires
        0 <= i < ancestors(cwd).len(),
        !fs.dirs.contains(joined(ancestors(cwd)[i], encode_utf8(".git"@))),
        fs.files.contains(joined(ancestors(cwd)[i], encode_utf8(".git"@))),
        forall|j: int|
            0 <= j < i ==> !fs.dirs.contains(
                joined(#[trigger] ancestors(cwd)[j], encode_utf8(".git"@)),
            ) && !fs.files.contains(joined(ancestors(cwd)[j], encode_utf8(".git"@))),
    ensures
        ({
            let file = joined(ancestors(cwd)[i], encode_utf8(".git"@));
            &&& !fs.texts.dom().contains(file) ==> fs.discovered(cwd) == Outcome::Err(
                Failure::ReadWorktreeFile(file),
            )
            &&& fs.texts.dom().contains(file) && !(exists|
                before: Seq<char>,
                between: Seq<char>,
                path: Seq<char>,
                after: Seq<char>,
            |
                blank(before) && blank(between) && blank(after) && tight(path) && fs.texts[file]
                    == #[trigger] (before + "gitdir:"@ + between + path + after))
                ==> fs.discovered(cwd) == Outcome::Err(Failure::MalformedWorktreeFile(file))
        }),
{
    let file = joined(ancestors(cwd)[i], encode_utf8(".git"@));
    lemma_is_nearest(fs, cwd, i);
    law_worktree_file_holds_nothing_else(file, fs.texts[file]);
}

/// A linked worktree has the common directory that its `commondir` file names.
/// The nearest ancestor with a `.git` holds it as a file, with `gitdir:` and
/// `named` in it. That leads to the Git directory, and the `commondir` file there
/// holds `path`.
pub proof fn law_linked_worktree_has_common_dir(
    fs: FileSystem,
    cwd: Seq<u8>,
    i: int,
    named: Seq<char>,
    path: Seq<char>,
    blanks: Seq<Seq<char>>,
)
    requires
        blanks.len() == 5,
        forall|j: int| 0 <= j < 5 ==> blank(#[trigger] blanks[j]),
        tight(named),
        tight(path),
        0 <= i < ancestors(cwd).len(),
        forall|j: int|
            0 <= j < i ==> !fs.dirs.contains(
                joined(#[trigger] ancestors(cwd)[j], encode_utf8(".git"@)),
            ) && !fs.files.contains(joined(ancestors(cwd)[j], encode_utf8(".git"@))),
        ({
            let root = ancestors(cwd)[i];
            let git_file = joined(root, encode_utf8(".git"@));
            let git_dir = fs.canonical[joined(root, encode_utf8(named))];
            let common_file = joined(git_dir, encode_utf8("commondir"@));
            &&& !fs.dirs.contains(git_file)
            &&& fs.files.contains(git_file)
            &&& fs.texts.dom().contains(git_file)
            &&& fs.texts[git_file] == blanks[0] + "gitdir:"@ + blanks[1] + named + blanks[2]
            &&& fs.canonical.dom().contains(joined(root, encode_utf8(named)))
            &&& fs.files.contains(common_file)
            &&& fs.texts.dom().contains(common_file)
            &&& fs.texts[common_file] == blanks[3] + path + blanks[4]
            &&& fs.canonical.dom().contains(joined(git_dir, encode_utf8(path)))
        }),
    ensures
        fs.discovered(cwd) matches Ok(Some(found)) && found.root == ancestors(cwd)[i]
            && found.common_dir == fs.canonical[joined(
            fs.canonical[joined(ancestors(cwd)[i], encode_utf8(named))],
            encode_utf8(path),
        )],
{
    let root = ancestors(cwd)[i];
    assert(forall|j: int| 0 <= j < 5 ==> blank(#[trigger] blanks[j]));
    law_git_file_makes_worktree(fs, cwd, i, blanks[0], blanks[1], named, blanks[2]);
    law_commondir_file_names_common_dir(
        fs,
        root,
        joined(root, encode_utf8(named)),
        blanks[3],
        path,
        blanks[4],
    );
}

/// Wherever a `.git` stands above `cwd`, discovery looks as far up as that: each
/// run of leading components of `cwd` belongs to one of the ancestors, down to the
/// root or to the empty path. A `.git` there is not passed over in silence.
pub proof fn law_git_at_any_height_is_met(fs: FileSystem, cwd: Seq<u8>, k: int)
    requires
        0 <= k <= components(cwd).len(),
        absolute(cwd) ==> k > 0,
    ensures
        exists|i: int|
            {
                &&& 0 <= i < ancestors(cwd).len()
                &&& components(#[trigger] ancestors(cwd)[i]) == components(cwd).take(k)
                &&& ancestors(cwd)[i].is_prefix_of(cwd)
                &&& fs.dirs.contains(joined(ancestors(cwd)[i], encode_utf8(".git"@)))
                    || fs.files.contains(joined(ancestors(cwd)[i], encode_utf8(".git"@)))
                    ==> fs.discovered(cwd) != Outcome::Ok(None)
            },
{
    law_ancestors(cwd);
    law_none_without_dot_git(fs, cwd);
    let i = components(cwd).len() - k;
    assert(components(ancestors(cwd)[i]) == components(cwd).take(k));
}

/// Two contexts are equal exactly where their roots have the same components and
/// their common directories have the same components. That is symmetric and
/// transitive, and every context is equal to itself.
pub proof fn law_equal_contexts(
    a: GitWorktreeContext,
    b: GitWorktreeContext,
    c: GitWorktreeContext,
)
    ensures
        GitWorktreeContext::obeys_eq_spec(),
        a.eq_spec(&b) <==> components(a@.root) == components(b@.root) && components(a@.common_dir)
            == components(b@.common_dir),
        a.eq_spec(&a),
        a.eq_spec(&b) <==> b.eq_spec(&a),
        a.eq_spec(&b) && b.eq_spec(&c) ==> a.eq_spec(&c),
{
}

/// Two worktrees with different roots are not equal, though they share the common
/// directory of one repository. Nor are two repositories, though found at one root.
pub proof fn law_distinct_worktrees_differ(a: GitWorktreeContext, b: GitWorktreeContext)
    ensures
        components(a@.root) != components(b@.root) ==> !a.eq_spec(&b),
        components(a@.common_dir) != components(b@.common_dir) ==> !a.eq_spec(&b),
{
}

} // verus!
