//! The search, driven by a file system that is written down.

use git_worktree::discovery::{
    ProbeCommonDir, ProbeDir, ProbeFile, ReadCommonDir, ReadDotGit, ResolveCommonDir,
    ResolveGitDir, Step,
};
use git_worktree::error::DiscoverError;
use git_worktree::path::{is_absolute, join, parent};
use git_worktree::worktree::GitWorktreeContext;

#[derive(Default)]
struct Disk {
    dirs: Vec<&'static str>,
    files: Vec<(&'static str, Option<&'static str>)>,
    canonical: Vec<(&'static str, &'static str)>,
}

type Found = Result<Option<GitWorktreeContext>, DiscoverError>;

impl Disk {
    fn is_dir(&self, path: &[u8]) -> bool {
        self.dirs.iter().any(|dir| dir.as_bytes() == path)
    }

    fn is_file(&self, path: &[u8]) -> bool {
        self.files.iter().any(|(file, _)| file.as_bytes() == path)
    }

    fn text(&self, path: &[u8]) -> Option<&'static str> {
        self.files
            .iter()
            .find(|(file, _)| file.as_bytes() == path)
            .and_then(|(_, text)| *text)
    }

    fn resolved(&self, path: &[u8]) -> Option<Vec<u8>> {
        self.canonical
            .iter()
            .find(|(spelling, _)| spelling.as_bytes() == path)
            .map(|(_, canonical)| canonical.as_bytes().to_vec())
    }

    fn search(&self, cwd: &str) -> (Found, usize) {
        let mut step = GitWorktreeContext::discover(cwd.as_bytes());
        let mut questions = 0;
        loop {
            step = match step {
                Step::ProbeDir(ask) => {
                    let answer = self.is_dir(&ask.path());
                    ask.reply(answer)
                }
                Step::ProbeFile(ask) => {
                    let answer = self.is_file(&ask.path());
                    ask.reply(answer)
                }
                Step::ReadDotGit(ask) => {
                    let answer = self.text(&ask.path());
                    ask.reply(answer)
                }
                Step::ResolveGitDir(ask) => {
                    let answer = self.resolved(&ask.path());
                    ask.reply(answer)
                }
                Step::ProbeCommonDir(ask) => {
                    let answer = self.is_file(&ask.path());
                    ask.reply(answer)
                }
                Step::ReadCommonDir(ask) => {
                    let answer = self.text(&ask.path());
                    ask.reply(answer)
                }
                Step::ResolveCommonDir(ask) => {
                    let answer = self.resolved(&ask.path());
                    ask.reply(answer)
                }
                Step::Done(result) => return (result, questions),
            };
            questions += 1;
        }
    }

    fn discover(&self, cwd: &str) -> Found {
        self.search(cwd).0
    }

    fn context(&self, cwd: &str) -> GitWorktreeContext {
        self.discover(cwd).expect("no failure").expect("a worktree")
    }
}

/// A repository at `/m`, a worktree at `/l` that is linked to it, another
/// repository at `/o`, and a directory `/b` with a broken `.git` below `/`,
/// which is a repository as well.
fn disk() -> Disk {
    Disk {
        dirs: vec!["/m/.git", "/o/.git", "/.git"],
        files: vec![
            ("/l/.git", Some("gitdir: ../m/.git/worktrees/l\n")),
            ("/m/.git/worktrees/l/commondir", Some("../..\n")),
            ("/b/.git", Some("nothing")),
        ],
        canonical: vec![
            ("/m/.git", "/m/.git"),
            ("/l/../m/.git/worktrees/l", "/m/.git/worktrees/l"),
            ("/m/.git/worktrees/l/../..", "/m/.git"),
            ("/o/.git", "/o/.git"),
            ("/.git", "/.git"),
        ],
    }
}

#[test]
fn linked_worktrees_belong_to_one_repository() {
    let disk = disk();
    assert_eq!(disk.context("/m").root(), b"/m");
    assert_eq!(disk.context("/l/src").root(), b"/l");
    assert_eq!(disk.context("/m").common_dir(), b"/m/.git");
    assert_eq!(disk.context("/l/src").common_dir(), b"/m/.git");
}

#[test]
fn other_repositories_share_nothing() {
    let disk = disk();
    assert_ne!(disk.context("/m").common_dir(), disk.context("/o").common_dir());
    assert_ne!(disk.context("/l").common_dir(), disk.context("/o").common_dir());
}

#[test]
fn nearest_ancestor_decides() {
    let disk = disk();
    assert_eq!(disk.context("/x/y").root(), b"/");
    assert_eq!(disk.context("/o/x/y").root(), b"/o");
    assert_eq!(disk.discover("/o/x/y"), disk.discover("/o"));
}

#[test]
fn broken_worktree_file_does_not_lead_further_up() {
    assert_eq!(
        disk().discover("/b/x"),
        Err(DiscoverError::MalformedWorktreeFile(b"/b/.git".to_vec()))
    );
}

#[test]
fn nothing_is_found_where_no_ancestor_holds_git() {
    assert_eq!(Disk::default().discover("/a/b"), Ok(None));
    assert_eq!(Disk::default().discover("a/b"), Ok(None));
    assert_eq!(Disk::default().discover(""), Ok(None));
}

#[test]
fn relative_directories_are_searched_up_to_the_empty_path() {
    let disk = Disk {
        dirs: vec![".git"],
        files: vec![],
        canonical: vec![(".git", "/w/.git"), ("/w/.git", "/w/.git")],
    };
    let context = disk.context("a/b");
    assert_eq!(context.root(), b"");
    assert_eq!(context.relative_path(b"a//b/"), Some(b"a//b".as_slice()));
}

#[test]
fn search_ends_after_a_bounded_number_of_questions() {
    let disk = disk();
    for cwd in ["/", "/m", "/l/a/b/c", "/x/y", "/b/x", "/o/./z"] {
        let mut ancestors = 1;
        let mut at = cwd.as_bytes();
        while let Some(up) = parent(at) {
            ancestors += 1;
            at = up;
        }
        assert!(disk.search(cwd).1 <= 2 * ancestors + 5, "{cwd}");
    }
    assert_eq!(disk.search("/l").1, 7);
    assert_eq!(Disk::default().search("/a/b").1, 6);
}

#[test]
fn each_answer_leads_to_the_next_question() {
    let w = || b"/w".to_vec();
    let g = || b"/g".to_vec();
    let ask = || ProbeDir { candidate: w() };
    assert_eq!(GitWorktreeContext::discover(b"/w"), Step::ProbeDir(ask()));
    assert_eq!(ask().path(), b"/w/.git");
    assert_eq!(
        ask().reply(true),
        Step::ResolveGitDir(ResolveGitDir { root: w(), git_dir: b"/w/.git".to_vec() })
    );
    assert_eq!(ask().reply(false), Step::ProbeFile(ProbeFile { candidate: w() }));

    let ask = || ProbeFile { candidate: w() };
    assert_eq!(ask().path(), b"/w/.git");
    assert_eq!(ask().reply(true), Step::ReadDotGit(ReadDotGit { candidate: w() }));
    assert_eq!(ask().reply(false), Step::ProbeDir(ProbeDir { candidate: b"/".to_vec() }));
    assert_eq!(ProbeFile { candidate: b"/".to_vec() }.reply(false), Step::Done(Ok(None)));

    let ask = || ReadDotGit { candidate: w() };
    assert_eq!(ask().path(), b"/w/.git");
    assert_eq!(
        ask().reply(Some("gitdir: /g")),
        Step::ResolveGitDir(ResolveGitDir { root: w(), git_dir: g() })
    );
    assert_eq!(
        ask().reply(Some("gitdir: ../g")),
        Step::ResolveGitDir(ResolveGitDir { root: w(), git_dir: b"/w/../g".to_vec() })
    );
    assert_eq!(
        ask().reply(None),
        Step::Done(Err(DiscoverError::ReadWorktreeFile(b"/w/.git".to_vec())))
    );

    let ask = || ResolveGitDir { root: w(), git_dir: b"g".to_vec() };
    assert_eq!(ask().path(), b"g");
    assert_eq!(
        ask().reply(Some(g())),
        Step::ProbeCommonDir(ProbeCommonDir { root: w(), git_dir: g() })
    );
    assert_eq!(
        ask().reply(None),
        Step::Done(Err(DiscoverError::ResolveGitDirectory(b"g".to_vec())))
    );

    let ask = || ProbeCommonDir { root: w(), git_dir: g() };
    assert_eq!(ask().path(), b"/g/commondir");
    assert_eq!(
        ask().reply(true),
        Step::ReadCommonDir(ReadCommonDir { root: w(), git_dir: g() })
    );
    assert_eq!(
        ask().reply(false),
        Step::ResolveCommonDir(ResolveCommonDir { root: w(), common_dir: g() })
    );

    let ask = || ReadCommonDir { root: w(), git_dir: g() };
    assert_eq!(ask().path(), b"/g/commondir");
    assert_eq!(
        ask().reply(Some("..\n")),
        Step::ResolveCommonDir(ResolveCommonDir { root: w(), common_dir: b"/g/..".to_vec() })
    );
    assert_eq!(
        ask().reply(Some("/c")),
        Step::ResolveCommonDir(ResolveCommonDir { root: w(), common_dir: b"/c".to_vec() })
    );
    let file = || b"/g/commondir".to_vec();
    let kind = || "commondir".to_string();
    assert_eq!(
        ask().reply(Some("")),
        Step::Done(Err(DiscoverError::EmptyPathFile(kind(), file())))
    );
    assert_eq!(
        ask().reply(None),
        Step::Done(Err(DiscoverError::ReadPathFile(kind(), file())))
    );

    let ask = || ResolveCommonDir { root: w(), common_dir: g() };
    assert_eq!(ask().path(), b"/g");
    assert_eq!(
        ask().reply(None),
        Step::Done(Err(DiscoverError::ResolveCommonDirectory(g())))
    );
    match ask().reply(Some(b"/c".to_vec())) {
        Step::Done(Ok(Some(context))) => {
            assert_eq!(context.root(), b"/w");
            assert_eq!(context.common_dir(), b"/c");
        }
        other => panic!("{other:?}"),
    }
}

#[test]
fn relative_paths_lead_back_to_the_path() {
    let context = disk().context("/m/crates/example");
    let nested = b"/m/crates/example".as_slice();
    assert_eq!(context.relative_path(nested), Some(b"crates/example".as_slice()));
    assert_eq!(join(context.root(), b"crates/example"), nested);
    assert_eq!(context.relative_path(&join(context.root(), b"a/../b")), Some(b"a/../b".as_slice()));
    assert_eq!(context.relative_path(&join(context.root(), b"./a")), Some(b"a".as_slice()));
    assert_eq!(context.relative_path(b"/m"), Some(b"".as_slice()));
    assert_eq!(context.relative_path(b"//m/./x//y/."), Some(b"x//y".as_slice()));
}

#[test]
fn linked_worktrees_have_the_same_relative_paths() {
    let main = disk().context("/m");
    let linked = disk().context("/l");
    for below in ["src/lib.rs", "a//b/.", "..", "", ".", "./a", ".//./a/", "././"] {
        let in_main = join(main.root(), below.as_bytes());
        let in_linked = join(linked.root(), below.as_bytes());
        let relative = main.relative_path(&in_main);
        assert!(relative.is_some(), "{below}");
        assert_eq!(relative, linked.relative_path(&in_linked), "{below}");
    }
    assert_eq!(linked.relative_path(b"/l/a//b/."), Some(b"a//b".as_slice()));
    assert_eq!(linked.relative_path(b"/l/.//./a//b/"), Some(b"a//b".as_slice()));
    assert_eq!(linked.relative_path(b"/l/././"), Some(b"".as_slice()));
}

fn context(root: &str, common_dir: &str) -> GitWorktreeContext {
    let ask = ResolveCommonDir { root: root.as_bytes().to_vec(), common_dir: vec![] };
    match ask.reply(Some(common_dir.as_bytes().to_vec())) {
        Step::Done(Ok(Some(context))) => context,
        other => panic!("{other:?}"),
    }
}

#[test]
fn equal_contexts_may_be_spelled_differently() {
    let repo = context("/repo", "/repo/.git");
    assert_eq!(repo, context("/repo/", "/repo/.git"));
    assert_eq!(repo, context("//repo/.", "/repo//.git/"));
    assert_ne!(repo, context("/repo/..", "/repo/.git"));
    assert_ne!(repo, context("repo", "/repo/.git"));
    assert_ne!(repo, context("/repo", "/other/.git"));

    let disk = Disk {
        dirs: vec!["/repo/.git"],
        files: vec![],
        canonical: vec![("/repo/.git", "/repo/.git")],
    };
    assert_eq!(disk.context("/repo/").root(), b"/repo/");
    assert_eq!(disk.context("/repo/src").root(), b"/repo");
    assert_eq!(disk.context("/repo/"), disk.context("/repo/src"));
}

#[test]
fn common_directory_is_canonical() {
    let disk = disk();
    for cwd in ["/m", "/l/src", "/o", "/x"] {
        let context = disk.context(cwd);
        let common_dir = context.common_dir();
        assert!(is_absolute(common_dir), "{cwd}");
        assert_eq!(disk.resolved(common_dir).as_deref(), Some(common_dir), "{cwd}");
    }
}

#[test]
fn spelling_does_not_decide_what_lies_in_a_worktree() {
    let context = disk().context("/m");
    for spelling in ["/m/a/b", "//m/a/b", "/m//a/./b/", "/./m/a/b/."] {
        let relative = context.relative_path(spelling.as_bytes()).expect("inside");
        assert_eq!(std::path::Path::new("a/b"), std::str::from_utf8(relative).expect("text"));
    }
}

#[test]
fn paths_outside_the_worktree_have_no_relative_path() {
    let context = disk().context("/m");
    for outside in ["/", "/mm", "/mm/x", "/o/m", "m", "m/x", "", "/../m", "./m"] {
        assert_eq!(context.relative_path(outside.as_bytes()), None, "{outside}");
    }
}

#[test]
fn absolute_paths_replace_the_directory_they_are_joined_to() {
    assert_eq!(join(b"/w", b"/g/x"), b"/g/x");
    assert_eq!(join(b"/w", b"g/x"), b"/w/g/x");
    assert_eq!(join(b"/w/", b"g"), b"/w/g");
    assert_eq!(join(b"", b"g"), b"g");
}
