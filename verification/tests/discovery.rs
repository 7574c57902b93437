//! Discovery in real directories.

use anyhow::Result;
use fs_err as fs;
use git_worktree::discovery::Step;
use git_worktree::error::DiscoverError;
use git_worktree::worktree::GitWorktreeContext;
use std::path::{Path, PathBuf};

fn bytes(path: &Path) -> Vec<u8> {
    path.as_os_str().as_encoded_bytes().to_vec()
}

fn path(bytes: &[u8]) -> PathBuf {
    PathBuf::from(String::from_utf8(bytes.to_vec()).expect("a path in UTF-8"))
}

fn canonical(question: &[u8]) -> Option<Vec<u8>> {
    fs::canonicalize(path(question)).ok().map(|found| bytes(&found))
}

fn text(question: &[u8]) -> Option<String> {
    fs::read_to_string(path(question)).ok()
}

fn drive(first: Step) -> Result<Option<GitWorktreeContext>, DiscoverError> {
    let mut step = first;
    loop {
        step = match step {
            Step::ProbeDir(ask) => {
                let answer = path(&ask.path()).is_dir();
                ask.reply(answer)
            }
            Step::ProbeFile(ask) => {
                let answer = path(&ask.path()).is_file();
                ask.reply(answer)
            }
            Step::ReadDotGit(ask) => {
                let answer = text(&ask.path());
                ask.reply(answer.as_deref())
            }
            Step::ResolveGitDir(ask) => {
                let answer = canonical(&ask.path());
                ask.reply(answer)
            }
            Step::ProbeCommonDir(ask) => {
                let answer = path(&ask.path()).is_file();
                ask.reply(answer)
            }
            Step::ReadCommonDir(ask) => {
                let answer = text(&ask.path());
                ask.reply(answer.as_deref())
            }
            Step::ResolveCommonDir(ask) => {
                let answer = canonical(&ask.path());
                ask.reply(answer)
            }
            Step::Done(result) => return result,
        };
    }
}

fn discover(cwd: &Path) -> Result<Option<GitWorktreeContext>, DiscoverError> {
    drive(GitWorktreeContext::discover(&bytes(cwd)))
}

fn found(cwd: &Path) -> GitWorktreeContext {
    discover(cwd).expect("no failure").expect("Git context")
}

#[test]
fn discovers_main_worktree_from_nested_directory() -> Result<()> {
    let temp = tempfile::tempdir()?;
    let root = temp.path().join("repo");
    let nested = root.join("crates/example");
    fs::create_dir_all(root.join(".git"))?;
    fs::create_dir_all(&nested)?;

    let context = discover(&nested).expect("no failure").expect("Git context");
    assert_eq!(path(context.root()), root);
    assert_eq!(path(context.common_dir()), fs::canonicalize(root.join(".git"))?);
    assert_eq!(
        context.relative_path(&bytes(&nested)).map(path),
        Some(PathBuf::from("crates/example"))
    );
    Ok(())
}

#[test]
fn linked_worktrees_share_the_common_directory() -> Result<()> {
    let temp = tempfile::tempdir()?;
    let main = temp.path().join("main");
    let linked = temp.path().join("linked");
    let common = main.join(".git");
    let linked_git_dir = common.join("worktrees/linked");
    fs::create_dir_all(&linked_git_dir)?;
    fs::create_dir_all(&linked)?;
    fs::write(
        linked.join(".git"),
        format!("gitdir: {}\n", linked_git_dir.display()),
    )?;
    fs::write(linked_git_dir.join("commondir"), "../..\n")?;

    let context = discover(&linked).expect("no failure").expect("Git context");
    assert_eq!(path(context.root()), linked);
    assert_eq!(path(context.common_dir()), fs::canonicalize(&common)?);
    assert_eq!(found(&main).common_dir(), context.common_dir());
    Ok(())
}

#[test]
fn supports_relative_gitdir_paths() -> Result<()> {
    let temp = tempfile::tempdir()?;
    let root = temp.path().join("linked");
    let git_dir = temp.path().join("metadata/worktrees/linked");
    fs::create_dir_all(&root)?;
    fs::create_dir_all(&git_dir)?;
    fs::write(root.join(".git"), "gitdir: ../metadata/worktrees/linked\n")?;

    let context = discover(&root).expect("no failure").expect("Git context");
    assert_eq!(path(context.common_dir()), fs::canonicalize(&git_dir)?);
    Ok(())
}

#[test]
fn returns_none_outside_git() -> Result<()> {
    let temp = tempfile::tempdir()?;
    assert_eq!(discover(temp.path()), Ok(None));
    Ok(())
}

#[test]
fn rejects_malformed_gitdir_file() -> Result<()> {
    let temp = tempfile::tempdir()?;
    fs::write(temp.path().join(".git"), "not a gitdir\n")?;
    assert!(discover(temp.path()).is_err());
    assert_eq!(
        discover(temp.path()),
        Err(DiscoverError::MalformedWorktreeFile(bytes(&temp.path().join(".git"))))
    );
    Ok(())
}

#[test]
fn worktree_file_that_is_not_text_cannot_be_read() -> Result<()> {
    let temp = tempfile::tempdir()?;
    fs::write(temp.path().join(".git"), [0xff, 0xfe])?;
    assert_eq!(
        discover(temp.path()),
        Err(DiscoverError::ReadWorktreeFile(bytes(&temp.path().join(".git"))))
    );
    Ok(())
}

#[test]
fn missing_git_directory_cannot_be_resolved() -> Result<()> {
    let temp = tempfile::tempdir()?;
    fs::write(temp.path().join(".git"), "gitdir: missing")?;
    assert_eq!(
        discover(temp.path()),
        Err(DiscoverError::ResolveGitDirectory(bytes(&temp.path().join("missing"))))
    );
    Ok(())
}

#[test]
fn empty_commondir_file_fails() -> Result<()> {
    let temp = tempfile::tempdir()?;
    let git_dir = temp.path().join(".git");
    fs::create_dir_all(&git_dir)?;
    fs::write(git_dir.join("commondir"), " \n")?;
    assert_eq!(
        discover(temp.path()),
        Err(DiscoverError::EmptyPathFile(
            "commondir".to_string(),
            bytes(&fs::canonicalize(&git_dir)?.join("commondir"))
        ))
    );
    Ok(())
}

#[test]
fn missing_common_directory_cannot_be_resolved() -> Result<()> {
    let temp = tempfile::tempdir()?;
    let git_dir = temp.path().join(".git");
    fs::create_dir_all(&git_dir)?;
    fs::write(git_dir.join("commondir"), "gone")?;
    assert_eq!(
        discover(temp.path()),
        Err(DiscoverError::ResolveCommonDirectory(bytes(
            &fs::canonicalize(&git_dir)?.join("gone")
        )))
    );
    Ok(())
}

#[test]
fn inner_repository_hides_the_outer_one() -> Result<()> {
    let temp = tempfile::tempdir()?;
    let outer = temp.path().join("outer");
    let inner = outer.join("inner");
    let nested = inner.join("deep/down");
    fs::create_dir_all(outer.join(".git"))?;
    fs::create_dir_all(inner.join(".git"))?;
    fs::create_dir_all(&nested)?;

    assert_eq!(found(&nested), found(&inner));
    assert_eq!(path(found(&nested).root()), inner);
    assert_eq!(path(found(&outer).root()), outer);
    assert_ne!(found(&inner).common_dir(), found(&outer).common_dir());
    Ok(())
}

#[test]
fn root_keeps_the_spelling_of_the_directory() -> Result<()> {
    let temp = tempfile::tempdir()?;
    fs::create_dir_all(temp.path().join("a/.git"))?;
    let mut spelled = bytes(temp.path());
    spelled.extend_from_slice(b"//a/.");

    let context = drive(GitWorktreeContext::discover(&spelled))
        .expect("no failure")
        .expect("Git context");
    assert_eq!(context.root(), spelled.as_slice());
    assert_eq!(context.clone(), context);
    Ok(())
}

#[test]
fn a_known_git_directory_can_be_read_at_once() -> Result<()> {
    let temp = tempfile::tempdir()?;
    let git_dir = temp.path().join("elsewhere");
    fs::create_dir_all(&git_dir)?;

    let context = drive(GitWorktreeContext::from_git_dir(b"root", &bytes(&git_dir)))
        .expect("no failure")
        .expect("Git context");
    assert_eq!(context.root(), b"root");
    assert_eq!(path(context.common_dir()), fs::canonicalize(&git_dir)?);
    Ok(())
}
