//! The files that hold a path, and the words of each error.

use git_worktree::error::DiscoverError;
use git_worktree::gitfile::{read_gitdir_file, read_path_file};

const FILE: &[u8] = b"/w/.git";

fn gitdir(text: &str) -> Result<Vec<u8>, DiscoverError> {
    read_gitdir_file(FILE, Some(text))
}

fn malformed() -> Result<Vec<u8>, DiscoverError> {
    Err(DiscoverError::MalformedWorktreeFile(FILE.to_vec()))
}

#[test]
fn gitdir_file_names_the_git_directory() {
    assert_eq!(gitdir("gitdir: /main/.git/worktrees/w\n"), Ok(b"/main/.git/worktrees/w".to_vec()));
    assert_eq!(gitdir("gitdir:../x"), Ok(b"../x".to_vec()));
    assert_eq!(gitdir("\n\t gitdir:\u{3000}a b\u{a0}\r\n"), Ok(b"a b".to_vec()));
    assert_eq!(gitdir("gitdir: caf\u{e9}"), Ok("caf\u{e9}".as_bytes().to_vec()));
    assert_eq!(gitdir("gitdir: gitdir: x"), Ok(b"gitdir: x".to_vec()));
    assert_eq!(gitdir("gitdir: a\nb"), Ok(b"a\nb".to_vec()));
}

#[test]
fn other_texts_are_malformed() {
    for text in ["", " ", "gitdir", "gitdir:", "gitdir: \n", "GITDIR: x", "git dir: x", "x gitdir: y"] {
        assert_eq!(gitdir(text), malformed(), "{text}");
    }
}

#[test]
fn unreadable_gitdir_file_fails() {
    assert_eq!(
        read_gitdir_file(FILE, None),
        Err(DiscoverError::ReadWorktreeFile(FILE.to_vec()))
    );
}

#[test]
fn path_file_holds_a_path() {
    assert_eq!(read_path_file(b"f", "commondir", Some("../..\n")), Ok(b"../..".to_vec()));
    assert_eq!(read_path_file(b"f", "commondir", Some(" /a b ")), Ok(b"/a b".to_vec()));
    assert_eq!(
        read_path_file(b"f", "commondir", Some(" \t\n")),
        Err(DiscoverError::EmptyPathFile("commondir".to_string(), b"f".to_vec()))
    );
    assert_eq!(
        read_path_file(b"f", "other", None),
        Err(DiscoverError::ReadPathFile("other".to_string(), b"f".to_vec()))
    );
}

fn is_listed_white_space(c: char) -> bool {
    matches!(
        u32::from(c),
        0x09..=0x0d
            | 0x20
            | 0x85
            | 0xa0
            | 0x1680
            | 0x2000..=0x200a
            | 0x2028
            | 0x2029
            | 0x202f
            | 0x205f
            | 0x3000
    )
}

#[test]
fn every_white_space_character_is_trimmed() {
    for c in '\0'..=char::MAX {
        assert_eq!(c.is_whitespace(), is_listed_white_space(c), "{c:?}");
        let mut text = String::new();
        text.push(c);
        text.push('x');
        text.push(c);
        let expected = if is_listed_white_space(c) { "x" } else { &text };
        assert_eq!(
            read_path_file(b"f", "commondir", Some(&text)),
            Ok(expected.as_bytes().to_vec()),
            "{c:?}"
        );
    }
}

#[test]
fn errors_say_what_failed_and_where() {
    let file = || FILE.to_vec();
    let kind = || "commondir".to_string();
    let cases = [
        (
            DiscoverError::ReadWorktreeFile(file()),
            "Failed to read Git worktree file /w/.git",
        ),
        (
            DiscoverError::MalformedWorktreeFile(file()),
            "Malformed Git worktree file /w/.git",
        ),
        (
            DiscoverError::ResolveGitDirectory(file()),
            "Failed to resolve Git directory /w/.git",
        ),
        (
            DiscoverError::ReadPathFile(kind(), file()),
            "Failed to read Git commondir file /w/.git",
        ),
        (
            DiscoverError::EmptyPathFile(kind(), file()),
            "Empty Git commondir file /w/.git",
        ),
        (
            DiscoverError::ResolveCommonDirectory(file()),
            "Failed to resolve Git common directory /w/.git",
        ),
    ];
    for (error, words) in cases {
        assert_eq!(error.path(), FILE);
        assert_eq!(error.message("/w/.git"), words);
    }
}
