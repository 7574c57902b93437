//! The lexical operations on paths, held against those of the standard library.

use git_worktree::path::{is_absolute, join, parent, same_components, strip_prefix};
use std::path::Path;

fn spellings(alphabet: &str, length: usize) -> Vec<String> {
    let mut all = vec![String::new()];
    let mut last = all.clone();
    for _ in 0..length {
        let mut next = Vec::new();
        for start in &last {
            for c in alphabet.chars() {
                let mut longer = start.clone();
                longer.push(c);
                next.push(longer);
            }
        }
        all.extend(next.iter().cloned());
        last = next;
    }
    all
}

fn bytes(path: &Path) -> &[u8] {
    path.as_os_str().as_encoded_bytes()
}

#[test]
fn absolute_paths_begin_at_the_root() {
    for p in spellings("/.a", 5) {
        assert_eq!(is_absolute(p.as_bytes()), Path::new(&p).is_absolute(), "{p}");
    }
}

#[test]
fn parents_agree_with_the_standard_library() {
    for p in spellings("/.a", 9) {
        assert_eq!(parent(p.as_bytes()), Path::new(&p).parent().map(bytes), "{p}");
    }
    for p in spellings("/.ab", 6) {
        assert_eq!(parent(p.as_bytes()), Path::new(&p).parent().map(bytes), "{p}");
    }
}

#[test]
fn joined_paths_agree_with_the_standard_library() {
    let all = spellings("/.a", 5);
    for base in &all {
        for p in &all {
            let expected = Path::new(base).join(p);
            assert_eq!(
                join(base.as_bytes(), p.as_bytes()),
                bytes(&expected),
                "{base} {p}"
            );
        }
    }
}

#[test]
fn stripped_paths_agree_with_the_standard_library() {
    let paths = spellings("/.a", 7);
    let bases = spellings("/.a", 4);
    for p in &paths {
        for base in &bases {
            assert_eq!(
                strip_prefix(p.as_bytes(), base.as_bytes()),
                Path::new(p).strip_prefix(base).ok().map(bytes),
                "{p} {base}"
            );
        }
    }
    let all = spellings("/.ab", 5);
    for p in &all {
        for base in &all {
            assert_eq!(
                strip_prefix(p.as_bytes(), base.as_bytes()),
                Path::new(p).strip_prefix(base).ok().map(bytes),
                "{p} {base}"
            );
        }
    }
}

#[test]
fn equal_paths_agree_with_the_standard_library() {
    let all = spellings("/.ab", 5);
    for a in &all {
        for b in &all {
            assert_eq!(
                same_components(a.as_bytes(), b.as_bytes()),
                Path::new(a) == Path::new(b),
                "{a} {b}"
            );
        }
    }
}

#[test]
fn ancestors_are_found_by_repeated_parents() {
    for p in ["/foo/bar", "../foo/bar", "a//b/./c/", "./a", "/", ""] {
        let mut ours = vec![p.as_bytes()];
        while let Some(up) = parent(ours[ours.len() - 1]) {
            ours.push(up);
        }
        let expected: Vec<&[u8]> = Path::new(p).ancestors().map(bytes).collect();
        assert_eq!(ours, expected, "{p}");
    }
}

#[test]
fn drive_letters_and_backslashes_are_parts_of_names() {
    let all = spellings("/\\:C", 4);
    for base in &all {
        let path = Path::new(base);
        assert_eq!(is_absolute(base.as_bytes()), path.is_absolute(), "{base}");
        assert_eq!(parent(base.as_bytes()), path.parent().map(bytes), "{base}");
        for p in &all {
            assert_eq!(join(base.as_bytes(), p.as_bytes()), bytes(&path.join(p)), "{base} {p}");
            assert_eq!(
                strip_prefix(p.as_bytes(), base.as_bytes()),
                Path::new(p).strip_prefix(base).ok().map(bytes),
                "{p} {base}"
            );
        }
    }
}

#[test]
fn paths_need_not_be_text() {
    assert_eq!(join(b"/w\xff", b"\xfe/a"), b"/w\xff/\xfe/a");
    assert_eq!(parent(b"/w\xff/\xfe"), Some(b"/w\xff".as_slice()));
    assert_eq!(strip_prefix(b"/w\xff/\xfe/a", b"/w\xff"), Some(b"\xfe/a".as_slice()));
    assert_eq!(strip_prefix(b"/w\xff/\xfe/a", b"/w"), None);
}
