//! The small files in which Git keeps a path.

use crate::error::DiscoverError;
use crate::error::Failure;
use crate::text::blank;
use crate::text::law_trimmed_text;
use crate::text::lemma_trimmed;
use crate::text::strip_prefix;
use crate::text::tight;
use crate::text::trimmed;
use vstd::prelude::*;
use vstd::slice::slice_to_vec;
use vstd::utf8::encode_utf8;

verus! {

/// The value behind `gitdir:` in the text of a `.git` file, without the white
/// space around it. None if the text does not begin so, or the value is empty.
pub open spec fn gitdir_value(text: Seq<char>) -> Option<Seq<char>> {
    let line = trimmed(text);
    let key = "gitdir:"@;
    if !key.is_prefix_of(line) {
        None
    } else {
        let value = trimmed(line.skip(key.len() as int));
        if value.len() == 0 {
            None
        } else {
            Some(value)
        }
    }
}

/// The Git directory that the `.git` file at `path` names, given its text, or
/// `None` where it cannot be read.
pub open spec fn gitdir_file(path: Seq<u8>, text: Option<Seq<char>>) -> Result<Seq<u8>, Failure> {
    match text {
        None => Err(Failure::ReadWorktreeFile(path)),
        Some(text) => match gitdir_value(text) {
            None => Err(Failure::MalformedWorktreeFile(path)),
            Some(value) => Ok(encode_utf8(value)),
        },
    }
}

/// The path that the file at `path` holds, given its text, or `None` where it
/// cannot be read.
pub open spec fn path_file(path: Seq<u8>, kind: Seq<char>, text: Option<Seq<char>>) -> Result<
    Seq<u8>,
    Failure,
> {
    match text {
        None => Err(Failure::ReadPathFile(kind, path)),
        Some(text) => if trimmed(text).len() == 0 {
            Err(Failure::EmptyPathFile(kind, path))
        } else {
            Ok(encode_utf8(trimmed(text)))
        },
    }
}

/// The value of an optional text.
pub open spec fn text_view(text: Option<&str>) -> Option<Seq<char>> {
    match text {
        Some(text) => Some(text@),
        None => None,
    }
}

/// The value of a path, or of the error that stands in its place.
pub open spec fn path_view(r: Result<Vec<u8>, DiscoverError>) -> Result<Seq<u8>, Failure> {
    match r {
        Ok(path) => Ok(path@),
        Err(error) => Err(error@),
    }
}

/// A `.git` file that holds `gitdir:` and a path names that path, with any white
/// space around each of the two, wherever the file stands.
pub proof fn law_worktree_file_names_git_dir(
    file: Seq<u8>,
    before: Seq<char>,
    between: Seq<char>,
    path: Seq<char>,
    after: Seq<char>,
)
    requires
        blank(before),
        blank(between),
        blank(after),
        tight(path),
    ensures
        gitdir_value(before + "gitdir:"@ + between + path + after) == Some(path),
        gitdir_file(file, Some(before + "gitdir:"@ + between + path + after)) == Ok::<
            Seq<u8>,
            Failure,
        >(encode_utf8(path)),
{
    let key = "gitdir:"@;
    let none = Seq::<char>::empty();
    reveal_strlit("gitdir:");
    let line = key + between + path;
    assert(line.first() == 'g');
    assert(line.last() == path.last());
    assert(before + key + between + path + after == before + line + after);
    lemma_trimmed(before, line, after);
    assert(key.is_prefix_of(line));
    assert(line.skip(key.len() as int) == between + path + none);
    lemma_trimmed(between, path, none);
}

/// A `.git` file that names a Git directory is made of `gitdir:`, a path, and
/// white space around each of the two, and the path is what it names. Any other
/// is malformed, and one that cannot be read fails.
pub proof fn law_worktree_file_holds_nothing_else(file: Seq<u8>, text: Seq<char>)
    ensures
        gitdir_value(text) matches Some(path) ==> tight(path) && exists|
            before: Seq<char>,
            between: Seq<char>,
            after: Seq<char>,
        |
            blank(before) && blank(between) && blank(after) && text == #[trigger] (before
                + "gitdir:"@ + between + path + after),
        gitdir_file(file, Some(text)) matches Ok(bytes) ==> exists|
            before: Seq<char>,
            between: Seq<char>,
            path: Seq<char>,
            after: Seq<char>,
        |
            blank(before) && blank(between) && blank(after) && tight(path) && bytes == encode_utf8(
                path,
            ) && text == #[trigger] (before + "gitdir:"@ + between + path + after),
        gitdir_file(file, Some(text)) matches Err(failure) ==> failure
            == Failure::MalformedWorktreeFile(file),
        gitdir_file(file, None) == Err::<Seq<u8>, Failure>(Failure::ReadWorktreeFile(file)),
{
    if gitdir_value(text) is Some {
        let path = gitdir_value(text)->0;
        let key = "gitdir:"@;
        let line = trimmed(text);
        let rest = line.skip(key.len() as int);
        let (before, end) = law_trimmed_text(text);
        let (between, tail) = law_trimmed_text(rest);
        assert(line == key + rest);
        // The line ends where the text does, so nothing is left behind the path.
        assert(tail.len() == 0) by {
            if tail.len() > 0 {
                assert(line.last() == tail.last());
                assert(tail[tail.len() - 1] == tail.last());
            }
        }
        assert(line == key + between + path);
        assert(text == before + key + between + path + end);
        assert(text == before + "gitdir:"@ + between + path + end);
    }
}

/// A file that holds a path names that path, with any white space around it. One
/// that holds white space alone is empty, and one that cannot be read fails.
pub proof fn law_path_file(
    file: Seq<u8>,
    kind: Seq<char>,
    before: Seq<char>,
    path: Seq<char>,
    after: Seq<char>,
)
    requires
        blank(before),
        blank(after),
    ensures
        tight(path) ==> path_file(file, kind, Some(before + path + after)) == Ok::<
            Seq<u8>,
            Failure,
        >(encode_utf8(path)),
        path_file(file, kind, Some(before)) == Err::<Seq<u8>, Failure>(
            Failure::EmptyPathFile(kind, file),
        ),
        path_file(file, kind, None) == Err::<Seq<u8>, Failure>(Failure::ReadPathFile(kind, file)),
{
    if tight(path) {
        lemma_trimmed(before, path, after);
    }
    law_trimmed_text(before);
}

/// Reads the Git directory out of the text of the `.git` file at `path`. The
/// text is `None` where the file could not be read.
pub fn read_gitdir_file(path: &[u8], contents: Option<&str>) -> (r: Result<Vec<u8>, DiscoverError>)
    ensures
        path_view(r) == gitdir_file(path@, text_view(contents)),
        contents is None ==> (r matches Err(DiscoverError::ReadWorktreeFile(file)) && file@
            == path@),
        contents matches Some(text) ==> forall|
            before: Seq<char>,
            between: Seq<char>,
            value: Seq<char>,
            after: Seq<char>,
        |
            blank(before) && blank(between) && blank(after) && tight(value) && text@
                == #[trigger] (before + "gitdir:"@ + between + value + after) ==> (r matches Ok(
                found,
            ) && found@ == encode_utf8(value)),
        r matches Ok(found) ==> contents is Some && exists|
            before: Seq<char>,
            between: Seq<char>,
            value: Seq<char>,
            after: Seq<char>,
        |
            blank(before) && blank(between) && blank(after) && tight(value) && found@
                == encode_utf8(value) && contents->0@ == #[trigger] (before + "gitdir:"@ + between
                + value + after),
        contents is Some && r is Err ==> (r matches Err(
            DiscoverError::MalformedWorktreeFile(file),
        ) && file@ == path@),
{
    proof {
        if contents is Some {
            let text = contents->0@;
            law_worktree_file_holds_nothing_else(path@, text);
            assert forall|
                before: Seq<char>,
                between: Seq<char>,
                value: Seq<char>,
                after: Seq<char>,
            |
                blank(before) && blank(between) && blank(after) && tight(value) && text
                    == #[trigger] (before + "gitdir:"@ + between + value
                    + after) implies gitdir_file(path@, Some(text)) == Ok::<Seq<u8>, Failure>(
                encode_utf8(value),
            ) by {
                law_worktree_file_names_git_dir(path@, before, between, value, after);
            }
        }
    }
    let contents = match contents {
        Some(contents) => contents,
        None => return Err(DiscoverError::ReadWorktreeFile(slice_to_vec(path))),
    };
    let line: &str = contents.trim();
    match strip_prefix(line, "gitdir:") {
        Some(rest) => {
            assert(line@.skip("gitdir:"@.len() as int) == rest@);
            let value: &str = rest.trim();
            if value.is_empty() {
                Err(DiscoverError::MalformedWorktreeFile(slice_to_vec(path)))
            } else {
                Ok(slice_to_vec(value.as_bytes()))
            }
        },
        None => Err(DiscoverError::MalformedWorktreeFile(slice_to_vec(path))),
    }
}

/// Reads a path out of the text of the file at `path`, which is of the given
/// kind. The text is `None` where the file could not be read.
pub fn read_path_file(path: &[u8], kind: &str, contents: Option<&str>) -> (r: Result<
    Vec<u8>,
    DiscoverError,
>)
    ensures
        path_view(r) == path_file(path@, kind@, text_view(contents)),
        contents is None ==> (r matches Err(DiscoverError::ReadPathFile(k, file)) && k@ == kind@
            && file@ == path@),
        contents matches Some(text) ==> forall|before: Seq<char>, value: Seq<char>, after: Seq<char>|
            blank(before) && blank(after) && tight(value) && text@ == #[trigger] (before + value
                + after) ==> (r matches Ok(found) && found@ == encode_utf8(value)),
        contents matches Some(text) && blank(text@) ==> (r matches Err(
            DiscoverError::EmptyPathFile(k, file),
        ) && k@ == kind@ && file@ == path@),
{
    proof {
        if contents is Some {
            let text = contents->0@;
            law_trimmed_text(text);
            assert forall|before: Seq<char>, value: Seq<char>, after: Seq<char>|
                blank(before) && blank(after) && tight(value) && text == #[trigger] (before + value
                    + after) implies trimmed(text) == value by {
                lemma_trimmed(before, value, after);
            }
        }
    }
    let contents = match contents {
        Some(contents) => contents,
        None => return Err(DiscoverError::ReadPathFile(kind.to_owned(), slice_to_vec(path))),
    };
    let value: &str = contents.trim();
    if value.is_empty() {
        return Err(DiscoverError::EmptyPathFile(kind.to_owned(), slice_to_vec(path)));
    }
    Ok(slice_to_vec(value.as_bytes()))
}

} // verus!
