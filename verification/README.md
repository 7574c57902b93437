# git_worktree

Finds the Git worktree that a directory lies in, and the repository that the
worktree belongs to, without the `git` executable.

The library in `src/` is verified with Verus and does no input or output. A
search is a chain of steps. Each step is a question about the file system: is
this path a directory, is it a file, what is its text, what is its canonical
spelling. The caller answers, and the answer leads to the next step or to the
result. `app/` answers from the local file system.

- `path`: POSIX paths as raw bytes. Their components, and `join`, `parent`,
  `strip_prefix`, `is_absolute` and `same_components`, each with an exact
  contract. The library reads `/` as the only separator, and `app/` builds on
  Unix only.
- `text`: white space, and what the library takes from the string functions of
  the standard library.
- `gitfile`: the `.git` and `commondir` files.
- `error`: what can go wrong, and how it is put in words.
- `discovery`: the steps of a search.
- `worktree`: `GitWorktreeContext`, the result, and the start of a search.
- `filesystem`: the model of a file system, and what discovery finds in it.
- `laws`: what holds of discovery as a whole.
