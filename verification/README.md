# oxidized_git

The repository-view logic of a Git desktop client, verified with Verus.

- `src/` is the library. Each public function states what it returns in its
  contract, and the properties that relate several functions are public
  proof functions (`lemma_*`).
  - `text`: string helpers with exact contracts (splitting, joining,
    escaping, UTF-8 decoding).
  - `git_manager`: diff lines, commit descriptions, commit, revert and merge
    messages, refspecs; `revwalk` (where the commit graph starts and when it
    is walked again), `plans` (the decisions taken between repository calls:
    pull, rebase, merge, stage, discard, tag, push, clone), `payload` (the
    front end's JSON requests: which fields each needs, in which order, and
    the message for each one missing) and `credentials`. Every error type
    has a `message` giving the text shown for it.
  - `parseable_info`: branch trees, names per commit, general repository
    state, commit records and changed files.
  - `svg_row`: layout of the commit graph on a grid and its SVG drawing.
  - `backend`: the compact back end, whose graph rows place themselves on a
    hash map of occupied cells.
  - `desktop`: the desktop client's preferences, with credentials.
- `app/` runs the library against real repositories with libgit2: every
  call to the repository, the file system and the keychain is there.
- `tests/` exercises the library on concrete values.
