# gitpulsar

The core of a desktop git client, written in Verus: the decisions and texts
behind staging, history and workspace views, each with a contract that Verus
proves.

## Layout

- `src/` — the verified library
  - `models.rs` — statuses, hunks, commits, blame lines
  - `repo.rs` — status classification, ref names, branch checks, `.gitignore`
    editing, rebase todo lists, worktree lists, clone folders, `git` command
    outcomes
  - `patch.rs` — patches that stage or unstage a hunk or selected lines, and
    hunk-header arithmetic
  - `word_diff.rs` — the word-level diff of a changed line pair
  - `graph.rs` — lane layout of the commit graph
  - `undo.rs` — the undo/redo stack of staging operations
  - `config.rs` — preferences and date texts (through `chrono`)
  - `syntax.rs` — syntax highlighting of diff lines (through `syntect`)
  - `commit_object.rs` — the rows of the commit list
  - `refresh.rs` — when the periodic refresh runs and what it redraws
  - `dialogs.rs` — what the branch, tag, reset and message dialogs accept,
    and the header's ahead counter
  - `workspace.rs`, `changes.rs`, `views.rs`, `diff_view.rs`, `blame.rs` —
    what the views show
  - `text.rs` — characters, words, trimming and numbers
- `app/` — a command-line front end: reading repositories with `git2`, running
  `git`, files, the configuration file, and printing
- `tests/` — tests of the library

Every law the library keeps (undo after push, unstaging undoes staging, a word
diff leaves the common part, the side-by-side view stays aligned, ...) is a
public `law_*` proof function next to the code it is about.
