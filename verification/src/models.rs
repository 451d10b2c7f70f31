//! Plain data types shared by the repository logic.
use vstd::prelude::*;

verus! {

/// The role of one line inside a diff hunk.
#[derive(Debug, Clone, Copy, PartialEq, Eq, Structural)]
pub enum DiffLineKind {
    Context,
    Addition,
    Deletion,
}

/// One line of a diff hunk, without its `+`/`-`/` ` prefix, with its line
/// numbers in the old and the new file (an added line has no old number, a
/// deleted line no new one).
#[derive(Debug, Clone)]
pub struct DiffLine {
    pub kind: DiffLineKind,
    pub content: String,
    pub old_lineno: Option<u32>,
    pub new_lineno: Option<u32>,
}

/// One hunk of a file diff: its `@@ ... @@` header and its lines.
#[derive(Debug, Clone)]
pub struct DiffHunk {
    pub header: String,
    pub lines: Vec<DiffLine>,
}

/// Line counts of a file in a diff.
#[derive(Debug, Clone, Copy)]
pub struct DiffStats {
    pub insertions: usize,
    pub deletions: usize,
}

/// The diff of one file: its path, hunks and line counts.
#[derive(Debug, Clone)]
pub struct DiffFile {
    pub path: String,
    pub hunks: Vec<DiffHunk>,
    pub stats: DiffStats,
}

/// How a file differs between two states.
#[derive(Debug, Clone, Copy, PartialEq, Eq, Structural)]
pub enum FileStatusKind {
    New,
    Modified,
    Deleted,
    Renamed,
    Typechange,
}

/// A path together with how it changed.
#[derive(Debug, Clone)]
pub struct FileStatus {
    pub path: String,
    pub status: FileStatusKind,
}

/// The working state of a repository: staged, unstaged and untracked files.
#[derive(Debug, Clone)]
pub struct RepoStatus {
    pub staged: Vec<FileStatus>,
    pub unstaged: Vec<FileStatus>,
    pub untracked: Vec<String>,
}

/// Name and e-mail of an author or committer.
#[derive(Debug, Clone)]
pub struct Signature {
    pub name: String,
    pub email: String,
}

/// One line of a file as blame shows it: the commit that last changed it,
/// that commit's author and time, the line's number and its text.
#[derive(Debug, Clone)]
pub struct BlameLine {
    pub commit_id: String,
    pub short_id: String,
    pub author: String,
    pub time: i64,
    pub line_no: usize,
    pub content: String,
}

/// One commit of the history. `time` is in seconds since the Unix epoch.
#[derive(Debug, Clone)]
pub struct CommitInfo {
    pub id: String,
    pub short_id: String,
    pub summary: String,
    pub message: String,
    pub author: Signature,
    pub committer: Signature,
    pub time: i64,
    pub parent_ids: Vec<String>,
    /// Whether the commit is known to carry a valid signature.
    pub is_signed: bool,
}

/// One entry of the stash list: its position (`stash@{index}`) and message.
#[derive(Debug, Clone)]
pub struct StashEntry {
    pub index: usize,
    pub message: String,
}

/// A submodule of the repository: its name, its remote URL and whether it
/// has been initialised.
#[derive(Debug, Clone)]
pub struct SubmoduleInfo {
    pub name: String,
    pub url: String,
    pub is_initialized: bool,
}

/// How far `git reset` goes: the branch only, also the index, or also the
/// working directory.
#[derive(Debug, Clone, Copy, PartialEq, Eq, Structural)]
pub enum ResetMode {
    Soft,
    Mixed,
    Hard,
}

} // verus!
