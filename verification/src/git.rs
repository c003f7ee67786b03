//! What the library makes of git's output: the changed files of a working
//! tree (`git status --porcelain=v2 -z`), their line counts (`git diff
//! --numstat -z`), the branch label, and the git invocations that stage and
//! unstage paths. Running git is left to the caller, which hands the output
//! over as a [`GitOutput`].

use vstd::prelude::*;
use crate::text::{
    after_sep, after_seps, after_seps_start, chars_of, decode_chars, field_end, first_field, lossy_string,
    lossy_text, nul_records, parse_u32, push_chars, spec_parse_u32, split_lines, text_lines, push_str, split_nul_records, string_from, sub_chars, trim_chars, trim_seq,
};

verus! {

// ---------------------------------------------------------------------------
// Types
// ---------------------------------------------------------------------------

/// Status letter of one changed path, as git reports it.
#[derive(Debug, Clone, Copy, PartialEq, Eq)]
pub enum FileStatus {
    Modified,
    Added,
    Deleted,
    Renamed,
    Untracked,
    Unknown,
}

impl FileStatus {
    pub open spec fn spec_symbol(self) -> Seq<char> {
        match self {
            FileStatus::Modified => seq!['M'],
            FileStatus::Added => seq!['A'],
            FileStatus::Deleted => seq!['D'],
            FileStatus::Renamed => seq!['R'],
            FileStatus::Untracked => seq!['?'],
            FileStatus::Unknown => seq!['?'],
        }
    }

    /// One-character marker shown beside the path in the file list.
    pub fn symbol(&self) -> (s: &'static str)
        ensures
            s@ == self.spec_symbol(),
    {
        proof {
            reveal_strlit("M");
            reveal_strlit("A");
            reveal_strlit("D");
            reveal_strlit("R");
            reveal_strlit("?");
        }
        match self {
            FileStatus::Modified => "M",
            FileStatus::Added => "A",
            FileStatus::Deleted => "D",
            FileStatus::Renamed => "R",
            FileStatus::Untracked => "?",
            FileStatus::Unknown => "?",
        }
    }

    pub fn is_untracked(&self) -> (b: bool)
        ensures
            b == (*self == FileStatus::Untracked),
    {
        match self {
            FileStatus::Untracked => true,
            _ => false,
        }
    }
}

/// Size and modification time of a worktree file, used to notice edits that
/// leave the line counts unchanged.
#[derive(Debug, Clone, Copy, PartialEq, Eq)]
pub struct FileContentSignature {
    pub len: u64,
    pub modified_unix_nanos: u128,
}

/// One changed path with its line counts and staging state.
#[derive(Debug, Clone, PartialEq, Eq)]
pub struct FileStat {
    pub path: String,
    pub additions: u32,
    pub deletions: u32,
    pub status: FileStatus,
    pub has_staged_changes: bool,
    pub has_unstaged_changes: bool,
    pub content_signature: Option<FileContentSignature>,
}

/// A [`FileStat`] with its path as a character sequence.
pub struct FileStatView {
    pub path: Seq<char>,
    pub additions: u32,
    pub deletions: u32,
    pub status: FileStatus,
    pub has_staged_changes: bool,
    pub has_unstaged_changes: bool,
    pub content_signature: Option<FileContentSignature>,
}

impl View for FileStat {
    type V = FileStatView;

    open spec fn view(&self) -> FileStatView {
        FileStatView {
            path: self.path@,
            additions: self.additions,
            deletions: self.deletions,
            status: self.status,
            has_staged_changes: self.has_staged_changes,
            has_unstaged_changes: self.has_unstaged_changes,
            content_signature: self.content_signature,
        }
    }
}

impl FileStat {
    /// A copy of this entry.
    pub fn duplicate(&self) -> (r: FileStat)
        ensures
            r@ == self@,
    {
        FileStat {
            path: self.path.clone(),
            additions: self.additions,
            deletions: self.deletions,
            status: self.status,
            has_staged_changes: self.has_staged_changes,
            has_unstaged_changes: self.has_unstaged_changes,
            content_signature: self.content_signature,
        }
    }
}

impl FileStatus {
    /// Whether two statuses are the same.
    pub fn same_as(&self, other: &FileStatus) -> (b: bool)
        ensures
            b == (*self == *other),
    {
        match (self, other) {
            (FileStatus::Modified, FileStatus::Modified) => true,
            (FileStatus::Added, FileStatus::Added) => true,
            (FileStatus::Deleted, FileStatus::Deleted) => true,
            (FileStatus::Renamed, FileStatus::Renamed) => true,
            (FileStatus::Untracked, FileStatus::Untracked) => true,
            (FileStatus::Unknown, FileStatus::Unknown) => true,
            _ => false,
        }
    }
}

fn same_signature(a: &Option<FileContentSignature>, b: &Option<FileContentSignature>) -> (r: bool)
    ensures
        r == (*a == *b),
{
    match (a, b) {
        (None, None) => true,
        (Some(x), Some(y)) => x.len == y.len && x.modified_unix_nanos == y.modified_unix_nanos,
        _ => false,
    }
}

impl FileStat {
    /// Whether two entries are the same in every field.
    pub fn same_as(&self, other: &FileStat) -> (b: bool)
        ensures
            b == (self@ == other@),
    {
        self.path == other.path && self.additions == other.additions && self.deletions == other.deletions
            && self.status.same_as(&other.status) && self.has_staged_changes == other.has_staged_changes
            && self.has_unstaged_changes == other.has_unstaged_changes
            && same_signature(&self.content_signature, &other.content_signature)
    }
}

/// The views of a list of entries.
pub open spec fn stat_views(files: Seq<FileStat>) -> Seq<FileStatView> {
    files.map_values(|f: FileStat| f@)
}

/// Branch label and changed files of a working tree.
#[derive(Debug, Clone, Default, PartialEq, Eq)]
pub struct RepoSnapshot {
    pub branch: Option<String>,
    pub files: Vec<FileStat>,
}

/// A [`RepoSnapshot`] as mathematical values.
pub struct RepoSnapshotView {
    pub branch: Option<Seq<char>>,
    pub files: Seq<FileStatView>,
}

pub open spec fn opt_text(o: Option<String>) -> Option<Seq<char>> {
    match o {
        Some(s) => Some(s@),
        None => None,
    }
}

impl View for RepoSnapshot {
    type V = RepoSnapshotView;

    open spec fn view(&self) -> RepoSnapshotView {
        RepoSnapshotView { branch: opt_text(self.branch), files: stat_views(self.files@) }
    }
}

impl RepoSnapshot {
    /// Whether two snapshots have the same branch label and the same files
    /// in the same order.
    pub fn same_as(&self, other: &RepoSnapshot) -> (b: bool)
        ensures
            b == (self@ == other@),
    {
        let same_branch = match (&self.branch, &other.branch) {
            (None, None) => true,
            (Some(x), Some(y)) => *x == *y,
            _ => false,
        };
        if !same_branch {
            return false;
        }
        if self.files.len() != other.files.len() {
            assert(self@.files.len() != other@.files.len());
            return false;
        }
        let mut i: usize = 0;
        while i < self.files.len()
            invariant
                i <= self.files.len() == other.files.len(),
                forall|k: int| 0 <= k < i ==> self.files@[k]@ == other.files@[k]@,
            decreases self.files.len() - i,
        {
            if !self.files[i].same_as(&other.files[i]) {
                assert(self@.files[i as int] != other@.files[i as int]);
                return false;
            }
            i += 1;
        }
        assert(self@.files =~= other@.files);
        true
    }
}

/// What a finished git process left: whether it exited successfully, and its
/// two output streams.
pub struct GitOutput {
    pub success: bool,
    pub stdout: Vec<u8>,
    pub stderr: Vec<u8>,
}

/// Why a git step failed. [`GitError::message`] gives the text shown to the
/// user.
#[derive(Debug)]
pub enum GitError {
    /// git could not be started; the message names the command.
    Spawn(String),
    /// git exited unsuccessfully; its standard error, trimmed.
    CommandFailed(String),
    /// git's output was not valid UTF-8.
    OutputNotUtf8,
    /// A record of `git status` output was not valid UTF-8.
    StatusNotUtf8,
    /// A record of `git diff --numstat` output was not valid UTF-8.
    NumstatNotUtf8,
    /// The repository root could not be resolved.
    RootUnresolved(Box<GitError>),
    /// The git directory could not be resolved.
    GitDirUnresolved(Box<GitError>),
}

// ---------------------------------------------------------------------------
// Failed commands
// ---------------------------------------------------------------------------

/// The message of a failed git command: its standard error, decoded and trimmed.
pub open spec fn failure_text(stderr: Seq<u8>) -> Seq<char> {
    trim_seq(lossy_text(stderr))
}

/// The error for a git command that exited unsuccessfully.
pub fn command_failure(output: &GitOutput) -> (e: GitError)
    ensures
        e matches GitError::CommandFailed(m) && m@ == failure_text(output.stderr@),
{
    let text = lossy_string(output.stderr.as_slice());
    let chars = chars_of(text.as_str());
    let trimmed = trim_chars(chars.as_slice());
    GitError::CommandFailed(string_from(trimmed.as_slice()))
}

// ---------------------------------------------------------------------------
// Status letters
// ---------------------------------------------------------------------------

/// Whether a column of a porcelain `XY` field reports a change.
pub open spec fn is_change_char(c: char) -> bool {
    c != '.' && c != ' '
}

/// The index column (`X`) of `xy` reports a change.
pub open spec fn spec_has_index_change(xy: Seq<char>) -> bool {
    xy.len() > 0 && is_change_char(xy[0])
}

/// The worktree column (`Y`) of `xy` reports a change.
pub open spec fn spec_has_worktree_change(xy: Seq<char>) -> bool {
    xy.len() > 1 && is_change_char(xy[1])
}

/// The status an `XY` field stands for; a missing column reads as `.`.
/// Renames win over additions, additions over deletions, deletions over
/// modifications (`M`, `T` or `U`).
pub open spec fn spec_status_from_xy(xy: Seq<char>) -> FileStatus {
    let x = if xy.len() > 0 { xy[0] } else { '.' };
    let y = if xy.len() > 1 { xy[1] } else { '.' };
    if x == 'R' || y == 'R' {
        FileStatus::Renamed
    } else if x == 'A' || y == 'A' {
        FileStatus::Added
    } else if x == 'D' || y == 'D' {
        FileStatus::Deleted
    } else if x == 'M' || x == 'T' || x == 'U' || y == 'M' || y == 'T' || y == 'U' {
        FileStatus::Modified
    } else {
        FileStatus::Unknown
    }
}

/// The status of an `XY` field reads both columns alike: swapping the index
/// and worktree columns changes nothing, and an index column `M`, `T` or `U`
/// (a change staged with `git add`) makes the file modified whenever no
/// column reports a rename, an addition or a deletion.
pub proof fn status_reads_both_columns(x: char, y: char)
    ensures
        spec_status_from_xy(seq![x, y]) == spec_status_from_xy(seq![y, x]),
        (x == 'M' || x == 'T' || x == 'U') && y != 'R' && y != 'A' && y != 'D' ==> spec_status_from_xy(seq![x, y])
            == FileStatus::Modified,
        (y == 'M' || y == 'T' || y == 'U') && x != 'R' && x != 'A' && x != 'D' ==> spec_status_from_xy(seq![x, y])
            == FileStatus::Modified,
{
}

/// Whether `ch`, a column of an `XY` field, reports a change (anything but
/// `.` or a space).
pub fn is_status_change_char(ch: char) -> (b: bool)
    ensures
        b == is_change_char(ch),
{
    !(ch == '.' || ch == ' ')
}

fn has_index_change_chars(xy: &[char]) -> (b: bool)
    ensures
        b == spec_has_index_change(xy@),
{
    xy.len() > 0 && is_status_change_char(xy[0])
}

fn has_worktree_change_chars(xy: &[char]) -> (b: bool)
    ensures
        b == spec_has_worktree_change(xy@),
{
    xy.len() > 1 && is_status_change_char(xy[1])
}

/// Whether the index column of `xy` reports a change.
pub fn has_index_change(xy: &str) -> (b: bool)
    ensures
        b == spec_has_index_change(xy@),
{
    let v = chars_of(xy);
    has_index_change_chars(v.as_slice())
}

/// Whether the worktree column of `xy` reports a change.
pub fn has_worktree_change(xy: &str) -> (b: bool)
    ensures
        b == spec_has_worktree_change(xy@),
{
    let v = chars_of(xy);
    has_worktree_change_chars(v.as_slice())
}

fn status_from_xy_chars(xy: &[char]) -> (st: FileStatus)
    ensures
        st == spec_status_from_xy(xy@),
{
    let x = if xy.len() > 0 { xy[0] } else { '.' };
    let y = if xy.len() > 1 { xy[1] } else { '.' };
    if x == 'R' || y == 'R' {
        FileStatus::Renamed
    } else if x == 'A' || y == 'A' {
        FileStatus::Added
    } else if x == 'D' || y == 'D' {
        FileStatus::Deleted
    } else if x == 'M' || x == 'T' || x == 'U' || y == 'M' || y == 'T' || y == 'U' {
        FileStatus::Modified
    } else {
        FileStatus::Unknown
    }
}

/// The status that a porcelain `XY` field stands for.
pub fn status_from_xy(xy: &str) -> (st: FileStatus)
    ensures
        st == spec_status_from_xy(xy@),
{
    let v = chars_of(xy);
    status_from_xy_chars(v.as_slice())
}

// ---------------------------------------------------------------------------
// Porcelain v2 records
// ---------------------------------------------------------------------------

/// `record.splitn(n, ' ').nth(n - 1)`: the rest of `record` after its
/// `n - 1`-th space.
pub open spec fn spec_nth_space_field(record: Seq<char>, n: nat) -> Option<Seq<char>>
    recommends
        n >= 1,
{
    after_seps(record, ' ', (n - 1) as nat)
}

/// The `field_index`-th space-separated field of `record`, where the last
/// field runs to the end of the record (so paths may hold spaces).
pub fn nth_space_field(record: &str, field_index: usize) -> (r: Option<String>)
    requires
        field_index >= 1,
    ensures
        opt_text(r) == spec_nth_space_field(record@, field_index as nat),
{
    let v = chars_of(record);
    match after_seps_start(v.as_slice(), ' ', field_index - 1) {
        Some(p) => {
            let rest = sub_chars(v.as_slice(), p, v.len());
            assert(rest@ == v@.skip(p as int));
            Some(string_from(rest.as_slice()))
        },
        None => None,
    }
}

/// An entry with no line counts yet.
pub open spec fn new_stat(path: Seq<char>, status: FileStatus, staged: bool, unstaged: bool) -> FileStatView {
    FileStatView {
        path,
        additions: 0,
        deletions: 0,
        status,
        has_staged_changes: staged,
        has_unstaged_changes: unstaged,
        content_signature: None,
    }
}

/// An ordinary (`1`) or unmerged (`u`) record: `kind XY ... path`, with the
/// path after the 8th space (the 10th for unmerged records). Unmerged paths
/// count as modified, staged and unstaged.
pub open spec fn spec_parse_regular(rec: Seq<char>) -> Option<FileStatView> {
    let kind = first_field(rec, ' ');
    match after_sep(rec, ' ') {
        None => None,
        Some(rest) => {
            let xy = first_field(rest, ' ');
            let is_u = kind == seq!['u'];
            let skip: nat = if is_u { 10 } else { 8 };
            match after_seps(rec, ' ', skip) {
                None => None,
                Some(path) => Some(
                    new_stat(
                        path,
                        if is_u { FileStatus::Modified } else { spec_status_from_xy(xy) },
                        is_u || spec_has_index_change(xy),
                        is_u || spec_has_worktree_change(xy),
                    ),
                ),
            }
        },
    }
}

/// A rename or copy (`2`) record: the new path follows the 9th space; a
/// status the `XY` field leaves unknown reads as renamed.
pub open spec fn spec_parse_rename(rec: Seq<char>) -> Option<FileStatView> {
    match after_sep(rec, ' ') {
        None => None,
        Some(rest) => {
            let xy = first_field(rest, ' ');
            match after_seps(rec, ' ', 9) {
                None => None,
                Some(path) => Some(
                    new_stat(
                        path,
                        if spec_status_from_xy(xy) == FileStatus::Unknown {
                            FileStatus::Renamed
                        } else {
                            spec_status_from_xy(xy)
                        },
                        spec_has_index_change(xy),
                        spec_has_worktree_change(xy),
                    ),
                ),
            }
        },
    }
}

/// An untracked (`? path`) record.
pub open spec fn spec_parse_untracked(rec: Seq<char>) -> Option<FileStatView> {
    if rec.len() >= 2 && rec[0] == '?' && rec[1] == ' ' {
        Some(new_stat(rec.skip(2), FileStatus::Untracked, false, true))
    } else {
        None
    }
}

fn parse_regular_chars(rec: &[char]) -> (r: Option<FileStat>)
    ensures
        match r {
            Some(f) => spec_parse_regular(rec@) == Some(f@),
            None => spec_parse_regular(rec@) is None,
        },
{
    let e0 = field_end(rec, 0, ' ');
    assert(rec@.skip(0) == rec@);
    if e0 == rec.len() {
        return None;
    }
    assert(rec@.skip(e0 + 1) == rec@.skip(0).skip(e0 + 1));
    let e1 = field_end(rec, e0 + 1, ' ');
    let xy = sub_chars(rec, e0 + 1, e1);
    let is_u = e0 == 1 && rec[0] == 'u';
    proof {
        assert(rec@.take(e0 as int) == rec@.subrange(0, e0 as int));
        if e0 == 1 {
            assert(first_field(rec@, ' ') =~= seq![rec@[0]]);
        }
        if first_field(rec@, ' ') == seq!['u'] {
            assert(first_field(rec@, ' ').len() == 1);
        }
        assert(is_u == (first_field(rec@, ' ') == seq!['u']));
    }
    let skip: usize = if is_u { 10 } else { 8 };
    match after_seps_start(rec, ' ', skip) {
        None => None,
        Some(p) => {
            let path = sub_chars(rec, p, rec.len());
            assert(path@ == rec@.skip(p as int));
            let status = if is_u { FileStatus::Modified } else { status_from_xy_chars(xy.as_slice()) };
            let staged = is_u || has_index_change_chars(xy.as_slice());
            let unstaged = is_u || has_worktree_change_chars(xy.as_slice());
            Some(FileStat {
                path: string_from(path.as_slice()),
                additions: 0,
                deletions: 0,
                status,
                has_staged_changes: staged,
                has_unstaged_changes: unstaged,
                content_signature: None,
            })
        },
    }
}

fn parse_rename_chars(rec: &[char]) -> (r: Option<FileStat>)
    ensures
        match r {
            Some(f) => spec_parse_rename(rec@) == Some(f@),
            None => spec_parse_rename(rec@) is None,
        },
{
    let e0 = field_end(rec, 0, ' ');
    assert(rec@.skip(0) == rec@);
    if e0 == rec.len() {
        return None;
    }
    assert(rec@.skip(e0 + 1) == rec@.skip(0).skip(e0 + 1));
    let e1 = field_end(rec, e0 + 1, ' ');
    let xy = sub_chars(rec, e0 + 1, e1);
    match after_seps_start(rec, ' ', 9) {
        None => None,
        Some(p) => {
            let path = sub_chars(rec, p, rec.len());
            assert(path@ == rec@.skip(p as int));
            let from_xy = status_from_xy_chars(xy.as_slice());
            let status = match from_xy {
                FileStatus::Unknown => FileStatus::Renamed,
                other => other,
            };
            Some(FileStat {
                path: string_from(path.as_slice()),
                additions: 0,
                deletions: 0,
                status,
                has_staged_changes: has_index_change_chars(xy.as_slice()),
                has_unstaged_changes: has_worktree_change_chars(xy.as_slice()),
                content_signature: None,
            })
        },
    }
}

fn parse_untracked_chars(rec: &[char]) -> (r: Option<FileStat>)
    ensures
        match r {
            Some(f) => spec_parse_untracked(rec@) == Some(f@),
            None => spec_parse_untracked(rec@) is None,
        },
{
    if rec.len() >= 2 && rec[0] == '?' && rec[1] == ' ' {
        let path = sub_chars(rec, 2, rec.len());
        assert(path@ == rec@.skip(2));
        Some(FileStat {
            path: string_from(path.as_slice()),
            additions: 0,
            deletions: 0,
            status: FileStatus::Untracked,
            has_staged_changes: false,
            has_unstaged_changes: true,
            content_signature: None,
        })
    } else {
        None
    }
}

/// Parses an ordinary or unmerged porcelain v2 record.
pub fn parse_regular_status(record: &str) -> (r: Option<FileStat>)
    ensures
        match r {
            Some(f) => spec_parse_regular(record@) == Some(f@),
            None => spec_parse_regular(record@) is None,
        },
{
    let v = chars_of(record);
    parse_regular_chars(v.as_slice())
}

/// Parses a rename or copy porcelain v2 record.
pub fn parse_rename_status(record: &str) -> (r: Option<FileStat>)
    ensures
        match r {
            Some(f) => spec_parse_rename(record@) == Some(f@),
            None => spec_parse_rename(record@) is None,
        },
{
    let v = chars_of(record);
    parse_rename_chars(v.as_slice())
}

/// The entry a decoded status record yields, if any, by its first character:
/// `1` or `u` ordinary, `2` rename, `?` untracked; anything else (ignored
/// `!` entries among them) yields nothing.
pub open spec fn status_record(text: Seq<char>) -> Option<FileStatView> {
    if text.len() == 0 {
        None
    } else if text[0] == '1' || text[0] == 'u' {
        spec_parse_regular(text)
    } else if text[0] == '2' {
        spec_parse_rename(text)
    } else if text[0] == '?' {
        spec_parse_untracked(text)
    } else {
        None
    }
}

/// How many records a status record takes up: a rename is followed by a
/// record holding the original path.
pub open spec fn status_record_span(text: Seq<char>) -> int {
    if text.len() > 0 && text[0] == '2' {
        2
    } else {
        1
    }
}

/// The entries that a sequence of status records yields, in order, or `None`
/// when a record that is read is not valid UTF-8 (the original path that
/// follows a rename is skipped unread).
pub open spec fn parse_status_records(recs: Seq<Seq<u8>>) -> Option<Seq<FileStatView>>
    decreases recs.len(),
{
    if recs.len() == 0 {
        Some(Seq::empty())
    } else if !vstd::utf8::valid_utf8(recs[0]) {
        None
    } else {
        let text = vstd::utf8::decode_utf8(recs[0]);
        let step = status_record_span(text);
        let rest = if step < recs.len() {
            recs.skip(step)
        } else {
            Seq::empty()
        };
        match parse_status_records(rest) {
            None => None,
            Some(fs) => Some(
                match status_record(text) {
                    Some(f) => seq![f] + fs,
                    None => fs,
                },
            ),
        }
    }
}

/// `prefix` followed by what `rest` holds, if anything.
pub open spec fn prepend_parsed(prefix: Seq<FileStatView>, rest: Option<Seq<FileStatView>>) -> Option<Seq<FileStatView>> {
    match rest {
        None => None,
        Some(r) => Some(prefix + r),
    }
}

/// The changed files that `git status --porcelain=v2 --find-renames
/// --untracked-files=all -z` reported, in the order it reported them.
pub fn parse_status_porcelain(output: &GitOutput) -> (r: Result<Vec<FileStat>, GitError>)
    ensures
        !output.success ==> (r matches Err(GitError::CommandFailed(m)) && m@ == failure_text(
            output.stderr@,
        )),
        output.success ==> match parse_status_records(nul_records(output.stdout@)) {
            None => r matches Err(GitError::StatusNotUtf8),
            Some(fs) => r matches Ok(v) && stat_views(v@) == fs,
        },
{
    if !output.success {
        return Err(command_failure(output));
    }
    let records = split_nul_records(output.stdout.as_slice());
    let ghost recs = nul_records(output.stdout@);
    let mut files: Vec<FileStat> = Vec::new();
    let mut index: usize = 0;
    assert(recs.skip(0) == recs);
    while index < records.len()
        invariant
            output.success,
            recs == nul_records(output.stdout@),
            records@.map_values(|r: Vec<u8>| r@) == recs,
            index <= records.len(),
            parse_status_records(recs) == prepend_parsed(
                stat_views(files@),
                parse_status_records(recs.skip(index as int)),
            ),
        decreases records.len() - index,
    {
        let ghost tail = recs.skip(index as int);
        assert(tail[0] == records@[index as int]@);
        let text = match decode_chars(records[index].as_slice()) {
            Some(t) => t,
            None => {
                return Err(GitError::StatusNotUtf8);
            },
        };
        let mut step: usize = 1;
        let mut item: Option<FileStat> = None;
        if text.len() > 0 {
            let first = text[0];
            if first == '1' || first == 'u' {
                item = parse_regular_chars(text.as_slice());
            } else if first == '2' {
                item = parse_rename_chars(text.as_slice());
                step = 2;
            } else if first == '?' {
                item = parse_untracked_chars(text.as_slice());
            }
        }
        assert(step == status_record_span(text@));
        let next = if step < records.len() - index { index + step } else { records.len() };
        proof {
            if step < tail.len() {
                assert(tail.skip(step as int) == recs.skip(next as int));
            } else {
                assert(recs.skip(next as int) =~= Seq::<Seq<u8>>::empty());
            }
        }
        let ghost before = files@;
        match item {
            Some(f) => {
                files.push(f);
                assert(stat_views(files@) == stat_views(before).push(f@));
            },
            None => {},
        }
        proof {
            match parse_status_records(recs.skip(next as int)) {
                None => {},
                Some(rest) => {
                    match status_record(text@) {
                        Some(g) => {
                            assert(stat_views(before) + (seq![g] + rest) == stat_views(files@) + rest);
                        },
                        None => {},
                    }
                },
            }
        }
        index = next;
    }
    proof {
        assert(recs.skip(index as int) =~= Seq::<Seq<u8>>::empty());
        assert(stat_views(files@) + Seq::<FileStatView>::empty() == stat_views(files@));
    }
    Ok(files)
}

// ---------------------------------------------------------------------------
// Line counts (`git diff --numstat -z`)
// ---------------------------------------------------------------------------

/// Lines added and deleted in one path.
pub struct NumstatEntry {
    pub path: String,
    pub additions: u32,
    pub deletions: u32,
}

/// Whether no two entries name the same path.
pub open spec fn unique_paths(s: Seq<NumstatEntry>) -> bool {
    forall|i: int, j: int| 0 <= i < s.len() && 0 <= j < s.len() && i != j ==> #[trigger] s[i].path@ != #[trigger] s[j].path@
}

/// The counts that a list of entries with distinct paths gives each path.
pub open spec fn entries_map(s: Seq<NumstatEntry>) -> Map<Seq<char>, (u32, u32)> {
    Map::new(
        |p: Seq<char>| exists|i: int| 0 <= i < s.len() && s[i].path@ == p,
        |p: Seq<char>|
            {
                let i = choose|i: int| 0 <= i < s.len() && s[i].path@ == p;
                (s[i].additions, s[i].deletions)
            },
    )
}

proof fn lemma_entries_map_at(s: Seq<NumstatEntry>, i: int)
    requires
        unique_paths(s),
        0 <= i < s.len(),
    ensures
        entries_map(s).contains_key(s[i].path@),
        entries_map(s)[s[i].path@] == (s[i].additions, s[i].deletions),
{
    let p = s[i].path@;
    assert(exists|k: int| 0 <= k < s.len() && s[k].path@ == p);
    let k = choose|k: int| 0 <= k < s.len() && s[k].path@ == p;
    assert(k == i);
}

/// Line counts per path, each path at most once, as a `HashMap` keyed by
/// path would hold them.
pub struct DiffStats {
    entries: Vec<NumstatEntry>,
}

impl View for DiffStats {
    type V = Map<Seq<char>, (u32, u32)>;

    closed spec fn view(&self) -> Map<Seq<char>, (u32, u32)> {
        entries_map(self.entries@)
    }
}

impl DiffStats {
    #[verifier::type_invariant]
    closed spec fn well_formed(self) -> bool {
        unique_paths(self.entries@)
    }

    /// No counts at all.
    pub fn new() -> (d: DiffStats)
        ensures
            d@ == Map::<Seq<char>, (u32, u32)>::empty(),
    {
        let d = DiffStats { entries: Vec::new() };
        assert(d@ =~= Map::<Seq<char>, (u32, u32)>::empty());
        d
    }

    /// A copy of these counts.
    pub fn duplicate(&self) -> (d: DiffStats)
        ensures
            d@ == self@,
    {
        proof {
            use_type_invariant(self);
        }
        let mut entries: Vec<NumstatEntry> = Vec::new();
        let mut i: usize = 0;
        while i < self.entries.len()
            invariant
                i <= self.entries.len(),
                entries@.len() == i,
                forall|k: int| 0 <= k < i ==> (#[trigger] entries@[k]).path@ == self.entries@[k].path@
                    && entries@[k].additions == self.entries@[k].additions
                    && entries@[k].deletions == self.entries@[k].deletions,
            decreases self.entries.len() - i,
        {
            let e = &self.entries[i];
            entries.push(NumstatEntry { path: e.path.clone(), additions: e.additions, deletions: e.deletions });
            i += 1;
        }
        let ghost s = self.entries@;
        proof {
            assert(unique_paths(entries@)) by {
                assert forall|a: int, b: int| 0 <= a < entries@.len() && 0 <= b < entries@.len() && a != b implies #[trigger] entries@[a].path@ != #[trigger] entries@[b].path@ by {
                    assert(s[a].path@ != s[b].path@);
                }
            }
            assert forall|q: Seq<char>| #![auto] entries_map(entries@).contains_key(q) <==> entries_map(s).contains_key(q) by {
                if entries_map(s).contains_key(q) {
                    let k = choose|k: int| 0 <= k < s.len() && s[k].path@ == q;
                    assert(entries@[k].path@ == q);
                }
                if entries_map(entries@).contains_key(q) {
                    let k = choose|k: int| 0 <= k < entries@.len() && entries@[k].path@ == q;
                    assert(s[k].path@ == q);
                }
            }
            assert forall|q: Seq<char>| #![auto] entries_map(s).contains_key(q) implies entries_map(entries@)[q] == entries_map(s)[q] by {
                let k = choose|k: int| 0 <= k < s.len() && s[k].path@ == q;
                lemma_entries_map_at(s, k);
                lemma_entries_map_at(entries@, k);
            }
            assert(entries_map(entries@) =~= entries_map(s));
        }
        DiffStats { entries }
    }

    /// How many paths have counts.
    pub fn len(&self) -> (n: usize)
        ensures
            n == self@.dom().len(),
    {
        proof {
            use_type_invariant(self);
            self.lemma_dom_len();
        }
        self.entries.len()
    }

    proof fn lemma_dom_len(&self)
        requires
            unique_paths(self.entries@),
        ensures
            self@.dom().len() == self.entries@.len(),
            self@.dom().finite(),
    {
        let s = self.entries@;
        let keys = s.map_values(|e: NumstatEntry| e.path@);
        assert forall|i: int, j: int| 0 <= i < keys.len() && 0 <= j < keys.len() && i != j implies keys[i] != keys[j] by {
            assert(keys[i] == s[i].path@);
            assert(keys[j] == s[j].path@);
        }
        assert(keys.no_duplicates());
        keys.unique_seq_to_set();
        assert forall|p: Seq<char>| self@.dom().contains(p) <==> keys.to_set().contains(p) by {
            if self@.dom().contains(p) {
                let i = choose|i: int| 0 <= i < s.len() && s[i].path@ == p;
                assert(keys[i] == p);
            }
            if keys.to_set().contains(p) {
                let i = choose|i: int| 0 <= i < keys.len() && keys[i] == p;
                assert(s[i].path@ == p);
            }
        }
        assert(self@.dom() =~= keys.to_set());
    }

    /// Where `path` sits among the entries, if it has counts.
    fn position(&self, path: &String) -> (r: Option<usize>)
        ensures
            match r {
                Some(i) => i < self.entries.len() && self.entries@[i as int].path@ == path@,
                None => !self@.contains_key(path@),
            },
    {
        let mut i: usize = 0;
        while i < self.entries.len()
            invariant
                i <= self.entries.len(),
                forall|k: int| 0 <= k < i ==> self.entries@[k].path@ != path@,
            decreases self.entries.len() - i,
        {
            if self.entries[i].path == *path {
                return Some(i);
            }
            i += 1;
        }
        None
    }

    /// The counts of `path`, if it has any.
    pub fn get(&self, path: &String) -> (r: Option<(u32, u32)>)
        ensures
            r == (if self@.contains_key(path@) {
                Some(self@[path@])
            } else {
                None
            }),
    {
        proof {
            use_type_invariant(self);
        }
        match self.position(path) {
            Some(i) => {
                proof {
                    lemma_entries_map_at(self.entries@, i as int);
                }
                Some((self.entries[i].additions, self.entries[i].deletions))
            },
            None => None,
        }
    }

    /// Sets the counts of `path`, replacing any it had.
    pub fn insert(&mut self, path: String, additions: u32, deletions: u32)
        ensures
            final(self)@ == old(self)@.insert(path@, (additions, deletions)),
    {
        proof {
            use_type_invariant(&*self);
        }
        let ghost old_entries = self.entries@;
        let ghost p = path@;
        let entry = NumstatEntry { path, additions, deletions };
        match self.position(&entry.path) {
            Some(i) => {
                let mut entries: Vec<NumstatEntry> = Vec::new();
                std::mem::swap(&mut entries, &mut self.entries);
                entries.set(i, entry);
                let ghost s = entries@;
                proof {
                    assert(s == old_entries.update(i as int, s[i as int]));
                    assert(unique_paths(s)) by {
                        assert forall|a: int, b: int| 0 <= a < s.len() && 0 <= b < s.len() && a != b implies #[trigger] s[a].path@ != #[trigger] s[b].path@ by {
                            if a != i && b != i {
                                assert(s[a] == old_entries[a] && s[b] == old_entries[b]);
                                assert(old_entries[a].path@ != old_entries[b].path@);
                            } else if a == i {
                                assert(s[b] == old_entries[b]);
                                assert(old_entries[i as int].path@ != old_entries[b].path@);
                            } else {
                                assert(s[a] == old_entries[a]);
                                assert(old_entries[a].path@ != old_entries[i as int].path@);
                            }
                        }
                    }
                    assert forall|q: Seq<char>| #![auto] entries_map(s).contains_key(q) <==> entries_map(old_entries).insert(p, (additions, deletions)).contains_key(q) by {
                        if entries_map(old_entries).contains_key(q) && q != p {
                            let k = choose|k: int| 0 <= k < old_entries.len() && old_entries[k].path@ == q;
                            assert(s[k] == old_entries[k]);
                        }
                        if q == p {
                            assert(s[i as int].path@ == p);
                        }
                        if entries_map(s).contains_key(q) && q != p {
                            let k = choose|k: int| 0 <= k < s.len() && s[k].path@ == q;
                            assert(k != i);
                            assert(s[k] == old_entries[k]);
                        }
                    }
                    assert forall|q: Seq<char>| #![auto] entries_map(s).contains_key(q) implies entries_map(s)[q] == entries_map(old_entries).insert(p, (additions, deletions))[q] by {
                        let k = choose|k: int| 0 <= k < s.len() && s[k].path@ == q;
                        lemma_entries_map_at(s, k);
                        if k != i {
                            assert(s[k] == old_entries[k]);
                            lemma_entries_map_at(old_entries, k);
                        }
                    }
                    assert(entries_map(s) =~= entries_map(old_entries).insert(p, (additions, deletions)));
                }
                self.entries = entries;
            },
            None => {
                let mut entries: Vec<NumstatEntry> = Vec::new();
                std::mem::swap(&mut entries, &mut self.entries);
                entries.push(entry);
                let ghost s = entries@;
                proof {
                    let n = old_entries.len() as int;
                    assert(s == old_entries.push(s[n]));
                    assert(unique_paths(s)) by {
                        assert forall|a: int, b: int| 0 <= a < s.len() && 0 <= b < s.len() && a != b implies #[trigger] s[a].path@ != #[trigger] s[b].path@ by {
                            if a == n {
                                assert(s[b] == old_entries[b]);
                                assert(entries_map(old_entries).contains_key(old_entries[b].path@));
                            } else if b == n {
                                assert(s[a] == old_entries[a]);
                                assert(entries_map(old_entries).contains_key(old_entries[a].path@));
                            } else {
                                assert(s[a] == old_entries[a] && s[b] == old_entries[b]);
                            }
                        }
                    }
                    assert forall|q: Seq<char>| #![auto] entries_map(s).contains_key(q) <==> entries_map(old_entries).insert(p, (additions, deletions)).contains_key(q) by {
                        if entries_map(old_entries).contains_key(q) {
                            let k = choose|k: int| 0 <= k < old_entries.len() && old_entries[k].path@ == q;
                            assert(s[k] == old_entries[k]);
                        }
                        if q == p {
                            assert(s[n].path@ == p);
                        }
                        if entries_map(s).contains_key(q) && q != p {
                            let k = choose|k: int| 0 <= k < s.len() && s[k].path@ == q;
                            assert(k != n);
                            assert(s[k] == old_entries[k]);
                        }
                    }
                    assert forall|q: Seq<char>| #![auto] entries_map(s).contains_key(q) implies entries_map(s)[q] == entries_map(old_entries).insert(p, (additions, deletions))[q] by {
                        let k = choose|k: int| 0 <= k < s.len() && s[k].path@ == q;
                        lemma_entries_map_at(s, k);
                        if k != n {
                            assert(s[k] == old_entries[k]);
                            lemma_entries_map_at(old_entries, k);
                        }
                    }
                    assert(entries_map(s) =~= entries_map(old_entries).insert(p, (additions, deletions)));
                }
                self.entries = entries;
            },
        }
    }

    /// Takes the counts of `path` out, if it has any.
    pub fn remove(&mut self, path: &String) -> (r: Option<(u32, u32)>)
        ensures
            r == (if old(self)@.contains_key(path@) {
                Some(old(self)@[path@])
            } else {
                None
            }),
            final(self)@ == old(self)@.remove(path@),
    {
        proof {
            use_type_invariant(&*self);
        }
        let ghost old_entries = self.entries@;
        let ghost p = path@;
        match self.position(path) {
            Some(i) => {
                proof {
                    lemma_entries_map_at(old_entries, i as int);
                }
                let mut entries: Vec<NumstatEntry> = Vec::new();
                std::mem::swap(&mut entries, &mut self.entries);
                let e = entries.remove(i);
                let ghost s = entries@;
                proof {
                    assert(s == old_entries.remove(i as int));
                    assert forall|a: int| 0 <= a < s.len() implies #[trigger] s[a] == old_entries[if a < i { a } else { a + 1 }] by {}
                    assert(unique_paths(s)) by {
                        assert forall|a: int, b: int| 0 <= a < s.len() && 0 <= b < s.len() && a != b implies #[trigger] s[a].path@ != #[trigger] s[b].path@ by {
                            let a2 = if a < i { a } else { a + 1 };
                            let b2 = if b < i { b } else { b + 1 };
                            assert(s[a] == old_entries[a2]);
                            assert(s[b] == old_entries[b2]);
                        }
                    }
                    assert forall|q: Seq<char>| #![auto] entries_map(s).contains_key(q) <==> entries_map(old_entries).remove(p).contains_key(q) by {
                        if entries_map(old_entries).contains_key(q) && q != p {
                            let k = choose|k: int| 0 <= k < old_entries.len() && old_entries[k].path@ == q;
                            assert(k != i);
                            let k2 = if k < i { k } else { k - 1 };
                            assert(s[k2] == old_entries[k]);
                        }
                        if entries_map(s).contains_key(q) {
                            let k = choose|k: int| 0 <= k < s.len() && s[k].path@ == q;
                            let k2 = if k < i { k } else { k + 1 };
                            assert(s[k] == old_entries[k2]);
                            assert(k2 != i);
                        }
                    }
                    assert forall|q: Seq<char>| #![auto] entries_map(s).contains_key(q) implies entries_map(s)[q] == entries_map(old_entries)[q] by {
                        let k = choose|k: int| 0 <= k < s.len() && s[k].path@ == q;
                        lemma_entries_map_at(s, k);
                        let k2 = if k < i { k } else { k + 1 };
                        assert(s[k] == old_entries[k2]);
                        lemma_entries_map_at(old_entries, k2);
                    }
                    assert(entries_map(s) =~= entries_map(old_entries).remove(p));
                }
                self.entries = entries;
                Some((e.additions, e.deletions))
            },
            None => {
                assert(entries_map(old_entries).remove(p) =~= entries_map(old_entries));
                None
            },
        }
    }
}

/// A count as `git diff --numstat` prints it; anything that is not a
/// number (a binary file's `-`) counts as zero.
pub open spec fn count_or_zero(s: Seq<char>) -> u32 {
    match spec_parse_u32(s) {
        Some(v) => v,
        None => 0,
    }
}

/// The counts that numstat records add to `acc`, or `None` when a record
/// that is read is not valid UTF-8. A record is `added TAB deleted TAB path`;
/// for a rename the path is empty and the new path is two records on.
/// Records without two tabs are skipped, and a later record for a path
/// replaces an earlier one.
pub open spec fn numstat_records(recs: Seq<Seq<u8>>, acc: Map<Seq<char>, (u32, u32)>) -> Option<Map<Seq<char>, (u32, u32)>>
    decreases recs.len(),
{
    if recs.len() == 0 {
        Some(acc)
    } else if !vstd::utf8::valid_utf8(recs[0]) {
        None
    } else {
        let text = vstd::utf8::decode_utf8(recs[0]);
        match after_sep(text, '\t') {
            None => numstat_records(recs.skip(1), acc),
            Some(rest) => match after_sep(rest, '\t') {
                None => numstat_records(recs.skip(1), acc),
                Some(path) => {
                    let counts = (
                        count_or_zero(first_field(text, '\t')),
                        count_or_zero(first_field(rest, '\t')),
                    );
                    if path.len() > 0 {
                        numstat_records(recs.skip(1), acc.insert(path, counts))
                    } else if recs.len() < 3 {
                        numstat_records(recs.skip(1), acc)
                    } else if !vstd::utf8::valid_utf8(recs[2]) {
                        None
                    } else {
                        numstat_records(
                            recs.skip(3),
                            acc.insert(vstd::utf8::decode_utf8(recs[2]), counts),
                        )
                    }
                },
            },
        }
    }
}

/// The per-path line counts that `git diff --numstat -z` (or `git diff
/// --cached --numstat -z`) reported.
#[verifier::spinoff_prover]
#[verifier::rlimit(50)]
pub fn parse_numstat(output: &GitOutput) -> (r: Result<DiffStats, GitError>)
    ensures
        !output.success ==> (r matches Err(GitError::CommandFailed(m)) && m@ == failure_text(
            output.stderr@,
        )),
        output.success ==> match numstat_records(nul_records(output.stdout@), Map::empty()) {
            None => r matches Err(GitError::NumstatNotUtf8),
            Some(m) => r matches Ok(d) && d@ == m,
        },
{
    if !output.success {
        return Err(command_failure(output));
    }
    let records = split_nul_records(output.stdout.as_slice());
    let ghost recs = nul_records(output.stdout@);
    let mut stats = DiffStats::new();
    let mut index: usize = 0;
    assert(recs.skip(0) == recs);
    while index < records.len()
        invariant
            output.success,
            recs == nul_records(output.stdout@),
            records@.map_values(|r: Vec<u8>| r@) == recs,
            index <= records.len(),
            numstat_records(recs, Map::empty()) == numstat_records(recs.skip(index as int), stats@),
        decreases records.len() - index,
    {
        let ghost tail = recs.skip(index as int);
        assert(tail[0] == records@[index as int]@);
        assert(tail.skip(1) == recs.skip(index + 1));
        let text = match decode_chars(records[index].as_slice()) {
            Some(t) => t,
            None => {
                return Err(GitError::NumstatNotUtf8);
            },
        };
        let t0 = field_end(text.as_slice(), 0, '\t');
        assert(text@.skip(0) == text@);
        if t0 == text.len() {
            index += 1;
            continue;
        }
        let t1 = field_end(text.as_slice(), t0 + 1, '\t');
        if t1 == text.len() {
            index += 1;
            continue;
        }
        assert(text@.skip(t0 + 1).skip(t1 - t0) == text@.skip(t1 + 1));
        let added = sub_chars(text.as_slice(), 0, t0);
        let deleted = sub_chars(text.as_slice(), t0 + 1, t1);
        assert(added@ == first_field(text@, '\t'));
        let additions = match parse_u32(added.as_slice()) {
            Some(v) => v,
            None => 0,
        };
        let deletions = match parse_u32(deleted.as_slice()) {
            Some(v) => v,
            None => 0,
        };
        if t1 + 1 == text.len() {
            assert(text@.skip(t1 + 1).len() == 0);
            if records.len() - index < 3 {
                index += 1;
                continue;
            }
            assert(tail[2] == records@[index + 2]@);
            assert(tail.skip(3) == recs.skip(index + 3));
            let new_path = match decode_chars(records[index + 2].as_slice()) {
                Some(t) => t,
                None => {
                    return Err(GitError::NumstatNotUtf8);
                },
            };
            stats.insert(string_from(new_path.as_slice()), additions, deletions);
            index += 3;
        } else {
            let path = sub_chars(text.as_slice(), t1 + 1, text.len());
            assert(path@ == text@.skip(t1 + 1));
            stats.insert(string_from(path.as_slice()), additions, deletions);
            index += 1;
        }
    }
    assert(recs.skip(index as int) =~= Seq::<Seq<u8>>::empty());
    Ok(stats)
}

// ---------------------------------------------------------------------------
// Snapshots
// ---------------------------------------------------------------------------

/// `a + b`, held at `u32::MAX`.
pub open spec fn sat_add(a: u32, b: u32) -> u32 {
    if a + b > u32::MAX {
        u32::MAX
    } else {
        (a + b) as u32
    }
}

/// The counts of `p` in `m`, zero when it has none.
pub open spec fn counts_or_zero(m: Map<Seq<char>, (u32, u32)>, p: Seq<char>) -> (u32, u32) {
    if m.contains_key(p) {
        m[p]
    } else {
        (0, 0)
    }
}

/// Staged counts with the unstaged counts of the paths in `keys` added.
pub open spec fn merge_counts_over(
    staged: Map<Seq<char>, (u32, u32)>,
    unstaged: Map<Seq<char>, (u32, u32)>,
    keys: Set<Seq<char>>,
) -> Map<Seq<char>, (u32, u32)> {
    Map::new(
        |p: Seq<char>| staged.contains_key(p) || (keys.contains(p) && unstaged.contains_key(p)),
        |p: Seq<char>|
            {
                let s = counts_or_zero(staged, p);
                let u = if keys.contains(p) {
                    counts_or_zero(unstaged, p)
                } else {
                    (0, 0)
                };
                (sat_add(s.0, u.0), sat_add(s.1, u.1))
            },
    )
}

/// Staged and unstaged counts added per path, each sum held at `u32::MAX`.
pub open spec fn merge_counts(staged: Map<Seq<char>, (u32, u32)>, unstaged: Map<Seq<char>, (u32, u32)>) -> Map<Seq<char>, (u32, u32)> {
    merge_counts_over(staged, unstaged, unstaged.dom())
}

/// What the worktree says of one changed path: the number of lines of the
/// file (read for untracked files) and its size and modification time.
#[derive(Debug, Clone, Copy, PartialEq, Eq)]
pub struct WorktreeFacts {
    pub line_count: u32,
    pub signature: Option<FileContentSignature>,
}

/// Whether an earlier entry than the `i`-th has path `p`.
pub open spec fn path_seen_before(files: Seq<FileStatView>, i: int, p: Seq<char>) -> bool {
    exists|j: int| 0 <= j < i && #[trigger] files[j].path == p
}

/// The counts given to the `i`-th entry: those of its path, unless an
/// earlier entry with the same path took them.
pub open spec fn counts_for(files: Seq<FileStatView>, counts: Map<Seq<char>, (u32, u32)>, i: int) -> Option<(u32, u32)> {
    if counts.contains_key(files[i].path) && !path_seen_before(files, i, files[i].path) {
        Some(counts[files[i].path])
    } else {
        None
    }
}

/// An entry completed with its counts and worktree facts: counted lines, or
/// for an untracked file without counts its number of lines; and the file's
/// signature.
pub open spec fn completed_entry(f: FileStatView, counts: Option<(u32, u32)>, facts: WorktreeFacts) -> FileStatView {
    FileStatView {
        additions: match counts {
            Some(c) => c.0,
            None => if f.status == FileStatus::Untracked {
                facts.line_count
            } else {
                f.additions
            },
        },
        deletions: match counts {
            Some(c) => c.1,
            None => f.deletions,
        },
        content_signature: facts.signature,
        ..f
    }
}

/// The entries of a snapshot: each status entry completed with the staged
/// plus unstaged counts of its path and the facts about its file.
pub open spec fn snapshot_files(
    files: Seq<FileStatView>,
    staged: Map<Seq<char>, (u32, u32)>,
    unstaged: Map<Seq<char>, (u32, u32)>,
    facts: Seq<WorktreeFacts>,
) -> Seq<FileStatView> {
    Seq::new(
        files.len(),
        |i: int| completed_entry(files[i], counts_for(files, merge_counts(staged, unstaged), i), facts[i]),
    )
}

/// A path's line counts in a snapshot are its staged and unstaged counts
/// added: for the first entry of a path that either side counts, the
/// additions are the staged plus the unstaged additions and the deletions
/// the staged plus the unstaged deletions (a missing side counting zero),
/// each sum held at `u32::MAX`; a path neither side counts keeps the counts
/// its status entry had.
pub proof fn snapshot_counts_add_both_sides(
    files: Seq<FileStatView>,
    staged: Map<Seq<char>, (u32, u32)>,
    unstaged: Map<Seq<char>, (u32, u32)>,
    facts: Seq<WorktreeFacts>,
    i: int,
)
    requires
        0 <= i < files.len(),
        facts.len() == files.len(),
        !path_seen_before(files, i, files[i].path),
    ensures
        ({
            let p = files[i].path;
            let r = snapshot_files(files, staged, unstaged, facts)[i];
            let sa: int = if staged.contains_key(p) { staged[p].0 as int } else { 0 };
            let sd: int = if staged.contains_key(p) { staged[p].1 as int } else { 0 };
            let ua: int = if unstaged.contains_key(p) { unstaged[p].0 as int } else { 0 };
            let ud: int = if unstaged.contains_key(p) { unstaged[p].1 as int } else { 0 };
            &&& staged.contains_key(p) || unstaged.contains_key(p) ==> r.additions == (if sa + ua <= u32::MAX {
                sa + ua
            } else {
                u32::MAX as int
            }) && r.deletions == (if sd + ud <= u32::MAX {
                sd + ud
            } else {
                u32::MAX as int
            })
            &&& !staged.contains_key(files[i].path) && !unstaged.contains_key(files[i].path) ==> r.deletions
                == files[i].deletions
        }),
{
}

/// Assembles a snapshot from the branch label, the status entries (as
/// [`parse_status_porcelain`] gives them), the staged and unstaged counts
/// (as [`parse_numstat`] gives them) and, for each entry, the facts about its
/// file.
pub fn load_snapshot(
    branch: Option<String>,
    files: Vec<FileStat>,
    staged: &DiffStats,
    unstaged: &DiffStats,
    worktree: &[WorktreeFacts],
) -> (snap: RepoSnapshot)
    requires
        worktree.len() == files.len(),
    ensures
        snap.branch == branch,
        snap@.files == snapshot_files(stat_views(files@), staged@, unstaged@, worktree@),
{
    let mut counts = staged.duplicate();
    let ghost st = staged@;
    let ghost un = unstaged@;
    proof {
        use_type_invariant(unstaged);
    }
    let n = unstaged.entries.len();
    let mut k: usize = 0;
    assert(counts@ =~= merge_counts_over(st, un, Set::empty()));
    while k < n
        invariant
            st == staged@,
            un == unstaged@,
            unique_paths(unstaged.entries@),
            n == unstaged.entries.len(),
            k <= n,
            un == entries_map(unstaged.entries@),
            counts@ == merge_counts_over(
                st,
                un,
                Set::new(|p: Seq<char>| exists|j: int| 0 <= j < k && unstaged.entries@[j].path@ == p),
            ),
        decreases n - k,
    {
        let e = &unstaged.entries[k];
        let ghost p = e.path@;
        let ghost before = Set::new(|q: Seq<char>| exists|j: int| 0 <= j < k && unstaged.entries@[j].path@ == q);
        let ghost after = Set::new(|q: Seq<char>| exists|j: int| 0 <= j < k + 1 && unstaged.entries@[j].path@ == q);
        proof {
            lemma_entries_map_at(unstaged.entries@, k as int);
            assert(!before.contains(p));
            assert(after =~= before.insert(p));
        }
        let (a0, d0) = match counts.get(&e.path) {
            Some(c) => c,
            None => (0, 0),
        };
        let a = a0.saturating_add(e.additions);
        let d = d0.saturating_add(e.deletions);
        counts.insert(e.path.clone(), a, d);
        proof {
            assert(counts@ =~= merge_counts_over(st, un, after));
        }
        k += 1;
    }
    proof {
        let all = Set::new(|p: Seq<char>| exists|j: int| 0 <= j < n && unstaged.entries@[j].path@ == p);
        assert(all =~= un.dom());
    }
    let ghost merged = merge_counts(st, un);
    let ghost views = stat_views(files@);
    let mut out: Vec<FileStat> = Vec::new();
    let mut i: usize = 0;
    assert(counts@ =~= Map::new(
        |p: Seq<char>| merged.contains_key(p) && !path_seen_before(views, 0, p),
        |p: Seq<char>| merged[p],
    ));
    while i < files.len()
        invariant
            views == stat_views(files@),
            merged == merge_counts(st, un),
            worktree.len() == files.len(),
            i <= files.len(),
            counts@ == Map::new(
                |p: Seq<char>| merged.contains_key(p) && !path_seen_before(views, i as int, p),
                |p: Seq<char>| merged[p],
            ),
            out@.len() == i,
            forall|q: int| 0 <= q < i ==> #[trigger] out@[q]@ == completed_entry(
                views[q],
                counts_for(views, merged, q),
                worktree@[q],
            ),
        decreases files.len() - i,
    {
        let f = &files[i];
        let ghost p = f.path@;
        let taken = counts.remove(&f.path);
        let facts = worktree[i];
        let mut entry = f.duplicate();
        match taken {
            Some(c) => {
                entry.additions = c.0;
                entry.deletions = c.1;
            },
            None => {
                if f.status.is_untracked() {
                    entry.additions = facts.line_count;
                }
            },
        }
        entry.content_signature = facts.signature;
        proof {
            assert(views[i as int] == f@);
            assert(entry@ == completed_entry(views[i as int], counts_for(views, merged, i as int), facts));
            assert forall|q: Seq<char>| path_seen_before(views, i + 1, q) == (path_seen_before(views, i as int, q) || q == p) by {
                if path_seen_before(views, i + 1, q) && q != p {
                    let j = choose|j: int| 0 <= j < i + 1 && #[trigger] views[j].path == q;
                    assert(j < i);
                }
                if q == p {
                    assert(views[i as int].path == p);
                }
            }
            assert(counts@ =~= Map::new(
                |q: Seq<char>| merged.contains_key(q) && !path_seen_before(views, i + 1, q),
                |q: Seq<char>| merged[q],
            ));
        }
        out.push(entry);
        i += 1;
    }
    let snap = RepoSnapshot { branch, files: out };
    assert(snap@.files =~= snapshot_files(views, st, un, worktree@));
    snap
}

/// The entries of [`load_snapshot`] alone.
pub fn list_changed_files(
    files: Vec<FileStat>,
    staged: &DiffStats,
    unstaged: &DiffStats,
    worktree: &[WorktreeFacts],
) -> (r: Vec<FileStat>)
    requires
        worktree.len() == files.len(),
    ensures
        stat_views(r@) == snapshot_files(stat_views(files@), staged@, unstaged@, worktree@),
{
    load_snapshot(None, files, staged, unstaged, worktree).files
}

/// The number of lines of a file's text, as `str::lines` counts them (held
/// to 32 bits, as the count is cast to `u32`).
pub fn count_lines(content: &str) -> (n: u32)
    ensures
        n == text_lines(content@).len() as u32,
{
    let v = chars_of(content);
    let lines = split_lines(v.as_slice());
    assert(lines@.len() == lines@.map_values(|r: Vec<char>| r@).len());
    lines.len() as u32
}

// ---------------------------------------------------------------------------
// Single-value git queries
// ---------------------------------------------------------------------------

impl GitError {
    /// The text shown for this error: the outermost context, as an
    /// `anyhow` error displays it.
    pub open spec fn spec_message(&self) -> Seq<char> {
        match self {
            GitError::Spawn(m) => m@,
            GitError::CommandFailed(m) => m@,
            GitError::OutputNotUtf8 => "git output not UTF-8"@,
            GitError::StatusNotUtf8 => "git status output not UTF-8"@,
            GitError::NumstatNotUtf8 => "git numstat output not UTF-8"@,
            GitError::RootUnresolved(_) => "Failed to resolve repository root"@,
            GitError::GitDirUnresolved(_) => "Failed to resolve git directory"@,
        }
    }

    /// The text shown for this error.
    pub fn message(&self) -> (m: String)
        ensures
            m@ == self.spec_message(),
    {
        match self {
            GitError::Spawn(m) => m.clone(),
            GitError::CommandFailed(m) => m.clone(),
            GitError::OutputNotUtf8 => "git output not UTF-8".to_owned(),
            GitError::StatusNotUtf8 => "git status output not UTF-8".to_owned(),
            GitError::NumstatNotUtf8 => "git numstat output not UTF-8".to_owned(),
            GitError::RootUnresolved(_) => "Failed to resolve repository root".to_owned(),
            GitError::GitDirUnresolved(_) => "Failed to resolve git directory".to_owned(),
        }
    }
}

/// What a git command that prints one value yields: its standard output,
/// decoded and trimmed.
pub open spec fn git_text_result(output: GitOutput) -> Result<Seq<char>, ()> {
    if vstd::utf8::valid_utf8(output.stdout@) {
        Ok(trim_seq(vstd::utf8::decode_utf8(output.stdout@)))
    } else {
        Err(())
    }
}

/// The trimmed standard output of a git command that prints one value.
pub fn run_git_utf8(output: &GitOutput) -> (r: Result<String, GitError>)
    ensures
        !output.success ==> (r matches Err(GitError::CommandFailed(m)) && m@ == failure_text(
            output.stderr@,
        )),
        output.success && !vstd::utf8::valid_utf8(output.stdout@) ==> r matches Err(
            GitError::OutputNotUtf8,
        ),
        output.success && vstd::utf8::valid_utf8(output.stdout@) ==> (r matches Ok(s) && s@
            == trim_seq(vstd::utf8::decode_utf8(output.stdout@))),
{
    if !output.success {
        return Err(command_failure(output));
    }
    match decode_chars(output.stdout.as_slice()) {
        Some(text) => {
            let t = trim_chars(text.as_slice());
            Ok(string_from(t.as_slice()))
        },
        None => Err(GitError::OutputNotUtf8),
    }
}

/// Success or failure of a git command whose output is not needed.
pub fn run_git_ok(output: &GitOutput) -> (r: Result<(), GitError>)
    ensures
        output.success ==> r is Ok,
        !output.success ==> (r matches Err(GitError::CommandFailed(m)) && m@ == failure_text(
            output.stderr@,
        )),
{
    if output.success {
        Ok(())
    } else {
        Err(command_failure(output))
    }
}

/// The repository root, from the output of `git rev-parse --show-toplevel`.
pub fn repo_root(output: &GitOutput) -> (r: Result<String, GitError>)
    ensures
        output.success && vstd::utf8::valid_utf8(output.stdout@) ==> (r matches Ok(s) && s@
            == trim_seq(vstd::utf8::decode_utf8(output.stdout@))),
        !output.success ==> (r matches Err(GitError::RootUnresolved(e)) && (*e matches GitError::CommandFailed(m)
            && m@ == failure_text(output.stderr@))),
        output.success && !vstd::utf8::valid_utf8(output.stdout@) ==> (r matches Err(GitError::RootUnresolved(e))
            && *e matches GitError::OutputNotUtf8),
{
    match run_git_utf8(output) {
        Ok(s) => Ok(s),
        Err(e) => Err(GitError::RootUnresolved(Box::new(e))),
    }
}

/// The absolute git directory, from the output of `git rev-parse
/// --absolute-git-dir`.
pub fn git_dir(output: &GitOutput) -> (r: Result<String, GitError>)
    ensures
        output.success && vstd::utf8::valid_utf8(output.stdout@) ==> (r matches Ok(s) && s@
            == trim_seq(vstd::utf8::decode_utf8(output.stdout@))),
        !output.success ==> (r matches Err(GitError::GitDirUnresolved(e)) && (*e matches GitError::CommandFailed(m)
            && m@ == failure_text(output.stderr@))),
        output.success && !vstd::utf8::valid_utf8(output.stdout@) ==> (r matches Err(GitError::GitDirUnresolved(e))
            && *e matches GitError::OutputNotUtf8),
{
    match run_git_utf8(output) {
        Ok(s) => Ok(s),
        Err(e) => Err(GitError::GitDirUnresolved(Box::new(e))),
    }
}

/// The branch label: the current branch, else `detached@` and the short
/// commit id, else nothing. `show_current` is the trimmed output of `git
/// branch --show-current`; `short_head` is the output of `git rev-parse
/// --short HEAD`, which is run only when there is no current branch.
pub fn current_branch(show_current: &str, short_head: Option<&GitOutput>) -> (r: Result<Option<String>, GitError>)
    ensures
        show_current@.len() > 0 ==> (r matches Ok(Some(b)) && b@ == show_current@),
        show_current@.len() == 0 ==> match short_head {
            None => r matches Ok(None),
            Some(o) => if !o.success {
                r matches Ok(None)
            } else if !vstd::utf8::valid_utf8(o.stdout@) {
                r matches Err(GitError::OutputNotUtf8)
            } else if trim_seq(vstd::utf8::decode_utf8(o.stdout@)).len() == 0 {
                r matches Ok(None)
            } else {
                r matches Ok(Some(b)) && b@ == "detached@"@ + trim_seq(
                    vstd::utf8::decode_utf8(o.stdout@),
                )
            },
        },
{
    if !show_current.is_empty() {
        return Ok(Some(show_current.to_owned()));
    }
    let output = match short_head {
        None => {
            return Ok(None);
        },
        Some(o) => o,
    };
    if !output.success {
        return Ok(None);
    }
    match decode_chars(output.stdout.as_slice()) {
        None => Err(GitError::OutputNotUtf8),
        Some(text) => {
            let t = trim_chars(text.as_slice());
            if t.len() == 0 {
                Ok(None)
            } else {
                let mut label = "detached@".to_owned();
                push_chars(&mut label, t.as_slice());
                Ok(Some(label))
            }
        },
    }
}

// ---------------------------------------------------------------------------
// Commands
// ---------------------------------------------------------------------------

/// A git invocation for the caller to run in the repository: the arguments
/// after `git`, and the message for the case that git cannot be started.
pub struct GitCommand {
    pub args: Vec<String>,
    pub context: String,
}

/// The arguments of a command, as character sequences.
pub open spec fn arg_texts(args: Seq<String>) -> Seq<Seq<char>> {
    args.map_values(|a: String| a@)
}

pub(crate) fn push_arg(args: &mut Vec<String>, a: &str)
    ensures
        arg_texts(final(args)@) == arg_texts(old(args)@).push(a@),
{
    let ghost before = args@;
    args.push(a.to_owned());
    assert(arg_texts(args@) =~= arg_texts(before).push(a@));
}

pub(crate) fn text_of(a: &str, b: &str) -> (s: String)
    ensures
        s@ == a@ + b@,
{
    let mut s = a.to_owned();
    push_str(&mut s, b);
    s
}

/// `git add -- <path>`: stages everything in `path`.
pub fn stage_file(path: &str) -> (c: GitCommand)
    ensures
        arg_texts(c.args@) == seq!["add"@, "--"@, path@],
        c.context@ == "Failed to run git add -- "@ + path@,
{
    let mut args: Vec<String> = Vec::new();
    push_arg(&mut args, "add");
    push_arg(&mut args, "--");
    push_arg(&mut args, path);
    GitCommand { args, context: text_of("Failed to run git add -- ", path) }
}

/// `git add --all`: stages every change.
pub fn stage_all() -> (c: GitCommand)
    ensures
        arg_texts(c.args@) == seq!["add"@, "--all"@],
        c.context@ == "Failed to run git add --all"@,
{
    let mut args: Vec<String> = Vec::new();
    push_arg(&mut args, "add");
    push_arg(&mut args, "--all");
    GitCommand { args, context: "Failed to run git add --all".to_owned() }
}

/// Unstages `path`: `git restore --staged -- <path>` when the repository has
/// a `HEAD` commit, else `git rm --cached -- <path>`.
pub fn unstage_file(has_head: bool, path: &str) -> (c: GitCommand)
    ensures
        has_head ==> arg_texts(c.args@) == seq!["restore"@, "--staged"@, "--"@, path@]
            && c.context@ == "Failed to run git restore --staged -- "@ + path@,
        !has_head ==> arg_texts(c.args@) == seq!["rm"@, "--cached"@, "--"@, path@]
            && c.context@ == "Failed to run git rm --cached -- "@ + path@,
{
    let mut args: Vec<String> = Vec::new();
    if has_head {
        push_arg(&mut args, "restore");
        push_arg(&mut args, "--staged");
        push_arg(&mut args, "--");
        push_arg(&mut args, path);
        GitCommand { args, context: text_of("Failed to run git restore --staged -- ", path) }
    } else {
        push_arg(&mut args, "rm");
        push_arg(&mut args, "--cached");
        push_arg(&mut args, "--");
        push_arg(&mut args, path);
        GitCommand { args, context: text_of("Failed to run git rm --cached -- ", path) }
    }
}

/// Unstages everything: `git restore --staged -- .` when the repository has
/// a `HEAD` commit, else `git rm -r --cached -- .`.
pub fn unstage_all(has_head: bool) -> (c: GitCommand)
    ensures
        has_head ==> arg_texts(c.args@) == seq!["restore"@, "--staged"@, "--"@, "."@]
            && c.context@ == "Failed to run git restore --staged -- ."@,
        !has_head ==> arg_texts(c.args@) == seq!["rm"@, "-r"@, "--cached"@, "--"@, "."@]
            && c.context@ == "Failed to run git rm -r --cached -- ."@,
{
    let mut args: Vec<String> = Vec::new();
    if has_head {
        push_arg(&mut args, "restore");
        push_arg(&mut args, "--staged");
        push_arg(&mut args, "--");
        push_arg(&mut args, ".");
        GitCommand { args, context: "Failed to run git restore --staged -- .".to_owned() }
    } else {
        push_arg(&mut args, "rm");
        push_arg(&mut args, "-r");
        push_arg(&mut args, "--cached");
        push_arg(&mut args, "--");
        push_arg(&mut args, ".");
        GitCommand { args, context: "Failed to run git rm -r --cached -- .".to_owned() }
    }
}

/// `git diff [--cached] --numstat -z`: line counts of the staged changes
/// (`staged`) or of the unstaged ones.
pub fn numstat_command(staged: bool) -> (c: GitCommand)
    ensures
        staged ==> arg_texts(c.args@) == seq!["diff"@, "--cached"@, "--numstat"@, "-z"@],
        !staged ==> arg_texts(c.args@) == seq!["diff"@, "--numstat"@, "-z"@],
        c.context@ == "Failed to run git diff --numstat"@,
{
    let mut args: Vec<String> = Vec::new();
    push_arg(&mut args, "diff");
    if staged {
        push_arg(&mut args, "--cached");
    }
    push_arg(&mut args, "--numstat");
    push_arg(&mut args, "-z");
    GitCommand { args, context: "Failed to run git diff --numstat".to_owned() }
}

/// `git status --porcelain=v2 --find-renames --untracked-files=all -z`.
pub fn status_command() -> (c: GitCommand)
    ensures
        arg_texts(c.args@) == seq![
            "status"@,
            "--porcelain=v2"@,
            "--find-renames"@,
            "--untracked-files=all"@,
            "-z"@,
        ],
        c.context@ == "Failed to run git status --porcelain=v2"@,
{
    let mut args: Vec<String> = Vec::new();
    push_arg(&mut args, "status");
    push_arg(&mut args, "--porcelain=v2");
    push_arg(&mut args, "--find-renames");
    push_arg(&mut args, "--untracked-files=all");
    push_arg(&mut args, "-z");
    GitCommand { args, context: "Failed to run git status --porcelain=v2".to_owned() }
}


/// `git rev-parse --show-toplevel`: the root of the repository.
pub fn repo_root_command() -> (c: GitCommand)
    ensures
        arg_texts(c.args@) == seq!["rev-parse"@, "--show-toplevel"@],
        c.context@ == "Failed to run git rev-parse --show-toplevel"@,
{
    let mut args: Vec<String> = Vec::new();
    push_arg(&mut args, "rev-parse");
    push_arg(&mut args, "--show-toplevel");
    GitCommand { args, context: "Failed to run git rev-parse --show-toplevel".to_owned() }
}

/// `git rev-parse --absolute-git-dir`: the git directory.
pub fn git_dir_command() -> (c: GitCommand)
    ensures
        arg_texts(c.args@) == seq!["rev-parse"@, "--absolute-git-dir"@],
        c.context@ == "Failed to run git rev-parse --absolute-git-dir"@,
{
    let mut args: Vec<String> = Vec::new();
    push_arg(&mut args, "rev-parse");
    push_arg(&mut args, "--absolute-git-dir");
    GitCommand { args, context: "Failed to run git rev-parse --absolute-git-dir".to_owned() }
}

/// `git branch --show-current`: the current branch, empty when detached.
pub fn branch_command() -> (c: GitCommand)
    ensures
        arg_texts(c.args@) == seq!["branch"@, "--show-current"@],
        c.context@ == "Failed to run git branch --show-current"@,
{
    let mut args: Vec<String> = Vec::new();
    push_arg(&mut args, "branch");
    push_arg(&mut args, "--show-current");
    GitCommand { args, context: "Failed to run git branch --show-current".to_owned() }
}

/// `git rev-parse --short HEAD`: the short id of the current commit.
pub fn short_head_command() -> (c: GitCommand)
    ensures
        arg_texts(c.args@) == seq!["rev-parse"@, "--short"@, "HEAD"@],
        c.context@ == "Failed to run git rev-parse --short HEAD"@,
{
    let mut args: Vec<String> = Vec::new();
    push_arg(&mut args, "rev-parse");
    push_arg(&mut args, "--short");
    push_arg(&mut args, "HEAD");
    GitCommand { args, context: "Failed to run git rev-parse --short HEAD".to_owned() }
}

/// `git rev-parse --verify HEAD`: succeeds when the repository has a commit.
pub fn head_check_command() -> (c: GitCommand)
    ensures
        arg_texts(c.args@) == seq!["rev-parse"@, "--verify"@, "HEAD"@],
        c.context@ == "Failed to run git rev-parse --verify HEAD"@,
{
    let mut args: Vec<String> = Vec::new();
    push_arg(&mut args, "rev-parse");
    push_arg(&mut args, "--verify");
    push_arg(&mut args, "HEAD");
    GitCommand { args, context: "Failed to run git rev-parse --verify HEAD".to_owned() }
}

/// Whether the repository has a commit, from `git rev-parse --verify HEAD`.
pub fn repo_has_head(output: &GitOutput) -> (b: bool)
    ensures
        b == output.success,
{
    output.success
}

/// `git commit -m <message>`.
pub fn commit_command(message: &str) -> (c: GitCommand)
    ensures
        arg_texts(c.args@) == seq!["commit"@, "-m"@, message@],
        c.context@ == "Failed to run git commit"@,
{
    let mut args: Vec<String> = Vec::new();
    push_arg(&mut args, "commit");
    push_arg(&mut args, "-m");
    push_arg(&mut args, message);
    GitCommand { args, context: "Failed to run git commit".to_owned() }
}

/// `git push`.
pub fn push_command() -> (c: GitCommand)
    ensures
        arg_texts(c.args@) == seq!["push"@],
        c.context@ == "Failed to run git push"@,
{
    let mut args: Vec<String> = Vec::new();
    push_arg(&mut args, "push");
    GitCommand { args, context: "Failed to run git push".to_owned() }
}

/// The report of a git command shown to the user: its standard output and
/// standard error, decoded leniently, one after the other, trimmed.
pub open spec fn report_text(output: GitOutput) -> Seq<char> {
    trim_seq(lossy_text(output.stdout@) + lossy_text(output.stderr@))
}

/// The report of a git command shown to the user.
pub fn command_report(output: &GitOutput) -> (r: String)
    ensures
        r@ == report_text(*output),
{
    let mut text = lossy_string(output.stdout.as_slice());
    let err = lossy_string(output.stderr.as_slice());
    push_str(&mut text, err.as_str());
    let chars = chars_of(text.as_str());
    let trimmed = trim_chars(chars.as_slice());
    string_from(trimmed.as_slice())
}

} // verus!
