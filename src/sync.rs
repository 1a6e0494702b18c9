//! File comparison and synchronization decisions.
//!
//! Two inventories of a file tree, one local and one remote, are merged into
//! a sorted list of per-path comparisons; each comparison, together with the
//! configured direction, resolves to a recommended action.
use vstd::prelude::*;
use crate::paths::{
    chars_of, compare_paths, contains_chars, contains_run, ends_with, ends_with_from,
    lemma_path_lt_asymmetric, lemma_path_lt_irreflexive, lemma_path_lt_transitive, path_lt,
};

verus! {

/// Tolerance for timestamp comparison, in seconds. Absorbs clock skew and
/// the differing timestamp granularity of file systems and storage backends.
pub const TIMESTAMP_TOLERANCE_SECS: i64 = 2;

const NANOS_PER_SEC: i128 = 1_000_000_000;

/// An instant: whole seconds since the Unix epoch and a sub-second part in
/// nanoseconds.
#[derive(Debug, Clone, Copy, PartialEq, Eq, Structural)]
pub struct Timestamp {
    pub secs: i64,
    pub nanos: u32,
}

impl Timestamp {
    /// Nanoseconds since the Unix epoch.
    pub open spec fn total_nanos(self) -> int {
        self.secs as int * 1_000_000_000 + self.nanos as int
    }
}

/// Status of a file comparison.
#[derive(Debug, Clone, Copy, PartialEq, Eq, Structural)]
pub enum SyncStatus {
    /// Same size and timestamps within tolerance.
    Identical,
    /// The local file is newer.
    LocalNewer,
    /// The remote file is newer.
    RemoteNewer,
    /// The file exists only locally.
    LocalOnly,
    /// The file exists only remotely.
    RemoteOnly,
    /// Both sides changed since the last synchronization. Never produced by
    /// the classifier: a change-tracking layer may set it on a comparison.
    Conflict,
    /// Sizes differ and the timestamps do not say which side is newer.
    SizeMismatch,
}

/// Information about a file, local or remote.
#[derive(Debug, Clone)]
pub struct FileInfo {
    pub name: String,
    pub path: String,
    pub size: u64,
    pub modified: Option<Timestamp>,
    pub is_dir: bool,
    pub checksum: Option<String>,
}

/// Result of comparing a single file or directory.
#[derive(Debug, Clone)]
pub struct FileComparison {
    pub relative_path: String,
    pub status: SyncStatus,
    pub local_info: Option<FileInfo>,
    pub remote_info: Option<FileInfo>,
    pub is_dir: bool,
}

/// Direction of synchronization.
#[derive(Debug, Clone, Copy, PartialEq, Eq, Structural)]
pub enum SyncDirection {
    /// Local to remote: upload changes.
    LocalToRemote,
    /// Remote to local: download changes.
    RemoteToLocal,
    /// Both directions.
    Bidirectional,
}

/// Options for comparison.
#[derive(Debug, Clone)]
pub struct CompareOptions {
    /// Compare by timestamp.
    pub compare_timestamp: bool,
    /// Compare by size.
    pub compare_size: bool,
    /// Compare by checksum; reserved, the classifier does not read it.
    pub compare_checksum: bool,
    /// Patterns of paths to leave out (e.g. "node_modules", "*.pyc").
    pub exclude_patterns: Vec<String>,
    /// Direction of synchronization.
    pub direction: SyncDirection,
}

impl Default for CompareOptions {
    fn default() -> (r: Self)
        ensures
            r.compare_timestamp,
            r.compare_size,
            !r.compare_checksum,
            r.direction == SyncDirection::Bidirectional,
            r.exclude_patterns@.len() == 8,
            r.exclude_patterns@[0]@ == "node_modules"@,
            r.exclude_patterns@[1]@ == ".git"@,
            r.exclude_patterns@[2]@ == ".DS_Store"@,
            r.exclude_patterns@[3]@ == "Thumbs.db"@,
            r.exclude_patterns@[4]@ == "__pycache__"@,
            r.exclude_patterns@[5]@ == "*.pyc"@,
            r.exclude_patterns@[6]@ == ".env"@,
            r.exclude_patterns@[7]@ == "target"@,
    {
        CompareOptions {
            compare_timestamp: true,
            compare_size: true,
            compare_checksum: false,
            exclude_patterns: vec![
                String::from_str("node_modules"),
                String::from_str(".git"),
                String::from_str(".DS_Store"),
                String::from_str("Thumbs.db"),
                String::from_str("__pycache__"),
                String::from_str("*.pyc"),
                String::from_str(".env"),
                String::from_str("target"),
            ],
            direction: SyncDirection::Bidirectional,
        }
    }
}

/// Action to perform during sync.
#[derive(Debug, Clone, Copy, PartialEq, Eq, Structural)]
pub enum SyncAction {
    Upload,
    Download,
    DeleteLocal,
    DeleteRemote,
    Skip,
    AskUser,
}

/// A sync operation to execute.
#[derive(Debug, Clone)]
pub struct SyncOperation {
    pub comparison: FileComparison,
    pub action: SyncAction,
}

/// Tally of the outcomes of a sync run.
#[derive(Debug, Clone)]
pub struct SyncResult {
    pub uploaded: u32,
    pub downloaded: u32,
    pub deleted: u32,
    pub skipped: u32,
    pub errors: Vec<String>,
}

impl SyncResult {
    /// An empty tally: all counts zero, no errors.
    pub fn new() -> (r: Self)
        ensures
            r.uploaded == 0,
            r.downloaded == 0,
            r.deleted == 0,
            r.skipped == 0,
            r.errors@.len() == 0,
    {
        SyncResult { uploaded: 0, downloaded: 0, deleted: 0, skipped: 0, errors: Vec::new() }
    }

    /// Counts one successful upload.
    pub fn record_uploaded(&mut self)
        requires
            old(self).uploaded < u32::MAX,
        ensures
            final(self).uploaded == old(self).uploaded + 1,
            final(self).downloaded == old(self).downloaded,
            final(self).deleted == old(self).deleted,
            final(self).skipped == old(self).skipped,
            final(self).errors@ == old(self).errors@,
    {
        self.uploaded = self.uploaded + 1;
    }

    /// Counts one successful download.
    pub fn record_downloaded(&mut self)
        requires
            old(self).downloaded < u32::MAX,
        ensures
            final(self).uploaded == old(self).uploaded,
            final(self).downloaded == old(self).downloaded + 1,
            final(self).deleted == old(self).deleted,
            final(self).skipped == old(self).skipped,
            final(self).errors@ == old(self).errors@,
    {
        self.downloaded = self.downloaded + 1;
    }

    /// Counts one successful deletion, local or remote.
    pub fn record_deleted(&mut self)
        requires
            old(self).deleted < u32::MAX,
        ensures
            final(self).uploaded == old(self).uploaded,
            final(self).downloaded == old(self).downloaded,
            final(self).deleted == old(self).deleted + 1,
            final(self).skipped == old(self).skipped,
            final(self).errors@ == old(self).errors@,
    {
        self.deleted = self.deleted + 1;
    }

    /// Counts one skipped operation.
    pub fn record_skipped(&mut self)
        requires
            old(self).skipped < u32::MAX,
        ensures
            final(self).uploaded == old(self).uploaded,
            final(self).downloaded == old(self).downloaded,
            final(self).deleted == old(self).deleted,
            final(self).skipped == old(self).skipped + 1,
            final(self).errors@ == old(self).errors@,
    {
        self.skipped = self.skipped + 1;
    }

    /// Records a failed operation; the other counts are left alone.
    pub fn record_error(&mut self, message: String)
        ensures
            final(self).uploaded == old(self).uploaded,
            final(self).downloaded == old(self).downloaded,
            final(self).deleted == old(self).deleted,
            final(self).skipped == old(self).skipped,
            final(self).errors@ == old(self).errors@.push(message),
    {
        self.errors.push(message);
    }
}

// ---------------------------------------------------------------------------
// Exclusion
// ---------------------------------------------------------------------------

/// The lower-case form of a string, as `str::to_lowercase` gives it.
pub uninterp spec fn lower_of(s: Seq<char>) -> Seq<char>;

/// Relies on `str::to_lowercase`: the lower-case form depends on the
/// characters alone.
#[verifier::external_body]
fn lowercase(s: &str) -> (r: String)
    ensures
        r@ == lower_of(s@),
{
    s.to_lowercase()
}

/// Whether a lower-cased pattern matches a lower-cased path: a pattern that
/// starts with `*` matches a path ending with the rest of the pattern; any
/// other pattern matches a path that contains it.
pub open spec fn lowered_pattern_matches(path_lower: Seq<char>, pattern_lower: Seq<char>) -> bool {
    if pattern_lower.len() > 0 && pattern_lower[0] == '*' {
        ends_with(path_lower, pattern_lower.drop_first())
    } else {
        contains_run(path_lower, pattern_lower)
    }
}

/// Whether some pattern matches the path, ignoring case.
pub open spec fn is_excluded(path: Seq<char>, patterns: Seq<String>) -> bool {
    exists|i: int|
        0 <= i < patterns.len() && lowered_pattern_matches(
            lower_of(path),
            lower_of(#[trigger] patterns[i]@),
        )
}

fn matches_lowered_chars(path_lower: &Vec<char>, pattern_lower: &Vec<char>) -> (r: bool)
    ensures
        r == lowered_pattern_matches(path_lower@, pattern_lower@),
{
    if pattern_lower.len() > 0 && pattern_lower[0] == '*' {
        assert(pattern_lower@.subrange(1, pattern_lower@.len() as int)
            =~= pattern_lower@.drop_first());
        ends_with_from(path_lower, pattern_lower, 1)
    } else {
        contains_chars(path_lower, pattern_lower)
    }
}

/// Whether a lower-cased pattern matches a lower-cased path.
pub fn matches_lowered(path_lower: &str, pattern_lower: &str) -> (r: bool)
    ensures
        r == lowered_pattern_matches(path_lower@, pattern_lower@),
{
    let path_chars = chars_of(path_lower);
    let pattern_chars = chars_of(pattern_lower);
    matches_lowered_chars(&path_chars, &pattern_chars)
}

/// Checks whether a path matches any exclude pattern, ignoring case.
pub fn should_exclude(path: &str, patterns: &[String]) -> (r: bool)
    ensures
        r == is_excluded(path@, patterns@),
{
    let path_lower = lowercase(path);
    let path_chars = chars_of(path_lower.as_str());
    let mut i: usize = 0;
    while i < patterns.len()
        invariant
            path_chars@ == lower_of(path@),
            i <= patterns@.len(),
            forall|k: int|
                0 <= k < i ==> !lowered_pattern_matches(
                    lower_of(path@),
                    lower_of(#[trigger] patterns@[k]@),
                ),
        decreases patterns.len() - i,
    {
        let pattern_lower = lowercase(patterns[i].as_str());
        let pattern_chars = chars_of(pattern_lower.as_str());
        if matches_lowered_chars(&path_chars, &pattern_chars) {
            return true;
        }
        i = i + 1;
    }
    false
}

// ---------------------------------------------------------------------------
// Timestamps
// ---------------------------------------------------------------------------

/// Whole seconds from `r` to `l`, rounded toward zero.
pub open spec fn whole_seconds_between(l: Timestamp, r: Timestamp) -> int {
    let d = l.total_nanos() - r.total_nanos();
    if d >= 0 {
        d / 1_000_000_000
    } else {
        -((-d) / 1_000_000_000)
    }
}

/// Both instants are known and lie within the tolerance of each other.
pub open spec fn within_tolerance(local: Option<Timestamp>, remote: Option<Timestamp>) -> bool {
    match (local, remote) {
        (Some(l), Some(r)) => {
            let d = whole_seconds_between(l, r);
            -TIMESTAMP_TOLERANCE_SECS <= d <= TIMESTAMP_TOLERANCE_SECS
        },
        _ => false,
    }
}

/// Which side is newer beyond the tolerance; `None` when the instants are
/// equal within tolerance or one of them is unknown.
pub open spec fn newer_side(local: Option<Timestamp>, remote: Option<Timestamp>) -> Option<
    SyncStatus,
> {
    match (local, remote) {
        (Some(l), Some(r)) => {
            let d = whole_seconds_between(l, r);
            if -TIMESTAMP_TOLERANCE_SECS <= d <= TIMESTAMP_TOLERANCE_SECS {
                None
            } else if d > 0 {
                Some(SyncStatus::LocalNewer)
            } else {
                Some(SyncStatus::RemoteNewer)
            }
        },
        _ => None,
    }
}

fn seconds_between(l: Timestamp, r: Timestamp) -> (d: i128)
    ensures
        d == whole_seconds_between(l, r),
{
    let ds: i128 = l.secs as i128 - r.secs as i128;
    let dn: i128 = l.nanos as i128 - r.nanos as i128;
    assert(-0x1_0000_0000_0000_0000 <= ds <= 0x1_0000_0000_0000_0000);
    assert(-0x1_0000_0000_0000_0000 * 1_000_000_000 <= ds * 1_000_000_000
        <= 0x1_0000_0000_0000_0000 * 1_000_000_000) by (nonlinear_arith)
        requires
            -0x1_0000_0000_0000_0000 <= ds <= 0x1_0000_0000_0000_0000,
    ;
    let delta: i128 = ds * NANOS_PER_SEC + dn;
    assert(delta == l.total_nanos() - r.total_nanos());
    if delta >= 0 {
        delta / NANOS_PER_SEC
    } else {
        -((-delta) / NANOS_PER_SEC)
    }
}

/// Compares two timestamps with tolerance: true when both are known and
/// lie within two seconds of each other.
pub fn timestamps_equal(local: Option<Timestamp>, remote: Option<Timestamp>) -> (r: bool)
    ensures
        r == within_tolerance(local, remote),
{
    match (local, remote) {
        (Some(l), Some(r)) => {
            let d = seconds_between(l, r);
            -(TIMESTAMP_TOLERANCE_SECS as i128) <= d && d <= TIMESTAMP_TOLERANCE_SECS as i128
        },
        _ => false,
    }
}

/// Determines which timestamp is newer: `None` when they are equal within
/// tolerance or one of them is missing.
pub fn compare_timestamps(local: Option<Timestamp>, remote: Option<Timestamp>) -> (r: Option<
    SyncStatus,
>)
    ensures
        r == newer_side(local, remote),
{
    match (local, remote) {
        (Some(l), Some(r)) => {
            let d = seconds_between(l, r);
            if -(TIMESTAMP_TOLERANCE_SECS as i128) <= d && d <= TIMESTAMP_TOLERANCE_SECS as i128 {
                None
            } else if d > 0 {
                Some(SyncStatus::LocalNewer)
            } else {
                Some(SyncStatus::RemoteNewer)
            }
        },
        _ => None,
    }
}

// ---------------------------------------------------------------------------
// Classification and actions
// ---------------------------------------------------------------------------

/// The status of one path, from what each side holds of it.
pub open spec fn classify(
    local: Option<FileInfo>,
    remote: Option<FileInfo>,
    options: CompareOptions,
) -> SyncStatus {
    match (local, remote) {
        (None, None) => SyncStatus::Identical,
        (Some(_), None) => SyncStatus::LocalOnly,
        (None, Some(_)) => SyncStatus::RemoteOnly,
        (Some(l), Some(r)) => {
            if options.compare_size && l.size != r.size {
                if options.compare_timestamp {
                    match newer_side(l.modified, r.modified) {
                        Some(s) => s,
                        None => SyncStatus::SizeMismatch,
                    }
                } else {
                    SyncStatus::SizeMismatch
                }
            } else if options.compare_timestamp {
                match newer_side(l.modified, r.modified) {
                    Some(s) => s,
                    None => SyncStatus::Identical,
                }
            } else {
                SyncStatus::Identical
            }
        },
    }
}

/// The value behind an optional reference.
pub open spec fn deref_info(o: Option<&FileInfo>) -> Option<FileInfo> {
    match o {
        Some(f) => Some(*f),
        None => None,
    }
}

/// Compares a single file pair and determines its status.
pub fn compare_file_pair(
    local: Option<&FileInfo>,
    remote: Option<&FileInfo>,
    options: &CompareOptions,
) -> (r: SyncStatus)
    ensures
        r == classify(deref_info(local), deref_info(remote), *options),
{
    match (local, remote) {
        (None, None) => SyncStatus::Identical,
        (Some(_), None) => SyncStatus::LocalOnly,
        (None, Some(_)) => SyncStatus::RemoteOnly,
        (Some(l), Some(r)) => {
            if options.compare_size && l.size != r.size {
                if options.compare_timestamp {
                    match compare_timestamps(l.modified, r.modified) {
                        Some(status) => status,
                        None => SyncStatus::SizeMismatch,
                    }
                } else {
                    SyncStatus::SizeMismatch
                }
            } else if options.compare_timestamp {
                if timestamps_equal(l.modified, r.modified) {
                    SyncStatus::Identical
                } else {
                    match compare_timestamps(l.modified, r.modified) {
                        Some(status) => status,
                        None => SyncStatus::Identical,
                    }
                }
            } else {
                SyncStatus::Identical
            }
        },
    }
}

/// The action that a status calls for in a direction of synchronization.
/// One-way directions mirror the source: a path that exists only on the
/// destination is deleted there.
pub open spec fn recommended_action(status: SyncStatus, direction: SyncDirection) -> SyncAction {
    match status {
        SyncStatus::Identical => SyncAction::Skip,
        SyncStatus::Conflict => SyncAction::AskUser,
        SyncStatus::SizeMismatch => SyncAction::AskUser,
        SyncStatus::LocalNewer => match direction {
            SyncDirection::RemoteToLocal => SyncAction::Skip,
            _ => SyncAction::Upload,
        },
        SyncStatus::RemoteNewer => match direction {
            SyncDirection::LocalToRemote => SyncAction::Skip,
            _ => SyncAction::Download,
        },
        SyncStatus::LocalOnly => match direction {
            SyncDirection::RemoteToLocal => SyncAction::DeleteLocal,
            _ => SyncAction::Upload,
        },
        SyncStatus::RemoteOnly => match direction {
            SyncDirection::LocalToRemote => SyncAction::DeleteRemote,
            _ => SyncAction::Download,
        },
    }
}

/// Determines the recommended action for a comparison status and a
/// direction.
pub fn get_recommended_action(status: &SyncStatus, direction: &SyncDirection) -> (r: SyncAction)
    ensures
        r == recommended_action(*status, *direction),
{
    match (status, direction) {
        (SyncStatus::LocalNewer, SyncDirection::Bidirectional) => SyncAction::Upload,
        (SyncStatus::RemoteNewer, SyncDirection::Bidirectional) => SyncAction::Download,
        (SyncStatus::LocalOnly, SyncDirection::Bidirectional) => SyncAction::Upload,
        (SyncStatus::RemoteOnly, SyncDirection::Bidirectional) => SyncAction::Download,
        (SyncStatus::Conflict, _) => SyncAction::AskUser,
        (SyncStatus::SizeMismatch, _) => SyncAction::AskUser,
        (SyncStatus::LocalNewer, SyncDirection::LocalToRemote) => SyncAction::Upload,
        (SyncStatus::LocalOnly, SyncDirection::LocalToRemote) => SyncAction::Upload,
        (SyncStatus::RemoteNewer, SyncDirection::LocalToRemote) => SyncAction::Skip,
        (SyncStatus::RemoteOnly, SyncDirection::LocalToRemote) => SyncAction::DeleteRemote,
        (SyncStatus::RemoteNewer, SyncDirection::RemoteToLocal) => SyncAction::Download,
        (SyncStatus::RemoteOnly, SyncDirection::RemoteToLocal) => SyncAction::Download,
        (SyncStatus::LocalNewer, SyncDirection::RemoteToLocal) => SyncAction::Skip,
        (SyncStatus::LocalOnly, SyncDirection::RemoteToLocal) => SyncAction::DeleteLocal,
        (SyncStatus::Identical, _) => SyncAction::Skip,
    }
}

// ---------------------------------------------------------------------------
// Inventories
// ---------------------------------------------------------------------------

/// One side's files, keyed by relative path. Each path occurs once, and the
/// entries are kept in byte-wise order of their paths.
#[derive(Debug, Clone)]
pub struct Inventory {
    entries: Vec<(String, FileInfo)>,
}

impl View for Inventory {
    type V = Map<Seq<char>, FileInfo>;

    closed spec fn view(&self) -> Map<Seq<char>, FileInfo> {
        Map::new(
            |k: Seq<char>| exists|i: int| 0 <= i < self.entries@.len() && #[trigger] self.entries@[i].0@ == k,
            |k: Seq<char>|
                self.entries@[choose|i: int|
                    0 <= i < self.entries@.len() && #[trigger] self.entries@[i].0@ == k].1,
        )
    }
}

impl Inventory {
    /// The paths are strictly increasing in byte-wise order.
    pub closed spec fn wf(&self) -> bool {
        forall|a: int, b: int|
            0 <= a < b < self.entries@.len() ==> path_lt(
                #[trigger] self.entries@[a].0@,
                #[trigger] self.entries@[b].0@,
            )
    }

    proof fn lemma_entries_in_view(&self)
        requires
            self.wf(),
        ensures
            forall|i: int|
                0 <= i < self.entries@.len() ==> {
                    &&& #[trigger] self@.contains_key(self.entries@[i].0@)
                    &&& self@[self.entries@[i].0@] == self.entries@[i].1
                },
            forall|k: Seq<char>|
                #[trigger] self@.contains_key(k) ==> exists|i: int|
                    0 <= i < self.entries@.len() && #[trigger] self.entries@[i].0@ == k,
    {
        assert forall|i: int| 0 <= i < self.entries@.len() implies {
            &&& #[trigger] self@.contains_key(self.entries@[i].0@)
            &&& self@[self.entries@[i].0@] == self.entries@[i].1
        } by {
            let k = self.entries@[i].0@;
            assert(self.entries@[i].0@ == k);
            assert forall|j: int|
                0 <= j < self.entries@.len() && #[trigger] self.entries@[j].0@ == k implies j
                == i by {
                if j < i {
                    lemma_path_lt_asymmetric(self.entries@[j].0@, self.entries@[i].0@);
                } else if i < j {
                    lemma_path_lt_asymmetric(self.entries@[i].0@, self.entries@[j].0@);
                }
            }
        }
    }

    /// An empty inventory.
    pub fn new() -> (r: Self)
        ensures
            r.wf(),
            r@ == Map::<Seq<char>, FileInfo>::empty(),
    {
        let r = Inventory { entries: Vec::new() };
        assert(r@ =~= Map::<Seq<char>, FileInfo>::empty());
        r
    }

    /// Records `info` under `path`, replacing what was there.
    pub fn insert(&mut self, path: String, info: FileInfo)
        requires
            old(self).wf(),
        ensures
            final(self).wf(),
            final(self)@ == old(self)@.insert(path@, info),
    {
        let n = self.entries.len();
        let mut pos: usize = 0;
        let mut hi: usize = n;
        while pos < hi
            invariant
                self.wf(),
                n == self.entries.len(),
                pos <= hi <= n,
                forall|a: int| 0 <= a < pos ==> path_lt(#[trigger] self.entries@[a].0@, path@),
                forall|a: int| hi <= a < n ==> !path_lt(#[trigger] self.entries@[a].0@, path@),
            decreases hi - pos,
        {
            let mid = pos + (hi - pos) / 2;
            if compare_paths(self.entries[mid].0.as_str(), path.as_str()) < 0 {
                assert forall|a: int| 0 <= a < mid + 1 implies path_lt(
                    #[trigger] self.entries@[a].0@,
                    path@,
                ) by {
                    if a < mid {
                        lemma_path_lt_transitive(
                            self.entries@[a].0@,
                            self.entries@[mid as int].0@,
                            path@,
                        );
                    }
                }
                pos = mid + 1;
            } else {
                assert forall|a: int| mid <= a < n implies !path_lt(
                    #[trigger] self.entries@[a].0@,
                    path@,
                ) by {
                    if mid < a < hi && path_lt(self.entries@[a].0@, path@) {
                        lemma_path_lt_transitive(
                            self.entries@[mid as int].0@,
                            self.entries@[a].0@,
                            path@,
                        );
                    }
                }
                hi = mid;
            }
        }
        let ghost old_entries = self.entries@;
        proof {
            self.lemma_entries_in_view();
        }
        let ghost old_view = self@;
        if pos < n && compare_paths(self.entries[pos].0.as_str(), path.as_str()) == 0 {
            let ghost key = path@;
            self.entries[pos] = (path, info);
            assert(self.wf()) by {
                assert forall|a: int, b: int|
                    0 <= a < b < self.entries@.len() implies path_lt(
                    #[trigger] self.entries@[a].0@,
                    #[trigger] self.entries@[b].0@,
                ) by {
                    assert(old_entries[a].0@ == self.entries@[a].0@ || a == pos);
                    assert(old_entries[b].0@ == self.entries@[b].0@ || b == pos);
                    assert(path_lt(old_entries[a].0@, old_entries[b].0@));
                }
            }
            proof {
                self.lemma_entries_in_view();
                assert forall|k: Seq<char>| #[trigger] self@.contains_key(k) == old_view.insert(key, info).contains_key(k) by {
                    if old_view.contains_key(k) {
                        let i = choose|i: int| 0 <= i < old_entries.len() && #[trigger] old_entries[i].0@ == k;
                        assert(self.entries@[i].0@ == k);
                    }
                    if self@.contains_key(k) {
                        let i = choose|i: int| 0 <= i < self.entries@.len() && #[trigger] self.entries@[i].0@ == k;
                        assert(old_entries[i].0@ == k || k == key);
                    }
                }
                assert forall|k: Seq<char>| #[trigger] self@.contains_key(k) implies self@[k] == old_view.insert(key, info)[k] by {
                    let i = choose|i: int| 0 <= i < self.entries@.len() && #[trigger] self.entries@[i].0@ == k;
                    if i != pos {
                        assert(old_entries[i].0@ == k);
                        assert(k != key) by {
                            if i < pos {
                                lemma_path_lt_asymmetric(old_entries[i].0@, old_entries[pos as int].0@);
                            } else {
                                lemma_path_lt_asymmetric(old_entries[pos as int].0@, old_entries[i].0@);
                            }
                        }
                    }
                }
                assert(self@ =~= old_view.insert(key, info));
            }
        } else {
            let ghost key = path@;
            proof {
                if pos < n {
                    assert(path_lt(key, old_entries[pos as int].0@));
                }
            }
            self.entries.insert(pos, (path, info));
            assert(self.wf()) by {
                assert forall|a: int, b: int|
                    0 <= a < b < self.entries@.len() implies path_lt(
                    #[trigger] self.entries@[a].0@,
                    #[trigger] self.entries@[b].0@,
                ) by {
                    if b < pos {
                        assert(path_lt(old_entries[a].0@, old_entries[b].0@));
                    } else if b == pos {
                    } else if a < pos {
                        assert(path_lt(old_entries[a].0@, key));
                        assert(path_lt(key, old_entries[pos as int].0@));
                        if b - 1 > pos {
                            assert(path_lt(old_entries[pos as int].0@, old_entries[b - 1].0@));
                            lemma_path_lt_transitive(key, old_entries[pos as int].0@, old_entries[b - 1].0@);
                        }
                        lemma_path_lt_transitive(old_entries[a].0@, key, old_entries[b - 1].0@);
                    } else if a == pos {
                        if b - 1 > pos {
                            assert(path_lt(old_entries[pos as int].0@, old_entries[b - 1].0@));
                            lemma_path_lt_transitive(key, old_entries[pos as int].0@, old_entries[b - 1].0@);
                        }
                    } else {
                        assert(path_lt(old_entries[a - 1].0@, old_entries[b - 1].0@));
                    }
                }
            }
            proof {
                self.lemma_entries_in_view();
                assert forall|k: Seq<char>| #[trigger] self@.contains_key(k) == old_view.insert(key, info).contains_key(k) by {
                    if old_view.contains_key(k) {
                        let i = choose|i: int| 0 <= i < old_entries.len() && #[trigger] old_entries[i].0@ == k;
                        if i < pos {
                            assert(self.entries@[i].0@ == k);
                        } else {
                            assert(self.entries@[i + 1].0@ == k);
                        }
                    }
                    if k == key {
                        assert(self.entries@[pos as int].0@ == k);
                    }
                    if self@.contains_key(k) {
                        let i = choose|i: int| 0 <= i < self.entries@.len() && #[trigger] self.entries@[i].0@ == k;
                        if i < pos {
                            assert(old_entries[i].0@ == k);
                        } else if i > pos {
                            assert(old_entries[i - 1].0@ == k);
                        }
                    }
                }
                assert forall|k: Seq<char>| #[trigger] self@.contains_key(k) implies self@[k] == old_view.insert(key, info)[k] by {
                    let i = choose|i: int| 0 <= i < self.entries@.len() && #[trigger] self.entries@[i].0@ == k;
                    if i != pos {
                        lemma_path_lt_irreflexive(k);
                        if i < pos {
                            assert(old_entries[i].0@ == k);
                        } else {
                            assert(old_entries[i - 1].0@ == k);
                        }
                    }
                }
                assert(self@ =~= old_view.insert(key, info));
            }
        }
    }
}

// ---------------------------------------------------------------------------
// Building the comparison
// ---------------------------------------------------------------------------

/// What a side holds of a path.
pub open spec fn lookup(m: Map<Seq<char>, FileInfo>, p: Seq<char>) -> Option<FileInfo> {
    if m.contains_key(p) {
        Some(m[p])
    } else {
        None
    }
}

/// Either side marks the path as a directory.
pub open spec fn either_is_dir(local: Option<FileInfo>, remote: Option<FileInfo>) -> bool {
    (local is Some && local->0.is_dir) || (remote is Some && remote->0.is_dir)
}

/// A comparison is shown unless it is identical and not a directory.
pub open spec fn is_shown(status: SyncStatus, is_dir: bool) -> bool {
    status != SyncStatus::Identical || is_dir
}

/// The path belongs in the comparison of the two inventories: it is on
/// either side, no pattern excludes it, and it is shown.
pub open spec fn is_listed(
    p: Seq<char>,
    local: Map<Seq<char>, FileInfo>,
    remote: Map<Seq<char>, FileInfo>,
    options: CompareOptions,
) -> bool {
    &&& local.contains_key(p) || remote.contains_key(p)
    &&& !is_excluded(p, options.exclude_patterns@)
    &&& is_shown(
        classify(lookup(local, p), lookup(remote, p), options),
        either_is_dir(lookup(local, p), lookup(remote, p)),
    )
}

/// The record holds what each side has of its path, and the status and
/// directory flag derived from that.
pub open spec fn is_record_of(
    c: FileComparison,
    local: Map<Seq<char>, FileInfo>,
    remote: Map<Seq<char>, FileInfo>,
    options: CompareOptions,
) -> bool {
    &&& c.local_info == lookup(local, c.relative_path@)
    &&& c.remote_info == lookup(remote, c.relative_path@)
    &&& c.status == classify(c.local_info, c.remote_info, options)
    &&& c.is_dir == either_is_dir(c.local_info, c.remote_info)
}

/// `s` is the comparison of the two inventories: one record for each listed
/// path and no other, in strictly increasing byte-wise order of paths.
pub open spec fn is_comparison_of(
    s: Seq<FileComparison>,
    local: Map<Seq<char>, FileInfo>,
    remote: Map<Seq<char>, FileInfo>,
    options: CompareOptions,
) -> bool {
    &&& forall|x: int, y: int|
        0 <= x < y < s.len() ==> path_lt(
            #[trigger] s[x].relative_path@,
            #[trigger] s[y].relative_path@,
        )
    &&& forall|x: int|
        0 <= x < s.len() ==> is_record_of(#[trigger] s[x], local, remote, options) && is_listed(
            s[x].relative_path@,
            local,
            remote,
            options,
        )
    &&& forall|p: Seq<char>|
        #[trigger] is_listed(p, local, remote, options) ==> exists|x: int|
            0 <= x < s.len() && #[trigger] s[x].relative_path@ == p
}

fn copy_info(f: &FileInfo) -> (r: FileInfo)
    ensures
        r == *f,
{
    let checksum = match &f.checksum {
        Some(c) => Some(c.clone()),
        None => None,
    };
    FileInfo {
        name: f.name.clone(),
        path: f.path.clone(),
        size: f.size,
        modified: f.modified,
        is_dir: f.is_dir,
        checksum,
    }
}

fn copy_opt_info(f: Option<&FileInfo>) -> (r: Option<FileInfo>)
    ensures
        r == deref_info(f),
{
    match f {
        Some(f) => Some(copy_info(f)),
        None => None,
    }
}

/// The record for one path, or `None` when the path is excluded or not
/// shown.
fn make_record(
    path: &String,
    local: Option<&FileInfo>,
    remote: Option<&FileInfo>,
    options: &CompareOptions,
) -> (r: Option<FileComparison>)
    ensures
        r is Some <==> !is_excluded(path@, options.exclude_patterns@) && is_shown(
            classify(deref_info(local), deref_info(remote), *options),
            either_is_dir(deref_info(local), deref_info(remote)),
        ),
        r is Some ==> {
            &&& r->0.relative_path@ == path@
            &&& r->0.local_info == deref_info(local)
            &&& r->0.remote_info == deref_info(remote)
            &&& r->0.status == classify(deref_info(local), deref_info(remote), *options)
            &&& r->0.is_dir == either_is_dir(deref_info(local), deref_info(remote))
        },
{
    if should_exclude(path.as_str(), options.exclude_patterns.as_slice()) {
        return None;
    }
    let status = compare_file_pair(local, remote, options);
    let local_dir = match local {
        Some(f) => f.is_dir,
        None => false,
    };
    let remote_dir = match remote {
        Some(f) => f.is_dir,
        None => false,
    };
    let is_dir = local_dir || remote_dir;
    if status != SyncStatus::Identical || is_dir {
        Some(
            FileComparison {
                relative_path: path.clone(),
                status,
                local_info: copy_opt_info(local),
                remote_info: copy_opt_info(remote),
                is_dir,
            },
        )
    } else {
        None
    }
}

impl Inventory {
    /// A path that sorts after every entry before `j` and before the entry
    /// at `j` (if any) is not in the inventory, and sorts before every
    /// entry from `j` on.
    proof fn lemma_between(&self, k: Seq<char>, j: int)
        requires
            self.wf(),
            0 <= j <= self.entries@.len(),
            forall|b: int| 0 <= b < j ==> path_lt(#[trigger] self.entries@[b].0@, k),
            j < self.entries@.len() ==> path_lt(k, self.entries@[j].0@),
        ensures
            !self@.contains_key(k),
            forall|b: int|
                j <= b < self.entries@.len() ==> path_lt(k, #[trigger] self.entries@[b].0@),
    {
        self.lemma_entries_in_view();
        assert forall|b: int| j <= b < self.entries@.len() implies path_lt(
            k,
            #[trigger] self.entries@[b].0@,
        ) by {
            if b > j {
                lemma_path_lt_transitive(k, self.entries@[j].0@, self.entries@[b].0@);
            }
        }
        if self@.contains_key(k) {
            let b = choose|b: int| 0 <= b < self.entries@.len() && #[trigger] self.entries@[b].0@ == k;
            lemma_path_lt_irreflexive(k);
        }
    }
}

proof fn lemma_path_kept(old: Seq<FileComparison>, new: Seq<FileComparison>, p: Seq<char>)
    requires
        old.len() <= new.len(),
        forall|x: int| 0 <= x < old.len() ==> #[trigger] new[x] == old[x],
        exists|x: int| 0 <= x < old.len() && #[trigger] old[x].relative_path@ == p,
    ensures
        exists|x: int| 0 <= x < new.len() && #[trigger] new[x].relative_path@ == p,
{
    let x = choose|x: int| 0 <= x < old.len() && #[trigger] old[x].relative_path@ == p;
    assert(new[x].relative_path@ == p);
}

/// Builds the comparison of a local and a remote inventory: one record for
/// each path on either side that no pattern excludes, leaving out identical
/// files (directories are always kept), sorted byte-wise by path.
pub fn build_comparison_results(
    local_files: Inventory,
    remote_files: Inventory,
    options: &CompareOptions,
) -> (r: Vec<FileComparison>)
    requires
        local_files.wf(),
        remote_files.wf(),
    ensures
        is_comparison_of(r@, local_files@, remote_files@, *options),
{
    proof {
        local_files.lemma_entries_in_view();
        remote_files.lemma_entries_in_view();
    }
    let ghost lm = local_files@;
    let ghost rm = remote_files@;
    let lo = &local_files.entries;
    let ro = &remote_files.entries;
    let mut results: Vec<FileComparison> = Vec::new();
    let mut i: usize = 0;
    let mut j: usize = 0;
    while i < lo.len() || j < ro.len()
        invariant
            local_files.wf(),
            remote_files.wf(),
            lm == local_files@,
            rm == remote_files@,
            lo@ == local_files.entries@,
            ro@ == remote_files.entries@,
            forall|a: int|
                0 <= a < lo@.len() ==> {
                    &&& #[trigger] lm.contains_key(lo@[a].0@)
                    &&& lm[lo@[a].0@] == lo@[a].1
                },
            forall|b: int|
                0 <= b < ro@.len() ==> {
                    &&& #[trigger] rm.contains_key(ro@[b].0@)
                    &&& rm[ro@[b].0@] == ro@[b].1
                },
            forall|k: Seq<char>|
                #[trigger] lm.contains_key(k) ==> exists|a: int|
                    0 <= a < lo@.len() && #[trigger] lo@[a].0@ == k,
            forall|k: Seq<char>|
                #[trigger] rm.contains_key(k) ==> exists|b: int|
                    0 <= b < ro@.len() && #[trigger] ro@[b].0@ == k,
            i <= lo@.len(),
            j <= ro@.len(),
            forall|x: int, y: int|
                0 <= x < y < results@.len() ==> path_lt(
                    #[trigger] results@[x].relative_path@,
                    #[trigger] results@[y].relative_path@,
                ),
            forall|x: int|
                0 <= x < results@.len() ==> is_record_of(
                    #[trigger] results@[x],
                    lm,
                    rm,
                    *options,
                ) && is_listed(results@[x].relative_path@, lm, rm, *options),
            forall|x: int, a: int|
                0 <= x < results@.len() && i <= a < lo@.len() ==> path_lt(
                    #[trigger] results@[x].relative_path@,
                    #[trigger] lo@[a].0@,
                ),
            forall|x: int, b: int|
                0 <= x < results@.len() && j <= b < ro@.len() ==> path_lt(
                    #[trigger] results@[x].relative_path@,
                    #[trigger] ro@[b].0@,
                ),
            forall|a: int, b: int|
                0 <= a < i && j <= b < ro@.len() ==> path_lt(#[trigger] lo@[a].0@, #[trigger] ro@[b].0@),
            forall|a: int, b: int|
                0 <= b < j && i <= a < lo@.len() ==> path_lt(#[trigger] ro@[b].0@, #[trigger] lo@[a].0@),
            forall|a: int|
                0 <= a < i && is_listed(#[trigger] lo@[a].0@, lm, rm, *options) ==> exists|x: int|
                    0 <= x < results@.len() && #[trigger] results@[x].relative_path@ == lo@[a].0@,
            forall|b: int|
                0 <= b < j && is_listed(#[trigger] ro@[b].0@, lm, rm, *options) ==> exists|x: int|
                    0 <= x < results@.len() && #[trigger] results@[x].relative_path@ == ro@[b].0@,
        decreases lo@.len() - i + ro@.len() - j,
    {
        let c: i8 = if i == lo.len() {
            1
        } else if j == ro.len() {
            -1
        } else {
            compare_paths(lo[i].0.as_str(), ro[j].0.as_str())
        };
        let ghost old_results = results@;
        if c < 0 {
            let ghost k = lo@[i as int].0@;
            proof {
                remote_files.lemma_between(k, j as int);
            }
            let rec = make_record(&lo[i].0, Some(&lo[i].1), None, options);
            match rec {
                Some(rec) => {
                    results.push(rec);
                },
                None => {},
            }
            proof {
                assert(lookup(lm, k) == Some(lo@[i as int].1));
                assert(lookup(rm, k) == None::<FileInfo>);
                assert forall|x: int| 0 <= x < old_results.len() implies #[trigger] results@[x]
                    == old_results[x] by {}
                assert forall|a: int| i + 1 <= a < lo@.len() implies path_lt(
                    k,
                    #[trigger] lo@[a].0@,
                ) by {}
                assert forall|a: int|
                    0 <= a < i + 1 && is_listed(#[trigger] lo@[a].0@, lm, rm, *options) implies exists|x: int|
                    0 <= x < results@.len() && #[trigger] results@[x].relative_path@ == lo@[a].0@ by {
                    if a < i {
                        lemma_path_kept(old_results, results@, lo@[a].0@);
                    } else {
                        assert(results@[old_results.len() as int].relative_path@ == k);
                    }
                }
                assert forall|b: int|
                    0 <= b < j && is_listed(#[trigger] ro@[b].0@, lm, rm, *options) implies exists|x: int|
                    0 <= x < results@.len() && #[trigger] results@[x].relative_path@ == ro@[b].0@ by {
                    lemma_path_kept(old_results, results@, ro@[b].0@);
                }
            }
            i = i + 1;
        } else if c > 0 {
            let ghost k = ro@[j as int].0@;
            proof {
                local_files.lemma_between(k, i as int);
            }
            let rec = make_record(&ro[j].0, None, Some(&ro[j].1), options);
            match rec {
                Some(rec) => {
                    results.push(rec);
                },
                None => {},
            }
            proof {
                assert(lookup(rm, k) == Some(ro@[j as int].1));
                assert(lookup(lm, k) == None::<FileInfo>);
                assert forall|x: int| 0 <= x < old_results.len() implies #[trigger] results@[x]
                    == old_results[x] by {}
                assert forall|b: int| j + 1 <= b < ro@.len() implies path_lt(
                    k,
                    #[trigger] ro@[b].0@,
                ) by {}
                assert forall|a: int|
                    0 <= a < i && is_listed(#[trigger] lo@[a].0@, lm, rm, *options) implies exists|x: int|
                    0 <= x < results@.len() && #[trigger] results@[x].relative_path@ == lo@[a].0@ by {
                    lemma_path_kept(old_results, results@, lo@[a].0@);
                }
                assert forall|b: int|
                    0 <= b < j + 1 && is_listed(#[trigger] ro@[b].0@, lm, rm, *options) implies exists|x: int|
                    0 <= x < results@.len() && #[trigger] results@[x].relative_path@ == ro@[b].0@ by {
                    if b < j {
                        lemma_path_kept(old_results, results@, ro@[b].0@);
                    } else {
                        assert(results@[old_results.len() as int].relative_path@ == k);
                    }
                }
            }
            j = j + 1;
        } else {
            let ghost k = lo@[i as int].0@;
            let rec = make_record(&lo[i].0, Some(&lo[i].1), Some(&ro[j].1), options);
            match rec {
                Some(rec) => {
                    results.push(rec);
                },
                None => {},
            }
            proof {
                assert(ro@[j as int].0@ == k);
                assert(lookup(lm, k) == Some(lo@[i as int].1));
                assert(lookup(rm, k) == Some(ro@[j as int].1));
                assert forall|x: int| 0 <= x < old_results.len() implies #[trigger] results@[x]
                    == old_results[x] by {}
                assert forall|a: int| i + 1 <= a < lo@.len() implies path_lt(
                    k,
                    #[trigger] lo@[a].0@,
                ) by {}
                assert forall|b: int| j + 1 <= b < ro@.len() implies path_lt(
                    k,
                    #[trigger] ro@[b].0@,
                ) by {}
                assert forall|a: int|
                    0 <= a < i + 1 && is_listed(#[trigger] lo@[a].0@, lm, rm, *options) implies exists|x: int|
                    0 <= x < results@.len() && #[trigger] results@[x].relative_path@ == lo@[a].0@ by {
                    if a < i {
                        lemma_path_kept(old_results, results@, lo@[a].0@);
                    } else {
                        assert(results@[old_results.len() as int].relative_path@ == k);
                    }
                }
                assert forall|b: int|
                    0 <= b < j + 1 && is_listed(#[trigger] ro@[b].0@, lm, rm, *options) implies exists|x: int|
                    0 <= x < results@.len() && #[trigger] results@[x].relative_path@ == ro@[b].0@ by {
                    if b < j {
                        lemma_path_kept(old_results, results@, ro@[b].0@);
                    } else {
                        assert(results@[old_results.len() as int].relative_path@ == k);
                    }
                }
            }
            i = i + 1;
            j = j + 1;
        }
    }
    proof {
        assert forall|p: Seq<char>| #[trigger] is_listed(p, lm, rm, *options) implies exists|x: int|
            0 <= x < results@.len() && #[trigger] results@[x].relative_path@ == p by {
            if lm.contains_key(p) {
                let a = choose|a: int| 0 <= a < lo@.len() && #[trigger] lo@[a].0@ == p;
            } else {
                let b = choose|b: int| 0 <= b < ro@.len() && #[trigger] ro@[b].0@ == p;
            }
        }
    }
    results
}

} // verus!
