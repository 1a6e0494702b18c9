//! Properties of classification and of the comparison of two inventories.
use vstd::prelude::*;
use crate::paths::{lemma_path_lt_asymmetric, path_lt};
use crate::sync::{
    classify, is_comparison_of, is_excluded, is_listed, newer_side, within_tolerance,
    FileComparison, FileInfo, CompareOptions, SyncStatus, Timestamp,
};

verus! {

/// A path held only locally is `LocalOnly`, whatever the options.
pub proof fn lemma_local_only(local: FileInfo, options: CompareOptions)
    ensures
        classify(Some(local), None, options) == SyncStatus::LocalOnly,
{
}

/// With both comparisons enabled, a pair of equal size whose timestamps lie
/// no more than two seconds apart is `Identical`.
pub proof fn lemma_equal_size_close_times_identical(
    local: FileInfo,
    remote: FileInfo,
    options: CompareOptions,
)
    requires
        options.compare_size,
        options.compare_timestamp,
        local.size == remote.size,
        local.modified is Some,
        remote.modified is Some,
        -2_000_000_000 <= local.modified->0.total_nanos() - remote.modified->0.total_nanos()
            <= 2_000_000_000,
    ensures
        classify(Some(local), Some(remote), options) == SyncStatus::Identical,
{
    let d = local.modified->0.total_nanos() - remote.modified->0.total_nanos();
    if d >= 0 {
        assert(d / 1_000_000_000 <= 2) by (nonlinear_arith)
            requires
                0 <= d <= 2_000_000_000,
        ;
    } else {
        assert((-d) / 1_000_000_000 <= 2) by (nonlinear_arith)
            requires
                0 < -d <= 2_000_000_000,
        ;
    }
}

/// Swapping the two instants swaps which side is newer, and leaves
/// "equal within tolerance" and "unknown" as they are.
pub proof fn lemma_swapped_timestamps(local: Option<Timestamp>, remote: Option<Timestamp>)
    ensures
        within_tolerance(remote, local) == within_tolerance(local, remote),
        newer_side(remote, local) == match newer_side(local, remote) {
            Some(SyncStatus::LocalNewer) => Some(SyncStatus::RemoteNewer),
            Some(SyncStatus::RemoteNewer) => Some(SyncStatus::LocalNewer),
            other => other,
        },
{
}

/// Exclusion is absolute: no record of the comparison carries a path that a
/// pattern excludes, whatever its status would be.
pub proof fn lemma_excluded_never_listed(
    s: Seq<FileComparison>,
    local: Map<Seq<char>, FileInfo>,
    remote: Map<Seq<char>, FileInfo>,
    options: CompareOptions,
    p: Seq<char>,
)
    requires
        is_comparison_of(s, local, remote, options),
        is_excluded(p, options.exclude_patterns@),
    ensures
        forall|x: int| 0 <= x < s.len() ==> (#[trigger] s[x]).relative_path@ != p,
{
    assert forall|x: int| 0 <= x < s.len() implies (#[trigger] s[x]).relative_path@ != p by {
        assert(is_listed(s[x].relative_path@, local, remote, options));
    }
}

/// The records of a comparison are in increasing byte-wise order of their
/// paths: a later path never sorts before an earlier one, nor equals it.
pub proof fn lemma_comparison_sorted(
    s: Seq<FileComparison>,
    local: Map<Seq<char>, FileInfo>,
    remote: Map<Seq<char>, FileInfo>,
    options: CompareOptions,
)
    requires
        is_comparison_of(s, local, remote, options),
    ensures
        forall|x: int, y: int|
            0 <= x < y < s.len() ==> path_lt(s[x].relative_path@, s[y].relative_path@) && !path_lt(
                #[trigger] s[y].relative_path@,
                #[trigger] s[x].relative_path@,
            ),
{
    assert forall|x: int, y: int| 0 <= x < y < s.len() implies path_lt(
        s[x].relative_path@,
        s[y].relative_path@,
    ) && !path_lt(#[trigger] s[y].relative_path@, #[trigger] s[x].relative_path@) by {
        lemma_path_lt_asymmetric(s[x].relative_path@, s[y].relative_path@);
    }
}

/// Strictly increasing sequences with the same elements are equal.
proof fn lemma_sorted_same_elements(a: Seq<Seq<char>>, b: Seq<Seq<char>>)
    requires
        forall|x: int, y: int| 0 <= x < y < a.len() ==> path_lt(#[trigger] a[x], #[trigger] a[y]),
        forall|x: int, y: int| 0 <= x < y < b.len() ==> path_lt(#[trigger] b[x], #[trigger] b[y]),
        forall|p: Seq<char>| a.contains(p) <==> b.contains(p),
    ensures
        a == b,
    decreases a.len(),
{
    if a.len() == 0 {
        if b.len() > 0 {
            assert(b.contains(b[0]));
        }
        assert(a =~= b);
    } else {
        assert(a.contains(a[0]));
        assert(b.len() > 0);
        assert(b.contains(b[0]));
        let k = choose|k: int| 0 <= k < b.len() && b[k] == a[0];
        let m = choose|m: int| 0 <= m < a.len() && a[m] == b[0];
        if k > 0 && m > 0 {
            assert(path_lt(b[0], b[k]));
            assert(path_lt(a[0], a[m]));
            lemma_path_lt_asymmetric(b[0], a[0]);
        } else if k > 0 {
            assert(path_lt(b[0], b[k]));
            lemma_path_lt_asymmetric(b[0], b[k]);
        } else if m > 0 {
            assert(path_lt(a[0], a[m]));
            lemma_path_lt_asymmetric(a[0], a[m]);
        }
        assert(a[0] == b[0]);
        let a1 = a.drop_first();
        let b1 = b.drop_first();
        assert forall|p: Seq<char>| a1.contains(p) <==> b1.contains(p) by {
            if a1.contains(p) {
                let x = choose|x: int| 0 <= x < a1.len() && a1[x] == p;
                assert(a[x + 1] == p);
                assert(path_lt(a[0], a[x + 1]));
                lemma_path_lt_asymmetric(a[0], p);
                assert(b.contains(p));
                let y = choose|y: int| 0 <= y < b.len() && b[y] == p;
                assert(y != 0);
                assert(b1[y - 1] == p);
            }
            if b1.contains(p) {
                let y = choose|y: int| 0 <= y < b1.len() && b1[y] == p;
                assert(b[y + 1] == p);
                assert(path_lt(b[0], b[y + 1]));
                lemma_path_lt_asymmetric(b[0], p);
                assert(a.contains(p));
                let x = choose|x: int| 0 <= x < a.len() && a[x] == p;
                assert(x != 0);
                assert(a1[x - 1] == p);
            }
        }
        assert forall|x: int, y: int| 0 <= x < y < a1.len() implies path_lt(
            #[trigger] a1[x],
            #[trigger] a1[y],
        ) by {
            assert(path_lt(a[x + 1], a[y + 1]));
        }
        assert forall|x: int, y: int| 0 <= x < y < b1.len() implies path_lt(
            #[trigger] b1[x],
            #[trigger] b1[y],
        ) by {
            assert(path_lt(b[x + 1], b[y + 1]));
        }
        lemma_sorted_same_elements(a1, b1);
        assert(a =~= b1.insert(0, b[0]));
        assert(b =~= b1.insert(0, b[0]));
    }
}

/// The paths of a comparison's records, in order.
pub open spec fn paths_of(s: Seq<FileComparison>) -> Seq<Seq<char>> {
    s.map_values(|c: FileComparison| c.relative_path@)
}

/// The comparison is determined by its inputs: two comparisons of the same
/// inventories under the same options hold the same records in the same
/// order, so building again yields the same sequence.
pub proof fn lemma_comparison_deterministic(
    s1: Seq<FileComparison>,
    s2: Seq<FileComparison>,
    local: Map<Seq<char>, FileInfo>,
    remote: Map<Seq<char>, FileInfo>,
    options: CompareOptions,
)
    requires
        is_comparison_of(s1, local, remote, options),
        is_comparison_of(s2, local, remote, options),
    ensures
        s1.len() == s2.len(),
        forall|x: int|
            0 <= x < s1.len() ==> {
                &&& (#[trigger] s1[x]).relative_path@ == s2[x].relative_path@
                &&& s1[x].status == s2[x].status
                &&& s1[x].local_info == s2[x].local_info
                &&& s1[x].remote_info == s2[x].remote_info
                &&& s1[x].is_dir == s2[x].is_dir
            },
{
    let a = paths_of(s1);
    let b = paths_of(s2);
    assert forall|x: int, y: int| 0 <= x < y < a.len() implies path_lt(
        #[trigger] a[x],
        #[trigger] a[y],
    ) by {
        assert(path_lt(s1[x].relative_path@, s1[y].relative_path@));
    }
    assert forall|x: int, y: int| 0 <= x < y < b.len() implies path_lt(
        #[trigger] b[x],
        #[trigger] b[y],
    ) by {
        assert(path_lt(s2[x].relative_path@, s2[y].relative_path@));
    }
    assert forall|p: Seq<char>| a.contains(p) <==> b.contains(p) by {
        if a.contains(p) {
            let x = choose|x: int| 0 <= x < a.len() && a[x] == p;
            assert(s1[x].relative_path@ == p);
            assert(is_listed(p, local, remote, options));
            let y = choose|y: int| 0 <= y < s2.len() && #[trigger] s2[y].relative_path@ == p;
            assert(b[y] == p);
        }
        if b.contains(p) {
            let y = choose|y: int| 0 <= y < b.len() && b[y] == p;
            assert(s2[y].relative_path@ == p);
            assert(is_listed(p, local, remote, options));
            let x = choose|x: int| 0 <= x < s1.len() && #[trigger] s1[x].relative_path@ == p;
            assert(a[x] == p);
        }
    }
    lemma_sorted_same_elements(a, b);
    assert forall|x: int| 0 <= x < s1.len() implies {
        &&& (#[trigger] s1[x]).relative_path@ == s2[x].relative_path@
        &&& s1[x].status == s2[x].status
        &&& s1[x].local_info == s2[x].local_info
        &&& s1[x].remote_info == s2[x].remote_info
        &&& s1[x].is_dir == s2[x].is_dir
    } by {
        assert(a[x] == b[x]);
    }
}

} // verus!
