//! The retention rule: which segment files an age- and size-bound sweep
//! removes.  Walking the directory and deleting files is the caller's
//! part; the decision is taken here, over plain sizes and ages.

use vstd::prelude::*;

verus! {

/// How long a segment is retained, in seconds: seven days.
pub const RETENTION_SECS: u64 = 604800;

/// How many log bytes are retained in all: ten gibibytes.
pub const MAX_LOG_SIZE: u64 = 10737418240;

/// The sizes of the first `i` segments, added up.
pub open spec fn spec_size_upto(segments: Seq<(u64, u64)>, i: int) -> int
    decreases i,
{
    if i <= 0 {
        0
    } else {
        spec_size_upto(segments, i - 1) + segments[i - 1].0
    }
}

/// A segment goes when the bytes up to and including it pass the size
/// bound, or when it is older than the retention window.
pub open spec fn spec_should_clean(segments: Seq<(u64, u64)>, i: int, now: u64) -> bool {
    spec_size_upto(segments, i + 1) > MAX_LOG_SIZE || now - segments[i].1 > RETENTION_SECS
}

/// Decide, for each segment of one directory, whether the sweep removes
/// it.  Each segment is a (size in bytes, created-at seconds) pair, in
/// ascending created-at order as the sweep walks them.
pub fn clean_old_segments_plan(segments: &Vec<(u64, u64)>, now: u64) -> (r: Vec<bool>)
    requires
        spec_size_upto(segments@, segments@.len() as int) <= u64::MAX,
        forall|i: int| 0 <= i < segments@.len() ==> (#[trigger] segments@[i]).1 <= now,
    ensures
        r@.len() == segments@.len(),
        forall|i: int|
            0 <= i < segments@.len() ==> r@[i] == spec_should_clean(segments@, i, now),
{
    let mut flags: Vec<bool> = Vec::new();
    let mut total: u64 = 0;
    let mut i: usize = 0;
    while i < segments.len()
        invariant
            i <= segments@.len(),
            flags@.len() == i,
            total == spec_size_upto(segments@, i as int),
            spec_size_upto(segments@, segments@.len() as int) <= u64::MAX,
            forall|j: int| 0 <= j < segments@.len() ==> (#[trigger] segments@[j]).1 <= now,
            forall|j: int| 0 <= j < i ==> flags@[j] == spec_should_clean(segments@, j, now),
        decreases segments@.len() - i,
    {
        proof {
            lemma_size_upto_monotone(segments@, i + 1, segments@.len() as int);
        }
        let (size, created) = segments[i];
        total = total + size;
        let flag = total > MAX_LOG_SIZE || now - created > RETENTION_SECS;
        flags.push(flag);
        i = i + 1;
    }
    flags
}

/// Prefix sums of sizes never shrink as the prefix grows.
proof fn lemma_size_upto_monotone(segments: Seq<(u64, u64)>, i: int, j: int)
    requires
        0 <= i <= j <= segments.len(),
    ensures
        spec_size_upto(segments, i) <= spec_size_upto(segments, j),
    decreases j - i,
{
    if i < j {
        lemma_size_upto_monotone(segments, i + 1, j);
    }
}

} // verus!
