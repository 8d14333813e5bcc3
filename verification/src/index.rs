//! Read-only view over an index image: a flat array of 16-byte entries,
//! each an (offset, file position) pair, sorted by offset.
//!
//! The segment rebuilds its view whenever the underlying index grows; the
//! view itself only searches.

use vstd::prelude::*;

use crate::codec::lemma_index_bytes_push;
use crate::codec::lemma_u64_be_bytes_inverse;
use crate::codec::lemma_u64_be_bytes_roundtrip;
use crate::codec::read_u64_at;
use crate::codec::spec_index_bytes;
use crate::codec::spec_index_entry_bytes;
use crate::codec::spec_parse_index;
use crate::codec::spec_u64_from_be_bytes;
use crate::codec::spec_u64_to_be_bytes;

verus! {

/// The entries' offsets grow strictly from first to last.
pub open spec fn spec_entries_sorted(entries: Seq<(u64, u64)>) -> bool {
    forall|i: int, j: int|
        0 <= i < j < entries.len() ==> #[trigger] entries[i].0 < #[trigger] entries[j].0
}

/// The position stored by the last entry whose offset is at most `target`,
/// if any entry's offset is.
pub open spec fn spec_find_floor(entries: Seq<(u64, u64)>, target: u64) -> Option<u64>
    decreases entries.len(),
{
    if entries.len() == 0 {
        None
    } else if entries.last().0 <= target {
        Some(entries.last().1)
    } else {
        spec_find_floor(entries.drop_last(), target)
    }
}

/// The position stored by the first entry whose offset is at least `target`,
/// if any entry's offset is.
pub open spec fn spec_find_ceil(entries: Seq<(u64, u64)>, target: u64) -> Option<u64>
    decreases entries.len(),
{
    if entries.len() == 0 {
        None
    } else if entries[0].0 >= target {
        Some(entries[0].1)
    } else {
        spec_find_ceil(entries.skip(1), target)
    }
}

/// An entry image is 16 bytes per entry.
pub proof fn lemma_index_bytes_len(entries: Seq<(u64, u64)>)
    ensures
        spec_index_bytes(entries).len() == 16 * entries.len(),
    decreases entries.len(),
{
    if entries.len() > 0 {
        lemma_index_bytes_len(entries.skip(1));
    }
}

/// Where each field of entry `i` sits inside the entry image.
pub proof fn lemma_index_bytes_at(entries: Seq<(u64, u64)>, i: int)
    requires
        0 <= i < entries.len(),
    ensures
        spec_index_bytes(entries).subrange(16 * i, 16 * i + 8) == spec_u64_to_be_bytes(
            entries[i].0,
        ),
        spec_index_bytes(entries).subrange(16 * i + 8, 16 * i + 16) == spec_u64_to_be_bytes(
            entries[i].1,
        ),
    decreases i,
{
    lemma_index_bytes_len(entries);
    lemma_index_bytes_len(entries.skip(1));
    if i == 0 {
        assert(spec_index_bytes(entries).subrange(0, 8) =~= spec_u64_to_be_bytes(entries[0].0));
        assert(spec_index_bytes(entries).subrange(8, 16) =~= spec_u64_to_be_bytes(entries[0].1));
    } else {
        lemma_index_bytes_at(entries.skip(1), i - 1);
        assert(entries.skip(1)[i - 1] == entries[i]);
        assert(spec_index_bytes(entries).subrange(16 * i, 16 * i + 8) =~= spec_index_bytes(
            entries.skip(1),
        ).subrange(16 * (i - 1), 16 * (i - 1) + 8));
        assert(spec_index_bytes(entries).subrange(16 * i + 8, 16 * i + 16) =~= spec_index_bytes(
            entries.skip(1),
        ).subrange(16 * (i - 1) + 8, 16 * (i - 1) + 16));
    }
}

/// A 16-byte-aligned image is exactly the image of the entries read from it.
pub proof fn lemma_parse_index_exact(bytes: Seq<u8>)
    requires
        bytes.len() % 16 == 0,
    ensures
        spec_index_bytes(spec_parse_index(bytes)) == bytes,
        spec_parse_index(bytes).len() == bytes.len() / 16,
    decreases bytes.len(),
{
    if bytes.len() == 0 {
        assert(spec_index_bytes(spec_parse_index(bytes)) =~= bytes);
    } else {
        assert(bytes.len() >= 16);
        let offset = spec_u64_from_be_bytes(bytes.subrange(0, 8));
        let position = spec_u64_from_be_bytes(bytes.subrange(8, 16));
        lemma_u64_be_bytes_inverse(bytes.subrange(0, 8));
        lemma_u64_be_bytes_inverse(bytes.subrange(8, 16));
        let rest = bytes.skip(16);
        assert(rest.len() % 16 == 0);
        lemma_parse_index_exact(rest);
        let parsed = spec_parse_index(bytes);
        assert(parsed == seq![(offset, position)] + spec_parse_index(rest));
        assert(parsed[0] == (offset, position));
        assert(parsed.skip(1) =~= spec_parse_index(rest));
        assert(spec_index_bytes(parsed) == spec_index_entry_bytes(offset, position)
            + spec_index_bytes(spec_parse_index(rest)));
        assert(spec_index_entry_bytes(offset, position) + rest =~= bytes);
    }
}

/// When the entries split into those at most `target` and those above it,
/// the floor search returns the last of the low ones.
pub proof fn lemma_find_floor_split(entries: Seq<(u64, u64)>, target: u64, k: int)
    requires
        0 <= k <= entries.len(),
        forall|i: int| 0 <= i < k ==> #[trigger] entries[i].0 <= target,
        forall|i: int| k <= i < entries.len() ==> #[trigger] entries[i].0 > target,
    ensures
        spec_find_floor(entries, target) == if k == 0 {
            None
        } else {
            Some(entries[k - 1].1)
        },
    decreases entries.len(),
{
    if entries.len() > 0 {
        if entries.last().0 <= target {
            assert(k == entries.len());
        } else {
            assert(k < entries.len());
            lemma_find_floor_split(entries.drop_last(), target, k);
        }
    }
}

/// When the entries split into those below `target` and those at least it,
/// the ceiling search returns the first of the high ones.
pub proof fn lemma_find_ceil_split(entries: Seq<(u64, u64)>, target: u64, k: int)
    requires
        0 <= k <= entries.len(),
        forall|i: int| 0 <= i < k ==> #[trigger] entries[i].0 < target,
        forall|i: int| k <= i < entries.len() ==> #[trigger] entries[i].0 >= target,
    ensures
        spec_find_ceil(entries, target) == if k == entries.len() {
            None
        } else {
            Some(entries[k].1)
        },
    decreases entries.len(),
{
    if entries.len() > 0 {
        if entries[0].0 >= target {
            assert(k == 0);
        } else {
            assert(k >= 1);
            let tail = entries.skip(1);
            assert(forall|i: int| 0 <= i < k - 1 ==> #[trigger] tail[i].0 < target);
            assert(forall|i: int| k - 1 <= i < tail.len() ==> #[trigger] tail[i].0 >= target);
            lemma_find_ceil_split(tail, target, k - 1);
        }
    }
}

/// A successful floor search names the position of some entry at or below
/// the target.
pub proof fn lemma_find_floor_some(entries: Seq<(u64, u64)>, target: u64) -> (k: int)
    requires
        spec_find_floor(entries, target) != None::<u64>,
    ensures
        0 <= k < entries.len(),
        entries[k].0 <= target,
        Some(entries[k].1) == spec_find_floor(entries, target),
    decreases entries.len(),
{
    if entries.last().0 <= target {
        entries.len() - 1
    } else {
        let k = lemma_find_floor_some(entries.drop_last(), target);
        assert(entries.drop_last()[k] == entries[k]);
        k
    }
}

/// A failed floor search means every entry lies above the target.
pub proof fn lemma_find_floor_none(entries: Seq<(u64, u64)>, target: u64)
    requires
        spec_find_floor(entries, target) == None::<u64>,
    ensures
        forall|k: int| 0 <= k < entries.len() ==> (#[trigger] entries[k]).0 > target,
    decreases entries.len(),
{
    if entries.len() > 0 {
        lemma_find_floor_none(entries.drop_last(), target);
        assert(forall|k: int|
            0 <= k < entries.len() - 1 ==> #[trigger] entries[k] == entries.drop_last()[k]);
    }
}

/// A read-only view of an index image.
pub struct MappedIndex {
    pub bytes: Vec<u8>,
}

impl MappedIndex {
    /// The entries the image holds, first to last.
    pub open spec fn entries(self) -> Seq<(u64, u64)> {
        spec_parse_index(self.bytes@)
    }

    /// The image consists of whole entries.
    pub open spec fn wf(self) -> bool {
        spec_index_bytes(self.entries()) == self.bytes@
    }

    /// The raw image.
    pub open spec fn spec_bytes(self) -> Seq<u8> {
        self.bytes@
    }

    /// Build a view over an index image made of whole 16-byte entries.
    pub fn new(bytes: Vec<u8>) -> (r: Self)
        requires
            bytes@.len() % 16 == 0,
        ensures
            r.wf(),
            r.spec_bytes() == bytes@,
            r.entries() == spec_parse_index(bytes@),
    {
        proof {
            lemma_parse_index_exact(bytes@);
        }
        MappedIndex { bytes }
    }

    /// Build a view over an empty index image.
    pub fn empty() -> (r: Self)
        ensures
            r.wf(),
            r.entries() == Seq::<(u64, u64)>::empty(),
            r.spec_bytes() == Seq::<u8>::empty(),
    {
        let bytes: Vec<u8> = Vec::new();
        proof {
            lemma_parse_index_exact(bytes@);
            assert(spec_parse_index(bytes@) =~= Seq::<(u64, u64)>::empty());
        }
        MappedIndex { bytes }
    }

    /// Append one entry to the image.
    pub fn push_entry(&mut self, offset: u64, position: u64)
        requires
            old(self).wf(),
        ensures
            final(self).wf(),
            final(self).entries() == old(self).entries().push((offset, position)),
            final(self).spec_bytes() == old(self).spec_bytes() + spec_index_entry_bytes(
                offset,
                position,
            ),
    {
        let mut entry = crate::codec::encode_index_entry(offset, position);
        proof {
            lemma_index_bytes_push(self.entries(), offset, position);
        }
        let ghost old_entries = self.entries();
        self.bytes.append(&mut entry);
        proof {
            crate::codec::lemma_parse_index_roundtrip(old_entries.push((offset, position)));
        }
    }

    /// The raw image, for callers that persist it.
    pub fn as_bytes(&self) -> (r: &Vec<u8>)
        ensures
            r@ == self.spec_bytes(),
    {
        &self.bytes
    }

    /// How many whole entries the image holds.
    pub fn len_entries(&self) -> (r: usize)
        requires
            self.wf(),
        ensures
            r == self.entries().len(),
    {
        proof {
            lemma_index_bytes_len(self.entries());
        }
        self.bytes.len() / 16
    }

    /// The entry at position `i`.
    pub fn entry_at(&self, i: usize) -> (e: (u64, u64))
        requires
            self.wf(),
            i < self.entries().len(),
        ensures
            e == self.entries()[i as int],
    {
        let total = self.bytes.len();
        proof {
            lemma_index_bytes_len(self.entries());
            lemma_index_bytes_at(self.entries(), i as int);
            lemma_u64_be_bytes_roundtrip(self.entries()[i as int].0);
            lemma_u64_be_bytes_roundtrip(self.entries()[i as int].1);
            assert(16 * (i as int) + 16 <= total);
        }
        let offset = read_u64_at(self.bytes.as_slice(), 16 * i);
        let position = read_u64_at(self.bytes.as_slice(), 16 * i + 8);
        (offset, position)
    }

    /// The final entry of the image, if the image holds one.
    pub fn last_entry(&self) -> (r: Option<(u64, u64)>)
        requires
            self.wf(),
        ensures
            r == if self.entries().len() == 0 {
                None::<(u64, u64)>
            } else {
                Some(self.entries().last())
            },
    {
        let n = self.len_entries();
        if n == 0 {
            None
        } else {
            Some(self.entry_at(n - 1))
        }
    }

    /// The position of the last entry with offset at most `target`, found by
    /// binary search.
    pub fn find_floor(&self, target: u64) -> (r: Option<u64>)
        requires
            self.wf(),
            spec_entries_sorted(self.entries()),
        ensures
            r == spec_find_floor(self.entries(), target),
    {
        let n = self.len_entries();
        let mut low: usize = 0;
        let mut high: usize = n;
        while low < high
            invariant
                self.wf(),
                spec_entries_sorted(self.entries()),
                low <= high <= n,
                n == self.entries().len(),
                forall|i: int| 0 <= i < low ==> #[trigger] self.entries()[i].0 <= target,
                forall|i: int|
                    high <= i < self.entries().len() ==> #[trigger] self.entries()[i].0 > target,
            decreases high - low,
        {
            let mid = low + (high - low) / 2;
            let e = self.entry_at(mid);
            if e.0 <= target {
                proof {
                    assert(forall|i: int|
                        0 <= i <= mid ==> #[trigger] self.entries()[i].0 <= target);
                }
                low = mid + 1;
            } else {
                proof {
                    assert(forall|i: int|
                        mid <= i < self.entries().len() ==> #[trigger] self.entries()[i].0
                            > target);
                }
                high = mid;
            }
        }
        proof {
            lemma_find_floor_split(self.entries(), target, low as int);
        }
        if low == 0 {
            None
        } else {
            let e = self.entry_at(low - 1);
            Some(e.1)
        }
    }

    /// The position of the last entry with offset at most `target`, found by
    /// a scan from the front.
    pub fn find_position(&self, target: u64) -> (r: Option<u64>)
        requires
            self.wf(),
            spec_entries_sorted(self.entries()),
        ensures
            r == spec_find_floor(self.entries(), target),
    {
        let n = self.len_entries();
        let mut i: usize = 0;
        let mut closest: Option<u64> = None;
        while i < n
            invariant
                self.wf(),
                spec_entries_sorted(self.entries()),
                i <= n,
                n == self.entries().len(),
                forall|j: int| 0 <= j < i ==> #[trigger] self.entries()[j].0 <= target,
                closest == if i == 0 {
                    None::<u64>
                } else {
                    Some(self.entries()[i - 1].1)
                },
            decreases n - i,
        {
            let e = self.entry_at(i);
            if e.0 > target {
                proof {
                    assert(forall|j: int|
                        i <= j < self.entries().len() ==> #[trigger] self.entries()[j].0 > target);
                    lemma_find_floor_split(self.entries(), target, i as int);
                }
                return closest;
            }
            closest = Some(e.1);
            i = i + 1;
        }
        proof {
            lemma_find_floor_split(self.entries(), target, n as int);
        }
        closest
    }

    /// The position of the first entry with offset at least `target`, found
    /// by binary search.
    pub fn find_offset_half(&self, target: u64) -> (r: Option<u64>)
        requires
            self.wf(),
            spec_entries_sorted(self.entries()),
        ensures
            r == spec_find_ceil(self.entries(), target),
    {
        let n = self.len_entries();
        let mut low: usize = 0;
        let mut high: usize = n;
        while low < high
            invariant
                self.wf(),
                spec_entries_sorted(self.entries()),
                low <= high <= n,
                n == self.entries().len(),
                forall|i: int| 0 <= i < low ==> #[trigger] self.entries()[i].0 < target,
                forall|i: int|
                    high <= i < self.entries().len() ==> #[trigger] self.entries()[i].0 >= target,
            decreases high - low,
        {
            let mid = low + (high - low) / 2;
            let e = self.entry_at(mid);
            if e.0 < target {
                proof {
                    assert(forall|i: int|
                        0 <= i <= mid ==> #[trigger] self.entries()[i].0 < target);
                }
                low = mid + 1;
            } else {
                proof {
                    assert(forall|i: int|
                        mid <= i < self.entries().len() ==> #[trigger] self.entries()[i].0
                            >= target);
                }
                high = mid;
            }
        }
        proof {
            lemma_find_ceil_split(self.entries(), target, low as int);
        }
        if low < n {
            let e = self.entry_at(low);
            Some(e.1)
        } else {
            None
        }
    }
}

} // verus!
