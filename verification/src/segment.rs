//! One log segment: a log image holding consecutive records and a sparse
//! index image mapping every hundredth offset to its byte position.

use vstd::prelude::*;

use crate::codec::encode_record;
use crate::codec::lemma_log_bytes_at;
use crate::codec::lemma_log_bytes_push;
use crate::codec::lemma_parse_index_count;
use crate::codec::lemma_parse_index_entry_at;
use crate::codec::lemma_parse_log_prefix;
use crate::codec::lemma_parse_log_roundtrip;
use crate::codec::lemma_record_position_bounds;
use crate::codec::read_u32_at;
use crate::codec::read_u64_at;
use crate::codec::spec_log_bytes;
use crate::codec::spec_parse_index;
use crate::codec::spec_parse_log;
use crate::codec::spec_parsed_len;
use crate::codec::spec_payloads_fit;
use crate::codec::spec_record_bytes;
use crate::codec::spec_record_position;
use crate::codec::spec_u32_from_be_bytes;
use crate::errors::StorageError;
use crate::index::lemma_find_floor_none;
use crate::index::lemma_find_floor_some;
use crate::index::spec_entries_sorted;
use crate::index::MappedIndex;

verus! {

/// One index entry per this many records.
pub const INDEX_INTERVAL: u64 = 100;

/// What an append did: assigned an offset, or declined because the segment
/// is full.  A full segment is a value, not an error: the caller rotates.
#[derive(Clone, Copy, Debug, PartialEq, Eq, Structural)]
pub enum IoResult {
    /// The record was stored under this offset.
    Success(u64),
    /// The segment is at or past its size bound; nothing was written.
    SegmentFull,
}

/// An index entry points at the start of the record holding its offset,
/// which is a multiple of the interval and stored in the records.
pub open spec fn spec_entry_ok(base: u64, records: Seq<(u64, Seq<u8>)>, e: (u64, u64)) -> bool {
    &&& e.0 % INDEX_INTERVAL == 0
    &&& base <= e.0
    &&& e.0 - base < records.len()
    &&& e.1 == spec_record_position(records, e.0 - base)
}

/// The entries are sorted and each points at its record.
pub open spec fn spec_entries_consistent(
    base: u64,
    records: Seq<(u64, Seq<u8>)>,
    entries: Seq<(u64, u64)>,
) -> bool {
    &&& spec_entries_sorted(entries)
    &&& forall|k: int|
        0 <= k < entries.len() ==> spec_entry_ok(base, records, #[trigger] entries[k])
}

/// A pair of on-disk images opens cleanly: the records the log image yields
/// carry consecutive offsets from the base, the offsets do not pass the
/// largest one, and the index entries match the records.
pub open spec fn spec_open_ok(base: u64, log: Seq<u8>, index: Seq<u8>) -> bool {
    let records = spec_parse_log(log);
    &&& forall|i: int| 0 <= i < records.len() ==> (#[trigger] records[i]).0 == base + i
    &&& base + records.len() <= u64::MAX
    &&& spec_entries_consistent(base, records, spec_parse_index(index))
}

/// The face a segment shows the queue: its next offset follows its last
/// record, and its records carry consecutive offsets from its base.
pub open spec fn spec_segment_summary(s: LogSegment) -> bool {
    &&& s.next_offset == s.base_offset + s.records().len()
    &&& forall|d: int|
        0 <= d < s.records().len() ==> (#[trigger] s.records()[d]).0 == s.base_offset + d
}

/// One segment of a partition's log.
pub struct LogSegment {
    /// The log image: every stored record, back to back.
    pub log: Vec<u8>,
    /// The view over the index image.
    pub mmap_index: MappedIndex,
    /// The offset of the segment's first record.
    pub base_offset: u64,
    /// The offset the next append will receive.
    pub next_offset: u64,
    /// The soft size bound of the log image in bytes.
    pub max_segment_size: usize,
}

impl LogSegment {
    /// The records the log image holds, first to last.
    pub open spec fn records(self) -> Seq<(u64, Seq<u8>)> {
        spec_parse_log(self.log@)
    }

    /// The index entries, first to last.
    pub open spec fn entries(self) -> Seq<(u64, u64)> {
        self.mmap_index.entries()
    }

    /// The segment's invariant: the log image is whole records carrying
    /// consecutive offsets from the base, the next offset follows the last
    /// record, and the index entries match the records.
    #[verifier::opaque]
    pub open spec fn wf(self) -> bool {
        &&& spec_log_bytes(self.records()) == self.log@
        &&& spec_payloads_fit(self.records())
        &&& forall|i: int|
            0 <= i < self.records().len() ==> (#[trigger] self.records()[i]).0 == self.base_offset
                + i
        &&& self.next_offset == self.base_offset + self.records().len()
        &&& self.mmap_index.wf()
        &&& spec_entries_consistent(self.base_offset, self.records(), self.entries())
    }

    /// What a read of `offset` returns: the payload stored under it, or
    /// nothing when the segment holds no such offset.
    pub open spec fn spec_read(self, offset: u64) -> Option<Seq<u8>> {
        if self.base_offset <= offset < self.next_offset {
            Some(self.records()[offset - self.base_offset].1)
        } else {
            None
        }
    }

    /// Open a fresh, empty segment.
    pub fn create(base_offset: u64, max_segment_size: usize) -> (r: LogSegment)
        ensures
            r.wf(),
            r.base_offset == base_offset,
            r.next_offset == base_offset,
            r.max_segment_size == max_segment_size,
            r.records().len() == 0,
            r.entries().len() == 0,
            r.log@.len() == 0,
    {
        let s = LogSegment {
            log: Vec::new(),
            mmap_index: MappedIndex::empty(),
            base_offset,
            next_offset: base_offset,
            max_segment_size,
        };
        proof {
            reveal(LogSegment::wf);
            assert(s.records() =~= Seq::<(u64, Seq<u8>)>::empty());
            assert(spec_log_bytes(s.records()) =~= s.log@);
        }
        s
    }

    /// The offset the next append will receive.
    pub fn get_next_offset(&self) -> (r: u64)
        ensures
            r == self.next_offset,
    {
        self.next_offset
    }

    /// The size of the log image in bytes.
    pub fn get_size(&self) -> (r: usize)
        ensures
            r == self.log@.len(),
    {
        self.log.len()
    }

    /// Append one record.  If the log image is already at or past the size
    /// bound, decline without writing; the bound is soft, so one append may
    /// push the image past it.  Every hundredth offset also gains an index
    /// entry pointing at its record.
    #[verifier::rlimit(100)]
    #[verifier::spinoff_prover]
    pub fn append_message(&mut self, message: &[u8]) -> (r: IoResult)
        requires
            old(self).wf(),
            old(self).next_offset < u64::MAX,
            message@.len() <= u32::MAX,
        ensures
            final(self).wf(),
            final(self).base_offset == old(self).base_offset,
            final(self).max_segment_size == old(self).max_segment_size,
            old(self).log@.len() >= old(self).max_segment_size ==> r == IoResult::SegmentFull
                && *final(self) == *old(self),
            old(self).log@.len() < old(self).max_segment_size ==> {
                &&& r == IoResult::Success(old(self).next_offset)
                &&& final(self).records() == old(self).records().push(
                    (old(self).next_offset, message@),
                )
                &&& final(self).next_offset == old(self).next_offset + 1
                &&& final(self).log@ == old(self).log@ + spec_record_bytes(
                    old(self).next_offset,
                    message@,
                )
                &&& final(self).entries() == if old(self).next_offset % INDEX_INTERVAL == 0 {
                    old(self).entries().push(
                        (old(self).next_offset, old(self).log@.len() as u64),
                    )
                } else {
                    old(self).entries()
                }
            },
    {
        proof {
            reveal(LogSegment::wf);
        }
        if self.log.len() >= self.max_segment_size {
            return IoResult::SegmentFull;
        }
        let offset = self.next_offset;
        let pos = self.log.len();
        let ghost old_records = self.records();
        let ghost old_entries = self.entries();
        let ghost pushed = old_records.push((offset, message@));
        let mut rec = encode_record(offset, message);
        self.log.append(&mut rec);
        proof {
            lemma_log_bytes_push(old_records, offset, message@);
            assert(spec_payloads_fit(pushed));
            lemma_parse_log_roundtrip(pushed);
            assert(self.records() == pushed);
        }
        if offset % INDEX_INTERVAL == 0 {
            self.mmap_index.push_entry(offset, pos as u64);
        }
        self.next_offset = self.next_offset + 1;
        proof {
            let base = self.base_offset;
            assert(forall|i: int|
                0 <= i < old_records.len() ==> #[trigger] pushed[i] == old_records[i]);
            assert forall|i: int| 0 <= i < pushed.len() implies (#[trigger] pushed[i]).0 == base
                + i by {
                if i == old_records.len() {
                    assert(pushed[i] == (offset, message@));
                }
            }
            assert forall|k: int| 0 <= k < old_entries.len() implies spec_entry_ok(
                base,
                pushed,
                #[trigger] old_entries[k],
            ) by {
                let e = old_entries[k];
                assert(spec_entry_ok(base, old_records, e));
                assert(pushed.take(e.0 - base) =~= old_records.take(e.0 - base));
            }
            assert forall|k: int| 0 <= k < old_entries.len() implies (#[trigger] old_entries[
                k
            ]).0 < offset by {
                assert(spec_entry_ok(base, old_records, old_entries[k]));
            }
            if offset % INDEX_INTERVAL == 0 {
                assert(pushed.take(old_records.len() as int) =~= old_records);
                assert(spec_record_position(pushed, old_records.len() as int) == pos);
                let new_entries = old_entries.push((offset, pos as u64));
                assert(forall|k: int|
                    0 <= k < old_entries.len() ==> #[trigger] new_entries[k] == old_entries[k]);
                assert(spec_entry_ok(base, pushed, (offset, pos as u64)));
                assert(spec_entries_sorted(new_entries));
            }
        }
        IoResult::Success(offset)
    }

    /// Open a segment from the two images its files hold.  Recovery walks
    /// the log from the front, record by record; a trailing partial record
    /// is cut off, so the next append lands on a clean record boundary.  It
    /// fails with `CorruptLog` exactly when the images cannot belong to this
    /// segment: an offset out of step with the base, an index entry that
    /// does not point at its record, or offsets past the largest one.
    pub fn open(
        base_offset: u64,
        max_segment_size: usize,
        log_bytes: Vec<u8>,
        index_bytes: Vec<u8>,
    ) -> (r: Result<LogSegment, StorageError>)
        ensures
            match r {
                Ok(s) => {
                    &&& spec_open_ok(base_offset, log_bytes@, index_bytes@)
                    &&& s.wf()
                    &&& s.base_offset == base_offset
                    &&& s.max_segment_size == max_segment_size
                    &&& s.records() == spec_parse_log(log_bytes@)
                    &&& s.next_offset == base_offset + spec_parse_log(log_bytes@).len()
                    &&& s.entries() == spec_parse_index(index_bytes@)
                },
                Err(e) => e == StorageError::CorruptLog && !spec_open_ok(
                    base_offset,
                    log_bytes@,
                    index_bytes@,
                ),
            },
    {
        let ghost records = spec_parse_log(log_bytes@);
        let ghost entries = spec_parse_index(index_bytes@);
        let ghost pl = spec_parsed_len(log_bytes@);
        proof {
            reveal(LogSegment::wf);
            lemma_parse_log_prefix(log_bytes@);
        }
        // Rebuild the index view from the whole entries of the index image;
        // a trailing partial entry is ignored, like a partial record.
        let mut mmap_index = MappedIndex::empty();
        let n_idx = index_bytes.len() / 16;
        let mut t: usize = 0;
        proof {
            lemma_parse_index_count(index_bytes@);
            assert(mmap_index.entries() =~= entries.take(0));
        }
        while t < n_idx
            invariant
                t <= n_idx,
                n_idx == entries.len(),
                entries == spec_parse_index(index_bytes@),
                n_idx == index_bytes@.len() / 16,
                index_bytes@.len() <= usize::MAX,
                mmap_index.wf(),
                mmap_index.entries() == entries.take(t as int),
            decreases n_idx - t,
        {
            proof {
                lemma_parse_index_entry_at(index_bytes@, t as int);
            }
            let e_off = read_u64_at(index_bytes.as_slice(), 16 * t);
            let e_pos = read_u64_at(index_bytes.as_slice(), 16 * t + 8);
            mmap_index.push_entry(e_off, e_pos);
            proof {
                assert(entries.take(t + 1) =~= entries.take(t as int).push(entries[t as int]));
            }
            t = t + 1;
        }
        proof {
            assert(entries.take(n_idx as int) =~= entries);
        }
        // Walk the log from the front, checking each record's offset and
        // matching index entries against record positions as they pass.
        let n = log_bytes.len();
        let mut pos: usize = 0;
        let ghost mut k: int = 0;
        let mut count: u64 = 0;
        let mut expected: u64 = base_offset;
        let mut overflowed: bool = false;
        let mut ec: usize = 0;
        let mut done: bool = false;
        proof {
            assert(records.take(0) =~= Seq::<(u64, Seq<u8>)>::empty());
        }
        while !done && n - pos >= 12
            invariant
                records == spec_parse_log(log_bytes@),
                entries == spec_parse_index(index_bytes@),
                pl == spec_parsed_len(log_bytes@),
                spec_log_bytes(records) == log_bytes@.take(pl),
                0 <= pl <= log_bytes@.len(),
                spec_parse_log(log_bytes@.skip(pl)).len() == 0,
                spec_payloads_fit(records),
                n == log_bytes@.len(),
                mmap_index.wf(),
                mmap_index.entries() == entries,
                n_idx == entries.len(),
                0 <= k <= records.len(),
                pos == spec_record_position(records, k),
                pos <= pl,
                12 * k <= pos,
                count == k,
                !overflowed ==> expected == base_offset + k,
                overflowed ==> base_offset + k == u64::MAX + 1,
                forall|i: int|
                    0 <= i < k ==> (#[trigger] records[i]).0 == base_offset + i,
                ec <= n_idx,
                forall|j: int|
                    0 <= j < ec ==> spec_entry_ok(base_offset, records, #[trigger] entries[j]),
                forall|j1: int, j2: int|
                    0 <= j1 < j2 < ec ==> (#[trigger] entries[j1]).0 < (#[trigger] entries[j2]).0,
                ec > 0 ==> entries[ec - 1].0 < base_offset + k,
                ec < n_idx ==> (entries[ec as int].0 >= base_offset + k || (ec > 0 && entries[
                    ec as int
                ].0 <= entries[ec - 1].0) || (ec == 0 && entries[ec as int].0 < base_offset)),
                done ==> k == records.len(),
            decreases n - pos + if done {
                0int
            } else {
                1int
            },
        {
            let msg_offset = read_u64_at(log_bytes.as_slice(), pos);
            let length = read_u32_at(log_bytes.as_slice(), pos + 8) as usize;
            if n - pos - 12 < length {
                // A truncated payload: the walk is at the partial tail.
                proof {
                    if k < records.len() {
                        lemma_log_bytes_at(records, k);
                        crate::codec::lemma_u32_be_bytes_roundtrip(records[k].1.len() as u32);
                        assert(false);
                    }
                }
                done = true;
            } else {
                proof {
                    lemma_record_position_bounds(records, k);
                    if k == records.len() {
                        let tail = log_bytes@.skip(pl);
                        assert(pos == pl);
                        assert(tail.len() >= 12);
                        assert(tail.subrange(8, 12) =~= log_bytes@.subrange(pos + 8, pos + 12));
                        assert(tail.len() >= 12 + spec_u32_from_be_bytes(
                            tail.subrange(8, 12),
                        ) as int);
                        assert(spec_parse_log(tail).len() > 0);
                        assert(false);
                    }
                    lemma_log_bytes_at(records, k);
                    crate::codec::lemma_u64_be_bytes_roundtrip(records[k].0);
                    crate::codec::lemma_u32_be_bytes_roundtrip(records[k].1.len() as u32);
                }
                if overflowed {
                    // A record exists past the largest representable offset.
                    return Err(StorageError::CorruptLog);
                }
                if msg_offset != expected {
                    return Err(StorageError::CorruptLog);
                }
                if ec < n_idx {
                    let e = mmap_index.entry_at(ec);
                    if e.0 == expected {
                        if e.1 != pos as u64 {
                            return Err(StorageError::CorruptLog);
                        }
                        if e.0 % INDEX_INTERVAL != 0 {
                            return Err(StorageError::CorruptLog);
                        }
                        ec = ec + 1;
                    } else if e.0 < expected {
                        // This entry can never match a later record; by the
                        // cursor invariant it is out of order or below base.
                        return Err(StorageError::CorruptLog);
                    }
                }
                pos = pos + 12 + length;
                count = count + 1;
                if expected == u64::MAX {
                    overflowed = true;
                } else {
                    expected = expected + 1;
                }
                proof {
                    k = k + 1;
                }
            }
        }
        proof {
            if !done && k < records.len() {
                lemma_log_bytes_at(records, k);
                assert(false);
            }
            lemma_record_position_bounds(records, k);
        }
        if overflowed {
            // The image holds offsets past the largest representable one.
            return Err(StorageError::CorruptLog);
        }
        if ec != n_idx {
            return Err(StorageError::CorruptLog);
        }
        let mut log = log_bytes;
        log.truncate(pos);
        let s = LogSegment {
            log,
            mmap_index,
            base_offset,
            next_offset: expected,
            max_segment_size,
        };
        proof {
            assert(s.log@ =~= spec_log_bytes(records));
            lemma_parse_log_roundtrip(records);
        }
        Ok(s)
    }

    /// Read the payload stored under `offset`.  The sparse index names a
    /// record at or below the target to start from; the scan walks records
    /// forward from there.
    pub fn read_message(&self, offset: u64) -> (r: Option<Vec<u8>>)
        requires
            self.wf(),
        ensures
            match r {
                Some(p) => self.spec_read(offset) == Some(p@),
                None => self.spec_read(offset) == None::<Seq<u8>>,
            },
    {
        proof {
            reveal(LogSegment::wf);
        }
        let ghost records = self.records();
        let floor = self.mmap_index.find_floor(offset);
        let ghost mut k: int = 0;
        let mut pos: usize = 0;
        match floor {
            Some(p) => {
                proof {
                    let j = lemma_find_floor_some(self.entries(), offset);
                    k = self.entries()[j].0 - self.base_offset;
                    lemma_log_bytes_at(records, k);
                    lemma_record_position_bounds(records, k + 1);
                }
                pos = p as usize;
            },
            None => {
                proof {
                    lemma_find_floor_none(self.entries(), offset);
                    assert(records.take(0) =~= Seq::<(u64, Seq<u8>)>::empty());
                }
            },
        }
        if pos >= self.log.len() {
            proof {
                lemma_record_position_bounds(records, k);
            }
            return None;
        }
        while self.log.len() - pos >= 12
            invariant
                self.wf(),
                records == self.records(),
                0 <= k <= records.len(),
                pos == spec_record_position(records, k),
                pos <= self.log@.len(),
                forall|j: int| 0 <= j < k ==> (#[trigger] records[j]).0 != offset,
            decreases self.log@.len() - pos,
        {
            proof {
                reveal(LogSegment::wf);
                lemma_record_position_bounds(records, k);
                if k == records.len() {
                    assert(false);
                }
                lemma_log_bytes_at(records, k);
                crate::codec::lemma_u64_be_bytes_roundtrip(records[k].0);
                crate::codec::lemma_u32_be_bytes_roundtrip(records[k].1.len() as u32);
            }
            let msg_offset = read_u64_at(self.log.as_slice(), pos);
            let length = read_u32_at(self.log.as_slice(), pos + 8) as usize;
            if msg_offset == offset {
                let sub = vstd::slice::slice_subrange(self.log.as_slice(), pos + 12, pos + 12
                    + length);
                let payload = vstd::slice::slice_to_vec(sub);
                return Some(payload);
            }
            if msg_offset > offset {
                return None;
            }
            pos = pos + 12 + length;
            proof {
                k = k + 1;
            }
        }
        proof {
            reveal(LogSegment::wf);
            if k < records.len() {
                lemma_log_bytes_at(records, k);
                assert(false);
            }
        }
        None
    }
}

/// Law: a segment with records stores offsets from its base up, and its
/// next offset lies strictly above every one of them.
pub proof fn lemma_segment_offset_bounds(s: LogSegment, i: int)
    requires
        s.wf(),
        0 <= i < s.records().len(),
    ensures
        s.base_offset <= s.records()[i].0,
        s.records()[i].0 < s.next_offset,
{
    reveal(LogSegment::wf);
}

/// A well-formed segment shows the queue a consistent face.
pub proof fn lemma_wf_summary(s: LogSegment)
    requires
        s.wf(),
    ensures
        spec_segment_summary(s),
{
    reveal(LogSegment::wf);
}

/// Law: reopening a segment from the images it holds recovers the same
/// records and the same next offset, so a drop and reopen loses nothing.
pub proof fn lemma_recovery_idempotent(s: LogSegment)
    requires
        s.wf(),
    ensures
        spec_open_ok(s.base_offset, s.log@, s.mmap_index.spec_bytes()),
        spec_parse_log(s.log@) == s.records(),
        s.base_offset + spec_parse_log(s.log@).len() == s.next_offset,
{
    reveal(LogSegment::wf);
}

/// Two sorted entries whose offsets are multiples of the interval lie at
/// least one interval apart per step between them.
proof fn lemma_interval_gaps(entries: Seq<(u64, u64)>, i: int, j: int)
    requires
        spec_entries_sorted(entries),
        forall|k: int| 0 <= k < entries.len() ==> (#[trigger] entries[k]).0 % 100 == 0,
        0 <= i <= j < entries.len(),
    ensures
        entries[j].0 - entries[i].0 >= 100 * (j - i),
    decreases j - i,
{
    if i < j {
        lemma_interval_gaps(entries, i, j - 1);
        let a = entries[j - 1].0 as int;
        let b = entries[j].0 as int;
        assert(a < b && a % 100 == 0 && b % 100 == 0);
        assert(b - a >= 100);
    }
}

/// Law: the index is sparse; it holds at most one entry per hundred
/// records, plus one.
pub proof fn lemma_index_sparseness(s: LogSegment)
    requires
        s.wf(),
    ensures
        s.entries().len() <= (s.records().len() + 99) / 100 + 1,
{
    reveal(LogSegment::wf);
    let entries = s.entries();
    let m = entries.len() as int;
    let n = s.records().len() as int;
    if m >= 2 {
        assert(forall|k: int| 0 <= k < m ==> (#[trigger] entries[k]).0 % 100 == 0);
        lemma_interval_gaps(entries, 0, m - 1);
        assert(s.base_offset <= entries[0].0);
        assert(entries[m - 1].0 - s.base_offset < n);
        assert(100 * (m - 1) <= n - 1);
        assert(m - 1 <= (n - 1) / 100);
        assert((n - 1) / 100 <= (n + 99) / 100);
    }
}

} // verus!
