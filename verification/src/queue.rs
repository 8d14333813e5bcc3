//! A partition's full history: its segments in offset order.
//!
//! The last segment takes every append; when it reports itself full, a new
//! segment opens at the old one's next offset, so offsets stay contiguous
//! across segments.  A read hint remembers the segment of the last hit and
//! biases reads toward sequential consumption: once the hint has moved past
//! a segment, reads behind it report nothing.

use vstd::prelude::*;

use crate::errors::StorageError;
use crate::segment::spec_segment_summary;
use crate::segment::IoResult;
use crate::segment::LogSegment;

verus! {

/// The records of `segments[i..]`, first to last.
pub open spec fn spec_flat_from(segments: Seq<LogSegment>, i: int) -> Seq<(u64, Seq<u8>)>
    decreases segments.len() - i,
{
    if 0 <= i < segments.len() {
        segments[i].records() + spec_flat_from(segments, i + 1)
    } else {
        Seq::empty()
    }
}

/// The segments fit together: one size bound, each one starting where the
/// one before it stopped, and only the last one possibly empty.
pub open spec fn spec_segments_linked(segments: Seq<LogSegment>, max_segment_size: usize) -> bool {
    &&& forall|i: int|
        0 <= i < segments.len() ==> (#[trigger] segments[i]).max_segment_size == max_segment_size
    &&& forall|i: int|
        0 <= i < segments.len() - 1 ==> (#[trigger] segments[i + 1]).base_offset == segments[
            i
        ].next_offset
    &&& forall|i: int| 0 <= i < segments.len() - 1 ==> (#[trigger] segments[i]).log@.len() > 0
}

/// Extending the last segment's records by one extends the flat view by
/// one.
proof fn lemma_flat_update_last(
    old_segs: Seq<LogSegment>,
    new_segs: Seq<LogSegment>,
    i: int,
    rec: (u64, Seq<u8>),
)
    requires
        old_segs.len() == new_segs.len(),
        old_segs.len() > 0,
        0 <= i <= old_segs.len(),
        forall|j: int| 0 <= j < old_segs.len() - 1 ==> new_segs[j] == old_segs[j],
        new_segs.last().records() == old_segs.last().records().push(rec),
    ensures
        i < old_segs.len() ==> spec_flat_from(new_segs, i) == spec_flat_from(old_segs, i).push(
            rec,
        ),
    decreases old_segs.len() - i,
{
    if i == old_segs.len() - 1 {
        assert(spec_flat_from(new_segs, i + 1) =~= Seq::<(u64, Seq<u8>)>::empty());
        assert(spec_flat_from(old_segs, i + 1) =~= Seq::<(u64, Seq<u8>)>::empty());
        assert(spec_flat_from(new_segs, i) =~= spec_flat_from(old_segs, i).push(rec));
    } else if i < old_segs.len() - 1 {
        lemma_flat_update_last(old_segs, new_segs, i + 1, rec);
        assert(new_segs[i] == old_segs[i]);
        assert(spec_flat_from(new_segs, i) =~= spec_flat_from(old_segs, i).push(rec));
    }
}

/// A new segment at the end adds its records to the end of the flat view.
proof fn lemma_flat_push_segment(segs: Seq<LogSegment>, s: LogSegment, i: int)
    requires
        0 <= i <= segs.len(),
    ensures
        spec_flat_from(segs.push(s), i) == spec_flat_from(segs, i) + s.records(),
    decreases segs.len() - i,
{
    let pushed = segs.push(s);
    if i == segs.len() {
        assert(pushed[i] == s);
        assert(spec_flat_from(pushed, i + 1) =~= Seq::<(u64, Seq<u8>)>::empty());
        assert(spec_flat_from(segs, i) =~= Seq::<(u64, Seq<u8>)>::empty());
        assert(spec_flat_from(pushed, i) =~= spec_flat_from(segs, i) + s.records());
    } else {
        lemma_flat_push_segment(segs, s, i + 1);
        assert(pushed[i] == segs[i]);
        assert(spec_flat_from(pushed, i) =~= spec_flat_from(segs, i) + s.records());
    }
}

/// From any segment on, the flat view holds one record per offset up to the
/// last segment's next offset, each under its own offset.
pub proof fn lemma_flat_offsets(segments: Seq<LogSegment>, i: int)
    requires
        forall|j: int| 0 <= j < segments.len() ==> spec_segment_summary(#[trigger] segments[j]),
        forall|j: int|
            0 <= j < segments.len() - 1 ==> (#[trigger] segments[j + 1]).base_offset == segments[
                j
            ].next_offset,
        0 <= i < segments.len(),
    ensures
        spec_flat_from(segments, i).len() == segments.last().next_offset - segments[
            i
        ].base_offset,
        forall|d: int|
            0 <= d < spec_flat_from(segments, i).len() ==> (#[trigger] spec_flat_from(segments, i)[
                d
            ]).0 == segments[i].base_offset + d,
    decreases segments.len() - i,
{
    let flat = spec_flat_from(segments, i);
    let recs = segments[i].records();
    if i == segments.len() - 1 {
        assert(spec_flat_from(segments, i + 1) =~= Seq::<(u64, Seq<u8>)>::empty());
        assert(flat =~= recs);
    } else {
        lemma_flat_offsets(segments, i + 1);
        let rest = spec_flat_from(segments, i + 1);
        assert(segments[i + 1].base_offset == segments[i].next_offset);
        assert(forall|d: int|
            0 <= d < flat.len() ==> flat[d] == if d < recs.len() {
                recs[d]
            } else {
                rest[d - recs.len()]
            });
    }
}

/// An offset at or above segment `j`'s base and below the end lies in some
/// segment at or past `j`.
pub proof fn lemma_containing_segment(segments: Seq<LogSegment>, j: int, offset: u64) -> (i: int)
    requires
        forall|t: int| 0 <= t < segments.len() ==> spec_segment_summary(#[trigger] segments[t]),
        forall|t: int|
            0 <= t < segments.len() - 1 ==> (#[trigger] segments[t + 1]).base_offset == segments[
                t
            ].next_offset,
        0 <= j < segments.len(),
        segments[j].base_offset <= offset < segments.last().next_offset,
    ensures
        j <= i < segments.len(),
        segments[i].base_offset <= offset < segments[i].next_offset,
    decreases segments.len() - j,
{
    if offset < segments[j].next_offset {
        j
    } else {
        lemma_containing_segment(segments, j + 1, offset)
    }
}

/// Where an offset of segment `i` sits in the flat view from segment `j`.
pub proof fn lemma_flat_at(segments: Seq<LogSegment>, j: int, i: int, offset: u64)
    requires
        forall|t: int| 0 <= t < segments.len() ==> spec_segment_summary(#[trigger] segments[t]),
        forall|t: int|
            0 <= t < segments.len() - 1 ==> (#[trigger] segments[t + 1]).base_offset == segments[
                t
            ].next_offset,
        0 <= j <= i < segments.len(),
        segments[i].base_offset <= offset < segments[i].next_offset,
    ensures
        0 <= offset - segments[j].base_offset < spec_flat_from(segments, j).len(),
        spec_flat_from(segments, j)[offset - segments[j].base_offset] == segments[i].records()[
            offset - segments[i].base_offset],
    decreases i - j,
{
    lemma_flat_offsets(segments, j);
    lemma_bases_monotone(segments, j, i);
    if j == i {
    } else {
        lemma_flat_at(segments, j + 1, i, offset);
        lemma_bases_monotone(segments, j + 1, i);
    }
}

/// Base offsets never fall from one segment to a later one.
pub proof fn lemma_bases_monotone(segments: Seq<LogSegment>, i: int, j: int)
    requires
        forall|t: int| 0 <= t < segments.len() ==> spec_segment_summary(#[trigger] segments[t]),
        forall|t: int|
            0 <= t < segments.len() - 1 ==> (#[trigger] segments[t + 1]).base_offset == segments[
                t
            ].next_offset,
        0 <= i <= j < segments.len(),
    ensures
        segments[i].base_offset <= segments[j].base_offset,
        segments[i].base_offset <= segments[j].next_offset,
    decreases j - i,
{
    if i < j {
        lemma_bases_monotone(segments, i + 1, j);
    }
}

/// One partition's ordered collection of segments.
pub struct LogQueue {
    /// The segments, in ascending base-offset order.
    pub segments: Vec<LogSegment>,
    /// The soft size bound handed to every segment.
    pub max_segment_size: usize,
    /// The segment that takes appends: always the last one.
    pub active_write_segment_index: usize,
    /// The segment the last successful read landed in.
    pub active_read_segment_index: usize,
    /// base offset of each segment, with its position; sorted by base.
    pub segment_index: Vec<(u64, usize)>,
}

impl LogQueue {
    /// The queue's records across all segments, in offset order.
    pub open spec fn flat_records(self) -> Seq<(u64, Seq<u8>)> {
        spec_flat_from(self.segments@, 0)
    }

    /// The smallest offset the queue can still serve.
    pub open spec fn first_offset(self) -> u64 {
        self.segments@[0].base_offset
    }

    /// The offset the next append will receive.
    pub open spec fn next_offset(self) -> u64 {
        self.segments@.last().next_offset
    }

    /// The queue stores this offset.
    pub open spec fn spec_contains(self, offset: u64) -> bool {
        self.first_offset() <= offset < self.next_offset()
    }

    /// The payload stored under `offset`, meaningful when the queue
    /// contains it.
    pub open spec fn spec_payload_of(self, offset: u64) -> Seq<u8> {
        self.flat_records()[offset - self.first_offset()].1
    }

    /// What a read of `offset` returns: the stored payload if the offset
    /// lies at or above the read hint's segment, nothing otherwise.
    pub open spec fn spec_read_result(self, offset: u64) -> Option<Seq<u8>> {
        if self.segments@[self.active_read_segment_index as int].base_offset <= offset
            < self.next_offset() {
            Some(self.spec_payload_of(offset))
        } else {
            None
        }
    }

    /// The queue's invariant: linked segments, the write index on the last
    /// segment, the read hint in range, and the base-offset table mirroring
    /// the segments.
    pub open spec fn wf(self) -> bool {
        &&& self.segments@.len() > 0
        &&& forall|i: int| 0 <= i < self.segments@.len() ==> (#[trigger] self.segments@[i]).wf()
        &&& spec_segments_linked(self.segments@, self.max_segment_size)
        &&& self.active_write_segment_index == self.segments@.len() - 1
        &&& self.active_read_segment_index < self.segments@.len()
        &&& self.segment_index@.len() == self.segments@.len()
        &&& forall|i: int|
            0 <= i < self.segments@.len() ==> (#[trigger] self.segment_index@[i]) == (
            self.segments@[i].base_offset,
            i as usize,
            )
    }

    /// Open a fresh queue holding one empty segment at base offset zero.
    pub fn new(max_segment_size: usize) -> (r: LogQueue)
        ensures
            r.wf(),
            r.max_segment_size == max_segment_size,
            r.first_offset() == 0,
            r.next_offset() == 0,
            r.flat_records() == Seq::<(u64, Seq<u8>)>::empty(),
            r.active_read_segment_index == 0,
    {
        let seg = LogSegment::create(0, max_segment_size);
        let mut segments: Vec<LogSegment> = Vec::new();
        segments.push(seg);
        let mut segment_index: Vec<(u64, usize)> = Vec::new();
        segment_index.push((0, 0));
        let q = LogQueue {
            segments,
            max_segment_size,
            active_write_segment_index: 0,
            active_read_segment_index: 0,
            segment_index,
        };
        proof {
            assert(q.flat_records() =~= q.segments@[0].records() + spec_flat_from(q.segments@, 1));
            assert(q.flat_records() =~= Seq::<(u64, Seq<u8>)>::empty());
        }
        q
    }

    /// Compose a queue from segments already opened, as a load of one
    /// partition's directory yields them, sorted by base offset.  With no
    /// segments at all, a fresh one opens at base offset zero.  Fails with
    /// `CorruptLog` exactly when the segments do not fit together.
    #[verifier::rlimit(100)]
    pub fn from_segments(segments: Vec<LogSegment>, max_segment_size: usize) -> (r: Result<
        LogQueue,
        StorageError,
    >)
        requires
            forall|i: int| 0 <= i < segments@.len() ==> (#[trigger] segments@[i]).wf(),
        ensures
            match r {
                Ok(q) => {
                    &&& q.wf()
                    &&& q.max_segment_size == max_segment_size
                    &&& q.active_read_segment_index == 0
                    &&& segments@.len() > 0 ==> q.segments@ == segments@
                    &&& segments@.len() == 0 ==> q.first_offset() == 0 && q.next_offset() == 0
                        && q.flat_records() == Seq::<(u64, Seq<u8>)>::empty()
                },
                Err(e) => e == StorageError::CorruptLog && !spec_segments_linked(
                    segments@,
                    max_segment_size,
                ),
            },
    {
        if segments.len() == 0 {
            return Ok(LogQueue::new(max_segment_size));
        }
        let n = segments.len();
        let mut i: usize = 0;
        let mut segment_index: Vec<(u64, usize)> = Vec::new();
        while i < n
            invariant
                n == segments@.len(),
                i <= n,
                forall|j: int|
                    0 <= j < i ==> (#[trigger] segments@[j]).max_segment_size == max_segment_size,
                forall|j: int|
                    0 <= j < i && j < n - 1 ==> (#[trigger] segments@[j + 1]).base_offset
                        == segments@[j].next_offset,
                forall|j: int|
                    0 <= j < i && j < n - 1 ==> (#[trigger] segments@[j]).log@.len() > 0,
                segment_index@.len() == i,
                forall|j: int|
                    0 <= j < i ==> (#[trigger] segment_index@[j]) == (
                    segments@[j].base_offset,
                    j as usize,
                    ),
            decreases n - i,
        {
            let seg = &segments[i];
            if seg.max_segment_size != max_segment_size {
                return Err(StorageError::CorruptLog);
            }
            if i + 1 < n {
                if segments[i + 1].base_offset != seg.next_offset {
                    return Err(StorageError::CorruptLog);
                }
                if seg.get_size() == 0 {
                    return Err(StorageError::CorruptLog);
                }
            }
            segment_index.push((seg.base_offset, i));
            i = i + 1;
        }
        Ok(
            LogQueue {
                active_write_segment_index: n - 1,
                active_read_segment_index: 0,
                segments,
                max_segment_size,
                segment_index,
            },
        )
    }

    /// Append one record, rotating to a new segment when the active one is
    /// full.  The size bound is soft: a fresh segment takes a record of any
    /// length, so one append may push a segment past the bound.  Only a
    /// bound of zero, under which even a fresh segment counts as full, is a
    /// configuration error; it is surfaced rather than retried.
    pub fn append_message(&mut self, message: &[u8]) -> (r: Result<u64, StorageError>)
        requires
            old(self).wf(),
            old(self).next_offset() < u64::MAX,
            message@.len() <= u32::MAX,
        ensures
            final(self).wf(),
            final(self).max_segment_size == old(self).max_segment_size,
            final(self).active_read_segment_index == old(self).active_read_segment_index,
            final(self).first_offset() == old(self).first_offset(),
            match r {
                Ok(off) => {
                    &&& off == old(self).next_offset()
                    &&& final(self).next_offset() == old(self).next_offset() + 1
                    &&& final(self).flat_records() == old(self).flat_records().push(
                        (off, message@),
                    )
                    &&& final(self).segments@.last().records().len() > 0
                    &&& old(self).max_segment_size > 0
                    &&& if old(self).segments@.last().log@.len() >= old(
                        self,
                    ).max_segment_size {
                        // The active segment was full: one new segment opened at
                        // the old next offset, holding exactly the new record.
                        &&& final(self).segments@.len() == old(self).segments@.len() + 1
                        &&& forall|j: int|
                            0 <= j < old(self).segments@.len() ==> final(self).segments@[j]
                                == old(self).segments@[j]
                        &&& final(self).segments@.last().base_offset == old(self).next_offset()
                        &&& final(self).segments@.last().records() == seq![(off, message@)]
                    } else {
                        // The active segment had room: it alone extends.
                        &&& final(self).segments@.len() == old(self).segments@.len()
                        &&& forall|j: int|
                            0 <= j < old(self).segments@.len() - 1 ==> final(self).segments@[j]
                                == old(self).segments@[j]
                        &&& final(self).segments@.last().base_offset == old(
                            self,
                        ).segments@.last().base_offset
                        &&& final(self).segments@.last().records() == old(
                            self,
                        ).segments@.last().records().push((off, message@))
                    }
                },
                Err(e) => {
                    &&& e == StorageError::InvalidConfig
                    &&& final(self).segments@ == old(self).segments@
                    &&& final(self).next_offset() == old(self).next_offset()
                    &&& final(self).flat_records() == old(self).flat_records()
                    &&& old(self).max_segment_size == 0
                },
            },
    {
        let wi = self.active_write_segment_index;
        let ghost old_segs = self.segments@;
        let result = self.segments[wi].append_message(message);
        match result {
            IoResult::Success(off) => {
                proof {
                    lemma_flat_update_last(old_segs, self.segments@, 0, (off, message@));
                    assert(forall|j: int|
                        0 <= j < old_segs.len() - 1 ==> (#[trigger] self.segments@[j]) == old_segs[
                            j
                        ]);
                }
                Ok(off)
            },
            IoResult::SegmentFull => {
                proof {
                    assert(self.segments@ =~= old_segs);
                }
                let new_base = self.segments[wi].get_next_offset();
                let mut new_segment = LogSegment::create(new_base, self.max_segment_size);
                let result2 = new_segment.append_message(message);
                match result2 {
                    IoResult::Success(off) => {
                        proof {
                            lemma_flat_push_segment(old_segs, new_segment, 0);
                            assert(new_segment.records() =~= Seq::<(u64, Seq<u8>)>::empty().push(
                                (off, message@),
                            ));
                            assert(spec_flat_from(old_segs, 0) + new_segment.records()
                                =~= spec_flat_from(old_segs, 0).push((off, message@)));
                        }
                        self.segments.push(new_segment);
                        let idx = self.segments.len() - 1;
                        self.active_write_segment_index = idx;
                        self.segment_index.push((new_base, idx));
                        Ok(off)
                    },
                    IoResult::SegmentFull => Err(StorageError::InvalidConfig),
                }
            },
        }
    }

    /// The position of the last segment whose base offset is at most
    /// `offset`, by binary search over the base-offset table.
    fn floor_seg_lookup(&self, offset: u64) -> (r: Option<usize>)
        requires
            self.wf(),
        ensures
            match r {
                Some(i) => i < self.segments@.len() && self.segments@[i as int].base_offset
                    <= offset && (forall|j: int|
                    i < j < self.segments@.len() ==> (#[trigger] self.segments@[j]).base_offset
                        > offset),
                None => forall|j: int|
                    0 <= j < self.segments@.len() ==> (#[trigger] self.segments@[j]).base_offset
                        > offset,
            },
    {
        proof {
            assert forall|t: int|
                0 <= t < self.segments@.len() implies spec_segment_summary(
                #[trigger] self.segments@[t],
            ) by {
                crate::segment::lemma_wf_summary(self.segments@[t]);
            }
        }
        let n = self.segment_index.len();
        let mut low: usize = 0;
        let mut high: usize = n;
        while low < high
            invariant
                self.wf(),
                n == self.segments@.len(),
                low <= high <= n,
                forall|t: int|
                    0 <= t < self.segments@.len() ==> spec_segment_summary(
                        #[trigger] self.segments@[t],
                    ),
                forall|i: int|
                    0 <= i < low ==> (#[trigger] self.segments@[i]).base_offset <= offset,
                forall|i: int|
                    high <= i < self.segments@.len() ==> (#[trigger] self.segments@[i]).base_offset
                        > offset,
            decreases high - low,
        {
            let mid = low + (high - low) / 2;
            let entry = self.segment_index[mid];
            if entry.0 <= offset {
                proof {
                    assert forall|i: int|
                        0 <= i <= mid implies (#[trigger] self.segments@[i]).base_offset
                        <= offset by {
                        lemma_bases_monotone(self.segments@, i, mid as int);
                    }
                }
                low = mid + 1;
            } else {
                proof {
                    assert forall|i: int|
                        mid <= i < self.segments@.len() implies (
                        #[trigger] self.segments@[i]).base_offset > offset by {
                        lemma_bases_monotone(self.segments@, mid as int, i);
                    }
                }
                high = mid;
            }
        }
        if low == 0 {
            None
        } else {
            Some(low - 1)
        }
    }

    /// Read the payload stored under `offset`.  Before the first hit (hint
    /// still on the first segment) the base-offset table names the one
    /// segment that can hold the offset; afterwards the scan starts at the
    /// hinted segment and walks forward only, a bias toward sequential
    /// consumers that loses sight of segments behind the hint.
    pub fn read_message(&mut self, offset: u64) -> (r: Option<Vec<u8>>)
        requires
            old(self).wf(),
        ensures
            final(self).wf(),
            final(self).segments@ == old(self).segments@,
            final(self).max_segment_size == old(self).max_segment_size,
            final(self).active_write_segment_index == old(self).active_write_segment_index,
            final(self).segment_index@ == old(self).segment_index@,
            match r {
                Some(p) => old(self).spec_read_result(offset) == Some(p@) && {
                    let h = final(self).active_read_segment_index as int;
                    final(self).segments@[h].base_offset <= offset < final(self).segments@[
                        h
                    ].next_offset
                },
                None => old(self).spec_read_result(offset) == None::<Seq<u8>> && (old(
                    self,
                ).active_read_segment_index > 0 ==> final(self).active_read_segment_index == old(
                    self,
                ).active_read_segment_index),
            },
    {
        proof {
            assert forall|t: int|
                0 <= t < self.segments@.len() implies spec_segment_summary(
                #[trigger] self.segments@[t],
            ) by {
                crate::segment::lemma_wf_summary(self.segments@[t]);
            }
        }
        let ghost segs = self.segments@;
        let ghost old_hint = self.active_read_segment_index as int;
        if self.active_read_segment_index == 0 {
            match self.floor_seg_lookup(offset) {
                Some(idx) => {
                    self.active_read_segment_index = idx;
                    let seg: &LogSegment = &self.segments[idx];
                    let r = seg.read_message(offset);
                    proof {
                        if segs[idx as int].base_offset <= offset < segs[
                            idx as int
                        ].next_offset {
                            lemma_flat_at(segs, 0, idx as int, offset);
                            if (idx as int) < segs.len() - 1 {
                                lemma_bases_monotone(segs, idx as int + 1, segs.len() - 1);
                            }
                        } else {
                            assert(offset >= segs[idx as int].next_offset);
                            if segs[0].base_offset <= offset < self.next_offset() {
                                let c = lemma_containing_segment(segs, 0, offset);
                                if c > idx as int {
                                    assert(segs[c].base_offset > offset);
                                } else if c < idx as int {
                                    lemma_bases_monotone(segs, c + 1, idx as int);
                                }
                                assert(false);
                            }
                        }
                    }
                    return r;
                },
                None => {
                },
            }
        }
        let hi = self.active_read_segment_index;
        let ghost h = hi as int;
        let n = self.segments.len();
        let mut i: usize = hi;
        while i < n
            invariant
                self.wf(),
                self.segments@ == segs,
                segs == old(self).segments@,
                self.max_segment_size == old(self).max_segment_size,
                self.active_write_segment_index == old(self).active_write_segment_index,
                self.segment_index@ == old(self).segment_index@,
                h == old(self).active_read_segment_index as int,
                n == segs.len(),
                h == self.active_read_segment_index as int,
                h <= i,
                h < n,
                forall|t: int| 0 <= t < segs.len() ==> spec_segment_summary(#[trigger] segs[t]),
                forall|j: int|
                    h <= j < i ==> (#[trigger] segs[j]).spec_read(offset) == None::<Seq<u8>>,
            decreases n - i,
        {
            let seg: &LogSegment = &self.segments[i];
            let r = seg.read_message(offset);
            if let Some(m) = r {
                proof {
                    lemma_flat_at(segs, 0, i as int, offset);
                    lemma_bases_monotone(segs, h, i as int);
                    if (i as int) < segs.len() - 1 {
                        lemma_bases_monotone(segs, i as int + 1, segs.len() - 1);
                    }
                }
                self.active_read_segment_index = i;
                return Some(m);
            }
            i = i + 1;
        }
        proof {
            if segs[h].base_offset <= offset < self.next_offset() {
                let c = lemma_containing_segment(segs, h, offset);
                assert(segs[c].spec_read(offset) == None::<Seq<u8>>);
                assert(false);
            }
        }
        None
    }

    /// The offset a new segment would start at: the next offset of the last
    /// segment.
    pub fn get_next_base_offset(&self) -> (r: u64)
        requires
            self.wf(),
        ensures
            r == self.next_offset(),
    {
        let n = self.segments.len();
        self.segments[n - 1].get_next_offset()
    }
}

/// Law: the stored offsets form one gapless interval — between any two
/// offsets the queue holds, it holds every offset, each with exactly one
/// record stored under it.
pub proof fn lemma_offsets_contiguous(q: LogQueue, o1: u64, o2: u64)
    requires
        q.wf(),
        q.spec_contains(o1),
        q.spec_contains(o2),
        o1 <= o2,
    ensures
        forall|o: u64| o1 <= o <= o2 ==> q.spec_contains(o),
        q.flat_records().len() == q.next_offset() - q.first_offset(),
        forall|o: u64|
            q.spec_contains(o) ==> q.flat_records()[o - q.first_offset()].0 == o,
{
    assert forall|t: int|
        0 <= t < q.segments@.len() implies spec_segment_summary(#[trigger] q.segments@[t]) by {
        crate::segment::lemma_wf_summary(q.segments@[t]);
    }
    lemma_flat_offsets(q.segments@, 0);
}

/// Law: the read that follows an append and targets the offset the append
/// returned yields the appended payload, wherever the read hint stood.
pub proof fn lemma_append_then_read(q0: LogQueue, q1: LogQueue, payload: Seq<u8>, off: u64)
    requires
        q0.wf(),
        q1.wf(),
        off == q0.next_offset(),
        q1.next_offset() == off + 1,
        q1.first_offset() == q0.first_offset(),
        q1.flat_records() == q0.flat_records().push((off, payload)),
        q1.segments@.last().records().len() > 0,
    ensures
        q1.spec_read_result(off) == Some(payload),
{
    assert forall|t: int|
        0 <= t < q0.segments@.len() implies spec_segment_summary(#[trigger] q0.segments@[t]) by {
        crate::segment::lemma_wf_summary(q0.segments@[t]);
    }
    assert forall|t: int|
        0 <= t < q1.segments@.len() implies spec_segment_summary(#[trigger] q1.segments@[t]) by {
        crate::segment::lemma_wf_summary(q1.segments@[t]);
    }
    lemma_flat_offsets(q0.segments@, 0);
    lemma_flat_offsets(q1.segments@, 0);
    let hint = q1.active_read_segment_index as int;
    let last = q1.segments@.len() - 1;
    lemma_bases_monotone(q1.segments@, hint, last);
    assert(q1.segments@[last].base_offset <= off);
    assert(q1.flat_records()[off - q1.first_offset()] == (off, payload));
}

/// Law: a read at or past the next offset finds nothing.
pub proof fn lemma_read_past_end(q: LogQueue, offset: u64)
    requires
        q.wf(),
        offset >= q.next_offset(),
    ensures
        q.spec_read_result(offset) == None::<Seq<u8>>,
{
}

/// Law: each rotation opens the next segment one offset past the last
/// record of the segment before it.
pub proof fn lemma_rotation_boundary(q: LogQueue, i: int)
    requires
        q.wf(),
        0 <= i < q.segments@.len() - 1,
    ensures
        q.segments@[i].records().len() > 0,
        q.segments@[i + 1].base_offset == q.segments@[i].records().last().0 + 1,
{
    reveal(LogSegment::wf);
    let s = q.segments@[i];
    if s.records().len() == 0 {
        assert(crate::codec::spec_log_bytes(s.records()).len() == 0);
        assert(false);
    }
}

} // verus!
