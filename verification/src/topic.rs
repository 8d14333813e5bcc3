//! A topic: a named set of partitions, each owning one queue.
//!
//! Deletion is two-phased: a partition is first tombstoned, so in-flight
//! work sees a clear refusal, and reclaimed only by an explicit cleanup
//! after a caller-chosen retention window.  Time enters as a plain caller
//! supplied value.

use vstd::prelude::*;

use crate::errors::StorageError;
use crate::metadata::PartitionMetadata;
use crate::metadata::TopicConfig;
use crate::queue::LogQueue;

verus! {

/// A partition either serves traffic or sits tombstoned since some time.
pub enum PartitionState {
    /// The partition accepts appends and reads.
    Active,
    /// The partition was deleted at this caller-clock time, in seconds.
    Deleted(u64),
}

/// One partition: its queue and its lifecycle state.
pub struct PartitionEntry {
    /// The partition's full history.
    pub queue: LogQueue,
    /// Whether the partition still serves traffic.
    pub state: PartitionState,
}

/// A freshly created partition: active, empty, starting at offset zero.
pub open spec fn spec_fresh_entry(e: PartitionEntry, segment_size: usize) -> bool {
    &&& e.state == PartitionState::Active
    &&& e.queue.wf()
    &&& e.queue.max_segment_size == segment_size
    &&& e.queue.first_offset() == 0
    &&& e.queue.next_offset() == 0
    &&& e.queue.flat_records() == Seq::<(u64, Seq<u8>)>::empty()
    &&& e.queue.active_read_segment_index == 0
}

/// Two queues hold the same observable state.
pub open spec fn spec_queue_eq(q0: LogQueue, q1: LogQueue) -> bool {
    &&& q1.segments@ == q0.segments@
    &&& q1.max_segment_size == q0.max_segment_size
    &&& q1.active_write_segment_index == q0.active_write_segment_index
    &&& q1.active_read_segment_index == q0.active_read_segment_index
    &&& q1.segment_index@ == q0.segment_index@
}

/// Two slots hold observably equal partitions.
pub open spec fn spec_slot_eq(s0: Option<PartitionEntry>, s1: Option<PartitionEntry>) -> bool {
    match (s0, s1) {
        (Some(e0), Some(e1)) => spec_queue_eq(e0.queue, e1.queue) && e1.state == e0.state,
        (None, None) => true,
        _ => false,
    }
}

/// The queue after an append: one more record, stored under the offset the
/// append returned, everything else untouched.
pub open spec fn spec_queue_appended(q0: LogQueue, q1: LogQueue, off: u64, msg: Seq<u8>) -> bool {
    &&& off == q0.next_offset()
    &&& q1.next_offset() == q0.next_offset() + 1
    &&& q1.first_offset() == q0.first_offset()
    &&& q1.flat_records() == q0.flat_records().push((off, msg))
    &&& q1.max_segment_size == q0.max_segment_size
    &&& q1.active_read_segment_index == q0.active_read_segment_index
    &&& q1.segments@.last().records().len() > 0
}

/// How many of these slots hold a partition that still serves traffic.
pub open spec fn spec_count_upto(parts: Seq<Option<PartitionEntry>>, i: int) -> int
    decreases i,
{
    if i <= 0 {
        0
    } else {
        spec_count_upto(parts, i - 1) + (match parts[i - 1] {
            Some(e) => if e.state is Active {
                1int
            } else {
                0int
            },
            None => 0int,
        })
    }
}

/// No prefix holds more live partitions than slots.
pub proof fn lemma_count_upto_bound(parts: Seq<Option<PartitionEntry>>, i: int)
    requires
        0 <= i <= parts.len(),
    ensures
        0 <= spec_count_upto(parts, i) <= i,
    decreases i,
{
    if i > 0 {
        lemma_count_upto_bound(parts, i - 1);
    }
}

/// A named set of partitions sharing one configuration.
pub struct Topic {
    /// The topic name.
    pub name: String,
    /// The topic's configuration.
    pub config: TopicConfig,
    /// One slot per partition id below the configured count.
    pub partitions: Vec<Option<PartitionEntry>>,
}

impl Topic {
    /// The topic's invariant: one slot per configured partition id, and
    /// every present queue well-formed under the configured segment size.
    pub open spec fn wf(self) -> bool {
        &&& self.partitions@.len() == self.config.partitions
        &&& forall|i: int|
            0 <= i < self.partitions@.len() ==> match #[trigger] self.partitions@[i] {
                Some(e) => e.queue.wf() && e.queue.max_segment_size == self.config.segment_size,
                None => true,
            }
    }

    /// How many partitions serve traffic.
    pub open spec fn spec_partition_count(self) -> int {
        spec_count_upto(self.partitions@, self.partitions@.len() as int)
    }

    /// An append to this partition cannot pass the largest offset.
    pub open spec fn spec_append_ready(self, partition_id: usize) -> bool {
        partition_id < self.partitions@.len() ==> match self.partitions@[partition_id as int] {
            Some(e) => e.queue.next_offset() < u64::MAX,
            None => true,
        }
    }

    /// A topic with every partition slot still empty.
    pub fn new(name: String, config: TopicConfig) -> (r: Topic)
        ensures
            r.wf(),
            r.name@ == name@,
            r.config == config,
            forall|i: int| 0 <= i < r.partitions@.len() ==> (#[trigger] r.partitions@[i]) is None,
    {
        let mut partitions: Vec<Option<PartitionEntry>> = Vec::new();
        let mut i: usize = 0;
        while i < config.partitions
            invariant
                i <= config.partitions,
                partitions@.len() == i,
                forall|j: int| 0 <= j < i ==> (#[trigger] partitions@[j]) is None,
            decreases config.partitions - i,
        {
            partitions.push(None);
            i = i + 1;
        }
        Topic { name, config, partitions }
    }

    /// The topic's name.
    pub fn get_name(&self) -> (r: &str)
        ensures
            r@ == self.name@,
    {
        self.name.as_str()
    }

    /// How many partitions serve traffic.
    pub fn get_partition_count(&self) -> (r: usize)
        ensures
            r == self.spec_partition_count(),
    {
        let mut count: usize = 0;
        let mut i: usize = 0;
        while i < self.partitions.len()
            invariant
                i <= self.partitions@.len(),
                count == spec_count_upto(self.partitions@, i as int),
                count <= i,
            decreases self.partitions@.len() - i,
        {
            match &self.partitions[i] {
                Some(entry) => {
                    match entry.state {
                        PartitionState::Active => {
                            count = count + 1;
                        },
                        PartitionState::Deleted(_) => {
                        },
                    }
                },
                None => {
                },
            }
            i = i + 1;
        }
        count
    }

    /// Create the partition with this id: an empty queue in the active
    /// state.  An id at or past the configured count is out of range; a
    /// slot already filled is refused.
    pub fn create_partition(&mut self, partition_id: usize, _metadata: PartitionMetadata) -> (r:
        Result<(), StorageError>)
        requires
            old(self).wf(),
        ensures
            final(self).wf(),
            final(self).name == old(self).name,
            final(self).config == old(self).config,
            match r {
                Ok(()) => {
                    &&& partition_id < old(self).partitions@.len()
                    &&& old(self).partitions@[partition_id as int] is None
                    &&& final(self).partitions@.len() == old(self).partitions@.len()
                    &&& forall|i: int|
                        0 <= i < final(self).partitions@.len() && i != partition_id
                            ==> final(self).partitions@[i] == old(self).partitions@[i]
                    &&& match final(self).partitions@[partition_id as int] {
                        Some(e) => spec_fresh_entry(e, old(self).config.segment_size),
                        None => false,
                    }
                },
                Err(StorageError::OutOfRange) => partition_id >= old(self).config.partitions
                    && final(self).partitions@ == old(self).partitions@,
                Err(StorageError::AlreadyExists) => partition_id < old(self).partitions@.len()
                    && old(self).partitions@[partition_id as int] is Some && final(self).partitions@ == old(self).partitions@,
                Err(_) => false,
            },
    {
        if partition_id >= self.partitions.len() {
            return Err(StorageError::OutOfRange);
        }
        let existing = &self.partitions[partition_id];
        if existing.is_some() {
            return Err(StorageError::AlreadyExists);
        }
        let queue = LogQueue::new(self.config.segment_size);
        let entry = PartitionEntry { queue, state: PartitionState::Active };
        self.partitions[partition_id] = Some(entry);
        Ok(())
    }

    /// Create every partition from id zero up to the configured count.
    pub fn init_partitions(&mut self) -> (r: Result<(), StorageError>)
        requires
            old(self).wf(),
            forall|i: int|
                0 <= i < old(self).partitions@.len() ==> (#[trigger] old(self).partitions@[
                    i
                ]) is None,
        ensures
            final(self).wf(),
            final(self).name == old(self).name,
            final(self).config == old(self).config,
            r == Ok::<(), StorageError>(()),
            final(self).partitions@.len() == old(self).partitions@.len(),
            forall|i: int|
                0 <= i < final(self).partitions@.len() ==> match #[trigger] final(self).partitions@[i] {
                    Some(e) => spec_fresh_entry(e, old(self).config.segment_size),
                    None => false,
                },
    {
        let n = self.partitions.len();
        let mut i: usize = 0;
        while i < n
            invariant
                old(self).wf(),
                i <= n,
                n == self.partitions@.len(),
                n == old(self).partitions@.len(),
                self.wf(),
                self.name == old(self).name,
                self.config == old(self).config,
                forall|j: int| i <= j < n ==> (#[trigger] self.partitions@[j]) is None,
                forall|j: int|
                    0 <= j < i ==> match #[trigger] self.partitions@[j] {
                        Some(e) => spec_fresh_entry(e, old(self).config.segment_size),
                        None => false,
                    },
            decreases n - i,
        {
            let metadata = PartitionMetadata {
                id: i,
                leader: 0,
                replicas: Vec::new(),
                isr: Vec::new(),
            };
            let result = self.create_partition(i, metadata);
            proof {
                assert(result is Ok);
            }
            i = i + 1;
        }
        Ok(())
    }

    /// Tombstone the partition with this id at the given time.  A missing
    /// partition is not found; one already tombstoned is reported deleted.
    pub fn delete_partition(&mut self, partition_id: usize, now: u64) -> (r: Result<
        (),
        StorageError,
    >)
        requires
            old(self).wf(),
        ensures
            final(self).wf(),
            final(self).name == old(self).name,
            final(self).config == old(self).config,
            match r {
                Ok(()) => {
                    &&& partition_id < old(self).partitions@.len()
                    &&& match old(self).partitions@[partition_id as int] {
                        Some(e) => e.state == PartitionState::Active && final(self).partitions@
                            =~= old(self).partitions@.update(
                            partition_id as int,
                            Some(PartitionEntry { queue: e.queue, state: PartitionState::Deleted(now) }),
                        ),
                        None => false,
                    }
                },
                Err(StorageError::NotFound) => (partition_id >= old(self).partitions@.len() || old(
                    self,
                ).partitions@[partition_id as int] is None) && final(self).partitions@ == old(
                    self,
                ).partitions@,
                Err(StorageError::PartitionDeleted) => partition_id < old(self).partitions@.len()
                    && (match old(self).partitions@[partition_id as int] {
                    Some(e) => e.state is Deleted,
                    None => false,
                }) && final(self).partitions@ == old(self).partitions@,
                Err(_) => false,
            },
    {
        if partition_id >= self.partitions.len() {
            return Err(StorageError::NotFound);
        }
        let slot = &mut self.partitions[partition_id];
        match slot {
            Some(entry) => {
                match entry.state {
                    PartitionState::Active => {
                        entry.state = PartitionState::Deleted(now);
                        Ok(())
                    },
                    PartitionState::Deleted(_) => Err(StorageError::PartitionDeleted),
                }
            },
            None => Err(StorageError::NotFound),
        }
    }

    /// Tombstone every partition that is still active, at the given time.
    pub fn delete_all_partitions(&mut self, now: u64) -> (r: Result<(), StorageError>)
        requires
            old(self).wf(),
        ensures
            final(self).wf(),
            final(self).name == old(self).name,
            final(self).config == old(self).config,
            r == Ok::<(), StorageError>(()),
            final(self).partitions@.len() == old(self).partitions@.len(),
            forall|i: int|
                0 <= i < old(self).partitions@.len() ==> #[trigger] final(self).partitions@[i]
                    == (match old(self).partitions@[i] {
                    Some(e) => if e.state is Active {
                        Some(PartitionEntry { queue: e.queue, state: PartitionState::Deleted(now) })
                    } else {
                        old(self).partitions@[i]
                    },
                    None => None,
                }),
    {
        let n = self.partitions.len();
        let mut i: usize = 0;
        while i < n
            invariant
                old(self).wf(),
                i <= n,
                n == self.partitions@.len(),
                n == old(self).partitions@.len(),
                self.wf(),
                self.name == old(self).name,
                self.config == old(self).config,
                forall|j: int| i <= j < n ==> self.partitions@[j] == old(self).partitions@[j],
                forall|j: int|
                    0 <= j < i ==> #[trigger] self.partitions@[j] == (
                    match old(self).partitions@[j] {
                        Some(e) => if e.state is Active {
                            Some(
                                PartitionEntry {
                                    queue: e.queue,
                                    state: PartitionState::Deleted(now),
                                },
                            )
                        } else {
                            old(self).partitions@[j]
                        },
                        None => None,
                    }),
            decreases n - i,
        {
            let slot = &mut self.partitions[i];
            match slot {
                Some(entry) => {
                    match entry.state {
                        PartitionState::Active => {
                            entry.state = PartitionState::Deleted(now);
                        },
                        PartitionState::Deleted(_) => {
                        },
                    }
                },
                None => {
                },
            }
            i = i + 1;
        }
        Ok(())
    }

    /// Delete the whole topic: tombstone every partition.  Removing the
    /// partition directories is the caller's part.
    pub fn delete_topic(&mut self, now: u64) -> (r: Result<(), StorageError>)
        requires
            old(self).wf(),
        ensures
            final(self).wf(),
            final(self).name == old(self).name,
            final(self).config == old(self).config,
            r == Ok::<(), StorageError>(()),
            final(self).partitions@.len() == old(self).partitions@.len(),
            forall|i: int|
                0 <= i < final(self).partitions@.len() ==> match #[trigger] final(self).partitions@[i] {
                    Some(e) => e.state is Deleted,
                    None => true,
                },
    {
        self.delete_all_partitions(now)
    }

    /// Reclaim every partition tombstoned at least `max_age_seconds` before
    /// `now`, and say which ids went, in ascending order.
    pub fn cleanup_deleted_partitions(&mut self, max_age_seconds: u64, now: u64) -> (removed: Vec<
        usize,
    >)
        requires
            old(self).wf(),
        ensures
            final(self).wf(),
            final(self).name == old(self).name,
            final(self).config == old(self).config,
            final(self).partitions@.len() == old(self).partitions@.len(),
            forall|i: int|
                0 <= i < old(self).partitions@.len() ==> #[trigger] final(self).partitions@[i]
                    == (if Self::spec_expired(old(self).partitions@[i], max_age_seconds, now) {
                    None::<PartitionEntry>
                } else {
                    old(self).partitions@[i]
                }),
            forall|i: int|
                0 <= i < old(self).partitions@.len() ==> (removed@.contains(i as usize)
                    <==> Self::spec_expired(old(self).partitions@[i], max_age_seconds, now)),
    {
        let n = self.partitions.len();
        let mut removed: Vec<usize> = Vec::new();
        let mut i: usize = 0;
        while i < n
            invariant
                old(self).wf(),
                i <= n,
                n == self.partitions@.len(),
                n == old(self).partitions@.len(),
                self.wf(),
                self.name == old(self).name,
                self.config == old(self).config,
                forall|j: int| i <= j < n ==> self.partitions@[j] == old(self).partitions@[j],
                forall|j: int|
                    0 <= j < i ==> #[trigger] self.partitions@[j] == (if Self::spec_expired(
                        old(self).partitions@[j],
                        max_age_seconds,
                        now,
                    ) {
                        None::<PartitionEntry>
                    } else {
                        old(self).partitions@[j]
                    }),
                forall|k: int|
                    0 <= k < removed@.len() ==> (#[trigger] removed@[k]) < i,
                forall|j: int|
                    0 <= j < i ==> (removed@.contains(j as usize) <==> Self::spec_expired(
                        old(self).partitions@[j],
                        max_age_seconds,
                        now,
                    )),
            decreases n - i,
        {
            let mut expired: bool = false;
            match &self.partitions[i] {
                Some(entry) => {
                    match entry.state {
                        PartitionState::Deleted(t) => {
                            if now >= t && now - t >= max_age_seconds {
                                expired = true;
                            }
                        },
                        PartitionState::Active => {
                        },
                    }
                },
                None => {
                },
            }
            if expired {
                self.partitions[i] = None;
                let ghost old_removed = removed@;
                removed.push(i);
                proof {
                    assert(removed@[old_removed.len() as int] == i);
                    assert(removed@.contains(i));
                    assert forall|j: int| 0 <= j < i implies (removed@.contains(#[trigger] (
                    j as usize)) <==> old_removed.contains(j as usize)) by {
                        if old_removed.contains(j as usize) {
                            let k = choose|k: int|
                                0 <= k < old_removed.len() && old_removed[k] == j as usize;
                            assert(removed@[k] == j as usize);
                        }
                        if removed@.contains(j as usize) {
                            let k = choose|k: int|
                                0 <= k < removed@.len() && removed@[k] == j as usize;
                            assert(k < old_removed.len());
                            assert(old_removed[k] == j as usize);
                        }
                    }
                }
            } else {
                proof {
                    if removed@.contains(i as usize) {
                        let k = choose|k: int|
                            0 <= k < removed@.len() && removed@[k] == i as usize;
                        assert(removed@[k] < i);
                        assert(false);
                    }
                }
            }
            i = i + 1;
        }
        removed
    }

    /// A slot holds a tombstone old enough to reclaim.
    pub open spec fn spec_expired(
        slot: Option<PartitionEntry>,
        max_age_seconds: u64,
        now: u64,
    ) -> bool {
        match slot {
            Some(e) => match e.state {
                PartitionState::Deleted(t) => now >= t && now - t >= max_age_seconds,
                PartitionState::Active => false,
            },
            None => false,
        }
    }

    /// Append one payload to the partition with this id.
    pub fn append_message(&mut self, partition_id: usize, message: Vec<u8>) -> (r: Result<
        u64,
        StorageError,
    >)
        requires
            old(self).wf(),
            old(self).spec_append_ready(partition_id),
            message@.len() <= u32::MAX,
        ensures
            final(self).wf(),
            final(self).name == old(self).name,
            final(self).config == old(self).config,
            final(self).partitions@.len() == old(self).partitions@.len(),
            forall|i: int|
                0 <= i < final(self).partitions@.len() && i != partition_id ==> final(self).partitions@[i] == old(self).partitions@[i],
            match r {
                Ok(off) => {
                    &&& partition_id < old(self).partitions@.len()
                    &&& match (
                        old(self).partitions@[partition_id as int],
                        final(self).partitions@[partition_id as int],
                    ) {
                        (Some(e0), Some(e1)) => e0.state == PartitionState::Active && e1.state
                            == PartitionState::Active && spec_queue_appended(
                            e0.queue,
                            e1.queue,
                            off,
                            message@,
                        ),
                        _ => false,
                    }
                },
                Err(StorageError::NotFound) => (partition_id >= old(self).partitions@.len() || old(
                    self,
                ).partitions@[partition_id as int] is None) && final(self).partitions@ == old(
                    self,
                ).partitions@,
                Err(StorageError::PartitionDeleted) => partition_id < old(
                    self,
                ).partitions@.len() && (match old(self).partitions@[partition_id as int] {
                    Some(e) => e.state is Deleted,
                    None => false,
                }) && final(self).partitions@ == old(self).partitions@,
                Err(StorageError::InvalidConfig) => partition_id < old(self).partitions@.len()
                    && (match old(self).partitions@[partition_id as int] {
                    Some(e) => e.state == PartitionState::Active && e.queue.max_segment_size == 0,
                    None => false,
                }) && spec_slot_eq(
                    old(self).partitions@[partition_id as int],
                    final(self).partitions@[partition_id as int],
                ),
                Err(_) => false,
            },
    {
        if partition_id >= self.partitions.len() {
            return Err(StorageError::NotFound);
        }
        let ghost old_parts = self.partitions@;
        let slot = &mut self.partitions[partition_id];
        match slot {
            Some(entry) => {
                match entry.state {
                    PartitionState::Active => {
                        let r = entry.queue.append_message(message.as_slice());
                        proof {
                            assert(self.partitions@ =~= old_parts.update(
                                partition_id as int,
                                self.partitions@[partition_id as int],
                            ));
                        }
                        match r {
                            Ok(off) => Ok(off),
                            Err(e) => {
                                proof {
                                    let q0 = (match old(self).partitions@[
                                        partition_id as int
                                    ] {
                                        Some(e0) => e0.queue,
                                        None => arbitrary(),
                                    });
                                    let q1 = (match self.partitions@[partition_id as int] {
                                        Some(e1) => e1.queue,
                                        None => arbitrary(),
                                    });
                                    assert(q1.segment_index@ =~= q0.segment_index@);
                                }
                                Err(e)
                            },
                        }
                    },
                    PartitionState::Deleted(_) => Err(StorageError::PartitionDeleted),
                }
            },
            None => Err(StorageError::NotFound),
        }
    }

    /// The directory the partition with this id lives under: the base
    /// directory, the topic name and the id, joined as one path.
    pub fn get_partition_dir(&self, partition_id: usize) -> (r: String)
        ensures
            r@ == self.config.base_dir@ + "/"@ + self.name@ + "-"@ + crate::naming::spec_decimal(
                partition_id as nat,
            ),
    {
        crate::naming::partition_dir(&self.config.base_dir, &self.name, partition_id)
    }

    /// Read the payload stored under `offset` in the partition with this
    /// id.
    pub fn read_message(&mut self, partition_id: usize, offset: u64) -> (r: Result<
        Option<Vec<u8>>,
        StorageError,
    >)
        requires
            old(self).wf(),
        ensures
            final(self).wf(),
            final(self).name == old(self).name,
            final(self).config == old(self).config,
            final(self).partitions@.len() == old(self).partitions@.len(),
            forall|i: int|
                0 <= i < final(self).partitions@.len() && i != partition_id ==> final(self).partitions@[i] == old(self).partitions@[i],
            match r {
                Ok(msg) => {
                    &&& partition_id < old(self).partitions@.len()
                    &&& match (
                        old(self).partitions@[partition_id as int],
                        final(self).partitions@[partition_id as int],
                    ) {
                        (Some(e0), Some(e1)) => e0.state == PartitionState::Active && e1.state
                            == PartitionState::Active && e1.queue.segments@ == e0.queue.segments@
                            && e1.queue.max_segment_size == e0.queue.max_segment_size && (
                        match msg {
                            Some(p) => e0.queue.spec_read_result(offset) == Some(p@),
                            None => e0.queue.spec_read_result(offset) == None::<Seq<u8>>,
                        }),
                        _ => false,
                    }
                },
                Err(StorageError::NotFound) => (partition_id >= old(self).partitions@.len() || old(
                    self,
                ).partitions@[partition_id as int] is None) && final(self).partitions@ == old(
                    self,
                ).partitions@,
                Err(StorageError::PartitionDeleted) => partition_id < old(
                    self,
                ).partitions@.len() && (match old(self).partitions@[partition_id as int] {
                    Some(e) => e.state is Deleted,
                    None => false,
                }) && final(self).partitions@ == old(self).partitions@,
                Err(_) => false,
            },
    {
        if partition_id >= self.partitions.len() {
            return Err(StorageError::NotFound);
        }
        let ghost old_parts = self.partitions@;
        let slot = &mut self.partitions[partition_id];
        match slot {
            Some(entry) => {
                match entry.state {
                    PartitionState::Active => {
                        let r = entry.queue.read_message(offset);
                        proof {
                            assert(self.partitions@ =~= old_parts.update(
                                partition_id as int,
                                self.partitions@[partition_id as int],
                            ));
                        }
                        Ok(r)
                    },
                    PartitionState::Deleted(_) => Err(StorageError::PartitionDeleted),
                }
            },
            None => Err(StorageError::NotFound),
        }
    }
}

} // verus!
