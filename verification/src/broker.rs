//! The broker facade: a topic registry, a router from payloads to
//! partitions, and the consumer-group offset map.
//!
//! Routing is deterministic: a payload lands in partition
//! `payload length mod partition count` of its topic.

use vstd::prelude::*;

use vstd::string::StringExecFns;

use crate::errors::StorageError;
use crate::request::ClientRequest;
use crate::request::ProduceRequest;
use crate::metadata::MetadataManager;
use crate::metadata::TopicConfig;
use crate::metadata::TopicMetadata;
use crate::topic::spec_queue_appended;
use crate::topic::PartitionState;
use crate::topic::Topic;

verus! {

/// The segment size bound a topic is created with, in bytes.
pub const DEFAULT_SEGMENT_SIZE: usize = 1048576;

/// One committed consumer offset, keyed by group, topic and partition.
pub struct OffsetEntry {
    /// The consumer group.
    pub group: String,
    /// The topic name.
    pub topic: String,
    /// The partition id.
    pub partition: usize,
    /// The committed offset.
    pub offset: u32,
}

/// This entry carries the given key.
pub open spec fn spec_offset_key_matches(
    e: OffsetEntry,
    group: Seq<char>,
    topic: Seq<char>,
    partition: usize,
) -> bool {
    e.group@ == group && e.topic@ == topic && e.partition == partition
}

/// The offset stored under a key: that of the first entry carrying it.
pub open spec fn spec_offset_lookup(
    entries: Seq<OffsetEntry>,
    group: Seq<char>,
    topic: Seq<char>,
    partition: usize,
) -> Option<u32>
    decreases entries.len(),
{
    if entries.len() == 0 {
        None
    } else if spec_offset_key_matches(entries[0], group, topic, partition) {
        Some(entries[0].offset)
    } else {
        spec_offset_lookup(entries.skip(1), group, topic, partition)
    }
}

/// When the first match sits at position `j`, the lookup returns its
/// offset.
proof fn lemma_offset_lookup_found(
    entries: Seq<OffsetEntry>,
    group: Seq<char>,
    topic: Seq<char>,
    partition: usize,
    j: int,
)
    requires
        0 <= j < entries.len(),
        forall|l: int|
            0 <= l < j ==> !spec_offset_key_matches(#[trigger] entries[l], group, topic, partition),
        spec_offset_key_matches(entries[j], group, topic, partition),
    ensures
        spec_offset_lookup(entries, group, topic, partition) == Some(entries[j].offset),
    decreases j,
{
    if j > 0 {
        let tail = entries.skip(1);
        assert(forall|l: int|
            0 <= l < j - 1 ==> !spec_offset_key_matches(
                #[trigger] tail[l],
                group,
                topic,
                partition,
            ));
        assert(tail[j - 1] == entries[j]);
        lemma_offset_lookup_found(tail, group, topic, partition, j - 1);
    }
}

/// When no entry matches, the lookup returns nothing.
proof fn lemma_offset_lookup_none(
    entries: Seq<OffsetEntry>,
    group: Seq<char>,
    topic: Seq<char>,
    partition: usize,
)
    requires
        forall|l: int|
            0 <= l < entries.len() ==> !spec_offset_key_matches(
                #[trigger] entries[l],
                group,
                topic,
                partition,
            ),
    ensures
        spec_offset_lookup(entries, group, topic, partition) == None::<u32>,
    decreases entries.len(),
{
    if entries.len() > 0 {
        let tail = entries.skip(1);
        assert(forall|l: int|
            0 <= l < tail.len() ==> !spec_offset_key_matches(
                #[trigger] tail[l],
                group,
                topic,
                partition,
            ));
        lemma_offset_lookup_none(tail, group, topic, partition);
    }
}

/// The position of the topic with this name, determined when the names are
/// pairwise distinct.
pub open spec fn spec_topic_index(topics: Seq<Topic>, name: Seq<char>) -> int {
    choose|i: int| 0 <= i < topics.len() && (#[trigger] topics[i]).name@ == name
}

/// Some topic carries this name.
pub open spec fn spec_has_topic(topics: Seq<Topic>, name: Seq<char>) -> bool {
    exists|i: int| 0 <= i < topics.len() && (#[trigger] topics[i]).name@ == name
}

/// What a send did: with no such topic it failed as not found and changed
/// nothing.  Otherwise it addressed partition `payload length mod partition
/// count` of the topic and left every other topic and partition alone; each
/// error names the one condition under which it comes — the routed slot
/// absent, tombstoned, or carrying a zero bound — so with the slot present,
/// active and usable, the append is owed and pinned under the returned
/// offset.
pub open spec fn spec_send_outcome(
    b0: Broker,
    b1: Broker,
    topic: Seq<char>,
    msg: Seq<u8>,
    r: Result<u64, StorageError>,
) -> bool {
    &&& b1.offsets@ == b0.offsets@
    &&& b1.topics@.len() == b0.topics@.len()
    &&& !spec_has_topic(b0.topics@, topic) ==> r == Err::<u64, StorageError>(
        StorageError::NotFound,
    ) && b1.topics@ == b0.topics@
    &&& spec_has_topic(b0.topics@, topic) ==> {
        let ti = spec_topic_index(b0.topics@, topic);
        let t0 = b0.topics@[ti];
        let t1 = b1.topics@[ti];
        let pid = Broker::spec_route(msg.len() as int, t0.spec_partition_count());
        &&& 0 <= pid < t0.partitions@.len()
        &&& forall|j: int|
            0 <= j < b0.topics@.len() && j != ti ==> b1.topics@[j] == b0.topics@[j]
        &&& t1.name@ == t0.name@
        &&& t1.config == t0.config
        &&& t1.partitions@.len() == t0.partitions@.len()
        &&& forall|p: int|
            0 <= p < t0.partitions@.len() && p != pid ==> t1.partitions@[p] == t0.partitions@[p]
        &&& match r {
            Ok(off) => match (t0.partitions@[pid], t1.partitions@[pid]) {
                (Some(e0), Some(e1)) => e0.state == PartitionState::Active && e1.state
                    == PartitionState::Active && spec_queue_appended(e0.queue, e1.queue, off, msg),
                _ => false,
            },
            Err(e) => match e {
                StorageError::NotFound => t0.partitions@[pid] is None && t1.partitions@
                    == t0.partitions@,
                StorageError::PartitionDeleted => (match t0.partitions@[pid] {
                    Some(e0) => e0.state is Deleted,
                    None => false,
                }) && t1.partitions@ == t0.partitions@,
                StorageError::InvalidConfig => (match t0.partitions@[pid] {
                    Some(e0) => e0.state == PartitionState::Active
                        && e0.queue.max_segment_size == 0,
                    None => false,
                }) && crate::topic::spec_slot_eq(t0.partitions@[pid], t1.partitions@[pid]),
                _ => false,
            },
        }
    }
}

/// What a fetch did: with no such topic it failed as not found; otherwise
/// it read the addressed partition, moved at most that partition's read
/// hint, and on success returned exactly what the partition stores under
/// the offset.  Each error names the one condition under which it comes —
/// the slot absent or tombstoned — so with the slot present and active,
/// the read is owed.
pub open spec fn spec_fetch_outcome(
    b0: Broker,
    b1: Broker,
    topic: Seq<char>,
    partition: usize,
    offset: u64,
    r: Result<Option<Vec<u8>>, StorageError>,
) -> bool {
    &&& b1.offsets@ == b0.offsets@
    &&& b1.topics@.len() == b0.topics@.len()
    &&& !spec_has_topic(b0.topics@, topic) ==> r == Err::<Option<Vec<u8>>, StorageError>(
        StorageError::NotFound,
    ) && b1.topics@ == b0.topics@
    &&& spec_has_topic(b0.topics@, topic) ==> {
        let ti = spec_topic_index(b0.topics@, topic);
        let t0 = b0.topics@[ti];
        let t1 = b1.topics@[ti];
        &&& forall|j: int|
            0 <= j < b0.topics@.len() && j != ti ==> b1.topics@[j] == b0.topics@[j]
        &&& t1.partitions@.len() == t0.partitions@.len()
        &&& forall|p: int|
            0 <= p < t0.partitions@.len() && p != partition ==> t1.partitions@[p]
                == t0.partitions@[p]
        &&& match r {
            Ok(msg) => partition < t0.partitions@.len() && match t0.partitions@[partition as int] {
                Some(e0) => e0.state == PartitionState::Active && (match msg {
                    Some(p) => e0.queue.spec_read_result(offset) == Some(p@),
                    None => e0.queue.spec_read_result(offset) == None::<Seq<u8>>,
                }),
                None => false,
            },
            Err(e) => t1.partitions@ == t0.partitions@ && match e {
                StorageError::NotFound => partition >= t0.partitions@.len() || t0.partitions@[
                    partition as int
                ] is None,
                StorageError::PartitionDeleted => partition < t0.partitions@.len() && (
                match t0.partitions@[partition as int] {
                    Some(e0) => e0.state is Deleted,
                    None => false,
                }),
                _ => false,
            },
        }
    }
}

/// The broker: all topics, their metadata, and the group offset map.
pub struct Broker {
    /// The registered topics, names pairwise distinct.
    pub topics: Vec<Topic>,
    /// The registered topic metadata.
    pub metadata_manager: MetadataManager,
    /// The committed consumer offsets, keys pairwise distinct.
    pub offsets: Vec<OffsetEntry>,
}

impl Broker {
    /// The broker's invariant: well-formed topics under distinct names, a
    /// well-formed metadata registry, and distinct offset keys.
    pub open spec fn wf(self) -> bool {
        &&& forall|i: int| 0 <= i < self.topics@.len() ==> (#[trigger] self.topics@[i]).wf()
        &&& forall|i: int, j: int|
            0 <= i < j < self.topics@.len() ==> (#[trigger] self.topics@[i]).name@ != (
            #[trigger] self.topics@[j]).name@
        &&& self.metadata_manager.wf()
        &&& forall|i: int, j: int|
            0 <= i < j < self.offsets@.len() ==> !(((#[trigger] self.offsets@[i]).group@ == (
            #[trigger] self.offsets@[j]).group@) && self.offsets@[i].topic@
                == self.offsets@[j].topic@ && self.offsets@[i].partition
                == self.offsets@[j].partition)
    }

    /// The partition a payload of this length is routed to, in a topic with
    /// this many partitions.
    pub open spec fn spec_route(payload_len: int, partition_count: int) -> int {
        payload_len % partition_count
    }

    /// A broker with no topics and no committed offsets.
    pub fn new() -> (r: Broker)
        ensures
            r.wf(),
            r.topics@.len() == 0,
            r.offsets@.len() == 0,
            r.metadata_manager.topics@.len() == 0,
    {
        Broker {
            topics: Vec::new(),
            metadata_manager: MetadataManager::new(),
            offsets: Vec::new(),
        }
    }

    /// A send of this payload to this topic stays within machine limits:
    /// the payload length fits its field, the topic has partitions to route
    /// over, and the routed partition has offsets left.
    pub open spec fn spec_send_ready(self, topic: Seq<char>, msg: Seq<u8>) -> bool {
        &&& msg.len() <= u32::MAX
        &&& spec_has_topic(self.topics@, topic) ==> {
            let t = self.topics@[spec_topic_index(self.topics@, topic)];
            &&& t.spec_partition_count() > 0
            &&& t.spec_append_ready(
                Broker::spec_route(msg.len() as int, t.spec_partition_count()) as usize,
            )
        }
    }

    /// The position of the topic with this name, if it is registered.
    fn find_topic(&self, name: &String) -> (r: Option<usize>)
        requires
            self.wf(),
        ensures
            match r {
                Some(i) => i < self.topics@.len() && self.topics@[i as int].name@ == name@
                    && spec_has_topic(self.topics@, name@) && spec_topic_index(
                    self.topics@,
                    name@,
                ) == i as int,
                None => !spec_has_topic(self.topics@, name@),
            },
    {
        let mut i: usize = 0;
        while i < self.topics.len()
            invariant
                self.wf(),
                i <= self.topics@.len(),
                forall|j: int| 0 <= j < i ==> (#[trigger] self.topics@[j]).name@ != name@,
            decreases self.topics@.len() - i,
        {
            if self.topics[i].name.eq(name) {
                proof {
                    let w = spec_topic_index(self.topics@, name@);
                    assert(self.topics@[i as int].name@ == name@);
                    assert(0 <= w < self.topics@.len() && self.topics@[w].name@ == name@);
                    if w != i as int {
                        assert(false);
                    }
                }
                return Some(i);
            }
            i = i + 1;
        }
        None
    }

    /// Register a topic under this name with this many partitions, each
    /// created empty, under the default segment size.  A taken name is
    /// refused.
    pub fn create_topic(&mut self, topic: &String, partitions: usize) -> (r: Result<
        (),
        StorageError,
    >)
        requires
            old(self).wf(),
        ensures
            final(self).wf(),
            final(self).offsets@ == old(self).offsets@,
            match r {
                Ok(()) => {
                    &&& !spec_has_topic(old(self).topics@, topic@)
                    &&& final(self).topics@.len() == old(self).topics@.len() + 1
                    &&& forall|j: int|
                        0 <= j < old(self).topics@.len() ==> final(self).topics@[j] == old(
                            self,
                        ).topics@[j]
                    &&& {
                        let t = final(self).topics@.last();
                        &&& t.name@ == topic@
                        &&& t.config.partitions == partitions
                        &&& t.config.segment_size == DEFAULT_SEGMENT_SIZE
                        &&& t.partitions@.len() == partitions
                        &&& forall|p: int|
                            0 <= p < partitions ==> match #[trigger] t.partitions@[p] {
                                Some(e) => crate::topic::spec_fresh_entry(
                                    e,
                                    DEFAULT_SEGMENT_SIZE,
                                ),
                                None => false,
                            }
                    }
                },
                Err(e) => e == StorageError::AlreadyExists && spec_has_topic(
                    old(self).topics@,
                    topic@,
                ) && final(self).topics@ == old(self).topics@,
            },
    {
        match self.find_topic(topic) {
            Some(_) => {
                return Err(StorageError::AlreadyExists);
            },
            None => {
            },
        }
        let config = TopicConfig {
            name: topic.clone(),
            partitions,
            replication_factor: 1,
            segment_size: DEFAULT_SEGMENT_SIZE,
            base_dir: String::new(),
        };
        let topic_metadata = TopicMetadata::new(topic.clone(), config);
        let _ = self.metadata_manager.add_topic(topic_metadata);
        let config2 = TopicConfig {
            name: topic.clone(),
            partitions,
            replication_factor: 1,
            segment_size: DEFAULT_SEGMENT_SIZE,
            base_dir: String::new(),
        };
        let mut t = Topic::new(topic.clone(), config2);
        let result = t.init_partitions();
        proof {
            assert(result is Ok);
        }
        let ghost old_topics = self.topics@;
        self.topics.push(t);
        proof {
            assert(forall|j: int|
                0 <= j < old_topics.len() ==> #[trigger] self.topics@[j] == old_topics[j]);
        }
        Ok(())
    }

    /// Route a payload to partition `payload length mod partition count` of
    /// the named topic and append it there.
    pub fn send_message(&mut self, topic: &String, message: Vec<u8>) -> (r: Result<
        u64,
        StorageError,
    >)
        requires
            old(self).wf(),
            old(self).spec_send_ready(topic@, message@),
        ensures
            final(self).wf(),
            spec_send_outcome(*old(self), *final(self), topic@, message@, r),
    {
        let ti = match self.find_topic(topic) {
            Some(i) => i,
            None => {
                return Err(StorageError::NotFound);
            },
        };
        let count = self.topics[ti].get_partition_count();
        proof {
            crate::topic::lemma_count_upto_bound(
                self.topics@[ti as int].partitions@,
                self.topics@[ti as int].partitions@.len() as int,
            );
        }
        let partition_id = message.len() % count;
        let ghost old_topics = self.topics@;
        let t = &mut self.topics[ti];
        let r = t.append_message(partition_id, message);
        proof {
            assert(self.topics@ =~= old_topics.update(ti as int, self.topics@[ti as int]));
        }
        r
    }

    /// Read the payload stored under this offset in one partition of the
    /// named topic.
    pub fn fetch_message(&mut self, topic: &String, partition: usize, offset: u32) -> (r: Result<
        Option<Vec<u8>>,
        StorageError,
    >)
        requires
            old(self).wf(),
        ensures
            final(self).wf(),
            spec_fetch_outcome(
                *old(self),
                *final(self),
                topic@,
                partition,
                offset as u64,
                r,
            ),
    {
        let ti = match self.find_topic(topic) {
            Some(i) => i,
            None => {
                return Err(StorageError::NotFound);
            },
        };
        let ghost old_topics = self.topics@;
        let t = &mut self.topics[ti];
        let r = t.read_message(partition, offset as u64);
        proof {
            assert(self.topics@ =~= old_topics.update(ti as int, self.topics@[ti as int]));
        }
        r
    }

    /// Commit a consumer group's offset for one topic partition.
    pub fn commit_offset(&mut self, group: &String, topic: &String, partition: usize, offset: u32)
        -> (r: Result<(), StorageError>)
        requires
            old(self).wf(),
        ensures
            final(self).wf(),
            final(self).topics@ == old(self).topics@,
            r == Ok::<(), StorageError>(()),
            spec_offset_lookup(final(self).offsets@, group@, topic@, partition) == Some(offset),
            forall|g: Seq<char>, t: Seq<char>, p: usize|
                !(g == group@ && t == topic@ && p == partition) ==> #[trigger] spec_offset_lookup(
                    final(self).offsets@,
                    g,
                    t,
                    p,
                ) == spec_offset_lookup(old(self).offsets@, g, t, p),
    {
        let ghost old_offsets = self.offsets@;
        let mut i: usize = 0;
        while i < self.offsets.len()
            invariant
                old(self).wf(),
                self.offsets@ == old_offsets,
                old_offsets == old(self).offsets@,
                self.topics@ == old(self).topics@,
                self.metadata_manager == old(self).metadata_manager,
                i <= self.offsets@.len(),
                forall|l: int|
                    0 <= l < i ==> !spec_offset_key_matches(
                        #[trigger] old_offsets[l],
                        group@,
                        topic@,
                        partition,
                    ),
            decreases self.offsets@.len() - i,
        {
            let matches_key = self.offsets[i].group.eq(group) && self.offsets[i].topic.eq(topic)
                && self.offsets[i].partition == partition;
            if matches_key {
                let ghost hit = i as int;
                self.offsets[i].offset = offset;
                proof {
                    assert(self.offsets@ =~= old_offsets.update(hit, self.offsets@[hit]));
                    assert(spec_offset_key_matches(self.offsets@[hit], group@, topic@, partition));
                    lemma_offset_lookup_found(self.offsets@, group@, topic@, partition, hit);
                    assert forall|g: Seq<char>, t: Seq<char>, p: usize|
                        !(g == group@ && t == topic@ && p == partition) implies #[trigger] spec_offset_lookup(
                        self.offsets@,
                        g,
                        t,
                        p,
                    ) == spec_offset_lookup(old_offsets, g, t, p) by {
                        Broker::lemma_lookup_after_update(old_offsets, self.offsets@, hit, g, t, p);
                    }
                }
                return Ok(());
            }
            i = i + 1;
        }
        let entry = OffsetEntry {
            group: group.clone(),
            topic: topic.clone(),
            partition,
            offset,
        };
        self.offsets.push(entry);
        proof {
            let n = old_offsets.len() as int;
            assert(spec_offset_key_matches(self.offsets@[n], group@, topic@, partition));
            lemma_offset_lookup_found(self.offsets@, group@, topic@, partition, n);
            assert forall|g: Seq<char>, t: Seq<char>, p: usize|
                !(g == group@ && t == topic@ && p == partition) implies #[trigger] spec_offset_lookup(
                self.offsets@,
                g,
                t,
                p,
            ) == spec_offset_lookup(old_offsets, g, t, p) by {
                Broker::lemma_lookup_after_push(old_offsets, self.offsets@, g, t, p);
            }
        }
        Ok(())
    }

    /// Lookups under other keys see through an update that keeps the key at
    /// `hit`.
    proof fn lemma_lookup_after_update(
        old_entries: Seq<OffsetEntry>,
        new_entries: Seq<OffsetEntry>,
        hit: int,
        g: Seq<char>,
        t: Seq<char>,
        p: usize,
    )
        requires
            old_entries.len() == new_entries.len(),
            0 <= hit < old_entries.len(),
            forall|j: int| 0 <= j < old_entries.len() && j != hit ==> new_entries[j] == old_entries[j],
            new_entries[hit].group@ == old_entries[hit].group@,
            new_entries[hit].topic@ == old_entries[hit].topic@,
            new_entries[hit].partition == old_entries[hit].partition,
            !spec_offset_key_matches(old_entries[hit], g, t, p),
        ensures
            spec_offset_lookup(new_entries, g, t, p) == spec_offset_lookup(old_entries, g, t, p),
        decreases old_entries.len(),
    {
        if old_entries.len() > 0 {
            if hit == 0 {
                assert(!spec_offset_key_matches(new_entries[0], g, t, p));
                assert(new_entries.skip(1) =~= old_entries.skip(1));
            } else {
                assert(new_entries[0] == old_entries[0]);
                if !spec_offset_key_matches(old_entries[0], g, t, p) {
                    Broker::lemma_lookup_after_update(
                        old_entries.skip(1),
                        new_entries.skip(1),
                        hit - 1,
                        g,
                        t,
                        p,
                    );
                }
            }
        }
    }

    /// Lookups under other keys see through a push of a new key.
    proof fn lemma_lookup_after_push(
        old_entries: Seq<OffsetEntry>,
        new_entries: Seq<OffsetEntry>,
        g: Seq<char>,
        t: Seq<char>,
        p: usize,
    )
        requires
            new_entries.len() == old_entries.len() + 1,
            forall|j: int| 0 <= j < old_entries.len() ==> new_entries[j] == old_entries[j],
            !spec_offset_key_matches(new_entries[old_entries.len() as int], g, t, p),
        ensures
            spec_offset_lookup(new_entries, g, t, p) == spec_offset_lookup(old_entries, g, t, p),
        decreases old_entries.len(),
    {
        if old_entries.len() == 0 {
            assert(!spec_offset_key_matches(new_entries[0], g, t, p));
            assert(spec_offset_lookup(new_entries.skip(1), g, t, p) == None::<u32>) by {
                assert(new_entries.skip(1).len() == 0);
            }
        } else {
            assert(new_entries[0] == old_entries[0]);
            if !spec_offset_key_matches(old_entries[0], g, t, p) {
                assert(new_entries.skip(1)[old_entries.skip(1).len() as int] == new_entries[
                    old_entries.len() as int]);
                Broker::lemma_lookup_after_push(
                    old_entries.skip(1),
                    new_entries.skip(1),
                    g,
                    t,
                    p,
                );
            }
        }
    }

    /// The offset a consumer group committed for one topic partition, if
    /// any.
    pub fn get_offset(&self, group: &String, topic: &String, partition: usize) -> (r: Result<
        Option<u32>,
        StorageError,
    >)
        requires
            self.wf(),
        ensures
            r == Ok::<Option<u32>, StorageError>(
                spec_offset_lookup(self.offsets@, group@, topic@, partition),
            ),
    {
        let mut i: usize = 0;
        while i < self.offsets.len()
            invariant
                i <= self.offsets@.len(),
                forall|l: int|
                    0 <= l < i ==> !spec_offset_key_matches(
                        #[trigger] self.offsets@[l],
                        group@,
                        topic@,
                        partition,
                    ),
            decreases self.offsets@.len() - i,
        {
            let matches_key = self.offsets[i].group.eq(group) && self.offsets[i].topic.eq(topic)
                && self.offsets[i].partition == partition;
            if matches_key {
                proof {
                    lemma_offset_lookup_found(self.offsets@, group@, topic@, partition, i as int);
                }
                return Ok(Some(self.offsets[i].offset));
            }
            i = i + 1;
        }
        proof {
            lemma_offset_lookup_none(self.offsets@, group@, topic@, partition);
        }
        Ok(None)
    }

    /// Dispatch one client request.  A produce forwards its first payload
    /// to the routing path; a fetch with a representable address reads and
    /// discards; the remaining kinds acknowledge without acting, as the
    /// registry has nothing to do for them yet.
    pub fn handle_request(&mut self, request: ClientRequest) -> (r: Result<(), StorageError>)
        requires
            old(self).wf(),
            match request {
                ClientRequest::Produce(req) => req.messages@.len() > 0 ==> old(
                    self,
                ).spec_send_ready(req.topic@, req.messages@[0]@),
                _ => true,
            },
        ensures
            final(self).wf(),
            match request {
                ClientRequest::Produce(req) => if req.messages@.len() == 0 {
                    *final(self) == *old(self) && r == Ok::<(), StorageError>(())
                } else {
                    exists|sr: Result<u64, StorageError>|
                        #[trigger] spec_send_outcome(
                            *old(self),
                            *final(self),
                            req.topic@,
                            req.messages@[0]@,
                            sr,
                        ) && r == (match sr {
                            Ok(_) => Ok::<(), StorageError>(()),
                            Err(e) => Err::<(), StorageError>(e),
                        })
                },
                ClientRequest::Fetch(req) => if req.partition < 0 || req.offset < 0 || req.offset
                    > u32::MAX {
                    *final(self) == *old(self) && r == Err::<(), StorageError>(
                        StorageError::OutOfRange,
                    )
                } else {
                    exists|fr: Result<Option<Vec<u8>>, StorageError>|
                        #[trigger] spec_fetch_outcome(
                            *old(self),
                            *final(self),
                            req.topic@,
                            req.partition as usize,
                            req.offset as u64,
                            fr,
                        ) && r == (match fr {
                            Ok(_) => Ok::<(), StorageError>(()),
                            Err(e) => Err::<(), StorageError>(e),
                        })
                },
                _ => *final(self) == *old(self) && r == Ok::<(), StorageError>(()),
            },
    {
        match request {
            ClientRequest::Produce(req) => {
                let ProduceRequest { topic, partition: _, mut messages } = req;
                if messages.len() == 0 {
                    return Ok(());
                }
                let first = messages.remove(0);
                match self.send_message(&topic, first) {
                    Ok(_) => Ok(()),
                    Err(e) => Err(e),
                }
            },
            ClientRequest::Fetch(req) => {
                if req.partition < 0 || req.offset < 0 || req.offset > u32::MAX as i64 {
                    return Err(StorageError::OutOfRange);
                }
                match self.fetch_message(&req.topic, req.partition as usize, req.offset as u32) {
                    Ok(_) => Ok(()),
                    Err(e) => Err(e),
                }
            },
            _ => Ok(()),
        }
    }
}

/// Serves the raw frames of the network layer against one broker.
pub struct RequestHandler {
    /// The broker behind this handler.
    pub broker: Broker,
}

impl RequestHandler {
    /// A handler over this broker.
    pub fn new(broker: Broker) -> (r: RequestHandler)
        ensures
            r.broker == broker,
    {
        RequestHandler { broker }
    }

    /// Serve one frame.  A frame of type one produces its payload to the
    /// default topic and answers with the assigned offset, narrowed to the
    /// id field; one of type two fetches the offset its id names from the
    /// default topic's first partition and answers with the payload found,
    /// or an empty one; anything else is answered empty.
    pub fn handle_request(&mut self, request: crate::wire::BinaryMessage) -> (r:
        crate::wire::BinaryMessage)
        requires
            old(self).broker.wf(),
            request.msg_type == 1 ==> old(self).broker.spec_send_ready(
                "default_topic"@,
                request.payload@,
            ),
        ensures
            final(self).broker.wf(),
            request.msg_type == 1 ==> exists|sr: Result<u64, StorageError>|
                #[trigger] spec_send_outcome(
                    old(self).broker,
                    final(self).broker,
                    "default_topic"@,
                    request.payload@,
                    sr,
                ) && r.msg_type == 1 && r.payload@.len() == 0 && r.msg_id == (match sr {
                    Ok(off) => off as u32,
                    Err(_) => 0u32,
                }),
            request.msg_type == 2 ==> exists|fr: Result<Option<Vec<u8>>, StorageError>|
                #[trigger] spec_fetch_outcome(
                    old(self).broker,
                    final(self).broker,
                    "default_topic"@,
                    0,
                    request.msg_id as u64,
                    fr,
                ) && r.msg_type == 2 && r.msg_id == request.msg_id && r.payload@ == (match fr {
                    Ok(Some(p)) => p@,
                    Ok(None) => Seq::<u8>::empty(),
                    Err(_) => Seq::<u8>::empty(),
                }),
            request.msg_type != 1 && request.msg_type != 2 ==> *final(self) == *old(self)
                && r.msg_type == 0 && r.msg_id == 0 && r.payload@.len() == 0,
    {
        if request.msg_type == 1 {
            let topic = String::from_str("default_topic");
            let sr = self.broker.send_message(&topic, request.payload);
            let msg_id: u32 = match sr {
                Ok(off) => off as u32,
                Err(_) => 0,
            };
            crate::wire::BinaryMessage { msg_type: 1, msg_id, payload: Vec::new() }
        } else if request.msg_type == 2 {
            let topic = String::from_str("default_topic");
            let fr = self.broker.fetch_message(&topic, 0, request.msg_id);
            let payload: Vec<u8> = match fr {
                Ok(Some(p)) => p,
                Ok(None) => Vec::new(),
                Err(_) => Vec::new(),
            };
            crate::wire::BinaryMessage { msg_type: 2, msg_id: request.msg_id, payload }
        } else {
            crate::wire::BinaryMessage { msg_type: 0, msg_id: 0, payload: Vec::new() }
        }
    }
}

} // verus!
