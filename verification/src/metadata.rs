//! Topic metadata: configuration and per-partition placement records, and
//! the manager that registers them by topic name.

use vstd::prelude::*;

use crate::errors::StorageError;

verus! {

/// Keeps every placement record not bearing the given partition id.
pub open spec fn spec_other_partitions(partition_id: usize) -> spec_fn(PartitionMetadata) -> bool {
    |p: PartitionMetadata| p.id != partition_id
}

/// The first placement record carrying the given partition id, if any.
pub open spec fn spec_find_partition(
    parts: Seq<PartitionMetadata>,
    partition_id: usize,
) -> Option<PartitionMetadata>
    decreases parts.len(),
{
    if parts.len() == 0 {
        None
    } else if parts[0].id == partition_id {
        Some(parts[0])
    } else {
        spec_find_partition(parts.skip(1), partition_id)
    }
}

/// When the first record with the id sits at position `j`, the search
/// returns it.
proof fn lemma_find_partition_found(parts: Seq<PartitionMetadata>, partition_id: usize, j: int)
    requires
        0 <= j < parts.len(),
        forall|l: int| 0 <= l < j ==> (#[trigger] parts[l]).id != partition_id,
        parts[j].id == partition_id,
    ensures
        spec_find_partition(parts, partition_id) == Some(parts[j]),
    decreases j,
{
    if j > 0 {
        let tail = parts.skip(1);
        assert(forall|l: int| 0 <= l < j - 1 ==> (#[trigger] tail[l]).id != partition_id);
        assert(tail[j - 1] == parts[j]);
        lemma_find_partition_found(tail, partition_id, j - 1);
    }
}

/// When no record carries the id, the search returns nothing.
proof fn lemma_find_partition_none(parts: Seq<PartitionMetadata>, partition_id: usize)
    requires
        forall|l: int| 0 <= l < parts.len() ==> (#[trigger] parts[l]).id != partition_id,
    ensures
        spec_find_partition(parts, partition_id) == None::<PartitionMetadata>,
    decreases parts.len(),
{
    if parts.len() > 0 {
        let tail = parts.skip(1);
        assert(forall|l: int| 0 <= l < tail.len() ==> (#[trigger] tail[l]).id != partition_id);
        lemma_find_partition_none(tail, partition_id);
    }
}

/// Placement of one partition: its leader and replica sets.
pub struct PartitionMetadata {
    /// The partition id.
    pub id: usize,
    /// The broker id of the partition's leader.
    pub leader: u32,
    /// The broker ids holding replicas.
    pub replicas: Vec<u32>,
    /// The broker ids of in-sync replicas.
    pub isr: Vec<u32>,
}

/// A topic's configuration.
pub struct TopicConfig {
    /// The topic name.
    pub name: String,
    /// How many partitions the topic has.
    pub partitions: usize,
    /// How many replicas each partition keeps.
    pub replication_factor: usize,
    /// The soft size bound of one segment's log in bytes.
    pub segment_size: usize,
    /// The directory under which the partition directories live.
    pub base_dir: String,
}

/// A topic's metadata: its name, configuration and partition placements.
pub struct TopicMetadata {
    /// The topic name.
    pub name: String,
    /// One placement record per known partition.
    pub partitions: Vec<PartitionMetadata>,
    /// The topic's configuration.
    pub config: TopicConfig,
}

impl TopicMetadata {
    /// Metadata for a topic with no partitions yet.
    pub fn new(name: String, config: TopicConfig) -> (r: TopicMetadata)
        ensures
            r.name@ == name@,
            r.partitions@.len() == 0,
            r.config == config,
    {
        TopicMetadata { name, partitions: Vec::new(), config }
    }

    /// Record one more partition.
    pub fn add_partition(&mut self, partition: PartitionMetadata)
        ensures
            final(self).partitions@ == old(self).partitions@.push(partition),
            final(self).name == old(self).name,
            final(self).config == old(self).config,
    {
        self.partitions.push(partition);
    }

    /// Forget every partition with this id, keeping the rest in order.
    pub fn remove_partition(&mut self, partition_id: usize)
        ensures
            final(self).partitions@ == old(self).partitions@.filter(
                spec_other_partitions(partition_id),
            ),
            final(self).name == old(self).name,
            final(self).config == old(self).config,
    {
        let ghost old_parts = self.partitions@;
        let mut i: usize = 0;
        let ghost mut c: int = 0;
        let ghost pred = spec_other_partitions(partition_id);
        proof {
            reveal(Seq::filter);
            assert(old_parts.take(0).filter(pred) =~= Seq::<PartitionMetadata>::empty());
            assert(self.partitions@ =~= old_parts.take(0).filter(pred) + old_parts.skip(0));
        }
        while i < self.partitions.len()
            invariant
                0 <= c <= old_parts.len(),
                pred == spec_other_partitions(partition_id),
                old_parts == old(self).partitions@,
                self.name == old(self).name,
                self.config == old(self).config,
                i as int == old_parts.take(c).filter(pred).len(),
                self.partitions@ == old_parts.take(c).filter(pred) + old_parts.skip(c),
            decreases old_parts.len() - c,
        {
            proof {
                reveal(Seq::filter);
                assert(old_parts.skip(c).len() > 0);
                assert(self.partitions@[i as int] == old_parts[c]);
                assert(old_parts.take(c + 1).drop_last() =~= old_parts.take(c));
                assert(old_parts.take(c + 1).last() == old_parts[c]);
            }
            if self.partitions[i].id == partition_id {
                self.partitions.remove(i);
                proof {
                    reveal(Seq::filter);
                    assert(!pred(old_parts[c]));
                    assert(old_parts.take(c + 1).filter(pred) =~= old_parts.take(c).filter(pred));
                    assert(self.partitions@ =~= old_parts.take(c + 1).filter(pred)
                        + old_parts.skip(c + 1));
                }
            } else {
                proof {
                    reveal(Seq::filter);
                    assert(pred(old_parts[c]));
                    assert(old_parts.take(c + 1).filter(pred) =~= old_parts.take(c).filter(
                        pred,
                    ).push(old_parts[c]));
                    assert(self.partitions@ =~= old_parts.take(c + 1).filter(pred)
                        + old_parts.skip(c + 1));
                }
                i = i + 1;
            }
            proof {
                c = c + 1;
            }
        }
        proof {
            assert(old_parts.skip(c).len() == 0);
            assert(old_parts.take(c) =~= old_parts);
        }
    }

    /// The placement record of the first partition with this id, if any.
    pub fn get_partition(&self, partition_id: usize) -> (r: Option<&PartitionMetadata>)
        ensures
            match r {
                Some(p) => spec_find_partition(self.partitions@, partition_id) == Some(*p),
                None => spec_find_partition(self.partitions@, partition_id) == None::<
                    PartitionMetadata,
                >,
            },
    {
        let mut i: usize = 0;
        while i < self.partitions.len()
            invariant
                i <= self.partitions@.len(),
                forall|j: int|
                    0 <= j < i ==> (#[trigger] self.partitions@[j]).id != partition_id,
            decreases self.partitions@.len() - i,
        {
            if self.partitions[i].id == partition_id {
                proof {
                    lemma_find_partition_found(self.partitions@, partition_id, i as int);
                }
                return Some(&self.partitions[i]);
            }
            i = i + 1;
        }
        proof {
            lemma_find_partition_none(self.partitions@, partition_id);
        }
        None
    }
}

/// The registry of topic metadata, one record per topic name.
pub struct MetadataManager {
    /// The records, with pairwise distinct names.
    pub topics: Vec<TopicMetadata>,
}

impl MetadataManager {
    /// Every registered name appears once.
    pub open spec fn wf(self) -> bool {
        forall|i: int, j: int|
            0 <= i < j < self.topics@.len() ==> (#[trigger] self.topics@[i]).name@ != (
            #[trigger] self.topics@[j]).name@
    }

    /// Some record carries this name.
    pub open spec fn spec_has_topic(self, name: Seq<char>) -> bool {
        exists|i: int| 0 <= i < self.topics@.len() && (#[trigger] self.topics@[i]).name@ == name
    }

    /// An empty registry.
    pub fn new() -> (r: MetadataManager)
        ensures
            r.wf(),
            r.topics@.len() == 0,
    {
        MetadataManager { topics: Vec::new() }
    }

    /// Register a topic; a name already registered is refused.
    pub fn add_topic(&mut self, topic: TopicMetadata) -> (r: Result<(), StorageError>)
        requires
            old(self).wf(),
        ensures
            final(self).wf(),
            match r {
                Ok(()) => !old(self).spec_has_topic(topic.name@) && final(self).topics@ == old(
                    self,
                ).topics@.push(topic),
                Err(e) => e == StorageError::AlreadyExists && old(self).spec_has_topic(topic.name@)
                    && final(self).topics@ == old(self).topics@,
            },
    {
        let mut i: usize = 0;
        while i < self.topics.len()
            invariant
                i <= self.topics@.len(),
                old(self).wf(),
                self.topics@ == old(self).topics@,
                forall|j: int| 0 <= j < i ==> (#[trigger] self.topics@[j]).name@ != topic.name@,
            decreases self.topics@.len() - i,
        {
            if self.topics[i].name.eq(&topic.name) {
                return Err(StorageError::AlreadyExists);
            }
            i = i + 1;
        }
        self.topics.push(topic);
        Ok(())
    }

    /// The record registered under this name, if any.
    pub fn get_topic(&self, name: &String) -> (r: Option<&TopicMetadata>)
        ensures
            match r {
                Some(t) => t.name@ == name@ && exists|i: int|
                    0 <= i < self.topics@.len() && (#[trigger] self.topics@[i]) == *t,
                None => !self.spec_has_topic(name@),
            },
    {
        let mut i: usize = 0;
        while i < self.topics.len()
            invariant
                i <= self.topics@.len(),
                forall|j: int| 0 <= j < i ==> (#[trigger] self.topics@[j]).name@ != name@,
            decreases self.topics@.len() - i,
        {
            if self.topics[i].name.eq(name) {
                return Some(&self.topics[i]);
            }
            i = i + 1;
        }
        None
    }

    /// Drop the record registered under this name, if there is one.  An
    /// absent name changes nothing, so a repeated call is idempotent.
    pub fn remove_topic(&mut self, name: &String)
        requires
            old(self).wf(),
        ensures
            final(self).wf(),
            !final(self).spec_has_topic(name@),
            forall|t: Seq<char>|
                t != name@ ==> (final(self).spec_has_topic(t) <==> old(self).spec_has_topic(t)),
            old(self).spec_has_topic(name@) ==> exists|i: int|
                0 <= i < old(self).topics@.len() && (#[trigger] old(self).topics@[i]).name@
                    == name@ && final(self).topics@ == old(self).topics@.remove(i),
            !old(self).spec_has_topic(name@) ==> final(self).topics@ == old(self).topics@,
    {
        let ghost old_topics = self.topics@;
        let mut i: usize = 0;
        while i < self.topics.len()
            invariant
                old(self).wf(),
                i <= self.topics@.len(),
                self.topics@ == old_topics,
                old_topics == old(self).topics@,
                forall|j: int| 0 <= j < i ==> (#[trigger] old_topics[j]).name@ != name@,
            decreases self.topics@.len() - i,
        {
            if self.topics[i].name.eq(name) {
                let ghost hit = i as int;
                self.topics.remove(i);
                proof {
                    assert(self.topics@ =~= old_topics.remove(hit));
                    assert(forall|j: int|
                        0 <= j < self.topics@.len() ==> #[trigger] self.topics@[j] == if j < hit {
                            old_topics[j]
                        } else {
                            old_topics[j + 1]
                        });
                    assert forall|t: Seq<char>|
                        t != name@ && old(self).spec_has_topic(t) implies self.spec_has_topic(
                        t,
                    ) by {
                        let k = choose|k: int|
                            0 <= k < old_topics.len() && (#[trigger] old_topics[k]).name@ == t;
                        if k < hit {
                            assert(self.topics@[k] == old_topics[k]);
                        } else {
                            assert(self.topics@[k - 1] == old_topics[k]);
                        }
                    }
                }
                return ;
            }
            i = i + 1;
        }
    }
}

} // verus!
