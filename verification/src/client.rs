//! The client-side view of consumers and consumer groups.

use vstd::prelude::*;

verus! {

/// One partition's placement, as a topic description reports it.
pub struct PartitionInfo {
    /// The partition id.
    pub partition_id: usize,
    /// The node id of the partition's leader.
    pub leader: i32,
    /// The nodes holding replicas.
    pub replicas: Vec<i32>,
    /// The in-sync replicas.
    pub isr: Vec<i32>,
}

/// What describing a topic reports: its name and partitions.
pub struct TopicDescription {
    /// The topic name.
    pub name: String,
    /// The partitions' placements.
    pub partitions: Vec<PartitionInfo>,
}

/// One member of a consumer group.
pub struct GroupMember {
    /// The member's id.
    pub member_id: String,
    /// The partitions assigned to the member.
    pub assigned_partitions: Vec<usize>,
}

/// Keeps every assignment not owned by the given member.
pub open spec fn spec_other_assignments(member_id: Seq<char>) -> spec_fn((usize, String)) -> bool {
    |p: (usize, String)| p.1@ != member_id
}

/// A consumer group: its members and their partition assignments.
pub struct ConsumerGroup {
    /// The group id.
    pub group_id: String,
    /// The members, ids pairwise distinct.
    pub members: Vec<GroupMember>,
    /// Which member consumes each partition.
    pub partition_assignment: Vec<(usize, String)>,
}

impl ConsumerGroup {
    /// Member ids appear once each.
    pub open spec fn wf(self) -> bool {
        forall|i: int, j: int|
            0 <= i < j < self.members@.len() ==> (#[trigger] self.members@[i]).member_id@ != (
            #[trigger] self.members@[j]).member_id@
    }

    /// Some member carries this id.
    pub open spec fn spec_has_member(self, member_id: Seq<char>) -> bool {
        exists|i: int|
            0 <= i < self.members@.len() && (#[trigger] self.members@[i]).member_id@ == member_id
    }

    /// A group with no members and no assignments.
    pub fn new(group_id: String) -> (r: ConsumerGroup)
        ensures
            r.wf(),
            r.group_id@ == group_id@,
            r.members@.len() == 0,
            r.partition_assignment@.len() == 0,
    {
        ConsumerGroup { group_id, members: Vec::new(), partition_assignment: Vec::new() }
    }

    /// Add a member, or reset an existing one to an empty assignment.
    pub fn add_member(&mut self, member_id: String)
        requires
            old(self).wf(),
        ensures
            final(self).wf(),
            final(self).group_id == old(self).group_id,
            final(self).partition_assignment == old(self).partition_assignment,
            final(self).spec_has_member(member_id@),
            final(self).members@.len() == old(self).members@.len() + (if old(
                self,
            ).spec_has_member(member_id@) {
                0int
            } else {
                1int
            }),
            forall|j: int|
                0 <= j < old(self).members@.len() && (#[trigger] old(self).members@[j]).member_id@
                    != member_id@ ==> final(self).members@[j] == old(self).members@[j],
            forall|j: int|
                0 <= j < final(self).members@.len() && (#[trigger] final(self).members@[
                    j
                ]).member_id@ == member_id@ ==> final(self).members@[j].assigned_partitions@.len()
                    == 0,
    {
        let ghost old_members = self.members@;
        let mut i: usize = 0;
        while i < self.members.len()
            invariant
                old(self).wf(),
                self.members@ == old_members,
                old_members == old(self).members@,
                self.group_id == old(self).group_id,
                self.partition_assignment == old(self).partition_assignment,
                i <= self.members@.len(),
                forall|j: int|
                    0 <= j < i ==> (#[trigger] old_members[j]).member_id@ != member_id@,
            decreases self.members@.len() - i,
        {
            if self.members[i].member_id.eq(&member_id) {
                self.members[i] = GroupMember { member_id, assigned_partitions: Vec::new() };
                proof {
                    assert(self.members@[i as int].member_id@ == member_id@);
                }
                return ;
            }
            i = i + 1;
        }
        self.members.push(GroupMember { member_id, assigned_partitions: Vec::new() });
        proof {
            assert(self.members@.last().member_id@ == member_id@);
        }
    }

    /// Drop the member with this id and every assignment it held.  Every
    /// other member's record stays word for word; dropping an absent id
    /// changes no member, so a repeated call is idempotent.
    pub fn remove_member(&mut self, member_id: &String)
        requires
            old(self).wf(),
        ensures
            final(self).wf(),
            final(self).group_id == old(self).group_id,
            !final(self).spec_has_member(member_id@),
            forall|m: Seq<char>|
                m != member_id@ ==> (final(self).spec_has_member(m) <==> old(
                    self,
                ).spec_has_member(m)),
            old(self).spec_has_member(member_id@) ==> exists|i: int|
                0 <= i < old(self).members@.len() && (#[trigger] old(self).members@[
                    i
                ]).member_id@ == member_id@ && final(self).members@ == old(
                    self,
                ).members@.remove(i),
            !old(self).spec_has_member(member_id@) ==> final(self).members@ == old(self).members@,
            final(self).partition_assignment@ == old(self).partition_assignment@.filter(
                spec_other_assignments(member_id@),
            ),
    {
        let ghost old_members = self.members@;
        let mut i: usize = 0;
        let mut found: bool = false;
        while i < self.members.len() && !found
            invariant
                old(self).wf(),
                self.group_id == old(self).group_id,
                self.partition_assignment == old(self).partition_assignment,
                i <= self.members@.len(),
                !found ==> self.members@ == old_members,
                old_members == old(self).members@,
                !found ==> forall|j: int|
                    0 <= j < i ==> (#[trigger] old_members[j]).member_id@ != member_id@,
                found ==> self.wf() && !self.spec_has_member(member_id@) && (forall|m: Seq<char>|
                    m != member_id@ ==> (self.spec_has_member(m) <==> old(self).spec_has_member(
                        m,
                    ))) && exists|i0: int|
                    0 <= i0 < old_members.len() && (#[trigger] old_members[i0]).member_id@
                        == member_id@ && self.members@ == old_members.remove(i0),
            decreases self.members@.len() - i + (if found {
                0int
            } else {
                1int
            }),
        {
            if self.members[i].member_id.eq(member_id) {
                let ghost hit = i as int;
                self.members.remove(i);
                found = true;
                proof {
                    assert(self.members@ =~= old_members.remove(hit));
                    assert(forall|j: int|
                        0 <= j < self.members@.len() ==> #[trigger] self.members@[j] == if j < hit {
                            old_members[j]
                        } else {
                            old_members[j + 1]
                        });
                    assert forall|m: Seq<char>|
                        m != member_id@ && old(self).spec_has_member(m) implies self.spec_has_member(
                        m,
                    ) by {
                        let k = choose|k: int|
                            0 <= k < old_members.len() && (#[trigger] old_members[k]).member_id@
                                == m;
                        if k < hit {
                            assert(self.members@[k] == old_members[k]);
                        } else {
                            assert(self.members@[k - 1] == old_members[k]);
                        }
                    }
                }
            } else {
                i = i + 1;
            }
        }
        // Drop this member's assignments, keeping the rest in order.
        let ghost old_assign = self.partition_assignment@;
        let ghost pred = spec_other_assignments(member_id@);
        let mut a: usize = 0;
        let ghost mut c: int = 0;
        proof {
            reveal(Seq::filter);
            assert(old_assign.take(0).filter(pred) =~= Seq::<(usize, String)>::empty());
            assert(self.partition_assignment@ =~= old_assign.take(0).filter(pred)
                + old_assign.skip(0));
        }
        while a < self.partition_assignment.len()
            invariant
                0 <= c <= old_assign.len(),
                pred == spec_other_assignments(member_id@),
                self.group_id == old(self).group_id,
                old(self).wf(),
                old(self).spec_has_member(member_id@) ==> exists|i0: int|
                    0 <= i0 < old(self).members@.len() && (#[trigger] old(self).members@[
                        i0
                    ]).member_id@ == member_id@ && self.members@ == old(self).members@.remove(i0),
                !old(self).spec_has_member(member_id@) ==> self.members@ == old(self).members@,
                a as int == old_assign.take(c).filter(pred).len(),
                self.partition_assignment@ == old_assign.take(c).filter(pred) + old_assign.skip(c),
                old_assign == old(self).partition_assignment@,
            decreases old_assign.len() - c,
        {
            proof {
                reveal(Seq::filter);
                assert(old_assign.skip(c).len() > 0);
                assert(self.partition_assignment@[a as int] == old_assign[c]);
                assert(old_assign.take(c + 1).drop_last() =~= old_assign.take(c));
                assert(old_assign.take(c + 1).last() == old_assign[c]);
            }
            if self.partition_assignment[a].1.eq(member_id) {
                self.partition_assignment.remove(a);
                proof {
                    reveal(Seq::filter);
                    assert(!pred(old_assign[c]));
                    assert(old_assign.take(c + 1).filter(pred) =~= old_assign.take(c).filter(
                        pred,
                    ));
                    assert(self.partition_assignment@ =~= old_assign.take(c + 1).filter(pred)
                        + old_assign.skip(c + 1));
                }
            } else {
                proof {
                    reveal(Seq::filter);
                    assert(pred(old_assign[c]));
                    assert(old_assign.take(c + 1).filter(pred) =~= old_assign.take(c).filter(
                        pred,
                    ).push(old_assign[c]));
                    assert(self.partition_assignment@ =~= old_assign.take(c + 1).filter(pred)
                        + old_assign.skip(c + 1));
                }
                a = a + 1;
            }
            proof {
                c = c + 1;
            }
        }
        proof {
            assert(old_assign.skip(c).len() == 0);
            assert(old_assign.take(c) =~= old_assign);
            if old(self).spec_has_member(member_id@) {
                let i0 = choose|i0: int|
                    0 <= i0 < old(self).members@.len() && (#[trigger] old(self).members@[
                        i0
                    ]).member_id@ == member_id@ && self.members@ == old(self).members@.remove(i0);
                assert(forall|j: int|
                    0 <= j < self.members@.len() ==> #[trigger] self.members@[j] == (if j < i0 {
                        old(self).members@[j]
                    } else {
                        old(self).members@[j + 1]
                    }));
                if self.spec_has_member(member_id@) {
                    let k = choose|k: int|
                        0 <= k < self.members@.len() && (#[trigger] self.members@[k]).member_id@
                            == member_id@;
                    if k < i0 {
                        assert(old(self).members@[k].member_id@ == member_id@);
                    } else {
                        assert(old(self).members@[k + 1].member_id@ == member_id@);
                    }
                    assert(false);
                }
                assert forall|m: Seq<char>|
                    m != member_id@ && old(self).spec_has_member(m) implies self.spec_has_member(
                    m,
                ) by {
                    let k = choose|k: int|
                        0 <= k < old(self).members@.len() && (#[trigger] old(self).members@[
                            k
                        ]).member_id@ == m;
                    if k < i0 {
                        assert(self.members@[k] == old(self).members@[k]);
                    } else {
                        assert(k != i0);
                        assert(self.members@[k - 1] == old(self).members@[k]);
                    }
                }
                assert forall|m: Seq<char>|
                    self.spec_has_member(m) implies old(self).spec_has_member(m) by {
                    let k = choose|k: int|
                        0 <= k < self.members@.len() && (#[trigger] self.members@[k]).member_id@
                            == m;
                    if k < i0 {
                        assert(old(self).members@[k].member_id@ == m);
                    } else {
                        assert(old(self).members@[k + 1].member_id@ == m);
                    }
                }
                assert forall|i: int, j: int|
                    0 <= i < j < self.members@.len() implies (#[trigger] self.members@[
                    i
                ]).member_id@ != (#[trigger] self.members@[j]).member_id@ by {
                    if j < i0 {
                        assert(old(self).members@[i].member_id@ != old(self).members@[
                            j
                        ].member_id@);
                    } else if i < i0 {
                        assert(old(self).members@[i].member_id@ != old(self).members@[j
                            + 1].member_id@);
                    } else {
                        assert(old(self).members@[i + 1].member_id@ != old(self).members@[j
                            + 1].member_id@);
                    }
                }
            } else {
                assert(self.members@ == old(self).members@);
                assert forall|m: Seq<char>|
                    self.spec_has_member(m) implies old(self).spec_has_member(m) by {
                    let k = choose|k: int|
                        0 <= k < self.members@.len() && (#[trigger] self.members@[k]).member_id@
                            == m;
                    assert(old(self).members@[k].member_id@ == m);
                }
                assert forall|m: Seq<char>|
                    old(self).spec_has_member(m) implies self.spec_has_member(m) by {
                    let k = choose|k: int|
                        0 <= k < old(self).members@.len() && (#[trigger] old(self).members@[
                            k
                        ]).member_id@ == m;
                    assert(self.members@[k].member_id@ == m);
                }
            }
        }
    }

    /// The partitions assigned to the member with this id, if it exists.
    pub fn get_assigned_partitions(&self, member_id: &String) -> (r: Option<&Vec<usize>>)
        ensures
            match r {
                Some(v) => exists|i: int|
                    0 <= i < self.members@.len() && (#[trigger] self.members@[i]).member_id@
                        == member_id@ && self.members@[i].assigned_partitions == *v,
                None => !self.spec_has_member(member_id@),
            },
    {
        let mut i: usize = 0;
        while i < self.members.len()
            invariant
                i <= self.members@.len(),
                forall|j: int|
                    0 <= j < i ==> (#[trigger] self.members@[j]).member_id@ != member_id@,
            decreases self.members@.len() - i,
        {
            if self.members[i].member_id.eq(member_id) {
                return Some(&self.members[i].assigned_partitions);
            }
            i = i + 1;
        }
        None
    }
}

/// The offset stored for a partition, or zero when none is.
pub open spec fn spec_consumer_offset(offsets: Seq<(usize, u64)>, partition_id: usize) -> u64
    decreases offsets.len(),
{
    if offsets.len() == 0 {
        0
    } else if offsets[0].0 == partition_id {
        offsets[0].1
    } else {
        spec_consumer_offset(offsets.skip(1), partition_id)
    }
}

/// When the first entry for the partition sits at `j`, the lookup returns
/// its offset.
proof fn lemma_consumer_offset_found(offsets: Seq<(usize, u64)>, partition_id: usize, j: int)
    requires
        0 <= j < offsets.len(),
        forall|l: int| 0 <= l < j ==> (#[trigger] offsets[l]).0 != partition_id,
        offsets[j].0 == partition_id,
    ensures
        spec_consumer_offset(offsets, partition_id) == offsets[j].1,
    decreases j,
{
    if j > 0 {
        let tail = offsets.skip(1);
        assert(forall|l: int| 0 <= l < j - 1 ==> (#[trigger] tail[l]).0 != partition_id);
        assert(tail[j - 1] == offsets[j]);
        lemma_consumer_offset_found(tail, partition_id, j - 1);
    }
}

/// When no entry names the partition, the lookup returns zero.
proof fn lemma_consumer_offset_none(offsets: Seq<(usize, u64)>, partition_id: usize)
    requires
        forall|l: int| 0 <= l < offsets.len() ==> (#[trigger] offsets[l]).0 != partition_id,
    ensures
        spec_consumer_offset(offsets, partition_id) == 0,
    decreases offsets.len(),
{
    if offsets.len() > 0 {
        let tail = offsets.skip(1);
        assert(forall|l: int| 0 <= l < tail.len() ==> (#[trigger] tail[l]).0 != partition_id);
        lemma_consumer_offset_none(tail, partition_id);
    }
}

/// Lookups of other partitions see through an update or push at the key.
proof fn lemma_consumer_offset_frame(
    old_offsets: Seq<(usize, u64)>,
    new_offsets: Seq<(usize, u64)>,
    partition_id: usize,
    p: usize,
)
    requires
        p != partition_id,
        new_offsets.len() >= old_offsets.len(),
        new_offsets.len() <= old_offsets.len() + 1,
        forall|j: int|
            0 <= j < old_offsets.len() && (#[trigger] old_offsets[j]).0 != partition_id
                ==> new_offsets[j] == old_offsets[j],
        forall|j: int|
            0 <= j < old_offsets.len() && (#[trigger] old_offsets[j]).0 == partition_id
                ==> new_offsets[j].0 == partition_id,
        new_offsets.len() > old_offsets.len() ==> new_offsets.last().0 == partition_id,
    ensures
        spec_consumer_offset(new_offsets, p) == spec_consumer_offset(old_offsets, p),
    decreases old_offsets.len(),
{
    if old_offsets.len() == 0 {
        if new_offsets.len() > 0 {
            assert(new_offsets[0].0 == partition_id);
            assert(new_offsets.skip(1).len() == 0);
            assert(spec_consumer_offset(new_offsets.skip(1), p) == 0);
            assert(spec_consumer_offset(new_offsets, p) == 0);
        }
    } else {
        assert(new_offsets[0].0 == old_offsets[0].0 || (old_offsets[0].0 != partition_id
            && new_offsets[0] == old_offsets[0]));
        if old_offsets[0].0 != p {
            let old_tail = old_offsets.skip(1);
            let new_tail = new_offsets.skip(1);
            assert(forall|j: int|
                0 <= j < old_tail.len() ==> #[trigger] old_tail[j] == old_offsets[j + 1]);
            assert(forall|j: int|
                0 <= j < new_tail.len() ==> #[trigger] new_tail[j] == new_offsets[j + 1]);
            lemma_consumer_offset_frame(old_tail, new_tail, partition_id, p);
        }
    }
}

/// A consumer: its id, its group, and its own per-partition offsets.
pub struct Consumer {
    /// The consumer's id.
    pub consumer_id: String,
    /// The group the consumer belongs to.
    pub group: ConsumerGroup,
    /// The offset the consumer reached in each partition.
    pub offsets: Vec<(usize, u64)>,
}

impl Consumer {
    /// Partition keys appear once each, and the group is well-formed.
    pub open spec fn wf(self) -> bool {
        &&& self.group.wf()
        &&& forall|i: int, j: int|
            0 <= i < j < self.offsets@.len() ==> (#[trigger] self.offsets@[i]).0 != (
            #[trigger] self.offsets@[j]).0
    }

    /// A consumer joining a fresh group under its own id.
    pub fn new(consumer_id: String, group_id: String) -> (r: Consumer)
        ensures
            r.wf(),
            r.consumer_id@ == consumer_id@,
            r.group.group_id@ == group_id@,
            r.group.members@.len() == 1,
            r.group.members@[0].member_id@ == consumer_id@,
            r.offsets@.len() == 0,
    {
        let mut group = ConsumerGroup::new(group_id);
        group.add_member(consumer_id.clone());
        Consumer { consumer_id, group, offsets: Vec::new() }
    }

    /// The consumer's id.
    pub fn get_consumer_id(&self) -> (r: &str)
        ensures
            r@ == self.consumer_id@,
    {
        self.consumer_id.as_str()
    }

    /// The consumer's group.
    pub fn get_group(&self) -> (r: &ConsumerGroup)
        ensures
            r == self.group,
    {
        &self.group
    }

    /// The consumer's group, for changing it.
    pub fn get_group_mut(&mut self) -> (r: &mut ConsumerGroup)
        ensures
            *r == old(self).group,
            final(self).group == *final(r),
            final(self).consumer_id == old(self).consumer_id,
            final(self).offsets == old(self).offsets,
    {
        &mut self.group
    }

    /// The offset reached in this partition; zero before any update.
    pub fn get_offset(&self, partition_id: usize) -> (r: u64)
        ensures
            r == spec_consumer_offset(self.offsets@, partition_id),
    {
        let mut i: usize = 0;
        while i < self.offsets.len()
            invariant
                i <= self.offsets@.len(),
                forall|l: int| 0 <= l < i ==> (#[trigger] self.offsets@[l]).0 != partition_id,
            decreases self.offsets@.len() - i,
        {
            if self.offsets[i].0 == partition_id {
                proof {
                    lemma_consumer_offset_found(self.offsets@, partition_id, i as int);
                }
                return self.offsets[i].1;
            }
            i = i + 1;
        }
        proof {
            lemma_consumer_offset_none(self.offsets@, partition_id);
        }
        0
    }

    /// Record the offset reached in this partition.
    pub fn update_offset(&mut self, partition_id: usize, offset: u64)
        requires
            old(self).wf(),
        ensures
            final(self).wf(),
            final(self).consumer_id == old(self).consumer_id,
            final(self).group == old(self).group,
            spec_consumer_offset(final(self).offsets@, partition_id) == offset,
            forall|p: usize|
                p != partition_id ==> #[trigger] spec_consumer_offset(final(self).offsets@, p)
                    == spec_consumer_offset(old(self).offsets@, p),
    {
        let ghost old_offsets = self.offsets@;
        let mut i: usize = 0;
        while i < self.offsets.len()
            invariant
                old(self).wf(),
                self.offsets@ == old_offsets,
                old_offsets == old(self).offsets@,
                self.consumer_id == old(self).consumer_id,
                self.group == old(self).group,
                i <= self.offsets@.len(),
                forall|l: int| 0 <= l < i ==> (#[trigger] old_offsets[l]).0 != partition_id,
            decreases self.offsets@.len() - i,
        {
            if self.offsets[i].0 == partition_id {
                let ghost hit = i as int;
                self.offsets[i] = (partition_id, offset);
                proof {
                    lemma_consumer_offset_found(self.offsets@, partition_id, hit);
                    assert forall|p: usize| p != partition_id implies #[trigger] spec_consumer_offset(
                        self.offsets@,
                        p,
                    ) == spec_consumer_offset(old_offsets, p) by {
                        lemma_consumer_offset_frame(old_offsets, self.offsets@, partition_id, p);
                    }
                }
                return ;
            }
            i = i + 1;
        }
        self.offsets.push((partition_id, offset));
        proof {
            lemma_consumer_offset_found(self.offsets@, partition_id, old_offsets.len() as int);
            assert forall|p: usize| p != partition_id implies #[trigger] spec_consumer_offset(
                self.offsets@,
                p,
            ) == spec_consumer_offset(old_offsets, p) by {
                lemma_consumer_offset_frame(old_offsets, self.offsets@, partition_id, p);
            }
        }
    }
}

} // verus!
