//! The client-side producer: keyed payloads hash to a partition, unkeyed
//! ones rotate through the partitions.

use vstd::prelude::*;

use crate::errors::StorageError;

verus! {

/// How a producer picks partitions.
pub struct ProducerConfig {
    /// Whether the producer picks partitions itself.
    pub auto_select_partition: bool,
    /// How many partitions the topic has.
    pub partition_count: usize,
}

impl core::default::Default for ProducerConfig {
    /// Self-selection over a single partition.
    fn default() -> (r: ProducerConfig)
        ensures
            r.auto_select_partition == true,
            r.partition_count == 1,
    {
        ProducerConfig { auto_select_partition: true, partition_count: 1 }
    }
}

/// The sum of a key's bytes, wrapping as a 64-bit integer.
pub open spec fn spec_byte_sum(s: Seq<u8>) -> u64
    decreases s.len(),
{
    if s.len() == 0 {
        0u64
    } else {
        ((spec_byte_sum(s.drop_last()) + s.last()) % 0x1_0000_0000_0000_0000) as u64
    }
}

/// A producer: its id, its partitioning configuration, and the counter
/// that rotates unkeyed payloads through the partitions.
pub struct Producer {
    /// The producer's id.
    pub producer_id: String,
    /// How partitions are picked.
    pub config: ProducerConfig,
    /// Counts unkeyed sends, wrapping.
    pub partition_counter: usize,
}

impl Producer {
    /// A producer that has sent nothing yet.
    pub fn new(producer_id: String, config: ProducerConfig) -> (r: Producer)
        ensures
            r.producer_id@ == producer_id@,
            r.config == config,
            r.partition_counter == 0,
    {
        Producer { producer_id, config, partition_counter: 0 }
    }

    /// The producer's id.
    pub fn get_producer_id(&self) -> (r: &str)
        ensures
            r@ == self.producer_id@,
    {
        self.producer_id.as_str()
    }

    /// The producer's configuration.
    pub fn get_config(&self) -> (r: &ProducerConfig)
        ensures
            r == self.config,
    {
        &self.config
    }

    /// Pick the partition for a payload: with a key, the key's byte sum
    /// modulo the partition count; without one, the next partition in
    /// rotation.  With self-selection off, always the first partition.
    pub fn select_partition(&mut self, key: Option<&[u8]>) -> (r: usize)
        requires
            old(self).config.auto_select_partition ==> old(self).config.partition_count > 0,
        ensures
            final(self).producer_id == old(self).producer_id,
            final(self).config == old(self).config,
            !old(self).config.auto_select_partition ==> r == 0 && final(self).partition_counter
                == old(self).partition_counter,
            old(self).config.auto_select_partition ==> match key {
                Some(k) => r == spec_byte_sum(k@) as int % old(
                    self,
                ).config.partition_count as int && final(self).partition_counter == old(
                    self,
                ).partition_counter,
                None => r == old(self).partition_counter % old(self).config.partition_count
                    && final(self).partition_counter == if old(self).partition_counter
                    == usize::MAX {
                    0usize
                } else {
                    (old(self).partition_counter + 1) as usize
                },
            },
    {
        if !self.config.auto_select_partition {
            return 0;
        }
        match key {
            Some(k) => {
                let mut hash: u64 = 0;
                let mut i: usize = 0;
                proof {
                    assert(k@.take(0) =~= Seq::<u8>::empty());
                }
                while i < k.len()
                    invariant
                        i <= k@.len(),
                        hash == spec_byte_sum(k@.take(i as int)),
                    decreases k@.len() - i,
                {
                    hash = hash.wrapping_add(k[i] as u64);
                    proof {
                        assert(k@.take(i + 1).drop_last() =~= k@.take(i as int));
                        assert(k@.take(i + 1).last() == k@[i as int]);
                    }
                    i = i + 1;
                }
                proof {
                    assert(k@.take(k@.len() as int) =~= k@);
                }
                (hash % (self.config.partition_count as u64)) as usize
            },
            None => {
                let partition = self.partition_counter % self.config.partition_count;
                self.partition_counter = self.partition_counter.wrapping_add(1);
                partition
            },
        }
    }

    /// Pick a partition for the payload and hand both on.  Carrying the
    /// payload to a broker is the caller's part; the offset is not known
    /// here.
    pub fn send_message(&mut self, message: Vec<u8>, key: Option<Vec<u8>>) -> (r: Result<
        (usize, u64),
        StorageError,
    >)
        requires
            old(self).config.auto_select_partition ==> old(self).config.partition_count > 0,
        ensures
            final(self).producer_id == old(self).producer_id,
            final(self).config == old(self).config,
            match r {
                Ok((partition_id, off)) => off == 0 && {
                    &&& !old(self).config.auto_select_partition ==> partition_id == 0
                    &&& old(self).config.auto_select_partition ==> match key {
                        Some(k) => partition_id == spec_byte_sum(k@) as int % old(
                            self,
                        ).config.partition_count as int,
                        None => partition_id == old(self).partition_counter % old(
                            self,
                        ).config.partition_count,
                    }
                },
                Err(_) => false,
            },
    {
        let key_slice: Option<&[u8]> = match &key {
            Some(v) => Some(v.as_slice()),
            None => None,
        };
        let partition_id = self.select_partition(key_slice);
        let _ = message;
        Ok((partition_id, 0))
    }
}

} // verus!
