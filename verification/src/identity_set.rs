//! A set of byte strings, for the directories that a walk has been to.

use std::collections::HashMap;
use vstd::prelude::*;
use crate::text;
use crate::text::byte_strings_equal;

verus! {

broadcast use vstd::std_specs::hash::group_hash_axioms;

/// One step of the digest: an odd multiplier spreads the bytes over the bits that are kept.
pub open spec fn digest_step(digest: u64, byte: u8) -> u64 {
    ((digest as int * 31 + byte as int) % 0x1_0000_0000_0000) as u64
}

/// The number under which a byte string is filed.
pub open spec fn digest(bytes: Seq<u8>) -> u64
    decreases bytes.len(),
{
    if bytes.len() == 0 {
        0
    } else {
        digest_step(digest(bytes.drop_last()), bytes.last())
    }
}

fn digest_of(bytes: &[u8]) -> (result: u64)
    ensures
        result == digest(bytes@),
{
    let mut value: u64 = 0;
    let mut index: usize = 0;
    while index < bytes.len()
        invariant
            index <= bytes.len(),
            value < 0x1_0000_0000_0000,
            value == digest(bytes@.subrange(0, index as int)),
        decreases bytes.len() - index,
    {
        proof {
            let here = bytes@.subrange(0, index + 1);
            assert(here.last() == bytes[index as int]);
            assert(here.drop_last() =~= bytes@.subrange(0, index as int));
        }
        value = (value * 31 + bytes[index] as u64) % 0x1_0000_0000_0000;
        index += 1;
    }
    assert(bytes@.subrange(0, bytes.len() as int) =~= bytes@);
    value
}

/// A set of byte strings.
pub struct IdentitySet {
    pub buckets: HashMap<u64, Vec<Vec<u8>>>,
}

impl IdentitySet {
    pub open spec fn holds(self, identity: Seq<u8>) -> bool {
        &&& self.buckets@.contains_key(digest(identity))
        &&& text::byte_strings(self.buckets@[digest(identity)]@).contains(identity)
    }

    pub fn new() -> (result: Self)
        ensures
            result@ == Set::<Seq<u8>>::empty(),
    {
        let result: IdentitySet = IdentitySet { buckets: HashMap::new() };
        assert(result@ =~= Set::<Seq<u8>>::empty());
        result
    }

    /// Puts a byte string in, and says whether it was not there before.
    pub fn insert(&mut self, identity: Vec<u8>) -> (result: bool)
        ensures
            result == !old(self)@.contains(identity@),
            final(self)@ == old(self)@.insert(identity@),
    {
        let ghost before = self.buckets@;
        let ghost value = identity@;
        let key: u64 = digest_of(identity.as_slice());
        let mut bucket: Vec<Vec<u8>> = match self.buckets.remove(&key) {
            Some(bucket) => bucket,
            None => Vec::new(),
        };
        let ghost kept = text::byte_strings(bucket@);
        assert(before.contains_key(key) ==> kept == text::byte_strings(before[key]@));
        assert(!before.contains_key(key) ==> kept =~= Seq::<Seq<u8>>::empty());
        let known: bool = bucket_contains(bucket.as_slice(), identity.as_slice());
        if !known {
            bucket.push(identity);
        }
        let ghost after = text::byte_strings(bucket@);
        proof {
            if !known {
                assert(after =~= kept.push(value));
                assert(after[kept.len() as int] == value);
            }
            assert(after.contains(value));
            assert forall|other: Seq<u8>| after.contains(other) <==> kept.contains(other) || other
                == value by {
                if kept.contains(other) {
                    let i = choose|i: int| 0 <= i < kept.len() && kept[i] == other;
                    assert(after[i] == other);
                }
                if after.contains(other) {
                    let i = choose|i: int| 0 <= i < after.len() && after[i] == other;
                    if i < kept.len() {
                        assert(kept[i] == other);
                    }
                }
            }
        }
        self.buckets.insert(key, bucket);
        proof {
            assert forall|other: Seq<u8>| #[trigger]
                self@.contains(other) == old(self)@.insert(value).contains(other) by {
                if digest(other) != key {
                    assert(self.buckets@.contains_key(digest(other)) == before.contains_key(
                        digest(other),
                    ));
                }
            }
            assert(self@ =~= old(self)@.insert(value));
        }
        !known
    }
}

impl View for IdentitySet {
    type V = Set<Seq<u8>>;

    open spec fn view(&self) -> Set<Seq<u8>> {
        Set::new(|identity: Seq<u8>| self.holds(identity))
    }
}

fn bucket_contains(bucket: &[Vec<u8>], identity: &[u8]) -> (result: bool)
    ensures
        result == text::byte_strings(bucket@).contains(identity@),
{
    let mut index: usize = 0;
    let ghost all = text::byte_strings(bucket@);
    while index < bucket.len()
        invariant
            index <= bucket.len(),
            all == text::byte_strings(bucket@),
            forall|i: int| 0 <= i < index ==> all[i] != identity@,
        decreases bucket.len() - index,
    {
        if byte_strings_equal(bucket[index].as_slice(), identity) {
            assert(all[index as int] == identity@);
            return true;
        }
        index += 1;
    }
    false
}

} // verus!
