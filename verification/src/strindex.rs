//! Finding strings among many: a table from a string's hash to the positions of the strings
//! that have it, so that looking a string up costs one bucket rather than a scan.

use std::collections::HashMap;
use vstd::prelude::*;

verus! {

/// A polynomial hash of the characters of `s`, wrapping at 64 bits.
pub open spec fn str_hash(s: Seq<char>) -> u64
    decreases s.len(),
{
    if s.len() == 0 {
        0
    } else {
        str_hash(s.drop_last()).wrapping_mul(31).wrapping_add(s.last() as u64)
    }
}

pub fn hash_chars(s: &Vec<char>) -> (h: u64)
    ensures
        h == str_hash(s@),
{
    let mut h: u64 = 0;
    let mut i: usize = 0;
    while i < s.len()
        invariant
            i <= s.len(),
            h == str_hash(s@.take(i as int)),
        decreases s.len() - i,
    {
        assert(s@.take(i + 1).drop_last() =~= s@.take(i as int));
        h = h.wrapping_mul(31).wrapping_add(s[i] as u64);
        i = i + 1;
    }
    assert(s@.take(s.len() as int) =~= s@);
    h
}

pub open spec fn views(keys: Seq<Vec<char>>) -> Seq<Seq<char>> {
    keys.map_values(|k: Vec<char>| k@)
}

/// Positions into a list of strings, bucketed by the strings' hashes.
pub struct StrIndex {
    pub buckets: HashMap<u64, Vec<usize>>,
}

/// Each bucket holds, in increasing order, exactly the members whose string has its hash.
pub open spec fn index_inv(idx: StrIndex, keys: Seq<Seq<char>>, members: Set<int>) -> bool {
    &&& forall|j: int| #[trigger] members.contains(j) ==> 0 <= j < keys.len() && idx.buckets@.contains_key(str_hash(keys[j]))
        && idx.buckets@[str_hash(keys[j])]@.contains(j as usize)
    &&& forall|h: u64, t: int|
        #![trigger idx.buckets@[h]@[t]]
        idx.buckets@.contains_key(h) && 0 <= t < idx.buckets@[h]@.len() ==> members.contains(idx.buckets@[h]@[t] as int)
            && str_hash(keys[idx.buckets@[h]@[t] as int]) == h
    &&& forall|h: u64, a: int, b: int|
        #![trigger idx.buckets@[h]@[a], idx.buckets@[h]@[b]]
        idx.buckets@.contains_key(h) && 0 <= a < b < idx.buckets@[h]@.len() ==> idx.buckets@[h]@[a]
            < idx.buckets@[h]@[b]
}

impl StrIndex {
    pub fn new() -> (r: StrIndex)
        ensures
            index_inv(r, seq![], Set::empty()),
            forall|keys: Seq<Seq<char>>| index_inv(r, keys, Set::empty()),
            r.buckets@ == Map::<u64, Vec<usize>>::empty(),
    {
        StrIndex { buckets: HashMap::new() }
    }

    /// Add position `j`, which is past every member.
    pub(crate) fn add(&mut self, keys: &Vec<Vec<char>>, j: usize, Ghost(members): Ghost<Set<int>>)
        requires
            index_inv(*old(self), views(keys@), members),
            j < keys.len(),
            forall|m: int| #[trigger] members.contains(m) ==> m < j,
        ensures
            index_inv(*final(self), views(keys@), members.insert(j as int)),
    {
        broadcast use vstd::std_specs::hash::group_hash_axioms;
        let h = hash_chars(&keys[j]);
        assert(views(keys@)[j as int] == keys@[j as int]@);
        let ghost old_map = self.buckets@;
        let mut bucket: Vec<usize> = match self.buckets.remove(&h) {
            Some(b) => b,
            None => Vec::new(),
        };
        let ghost prev = bucket@;
        assert(old_map.contains_key(h) ==> prev == old_map[h]@);
        assert(!old_map.contains_key(h) ==> prev.len() == 0);
        bucket.push(j);
        self.buckets.insert(h, bucket);
        proof {
            let keysv = views(keys@);
            let ms = members.insert(j as int);
            assert(self.buckets@ == old_map.remove(h).insert(h, bucket));
            assert forall|m: int| #[trigger] ms.contains(m) implies 0 <= m < keysv.len() && self.buckets@.contains_key(
                str_hash(keysv[m]),
            ) && self.buckets@[str_hash(keysv[m])]@.contains(m as usize) by {
                if m == j {
                    assert(bucket@[bucket@.len() - 1] == j);
                } else {
                    let hm = str_hash(keysv[m]);
                    assert(old_map[hm]@.contains(m as usize));
                    if hm == h {
                        let t = choose|t: int| 0 <= t < prev.len() && prev[t] == m as usize;
                        assert(bucket@[t] == m as usize);
                    }
                }
            }
            assert forall|hh: u64, t: int|
                #![trigger self.buckets@[hh]@[t]]
                self.buckets@.contains_key(hh) && 0 <= t < self.buckets@[hh]@.len() implies ms.contains(
                    self.buckets@[hh]@[t] as int,
                ) && str_hash(keysv[self.buckets@[hh]@[t] as int]) == hh by {
                if hh == h {
                    if t < prev.len() {
                        assert(self.buckets@[hh]@[t] == old_map[h]@[t]);
                    }
                } else {
                    assert(self.buckets@[hh] == old_map[hh]);
                }
            }
            assert forall|hh: u64, a: int, b: int|
                #![trigger self.buckets@[hh]@[a], self.buckets@[hh]@[b]]
                self.buckets@.contains_key(hh) && 0 <= a < b < self.buckets@[hh]@.len() implies self.buckets@[hh]@[a]
                < self.buckets@[hh]@[b] by {
                if hh == h {
                    if b == prev.len() {
                        assert(members.contains(old_map[h]@[a] as int));
                    } else {
                        assert(self.buckets@[hh]@[a] == old_map[h]@[a]);
                        assert(self.buckets@[hh]@[b] == old_map[h]@[b]);
                    }
                } else {
                    assert(self.buckets@[hh] == old_map[hh]);
                }
            }
        }
    }

    /// The members whose string has hash `h`, in increasing order.
    pub(crate) fn bucket(&self, h: u64, Ghost(keys): Ghost<Seq<Seq<char>>>, Ghost(members): Ghost<Set<int>>) -> (r: Vec<usize>)
        requires
            index_inv(*self, keys, members),
        ensures
            forall|t: int| 0 <= t < r@.len() ==> members.contains(#[trigger] r@[t] as int) && str_hash(keys[r@[t] as int]) == h,
            forall|j: int| #[trigger] members.contains(j) && str_hash(keys[j]) == h ==> r@.contains(j as usize),
            forall|a: int, b: int| 0 <= a < b < r@.len() ==> #[trigger] r@[a] < #[trigger] r@[b],
    {
        broadcast use vstd::std_specs::hash::group_hash_axioms;
        match self.buckets.get(&h) {
            Some(b) => {
                let r = b.clone();
                assert(r@ == self.buckets@[h]@);
                r
            },
            None => Vec::new(),
        }
    }
}

} // verus!
