//! The name table: which path a hash of the size table stands for.
//!
//! The table is the stock list of the game's own paths, which the `rstb`
//! crate carries, and over it the names that were added since. What is stored
//! between sessions is what was added, as far as the stock list lacks its
//! hash.

use std::collections::HashMap;
use vstd::prelude::*;

verus! {

/// The CRC-32 (IEEE) of `bytes`, as `crc::crc32::checksum_ieee` computes it.
pub uninterp spec fn crc32(bytes: Seq<u8>) -> u32;

/// The path that `rstb::json::STOCK_NAMES` has for a hash.
pub uninterp spec fn stock_path(hash: u32) -> Option<Seq<char>>;

/// Calls `crc::crc32::checksum_ieee`.
#[verifier::external_body]
fn checksum(bytes: &[u8]) -> (r: u32)
    ensures
        r == crc32(bytes@),
{
    crc::crc32::checksum_ieee(bytes)
}

/// Looks a hash up in `rstb::json::STOCK_NAMES`.
#[verifier::external_body]
fn stock_lookup(hash: u32) -> (r: Option<String>)
    ensures
        match r {
            Some(path) => stock_path(hash) == Some(path@),
            None => stock_path(hash) is None,
        },
{
    ::rstb::json::STOCK_NAMES.get(&hash).cloned()
}

/// The hash under which the size table keeps a path: the CRC-32 of its UTF-8
/// bytes.
pub open spec fn path_hash(path: Seq<char>) -> u32 {
    crc32(vstd::utf8::encode_utf8(path))
}

/// The hash of a path.
pub fn hash_of(path: &str) -> (r: u32)
    ensures
        r == path_hash(path@),
{
    checksum(path.as_bytes())
}

/// The names added to the stock list.
pub struct PathTable {
    extra: HashMap<u32, String>,
    order: Vec<u32>,
}

impl PathTable {
    #[verifier::type_invariant]
    spec fn inv(self) -> bool {
        &&& forall|hash: u32| self.extra@.contains_key(hash) <==> self.order@.contains(hash)
        &&& forall|i: int, j: int|
            0 <= i < j < self.order.len() ==> self.order@[i] != self.order@[j]
    }

    /// The names that were added, by hash.
    pub closed spec fn added(&self) -> Map<u32, Seq<char>> {
        Map::new(|hash: u32| self.extra@.contains_key(hash), |hash: u32| self.extra@[hash]@)
    }

    /// The path the table has for a hash: the one added for it, or else the
    /// stock one.
    pub open spec fn resolve(&self, hash: u32) -> Option<Seq<char>> {
        if self.added().contains_key(hash) {
            Some(self.added()[hash])
        } else {
            stock_path(hash)
        }
    }

    /// A table with nothing added to the stock list.
    pub fn new() -> (r: PathTable)
        ensures
            r.added() == Map::<u32, Seq<char>>::empty(),
    {
        let r = PathTable { extra: HashMap::new(), order: Vec::new() };
        assert(r.added() =~= Map::<u32, Seq<char>>::empty());
        r
    }

    /// The path for a hash.
    pub fn lookup(&self, hash: u32) -> (r: Option<String>)
        ensures
            match r {
                Some(path) => self.resolve(hash) == Some(path@),
                None => self.resolve(hash) is None,
            },
    {
        match self.extra.get(&hash) {
            Some(path) => Some(path.clone()),
            None => stock_lookup(hash),
        }
    }

    /// Sets the path for a hash.
    pub fn record(&mut self, hash: u32, path: String)
        ensures
            final(self).added() == old(self).added().insert(hash, path@),
    {
        proof {
            use_type_invariant(&*self);
        }
        let ghost before = self.added();
        let ghost keys = self.order@;
        let known = self.extra.contains_key(&hash);
        let mut taken = PathTable::new();
        std::mem::swap(self, &mut taken);
        let mut extra = taken.extra;
        let mut order = taken.order;
        if !known {
            order.push(hash);
        }
        extra.insert(hash, path);
        proof {
            assert forall|h: u32| extra@.contains_key(h) <==> order@.contains(h) by {
                if keys.contains(h) {
                    let i = choose|i: int| 0 <= i < keys.len() && keys[i] == h;
                    assert(order@[i] == h);
                }
                if !known && h == hash {
                    assert(order@[keys.len() as int] == h);
                }
                if order@.contains(h) {
                    let i = choose|i: int| 0 <= i < order@.len() && order@[i] == h;
                    if i < keys.len() {
                        assert(keys[i] == h);
                    }
                }
            }
            assert forall|i: int, j: int| 0 <= i < j < order.len() implies order@[i] != order@[j] by {
                if j == keys.len() {
                    assert(keys[i] == order@[i]);
                    assert(keys.contains(order@[i]));
                }
            }
        }
        *self = PathTable { extra, order };
        assert(self.added() =~= before.insert(hash, path@));
    }

    /// Adds a path under its own hash.
    pub fn insert(&mut self, path: &str)
        ensures
            final(self).added() == old(self).added().insert(path_hash(path@), path@),
    {
        let hash = hash_of(path);
        self.record(hash, path.to_owned());
    }

    /// Adds a name under its own hash, and says which hash that is.
    pub fn add_name(&mut self, name: &str) -> (hash: u32)
        ensures
            hash == path_hash(name@),
            final(self).added() == old(self).added().insert(hash, name@),
    {
        let hash = hash_of(name);
        self.record(hash, name.to_owned());
        hash
    }

    /// What is to be stored between sessions: each added name whose hash the
    /// stock list lacks, once.
    pub fn overlay(&self) -> (r: Vec<(u32, String)>)
        ensures
            forall|i: int|
                0 <= i < r.len() ==> self.added().contains_key((#[trigger] r@[i]).0)
                    && self.added()[r@[i].0] == r@[i].1@ && stock_path(r@[i].0) is None,
            forall|hash: u32|
                self.added().contains_key(hash) && stock_path(hash) is None ==> exists|i: int|
                    0 <= i < r.len() && (#[trigger] r@[i]).0 == hash,
            forall|i: int, j: int| 0 <= i < j < r.len() ==> r@[i].0 != r@[j].0,
    {
        proof {
            use_type_invariant(self);
        }
        let mut r: Vec<(u32, String)> = Vec::new();
        // where each stored pair comes from in `order`
        let ghost mut origin: Seq<int> = Seq::empty();
        let mut k: usize = 0;
        while k < self.order.len()
            invariant
                k <= self.order.len(),
                origin.len() == r.len(),
                forall|hash: u32| self.extra@.contains_key(hash) <==> self.order@.contains(hash),
                forall|i: int, j: int|
                    0 <= i < j < self.order.len() ==> self.order@[i] != self.order@[j],
                forall|i: int|
                    0 <= i < r.len() ==> 0 <= #[trigger] origin[i] < k && self.order@[origin[i]]
                        == r@[i].0,
                forall|i: int, j: int| 0 <= i < j < r.len() ==> origin[i] < origin[j],
                forall|i: int|
                    0 <= i < r.len() ==> self.added().contains_key((#[trigger] r@[i]).0)
                        && self.added()[r@[i].0] == r@[i].1@ && stock_path(r@[i].0) is None,
                forall|x: int|
                    0 <= x < k && stock_path(#[trigger] self.order@[x]) is None ==> exists|i: int|
                        0 <= i < r.len() && (#[trigger] r@[i]).0 == self.order@[x],
            decreases self.order.len() - k,
        {
            let hash = self.order[k];
            assert(self.order@.contains(hash));
            let ghost before = r@;
            if stock_lookup(hash).is_none() {
                match self.extra.get(&hash) {
                    Some(path) => {
                        r.push((hash, path.clone()));
                        proof {
                            origin = origin.push(k as int);
                            assert forall|x: int|
                                0 <= x < k + 1 && stock_path(
                                    #[trigger] self.order@[x],
                                ) is None implies exists|i: int|
                                0 <= i < r.len() && (#[trigger] r@[i]).0 == self.order@[x] by {
                                if x < k {
                                    let i = choose|i: int|
                                        0 <= i < before.len() && (#[trigger] before[i]).0
                                            == self.order@[x];
                                    assert(r@[i].0 == self.order@[x]);
                                } else {
                                    assert(r@[before.len() as int].0 == hash);
                                }
                            }
                        }
                    },
                    None => {},
                }
            }
            k += 1;
        }
        proof {
            assert forall|hash: u32|
                self.added().contains_key(hash) && stock_path(hash) is None implies exists|i: int|
                0 <= i < r.len() && (#[trigger] r@[i]).0 == hash by {
                assert(self.order@.contains(hash));
                let x = choose|x: int| 0 <= x < self.order@.len() && self.order@[x] == hash;
                assert(stock_path(self.order@[x]) is None);
            }
            assert forall|i: int, j: int| 0 <= i < j < r.len() implies r@[i].0 != r@[j].0 by {
                assert(origin[i] < origin[j]);
                assert(self.order@[origin[i]] != self.order@[origin[j]]);
            }
        }
        r
    }

    /// A table with these names added, a later one replacing an earlier one
    /// with the same hash.
    pub fn from_overlay(entries: Vec<(u32, String)>) -> (r: PathTable)
        ensures
            r.added() == overlaid(entries@, entries.len() as int),
    {
        let mut table = PathTable::new();
        let mut i: usize = 0;
        while i < entries.len()
            invariant
                i <= entries.len(),
                table.added() == overlaid(entries@, i as int),
            decreases entries.len() - i,
        {
            table.record(entries[i].0, entries[i].1.clone());
            i += 1;
        }
        table
    }
}

/// The names added by the first `n` of `entries`.
pub open spec fn overlaid(entries: Seq<(u32, String)>, n: int) -> Map<u32, Seq<char>>
    decreases n,
{
    if n <= 0 {
        Map::empty()
    } else {
        overlaid(entries, n - 1).insert(entries[n - 1].0, entries[n - 1].1@)
    }
}

} // verus!
