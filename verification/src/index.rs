//! A set of paths.
use crate::path;
use crate::path::{order_key, same_path};
use crate::text;
use std::collections::HashMap;
use vstd::prelude::*;
use vstd::string::*;

verus! {

broadcast use {
    text::lemma_views_push,
    text::lemma_views_add,
    vstd::std_specs::hash::group_hash_axioms,
};

/// The number of buckets that a set of paths can have.
pub const BUCKETS: u64 = 0x1fff_ffff_ffff_ffff;

/// The bucket of a path, from the numbers that it is ordered by.
pub open spec fn bucket(key: Seq<u32>) -> nat
    decreases key.len(),
{
    if key.len() == 0 {
        0
    } else {
        (bucket(key.drop_last()) * 31 + key.last() as nat) % (BUCKETS as nat)
    }
}

/// The bucket of a path.
pub open spec fn bucket_of(ps: Seq<path::Part>) -> nat {
    bucket(path::ranks(ps))
}

fn find_bucket(p: &str) -> (r: u64)
    ensures
        r == bucket_of(path::parts(p@)),
{
    let key = order_key(p);
    let mut h: u64 = 0;
    let mut i: usize = 0;
    assert(key@.take(0) =~= Seq::<u32>::empty());
    while i < key.len()
        invariant
            i <= key@.len(),
            h == bucket(key@.take(i as int)),
            h < BUCKETS,
        decreases key@.len() - i,
    {
        assert(key@.take(i + 1).drop_last() =~= key@.take(i as int));
        h = ((h as u128 * 31 + key[i] as u128) % BUCKETS as u128) as u64;
        i += 1;
    }
    assert(key@.take(i as int) =~= key@);
    h
}

/// A set of paths, told apart by their components.
pub struct PathSet {
    buckets: HashMap<u64, Vec<String>>,
}

/// Whether one of some paths has given components.
pub open spec fn one_has(paths: Seq<String>, ps: Seq<path::Part>) -> bool {
    exists|i: int| 0 <= i < paths.len() && path::parts((#[trigger] paths[i])@) == ps
}

impl View for PathSet {
    type V = Set<Seq<path::Part>>;

    closed spec fn view(&self) -> Set<Seq<path::Part>> {
        Set::new(
            |ps: Seq<path::Part>|
                self.buckets@.contains_key(bucket_of(ps) as u64) && one_has(
                    self.buckets@[bucket_of(ps) as u64]@,
                    ps,
                ),
        )
    }
}

proof fn lemma_bucket_bound(key: Seq<u32>)
    ensures
        bucket(key) < BUCKETS,
{
    if key.len() > 0 {
        let n = bucket(key.drop_last()) * 31 + key.last() as nat;
        assert(n % (BUCKETS as nat) < BUCKETS);
    }
}

impl PathSet {
    pub fn new() -> (r: PathSet)
        ensures
            r@ == Set::<Seq<path::Part>>::empty(),
    {
        let r = PathSet { buckets: HashMap::new() };
        assert(r@ =~= Set::<Seq<path::Part>>::empty());
        r
    }

    pub fn contains(&self, p: &str) -> (r: bool)
        ensures
            r == self@.contains(path::parts(p@)),
    {
        let ghost ps = path::parts(p@);
        let h = find_bucket(p);
        match self.buckets.get(&h) {
            None => false,
            Some(paths) => {
                let ghost held = paths@;
                let mut i: usize = 0;
                while i < paths.len()
                    invariant
                        i <= paths@.len(),
                        held == paths@,
                        ps == path::parts(p@),
                        forall|j: int| 0 <= j < i ==> path::parts((#[trigger] held[j])@) != ps,
                        one_has(held, ps) ==> self@.contains(ps),
                    decreases paths@.len() - i,
                {
                    if same_path(paths[i].as_str(), p) {
                        assert(path::parts(held[i as int]@) == ps);
                        return true;
                    }
                    i += 1;
                }
                assert(!one_has(held, ps));
                false
            },
        }
    }

    /// Adds a path, and tells whether it was new.
    pub fn insert(&mut self, p: &str) -> (r: bool)
        ensures
            final(self)@ == old(self)@.insert(path::parts(p@)),
            r == !old(self)@.contains(path::parts(p@)),
    {
        let ghost before = self@;
        let ghost map = self.buckets@;
        let ghost ps = path::parts(p@);
        let h = find_bucket(p);
        let mut paths = match self.buckets.remove(&h) {
            Some(v) => v,
            None => Vec::new(),
        };
        let ghost held = paths@;
        assert(one_has(held, ps) <==> before.contains(ps));
        let mut found = false;
        let mut i: usize = 0;
        while i < paths.len()
            invariant
                i <= paths@.len(),
                held == paths@,
                ps == path::parts(p@),
                found == exists|j: int| 0 <= j < i && path::parts((#[trigger] held[j])@) == ps,
            decreases paths@.len() - i,
        {
            if same_path(paths[i].as_str(), p) {
                assert(path::parts(held[i as int]@) == ps);
                found = true;
            }
            i += 1;
        }
        if !found {
            paths.push(p.to_owned());
        }
        let ghost now = paths@;
        self.buckets.insert(h, paths);
        proof {
            let after = self@;
            assert forall|x: Seq<path::Part>| after.contains(x) <==> before.insert(ps).contains(
                x,
            ) by {
                lemma_bucket_bound(path::ranks(x));
                lemma_bucket_bound(path::ranks(ps));
                if bucket_of(x) == h {
                    assert(one_has(now, x) <==> one_has(held, x) || x == ps) by {
                        if one_has(held, x) {
                            let k = choose|k: int|
                                0 <= k < held.len() && path::parts((#[trigger] held[k])@) == x;
                            assert(now[k] == held[k]);
                        }
                        if !found {
                            assert(path::parts(now[held.len() as int]@) == ps);
                        }
                        if one_has(now, x) {
                            let k = choose|k: int|
                                0 <= k < now.len() && path::parts((#[trigger] now[k])@) == x;
                            if k < held.len() {
                                assert(held[k] == now[k]);
                            }
                        }
                    }
                    assert(before.contains(x) <==> one_has(held, x));
                }
            }
            assert(after =~= before.insert(ps));
        }
        !found
    }
}

} // verus!
