//! Durable key material: an Address-to-SecretKey map with create, read,
//! update, delete and enumeration. Independent of in-memory balances and
//! never authoritative for them.
use vstd::prelude::*;
use vstd::pervasive::VecAdditionalExecFns;

use crate::address::Address;
use crate::keypair::SecretKey;

verus! {

/// The secret key stored under an address, if any: the first matching pair.
pub open spec fn stored_key(s: Seq<(Address, SecretKey)>, a: Address) -> Option<SecretKey>
    decreases s.len(),
{
    if s.len() == 0 {
        None
    } else if s[0].0 == a {
        Some(s[0].1)
    } else {
        stored_key(s.subrange(1, s.len() as int), a)
    }
}

proof fn lemma_stored_at(s: Seq<(Address, SecretKey)>, a: Address, i: int)
    requires
        0 <= i < s.len(),
        s[i].0 == a,
        forall|k: int| 0 <= k < i ==> (#[trigger] s[k]).0 != a,
    ensures
        stored_key(s, a) == Some(s[i].1),
    decreases s.len(),
{
    if i > 0 {
        lemma_stored_at(s.subrange(1, s.len() as int), a, i - 1);
    }
}

proof fn lemma_stored_none(s: Seq<(Address, SecretKey)>, a: Address)
    requires
        forall|i: int| 0 <= i < s.len() ==> (#[trigger] s[i]).0 != a,
    ensures
        stored_key(s, a) is None,
    decreases s.len(),
{
    if s.len() > 0 {
        lemma_stored_none(s.subrange(1, s.len() as int), a);
    }
}

proof fn lemma_stored_update(s: Seq<(Address, SecretKey)>, i: int, p: (Address, SecretKey), a: Address)
    requires
        0 <= i < s.len(),
        p.0 == s[i].0,
        forall|k: int| 0 <= k < s.len() && k != i ==> (#[trigger] s[k]).0 != s[i].0,
    ensures
        stored_key(s.update(i, p), a) == if a == s[i].0 {
            Some(p.1)
        } else {
            stored_key(s, a)
        },
    decreases s.len(),
{
    let rest = s.subrange(1, s.len() as int);
    if i == 0 {
        assert(s.update(0, p).subrange(1, s.len() as int) =~= rest);
    } else {
        assert(s.update(i, p)[0] == s[0]);
        assert(s.update(i, p).subrange(1, s.len() as int) =~= rest.update(i - 1, p));
        lemma_stored_update(rest, i - 1, p, a);
    }
}

proof fn lemma_stored_push(s: Seq<(Address, SecretKey)>, p: (Address, SecretKey), a: Address)
    ensures
        stored_key(s.push(p), a) == if stored_key(s, a) is Some {
            stored_key(s, a)
        } else if p.0 == a {
            Some(p.1)
        } else {
            None
        },
    decreases s.len(),
{
    let q = s.push(p);
    assert(stored_key(q, a) == if q[0].0 == a {
        Some(q[0].1)
    } else {
        stored_key(q.subrange(1, q.len() as int), a)
    });
    if s.len() == 0 {
        assert(q[0] == p);
        assert(q.subrange(1, 1) =~= Seq::<(Address, SecretKey)>::empty());
    } else {
        assert(q[0] == s[0]);
        assert(q.subrange(1, s.len() as int + 1) =~= s.subrange(1, s.len() as int).push(p));
        lemma_stored_push(s.subrange(1, s.len() as int), p, a);
    }
}

proof fn lemma_stored_remove(s: Seq<(Address, SecretKey)>, i: int, a: Address)
    requires
        0 <= i < s.len(),
        s[i].0 != a,
    ensures
        stored_key(s.remove(i), a) == stored_key(s, a),
    decreases s.len(),
{
    let rest = s.subrange(1, s.len() as int);
    if i == 0 {
        assert(s.remove(0) =~= rest);
    } else {
        assert(s.remove(i)[0] == s[0]);
        assert(s.remove(i).subrange(1, s.len() as int - 1) =~= rest.remove(i - 1));
        if s[0].0 != a {
            lemma_stored_remove(rest, i - 1, a);
        }
    }
}

/// A synchronous Address-to-SecretKey store with unique keys.
#[derive(Debug)]
pub struct Storage {
    pub pairs: Vec<(Address, SecretKey)>,
}

impl Storage {
    /// Keys are pairwise distinct.
    pub open spec fn wf(self) -> bool {
        forall|i: int, j: int|
            0 <= i < j < self.pairs@.len() ==> (#[trigger] self.pairs@[i]).0 != (
            #[trigger] self.pairs@[j]).0
    }

    pub fn new() -> (r: Storage)
        ensures
            r.wf(),
            r.pairs@.len() == 0,
    {
        Storage { pairs: Vec::new() }
    }

    fn index_of(&self, key: &Address) -> (r: Option<usize>)
        ensures
            match r {
                Some(i) => i < self.pairs@.len() && self.pairs@[i as int].0 == *key && stored_key(
                    self.pairs@,
                    *key,
                ) == Some(self.pairs@[i as int].1),
                None => stored_key(self.pairs@, *key) is None,
            },
    {
        let n = self.pairs.len();
        let mut i: usize = 0;
        while i < n
            invariant
                i <= n,
                n == self.pairs@.len(),
                forall|k: int| 0 <= k < i ==> (#[trigger] self.pairs@[k]).0 != *key,
            decreases n - i,
        {
            let p = &self.pairs[i];
            if p.0.id == key.id && p.0.format == key.format {
                proof {
                    lemma_stored_at(self.pairs@, *key, i as int);
                }
                return Some(i);
            }
            i = i + 1;
        }
        proof {
            lemma_stored_none(self.pairs@, *key);
        }
        None
    }

    /// The value stored under `key`, if any.
    pub fn get(&self, key: Address) -> (r: Option<SecretKey>)
        ensures
            r == stored_key(self.pairs@, key),
    {
        match self.index_of(&key) {
            Some(i) => Some(self.pairs[i].1),
            None => None,
        }
    }

    /// Inserts or updates the value stored under `key`.
    pub fn set(&mut self, key: Address, value: SecretKey)
        requires
            old(self).wf(),
        ensures
            final(self).wf(),
            stored_key(final(self).pairs@, key) == Some(value),
            forall|a: Address|
                a != key ==> stored_key(final(self).pairs@, a) == stored_key(old(self).pairs@, a),
    {
        let ghost s0 = self.pairs@;
        match self.index_of(&key) {
            Some(i) => {
                proof {
                    assert forall|a: Address| #[trigger] stored_key(
                        s0.update(i as int, (key, value)),
                        a,
                    ) == (if a == s0[i as int].0 {
                        Some(value)
                    } else {
                        stored_key(s0, a)
                    }) by {
                        lemma_stored_update(s0, i as int, (key, value), a);
                    }
                }
                self.pairs.set(i, (key, value));
            },
            None => {
                proof {
                    assert forall|a: Address| #[trigger] stored_key(s0.push((key, value)), a) == (
                    if stored_key(s0, a) is Some {
                        stored_key(s0, a)
                    } else if a == key {
                        Some(value)
                    } else {
                        None
                    }) by {
                        lemma_stored_push(s0, (key, value), a);
                    }
                    assert forall|i: int| 0 <= i < s0.len() implies (#[trigger] s0[i]).0
                        != key by {
                        if s0[i].0 == key {
                            lemma_live_pair(s0, i);
                        }
                    }
                }
                self.pairs.push((key, value));
            },
        }
    }

    /// Removes the value stored under `key`, if any.
    pub fn remove(&mut self, key: Address)
        requires
            old(self).wf(),
        ensures
            final(self).wf(),
            stored_key(final(self).pairs@, key) is None,
            forall|a: Address|
                a != key ==> stored_key(final(self).pairs@, a) == stored_key(old(self).pairs@, a),
    {
        let ghost s0 = self.pairs@;
        match self.index_of(&key) {
            Some(i) => {
                proof {
                    assert forall|a: Address| a != key implies #[trigger] stored_key(
                        s0.remove(i as int),
                        a,
                    ) == stored_key(s0, a) by {
                        lemma_stored_remove(s0, i as int, a);
                    }
                    assert forall|k: int| 0 <= k < s0.remove(i as int).len() implies (
                    #[trigger] s0.remove(i as int)[k]).0 != key by {
                        let k2 = if k < i as int {
                            k
                        } else {
                            k + 1
                        };
                        assert(s0.remove(i as int)[k] == s0[k2]);
                    }
                    lemma_stored_none(s0.remove(i as int), key);
                    assert forall|a2: int, b2: int|
                        0 <= a2 < b2 < s0.remove(i as int).len() implies (#[trigger] s0.remove(
                        i as int,
                    )[a2]).0 != (#[trigger] s0.remove(i as int)[b2]).0 by {
                        let a3 = if a2 < i as int {
                            a2
                        } else {
                            a2 + 1
                        };
                        let b3 = if b2 < i as int {
                            b2
                        } else {
                            b2 + 1
                        };
                        assert(s0.remove(i as int)[a2] == s0[a3]);
                        assert(s0.remove(i as int)[b2] == s0[b3]);
                    }
                }
                self.pairs.remove(i);
            },
            None => {},
        }
    }

    /// Removes every pair.
    pub fn clear(&mut self)
        ensures
            final(self).wf(),
            final(self).pairs@.len() == 0,
            forall|a: Address| stored_key(final(self).pairs@, a) is None,
    {
        self.pairs = Vec::new();
    }

    pub fn contains_key(&self, key: &Address) -> (r: bool)
        ensures
            r == (stored_key(self.pairs@, *key) is Some),
    {
        match self.index_of(key) {
            Some(_) => true,
            None => false,
        }
    }

    pub fn len(&self) -> (r: usize)
        ensures
            r == self.pairs@.len(),
    {
        self.pairs.len()
    }

    pub fn is_empty(&self) -> (r: bool)
        ensures
            r == (self.pairs@.len() == 0),
    {
        self.pairs.len() == 0
    }

    /// Every stored pair, in storage order.
    pub fn iter(&self) -> (r: Vec<(Address, SecretKey)>)
        ensures
            r@ == self.pairs@,
    {
        vstd::slice::slice_to_vec(self.pairs.as_slice())
    }

    /// Every stored key, in storage order.
    pub fn keys(&self) -> (r: Vec<Address>)
        ensures
            r@.len() == self.pairs@.len(),
            forall|i: int| 0 <= i < r@.len() ==> r@[i] == (#[trigger] self.pairs@[i]).0,
    {
        let n = self.pairs.len();
        let mut out: Vec<Address> = Vec::new();
        let mut i: usize = 0;
        while i < n
            invariant
                i <= n,
                n == self.pairs@.len(),
                out@.len() == i,
                forall|k: int| 0 <= k < i ==> out@[k] == (#[trigger] self.pairs@[k]).0,
            decreases n - i,
        {
            out.push(self.pairs[i].0);
            i = i + 1;
        }
        out
    }

    /// Every stored value, in storage order.
    pub fn values(&self) -> (r: Vec<SecretKey>)
        ensures
            r@.len() == self.pairs@.len(),
            forall|i: int| 0 <= i < r@.len() ==> r@[i] == (#[trigger] self.pairs@[i]).1,
    {
        let n = self.pairs.len();
        let mut out: Vec<SecretKey> = Vec::new();
        let mut i: usize = 0;
        while i < n
            invariant
                i <= n,
                n == self.pairs@.len(),
                out@.len() == i,
                forall|k: int| 0 <= k < i ==> out@[k] == (#[trigger] self.pairs@[k]).1,
            decreases n - i,
        {
            out.push(self.pairs[i].1);
            i = i + 1;
        }
        out
    }
}

/// A pair present at an index is found by `stored_key`.
proof fn lemma_live_pair(s: Seq<(Address, SecretKey)>, i: int)
    requires
        0 <= i < s.len(),
    ensures
        stored_key(s, s[i].0) is Some,
    decreases s.len(),
{
    if s[0].0 == s[i].0 {
    } else {
        lemma_live_pair(s.subrange(1, s.len() as int), i - 1);
    }
}

} // verus!
