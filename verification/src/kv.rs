//! The byte-oriented key-value engine the record store is built on.
//!
//! The engine is modelled as an association list of key/value pairs in
//! insertion order with unique keys; `sl_get`, `sl_set` and `sl_remove`
//! give the meaning of the reading and mutating operations, and the
//! `KvEngine` trait states each operation's contract over that model.  Any
//! backend satisfying those four contracts can sit under the record store;
//! `MemEngine` is the verified in-memory backend.

use vstd::pervasive::VecAdditionalExecFns;
use vstd::prelude::*;

verus! {

/// Value stored under `key`: the first pair with that key, if any.
pub open spec fn sl_get(kvs: Seq<(Seq<char>, Seq<u8>)>, key: Seq<char>) -> Option<Seq<u8>>
    decreases kvs.len(),
{
    if kvs.len() == 0 {
        None
    } else if kvs[0].0 == key {
        Some(kvs[0].1)
    } else {
        sl_get(kvs.drop_first(), key)
    }
}

/// Stores `val` under `key`: replaces the first pair with that key, or
/// appends a new pair.
pub open spec fn sl_set(kvs: Seq<(Seq<char>, Seq<u8>)>, key: Seq<char>, val: Seq<u8>) -> Seq<
    (Seq<char>, Seq<u8>),
>
    decreases kvs.len(),
{
    if kvs.len() == 0 {
        seq![(key, val)]
    } else if kvs[0].0 == key {
        seq![(key, val)] + kvs.drop_first()
    } else {
        seq![kvs[0]] + sl_set(kvs.drop_first(), key, val)
    }
}

/// Removes the first pair stored under `key`, if any.
pub open spec fn sl_remove(kvs: Seq<(Seq<char>, Seq<u8>)>, key: Seq<char>) -> Seq<
    (Seq<char>, Seq<u8>),
>
    decreases kvs.len(),
{
    if kvs.len() == 0 {
        kvs
    } else if kvs[0].0 == key {
        kvs.drop_first()
    } else {
        seq![kvs[0]] + sl_remove(kvs.drop_first(), key)
    }
}

/// No key occurs twice.
pub open spec fn sl_unique(kvs: Seq<(Seq<char>, Seq<u8>)>) -> bool {
    forall|i: int, j: int| 0 <= i < j < kvs.len() ==> (#[trigger] kvs[i]).0 != (#[trigger] kvs[j]).0
}

/// How `sl_set` changes each lookup, its length, and uniqueness.
pub proof fn lemma_sl_set(kvs: Seq<(Seq<char>, Seq<u8>)>, key: Seq<char>, val: Seq<u8>)
    ensures
        sl_get(sl_set(kvs, key, val), key) == Some(val),
        forall|k2: Seq<char>|
            k2 != key ==> #[trigger] sl_get(sl_set(kvs, key, val), k2) == sl_get(kvs, k2),
        sl_get(kvs, key) is Some ==> sl_set(kvs, key, val).len() == kvs.len(),
        sl_get(kvs, key) is None ==> sl_set(kvs, key, val).len() == kvs.len() + 1,
        sl_unique(kvs) ==> sl_unique(sl_set(kvs, key, val)),
        forall|i: int|
            0 <= i < sl_set(kvs, key, val).len() && (#[trigger] sl_set(kvs, key, val)[i]).0 != key
                ==> 0 <= i < kvs.len() && sl_set(kvs, key, val)[i] == kvs[i],
        forall|i: int|
            0 <= i < sl_set(kvs, key, val).len() ==> #[trigger] sl_set(kvs, key, val)[i] == (
            key,
            val,
            ) || (0 <= i < kvs.len() && sl_set(kvs, key, val)[i] == kvs[i]),
    decreases kvs.len(),
{
    if kvs.len() == 0 {
        let r = sl_set(kvs, key, val);
        assert forall|k2: Seq<char>| k2 != key implies #[trigger] sl_get(r, k2) == sl_get(
            kvs,
            k2,
        ) by {
            assert(sl_get(r, k2) == sl_get(r.drop_first(), k2));
            assert(r.drop_first().len() == 0);
        }
    } else if kvs[0].0 == key {
        let r = sl_set(kvs, key, val);
        assert(r.drop_first() =~= kvs.drop_first());
        assert forall|k2: Seq<char>| k2 != key implies #[trigger] sl_get(r, k2) == sl_get(
            kvs,
            k2,
        ) by {
            assert(sl_get(r, k2) == sl_get(r.drop_first(), k2));
        }
    } else {
        lemma_sl_set(kvs.drop_first(), key, val);
        let r = sl_set(kvs, key, val);
        assert(r.drop_first() =~= sl_set(kvs.drop_first(), key, val));
        assert(r[0] == kvs[0]);
        assert(sl_get(r, key) == sl_get(r.drop_first(), key));
        assert forall|k2: Seq<char>| k2 != key implies #[trigger] sl_get(r, k2) == sl_get(
            kvs,
            k2,
        ) by {
            if kvs[0].0 != k2 {
                assert(sl_get(r, k2) == sl_get(r.drop_first(), k2));
                assert(sl_get(kvs, k2) == sl_get(kvs.drop_first(), k2));
            }
        }
        if sl_unique(kvs) {
            assert(sl_unique(kvs.drop_first()));
            assert forall|i: int, j: int| 0 <= i < j < r.len() implies (#[trigger] r[i]).0 != (
            #[trigger] r[j]).0 by {
                if i == 0 {
                    if r[j].0 != key {
                        assert(r[j] == kvs[j]);
                    }
                } else {
                    assert(r[i] == r.drop_first()[i - 1]);
                    assert(r[j] == r.drop_first()[j - 1]);
                }
            }
        }
    }
}

/// How `sl_remove` changes each lookup, its length, and uniqueness.
pub proof fn lemma_sl_remove(kvs: Seq<(Seq<char>, Seq<u8>)>, key: Seq<char>)
    ensures
        forall|k2: Seq<char>|
            k2 != key ==> #[trigger] sl_get(sl_remove(kvs, key), k2) == sl_get(kvs, k2),
        sl_unique(kvs) ==> sl_get(sl_remove(kvs, key), key) is None,
        sl_unique(kvs) ==> sl_unique(sl_remove(kvs, key)),
        sl_get(kvs, key) is Some ==> sl_remove(kvs, key).len() == kvs.len() - 1,
        sl_get(kvs, key) is None ==> sl_remove(kvs, key) == kvs,
    decreases kvs.len(),
{
    if kvs.len() == 0 {
        assert(sl_remove(kvs, key) =~= kvs);
    } else if kvs[0].0 == key {
        if sl_unique(kvs) {
            let r = sl_remove(kvs, key);
            assert forall|j: int| 0 <= j < r.len() implies (#[trigger] r[j]).0 != key by {
                assert(kvs[j + 1].0 != kvs[0].0);
            }
            lemma_sl_get_absent(r, key);
            assert forall|i: int, j: int| 0 <= i < j < r.len() implies (#[trigger] r[i]).0 != (
            #[trigger] r[j]).0 by {
                assert(kvs[i + 1].0 != kvs[j + 1].0);
            }
        }
    } else {
        lemma_sl_remove(kvs.drop_first(), key);
        let r = sl_remove(kvs, key);
        assert(r.drop_first() =~= sl_remove(kvs.drop_first(), key));
        assert(r[0] == kvs[0]);
        assert forall|k2: Seq<char>| k2 != key implies #[trigger] sl_get(r, k2) == sl_get(
            kvs,
            k2,
        ) by {
            if kvs[0].0 != k2 {
                assert(sl_get(r, k2) == sl_get(r.drop_first(), k2));
                assert(sl_get(kvs, k2) == sl_get(kvs.drop_first(), k2));
            }
        }
        if sl_unique(kvs) {
            assert(sl_unique(kvs.drop_first()));
            assert(sl_get(r, key) == sl_get(r.drop_first(), key));
            let rt = sl_remove(kvs.drop_first(), key);
            assert forall|i: int, j: int| 0 <= i < j < r.len() implies (#[trigger] r[i]).0 != (
            #[trigger] r[j]).0 by {
                if i == 0 {
                    lemma_sl_remove_element_of(kvs.drop_first(), key, j - 1);
                } else {
                    assert(r[i] == rt[i - 1]);
                    assert(r[j] == rt[j - 1]);
                }
            }
        }
        if sl_get(kvs, key) is None {
            assert(r =~= kvs);
        }
    }
}

/// Every pair of the shortened list was a pair of the list before.
pub proof fn lemma_sl_remove_element_of(kvs: Seq<(Seq<char>, Seq<u8>)>, key: Seq<char>, i: int)
    requires
        0 <= i < sl_remove(kvs, key).len(),
    ensures
        exists|j: int| 0 <= j < kvs.len() && kvs[j] == sl_remove(kvs, key)[i],
    decreases kvs.len(),
{
    if kvs.len() == 0 {
    } else if kvs[0].0 == key {
        assert(kvs[i + 1] == sl_remove(kvs, key)[i]);
    } else {
        if i == 0 {
            assert(kvs[0] == sl_remove(kvs, key)[0]);
        } else {
            lemma_sl_remove_element_of(kvs.drop_first(), key, i - 1);
            let j = choose|j: int|
                0 <= j < kvs.drop_first().len() && kvs.drop_first()[j] == sl_remove(
                    kvs.drop_first(),
                    key,
                )[i - 1];
            assert(kvs[j + 1] == sl_remove(kvs, key)[i]);
        }
    }
}

/// A key held by no pair is absent.
pub proof fn lemma_sl_get_absent(kvs: Seq<(Seq<char>, Seq<u8>)>, key: Seq<char>)
    requires
        forall|j: int| 0 <= j < kvs.len() ==> (#[trigger] kvs[j]).0 != key,
    ensures
        sl_get(kvs, key) is None,
    decreases kvs.len(),
{
    if kvs.len() > 0 {
        lemma_sl_get_absent(kvs.drop_first(), key);
    }
}

/// When the key is present, `sl_get` returns the value at its first
/// position, `sl_set` updates that position in place, and `sl_remove`
/// removes it.
pub proof fn lemma_sl_at_first(kvs: Seq<(Seq<char>, Seq<u8>)>, key: Seq<char>, i: int, val: Seq<u8>)
    requires
        0 <= i < kvs.len(),
        kvs[i].0 == key,
        forall|j: int| 0 <= j < i ==> (#[trigger] kvs[j]).0 != key,
    ensures
        sl_get(kvs, key) == Some(kvs[i].1),
        sl_set(kvs, key, val) == kvs.update(i, (key, val)),
        sl_remove(kvs, key) == kvs.remove(i),
    decreases kvs.len(),
{
    if i == 0 {
        assert(sl_set(kvs, key, val) =~= kvs.update(0, (key, val)));
        assert(sl_remove(kvs, key) =~= kvs.remove(0));
    } else {
        assert(kvs[0].0 != key);
        lemma_sl_at_first(kvs.drop_first(), key, i - 1, val);
        assert(sl_set(kvs, key, val) =~= kvs.update(i, (key, val)));
        assert(sl_remove(kvs, key) =~= kvs.remove(i));
    }
}

/// When the key is absent, `sl_get` finds nothing, `sl_set` appends, and
/// `sl_remove` changes nothing.
pub proof fn lemma_sl_absent(kvs: Seq<(Seq<char>, Seq<u8>)>, key: Seq<char>, val: Seq<u8>)
    requires
        forall|j: int| 0 <= j < kvs.len() ==> (#[trigger] kvs[j]).0 != key,
    ensures
        sl_get(kvs, key) is None,
        sl_set(kvs, key, val) == kvs.push((key, val)),
        sl_remove(kvs, key) == kvs,
    decreases kvs.len(),
{
    if kvs.len() == 0 {
        assert(sl_set(kvs, key, val) =~= kvs.push((key, val)));
        assert(sl_remove(kvs, key) =~= kvs);
    } else {
        lemma_sl_absent(kvs.drop_first(), key, val);
        assert(sl_set(kvs, key, val) =~= kvs.push((key, val)));
        assert(sl_remove(kvs, key) =~= kvs);
    }
}

/// A found value is held by some pair with that key.
pub proof fn lemma_sl_get_index(kvs: Seq<(Seq<char>, Seq<u8>)>, key: Seq<char>)
    requires
        sl_get(kvs, key) is Some,
    ensures
        exists|i: int|
            0 <= i < kvs.len() && #[trigger] kvs[i] == (key, sl_get(kvs, key).unwrap()),
    decreases kvs.len(),
{
    if kvs.len() == 0 {
    } else if kvs[0].0 == key {
        assert(kvs[0] == (key, sl_get(kvs, key).unwrap()));
    } else {
        lemma_sl_get_index(kvs.drop_first(), key);
        let j = choose|j: int|
            0 <= j < kvs.drop_first().len() && #[trigger] kvs.drop_first()[j] == (
                key,
                sl_get(kvs.drop_first(), key).unwrap(),
            );
        assert(kvs[j + 1] == (key, sl_get(kvs, key).unwrap()));
    }
}

/// Writing the same key twice keeps only the second value.
pub proof fn lemma_sl_set_twice(
    kvs: Seq<(Seq<char>, Seq<u8>)>,
    key: Seq<char>,
    v1: Seq<u8>,
    v2: Seq<u8>,
)
    ensures
        sl_set(sl_set(kvs, key, v1), key, v2) == sl_set(kvs, key, v2),
    decreases kvs.len(),
{
    if kvs.len() == 0 {
        assert(sl_set(kvs, key, v1).drop_first() =~= kvs);
        assert(sl_set(sl_set(kvs, key, v1), key, v2) =~= sl_set(kvs, key, v2));
    } else if kvs[0].0 == key {
        assert(sl_set(kvs, key, v1).drop_first() =~= kvs.drop_first());
        assert(sl_set(sl_set(kvs, key, v1), key, v2) =~= sl_set(kvs, key, v2));
    } else {
        assert(sl_set(kvs, key, v1).drop_first() =~= sl_set(kvs.drop_first(), key, v1));
        lemma_sl_set_twice(kvs.drop_first(), key, v1, v2);
        assert(sl_set(sl_set(kvs, key, v1), key, v2) =~= sl_set(kvs, key, v2));
    }
}

/// Removal passes over a prefix that does not hold the key.
pub proof fn lemma_sl_remove_concat(
    a: Seq<(Seq<char>, Seq<u8>)>,
    b: Seq<(Seq<char>, Seq<u8>)>,
    key: Seq<char>,
)
    requires
        forall|i: int| 0 <= i < a.len() ==> (#[trigger] a[i]).0 != key,
    ensures
        sl_remove(a + b, key) == a + sl_remove(b, key),
    decreases a.len(),
{
    if a.len() == 0 {
        assert(a + b =~= b);
        assert(sl_remove(a + b, key) =~= a + sl_remove(b, key));
    } else {
        assert((a + b)[0] == a[0]);
        assert((a + b).drop_first() =~= a.drop_first() + b);
        lemma_sl_remove_concat(a.drop_first(), b, key);
        assert(sl_remove(a + b, key) =~= a + sl_remove(b, key));
    }
}

/// A pluggable byte-oriented key-value engine.
///
/// `contents` is the engine's abstract state.  Every backend promises the
/// four operations below against that state; the store layer above never
/// depends on which backend is underneath.
pub trait KvEngine: Sized {
    /// The engine's abstract state.  A backend implemented outside the
    /// verified library inherits the default and nothing is then known of
    /// its contents; the verified backend overrides it.
    open spec fn contents(&self) -> Seq<(Seq<char>, Seq<u8>)> {
        Seq::empty()
    }

    /// Returns the value stored under `key`, if any.
    fn get(&self, key: &String) -> (r: Option<Vec<u8>>)
        ensures
            match r {
                Some(v) => sl_get(self.contents(), key@) == Some(v@),
                None => sl_get(self.contents(), key@) is None,
            },
    ;

    /// Stores `val` under `key`, replacing any previous value.  A backend
    /// that cannot complete the write reports failure and leaves the
    /// contents unchanged.
    fn set(&mut self, key: String, val: Vec<u8>) -> (r: Result<(), ()>)
        ensures
            match r {
                Ok(_) => final (self).contents() == sl_set(old(self).contents(), key@, val@),
                Err(_) => final (self).contents() == old(self).contents(),
            },
    ;

    /// Removes the value stored under `key`, if any.
    fn delete(&mut self, key: &String)
        ensures
            final (self).contents() == sl_remove(old(self).contents(), key@),
    ;

    /// Returns all stored values, in storage order.
    fn list(&self) -> (r: Vec<Vec<u8>>)
        ensures
            r@.len() == self.contents().len(),
            forall|i: int| 0 <= i < r@.len() ==> (#[trigger] r@[i])@ == self.contents()[i].1,
    ;
}

/// The verified in-memory engine: an association list with unique keys.
pub struct MemEngine {
    entries: Vec<(String, Vec<u8>)>,
}

impl MemEngine {
    /// An empty engine.
    pub fn new() -> (r: MemEngine)
        ensures
            r.contents() == Seq::<(Seq<char>, Seq<u8>)>::empty(),
    {
        let r = MemEngine { entries: Vec::new() };
        proof {
            assert(r.contents() =~= Seq::<(Seq<char>, Seq<u8>)>::empty());
        }
        r
    }

    /// Position of the first entry stored under `key`, if any.
    fn find(&self, key: &String) -> (r: Option<usize>)
        ensures
            match r {
                Some(i) => i < self.contents().len() && self.contents()[i as int].0 == key@
                    && forall|j: int|
                    0 <= j < i ==> (#[trigger] self.contents()[j]).0 != key@,
                None => forall|j: int|
                    0 <= j < self.contents().len() ==> (#[trigger] self.contents()[j]).0 != key@,
            },
    {
        let n = self.entries.len();
        let mut i: usize = 0;
        while i < n
            invariant
                i <= n,
                n == self.contents().len(),
                n == self.entries@.len(),
                forall|j: int| 0 <= j < i ==> (#[trigger] self.contents()[j]).0 != key@,
            decreases n - i,
        {
            if self.entries[i].0.eq(key) {
                return Some(i);
            }
            i = i + 1;
        }
        None
    }
}

impl KvEngine for MemEngine {
    closed spec fn contents(&self) -> Seq<(Seq<char>, Seq<u8>)> {
        Seq::new(self.entries@.len(), |i: int| (self.entries@[i].0@, self.entries@[i].1@))
    }

    fn get(&self, key: &String) -> (r: Option<Vec<u8>>) {
        match self.find(key) {
            Some(i) => {
                let v = clone_bytes(&self.entries[i].1);
                proof {
                    lemma_sl_at_first(self.contents(), key@, i as int, Seq::<u8>::empty());
                }
                Some(v)
            },
            None => {
                proof {
                    lemma_sl_get_absent(self.contents(), key@);
                }
                None
            },
        }
    }

    fn set(&mut self, key: String, val: Vec<u8>) -> (r: Result<(), ()>) {
        let ghost pre = self.contents();
        match self.find(&key) {
            Some(i) => {
                proof {
                    lemma_sl_at_first(pre, key@, i as int, val@);
                }
                self.entries.set(i, (key, val));
                proof {
                    assert(self.contents() =~= sl_set(pre, key@, val@));
                }
            },
            None => {
                proof {
                    lemma_sl_absent(pre, key@, val@);
                }
                self.entries.push((key, val));
                proof {
                    assert(self.contents() =~= sl_set(pre, key@, val@));
                }
            },
        }
        Ok(())
    }

    fn delete(&mut self, key: &String) {
        let ghost pre = self.contents();
        match self.find(key) {
            Some(i) => {
                proof {
                    lemma_sl_at_first(pre, key@, i as int, Seq::<u8>::empty());
                }
                self.entries.remove(i);
                proof {
                    assert(self.contents() =~= sl_remove(pre, key@));
                }
            },
            None => {
                proof {
                    lemma_sl_absent(pre, key@, Seq::<u8>::empty());
                    assert(self.contents() =~= sl_remove(pre, key@));
                }
            },
        }
    }

    fn list(&self) -> (r: Vec<Vec<u8>>) {
        let n = self.entries.len();
        let mut out: Vec<Vec<u8>> = Vec::new();
        let mut i: usize = 0;
        while i < n
            invariant
                i <= n,
                n == self.entries@.len(),
                n == self.contents().len(),
                out@.len() == i,
                forall|j: int| 0 <= j < i ==> (#[trigger] out@[j])@ == self.contents()[j].1,
            decreases n - i,
        {
            out.push(clone_bytes(&self.entries[i].1));
            i = i + 1;
        }
        out
    }
}

/// A fresh copy of a byte vector.
fn clone_bytes(v: &Vec<u8>) -> (r: Vec<u8>)
    ensures
        r@ == v@,
{
    let mut out: Vec<u8> = Vec::new();
    let n = v.len();
    let mut i: usize = 0;
    while i < n
        invariant
            i <= n,
            n == v@.len(),
            out@ == v@.take(i as int),
        decreases n - i,
    {
        out.push(v[i]);
        proof {
            assert(out@ =~= v@.take(i + 1));
        }
        i = i + 1;
    }
    proof {
        assert(v@.take(n as int) =~= v@);
    }
    out
}

} // verus!
