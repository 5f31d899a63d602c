//! A registry keyed by identifier: the table behind the session's active
//! subscriptions and its pending receipts. Each identifier occurs at most
//! once, and entries keep the order in which they came.
//!
//! The table is two vectors, and what a hash map would give for free is
//! stated as its invariant. A `HashMap` would do at run time, but vstd
//! models one only for keys whose hashing it knows, and byte strings are
//! not among them: nothing could be proved of such a map.

use vstd::prelude::*;
use crate::bytes::{bytes_eq, to_vec};

verus! {

/// The mathematical value of a registry: its entries in order, each an
/// identifier with what is registered under it.
pub type Entries<V> = Seq<(Seq<u8>, V)>;

/// Index of the first entry at or after `from` whose identifier is `key`, or
/// `-1` when there is none.
pub open spec fn spec_find<V>(entries: Entries<V>, key: Seq<u8>, from: int) -> int
    decreases entries.len() - from,
{
    if from < 0 || from >= entries.len() {
        -1
    } else if entries[from].0 == key {
        from
    } else {
        spec_find(entries, key, from + 1)
    }
}

/// Whether an entry is registered under `key`.
pub open spec fn spec_contains<V>(entries: Entries<V>, key: Seq<u8>) -> bool {
    spec_find(entries, key, 0) != -1
}

/// Whether no identifier occurs twice.
pub open spec fn keys_distinct<V>(entries: Entries<V>) -> bool {
    forall|i: int, j: int|
        0 <= i < j < entries.len() ==> (#[trigger] entries[i]).0 != (#[trigger] entries[j]).0
}

/// The entries after `value` is registered under `key`: a new identifier
/// goes to the end, a known one keeps its place and gets the new value.
pub open spec fn spec_insert<V>(entries: Entries<V>, key: Seq<u8>, value: V) -> Entries<V> {
    let i = spec_find(entries, key, 0);
    if i == -1 {
        entries.push((key, value))
    } else {
        entries.update(i, (key, value))
    }
}

/// The entries after what is registered under `key` is taken out.
pub open spec fn spec_remove<V>(entries: Entries<V>, key: Seq<u8>) -> Entries<V> {
    let i = spec_find(entries, key, 0);
    if i == -1 {
        entries
    } else {
        entries.remove(i)
    }
}

/// `spec_find` returns either `-1`, with no entry under `key` from `from`
/// on, or the least index at or after `from` of an entry under `key`.
pub proof fn lemma_find<V>(entries: Entries<V>, key: Seq<u8>, from: int)
    requires
        0 <= from,
    ensures
        spec_find(entries, key, from) == -1 ==> forall|j: int|
            from <= j < entries.len() ==> (#[trigger] entries[j]).0 != key,
        spec_find(entries, key, from) != -1 ==> {
            &&& from <= spec_find(entries, key, from) < entries.len()
            &&& entries[spec_find(entries, key, from)].0 == key
            &&& forall|j: int|
                from <= j < spec_find(entries, key, from) ==> (#[trigger] entries[j]).0 != key
        },
    decreases entries.len() - from,
{
    if from < entries.len() && entries[from].0 != key {
        lemma_find(entries, key, from + 1);
    }
}

/// An entry under `key` with none before it is the one `spec_find` returns.
pub proof fn lemma_find_is<V>(entries: Entries<V>, key: Seq<u8>, from: int, at: int)
    requires
        0 <= from <= at < entries.len(),
        entries[at].0 == key,
        forall|j: int| from <= j < at ==> (#[trigger] entries[j]).0 != key,
    ensures
        spec_find(entries, key, from) == at,
    decreases at - from,
{
    if from < at {
        lemma_find_is(entries, key, from + 1, at);
    }
}

/// With no entry under `key` from `from` on, `spec_find` returns `-1`.
pub proof fn lemma_find_none<V>(entries: Entries<V>, key: Seq<u8>, from: int)
    requires
        0 <= from,
        forall|j: int| from <= j < entries.len() ==> (#[trigger] entries[j]).0 != key,
    ensures
        spec_find(entries, key, from) == -1,
    decreases entries.len() - from,
{
    if from < entries.len() {
        lemma_find_none(entries, key, from + 1);
    }
}

/// Registering keeps identifiers distinct, puts the value under its
/// identifier, and leaves every other identifier as it was.
pub proof fn lemma_insert<V>(entries: Entries<V>, key: Seq<u8>, value: V)
    requires
        keys_distinct(entries),
    ensures
        keys_distinct(spec_insert(entries, key, value)),
        spec_contains(spec_insert(entries, key, value), key),
        spec_insert(entries, key, value)[spec_find(spec_insert(entries, key, value), key, 0)]
            == (key, value),
        spec_insert(entries, key, value).len() == if spec_contains(entries, key) {
            entries.len()
        } else {
            entries.len() + 1
        },
        forall|other: Seq<u8>|
            other != key ==> spec_find(spec_insert(entries, key, value), other, 0) == spec_find(
                entries,
                other,
                0,
            ),
{
    let after = spec_insert(entries, key, value);
    let i = spec_find(entries, key, 0);
    lemma_find(entries, key, 0);
    let at = if i == -1 {
        entries.len() as int
    } else {
        i
    };
    assert forall|j: int| 0 <= j < at implies (#[trigger] after[j]).0 != key by {
        assert(after[j] == entries[j]);
    }
    lemma_find_is(after, key, 0, at);
    assert forall|a: int, b: int| 0 <= a < b < after.len() implies (#[trigger] after[a]).0 != (
    #[trigger] after[b]).0 by {
        if b < entries.len() {
            assert(after[a].0 == entries[a].0);
            assert(after[b].0 == entries[b].0);
        } else {
            assert(after[a] == entries[a]);
        }
    }
    assert forall|other: Seq<u8>| other != key implies spec_find(after, other, 0) == spec_find(
        entries,
        other,
        0,
    ) by {
        lemma_find(entries, other, 0);
        let k = spec_find(entries, other, 0);
        if k == -1 {
            assert forall|j: int| 0 <= j < after.len() implies (#[trigger] after[j]).0
                != other by {
                if j < entries.len() {
                    assert(after[j].0 == entries[j].0);
                }
            }
            lemma_find_none(after, other, 0);
        } else {
            assert(after[k] == entries[k]);
            assert forall|j: int| 0 <= j < k implies (#[trigger] after[j]).0 != other by {
                assert(after[j].0 == entries[j].0);
            }
            lemma_find_is(after, other, 0, k);
        }
    }
}

/// Taking an identifier out keeps the others distinct and in order, leaves
/// nothing under that identifier, and leaves every other identifier
/// registered exactly when it was.
pub proof fn lemma_remove<V>(entries: Entries<V>, key: Seq<u8>)
    requires
        keys_distinct(entries),
    ensures
        keys_distinct(spec_remove(entries, key)),
        !spec_contains(spec_remove(entries, key), key),
        spec_remove(entries, key).len() == if spec_contains(entries, key) {
            entries.len() - 1
        } else {
            entries.len() as int
        },
        forall|other: Seq<u8>|
            other != key ==> spec_contains(spec_remove(entries, key), other) == spec_contains(
                entries,
                other,
            ),
{
    let after = spec_remove(entries, key);
    let i = spec_find(entries, key, 0);
    lemma_find(entries, key, 0);
    if i != -1 {
        assert forall|j: int| 0 <= j < after.len() implies (#[trigger] after[j]).0 != key by {
            if j < i {
                assert(after[j] == entries[j]);
            } else {
                assert(after[j] == entries[j + 1]);
                assert(entries[i].0 != entries[j + 1].0);
            }
        }
        lemma_find_none(after, key, 0);
        assert forall|a: int, b: int| 0 <= a < b < after.len() implies (#[trigger] after[a]).0
            != (#[trigger] after[b]).0 by {
            let a0 = if a < i {
                a
            } else {
                a + 1
            };
            let b0 = if b < i {
                b
            } else {
                b + 1
            };
            assert(after[a] == entries[a0]);
            assert(after[b] == entries[b0]);
        }
        assert forall|other: Seq<u8>| other != key implies spec_contains(after, other)
            == spec_contains(entries, other) by {
            lemma_find(entries, other, 0);
            lemma_find(after, other, 0);
            let k = spec_find(entries, other, 0);
            let m = spec_find(after, other, 0);
            if k != -1 && m == -1 {
                let k0 = if k < i {
                    k
                } else {
                    k - 1
                };
                assert(after[k0] == entries[k]);
            }
            if m != -1 && k == -1 {
                let m0 = if m < i {
                    m
                } else {
                    m + 1
                };
                assert(after[m] == entries[m0]);
            }
        }
    }
}

/// Registering a new identifier and taking it out again leaves the registry
/// as it was.
pub proof fn lemma_insert_then_remove<V>(entries: Entries<V>, key: Seq<u8>, value: V)
    requires
        !spec_contains(entries, key),
    ensures
        spec_remove(spec_insert(entries, key, value), key) == entries,
{
    let mid = spec_insert(entries, key, value);
    lemma_find(entries, key, 0);
    assert forall|j: int| 0 <= j < entries.len() implies (#[trigger] mid[j]).0 != key by {
        assert(mid[j] == entries[j]);
    }
    lemma_find_is(mid, key, 0, entries.len() as int);
    assert(mid.remove(entries.len() as int) =~= entries);
}

/// A table of values registered under byte-string identifiers.
pub struct Registry<V> {
    keys: Vec<Vec<u8>>,
    values: Vec<V>,
}

impl<V> View for Registry<V> {
    type V = Entries<V>;

    closed spec fn view(&self) -> Entries<V> {
        Seq::new(self.keys@.len(), |i: int| (self.keys@[i]@, self.values@[i]))
    }
}

impl<V> Registry<V> {
    /// Whether every identifier has its value.
    pub closed spec fn aligned(&self) -> bool {
        self.keys@.len() == self.values@.len()
    }

    /// Whether the table is valid: every identifier has its value, and no
    /// identifier occurs twice.
    pub open spec fn wf(&self) -> bool {
        self.aligned() && keys_distinct(self@)
    }

    /// An empty registry.
    pub fn new() -> (r: Registry<V>)
        ensures
            r.wf(),
            r@ == Seq::<(Seq<u8>, V)>::empty(),
    {
        let r = Registry { keys: Vec::new(), values: Vec::new() };
        assert(r@ =~= Seq::<(Seq<u8>, V)>::empty());
        r
    }

    /// The number of entries.
    pub fn len(&self) -> (r: usize)
        ensures
            r == self@.len(),
    {
        self.keys.len()
    }

    /// The position of the entry under `key`.
    pub fn find(&self, key: &[u8]) -> (r: Option<usize>)
        ensures
            match r {
                Some(i) => i < self@.len() && self@[i as int].0 == key@ && spec_find(self@, key@, 0)
                    == i,
                None => spec_find(self@, key@, 0) == -1,
            },
    {
        let mut i: usize = 0;
        while i < self.keys.len()
            invariant
                i <= self.keys@.len(),
                spec_find(self@, key@, 0) == spec_find(self@, key@, i as int),
            decreases self.keys@.len() - i,
        {
            if bytes_eq(self.keys[i].as_slice(), key) {
                return Some(i);
            }
            i += 1;
        }
        None
    }

    /// Whether an entry is registered under `key`.
    pub fn contains_key(&self, key: &[u8]) -> (r: bool)
        ensures
            r == spec_contains(self@, key@),
    {
        self.find(key).is_some()
    }

    /// The identifier of the entry at position `i`.
    pub fn key_at(&self, i: usize) -> (r: &Vec<u8>)
        requires
            i < self@.len(),
        ensures
            r@ == self@[i as int].0,
    {
        &self.keys[i]
    }

    /// The value of the entry at position `i`.
    pub fn value_at(&self, i: usize) -> (r: &V)
        requires
            self.wf(),
            i < self@.len(),
        ensures
            *r == self@[i as int].1,
    {
        &self.values[i]
    }

    /// The value of the entry at position `i`, for the caller to change.
    pub fn value_at_mut(&mut self, i: usize) -> (r: &mut V)
        requires
            old(self).wf(),
            i < old(self)@.len(),
        ensures
            *r == old(self)@[i as int].1,
            final(self)@ == old(self)@.update(i as int, (old(self)@[i as int].0, *final(r))),
            final(self).wf(),
    {
        proof {
            let before = self@;
            assert forall|v: V|
                keys_distinct(#[trigger] before.update(i as int, (before[i as int].0, v))) by {
                let after = before.update(i as int, (before[i as int].0, v));
                assert forall|a: int, b: int| 0 <= a < b < after.len() implies (
                #[trigger] after[a]).0 != (#[trigger] after[b]).0 by {
                    assert(after[a].0 == before[a].0);
                    assert(after[b].0 == before[b].0);
                }
            }
        }
        &mut self.values[i]
    }

    /// The value registered under `key`.
    pub fn get(&self, key: &[u8]) -> (r: Option<&V>)
        requires
            self.wf(),
        ensures
            match r {
                Some(v) => spec_contains(self@, key@) && *v == self@[spec_find(self@, key@, 0)].1,
                None => !spec_contains(self@, key@),
            },
    {
        proof {
            lemma_find(self@, key@, 0);
        }
        match self.find(key) {
            Some(i) => Some(&self.values[i]),
            None => None,
        }
    }

    /// The value registered under `key`, for the caller to change.
    pub fn get_mut(&mut self, key: &[u8]) -> (r: Option<&mut V>)
        requires
            old(self).wf(),
        ensures
            match r {
                Some(v) => {
                    &&& spec_contains(old(self)@, key@)
                    &&& *v == old(self)@[spec_find(old(self)@, key@, 0)].1
                    &&& final(self)@ == old(self)@.update(
                        spec_find(old(self)@, key@, 0),
                        (key@, *final(v)),
                    )
                    &&& final(self).wf()
                },
                None => {
                    &&& !spec_contains(old(self)@, key@)
                    &&& final(self)@ == old(self)@
                    &&& final(self).wf()
                },
            },
    {
        match self.find(key) {
            Some(i) => Some(self.value_at_mut(i)),
            None => None,
        }
    }

    /// Registers `value` under `key`. A new identifier goes to the end; a
    /// known one keeps its place, and the value it had is handed back.
    pub fn insert(&mut self, key: Vec<u8>, value: V) -> (r: Option<V>)
        requires
            old(self).wf(),
        ensures
            final(self).wf(),
            final(self)@ == spec_insert(old(self)@, key@, value),
            match r {
                Some(v) => spec_contains(old(self)@, key@) && v == old(self)@[spec_find(
                    old(self)@,
                    key@,
                    0,
                )].1,
                None => !spec_contains(old(self)@, key@),
            },
    {
        proof {
            lemma_find(self@, key@, 0);
            lemma_insert(self@, key@, value);
        }
        match self.find(key.as_slice()) {
            Some(i) => {
                let mut slot = value;
                core::mem::swap(&mut slot, &mut self.values[i]);
                assert(self@ =~= spec_insert(old(self)@, key@, value));
                Some(slot)
            },
            None => {
                self.keys.push(key);
                self.values.push(value);
                assert(self@ =~= spec_insert(old(self)@, key@, value));
                None
            },
        }
    }

    /// Takes out what is registered under `key` and hands it back.
    pub fn remove(&mut self, key: &[u8]) -> (r: Option<V>)
        requires
            old(self).wf(),
        ensures
            final(self).wf(),
            final(self)@ == spec_remove(old(self)@, key@),
            match r {
                Some(v) => spec_contains(old(self)@, key@) && v == old(self)@[spec_find(
                    old(self)@,
                    key@,
                    0,
                )].1,
                None => !spec_contains(old(self)@, key@),
            },
    {
        proof {
            lemma_find(self@, key@, 0);
            lemma_remove(self@, key@);
        }
        match self.find(key) {
            Some(i) => {
                let _ = self.keys.remove(i);
                let v = self.values.remove(i);
                assert(self@ =~= spec_remove(old(self)@, key@));
                Some(v)
            },
            None => None,
        }
    }

    /// The identifiers, in the order of their entries.
    pub fn keys(&self) -> (r: Vec<Vec<u8>>)
        ensures
            r@.len() == self@.len(),
            forall|i: int| 0 <= i < r@.len() ==> (#[trigger] r@[i])@ == self@[i].0,
    {
        let mut r: Vec<Vec<u8>> = Vec::new();
        let mut i: usize = 0;
        while i < self.keys.len()
            invariant
                i <= self.keys@.len(),
                r@.len() == i,
                forall|j: int| 0 <= j < i ==> (#[trigger] r@[j])@ == self@[j].0,
            decreases self.keys@.len() - i,
        {
            r.push(to_vec(self.keys[i].as_slice()));
            i += 1;
        }
        r
    }
}

/// One change to a registry.
pub enum Change<V> {
    /// Register a value under an identifier.
    Register(Seq<u8>, V),
    /// Take out what is registered under an identifier.
    Release(Seq<u8>),
}

impl<V> Change<V> {
    /// The identifier that the change is about.
    pub open spec fn key(self) -> Seq<u8> {
        match self {
            Change::Register(k, _) => k,
            Change::Release(k) => k,
        }
    }
}

/// The entries after the changes `ops` are made in order.
pub open spec fn spec_apply<V>(entries: Entries<V>, ops: Seq<Change<V>>) -> Entries<V>
    decreases ops.len(),
{
    if ops.len() == 0 {
        entries
    } else {
        let before = spec_apply(entries, ops.drop_last());
        match ops.last() {
            Change::Register(k, v) => spec_insert(before, k, v),
            Change::Release(k) => spec_remove(before, k),
        }
    }
}

/// The number of registrations among `ops`.
pub open spec fn count_registers<V>(ops: Seq<Change<V>>) -> nat
    decreases ops.len(),
{
    if ops.len() == 0 {
        0
    } else {
        count_registers(ops.drop_last()) + if ops.last() is Register {
            1nat
        } else {
            0nat
        }
    }
}

/// The number of releases among `ops`.
pub open spec fn count_releases<V>(ops: Seq<Change<V>>) -> nat
    decreases ops.len(),
{
    if ops.len() == 0 {
        0
    } else {
        count_releases(ops.drop_last()) + if ops.last() is Release {
            1nat
        } else {
            0nat
        }
    }
}

/// Whether the changes use each identifier once: no identifier is
/// registered twice or released twice, and every release follows the
/// registration of its identifier.
pub open spec fn unique_ids<V>(ops: Seq<Change<V>>) -> bool {
    &&& forall|i: int, j: int|
        0 <= i < j < ops.len() && (#[trigger] ops[i]) is Register && (#[trigger] ops[j])
            is Register ==> ops[i].key() != ops[j].key()
    &&& forall|i: int, j: int|
        0 <= i < j < ops.len() && (#[trigger] ops[i]) is Release && (#[trigger] ops[j])
            is Release ==> ops[i].key() != ops[j].key()
    &&& forall|j: int|
        0 <= j < ops.len() && (#[trigger] ops[j]) is Release ==> exists|i: int|
            0 <= i < j && (#[trigger] ops[i]) is Register && ops[i].key() == ops[j].key()
}

/// Whether `ops` registers `key`.
pub open spec fn registers<V>(ops: Seq<Change<V>>, key: Seq<u8>) -> bool {
    exists|i: int| 0 <= i < ops.len() && (#[trigger] ops[i]) is Register && ops[i].key() == key
}

/// Whether `ops` releases `key`.
pub open spec fn releases<V>(ops: Seq<Change<V>>, key: Seq<u8>) -> bool {
    exists|i: int| 0 <= i < ops.len() && (#[trigger] ops[i]) is Release && ops[i].key() == key
}

/// Starting from an empty registry, changes that use each identifier once
/// leave as many entries as there were registrations less releases; what
/// is left is what was registered and not released.
pub proof fn lemma_registry_size<V>(ops: Seq<Change<V>>)
    requires
        unique_ids(ops),
    ensures
        spec_apply(Seq::<(Seq<u8>, V)>::empty(), ops).len() == count_registers(ops)
            - count_releases(ops),
        keys_distinct(spec_apply(Seq::<(Seq<u8>, V)>::empty(), ops)),
        forall|key: Seq<u8>|
            spec_contains(#[trigger] spec_apply(Seq::<(Seq<u8>, V)>::empty(), ops), key) <==> (
            registers(ops, key) && !releases(ops, key)),
    decreases ops.len(),
{
    let empty = Seq::<(Seq<u8>, V)>::empty();
    let after = spec_apply(empty, ops);
    if ops.len() == 0 {
        assert forall|key: Seq<u8>| !spec_contains(empty, key) by {}
    } else {
        let pre = ops.drop_last();
        let last = ops.len() - 1;
        let op = ops.last();
        let k = op.key();
        let before = spec_apply(empty, pre);
        assert forall|i: int| 0 <= i < pre.len() implies pre[i] == ops[i] by {}
        assert(unique_ids(pre)) by {
            assert forall|j: int| 0 <= j < pre.len() && (#[trigger] pre[j]) is Release implies exists|
                i: int,
            |
                0 <= i < j && (#[trigger] pre[i]) is Register && pre[i].key() == pre[j].key() by {
                assert(ops[j] is Release);
                let i = choose|i: int|
                    0 <= i < j && (#[trigger] ops[i]) is Register && ops[i].key() == ops[j].key();
                assert(pre[i] is Register);
            }
        }
        lemma_registry_size(pre);
        assert forall|key: Seq<u8>| registers(ops, key) == (registers(pre, key) || (op is Register
            && key == k)) by {
            if registers(pre, key) {
                let i = choose|i: int|
                    0 <= i < pre.len() && (#[trigger] pre[i]) is Register && pre[i].key() == key;
                assert(ops[i] is Register && ops[i].key() == key);
            }
            if op is Register && key == k {
                assert(ops[last] is Register && ops[last].key() == key);
            }
            if registers(ops, key) {
                let i = choose|i: int|
                    0 <= i < ops.len() && (#[trigger] ops[i]) is Register && ops[i].key() == key;
                if i < last {
                    assert(pre[i] is Register && pre[i].key() == key);
                }
            }
        }
        assert forall|key: Seq<u8>| releases(ops, key) == (releases(pre, key) || (op is Release
            && key == k)) by {
            if releases(pre, key) {
                let i = choose|i: int|
                    0 <= i < pre.len() && (#[trigger] pre[i]) is Release && pre[i].key() == key;
                assert(ops[i] is Release && ops[i].key() == key);
            }
            if op is Release && key == k {
                assert(ops[last] is Release && ops[last].key() == key);
            }
            if releases(ops, key) {
                let i = choose|i: int|
                    0 <= i < ops.len() && (#[trigger] ops[i]) is Release && ops[i].key() == key;
                if i < last {
                    assert(pre[i] is Release && pre[i].key() == key);
                }
            }
        }
        match op {
            Change::Register(key, v) => {
                if registers(pre, k) {
                    let i = choose|i: int|
                        0 <= i < pre.len() && (#[trigger] pre[i]) is Register && pre[i].key() == k;
                    assert(ops[i] is Register && ops[last] is Register);
                    assert(false);
                }
                if releases(pre, k) {
                    let j = choose|j: int|
                        0 <= j < pre.len() && (#[trigger] pre[j]) is Release && pre[j].key() == k;
                    assert(ops[j] is Release);
                    let i = choose|i: int|
                        0 <= i < j && (#[trigger] ops[i]) is Register && ops[i].key()
                            == ops[j].key();
                    assert(ops[i] is Register && ops[last] is Register);
                    assert(false);
                }
                assert(!spec_contains(before, k));
                lemma_insert(before, k, v);
                assert forall|other: Seq<u8>| spec_contains(after, other) <==> (registers(
                    ops,
                    other,
                ) && !releases(ops, other)) by {
                    if other != k {
                        assert(spec_find(after, other, 0) == spec_find(before, other, 0));
                    }
                }
            },
            Change::Release(key) => {
                let i = choose|i: int|
                    0 <= i < last && (#[trigger] ops[i]) is Register && ops[i].key()
                        == ops[last].key();
                assert(pre[i] is Register && pre[i].key() == k);
                assert(registers(pre, k));
                if releases(pre, k) {
                    let j = choose|j: int|
                        0 <= j < pre.len() && (#[trigger] pre[j]) is Release && pre[j].key() == k;
                    assert(ops[j] is Release && ops[last] is Release);
                    assert(false);
                }
                assert(spec_contains(before, k));
                lemma_remove(before, k);
                assert forall|other: Seq<u8>| spec_contains(after, other) <==> (registers(
                    ops,
                    other,
                ) && !releases(ops, other)) by {
                    if other != k {
                        assert(spec_contains(after, other) == spec_contains(before, other));
                    }
                }
            },
        }
    }
}

/// The entries with each value replaced by what `f` makes of it.
pub open spec fn map_entries<V, W>(entries: Entries<V>, f: spec_fn(V) -> W) -> Entries<W> {
    Seq::new(entries.len(), |i: int| (entries[i].0, f(entries[i].1)))
}

/// Replacing values leaves every identifier where it was.
pub proof fn lemma_map_find<V, W>(entries: Entries<V>, f: spec_fn(V) -> W, key: Seq<u8>, from: int)
    requires
        0 <= from,
    ensures
        spec_find(map_entries(entries, f), key, from) == spec_find(entries, key, from),
    decreases entries.len() - from,
{
    if from < entries.len() {
        assert(map_entries(entries, f)[from].0 == entries[from].0);
        lemma_map_find(entries, f, key, from + 1);
    }
}

/// Replacing values commutes with registering.
pub proof fn lemma_map_insert<V, W>(
    entries: Entries<V>,
    f: spec_fn(V) -> W,
    key: Seq<u8>,
    value: V,
)
    ensures
        map_entries(spec_insert(entries, key, value), f) == spec_insert(
            map_entries(entries, f),
            key,
            f(value),
        ),
{
    lemma_map_find(entries, f, key, 0);
    lemma_find(entries, key, 0);
    assert(map_entries(spec_insert(entries, key, value), f) =~= spec_insert(
        map_entries(entries, f),
        key,
        f(value),
    ));
}

/// Replacing values commutes with taking an identifier out.
pub proof fn lemma_map_remove<V, W>(entries: Entries<V>, f: spec_fn(V) -> W, key: Seq<u8>)
    ensures
        map_entries(spec_remove(entries, key), f) == spec_remove(map_entries(entries, f), key),
{
    lemma_map_find(entries, f, key, 0);
    lemma_find(entries, key, 0);
    assert(map_entries(spec_remove(entries, key), f) =~= spec_remove(
        map_entries(entries, f),
        key,
    ));
}

} // verus!
