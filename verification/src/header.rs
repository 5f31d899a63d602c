//! Frame headers: ordered `(key, value)` pairs that may repeat a key.

use vstd::prelude::*;
use crate::bytes::{ascii, ascii_bytes, bytes_eq, to_vec};

verus! {

/// The mathematical value of a header: its key and its value.
pub type HeaderSpec = (Seq<u8>, Seq<u8>);

/// One `key:value` header.
#[derive(Debug)]
pub struct Header {
    pub key: Vec<u8>,
    pub value: Vec<u8>,
}

impl View for Header {
    type V = HeaderSpec;

    open spec fn view(&self) -> HeaderSpec {
        (self.key@, self.value@)
    }
}

impl Clone for Header {
    fn clone(&self) -> (r: Self)
        ensures
            r@ == self@,
    {
        Header { key: self.key.clone(), value: self.value.clone() }
    }
}

impl Header {
    /// Builds a header from a key and a value.
    pub fn new(key: &[u8], value: &[u8]) -> (r: Header)
        ensures
            r@ == (key@, value@),
    {
        Header { key: to_vec(key), value: to_vec(value) }
    }

    /// The key.
    pub fn get_key(&self) -> (r: &Vec<u8>)
        ensures
            r@ == self@.0,
    {
        &self.key
    }

    /// The value.
    pub fn get_value(&self) -> (r: &Vec<u8>)
        ensures
            r@ == self@.1,
    {
        &self.value
    }
}

/// The value of the first header in `hs` whose key is `key`.
pub open spec fn spec_lookup(hs: Seq<HeaderSpec>, key: Seq<u8>) -> Option<Seq<u8>>
    decreases hs.len(),
{
    if hs.len() == 0 {
        None
    } else if hs[0].0 == key {
        Some(hs[0].1)
    } else {
        spec_lookup(hs.skip(1), key)
    }
}

/// `hs` without the headers whose key is `key`, the others in their order.
pub open spec fn spec_without_key(hs: Seq<HeaderSpec>, key: Seq<u8>) -> Seq<HeaderSpec>
    decreases hs.len(),
{
    if hs.len() == 0 {
        hs
    } else if hs.last().0 == key {
        spec_without_key(hs.drop_last(), key)
    } else {
        spec_without_key(hs.drop_last(), key).push(hs.last())
    }
}

/// After `spec_without_key`, no header with that key is left, and every
/// header that is left was there before.
pub proof fn lemma_without_key(hs: Seq<HeaderSpec>, key: Seq<u8>)
    ensures
        spec_lookup(spec_without_key(hs, key), key) is None,
        spec_without_key(hs, key).len() <= hs.len(),
        forall|i: int|
            0 <= i < spec_without_key(hs, key).len() ==> {
                &&& (#[trigger] spec_without_key(hs, key)[i]).0 != key
                &&& hs.contains(spec_without_key(hs, key)[i])
            },
        spec_lookup(hs, key) is None ==> spec_without_key(hs, key) == hs,
    decreases hs.len(),
{
    let out = spec_without_key(hs, key);
    if hs.len() > 0 {
        let pre = hs.drop_last();
        lemma_without_key(pre, key);
        let pout = spec_without_key(pre, key);
        assert forall|i: int| 0 <= i < out.len() implies (#[trigger] out[i]).0 != key
            && hs.contains(out[i]) by {
            if i < pout.len() {
                assert(out[i] == pout[i]);
                let j = choose|j: int| 0 <= j < pre.len() && pre[j] == pout[i];
                assert(hs[j] == out[i]);
            } else {
                assert(out[i] == hs.last());
                assert(hs[hs.len() - 1] == out[i]);
            }
        }
        lemma_lookup_none(out, key);
        if spec_lookup(hs, key) is None {
            lemma_lookup_none_iff(hs, key);
            lemma_lookup_none(pre, key);
            assert(out =~= hs);
        }
    }
}

/// A lookup finds nothing when no header has the key.
pub proof fn lemma_lookup_none(hs: Seq<HeaderSpec>, key: Seq<u8>)
    requires
        forall|i: int| 0 <= i < hs.len() ==> (#[trigger] hs[i]).0 != key,
    ensures
        spec_lookup(hs, key) is None,
    decreases hs.len(),
{
    if hs.len() > 0 {
        lemma_lookup_none(hs.skip(1), key);
    }
}

/// A lookup that finds nothing means that no header has the key.
pub proof fn lemma_lookup_none_iff(hs: Seq<HeaderSpec>, key: Seq<u8>)
    requires
        spec_lookup(hs, key) is None,
    ensures
        forall|i: int| 0 <= i < hs.len() ==> (#[trigger] hs[i]).0 != key,
    decreases hs.len(),
{
    if hs.len() > 0 {
        lemma_lookup_none_iff(hs.skip(1), key);
        assert forall|i: int| 0 <= i < hs.len() implies (#[trigger] hs[i]).0 != key by {
            if i > 0 {
                assert(hs[i] == hs.skip(1)[i - 1]);
            }
        }
    }
}

/// An ordered list of headers.
#[derive(Debug)]
pub struct HeaderList {
    pub headers: Vec<Header>,
}

impl View for HeaderList {
    type V = Seq<HeaderSpec>;

    open spec fn view(&self) -> Seq<HeaderSpec> {
        Seq::new(self.headers@.len(), |i: int| self.headers@[i]@)
    }
}

impl Clone for HeaderList {
    fn clone(&self) -> (r: Self)
        ensures
            r@ == self@,
    {
        let mut r = HeaderList::new();
        let mut i: usize = 0;
        while i < self.headers.len()
            invariant
                i <= self.headers.len(),
                r@ == self@.take(i as int),
            decreases self.headers.len() - i,
        {
            r.push(self.headers[i].clone());
            i += 1;
            assert(r@ =~= self@.take(i as int));
        }
        assert(self@.take(self@.len() as int) =~= self@);
        r
    }
}

impl HeaderList {
    /// An empty list.
    pub fn new() -> (r: HeaderList)
        ensures
            r@ == Seq::<HeaderSpec>::empty(),
    {
        let r = HeaderList { headers: Vec::new() };
        assert(r@ =~= Seq::<HeaderSpec>::empty());
        r
    }

    /// The number of headers.
    pub fn len(&self) -> (r: usize)
        ensures
            r == self@.len(),
    {
        self.headers.len()
    }

    /// Appends a header at the end.
    pub fn push(&mut self, header: Header)
        ensures
            final(self)@ == old(self)@.push(header@),
    {
        self.headers.push(header);
        assert(self@ =~= old(self)@.push(header@));
    }

    /// Appends the header `key:value` at the end.
    pub fn add(&mut self, key: &[u8], value: &[u8])
        ensures
            final(self)@ == old(self)@.push((key@, value@)),
    {
        self.push(Header::new(key, value));
    }

    /// The value of the first header with the given key.
    pub fn get(&self, key: &[u8]) -> (r: Option<&Vec<u8>>)
        ensures
            match r {
                Some(v) => spec_lookup(self@, key@) == Some(v@),
                None => spec_lookup(self@, key@) is None,
            },
    {
        let mut i: usize = 0;
        assert(self@.skip(0) =~= self@);
        while i < self.headers.len()
            invariant
                i <= self.headers.len(),
                spec_lookup(self@, key@) == spec_lookup(self@.skip(i as int), key@),
            decreases self.headers.len() - i,
        {
            let ghost rest = self@.skip(i as int);
            assert(rest[0] == self.headers@[i as int]@);
            assert(rest.skip(1) =~= self@.skip(i + 1));
            if bytes_eq(self.headers[i].key.as_slice(), key) {
                return Some(&self.headers[i].value);
            }
            i += 1;
        }
        assert(self@.skip(i as int).len() == 0);
        None
    }

    /// The `subscription` header of a MESSAGE frame.
    pub fn get_subscription(&self) -> (r: Option<&Vec<u8>>)
        ensures
            match r {
                Some(v) => spec_lookup(self@, ascii("subscription")) == Some(v@),
                None => spec_lookup(self@, ascii("subscription")) is None,
            },
    {
        proof {
            reveal_strlit("subscription");
        }
        let key = ascii_bytes("subscription");
        self.get(key.as_slice())
    }

    /// The `ack` header of a MESSAGE frame.
    pub fn get_ack(&self) -> (r: Option<&Vec<u8>>)
        ensures
            match r {
                Some(v) => spec_lookup(self@, ascii("ack")) == Some(v@),
                None => spec_lookup(self@, ascii("ack")) is None,
            },
    {
        proof {
            reveal_strlit("ack");
        }
        let key = ascii_bytes("ack");
        self.get(key.as_slice())
    }

    /// The `receipt-id` header of a RECEIPT frame.
    pub fn get_receipt_id(&self) -> (r: Option<&Vec<u8>>)
        ensures
            match r {
                Some(v) => spec_lookup(self@, ascii("receipt-id")) == Some(v@),
                None => spec_lookup(self@, ascii("receipt-id")) is None,
            },
    {
        proof {
            reveal_strlit("receipt-id");
        }
        let key = ascii_bytes("receipt-id");
        self.get(key.as_slice())
    }

    /// The `receipt` header of an outbound frame.
    pub fn get_receipt(&self) -> (r: Option<&Vec<u8>>)
        ensures
            match r {
                Some(v) => spec_lookup(self@, ascii("receipt")) == Some(v@),
                None => spec_lookup(self@, ascii("receipt")) is None,
            },
    {
        proof {
            reveal_strlit("receipt");
        }
        let key = ascii_bytes("receipt");
        self.get(key.as_slice())
    }

    /// Moves every header of `other` to the end of this list, in order, and
    /// leaves `other` empty.
    pub fn concat(&mut self, other: &mut HeaderList)
        ensures
            final(self)@ == old(self)@ + old(other)@,
            final(other)@ == Seq::<HeaderSpec>::empty(),
    {
        self.headers.append(&mut other.headers);
        assert(self@ =~= old(self)@ + old(other)@);
        assert(other@ =~= Seq::<HeaderSpec>::empty());
    }

    /// Drops every header whose key is `key` and keeps the others in order.
    pub fn remove_key(&mut self, key: &[u8])
        ensures
            final(self)@ == spec_without_key(old(self)@, key@),
    {
        let mut kept: Vec<Header> = Vec::new();
        let mut i: usize = 0;
        let ghost before = self@;
        while i < self.headers.len()
            invariant
                i <= self.headers.len(),
                self@ == before,
                Seq::new(kept@.len(), |j: int| kept@[j]@) == spec_without_key(
                    before.take(i as int),
                    key@,
                ),
            decreases self.headers.len() - i,
        {
            let ghost pre = before.take(i as int);
            let ghost cur = before.take(i + 1);
            let ghost old_kept = Seq::new(kept@.len(), |j: int| kept@[j]@);
            assert(cur.drop_last() =~= pre);
            assert(cur.last() == self.headers@[i as int]@);
            if !bytes_eq(self.headers[i].key.as_slice(), key) {
                kept.push(self.headers[i].clone());
                assert(Seq::new(kept@.len(), |j: int| kept@[j]@) =~= old_kept.push(cur.last()));
            }
            i += 1;
        }
        assert(before.take(i as int) =~= before);
        self.headers = kept;
        assert(self@ =~= spec_without_key(before, key@));
    }
}

} // verus!
