//! The per-request context: an immutable request-scope snapshot and a
//! mutable response-scope bag, both string-keyed maps of opaque byte
//! values, used by handlers and middleware to exchange out-of-band data.

use vstd::prelude::*;

verus! {

/// Looks a key up in a sequence of key/value entries, first match wins.
pub open spec fn ext_lookup(entries: Seq<(Seq<char>, Seq<u8>)>, key: Seq<char>) -> Option<Seq<u8>>
    decreases entries.len(),
{
    if entries.len() == 0 {
        None
    } else if entries[0].0 == key {
        Some(entries[0].1)
    } else {
        ext_lookup(entries.drop_first(), key)
    }
}

/// A string-keyed map of opaque byte values. Keys are unique; insertion
/// order is preserved.
#[derive(Clone, Debug, PartialEq, Eq, Default)]
pub struct Extensions {
    entries: Vec<(String, Vec<u8>)>,
}

impl View for Extensions {
    type V = Seq<(Seq<char>, Seq<u8>)>;

    closed spec fn view(&self) -> Seq<(Seq<char>, Seq<u8>)> {
        Seq::new(self.entries@.len(), |i: int| (self.entries@[i].0@, self.entries@[i].1@))
    }
}

impl Extensions {
    /// Well-formedness: every key is stored at most once.
    pub open spec fn wf(&self) -> bool {
        forall|i: int, j: int| 0 <= i < j < self@.len() ==> self@[i].0 != self@[j].0
    }

    /// An empty map.
    pub fn new() -> (r: Extensions)
        ensures
            r@ =~= Seq::<(Seq<char>, Seq<u8>)>::empty(),
            r.wf(),
    {
        Extensions { entries: Vec::new() }
    }

    /// Number of entries.
    pub fn len(&self) -> (r: usize)
        ensures
            r == self@.len(),
    {
        self.entries.len()
    }

    /// The entry at position `i`, in insertion order.
    pub fn entry(&self, i: usize) -> (r: (&String, &Vec<u8>))
        requires
            i < self@.len(),
        ensures
            r.0@ == self@[i as int].0,
            r.1@ == self@[i as int].1,
    {
        (&self.entries[i].0, &self.entries[i].1)
    }

    /// The value stored under `key`, if any.
    pub fn get(&self, key: &str) -> (r: Option<&Vec<u8>>)
        ensures
            match r {
                Some(v) => ext_lookup(self@, key@) == Some(v@),
                None => ext_lookup(self@, key@) is None,
            },
    {
        let mut i: usize = 0;
        proof {
            assert(self@.skip(0) =~= self@);
        }
        while i < self.entries.len()
            invariant
                0 <= i <= self@.len(),
                ext_lookup(self@, key@) == ext_lookup(self@.skip(i as int), key@),
            decreases self@.len() - i,
        {
            proof {
                assert(self@.skip(i as int).drop_first() =~= self@.skip(i + 1));
            }
            if crate::text::str_eq(self.entries[i].0.as_str(), key) {
                assert(self@.skip(i as int)[0] == self@[i as int]);
                return Some(&self.entries[i].1);
            }
            i += 1;
        }
        assert(self@.skip(self@.len() as int) =~= Seq::<(Seq<char>, Seq<u8>)>::empty());
        None
    }

    /// Index of the entry holding `key`, if any.
    fn position(&self, key: &str) -> (r: Option<usize>)
        ensures
            match r {
                Some(i) => 0 <= i < self@.len() && self@[i as int].0 == key@,
                None => forall|i: int| 0 <= i < self@.len() ==> self@[i].0 != key@,
            },
    {
        let mut i: usize = 0;
        while i < self.entries.len()
            invariant
                0 <= i <= self@.len(),
                forall|j: int| 0 <= j < i ==> self@[j].0 != key@,
            decreases self@.len() - i,
        {
            if crate::text::str_eq(self.entries[i].0.as_str(), key) {
                return Some(i);
            }
            i += 1;
        }
        None
    }

    /// Hands the entries out, in insertion order.
    pub fn into_entries(self) -> (v: Vec<(String, Vec<u8>)>)
        ensures
            v@.len() == self@.len(),
            forall|i: int|
                0 <= i < v@.len() ==> (#[trigger] v@[i]).0@ == self@[i].0 && v@[i].1@
                    == self@[i].1,
    {
        self.entries
    }

    /// Inserts or replaces the value under `key`, returning the prior
    /// value if one was stored.
    pub fn insert(&mut self, key: String, value: Vec<u8>) -> (prior: Option<Vec<u8>>)
        requires
            old(self).wf(),
        ensures
            final(self).wf(),
            ext_lookup(final(self)@, key@) == Some(value@),
            forall|k: Seq<char>|
                k != key@ ==> ext_lookup(final(self)@, k) == ext_lookup(old(self)@, k),
            match prior {
                Some(v) => ext_lookup(old(self)@, key@) == Some(v@),
                None => ext_lookup(old(self)@, key@) is None,
            },
    {
        let pos = self.position(key.as_str());
        match pos {
            Some(i) => {
                let old_entry = self.entries.remove(i);
                self.entries.insert(i, (key, value));
                proof {
                    assert(self@ =~= old(self)@.update(i as int, (key@, value@)));
                    assert(forall|m: int|
                        0 <= m < self@.len() ==> self@[m].0 == old(self)@[m].0);
                    lemma_ext_lookup_found(old(self)@, key@, i as int);
                    lemma_ext_lookup_found(self@, key@, i as int);
                    assert forall|k: Seq<char>| k != key@ implies ext_lookup(self@, k)
                        == ext_lookup(old(self)@, k) by {
                        lemma_ext_lookup_update_other(old(self)@, i as int, (key@, value@), k);
                    }
                }
                Some(old_entry.1)
            },
            None => {
                self.entries.push((key, value));
                proof {
                    assert(self@ =~= old(self)@.push((key@, value@)));
                    lemma_ext_lookup_absent(old(self)@, key@);
                    lemma_ext_lookup_push(old(self)@, (key@, value@), key@);
                    assert forall|k: Seq<char>| k != key@ implies ext_lookup(self@, k)
                        == ext_lookup(old(self)@, k) by {
                        lemma_ext_lookup_push(old(self)@, (key@, value@), k);
                    }
                }
                None
            },
        }
    }
}

/// If no entry holds `key`, lookup fails.
proof fn lemma_ext_lookup_absent(entries: Seq<(Seq<char>, Seq<u8>)>, key: Seq<char>)
    requires
        forall|i: int| 0 <= i < entries.len() ==> entries[i].0 != key,
    ensures
        ext_lookup(entries, key) is None,
    decreases entries.len(),
{
    if entries.len() > 0 {
        lemma_ext_lookup_absent(entries.drop_first(), key);
    }
}

/// If the entry holding `key` stands at `i` and keys are unique, lookup
/// returns its value.
proof fn lemma_ext_lookup_found(entries: Seq<(Seq<char>, Seq<u8>)>, key: Seq<char>, i: int)
    requires
        0 <= i < entries.len(),
        entries[i].0 == key,
        forall|j: int, k: int| 0 <= j < k < entries.len() ==> entries[j].0 != entries[k].0,
    ensures
        ext_lookup(entries, key) == Some(entries[i].1),
    decreases entries.len(),
{
    if i == 0 {
    } else {
        assert(entries.drop_first()[i - 1] == entries[i]);
        lemma_ext_lookup_found(entries.drop_first(), key, i - 1);
    }
}

/// Appending an entry only affects lookups of its own key.
proof fn lemma_ext_lookup_push(
    entries: Seq<(Seq<char>, Seq<u8>)>,
    entry: (Seq<char>, Seq<u8>),
    key: Seq<char>,
)
    ensures
        ext_lookup(entries.push(entry), key) == if ext_lookup(entries, key) is Some {
            ext_lookup(entries, key)
        } else if entry.0 == key {
            Some(entry.1)
        } else {
            None
        },
    decreases entries.len(),
{
    if entries.len() == 0 {
        assert(entries.push(entry)[0] == entry);
        assert(entries.push(entry).drop_first() =~= Seq::<(Seq<char>, Seq<u8>)>::empty());
    } else {
        assert(entries.push(entry).drop_first() =~= entries.drop_first().push(entry));
        lemma_ext_lookup_push(entries.drop_first(), entry, key);
    }
}

/// Replacing the entry at `i` does not affect lookups of other keys.
proof fn lemma_ext_lookup_update_other(
    entries: Seq<(Seq<char>, Seq<u8>)>,
    i: int,
    entry: (Seq<char>, Seq<u8>),
    key: Seq<char>,
)
    requires
        0 <= i < entries.len(),
        entries[i].0 == entry.0,
        key != entry.0,
    ensures
        ext_lookup(entries.update(i, entry), key) == ext_lookup(entries, key),
    decreases entries.len(),
{
    if i == 0 {
        assert(entries.update(0, entry).drop_first() =~= entries.drop_first());
    } else {
        assert(entries.update(i, entry)[0] == entries[0]);
        assert(entries.update(i, entry).drop_first() =~= entries.drop_first().update(
            i - 1,
            entry,
        ));
        lemma_ext_lookup_update_other(entries.drop_first(), i - 1, entry, key);
    }
}

/// The per-request context handed to a method handler: a read-only view of
/// the request-scope extensions, and a response-scope bag the handler may
/// write, which is merged into the outgoing response after it returns.
/// Each request gets its own context; it is dropped once the response is
/// sent.
#[derive(Default)]
pub struct Context {
    req_extensions: Extensions,
    resp_extensions: Extensions,
}

impl Context {
    /// A context over the given request-scope extensions, with an empty
    /// response bag.
    pub fn new(req_extensions: Extensions) -> (r: Context)
        ensures
            r.req_view() == req_extensions@,
            r.resp_view() =~= Seq::<(Seq<char>, Seq<u8>)>::empty(),
            r.resp_wf(),
    {
        Context { req_extensions, resp_extensions: Extensions::new() }
    }

    /// The request-scope entries.
    pub closed spec fn req_view(&self) -> Seq<(Seq<char>, Seq<u8>)> {
        self.req_extensions@
    }

    /// The response-scope entries.
    pub closed spec fn resp_view(&self) -> Seq<(Seq<char>, Seq<u8>)> {
        self.resp_extensions@
    }

    /// Well-formedness of the response bag.
    pub open spec fn resp_wf(&self) -> bool {
        forall|i: int, j: int|
            0 <= i < j < self.resp_view().len() ==> self.resp_view()[i].0
                != self.resp_view()[j].0
    }

    /// The request-scope extensions, for populating before the handler
    /// runs.
    pub fn extensions_mut(&mut self) -> (r: &mut Extensions)
        ensures
            (*r)@ == old(self).req_view(),
            final(self).req_view() == (*final(r))@,
            final(self).resp_view() == old(self).resp_view(),
    {
        &mut self.req_extensions
    }

    /// Reads a value from the request-scope snapshot.
    pub fn get(&self, key: &str) -> (r: Option<&Vec<u8>>)
        ensures
            match r {
                Some(v) => ext_lookup(self.req_view(), key@) == Some(v@),
                None => ext_lookup(self.req_view(), key@) is None,
            },
    {
        self.req_extensions.get(key)
    }

    /// Writes a value into the response-scope bag, returning the prior
    /// value under that key if any.
    pub fn insert(&mut self, key: &str, value: Vec<u8>) -> (prior: Option<Vec<u8>>)
        requires
            old(self).resp_wf(),
        ensures
            final(self).resp_wf(),
            final(self).req_view() == old(self).req_view(),
            ext_lookup(final(self).resp_view(), key@) == Some(value@),
            forall|k: Seq<char>|
                k != key@ ==> ext_lookup(final(self).resp_view(), k) == ext_lookup(
                    old(self).resp_view(),
                    k,
                ),
            match prior {
                Some(v) => ext_lookup(old(self).resp_view(), key@) == Some(v@),
                None => ext_lookup(old(self).resp_view(), key@) is None,
            },
    {
        let owned_key = key.to_owned();
        self.resp_extensions.insert(owned_key, value)
    }

    /// Hands the response-scope bag out, to be merged into the outgoing
    /// response.
    pub fn into_response_extensions(self) -> (r: Extensions)
        ensures
            r@ == self.resp_view(),
    {
        self.resp_extensions
    }
}

} // verus!