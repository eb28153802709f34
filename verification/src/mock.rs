//! The in-memory adapter for the host capability interface.
//!
//! A [`MockRuntime`] stands in for the host in tests: each test constructs
//! its own instance, so no state leaks between cases. Its transaction
//! input, sender, ownership answer and query result are plain fields the
//! test sets; its persistent store is a real key/value map held in the
//! value itself; its digests answer with the empty digest and its signature
//! check answers invalid, as a stand-in host does.

use crate::host::{ExternalError, HostRuntime, TransactionInfo};
use vstd::prelude::*;
use vstd::slice::slice_to_vec;

verus! {

/// The key/value map a list of entries holds: an earlier entry wins over a
/// later one with the same key.
pub open spec fn entries_map(s: Seq<(Vec<u8>, Vec<u8>)>) -> Map<Seq<u8>, Seq<u8>>
    decreases s,
{
    if s.len() == 0 {
        Map::empty()
    } else {
        entries_map(s.skip(1)).insert(s[0].0@, s[0].1@)
    }
}

/// No two entries share a key.
pub open spec fn keys_unique(s: Seq<(Vec<u8>, Vec<u8>)>) -> bool {
    forall|i: int, j: int|
        #![trigger s[i], s[j]]
        0 <= i < j < s.len() ==> s[i].0@ != s[j].0@
}

/// Whether two byte strings hold the same bytes.
fn bytes_eq(a: &[u8], b: &[u8]) -> (r: bool)
    ensures
        r == (a@ == b@),
{
    if a.len() != b.len() {
        return false;
    }
    let mut i: usize = 0;
    while i < a.len()
        invariant
            a@.len() == b@.len(),
            i <= a@.len(),
            forall|j: int| 0 <= j < i ==> a@[j] == b@[j],
        decreases a@.len() - i,
    {
        if a[i] != b[i] {
            return false;
        }
        i = i + 1;
    }
    proof {
        assert(a@ =~= b@);
    }
    true
}

/// A key found at `i`, with no earlier match, answers the lookup.
proof fn lemma_entries_found(s: Seq<(Vec<u8>, Vec<u8>)>, k: Seq<u8>, i: int)
    requires
        0 <= i < s.len(),
        s[i].0@ == k,
        forall|j: int| 0 <= j < i ==> s[j].0@ != k,
    ensures
        entries_map(s).contains_key(k),
        entries_map(s)[k] == s[i].1@,
    decreases s.len(),
{
    if i > 0 {
        let t = s.skip(1);
        assert forall|j: int| 0 <= j < i - 1 implies t[j].0@ != k by {
            assert(t[j] == s[j + 1]);
        }
        assert(t[i - 1] == s[i]);
        lemma_entries_found(t, k, i - 1);
    }
}

/// A key matching no entry is not in the map.
proof fn lemma_entries_absent(s: Seq<(Vec<u8>, Vec<u8>)>, k: Seq<u8>)
    requires
        forall|j: int| 0 <= j < s.len() ==> s[j].0@ != k,
    ensures
        !entries_map(s).contains_key(k),
    decreases s.len(),
{
    if s.len() > 0 {
        let t = s.skip(1);
        assert forall|j: int| 0 <= j < t.len() implies t[j].0@ != k by {
            assert(t[j] == s[j + 1]);
        }
        lemma_entries_absent(t, k);
    }
}

/// Replacing the value of the only entry holding a key updates the map at
/// that key.
proof fn lemma_entries_update(s: Seq<(Vec<u8>, Vec<u8>)>, i: int, p: (Vec<u8>, Vec<u8>), k: Seq<u8>)
    requires
        0 <= i < s.len(),
        s[i].0@ == k,
        p.0@ == k,
        forall|j: int| 0 <= j < s.len() && j != i ==> s[j].0@ != k,
    ensures
        entries_map(s.update(i, p)) == entries_map(s).insert(k, p.1@),
    decreases s.len(),
{
    let t = s.skip(1);
    if i == 0 {
        assert(s.update(0, p).skip(1) =~= t);
        assert(s.update(0, p)[0] == p);
        assert(entries_map(t).insert(k, s[0].1@).insert(k, p.1@) =~= entries_map(t).insert(
            k,
            p.1@,
        ));
    } else {
        assert forall|j: int| 0 <= j < t.len() && j != i - 1 implies t[j].0@ != k by {
            assert(t[j] == s[j + 1]);
        }
        assert(t[i - 1] == s[i]);
        lemma_entries_update(t, i - 1, p, k);
        assert(s.update(i, p).skip(1) =~= t.update(i - 1, p));
        assert(s.update(i, p)[0] == s[0]);
        assert(entries_map(t).insert(k, p.1@).insert(s[0].0@, s[0].1@) =~= entries_map(t).insert(
            s[0].0@,
            s[0].1@,
        ).insert(k, p.1@));
    }
}

/// Removing the only entry holding a key removes that key from the map.
proof fn lemma_entries_remove(s: Seq<(Vec<u8>, Vec<u8>)>, i: int, k: Seq<u8>)
    requires
        0 <= i < s.len(),
        s[i].0@ == k,
        forall|j: int| 0 <= j < s.len() && j != i ==> s[j].0@ != k,
    ensures
        entries_map(s.remove(i)) == entries_map(s).remove(k),
    decreases s.len(),
{
    let t = s.skip(1);
    if i == 0 {
        assert(s.remove(0) =~= t);
        assert forall|j: int| 0 <= j < t.len() implies t[j].0@ != k by {
            assert(t[j] == s[j + 1]);
        }
        lemma_entries_absent(t, k);
        assert(entries_map(t).insert(k, s[0].1@).remove(k) =~= entries_map(t));
    } else {
        assert forall|j: int| 0 <= j < t.len() && j != i - 1 implies t[j].0@ != k by {
            assert(t[j] == s[j + 1]);
        }
        assert(t[i - 1] == s[i]);
        lemma_entries_remove(t, i - 1, k);
        assert(s.remove(i).skip(1) =~= t.remove(i - 1));
        assert(s.remove(i)[0] == s[0]);
        assert(entries_map(t).remove(k).insert(s[0].0@, s[0].1@) =~= entries_map(t).insert(
            s[0].0@,
            s[0].1@,
        ).remove(k));
    }
}

/// The in-memory host adapter. Construct one per test case; what the host
/// would answer stands in the public fields.
pub struct MockRuntime {
    /// The encoded arguments the next call sees; none stands for an empty
    /// input.
    pub args: Option<Vec<u8>>,
    /// The sender key reported; none stands for an empty key.
    pub sender_key: Option<Vec<u8>>,
    /// The answer to every ownership question.
    pub owner: bool,
    /// The result the next query run reports; none stands for no matching
    /// rows.
    pub query_result: Option<Vec<u8>>,
    /// The messages logged so far, newest last.
    pub log_messages: Vec<String>,
    /// The encoded rows inserted so far, newest last.
    pub inserted: Vec<Vec<u8>>,
    /// The entries of the persistent store, managed by
    /// [`store`](MockRuntime::store), [`get`](MockRuntime::get) and
    /// [`delete`](MockRuntime::delete).
    pub entries: Vec<(Vec<u8>, Vec<u8>)>,
}

impl MockRuntime {
    /// The persistent store this adapter holds.
    pub open spec fn store_map(&self) -> Map<Seq<u8>, Seq<u8>> {
        entries_map(self.entries@)
    }

    /// The store holds one entry per key.
    pub open spec fn store_wf(&self) -> bool {
        keys_unique(self.entries@)
    }

    /// A fresh adapter: no input, no sender, no ownership, no rows, an
    /// empty store.
    pub fn new() -> (r: Self)
        ensures
            r.store_wf(),
            r.store_map() == Map::<Seq<u8>, Seq<u8>>::empty(),
            r.args is None,
            r.sender_key is None,
            !r.owner,
            r.query_result is None,
            r.log_messages@.len() == 0,
            r.inserted@.len() == 0,
    {
        MockRuntime {
            args: None,
            sender_key: None,
            owner: false,
            query_result: None,
            log_messages: Vec::new(),
            inserted: Vec::new(),
            entries: Vec::new(),
        }
    }

    /// The index of the entry holding `key`, if one does.
    fn find(&self, key: &[u8]) -> (r: Option<usize>)
        ensures
            match r {
                Some(i) => i < self.entries@.len() && self.entries@[i as int].0@ == key@ && forall|
                    j: int,
                |
                    0 <= j < i ==> self.entries@[j].0@ != key@,
                None => forall|j: int| 0 <= j < self.entries@.len() ==> self.entries@[j].0@ != key@,
            },
    {
        let mut i: usize = 0;
        while i < self.entries.len()
            invariant
                i <= self.entries@.len(),
                forall|j: int| 0 <= j < i ==> self.entries@[j].0@ != key@,
            decreases self.entries@.len() - i,
        {
            if bytes_eq(self.entries[i].0.as_slice(), key) {
                return Some(i);
            }
            i = i + 1;
        }
        None
    }

    /// The value stored under `key`, or the missing-key error: `Ok` exactly
    /// when the key is in the store.
    pub fn get(&self, key: &[u8]) -> (r: Result<Vec<u8>, ExternalError>)
        ensures
            match r {
                Ok(v) => self.store_map().contains_key(key@) && v@ == self.store_map()[key@],
                Err(e) => e == ExternalError::MissingKeyError && !self.store_map().contains_key(
                    key@,
                ),
            },
    {
        match self.find(key) {
            Some(i) => {
                proof {
                    lemma_entries_found(self.entries@, key@, i as int);
                }
                Ok(slice_to_vec(self.entries[i].1.as_slice()))
            },
            None => {
                proof {
                    lemma_entries_absent(self.entries@, key@);
                }
                Err(ExternalError::MissingKeyError)
            },
        }
    }

    /// Store `value` under `key`, replacing what the key held before.
    pub fn store(&mut self, key: &[u8], value: &[u8])
        requires
            old(self).store_wf(),
        ensures
            final(self).store_wf(),
            final(self).store_map() == old(self).store_map().insert(key@, value@),
            final(self).args == old(self).args,
            final(self).sender_key == old(self).sender_key,
            final(self).owner == old(self).owner,
            final(self).query_result == old(self).query_result,
            final(self).log_messages == old(self).log_messages,
            final(self).inserted == old(self).inserted,
    {
        let pair = (slice_to_vec(key), slice_to_vec(value));
        match self.find(key) {
            Some(i) => {
                proof {
                    lemma_entries_update(self.entries@, i as int, pair, key@);
                }
                let slot = &mut self.entries[i];
                *slot = pair;
                proof {
                    assert forall|a: int, b: int|
                        0 <= a < b < self.entries@.len() implies (#[trigger] self.entries@[a]).0@
                        != (#[trigger] self.entries@[b]).0@ by {
                        assert(a != i as int ==> self.entries@[a] == old(self).entries@[a]);
                        assert(b != i as int ==> self.entries@[b] == old(self).entries@[b]);
                    }
                }
            },
            None => {
                proof {
                    lemma_entries_absent(self.entries@, key@);
                    assert(old(self).store_map().insert(key@, value@) =~= entries_map(
                        old(self).entries@,
                    ).insert(key@, value@));
                }
                self.entries.insert(0, pair);
                proof {
                    assert(self.entries@.skip(1) =~= old(self).entries@);
                    assert forall|a: int, b: int|
                        0 <= a < b < self.entries@.len() implies (#[trigger] self.entries@[a]).0@
                        != (#[trigger] self.entries@[b]).0@ by {
                        if a > 0 {
                            assert(self.entries@[a] == old(self).entries@[a - 1]);
                        }
                        assert(self.entries@[b] == old(self).entries@[b - 1]);
                    }
                }
            },
        }
    }

    /// Delete the entry under `key`: `Ok` exactly when the key was in the
    /// store, which it afterwards is not.
    pub fn delete(&mut self, key: &[u8]) -> (r: Result<(), ExternalError>)
        requires
            old(self).store_wf(),
        ensures
            final(self).store_wf(),
            match r {
                Ok(_) => old(self).store_map().contains_key(key@) && final(self).store_map()
                    == old(self).store_map().remove(key@),
                Err(e) => {
                    &&& e == ExternalError::MissingKeyError
                    &&& !old(self).store_map().contains_key(key@)
                    &&& final(self).store_map() == old(self).store_map()
                },
            },
            final(self).args == old(self).args,
            final(self).sender_key == old(self).sender_key,
            final(self).owner == old(self).owner,
            final(self).query_result == old(self).query_result,
            final(self).log_messages == old(self).log_messages,
            final(self).inserted == old(self).inserted,
    {
        match self.find(key) {
            Some(i) => {
                proof {
                    lemma_entries_found(self.entries@, key@, i as int);
                    lemma_entries_remove(self.entries@, i as int, key@);
                }
                let _ = self.entries.remove(i);
                proof {
                    assert forall|a: int, b: int|
                        0 <= a < b < self.entries@.len() implies (#[trigger] self.entries@[a]).0@
                        != (#[trigger] self.entries@[b]).0@ by {
                        let sa: int = if a < i { a } else { a + 1 };
                        let sb: int = if b < i { b } else { b + 1 };
                        assert(self.entries@[a] == old(self).entries@[sa]);
                        assert(self.entries@[b] == old(self).entries@[sb]);
                    }
                }
                Ok(())
            },
            None => {
                proof {
                    lemma_entries_absent(self.entries@, key@);
                }
                Err(ExternalError::MissingKeyError)
            },
        }
    }

    /// The configured arguments, or an empty input.
    pub fn arguments(&self) -> (r: Vec<u8>)
        ensures
            r@ == (match self.args {
                Some(a) => a@,
                None => Seq::<u8>::empty(),
            }),
    {
        match &self.args {
            Some(v) => slice_to_vec(v.as_slice()),
            None => Vec::new(),
        }
    }

    /// The configured sender key, or an empty key.
    pub fn sender(&self) -> (r: Vec<u8>)
        ensures
            r@ == (match self.sender_key {
                Some(a) => a@,
                None => Seq::<u8>::empty(),
            }),
    {
        match &self.sender_key {
            Some(v) => slice_to_vec(v.as_slice()),
            None => Vec::new(),
        }
    }

    /// Discard a response, as a stand-in host does.
    pub fn ret(&self, _values: &[u8]) {
    }

    /// The configured ownership answer, whatever the key.
    pub fn is_owner(&self, _key: &[u8]) -> (r: bool)
        ensures
            r == self.owner,
    {
        self.owner
    }

    /// Record a log message.
    pub fn log(&mut self, msg: String)
        ensures
            final(self).log_messages@ == old(self).log_messages@.push(msg),
            final(self).store_map() == old(self).store_map(),
            final(self).store_wf() == old(self).store_wf(),
            final(self).args == old(self).args,
            final(self).sender_key == old(self).sender_key,
            final(self).owner == old(self).owner,
            final(self).query_result == old(self).query_result,
            final(self).inserted == old(self).inserted,
    {
        self.log_messages.push(msg);
    }

    /// The stand-in SHA-256 digest: empty, whatever the data.
    pub fn sha256(&self, _data: Vec<u8>) -> (r: Vec<u8>)
        ensures
            r@ == Seq::<u8>::empty(),
    {
        Vec::new()
    }

    /// The stand-in SHA3-256 digest: empty, whatever the data.
    pub fn sha3_256(&self, _data: Vec<u8>) -> (r: Vec<u8>)
        ensures
            r@ == Seq::<u8>::empty(),
    {
        Vec::new()
    }

    /// The stand-in SHA3-512 digest: empty, whatever the data.
    pub fn sha3_512(&self, _data: Vec<u8>) -> (r: Vec<u8>)
        ensures
            r@ == Seq::<u8>::empty(),
    {
        Vec::new()
    }

    /// The stand-in Keccak-256 digest: empty, whatever the data.
    pub fn keccak256(&self, _data: Vec<u8>) -> (r: Vec<u8>)
        ensures
            r@ == Seq::<u8>::empty(),
    {
        Vec::new()
    }

    /// The stand-in SHAKE-256 digest: empty, whatever the data.
    pub fn shake256(&self, _data: Vec<u8>) -> (r: Vec<u8>)
        ensures
            r@ == Seq::<u8>::empty(),
    {
        Vec::new()
    }

    /// The stand-in signature check: invalid, whatever the inputs.
    pub fn validate_signature(&self, _pub_key: Vec<u8>, _message: Vec<u8>, _signature: Vec<u8>) -> (
        r: u32)
        ensures
            r == 0,
    {
        0
    }

    /// Record an inserted row.
    pub fn kq_insert(&mut self, data: Vec<u8>)
        ensures
            final(self).inserted@ == old(self).inserted@.push(data),
            final(self).store_map() == old(self).store_map(),
            final(self).store_wf() == old(self).store_wf(),
    {
        self.inserted.push(data);
    }

    /// Report the configured query result's length, with an all-zero
    /// correlation handle; no result reports length zero.
    pub fn run_query(&mut self, _query: Vec<u8>) -> (r: (u32, Vec<u8>))
        ensures
            *final(self) == *old(self),
            old(self).query_result is None ==> r.0 == 0,
            r.1@.len() == 16,
    {
        let len: u32 = match &self.query_result {
            Some(v) => {
                if v.len() >= 0xffffffffusize {
                    0xffffffffu32
                } else {
                    v.len() as u32
                }
            },
            None => 0,
        };
        let handle: Vec<u8> = vec![0u8; 16];
        proof {
            assert forall|i: int| 0 <= i < handle@.len() implies handle@[i] == 0u8 by {}
            assert(handle@.len() == 16);
        }
        (len, handle)
    }

    /// Hand the configured query result out, or nothing when none was
    /// configured.
    pub fn fetch_query_result(&mut self, _handle: Vec<u8>, _length: u32) -> (r: Vec<u8>)
        ensures
            *final(self) == *old(self),
            r@ == (match old(self).query_result {
                Some(v) => v@,
                None => Seq::<u8>::empty(),
            }),
    {
        match &self.query_result {
            Some(v) => slice_to_vec(v.as_slice()),
            None => Vec::new(),
        }
    }
}

impl TransactionInfo for MockRuntime {
    fn arguments(&self) -> Vec<u8> {
        MockRuntime::arguments(self)
    }

    fn ret(&self, values: &[u8]) {
        MockRuntime::ret(self, values)
    }

    fn sender(&self) -> Vec<u8> {
        MockRuntime::sender(self)
    }
}

impl HostRuntime for MockRuntime {
    fn get(&self, key: &[u8]) -> Result<Vec<u8>, ExternalError> {
        MockRuntime::get(self, key)
    }

    fn store(&mut self, key: &[u8], value: &[u8]) {
        if self.check_store_wf() {
            MockRuntime::store(self, key, value)
        }
    }

    fn delete(&mut self, key: &[u8]) -> Result<(), ExternalError> {
        if self.check_store_wf() {
            MockRuntime::delete(self, key)
        } else {
            Err(ExternalError::MissingKeyError)
        }
    }

    fn is_owner(&self, key: &[u8]) -> bool {
        MockRuntime::is_owner(self, key)
    }

    fn log(&mut self, msg: String) {
        MockRuntime::log(self, msg)
    }

    fn sha256(&self, data: Vec<u8>) -> Vec<u8> {
        MockRuntime::sha256(self, data)
    }

    fn sha3_256(&self, data: Vec<u8>) -> Vec<u8> {
        MockRuntime::sha3_256(self, data)
    }

    fn sha3_512(&self, data: Vec<u8>) -> Vec<u8> {
        MockRuntime::sha3_512(self, data)
    }

    fn keccak256(&self, data: Vec<u8>) -> Vec<u8> {
        MockRuntime::keccak256(self, data)
    }

    fn shake256(&self, data: Vec<u8>) -> Vec<u8> {
        MockRuntime::shake256(self, data)
    }

    fn validate_signature(&self, pub_key: Vec<u8>, message: Vec<u8>, signature: Vec<u8>) -> u32 {
        MockRuntime::validate_signature(self, pub_key, message, signature)
    }

    fn kq_insert(&mut self, data: Vec<u8>) {
        MockRuntime::kq_insert(self, data)
    }

    fn run_query(&mut self, query: Vec<u8>) -> (u32, Vec<u8>) {
        MockRuntime::run_query(self, query)
    }

    fn fetch_query_result(&mut self, handle: Vec<u8>, length: u32) -> Vec<u8> {
        MockRuntime::fetch_query_result(self, handle, length)
    }
}

impl MockRuntime {
    /// Whether the store holds one entry per key; it always does, but the
    /// capability trait gives its callers no way to know that.
    fn check_store_wf(&self) -> (r: bool)
        ensures
            r == self.store_wf(),
    {
        let mut i: usize = 0;
        while i < self.entries.len()
            invariant
                i <= self.entries@.len(),
                forall|a: int, b: int|
                    #![trigger self.entries@[a], self.entries@[b]]
                    0 <= a < b < self.entries@.len() && a < i ==> self.entries@[a].0@
                        != self.entries@[b].0@,
            decreases self.entries@.len() - i,
        {
            let mut j: usize = i + 1;
            while j < self.entries.len()
                invariant
                    i < j || j == i + 1,
                    i < self.entries@.len(),
                    i + 1 <= j <= self.entries@.len(),
                    forall|b: int| i < b < j ==> self.entries@[i as int].0@ != (#[trigger] self.entries@[b]).0@,
                decreases self.entries@.len() - j,
            {
                if bytes_eq(self.entries[i].0.as_slice(), self.entries[j].0.as_slice()) {
                    return false;
                }
                j = j + 1;
            }
            i = i + 1;
        }
        true
    }
}

} // verus!
