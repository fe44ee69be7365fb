//! The key store: a mapping from service name to base32 secret, persisted as
//! a single JSON object of strings. Every operation is a full
//! read-modify-write cycle: the callers hand in the file's bytes, and a
//! mutating operation hands back the bytes that must replace them.

use vstd::prelude::*;

use crate::Error;

verus! {

/// What `serde_json::from_slice::<HashMap<String, String>>` returns for given
/// bytes: `Some` of the key-value mapping exactly when the bytes are the UTF-8
/// encoding of a JSON object whose values are all strings, `None` otherwise.
pub uninterp spec fn json_store(bytes: Seq<u8>) -> Option<Map<Seq<char>, Seq<char>>>;

/// What `str::to_lowercase` returns: a function of the characters alone.
pub uninterp spec fn lower_of(s: Seq<char>) -> Seq<char>;

/// The mapping that a sequence of key-value entries holds, a later entry
/// winning over an earlier one with the same key.
pub open spec fn entries_map(s: Seq<(String, String)>) -> Map<Seq<char>, Seq<char>>
    decreases s.len(),
{
    if s.len() == 0 {
        Map::empty()
    } else {
        entries_map(s.drop_last()).insert(s.last().0@, s.last().1@)
    }
}

/// No two entries share a key.
pub open spec fn unique_keys(s: Seq<(String, String)>) -> bool {
    forall|i: int, j: int| 0 <= i < j < s.len() ==> s[i].0@ != s[j].0@
}

/// Relies on `serde_json::from_slice`: it accepts exactly the UTF-8 encodings
/// of JSON objects with string values, and yields each key once, with the
/// value that the object gives it.
#[verifier::external_body]
fn parse_store_bytes(bytes: &[u8]) -> (r: Option<Vec<(String, String)>>)
    ensures
        r is Some == json_store(bytes@) is Some,
        (match r {
            Some(v) => unique_keys(v@) && entries_map(v@) == json_store(bytes@)->Some_0,
            None => true,
        }),
{
    match serde_json::from_slice::<std::collections::HashMap<String, String>>(bytes) {
        Ok(m) => Some(m.into_iter().collect()),
        Err(_) => None,
    }
}

/// Relies on `serde_json::to_vec_pretty`: a map of strings always serializes,
/// and `serde_json::from_slice` parses the rendered object back to the same
/// mapping.
#[verifier::external_body]
fn render_store_bytes(entries: &Vec<(String, String)>) -> (r: Vec<u8>)
    ensures
        json_store(r@) == Some(entries_map(entries@)),
{
    let map: std::collections::BTreeMap<&str, &str> = entries.iter().map(
        |e: &(String, String)| (e.0.as_str(), e.1.as_str()),
    ).collect();
    serde_json::to_vec_pretty(&map).expect("a string map always serializes")
}

/// Relies on `str::to_lowercase`: the result depends on the characters alone.
#[verifier::external_body]
fn to_lowercase(s: &String) -> (r: String)
    ensures
        r@ == lower_of(s@),
{
    s.as_str().to_lowercase()
}

/// The mapping that store-file bytes hold: an empty file is an empty store,
/// anything else must parse as a JSON object of strings.
pub open spec fn store_contents(bytes: Seq<u8>) -> Option<Map<Seq<char>, Seq<char>>> {
    if bytes.len() == 0 {
        Some(Map::<Seq<char>, Seq<char>>::empty())
    } else {
        json_store(bytes)
    }
}

/// An in-memory key store: service-name/secret pairs with no repeated name,
/// abstracted as the mapping from names to secrets.
pub struct KeyStore {
    entries: Vec<(String, String)>,
}

impl View for KeyStore {
    type V = Map<Seq<char>, Seq<char>>;

    closed spec fn view(&self) -> Map<Seq<char>, Seq<char>> {
        entries_map(self.entries@)
    }
}

proof fn lemma_entries_map_contains(s: Seq<(String, String)>, k: Seq<char>)
    ensures
        entries_map(s).contains_key(k) <==> (exists|i: int| 0 <= i < s.len() && s[i].0@ == k),
    decreases s.len(),
{
    if s.len() > 0 {
        lemma_entries_map_contains(s.drop_last(), k);
        if s.last().0@ == k {
            assert(s[s.len() - 1].0@ == k);
        } else {
            if exists|i: int| 0 <= i < s.len() && s[i].0@ == k {
                let i = choose|i: int| 0 <= i < s.len() && s[i].0@ == k;
                assert(s.drop_last()[i] == s[i]);
            }
            if exists|i: int| 0 <= i < s.drop_last().len() && s.drop_last()[i].0@ == k {
                let i = choose|i: int| 0 <= i < s.drop_last().len() && s.drop_last()[i].0@ == k;
                assert(s[i] == s.drop_last()[i]);
            }
        }
    }
}

proof fn lemma_unique_keys_drop_last(s: Seq<(String, String)>)
    requires
        unique_keys(s),
        s.len() > 0,
    ensures
        unique_keys(s.drop_last()),
{
    assert forall|i: int, j: int| 0 <= i < j < s.drop_last().len() implies s.drop_last()[i].0@
        != s.drop_last()[j].0@ by {
        assert(s.drop_last()[i] == s[i]);
        assert(s.drop_last()[j] == s[j]);
    }
}

proof fn lemma_entries_map_value(s: Seq<(String, String)>, i: int)
    requires
        unique_keys(s),
        0 <= i < s.len(),
    ensures
        entries_map(s).contains_key(s[i].0@),
        entries_map(s)[s[i].0@] == s[i].1@,
    decreases s.len(),
{
    if i < s.len() - 1 {
        lemma_unique_keys_drop_last(s);
        lemma_entries_map_value(s.drop_last(), i);
        assert(s.drop_last()[i] == s[i]);
        assert(s[i].0@ != s.last().0@);
    }
}

proof fn lemma_entries_map_remove(s: Seq<(String, String)>, i: int)
    requires
        unique_keys(s),
        0 <= i < s.len(),
    ensures
        entries_map(s.remove(i)) == entries_map(s).remove(s[i].0@),
    decreases s.len(),
{
    let k = s[i].0@;
    lemma_unique_keys_drop_last(s);
    if i == s.len() - 1 {
        assert(s.remove(i) =~= s.drop_last());
        lemma_entries_map_contains(s.drop_last(), k);
        assert forall|j: int| 0 <= j < s.drop_last().len() implies s.drop_last()[j].0@ != k by {
            assert(s.drop_last()[j] == s[j]);
        }
        assert(!entries_map(s.drop_last()).contains_key(k));
        assert(entries_map(s.drop_last()).insert(k, s.last().1@).remove(k) =~= entries_map(
            s.drop_last(),
        ));
    } else {
        let sr = s.remove(i);
        assert(sr.drop_last() =~= s.drop_last().remove(i));
        assert(sr.last() == s.last());
        assert(s.drop_last()[i] == s[i]);
        lemma_entries_map_remove(s.drop_last(), i);
        assert(k != s.last().0@);
        assert(entries_map(s.drop_last()).remove(k).insert(s.last().0@, s.last().1@)
            =~= entries_map(s.drop_last()).insert(s.last().0@, s.last().1@).remove(k));
    }
}

impl KeyStore {
    /// The store holds no repeated service name.
    pub closed spec fn wf(&self) -> bool {
        unique_keys(self.entries@)
    }

    /// A store with no registrations.
    pub fn new() -> (r: KeyStore)
        ensures
            r.wf(),
            r@ == Map::<Seq<char>, Seq<char>>::empty(),
    {
        KeyStore { entries: Vec::new() }
    }

    /// Reads a store out of the bytes of its file: an empty file is an empty
    /// store, anything else must be a JSON object of strings, and anything
    /// else at all is reported as corruption.
    pub fn load(content: &[u8]) -> (r: Result<KeyStore, Error>)
        ensures
            r is Ok == store_contents(content@) is Some,
            (match r {
                Ok(st) => st.wf() && st@ == store_contents(content@)->Some_0,
                Err(e) => e == Error::StoreCorrupted,
            }),
    {
        if content.len() == 0 {
            Ok(KeyStore::new())
        } else {
            match parse_store_bytes(content) {
                Some(entries) => Ok(KeyStore { entries }),
                None => Err(Error::StoreCorrupted),
            }
        }
    }

    /// Renders the store as the bytes its file must hold: a JSON object that
    /// parses back to exactly this store's mapping.
    pub fn save(&self) -> (r: Vec<u8>)
        ensures
            json_store(r@) == Some(self@),
    {
        render_store_bytes(&self.entries)
    }

    /// The index of the entry for `service`, if the store has one.
    fn find_index(&self, service: &String) -> (r: Option<usize>)
        ensures
            (match r {
                Some(i) => i < self.entries@.len() && self.entries@[i as int].0@ == service@,
                None => forall|i: int|
                    0 <= i < self.entries@.len() ==> self.entries@[i].0@ != service@,
            }),
    {
        let n = self.entries.len();
        let mut i: usize = 0;
        while i < n
            invariant
                n == self.entries@.len(),
                i <= n,
                forall|j: int| 0 <= j < i ==> self.entries@[j].0@ != service@,
            decreases n - i,
        {
            if self.entries[i].0 == *service {
                return Some(i);
            }
            i = i + 1;
        }
        None
    }

    /// Whether `service` is registered.
    pub fn contains(&self, service: &String) -> (r: bool)
        requires
            self.wf(),
        ensures
            r == self@.contains_key(service@),
    {
        proof {
            lemma_entries_map_contains(self.entries@, service@);
        }
        match self.find_index(service) {
            Some(_) => true,
            None => false,
        }
    }

    /// The secret registered for `service`, or `None` if the service is
    /// unknown; the store is left as it was either way.
    pub fn lookup(&self, service: &String) -> (r: Option<String>)
        requires
            self.wf(),
        ensures
            (match r {
                Some(secret) => self@.contains_key(service@) && secret@ == self@[service@],
                None => !self@.contains_key(service@),
            }),
    {
        proof {
            lemma_entries_map_contains(self.entries@, service@);
        }
        match self.find_index(service) {
            Some(i) => {
                proof {
                    lemma_entries_map_value(self.entries@, i as int);
                }
                Some(self.entries[i].1.clone())
            },
            None => None,
        }
    }

    /// Registers `service` with `secret` normalized to lowercase. Fails with
    /// `ServiceAlreadyExists`, leaving the store as it was, exactly when the
    /// service is already registered.
    pub fn insert(&mut self, service: String, secret: &String) -> (r: Result<(), Error>)
        requires
            old(self).wf(),
        ensures
            final(self).wf(),
            r is Ok == !old(self)@.contains_key(service@),
            (match r {
                Ok(u) => final(self)@ == old(self)@.insert(service@, lower_of(secret@)),
                Err(e) => e == Error::ServiceAlreadyExists && final(self)@ == old(self)@,
            }),
    {
        proof {
            lemma_entries_map_contains(self.entries@, service@);
        }
        match self.find_index(&service) {
            Some(_) => Err(Error::ServiceAlreadyExists),
            None => {
                let ghost pre = self.entries@;
                let low = to_lowercase(secret);
                self.entries.push((service, low));
                proof {
                    assert(self.entries@.drop_last() =~= pre);
                    assert forall|i: int, j: int|
                        0 <= i < j < self.entries@.len() implies self.entries@[i].0@
                        != self.entries@[j].0@ by {
                        if j < pre.len() {
                            assert(self.entries@[i] == pre[i]);
                            assert(self.entries@[j] == pre[j]);
                        } else {
                            assert(self.entries@[i] == pre[i]);
                            assert(pre[i].0@ != service@);
                        }
                    }
                }
                Ok(())
            },
        }
    }

    /// Deletes the registration of `service`. Fails with `ServiceNotFound`,
    /// leaving the store as it was, exactly when the service is unknown.
    pub fn remove(&mut self, service: &String) -> (r: Result<(), Error>)
        requires
            old(self).wf(),
        ensures
            final(self).wf(),
            r is Ok == old(self)@.contains_key(service@),
            (match r {
                Ok(u) => final(self)@ == old(self)@.remove(service@),
                Err(e) => e == Error::ServiceNotFound && final(self)@ == old(self)@,
            }),
    {
        proof {
            lemma_entries_map_contains(self.entries@, service@);
        }
        match self.find_index(service) {
            Some(i) => {
                let ghost pre = self.entries@;
                proof {
                    lemma_entries_map_remove(pre, i as int);
                }
                self.entries.remove(i);
                proof {
                    assert forall|a: int, b: int|
                        0 <= a < b < self.entries@.len() implies self.entries@[a].0@
                        != self.entries@[b].0@ by {
                        if b < i {
                            assert(self.entries@[a] == pre[a]);
                            assert(self.entries@[b] == pre[b]);
                        } else if a < i {
                            assert(self.entries@[a] == pre[a]);
                            assert(self.entries@[b] == pre[b + 1]);
                        } else {
                            assert(self.entries@[a] == pre[a + 1]);
                            assert(self.entries@[b] == pre[b + 1]);
                        }
                    }
                }
                Ok(())
            },
            None => Err(Error::ServiceNotFound),
        }
    }
}

/// Looks the secret for `service` up in a store file's bytes: the load half
/// of the generate command. An unknown service is not an error here; the
/// caller turns `None` into its own report.
pub fn get_key(content: &[u8], service: &String) -> (r: Result<Option<String>, Error>)
    ensures
        r is Ok == store_contents(content@) is Some,
        (match r {
            Ok(found) => (match found {
                Some(secret) => store_contents(content@)->Some_0.contains_key(service@)
                    && secret@ == store_contents(content@)->Some_0[service@],
                None => !store_contents(content@)->Some_0.contains_key(service@),
            }),
            Err(e) => e == Error::StoreCorrupted,
        }),
{
    match KeyStore::load(content) {
        Ok(st) => Ok(st.lookup(service)),
        Err(e) => Err(e),
    }
}

/// Registers `service` in a store file's bytes and returns the bytes to
/// write back: the full read-modify-write cycle of the new command. Nothing
/// is returned for writing when the store is corrupt or the service is
/// already present.
pub fn new_key(content: &[u8], service: String, secret: &String) -> (r: Result<Vec<u8>, Error>)
    ensures
        r is Ok == (store_contents(content@) is Some && !store_contents(
            content@,
        )->Some_0.contains_key(service@)),
        (match r {
            Ok(bytes) => json_store(bytes@) == Some(
                store_contents(content@)->Some_0.insert(service@, lower_of(secret@)),
            ),
            Err(e) => (if store_contents(content@) is None {
                e == Error::StoreCorrupted
            } else {
                e == Error::ServiceAlreadyExists
            }),
        }),
{
    let mut st = match KeyStore::load(content) {
        Ok(st) => st,
        Err(e) => {
            return Err(e);
        },
    };
    match st.insert(service, secret) {
        Ok(_) => Ok(st.save()),
        Err(e) => Err(e),
    }
}

/// Deletes `service` from a store file's bytes and returns the bytes to
/// write back: the full read-modify-write cycle of the delete command.
/// Nothing is returned for writing when the store is corrupt or the service
/// is unknown.
pub fn delete_key(content: &[u8], service: &String) -> (r: Result<Vec<u8>, Error>)
    ensures
        r is Ok == (store_contents(content@) is Some && store_contents(
            content@,
        )->Some_0.contains_key(service@)),
        (match r {
            Ok(bytes) => json_store(bytes@) == Some(
                store_contents(content@)->Some_0.remove(service@),
            ),
            Err(e) => (if store_contents(content@) is None {
                e == Error::StoreCorrupted
            } else {
                e == Error::ServiceNotFound
            }),
        }),
{
    let mut st = match KeyStore::load(content) {
        Ok(st) => st,
        Err(e) => {
            return Err(e);
        },
    };
    match st.remove(service) {
        Ok(_) => Ok(st.save()),
        Err(e) => Err(e),
    }
}

/// Registering a service and then looking it up yields the lowercased secret,
/// and registering, deleting, and then looking it up finds nothing: stated
/// over the store mapping that `insert`, `remove` and `lookup` are specified
/// against.
pub proof fn lemma_round_trip(m: Map<Seq<char>, Seq<char>>, service: Seq<char>, secret: Seq<char>)
    requires
        !m.contains_key(service),
    ensures
        m.insert(service, lower_of(secret)).contains_key(service),
        m.insert(service, lower_of(secret))[service] == lower_of(secret),
        !m.insert(service, lower_of(secret)).remove(service).contains_key(service),
{
}

} // verus!
