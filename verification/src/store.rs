//! The document store: a concurrent map from URI to buffer with per-key
//! atomic operations. The map itself is scc's lock-per-bucket hash map,
//! taken on trust through the contracts below and modelled as a map from
//! URI strings to document contents; everything done to an entry's text is
//! verified code.

use vstd::prelude::*;
use crate::buffer::Buffer;
use crate::edits::{Edit, apply_edits_spec};
use crate::unicode::Encoding;

verus! {

/// scc's concurrent hash map, so that values of it can stand in fields.
#[verifier::external_type_specification]
#[verifier::external_body]
#[verifier::reject_recursive_types(K)]
#[verifier::reject_recursive_types(V)]
#[verifier::reject_recursive_types(H)]
pub struct ExSccHashMap<K, V, H>(scc::HashMap<K, V, H>)
    where
        H: std::hash::BuildHasher,
;

/// The map type the store is built on.
pub type DocMap = scc::HashMap<String, Buffer>;

/// What the store's map holds: each open document's URI, mapped to its text.
pub uninterp spec fn store_map(m: DocMap) -> Map<Seq<char>, Seq<char>>;

/// The contents of a store with no open document.
pub open spec fn no_docs() -> Map<Seq<char>, Seq<char>> {
    Map::empty()
}

/// Relies on `scc::HashMap::new`: creates an empty map.
#[verifier::external_body]
fn scc_new() -> (r: DocMap)
    ensures
        store_map(r) == no_docs(),
{
    scc::HashMap::new()
}

/// Relies on `scc::HashMap::upsert_sync`: binds the key to the value,
/// replacing any value the key already held; other entries are untouched.
#[verifier::external_body]
fn scc_upsert(m: &mut DocMap, key: String, val: Buffer)
    ensures
        store_map(*final(m)) == store_map(*old(m)).insert(key@, val@),
{
    m.upsert_sync(key, val);
}

/// Relies on `scc::HashMap::read_sync`: runs the closure on the value under
/// the key and hands back its result, or `None` when the key is absent. The
/// closure only takes a verified copy of the entry's text.
#[verifier::external_body]
fn scc_get(m: &DocMap, key: &String) -> (r: Option<Buffer>)
    ensures
        match r {
            Some(b) => store_map(*m).contains_key(key@) && b@ == store_map(*m)[key@],
            None => !store_map(*m).contains_key(key@),
        },
{
    m.read_sync(key, |_, v: &Buffer| v.snapshot())
}

/// Relies on `scc::HashMap::remove_sync`: removes the entry under the key,
/// returning whether one was there; other entries are untouched.
#[verifier::external_body]
fn scc_remove(m: &mut DocMap, key: &String) -> (r: bool)
    ensures
        store_map(*final(m)) == store_map(*old(m)).remove(key@),
        r == store_map(*old(m)).contains_key(key@),
{
    m.remove_sync(key).is_some()
}

/// Relies on `scc::HashMap::update_sync`: runs the closure exactly once on
/// the value under the key, with exclusive access to that one entry, and
/// returns `None` when the key is absent; other entries are untouched. The
/// closure only calls the verified `Buffer::apply_edits`, whose contract
/// gives the new text named here.
#[verifier::external_body]
fn scc_update_edits(m: &mut DocMap, key: &String, enc: Encoding, edits: &Vec<Edit>) -> (r: bool)
    ensures
        store_map(*final(m)) == if store_map(*old(m)).contains_key(key@) {
            store_map(*old(m)).insert(
                key@,
                apply_edits_spec(enc, store_map(*old(m))[key@], edits@),
            )
        } else {
            store_map(*old(m))
        },
        r == store_map(*old(m)).contains_key(key@),
{
    m.update_sync(key, |_, buf: &mut Buffer| buf.apply_edits(enc, edits)).is_some()
}

/// A concurrent mapping from document URI to its current text. Operations on
/// distinct URIs never contend; operations on one URI are linearized by the
/// underlying map, so each contract below describes one atomic step.
pub struct DocumentStore {
    docs: DocMap,
}

impl View for DocumentStore {
    type V = Map<Seq<char>, Seq<char>>;

    closed spec fn view(&self) -> Map<Seq<char>, Seq<char>> {
        store_map(self.docs)
    }
}

impl DocumentStore {
    /// A store with no open document.
    pub fn new() -> (r: DocumentStore)
        ensures
            r@ == no_docs(),
    {
        DocumentStore { docs: scc_new() }
    }

    /// Opens a document: binds `uri` to `text`, unconditionally. A duplicate
    /// open replaces the previous content — last write wins.
    pub fn open(&mut self, uri: String, text: &str)
        ensures
            final(self)@ == old(self)@.insert(uri@, text@),
    {
        let buf = Buffer::from_str(text);
        scc_upsert(&mut self.docs, uri, buf);
    }

    /// A point-in-time copy of the document under `uri`, or `None` when it
    /// is not open.
    pub fn get(&self, uri: &String) -> (r: Option<Buffer>)
        ensures
            match r {
                Some(b) => self@.contains_key(uri@) && b@ == self@[uri@],
                None => !self@.contains_key(uri@),
            },
    {
        scc_get(&self.docs, uri)
    }

    /// Closes a document: removes the entry under `uri`. Closing a URI that
    /// was never opened is a no-op, not a fault; the result says whether an
    /// entry was there.
    pub fn close(&mut self, uri: &String) -> (r: bool)
        ensures
            final(self)@ == old(self)@.remove(uri@),
            r == old(self)@.contains_key(uri@),
    {
        scc_remove(&mut self.docs, uri)
    }

    /// Applies a batch of edits, strictly in list order, to the document
    /// under `uri`, inside one per-key transaction. When `uri` is not open
    /// this is a no-op — reporting that is the caller's business; the result
    /// says whether the document was open.
    pub fn apply_changes(&mut self, uri: &String, enc: Encoding, edits: &Vec<Edit>) -> (r: bool)
        ensures
            final(self)@ == if old(self)@.contains_key(uri@) {
                old(self)@.insert(uri@, apply_edits_spec(enc, old(self)@[uri@], edits@))
            } else {
                old(self)@
            },
            r == old(self)@.contains_key(uri@),
    {
        scc_update_edits(&mut self.docs, uri, enc, edits)
    }
}

} // verus!
