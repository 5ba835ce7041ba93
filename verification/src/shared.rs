//! The concurrency-safe wrappers: each store behind a reader/writer
//! lock, reachable from any number of simultaneous request handlers.
//! Every operation is a single atomic transition, taken under scoped
//! acquisition: a writer excludes all other readers and writers for the
//! duration of its one operation, so no reader ever observes a store in
//! an intermediate state, and the store's invariant holds in every state
//! the lock ever holds.

use vstd::prelude::*;
use vstd::rwlock::RwLock;
use vstd::rwlock::RwLockPredicate;
use crate::bounded::Clipboard;
use crate::bounded::Entry;
use crate::bounded::views_of;
use crate::ident::spec_parse_id;
use crate::keyed::FoundEntry;
use crate::keyed::KeyedStore;
use crate::keyed::LookupError;

verus! {

/// The lock invariant of the shared bounded store: well formed, with the
/// fixed capacity chosen at construction.
pub struct ClipboardInv {
    pub capacity: nat,
}

impl RwLockPredicate<Clipboard> for ClipboardInv {
    open spec fn inv(self, v: Clipboard) -> bool {
        v.wf() && v.capacity_spec() == self.capacity
    }
}

/// The bounded store behind a reader/writer lock.
pub struct SharedClipboard {
    lock: RwLock<Clipboard, ClipboardInv>,
}

impl SharedClipboard {
    /// The fixed capacity that every state of the shared store obeys.
    pub closed spec fn capacity_spec(&self) -> nat {
        self.lock.pred().capacity
    }

    pub fn new(capacity: usize) -> (s: SharedClipboard)
        ensures
            s.capacity_spec() == capacity,
    {
        let c = Clipboard::new(capacity);
        SharedClipboard { lock: RwLock::new(c, Ghost(ClipboardInv { capacity: capacity as nat })) }
    }

    /// One atomic add: the whole append-and-evict step happens under the
    /// write lock. Never fails.
    pub fn add(&self, entry: Entry) {
        let (mut c, handle) = self.lock.acquire_write();
        c.add(entry);
        handle.release_write(c);
    }

    /// One atomic snapshot, taken under the read lock: a copy of all
    /// current entries, oldest first. Its length never exceeds the fixed
    /// capacity, whatever adds race with it.
    pub fn snapshot(&self) -> (r: Vec<Entry>)
        ensures
            views_of(r@).len() <= self.capacity_spec(),
    {
        let handle = self.lock.acquire_read();
        let r = handle.borrow().get_entries();
        handle.release_read();
        r
    }
}

/// The lock invariant of the shared keyed store: every store state is
/// acceptable, the lock serves atomicity alone.
pub struct KeyedInv {}

impl RwLockPredicate<KeyedStore> for KeyedInv {
    open spec fn inv(self, v: KeyedStore) -> bool {
        true
    }
}

/// The keyed store behind a reader/writer lock.
pub struct SharedKeyedStore {
    lock: RwLock<KeyedStore, KeyedInv>,
}

impl SharedKeyedStore {
    pub fn new() -> (s: SharedKeyedStore) {
        SharedKeyedStore { lock: RwLock::new(KeyedStore::new(), Ghost(KeyedInv {})) }
    }

    /// One atomic add under the write lock: the entry is inserted under a
    /// freshly minted identifier, which is returned. Never fails.
    pub fn add(&self, data: String) -> (id: u128) {
        let (mut s, handle) = self.lock.acquire_write();
        let id = s.add(data);
        handle.release_write(s);
        id
    }

    /// One atomic lookup by identifier text under the read lock. The
    /// result is `BadRequest` exactly when the text is not a well-formed
    /// identifier, whatever the store holds; a found entry carries its
    /// identifier and data as some consistent state mapped them.
    pub fn fetch(&self, id_text: &[u8]) -> (r: Result<FoundEntry, LookupError>)
        ensures
            r == Err::<FoundEntry, LookupError>(LookupError::BadRequest) <==> spec_parse_id(
                id_text@,
            ) == None::<u128>,
            r matches Ok(e) ==> spec_parse_id(id_text@) == Some(e.id),
    {
        let handle = self.lock.acquire_read();
        let r = handle.borrow().fetch(id_text);
        handle.release_read();
        r
    }
}

} // verus!
