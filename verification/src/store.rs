//! The collection store: one embedded sled database exposing five
//! independently namespaced collections, each identified by a stable
//! one-byte tag.
//!
//! Every call into sled goes through a trusted wrapper here. Each
//! collection's contents are modeled as a map from key bytes to value
//! bytes; the wrappers' contracts state what sled's own documentation
//! promises of `get`, `insert`, `remove`, `contains_key` and `iter`, and
//! nothing more. Collections are held exclusively (no handle is ever
//! cloned or re-opened), so the model cannot be bypassed through an alias.
#![allow(unused_imports)]
use vstd::prelude::*;

verus! {

/// Why a storage operation failed. Expected domain outcomes are never
/// errors; they are variants of `RegisterResult`.
#[derive(Clone, Copy, Debug, PartialEq, Eq, Structural)]
pub enum StorageError {
    /// The storage medium failed, or could not be opened at all.
    Io,
    /// A previously written record does not decode: data corruption.
    Corrupt,
    /// A uniqueness rule would be violated (corner name or tag, chat id).
    Conflict,
    /// A field is too long for its length prefix.
    TooLarge,
    /// An identifier space or a retry budget ran out.
    Exhausted,
    /// A registration payload splits a character, so it carries no name.
    BadPayload,
}

#[verifier::external_type_specification]
#[verifier::external_body]
pub struct ExSledDb(sled::Db);

/// What a collection holds: a map from key bytes to value bytes.
pub uninterp spec fn coll_entries(c: Collection) -> Map<Seq<u8>, Seq<u8>>;

/// What a sled database holds under a given tree name.
pub uninterp spec fn db_entries(db: sled::Db, name: Seq<u8>) -> Map<Seq<u8>, Seq<u8>>;

/// One namespaced collection of the store, wrapping a sled tree handle.
/// The handle is owned exclusively: nothing in the crate clones it or
/// re-opens its namespace, so this value is the namespace's only door.
#[verifier::external_body]
pub struct Collection {
    tree: sled::Tree,
}

impl View for Collection {
    type V = Map<Seq<u8>, Seq<u8>>;

    open spec fn view(&self) -> Map<Seq<u8>, Seq<u8>> {
        coll_entries(*self)
    }
}

impl Collection {
    /// Relies on `sled::Tree::get`: returns the value stored under the key,
    /// absence distinct from error.
    #[verifier::external_body]
    pub(crate) fn get(&self, key: &[u8]) -> (r: Result<Option<Vec<u8>>, StorageError>)
        ensures
            match r {
                Ok(v) => match v {
                    Option::Some(b) => coll_entries(*self).contains_key(key@) && coll_entries(
                        *self,
                    )[key@] == b@,
                    Option::None => !coll_entries(*self).contains_key(key@),
                },
                Err(e) => e == StorageError::Io,
            },
    {
        match self.tree.get(key) {
            Ok(Some(iv)) => Ok(Some(iv.to_vec())),
            Ok(None) => Ok(None),
            Err(_) => Err(StorageError::Io),
        }
    }

    /// Relies on `sled::Tree::contains_key`.
    #[verifier::external_body]
    pub(crate) fn contains(&self, key: &[u8]) -> (r: Result<bool, StorageError>)
        ensures
            match r {
                Ok(b) => b == coll_entries(*self).contains_key(key@),
                Err(e) => e == StorageError::Io,
            },
    {
        match self.tree.contains_key(key) {
            Ok(b) => Ok(b),
            Err(_) => Err(StorageError::Io),
        }
    }

    /// Relies on `sled::Tree::insert`: sets the key to the value, last
    /// writer wins. On error nothing is known of the namespace's state.
    #[verifier::external_body]
    pub(crate) fn put(&mut self, key: &[u8], value: &[u8]) -> (r: Result<(), StorageError>)
        ensures
            match r {
                Ok(_) => coll_entries(*final(self)) == coll_entries(*old(self)).insert(
                    key@,
                    value@,
                ),
                Err(e) => e == StorageError::Io,
            },
    {
        match self.tree.insert(key, value) {
            Ok(_) => Ok(()),
            Err(_) => Err(StorageError::Io),
        }
    }

    /// Relies on `sled::Tree::remove`: deletes the key's entry if present.
    /// On error nothing is known of the namespace's state.
    #[verifier::external_body]
    pub(crate) fn del(&mut self, key: &[u8]) -> (r: Result<(), StorageError>)
        ensures
            match r {
                Ok(_) => coll_entries(*final(self)) == coll_entries(*old(self)).remove(key@),
                Err(e) => e == StorageError::Io,
            },
    {
        match self.tree.remove(key) {
            Ok(_) => Ok(()),
            Err(_) => Err(StorageError::Io),
        }
    }

    /// Relies on `sled::Tree::iter`: yields every stored pair exactly once
    /// (sled iterates in ascending byte order of keys; the order is not
    /// relied on here).
    #[verifier::external_body]
    pub(crate) fn entries(&self) -> (r: Result<Vec<(Vec<u8>, Vec<u8>)>, StorageError>)
        ensures
            match r {
                Ok(es) => {
                    &&& forall|i: int|
                        0 <= i < es@.len() ==> #[trigger] coll_entries(*self).contains_key(
                            es@[i].0@,
                        ) && coll_entries(*self)[es@[i].0@] == es@[i].1@
                    &&& forall|k: Seq<u8>|
                        #[trigger] coll_entries(*self).contains_key(k) ==> exists|i: int|
                            0 <= i < es@.len() && #[trigger] (es@[i].0@) == k
                },
                Err(e) => e == StorageError::Io,
            },
    {
        let mut out: Vec<(Vec<u8>, Vec<u8>)> = Vec::new();
        for kv in self.tree.iter() {
            match kv {
                Ok((k, v)) => out.push((k.to_vec(), v.to_vec())),
                Err(_) => return Err(StorageError::Io),
            }
        }
        Ok(out)
    }

    /// Relies on `sled::Tree::iter`: walks every pair once, surfacing the
    /// first medium error; the eager startup check of the store.
    #[verifier::external_body]
    pub(crate) fn scan(&self) -> (r: Result<(), StorageError>)
        ensures
            match r {
                Ok(_) => true,
                Err(e) => e == StorageError::Io,
            },
    {
        for kv in self.tree.iter() {
            if kv.is_err() {
                return Err(StorageError::Io);
            }
        }
        Ok(())
    }
}

// ---------------------------------------------------------------------------
// Collection tags
// ---------------------------------------------------------------------------

/// The closed set of collections. Each maps to a stable one-byte namespace
/// tag, written out explicitly so the persisted mapping never depends on
/// memory layout.
#[derive(Clone, Copy, Debug, PartialEq, Eq, Structural)]
pub enum Tree {
    Revenues,
    Chats,
    Corners,
    Stats,
    Invites,
}

/// The persisted namespace tag of a collection.
pub open spec fn spec_tag(t: Tree) -> u8 {
    match t {
        Tree::Revenues => 0u8,
        Tree::Chats => 1u8,
        Tree::Corners => 2u8,
        Tree::Stats => 3u8,
        Tree::Invites => 4u8,
    }
}

/// Computes the persisted namespace tag of a collection.
pub fn tag_byte(t: Tree) -> (r: u8)
    ensures
        r == spec_tag(t),
{
    match t {
        Tree::Revenues => 0u8,
        Tree::Chats => 1u8,
        Tree::Corners => 2u8,
        Tree::Stats => 3u8,
        Tree::Invites => 4u8,
    }
}

// ---------------------------------------------------------------------------
// The store
// ---------------------------------------------------------------------------

/// Relies on `sled::Config::open` with a path: opens or creates the
/// embedded store there; fails only when the medium cannot be opened
/// (lock contention from another process, disk failure).
#[verifier::external_body]
fn sled_open(path: &str) -> (r: Result<sled::Db, StorageError>)
    ensures
        r matches Err(e) ==> e == StorageError::Io,
{
    match sled::Config::new().path(path).open() {
        Ok(db) => Ok(db),
        Err(_) => Err(StorageError::Io),
    }
}

/// Relies on `sled::Config::open` with `temporary(true)`: the store is
/// created at a fresh private path, so it holds nothing under any tree
/// name, and is removed again when dropped.
#[verifier::external_body]
fn sled_open_temporary() -> (r: Result<sled::Db, StorageError>)
    ensures
        match r {
            Ok(db) => forall|n: Seq<u8>|
                #[trigger] db_entries(db, n) == Map::<Seq<u8>, Seq<u8>>::empty(),
            Err(e) => e == StorageError::Io,
        },
{
    match sled::Config::new().temporary(true).open() {
        Ok(db) => Ok(db),
        Err(_) => Err(StorageError::Io),
    }
}

/// Relies on `sled::Db::open_tree`: opens or creates the namespace of the
/// given name; the handle reads and writes exactly what the store holds
/// under that name. Idempotent and safe to call repeatedly.
#[verifier::external_body]
fn open_collection(db: &sled::Db, tag: u8) -> (r: Result<Collection, StorageError>)
    ensures
        match r {
            Ok(c) => c@ == db_entries(*db, seq![tag]),
            Err(e) => e == StorageError::Io,
        },
{
    match db.open_tree([tag]) {
        Ok(t) => Ok(Collection { tree: t }),
        Err(_) => Err(StorageError::Io),
    }
}

/// The collection store: five namespaced collections over one embedded
/// sled database. Holding it by `&mut` is the critical section: every
/// multi-step mutation runs to completion before another can observe it.
pub struct DataBase {
    pub revenues: Collection,
    pub chats: Collection,
    pub corners: Collection,
    pub stats: Collection,
    pub invites: Collection,
}

/// The mathematical image of the store: one map per collection.
pub ghost struct DbV {
    pub revenues: Map<Seq<u8>, Seq<u8>>,
    pub chats: Map<Seq<u8>, Seq<u8>>,
    pub corners: Map<Seq<u8>, Seq<u8>>,
    pub stats: Map<Seq<u8>, Seq<u8>>,
    pub invites: Map<Seq<u8>, Seq<u8>>,
}

impl View for DataBase {
    type V = DbV;

    open spec fn view(&self) -> DbV {
        DbV {
            revenues: coll_entries(self.revenues),
            chats: coll_entries(self.chats),
            corners: coll_entries(self.corners),
            stats: coll_entries(self.stats),
            invites: coll_entries(self.invites),
        }
    }
}

impl DbV {
    /// The collection a tag addresses.
    pub open spec fn coll(self, t: Tree) -> Map<Seq<u8>, Seq<u8>> {
        match t {
            Tree::Revenues => self.revenues,
            Tree::Chats => self.chats,
            Tree::Corners => self.corners,
            Tree::Stats => self.stats,
            Tree::Invites => self.invites,
        }
    }

    /// The store with one collection's entry set.
    pub open spec fn with_put(self, t: Tree, k: Seq<u8>, v: Seq<u8>) -> DbV {
        match t {
            Tree::Revenues => DbV { revenues: self.revenues.insert(k, v), ..self },
            Tree::Chats => DbV { chats: self.chats.insert(k, v), ..self },
            Tree::Corners => DbV { corners: self.corners.insert(k, v), ..self },
            Tree::Stats => DbV { stats: self.stats.insert(k, v), ..self },
            Tree::Invites => DbV { invites: self.invites.insert(k, v), ..self },
        }
    }

    /// The store with one collection's entry removed.
    pub open spec fn with_del(self, t: Tree, k: Seq<u8>) -> DbV {
        match t {
            Tree::Revenues => DbV { revenues: self.revenues.remove(k), ..self },
            Tree::Chats => DbV { chats: self.chats.remove(k), ..self },
            Tree::Corners => DbV { corners: self.corners.remove(k), ..self },
            Tree::Stats => DbV { stats: self.stats.remove(k), ..self },
            Tree::Invites => DbV { invites: self.invites.remove(k), ..self },
        }
    }

    /// A store with nothing in any collection.
    pub open spec fn all_empty(self) -> bool {
        self.revenues == Map::<Seq<u8>, Seq<u8>>::empty() && self.chats == Map::<
            Seq<u8>,
            Seq<u8>,
        >::empty() && self.corners == Map::<Seq<u8>, Seq<u8>>::empty() && self.stats == Map::<
            Seq<u8>,
            Seq<u8>,
        >::empty() && self.invites == Map::<Seq<u8>, Seq<u8>>::empty()
    }
}

impl DataBase {
    /// Opens the persistent store at `path`, creating it if absent, and
    /// eagerly walks every collection once so that a corrupt medium is
    /// detected at startup rather than on first use. Fails only when the
    /// medium cannot be opened or the startup walk fails.
    pub fn open(path: &str) -> (r: Result<DataBase, StorageError>)
        ensures
            r matches Err(e) ==> e == StorageError::Io,
    {
        let db = match sled_open(path) {
            Ok(d) => d,
            Err(e) => return Err(e),
        };
        Self::assemble(&db)
    }

    /// Opens a fresh temporary store, which holds nothing and removes
    /// itself when dropped.
    pub fn open_temporary() -> (r: Result<DataBase, StorageError>)
        ensures
            match r {
                Ok(db) => db@.all_empty(),
                Err(e) => e == StorageError::Io,
            },
    {
        let db = match sled_open_temporary() {
            Ok(d) => d,
            Err(e) => return Err(e),
        };
        Self::assemble(&db)
    }

    /// Opens the five collections of a database and runs the startup walk.
    fn assemble(db: &sled::Db) -> (r: Result<DataBase, StorageError>)
        ensures
            match r {
                Ok(s) => {
                    &&& s@.revenues == db_entries(*db, seq![spec_tag(Tree::Revenues)])
                    &&& s@.chats == db_entries(*db, seq![spec_tag(Tree::Chats)])
                    &&& s@.corners == db_entries(*db, seq![spec_tag(Tree::Corners)])
                    &&& s@.stats == db_entries(*db, seq![spec_tag(Tree::Stats)])
                    &&& s@.invites == db_entries(*db, seq![spec_tag(Tree::Invites)])
                },
                Err(e) => e == StorageError::Io,
            },
    {
        let revenues = match open_collection(db, tag_byte(Tree::Revenues)) {
            Ok(c) => c,
            Err(e) => return Err(e),
        };
        let chats = match open_collection(db, tag_byte(Tree::Chats)) {
            Ok(c) => c,
            Err(e) => return Err(e),
        };
        let corners = match open_collection(db, tag_byte(Tree::Corners)) {
            Ok(c) => c,
            Err(e) => return Err(e),
        };
        let stats = match open_collection(db, tag_byte(Tree::Stats)) {
            Ok(c) => c,
            Err(e) => return Err(e),
        };
        let invites = match open_collection(db, tag_byte(Tree::Invites)) {
            Ok(c) => c,
            Err(e) => return Err(e),
        };
        let s = DataBase { revenues, chats, corners, stats, invites };
        if let Err(e) = s.revenues.scan() {
            return Err(e);
        }
        if let Err(e) = s.chats.scan() {
            return Err(e);
        }
        if let Err(e) = s.corners.scan() {
            return Err(e);
        }
        if let Err(e) = s.stats.scan() {
            return Err(e);
        }
        if let Err(e) = s.invites.scan() {
            return Err(e);
        }
        Ok(s)
    }

    /// Looks a key up in the collection behind a tag; absence is distinct
    /// from error.
    pub fn get(&self, t: Tree, key: &[u8]) -> (r: Result<Option<Vec<u8>>, StorageError>)
        ensures
            match r {
                Ok(v) => match v {
                    Option::Some(b) => self@.coll(t).contains_key(key@) && self@.coll(t)[key@]
                        == b@,
                    Option::None => !self@.coll(t).contains_key(key@),
                },
                Err(e) => e == StorageError::Io,
            },
    {
        match t {
            Tree::Revenues => self.revenues.get(key),
            Tree::Chats => self.chats.get(key),
            Tree::Corners => self.corners.get(key),
            Tree::Stats => self.stats.get(key),
            Tree::Invites => self.invites.get(key),
        }
    }

    /// Sets a key in the collection behind a tag; last writer wins.
    pub fn put(&mut self, t: Tree, key: &[u8], value: &[u8]) -> (r: Result<(), StorageError>)
        ensures
            match r {
                Ok(_) => final(self)@ == old(self)@.with_put(t, key@, value@),
                Err(e) => e == StorageError::Io,
            },
    {
        let r = match t {
            Tree::Revenues => self.revenues.put(key, value),
            Tree::Chats => self.chats.put(key, value),
            Tree::Corners => self.corners.put(key, value),
            Tree::Stats => self.stats.put(key, value),
            Tree::Invites => self.invites.put(key, value),
        };
        r
    }

    /// Removes a key from the collection behind a tag.
    pub fn del(&mut self, t: Tree, key: &[u8]) -> (r: Result<(), StorageError>)
        ensures
            match r {
                Ok(_) => final(self)@ == old(self)@.with_del(t, key@),
                Err(e) => e == StorageError::Io,
            },
    {
        let r = match t {
            Tree::Revenues => self.revenues.del(key),
            Tree::Chats => self.chats.del(key),
            Tree::Corners => self.corners.del(key),
            Tree::Stats => self.stats.del(key),
            Tree::Invites => self.invites.del(key),
        };
        r
    }
}

} // verus!
