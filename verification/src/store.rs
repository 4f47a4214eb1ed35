//! The conversation store: an embedded key-value engine with two independent
//! namespaces, one for conversation configurations and one for histories,
//! plus the root namespace used for small caches. Each namespace behaves as
//! a map from conversation id to record bytes; the engine itself is trusted
//! through the small wrappers below, and everything above them is verified.

use vstd::prelude::*;

verus! {

#[verifier::external_type_specification]
#[verifier::external_body]
pub struct ExDb(sled::Db);

#[verifier::external_type_specification]
#[verifier::external_body]
pub struct ExTree(sled::Tree);

/// The contents of one namespace tree: conversation id to record bytes.
pub uninterp spec fn tree_entries(t: sled::Tree) -> Map<u128, Seq<u8>>;

/// The contents of the engine's root namespace, keyed by plain string keys.
pub uninterp spec fn root_entries(db: sled::Db) -> Map<Seq<char>, Seq<u8>>;

/// Relies on sled::Db::open_tree: trees of distinct names are independent.
#[verifier::external_body]
fn open_tree(db: &sled::Db, name: &str) -> (r: Result<sled::Tree, String>) {
    db.open_tree(name).map_err(|e| e.to_string())
}

/// Relies on sled::Tree::get: returns the value stored under the key, here
/// the conversation id rendered in its canonical uuid string form.
#[verifier::external_body]
fn tree_get(t: &sled::Tree, id: u128) -> (r: Result<Option<Vec<u8>>, String>)
    ensures
        r matches Ok(v) ==> {
            &&& v is Some <==> tree_entries(*t).contains_key(id)
            &&& (v matches Some(b) ==> tree_entries(*t)[id] == b@)
        },
{
    match t.get(uuid::Uuid::from_u128(id).to_string().as_str()) {
        Ok(Some(iv)) => Ok(Some(iv.to_vec())),
        Ok(None) => Ok(None),
        Err(e) => Err(e.to_string()),
    }
}

/// Relies on sled::Tree::insert: sets the value under the key; on success
/// the tree holds exactly the previous entries plus this binding.
#[verifier::external_body]
fn tree_insert(t: &mut sled::Tree, id: u128, value: &[u8]) -> (r: Result<(), String>)
    ensures
        r is Ok ==> tree_entries(*final(t)) == tree_entries(*old(t)).insert(id, value@),
{
    t.insert(uuid::Uuid::from_u128(id).to_string().as_str(), value).map(|_| ()).map_err(|e|
        e.to_string())
}

/// Relies on sled::Tree::remove: on success the binding for the key is gone.
#[verifier::external_body]
fn tree_remove(t: &mut sled::Tree, id: u128) -> (r: Result<(), String>)
    ensures
        r is Ok ==> tree_entries(*final(t)) == tree_entries(*old(t)).remove(id),
{
    t.remove(uuid::Uuid::from_u128(id).to_string().as_str()).map(|_| ()).map_err(|e|
        e.to_string())
}

/// Relies on sled::Db::insert on the root tree.
#[verifier::external_body]
fn db_insert(db: &mut sled::Db, key: &str, value: &[u8]) -> (r: Result<(), String>)
    ensures
        r is Ok ==> root_entries(*final(db)) == root_entries(*old(db)).insert(key@, value@),
{
    (&**db).insert(key, value).map(|_| ()).map_err(|e| e.to_string())
}

/// Relies on sled::Db::get on the root tree.
#[verifier::external_body]
fn db_get(db: &sled::Db, key: &str) -> (r: Result<Option<Vec<u8>>, String>)
    ensures
        r matches Ok(v) ==> {
            &&& v is Some <==> root_entries(*db).contains_key(key@)
            &&& (v matches Some(b) ==> root_entries(*db)[key@] == b@)
        },
{
    match (&**db).get(key) {
        Ok(Some(iv)) => Ok(Some(iv.to_vec())),
        Ok(None) => Ok(None),
        Err(e) => Err(e.to_string()),
    }
}

/// What it means for `ps` to list exactly the entries of namespace contents
/// `m`: every listed pair is an entry of `m`, every key of `m` is listed,
/// and no key is listed twice.
pub open spec fn lists_entries(m: Map<u128, Seq<u8>>, ps: Seq<(u128, Vec<u8>)>) -> bool {
    &&& forall|i: int|
        #![trigger ps[i]]
        0 <= i < ps.len() ==> m.contains_key(ps[i].0) && m[ps[i].0] == ps[i].1@
    &&& forall|k: u128|
        #[trigger] m.contains_key(k) ==> exists|i: int| 0 <= i < ps.len() && ps[i].0 == k
    &&& forall|i: int, j: int| #![trigger ps[i], ps[j]] 0 <= i < j < ps.len() ==> ps[i].0 != ps[j].0
}

/// One opened conversation store. It owns its engine handle and the two
/// namespace trees; a process opens it once and shares it.
pub struct Store {
    db: sled::Db,
    config_tree: sled::Tree,
    history_tree: sled::Tree,
}

impl Store {
    pub closed spec fn configs(self) -> Map<u128, Seq<u8>> {
        tree_entries(self.config_tree)
    }

    pub closed spec fn histories(self) -> Map<u128, Seq<u8>> {
        tree_entries(self.history_tree)
    }

    pub closed spec fn root(self) -> Map<Seq<char>, Seq<u8>> {
        root_entries(self.db)
    }

    /// Open the two namespaces on an engine handle the caller supplies.
    pub fn open(db: sled::Db) -> (r: Result<Store, String>) {
        let config_tree = match open_tree(&db, "chat_config") {
            Ok(t) => t,
            Err(e) => {
                return Err(e);
            },
        };
        let history_tree = match open_tree(&db, "chat_history") {
            Ok(t) => t,
            Err(e) => {
                return Err(e);
            },
        };
        Ok(Store { db, config_tree, history_tree })
    }

    pub fn get_config_record(&self, id: u128) -> (r: Result<Option<Vec<u8>>, String>)
        ensures
            r matches Ok(v) ==> {
                &&& v is Some <==> self.configs().contains_key(id)
                &&& (v matches Some(b) ==> self.configs()[id] == b@)
            },
    {
        tree_get(&self.config_tree, id)
    }

    pub fn put_config_record(&mut self, id: u128, value: &[u8]) -> (r: Result<(), String>)
        ensures
            r is Ok ==> final(self).configs() == old(self).configs().insert(id, value@),
            final(self).histories() == old(self).histories(),
            final(self).root() == old(self).root(),
    {
        tree_insert(&mut self.config_tree, id, value)
    }

    pub fn remove_config_record(&mut self, id: u128) -> (r: Result<(), String>)
        ensures
            r is Ok ==> final(self).configs() == old(self).configs().remove(id),
            final(self).histories() == old(self).histories(),
            final(self).root() == old(self).root(),
    {
        tree_remove(&mut self.config_tree, id)
    }

    /// Relies on sled::Tree::iter: it yields every entry of the
    /// configuration namespace, each key once. A key is handed back as the
    /// conversation id it was written under by parsing the canonical uuid
    /// string form; an entry whose key is not such a string is no entry of
    /// the namespace and is skipped.
    #[verifier::external_body]
    pub fn config_entries(&self) -> (r: Result<Vec<(u128, Vec<u8>)>, String>)
        ensures
            r matches Ok(ps) ==> lists_entries(self.configs(), ps@),
    {
        let mut out: Vec<(u128, Vec<u8>)> = Vec::new();
        for item in self.config_tree.iter() {
            let (k, v) = match item { Ok(kv) => kv, Err(e) => return Err(e.to_string()) };
            if let Some(u) = core::str::from_utf8(&k)
                .ok()
                .and_then(|s| uuid::Uuid::try_parse(s).ok().filter(|u| u.to_string() == s))
            {
                out.push((u.as_u128(), v.to_vec()));
            }
        }
        Ok(out)
    }

    pub fn get_history_record(&self, id: u128) -> (r: Result<Option<Vec<u8>>, String>)
        ensures
            r matches Ok(v) ==> {
                &&& v is Some <==> self.histories().contains_key(id)
                &&& (v matches Some(b) ==> self.histories()[id] == b@)
            },
    {
        tree_get(&self.history_tree, id)
    }

    pub fn put_history_record(&mut self, id: u128, value: &[u8]) -> (r: Result<(), String>)
        ensures
            r is Ok ==> final(self).histories() == old(self).histories().insert(id, value@),
            final(self).configs() == old(self).configs(),
            final(self).root() == old(self).root(),
    {
        tree_insert(&mut self.history_tree, id, value)
    }

    pub fn put_root_record(&mut self, key: &str, value: &[u8]) -> (r: Result<(), String>)
        ensures
            r is Ok ==> final(self).root() == old(self).root().insert(key@, value@),
            final(self).configs() == old(self).configs(),
            final(self).histories() == old(self).histories(),
    {
        db_insert(&mut self.db, key, value)
    }

    pub fn get_root_record(&self, key: &str) -> (r: Result<Option<Vec<u8>>, String>)
        ensures
            r matches Ok(v) ==> {
                &&& v is Some <==> self.root().contains_key(key@)
                &&& (v matches Some(b) ==> self.root()[key@] == b@)
            },
    {
        db_get(&self.db, key)
    }
}

} // verus!
