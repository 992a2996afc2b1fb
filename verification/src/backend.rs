//! The embedded key-ordered store behind the engine. Every call into the
//! `sled` crate goes through one of the trusted wrappers below; each
//! wrapper's contract states, over the named contents of a tree, what the
//! crate's own source shows for that call, and the rest of the library is
//! verified against those contracts.

use vstd::prelude::*;

use crate::codec::{lex_lt, next_count, next_count_spec};

verus! {

#[verifier::external_type_specification]
#[verifier::external_body]
pub struct ExSledError(sled::Error);

#[verifier::external_type_specification]
#[verifier::external_body]
pub struct ExSledDb(sled::Db);

#[verifier::external_type_specification]
#[verifier::external_body]
pub struct ExSledTree(sled::Tree);

/// What one tree holds: its whole key-to-value map.
pub uninterp spec fn tree_model(t: sled::Tree) -> Map<Seq<u8>, Seq<u8>>;

/// What the store's default keyspace holds (the schema metadata lives
/// there): its whole key-to-value map.
pub uninterp spec fn db_model(db: sled::Db) -> Map<Seq<u8>, Seq<u8>>;

/// Relies on `sled::Config::open` with a path: opens the persistent store
/// rooted at `path`, creating it when absent. What it holds afterwards is
/// whatever the disk held.
#[verifier::external_body]
pub(crate) fn open_db_at(path: &str) -> Result<sled::Db, sled::Error> {
    sled::Config::new().path(path).open()
}

/// Relies on `sled::Config::open` with `temporary`: opens a transient
/// store on fresh storage, so its default keyspace starts empty.
#[verifier::external_body]
pub(crate) fn open_db_temp() -> (r: Result<sled::Db, sled::Error>)
    ensures
        match r {
            Ok(db) => db_model(db) == Map::<Seq<u8>, Seq<u8>>::empty(),
            Err(_) => true,
        },
{
    sled::Config::new().temporary(true).open()
}

/// Relies on `sled::Db::open_tree`: opens or creates the named keyspace.
/// What the returned tree holds is whatever was persisted under that name.
#[verifier::external_body]
pub(crate) fn open_tree(db: &sled::Db, name: &[u8]) -> Result<sled::Tree, sled::Error> {
    db.open_tree(name)
}

/// Relies on `sled::Db::generate_id`: a monotonic counter that never hands
/// out the same value twice for one store. The callers check freshness
/// against the trees themselves, so nothing is assumed of the value.
#[verifier::external_body]
pub(crate) fn db_generate_id(db: &sled::Db) -> Result<u64, sled::Error> {
    db.generate_id()
}

/// Relies on `sled::Tree::get` through the store's default keyspace:
/// returns the value stored under `key`, if any.
#[verifier::external_body]
pub(crate) fn db_get(db: &sled::Db, key: &[u8]) -> (r: Result<Option<Vec<u8>>, sled::Error>)
    ensures
        match r {
            Ok(Some(v)) => db_model(*db).contains_key(key@) && v@ == db_model(*db)[key@],
            Ok(None) => !db_model(*db).contains_key(key@),
            Err(_) => true,
        },
{
    match db.get(key) {
        Ok(Some(v)) => Ok(Some(v.to_vec())),
        Ok(None) => Ok(None),
        Err(e) => Err(e),
    }
}

/// Relies on `sled::Tree::insert` through the store's default keyspace:
/// sets `key` to `value` and returns the previous value. On failure the
/// single-key write either happened or did not; nothing else moves.
#[verifier::external_body]
pub(crate) fn db_insert(db: &mut sled::Db, key: &[u8], value: &[u8]) -> (r: Result<
    Option<Vec<u8>>,
    sled::Error,
>)
    ensures
        match r {
            Ok(prev) => {
                &&& db_model(*final(db)) == db_model(*old(db)).insert(key@, value@)
                &&& match prev {
                    Some(p) => db_model(*old(db)).contains_key(key@) && p@ == db_model(*old(db))[key@],
                    None => !db_model(*old(db)).contains_key(key@),
                }
            },
            Err(_) => db_model(*final(db)) == db_model(*old(db)) || db_model(*final(db)) == db_model(
                *old(db),
            ).insert(key@, value@),
        },
{
    match db.insert(key, value) {
        Ok(Some(p)) => Ok(Some(p.to_vec())),
        Ok(None) => Ok(None),
        Err(e) => Err(e),
    }
}

/// Relies on `sled::Tree::get`: returns the value stored under `key`, if
/// any.
#[verifier::external_body]
pub(crate) fn tree_get(t: &sled::Tree, key: &[u8]) -> (r: Result<Option<Vec<u8>>, sled::Error>)
    ensures
        match r {
            Ok(Some(v)) => tree_model(*t).contains_key(key@) && v@ == tree_model(*t)[key@],
            Ok(None) => !tree_model(*t).contains_key(key@),
            Err(_) => true,
        },
{
    match t.get(key) {
        Ok(Some(v)) => Ok(Some(v.to_vec())),
        Ok(None) => Ok(None),
        Err(e) => Err(e),
    }
}

/// Relies on `sled::Tree::insert`: sets `key` to `value` and returns the
/// previous value. On failure the single-key write either happened or did
/// not; nothing else moves.
#[verifier::external_body]
pub(crate) fn tree_insert(t: &mut sled::Tree, key: &[u8], value: &[u8]) -> (r: Result<
    Option<Vec<u8>>,
    sled::Error,
>)
    ensures
        match r {
            Ok(prev) => {
                &&& tree_model(*final(t)) == tree_model(*old(t)).insert(key@, value@)
                &&& match prev {
                    Some(p) => tree_model(*old(t)).contains_key(key@) && p@ == tree_model(
                        *old(t),
                    )[key@],
                    None => !tree_model(*old(t)).contains_key(key@),
                }
            },
            Err(_) => tree_model(*final(t)) == tree_model(*old(t)) || tree_model(*final(t))
                == tree_model(*old(t)).insert(key@, value@),
        },
{
    match t.insert(key, value) {
        Ok(Some(p)) => Ok(Some(p.to_vec())),
        Ok(None) => Ok(None),
        Err(e) => Err(e),
    }
}

/// Relies on `sled::Tree::update_and_fetch`: one atomic
/// read-compute-compare-and-swap loop over a single key, so concurrent
/// bumps of the same counter never lose an increment. The applied function
/// is the verified `next_count`, and an absent key is left absent.
#[verifier::external_body]
pub(crate) fn tree_update_counter(t: &mut sled::Tree, key: &[u8]) -> (r: Result<
    Option<Vec<u8>>,
    sled::Error,
>)
    ensures
        match r {
            Ok(Some(v)) => {
                &&& tree_model(*old(t)).contains_key(key@)
                &&& v@ == next_count_spec(tree_model(*old(t))[key@])
                &&& tree_model(*final(t)) == tree_model(*old(t)).insert(key@, v@)
            },
            Ok(None) => !tree_model(*old(t)).contains_key(key@) && tree_model(*final(t))
                == tree_model(*old(t)),
            Err(_) => tree_model(*final(t)) == tree_model(*old(t)) || tree_model(*final(t))
                == tree_model(*old(t)).insert(
                key@,
                next_count_spec(tree_model(*old(t))[key@]),
            ),
        },
{
    match t.update_and_fetch(key, |prev: Option<&[u8]>| prev.map(|b| next_count(b))) {
        Ok(Some(v)) => Ok(Some(v.to_vec())),
        Ok(None) => Ok(None),
        Err(e) => Err(e),
    }
}

/// Relies on `sled::Tree::iter`: enumerates every entry of the tree, in
/// strictly ascending lexicographic key order. The entries are collected
/// here, before the caller writes anything else.
#[verifier::external_body]
pub(crate) fn tree_entries(t: &sled::Tree) -> (r: Result<Vec<(Vec<u8>, Vec<u8>)>, sled::Error>)
    ensures
        match r {
            Ok(v) => {
                &&& forall|i: int|
                    #![auto]
                    0 <= i < v@.len() ==> tree_model(*t).contains_key(v@[i].0@) && tree_model(
                        *t,
                    )[v@[i].0@] == v@[i].1@
                &&& forall|k: Seq<u8>|
                    #![auto]
                    tree_model(*t).contains_key(k) ==> exists|i: int|
                        0 <= i < v@.len() && v@[i].0@ == k
                &&& forall|i: int, j: int|
                    #![auto]
                    0 <= i < j < v@.len() ==> lex_lt(v@[i].0@, v@[j].0@)
            },
            Err(_) => true,
        },
{
    let mut out: Vec<(Vec<u8>, Vec<u8>)> = Vec::new();
    for entry in t.iter() {
        match entry {
            Ok((k, v)) => out.push((k.to_vec(), v.to_vec())),
            Err(e) => return Err(e),
        }
    }
    Ok(out)
}

/// The tree holds exactly `n` entries (a tree is always finite).
pub open spec fn tree_count_is(t: sled::Tree, n: nat) -> bool {
    tree_model(t).dom().finite() && tree_model(t).dom().len() == n
}

/// Relies on `sled::Tree::len`: the number of entries in the tree (which
/// is always finite).
#[verifier::external_body]
pub(crate) fn tree_len(t: &sled::Tree) -> (r: usize)
    ensures
        tree_count_is(*t, r as nat),
{
    t.len()
}

} // verus!
