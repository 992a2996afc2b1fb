//! The versioned store and the dedup engine over it: three persistent
//! key-ordered collections (image records, seen-counts, hash index) plus
//! schema metadata, a startup migration chain with two fatal guards, and
//! the record/lookup algorithm that classifies each incoming image.
//!
//! Concurrency discipline: only the single-key compare-and-update on one
//! seen-count is atomic (see `backend::tree_update_counter`). The
//! multi-step "new cluster" and "near duplicate" writes span collections
//! without a transaction, so two mutually-similar images recorded through
//! two different handles at once can each miss the other's scan and found
//! two clusters. That race is part of the design; callers needing more
//! must serialize per hash bucket themselves.

use vstd::prelude::*;
use vstd::set_lib::lemma_map_size;
use vstd::string::StringSliceAdditionalSpecFns;

use crate::backend::{
    db_generate_id, db_get, db_insert, db_model, open_db_at, open_db_temp, open_tree, tree_entries,
    tree_get, tree_insert, tree_len, tree_model, tree_update_counter,
};
use crate::codec::{bump, bytes_eq, le_u64, lex_lt, lex_leq, next_count_spec, read_u64_at, u64_le,
    encode_u64, lemma_u64_le_bijective, U64_LEN};
use crate::errors::{DatabaseError, EngineError};
use crate::hashing::{similar, similar_enough, ImageHash, HASH_LEN};
use crate::model::{
    absorb, bump_only, count_and_image, count_seeded, counts_of, exact_hit, first_near_match,
    fresh_id, has_near_match, hashes_of, images_of, lemma_counts_insert, lemma_hashes_insert,
    lemma_images_insert, mark_ignored_step, model_wf, new_cluster, StoreModel,
};
use crate::record::{decode_rec, decode_record, encode_record, RecordV, RecordView, SeenImage};

verus! {

/// The schema version this code writes and understands.
pub const CURRENT_VERSION: u8 = 1;

/// How many migration steps the code knows: one per schema version.
const MIGRATION_COUNT: usize = 1;

/// The versioned store: the handle on the backing database and its three
/// collections.
pub struct Data {
    db: sled::Db,
    /// Record ID to image record.
    stored_images: sled::Tree,
    /// Record ID to times seen.
    seen_counts: sled::Tree,
    /// Perceptual hash to record ID.
    seen_hashes: sled::Tree,
}

/// What `record_image` reports: a brand-new image, or a duplicate of a
/// stored record together with its updated seen-count.
#[derive(Debug)]
pub enum PreviouslySeen {
    /// The image (or a near-duplicate of it) was already recorded.
    Yes { image: SeenImage, times_seen: u64 },
    /// The image started a new cluster.
    No,
}

impl PartialEq for PreviouslySeen {
    /// Two reports are equal when they carry the same facts.
    fn eq(&self, other: &PreviouslySeen) -> (r: bool) {
        match (self, other) {
            (
                PreviouslySeen::Yes { image: a, times_seen: n },
                PreviouslySeen::Yes { image: b, times_seen: m },
            ) => a == b && n == m,
            (PreviouslySeen::No, PreviouslySeen::No) => true,
            _ => false,
        }
    }
}

impl vstd::std_specs::cmp::PartialEqSpecImpl for PreviouslySeen {
    open spec fn obeys_eq_spec() -> bool {
        true
    }

    open spec fn eq_spec(&self, other: &PreviouslySeen) -> bool {
        match (self, other) {
            (
                PreviouslySeen::Yes { image: a, times_seen: n },
                PreviouslySeen::Yes { image: b, times_seen: m },
            ) => a@ == b@ && n == m,
            (PreviouslySeen::No, PreviouslySeen::No) => true,
            _ => false,
        }
    }
}

impl View for Data {
    type V = StoreModel;

    /// The store abstracted to its three maps.
    closed spec fn view(&self) -> StoreModel {
        StoreModel {
            hashes: hashes_of(tree_model(self.seen_hashes)),
            counts: counts_of(tree_model(self.seen_counts)),
            images: images_of(tree_model(self.stored_images)),
        }
    }
}

impl Data {
    /// The store's integrity invariant over the raw collections: every
    /// hash-index entry is a hash of the fixed length mapped to an
    /// eight-byte ID whose seen-count and record both exist; counters are
    /// eight bytes keyed by eight-byte IDs; records decode and are keyed
    /// by eight-byte IDs. `init` establishes it and every operation keeps
    /// it.
    pub closed spec fn well_formed(&self) -> bool {
        let ht = tree_model(self.seen_hashes);
        let ct = tree_model(self.seen_counts);
        let st = tree_model(self.stored_images);
        &&& forall|h: Seq<u8>| #[trigger]
            ht.contains_key(h) ==> h.len() == HASH_LEN && ht[h].len() == U64_LEN
                && ct.contains_key(ht[h]) && st.contains_key(ht[h])
        &&& forall|k: Seq<u8>| #[trigger]
            ct.contains_key(k) ==> k.len() == U64_LEN && ct[k].len() == U64_LEN
        &&& forall|k: Seq<u8>| #[trigger]
            st.contains_key(k) ==> k.len() == U64_LEN && decode_rec(st[k]) is Some
    }

    /// The raw stored bytes of one record, as the mutable access path sees
    /// them.
    pub closed spec fn image_bytes(&self, id: u64) -> Seq<u8> {
        tree_model(self.stored_images)[u64_le(id)]
    }

    /// The schema metadata is in order: a one-byte schema version this
    /// code understands, and a pointer-width marker whose byte length is
    /// exactly the running process's word size (so a store written with a
    /// different pointer width can never come out of `init`).
    pub closed spec fn meta_ok(&self) -> bool {
        let meta = db_model(self.db);
        let vk = ("version").spec_bytes();
        let uk = ("usize").spec_bytes();
        &&& meta.contains_key(vk)
        &&& meta[vk].len() == 1
        &&& 1 <= meta[vk][0] <= CURRENT_VERSION
        &&& meta.contains_key(uk)
        &&& meta[uk].len() == vstd::layout::size_of::<usize>()
    }

    /// A well-formed store abstracts to a well-formed model.
    pub proof fn lemma_well_formed_model(&self)
        requires
            self.well_formed(),
        ensures
            model_wf(self@),
    {
        lemma_u64_le_bijective();
        let ht = tree_model(self.seen_hashes);
        let ct = tree_model(self.seen_counts);
        let st = tree_model(self.stored_images);
        assert forall|h: Seq<u8>| #[trigger] self@.hashes.contains_key(h) implies h.len()
            == HASH_LEN && self@.counts.contains_key(self@.hashes[h])
            && self@.images.contains_key(self@.hashes[h]) by {
            assert(ht.contains_key(h));
            let idb = ht[h];
            let id = le_u64(idb);
            assert(u64_le(id) == idb);
            assert(ct.contains_key(u64_le(id)));
            assert(st.contains_key(u64_le(id)));
            assert(decode_rec(st[u64_le(id)]) is Some);
        }
    }
}

/// The first schema version: make sure the three collections exist
/// (opening a keyspace creates it). Safe to re-run any number of times.
fn inital_version(db: &sled::Db) -> (r: Result<(), DatabaseError>)
    ensures
        r is Err ==> r->Err_0 is Initalizing,
{
    match open_tree(db, "image_properties".as_bytes()) {
        Ok(_) => (),
        Err(e) => {
            return Err(DatabaseError::Initalizing(e));
        },
    }
    match open_tree(db, "seen_count".as_bytes()) {
        Ok(_) => (),
        Err(e) => {
            return Err(DatabaseError::Initalizing(e));
        },
    }
    match open_tree(db, "hash_tree".as_bytes()) {
        Ok(_) => (),
        Err(e) => {
            return Err(DatabaseError::Initalizing(e));
        },
    }
    Ok(())
}

/// The append-only table of idempotent migration steps, by index. A store
/// whose version byte is `v` runs every step with index at least `v - 1`,
/// in ascending order.
fn run_migration(db: &sled::Db, idx: usize) -> (r: Result<(), DatabaseError>)
    ensures
        r is Err ==> r->Err_0 is Initalizing,
{
    if idx == 0 {
        inital_version(db)
    } else {
        Ok(())
    }
}

/// Scan all three collections once and reject any byte the engine's own
/// code would never have written; success establishes the integrity
/// invariant that every later operation relies on.
fn validate(
    stored_images: &sled::Tree,
    seen_counts: &sled::Tree,
    seen_hashes: &sled::Tree,
) -> (r: Result<(), DatabaseError>)
    ensures
        r is Err ==> r->Err_0 is Initalizing || r->Err_0 is Corrupted,
        r is Ok ==> {
            let ht = tree_model(*seen_hashes);
            let ct = tree_model(*seen_counts);
            let st = tree_model(*stored_images);
            &&& forall|h: Seq<u8>| #[trigger]
                ht.contains_key(h) ==> h.len() == HASH_LEN && ht[h].len() == U64_LEN
                    && ct.contains_key(ht[h]) && st.contains_key(ht[h])
            &&& forall|k: Seq<u8>| #[trigger]
                ct.contains_key(k) ==> k.len() == U64_LEN && ct[k].len() == U64_LEN
            &&& forall|k: Seq<u8>| #[trigger]
                st.contains_key(k) ==> k.len() == U64_LEN && decode_rec(st[k]) is Some
        },
{
    let ghost ht = tree_model(*seen_hashes);
    let ghost ct = tree_model(*seen_counts);
    let ghost st = tree_model(*stored_images);

    let centries = match tree_entries(seen_counts) {
        Ok(v) => v,
        Err(e) => {
            return Err(DatabaseError::Initalizing(e));
        },
    };
    let mut i: usize = 0;
    while i < centries.len()
        invariant
            0 <= i <= centries@.len(),
            forall|j: int|
                #![auto]
                0 <= j < centries@.len() ==> ct.contains_key(centries@[j].0@) && ct[centries@[j].0@]
                    == centries@[j].1@,
            forall|k: Seq<u8>|
                #![auto]
                ct.contains_key(k) ==> exists|j: int|
                    0 <= j < centries@.len() && centries@[j].0@ == k,
            forall|j: int|
                #![auto]
                0 <= j < i ==> centries@[j].0@.len() == U64_LEN && centries@[j].1@.len() == U64_LEN,
        decreases centries@.len() - i,
    {
        let pair = &centries[i];
        if pair.0.len() != U64_LEN || pair.1.len() != U64_LEN {
            return Err(DatabaseError::Corrupted);
        }
        i += 1;
    }
    assert forall|k: Seq<u8>| #[trigger]
        ct.contains_key(k) implies k.len() == U64_LEN && ct[k].len() == U64_LEN by {
        let j = choose|j: int| 0 <= j < centries@.len() && centries@[j].0@ == k;
        assert(ct[centries@[j].0@] == centries@[j].1@);
    }

    let sentries = match tree_entries(stored_images) {
        Ok(v) => v,
        Err(e) => {
            return Err(DatabaseError::Initalizing(e));
        },
    };
    let mut i: usize = 0;
    while i < sentries.len()
        invariant
            0 <= i <= sentries@.len(),
            forall|j: int|
                #![auto]
                0 <= j < sentries@.len() ==> st.contains_key(sentries@[j].0@) && st[sentries@[j].0@]
                    == sentries@[j].1@,
            forall|k: Seq<u8>|
                #![auto]
                st.contains_key(k) ==> exists|j: int|
                    0 <= j < sentries@.len() && sentries@[j].0@ == k,
            forall|j: int|
                #![auto]
                0 <= j < i ==> sentries@[j].0@.len() == U64_LEN && decode_rec(sentries@[j].1@)
                    is Some,
        decreases sentries@.len() - i,
    {
        let pair = &sentries[i];
        if pair.0.len() != U64_LEN {
            return Err(DatabaseError::Corrupted);
        }
        if decode_record(pair.1.as_slice()).is_none() {
            return Err(DatabaseError::Corrupted);
        }
        i += 1;
    }
    assert forall|k: Seq<u8>| #[trigger]
        st.contains_key(k) implies k.len() == U64_LEN && decode_rec(st[k]) is Some by {
        let j = choose|j: int| 0 <= j < sentries@.len() && sentries@[j].0@ == k;
        assert(st[sentries@[j].0@] == sentries@[j].1@);
    }

    let hentries = match tree_entries(seen_hashes) {
        Ok(v) => v,
        Err(e) => {
            return Err(DatabaseError::Initalizing(e));
        },
    };
    let mut i: usize = 0;
    while i < hentries.len()
        invariant
            0 <= i <= hentries@.len(),
            forall|j: int|
                #![auto]
                0 <= j < hentries@.len() ==> ht.contains_key(hentries@[j].0@) && ht[hentries@[j].0@]
                    == hentries@[j].1@,
            forall|k: Seq<u8>|
                #![auto]
                ht.contains_key(k) ==> exists|j: int|
                    0 <= j < hentries@.len() && hentries@[j].0@ == k,
            forall|j: int|
                #![auto]
                0 <= j < i ==> hentries@[j].0@.len() == HASH_LEN && hentries@[j].1@.len() == U64_LEN
                    && ct.contains_key(hentries@[j].1@) && st.contains_key(hentries@[j].1@),
            ct == tree_model(*seen_counts),
            st == tree_model(*stored_images),
        decreases hentries@.len() - i,
    {
        let pair = &hentries[i];
        if pair.0.len() != HASH_LEN || pair.1.len() != U64_LEN {
            return Err(DatabaseError::Corrupted);
        }
        match tree_get(seen_counts, pair.1.as_slice()) {
            Ok(Some(_)) => (),
            Ok(None) => {
                return Err(DatabaseError::Corrupted);
            },
            Err(e) => {
                return Err(DatabaseError::Initalizing(e));
            },
        }
        match tree_get(stored_images, pair.1.as_slice()) {
            Ok(Some(_)) => (),
            Ok(None) => {
                return Err(DatabaseError::Corrupted);
            },
            Err(e) => {
                return Err(DatabaseError::Initalizing(e));
            },
        }
        i += 1;
    }
    assert forall|h: Seq<u8>| #[trigger]
        ht.contains_key(h) implies h.len() == HASH_LEN && ht[h].len() == U64_LEN && ct.contains_key(
        ht[h],
    ) && st.contains_key(ht[h]) by {
        let j = choose|j: int| 0 <= j < hentries@.len() && hentries@[j].0@ == h;
        assert(ht[hentries@[j].0@] == hentries@[j].1@);
    }

    Ok(())
}

impl Data {
    /// Open (or create) the store rooted at `db_path`; an empty path opens
    /// a transient store on fresh storage. On first open the schema
    /// version and the pointer-width marker are written; on reopen a
    /// marker of a different width or a version newer than this code is a
    /// fatal refusal (the layout cannot be served safely), and every
    /// migration whose index is at least the stored version is re-run, in
    /// ascending order. A full integrity scan then establishes the
    /// invariant that all later operations rely on.
    pub fn init(db_path: &str) -> (r: Result<Data, DatabaseError>)
        ensures
            match r {
                Ok(d) => d.well_formed() && d.meta_ok(),
                Err(e) => !(e is Recording) && !(e is Accessing),
            },
    {
        let mut db = if db_path.is_empty() {
            match open_db_temp() {
                Ok(db) => db,
                Err(e) => {
                    return Err(DatabaseError::Initalizing(e));
                },
            }
        } else {
            match open_db_at(db_path) {
                Ok(db) => db,
                Err(e) => {
                    return Err(DatabaseError::Initalizing(e));
                },
            }
        };

        // Guard one: a store written with another pointer width cannot be
        // read safely. A fresh store is marked with the current width: the
        // marker's byte length is the width itself (its first byte repeats
        // the value, as a little-endian word of that width would).
        let width = core::mem::size_of::<usize>();
        proof {
            broadcast use vstd::layout::layout_of_primitives;

            assert(width >= 1) by {
                assert(vstd::layout::size_of::<usize>() * 8 == usize::BITS);
            }
        }
        match db_get(&db, "usize".as_bytes()) {
            Err(e) => {
                return Err(DatabaseError::Initalizing(e));
            },
            Ok(Some(marker)) => {
                if marker.len() != width {
                    return Err(DatabaseError::PointerWidthMismatch);
                }
            },
            Ok(None) => {
                let mut marker: Vec<u8> = Vec::new();
                marker.push(#[verifier::truncate] (width as u8));
                let mut i: usize = 1;
                while i < width
                    invariant
                        1 <= i <= width,
                        marker@.len() == i,
                    decreases width - i,
                {
                    marker.push(0);
                    i += 1;
                }
                match db_insert(&mut db, "usize".as_bytes(), marker.as_slice()) {
                    Ok(_) => (),
                    Err(e) => {
                        return Err(DatabaseError::Initalizing(e));
                    },
                }
            },
        }

        // Guard two: a version byte newer than this code has no downgrade
        // path. A fresh store is stamped with the current version.
        let version: u8 = match db_get(&db, "version".as_bytes()) {
            Err(e) => {
                return Err(DatabaseError::Initalizing(e));
            },
            Ok(Some(v)) => {
                if v.len() != 1 {
                    return Err(DatabaseError::Corrupted);
                }
                let ver = v[0];
                if ver == 0 {
                    return Err(DatabaseError::Corrupted);
                }
                if ver > CURRENT_VERSION {
                    return Err(DatabaseError::UnsupportedVersion);
                }
                ver
            },
            Ok(None) => {
                let mut vb: Vec<u8> = Vec::new();
                vb.push(CURRENT_VERSION);
                match db_insert(&mut db, "version".as_bytes(), vb.as_slice()) {
                    Ok(_) => (),
                    Err(e) => {
                        return Err(DatabaseError::Initalizing(e));
                    },
                }
                CURRENT_VERSION
            },
        };

        let stored_images = match open_tree(&db, "image_properties".as_bytes()) {
            Ok(t) => t,
            Err(e) => {
                return Err(DatabaseError::Initalizing(e));
            },
        };
        let seen_counts = match open_tree(&db, "seen_count".as_bytes()) {
            Ok(t) => t,
            Err(e) => {
                return Err(DatabaseError::Initalizing(e));
            },
        };
        let seen_hashes = match open_tree(&db, "hash_tree".as_bytes()) {
            Ok(t) => t,
            Err(e) => {
                return Err(DatabaseError::Initalizing(e));
            },
        };

        // A store at version v re-runs every migration from index v - 1 on;
        // each step is idempotent, so a crash mid-chain is harmless.
        let mut idx: usize = (version - 1) as usize;
        while idx < MIGRATION_COUNT
            invariant
                0 <= idx <= MIGRATION_COUNT,
            decreases MIGRATION_COUNT - idx,
        {
            match run_migration(&db, idx) {
                Ok(()) => (),
                Err(e) => {
                    return Err(e);
                },
            }
            idx += 1;
        }

        match validate(&stored_images, &seen_counts, &seen_hashes) {
            Ok(()) => (),
            Err(e) => {
                return Err(e);
            },
        }

        let data = Data { db, stored_images, seen_counts, seen_hashes };
        Ok(data)
    }

    /// How many distinct clusters the store holds (the size of the record
    /// collection); a monotonic telemetry counter.
    pub fn total_seen(&self) -> (r: usize)
        ensures
            self.well_formed() ==> r == self@.images.dom().len(),
    {
        let n = tree_len(&self.stored_images);
        proof {
            if self.well_formed() {
                lemma_u64_le_bijective();
                let st = tree_model(self.stored_images);
                let keys = st.dom();
                let ids = self@.images.dom();
                assert(keys.map(|k: Seq<u8>| le_u64(k)) =~= ids);
                assert forall|k1: Seq<u8>, k2: Seq<u8>|
                    keys.contains(k1) && keys.contains(k2) && #[trigger] le_u64(k1)
                        == #[trigger] le_u64(k2) implies k1 == k2 by {
                    assert(u64_le(le_u64(k1)) == k1);
                    assert(u64_le(le_u64(k2)) == k2);
                }
                assert(vstd::relations::injective_on(|k: Seq<u8>| le_u64(k), keys));
                lemma_map_size(keys, ids, |k: Seq<u8>| le_u64(k));
            }
        }
        n
    }

    /// The stored schema-version value, when the metadata holds one.
    pub closed spec fn meta_version_bytes(&self) -> Option<Seq<u8>> {
        let meta = db_model(self.db);
        let vk = ("version").spec_bytes();
        if meta.contains_key(vk) {
            Some(meta[vk])
        } else {
            None
        }
    }

    /// The schema version byte currently stored in the metadata.
    pub fn schema_version(&self) -> (r: Result<u8, DatabaseError>)
        ensures
            match r {
                Ok(v) => {
                    let b = self.meta_version_bytes();
                    b is Some && b->Some_0.len() >= 1 && v == b->Some_0[0]
                },
                Err(e) => e is Accessing || e is Corrupted,
            },
    {
        match db_get(&self.db, "version".as_bytes()) {
            Ok(Some(v)) => {
                if v.len() == 0 {
                    Err(DatabaseError::Corrupted)
                } else {
                    Ok(v[0])
                }
            },
            Ok(None) => Err(DatabaseError::Corrupted),
            Err(e) => Err(DatabaseError::Accessing(e)),
        }
    }
}

impl Data {
    /// Classify one incoming image and mutate the store accordingly.
    ///
    /// Exact hit: the hash is already indexed, so its cluster's count is
    /// bumped atomically and the stored record comes back with the new
    /// count. Near hit: on an exact miss the whole index is scanned in key
    /// order and the first stored hash within the acceptance threshold
    /// wins; its cluster absorbs the new hash (so the next exact lookup
    /// short-circuits), its count is bumped, and its record comes back.
    /// Otherwise a fresh cluster is created with count one. The linear
    /// scan and the first-match tie-break are part of the design.
    ///
    /// The multi-step writes are not one transaction: when the store
    /// fails mid-way the error names what was reached, and the contract
    /// lists the few intermediate states the store can be left in (counts
    /// only ever grow; records and index entries are never overwritten).
    #[verifier::loop_isolation(false)]
    pub fn record_image(&mut self, image_hash: &ImageHash, properties: SeenImage) -> (r: Result<
        PreviouslySeen,
        EngineError,
    >)
        ensures
            old(self).well_formed() ==> final(self).well_formed(),
            old(self).well_formed() ==> match r {
                Ok(PreviouslySeen::Yes { image, times_seen }) => {
                    let m = old(self)@;
                    ||| (m.hashes.contains_key(image_hash@) && {
                        let id = m.hashes[image_hash@];
                        &&& final(self)@ == exact_hit(m, image_hash@)
                        &&& image@ == m.images[id]
                        &&& times_seen == bump(m.counts[id])
                    })
                    ||| (!m.hashes.contains_key(image_hash@) && exists|k: Seq<u8>|
                        {
                            &&& #[trigger] first_near_match(m, image_hash@, k)
                            &&& final(self)@ == absorb(m, image_hash@, k)
                            &&& image@ == m.images[m.hashes[k]]
                            &&& times_seen == bump(m.counts[m.hashes[k]])
                        })
                },
                Ok(PreviouslySeen::No) => {
                    let m = old(self)@;
                    &&& !m.hashes.contains_key(image_hash@)
                    &&& !has_near_match(m, image_hash@)
                    &&& exists|id: u64| #[trigger]
                        fresh_id(m, id) && final(self)@ == new_cluster(
                            m,
                            image_hash@,
                            id,
                            properties@,
                        )
                },
                Err(e) => {
                    let m = old(self)@;
                    &&& e is Database
                    &&& (e->Database_0 is Recording || e->Database_0 is Corrupted)
                    &&& {
                        ||| final(self)@ == m
                        ||| (exists|id: u64| #[trigger]
                            m.counts.contains_key(id) && final(self)@ == bump_only(m, id))
                        ||| (exists|id: u64| #[trigger]
                            fresh_id(m, id) && (final(self)@ == count_seeded(m, id) || final(self)@
                                == count_and_image(m, id, properties@) || final(self)@
                                == new_cluster(m, image_hash@, id, properties@)))
                        ||| (exists|k: Seq<u8>| #[trigger]
                            first_near_match(m, image_hash@, k) && final(self)@ == absorb(
                                m,
                                image_hash@,
                                k,
                            ))
                    }
                },
            },
    {
        let ghost m0 = self@;
        let ghost wf0 = self.well_formed();
        let hb = image_hash.as_bytes();

        // Step one: is this exact hash already indexed?
        match tree_get(&self.seen_hashes, hb) {
            Err(e) => {
                return Err(EngineError::Database(DatabaseError::Recording(e)));
            },
            Ok(Some(id_bytes)) => {
                // Exact hit: bump the cluster's count atomically, read its
                // record back.
                if id_bytes.len() != U64_LEN {
                    return Err(EngineError::Database(DatabaseError::Corrupted));
                }
                let ghost id = le_u64(id_bytes@);
                proof {
                    lemma_u64_le_bijective();
                    if wf0 {
                        assert(m0.hashes[image_hash@] == id);
                        assert(m0.counts.contains_key(id));
                    }
                }
                let count_bytes = match tree_update_counter(
                    &mut self.seen_counts,
                    id_bytes.as_slice(),
                ) {
                    Err(e) => {
                        proof {
                            if wf0 {
                                lemma_counts_insert(
                                    tree_model(old(self).seen_counts),
                                    id_bytes@,
                                    next_count_spec(tree_model(old(self).seen_counts)[id_bytes@]),
                                );
                            }
                        }
                        return Err(EngineError::Database(DatabaseError::Recording(e)));
                    },
                    Ok(Some(cb)) => cb,
                    Ok(None) => {
                        return Err(EngineError::Database(DatabaseError::Corrupted));
                    },
                };
                proof {
                    if wf0 {
                        lemma_counts_insert(
                            tree_model(old(self).seen_counts),
                            id_bytes@,
                            count_bytes@,
                        );
                        assert(self@ == bump_only(m0, id));
                    }
                }
                if count_bytes.len() != U64_LEN {
                    return Err(EngineError::Database(DatabaseError::Corrupted));
                }
                let times_seen = read_u64_at(count_bytes.as_slice(), 0);
                proof {
                    assert(count_bytes@.subrange(0, 8) =~= count_bytes@);
                }
                let img_bytes = match tree_get(&self.stored_images, id_bytes.as_slice()) {
                    Err(e) => {
                        return Err(EngineError::Database(DatabaseError::Recording(e)));
                    },
                    Ok(Some(v)) => v,
                    Ok(None) => {
                        return Err(EngineError::Database(DatabaseError::Corrupted));
                    },
                };
                let image = match decode_record(img_bytes.as_slice()) {
                    Some(img) => img,
                    None => {
                        return Err(EngineError::Database(DatabaseError::Corrupted));
                    },
                };
                proof {
                    if wf0 {
                        assert(self@ == exact_hit(m0, image_hash@));
                        assert(image@ == m0.images[id]);
                        assert(times_seen == bump(m0.counts[id]));
                    }
                }
                Ok(PreviouslySeen::Yes { image, times_seen })
            },
            Ok(None) => {
                // Step two: linear similarity scan over the whole index,
                // in lexicographic key order; first match wins.
                let ghost ht = tree_model(self.seen_hashes);
                let entries = match tree_entries(&self.seen_hashes) {
                    Err(e) => {
                        return Err(EngineError::Database(DatabaseError::Recording(e)));
                    },
                    Ok(v) => v,
                };
                let n = entries.len();
                let mut i: usize = 0;
                while i < n
                    invariant
                        *self == *old(self),
                        ht == tree_model(self.seen_hashes),
                        n == entries@.len(),
                        0 <= i <= n,
                        hb@ == image_hash@,
                        !ht.contains_key(image_hash@),
                        forall|j: int|
                            #![auto]
                            0 <= j < n ==> ht.contains_key(entries@[j].0@) && ht[entries@[j].0@]
                                == entries@[j].1@,
                        forall|k: Seq<u8>|
                            #![auto]
                            ht.contains_key(k) ==> exists|j: int|
                                0 <= j < n && entries@[j].0@ == k,
                        forall|j1: int, j2: int|
                            #![auto]
                            0 <= j1 < j2 < n ==> lex_lt(entries@[j1].0@, entries@[j2].0@),
                        forall|j: int|
                            #![auto]
                            0 <= j < i ==> !similar(image_hash@, entries@[j].0@),
                    decreases n - i,
                {
                    let pair = &entries[i];
                    if bytes_eq(pair.0.as_slice(), hb) {
                        // The freshly computed hash itself: skip it. (The
                        // exact lookup already missed, so under exclusive
                        // access this key cannot be here.)
                        i += 1;
                    } else if similar_enough(image_hash, pair.0.as_slice()) {
                        // Near hit: bump the found cluster, read its
                        // record, then index the new hash as one more
                        // variant of that cluster.
                        let ghost kfound = pair.0@;
                        proof {
                            if wf0 {
                                assert(ht.contains_key(kfound));
                                assert(first_near_match(m0, image_hash@, kfound)) by {
                                    assert forall|k2: Seq<u8>| #[trigger]
                                        m0.hashes.contains_key(k2) && k2 != image_hash@ && similar(
                                        image_hash@,
                                        k2,
                                    ) implies lex_leq(kfound, k2) by {
                                        assert(ht.contains_key(k2));
                                        let j = choose|j: int|
                                            0 <= j < n && entries@[j].0@ == k2;
                                        assert(0 <= j < n && entries@[j].0@ == k2);
                                        if j < i {
                                            assert(!similar(image_hash@, entries@[j].0@));
                                        } else if j == i {
                                            assert(k2 == kfound);
                                        } else {
                                            assert(lex_lt(entries@[i as int].0@, entries@[j].0@));
                                        }
                                    }
                                }
                            }
                        }
                        if pair.1.len() != U64_LEN {
                            return Err(EngineError::Database(DatabaseError::Corrupted));
                        }
                        let ghost id = le_u64(pair.1@);
                        proof {
                            lemma_u64_le_bijective();
                            if wf0 {
                                assert(m0.hashes[kfound] == id);
                                assert(m0.counts.contains_key(id));
                            }
                        }
                        let count_bytes = match tree_update_counter(&mut self.seen_counts, pair.1.as_slice()) {
                            Err(e) => {
                                proof {
                                    if wf0 {
                                        lemma_counts_insert(
                                            tree_model(old(self).seen_counts),
                                            entries@[i as int].1@,
                                            next_count_spec(
                                                tree_model(old(self).seen_counts)[entries@[i as int].1@],
                                            ),
                                        );
                                    }
                                }
                                return Err(EngineError::Database(DatabaseError::Recording(e)));
                            },
                            Ok(Some(cb)) => cb,
                            Ok(None) => {
                                return Err(EngineError::Database(DatabaseError::Corrupted));
                            },
                        };
                        proof {
                            if wf0 {
                                lemma_counts_insert(
                                    tree_model(old(self).seen_counts),
                                    entries@[i as int].1@,
                                    count_bytes@,
                                );
                                assert(self@ == bump_only(m0, id));
                            }
                        }
                        if count_bytes.len() != U64_LEN {
                            return Err(EngineError::Database(DatabaseError::Corrupted));
                        }
                        let times_seen = read_u64_at(count_bytes.as_slice(), 0);
                        proof {
                            assert(count_bytes@.subrange(0, 8) =~= count_bytes@);
                        }
                        let img_bytes = match tree_get(&self.stored_images, pair.1.as_slice()) {
                            Err(e) => {
                                return Err(EngineError::Database(DatabaseError::Recording(e)));
                            },
                            Ok(Some(v)) => v,
                            Ok(None) => {
                                return Err(EngineError::Database(DatabaseError::Corrupted));
                            },
                        };
                        let image = match decode_record(img_bytes.as_slice()) {
                            Some(img) => img,
                            None => {
                                return Err(EngineError::Database(DatabaseError::Corrupted));
                            },
                        };
                        match tree_insert(&mut self.seen_hashes, hb, pair.1.as_slice()) {
                            Ok(_) => (),
                            Err(e) => {
                                proof {
                                    if wf0 {
                                        lemma_hashes_insert(ht, image_hash@, entries@[i as int].1@);
                                    }
                                }
                                return Err(EngineError::Database(DatabaseError::Recording(e)));
                            },
                        }
                        proof {
                            if wf0 {
                                lemma_hashes_insert(ht, image_hash@, entries@[i as int].1@);
                                assert(self@ == absorb(m0, image_hash@, kfound));
                                assert(image@ == m0.images[id]);
                                assert(times_seen == bump(m0.counts[id]));
                            }
                        }
                        return Ok(PreviouslySeen::Yes { image, times_seen });
                    } else {
                        i += 1;
                    }
                }

                // Step three: nothing matched, so this is a brand new
                // cluster under a freshly generated, never-reused ID.
                proof {
                    if wf0 {
                        assert(!has_near_match(m0, image_hash@)) by {
                            if has_near_match(m0, image_hash@) {
                                let k = choose|k: Seq<u8>| #[trigger]
                                    m0.hashes.contains_key(k) && k != image_hash@ && similar(
                                    image_hash@,
                                    k,
                                );
                                let j = choose|j: int| 0 <= j < n && entries@[j].0@ == k;
                                assert(!similar(image_hash@, entries@[j].0@));
                            }
                        }
                    }
                }
                let id = match db_generate_id(&self.db) {
                    Err(e) => {
                        return Err(EngineError::Database(DatabaseError::Recording(e)));
                    },
                    Ok(v) => v,
                };
                let id_bytes = encode_u64(id);
                proof {
                    lemma_u64_le_bijective();
                }
                // The generator never reuses an ID; hold it to that before
                // writing anything.
                match tree_get(&self.seen_counts, id_bytes.as_slice()) {
                    Ok(None) => (),
                    Ok(Some(_)) => {
                        return Err(EngineError::Database(DatabaseError::Corrupted));
                    },
                    Err(e) => {
                        return Err(EngineError::Database(DatabaseError::Recording(e)));
                    },
                }
                match tree_get(&self.stored_images, id_bytes.as_slice()) {
                    Ok(None) => (),
                    Ok(Some(_)) => {
                        return Err(EngineError::Database(DatabaseError::Corrupted));
                    },
                    Err(e) => {
                        return Err(EngineError::Database(DatabaseError::Recording(e)));
                    },
                }
                proof {
                    assert(fresh_id(m0, id));
                }
                let value = encode_record(&properties);
                // The encoding fits in memory, so the author-length field
                // cannot have been truncated: the bytes decode back.
                let _fits: usize = value.len();
                proof {
                    assert(value@.len() == 33 + vstd::utf8::encode_utf8(properties@.author).len());
                    crate::record::lemma_record_round_trip(properties@);
                }
                let one = encode_u64(1);
                match tree_insert(&mut self.seen_counts, id_bytes.as_slice(), one.as_slice()) {
                    Ok(_) => (),
                    Err(e) => {
                        proof {
                            lemma_counts_insert(tree_model(old(self).seen_counts), id_bytes@, one@);
                        }
                        return Err(EngineError::Database(DatabaseError::Recording(e)));
                    },
                }
                proof {
                    lemma_counts_insert(tree_model(old(self).seen_counts), id_bytes@, one@);
                    assert(self@ == count_seeded(m0, id));
                }
                match tree_insert(&mut self.stored_images, id_bytes.as_slice(), value.as_slice()) {
                    Ok(_) => (),
                    Err(e) => {
                        proof {
                            lemma_images_insert(
                                tree_model(old(self).stored_images),
                                id_bytes@,
                                value@,
                            );
                        }
                        return Err(EngineError::Database(DatabaseError::Recording(e)));
                    },
                }
                proof {
                    lemma_images_insert(tree_model(old(self).stored_images), id_bytes@, value@);
                    assert(self@ == count_and_image(m0, id, properties@));
                }
                match tree_insert(&mut self.seen_hashes, hb, id_bytes.as_slice()) {
                    Ok(_) => (),
                    Err(e) => {
                        proof {
                            lemma_hashes_insert(ht, image_hash@, id_bytes@);
                        }
                        return Err(EngineError::Database(DatabaseError::Recording(e)));
                    },
                }
                proof {
                    lemma_hashes_insert(ht, image_hash@, id_bytes@);
                    assert(self@ == new_cluster(m0, image_hash@, id, properties@));
                }
                Ok(PreviouslySeen::No)
            },
        }
    }

    /// Look up a hash and hand a mutable, fixed-width-only view of its
    /// stored record bytes to `mutator`, without decoding the whole
    /// record; when the mutator reports a change, the (now mutated) bytes
    /// are written back verbatim. An unknown hash is a successful no-op.
    /// Returns whether the hash was known.
    pub fn access_image<F: Fn(RecordView) -> (RecordView, bool)>(
        &mut self,
        image_hash: &[u8],
        mutator: F,
    ) -> (r: Result<bool, DatabaseError>)
        requires
            forall|v: RecordView| #[trigger] call_requires(mutator, (v,)),
        ensures
            old(self).well_formed() ==> final(self).well_formed(),
            old(self).well_formed() ==> match r {
                Ok(found) => {
                    let m = old(self)@;
                    &&& found == m.hashes.contains_key(image_hash@)
                    &&& (!found ==> final(self)@ == m)
                    &&& (found ==> {
                        let id = m.hashes[image_hash@];
                        exists|v1: RecordView, v2: RecordView, changed: bool|
                            {
                                &&& v1@ == m.images[id]
                                &&& v1.bytes() == old(self).image_bytes(id)
                                &&& #[trigger] call_ensures(mutator, (v1,), (v2, changed))
                                &&& (changed ==> final(self)@ == (StoreModel {
                                    images: m.images.insert(id, v2@),
                                    ..m
                                }))
                                &&& (!changed ==> final(self)@ == m)
                            }
                    })
                },
                Err(e) => {
                    let m = old(self)@;
                    &&& e is Accessing || e is Corrupted
                    &&& (final(self)@ == m || (m.hashes.contains_key(image_hash@) && {
                        let id = m.hashes[image_hash@];
                        exists|v1: RecordView, v2: RecordView, changed: bool|
                            {
                                &&& v1@ == m.images[id]
                                &&& #[trigger] call_ensures(mutator, (v1,), (v2, changed))
                                &&& final(self)@ == (StoreModel {
                                    images: m.images.insert(id, v2@),
                                    ..m
                                })
                            }
                    }))
                },
            },
    {
        let ghost m0 = self@;
        let ghost wf0 = self.well_formed();
        let id_bytes = match tree_get(&self.seen_hashes, image_hash) {
            Err(e) => {
                return Err(DatabaseError::Accessing(e));
            },
            Ok(None) => {
                return Ok(false);
            },
            Ok(Some(b)) => b,
        };
        if id_bytes.len() != U64_LEN {
            return Err(DatabaseError::Corrupted);
        }
        let ghost id = le_u64(id_bytes@);
        proof {
            lemma_u64_le_bijective();
        }
        let buf = match tree_get(&self.stored_images, id_bytes.as_slice()) {
            Err(e) => {
                return Err(DatabaseError::Accessing(e));
            },
            Ok(None) => {
                return Err(DatabaseError::Corrupted);
            },
            Ok(Some(v)) => v,
        };
        let view = match RecordView::from_bytes(buf) {
            None => {
                return Err(DatabaseError::Corrupted);
            },
            Some(v) => v,
        };
        let ghost v1 = view;
        let res = mutator(view);
        let ghost v2 = res.0;
        let (mutated, changed) = res;
        if changed {
            let out = mutated.into_bytes();
            match tree_insert(&mut self.stored_images, id_bytes.as_slice(), out.as_slice()) {
                Ok(_) => (),
                Err(e) => {
                    proof {
                        if wf0 {
                            lemma_images_insert(
                                tree_model(old(self).stored_images),
                                id_bytes@,
                                out@,
                            );
                            assert(call_ensures(mutator, (v1,), (v2, true)));
                        }
                    }
                    return Err(DatabaseError::Accessing(e));
                },
            }
            proof {
                if wf0 {
                    lemma_images_insert(tree_model(old(self).stored_images), id_bytes@, out@);
                    assert(call_ensures(mutator, (v1,), (v2, true)));
                    assert(self@ == (StoreModel { images: m0.images.insert(id, v2@), ..m0 }));
                }
            }
            Ok(true)
        } else {
            proof {
                if wf0 {
                    assert(call_ensures(mutator, (v1,), (v2, false)));
                }
            }
            Ok(true)
        }
    }

    /// The "mark ignored" intent: flip the stored record's `ignored` flag
    /// in place through the mutable access path, and report whether the
    /// hash was known at all (an unknown hash is a successful no-op). The
    /// flag only ever moves from false to true; no path clears it.
    pub fn mark_ignored(&mut self, image_hash: &[u8]) -> (r: Result<bool, DatabaseError>)
        ensures
            old(self).well_formed() ==> final(self).well_formed(),
            old(self).well_formed() ==> match r {
                Ok(found) => {
                    &&& found == old(self)@.hashes.contains_key(image_hash@)
                    &&& (found ==> final(self)@ == mark_ignored_step(old(self)@, image_hash@))
                    &&& (!found ==> final(self)@ == old(self)@)
                },
                Err(e) => {
                    &&& e is Accessing || e is Corrupted
                    &&& (final(self)@ == old(self)@ || final(self)@ == mark_ignored_step(
                        old(self)@,
                        image_hash@,
                    ))
                },
            },
    {
        let set_flag = |view: RecordView| -> (res: (RecordView, bool))
            ensures
                res.0@ == (RecordV { ignored: true, ..view@ }),
                res.1 == true,
            {
                let mut v = view;
                v.set_ignored(true);
                (v, true)
            };
        let ghost m0 = self@;
        let r = self.access_image(image_hash, set_flag);
        proof {
            if old(self).well_formed() {
                match r {
                    Ok(found) => {
                        if found {
                            let id = m0.hashes[image_hash@];
                            let (v1, v2, changed) = choose|v1: RecordView, v2: RecordView, changed: bool|
                                {
                                    &&& v1@ == m0.images[id]
                                    &&& v1.bytes() == old(self).image_bytes(id)
                                    &&& #[trigger] call_ensures(set_flag, (v1,), (v2, changed))
                                    &&& (changed ==> self@ == (StoreModel {
                                        images: m0.images.insert(id, v2@),
                                        ..m0
                                    }))
                                    &&& (!changed ==> self@ == m0)
                                };
                            assert(v2@ == (RecordV { ignored: true, ..v1@ }));
                            assert(self@ == mark_ignored_step(m0, image_hash@));
                        }
                    },
                    Err(_) => {
                        if self@ != m0 {
                            let id = m0.hashes[image_hash@];
                            let (v1, v2, changed) = choose|v1: RecordView, v2: RecordView, changed: bool|
                                {
                                    &&& v1@ == m0.images[id]
                                    &&& #[trigger] call_ensures(set_flag, (v1,), (v2, changed))
                                    &&& self@ == (StoreModel {
                                        images: m0.images.insert(id, v2@),
                                        ..m0
                                    })
                                };
                            assert(v2@ == (RecordV { ignored: true, ..v1@ }));
                            assert(self@ == mark_ignored_step(m0, image_hash@));
                        }
                    },
                }
            }
        }
        r
    }
}

} // verus!
