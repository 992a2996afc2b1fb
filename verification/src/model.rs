//! The mathematical model of the versioned store: three maps (hash index,
//! seen-counts, image records) and the transitions that recording and
//! mutating an image perform on them. The executable engine's contracts
//! say that each call makes exactly one of these transitions; the laws at
//! the end of this file are proved over the transitions alone.

use vstd::prelude::*;

use crate::codec::{bump, le_u64, lex_leq, u64_le};
use crate::hashing::{similar, HASH_LEN};
use crate::record::{decode_rec, RecordV};

verus! {

/// The abstract state of one store: the hash index (perceptual hash to
/// record ID), the seen-counts (record ID to hit count), and the image
/// records (record ID to record).
pub struct StoreModel {
    /// Perceptual hash bytes mapped to the ID of their cluster.
    pub hashes: Map<Seq<u8>, u64>,
    /// Times each cluster has been seen.
    pub counts: Map<u64, u64>,
    /// The durable record of each cluster.
    pub images: Map<u64, RecordV>,
}

/// The hash index read from raw tree contents.
pub open spec fn hashes_of(t: Map<Seq<u8>, Seq<u8>>) -> Map<Seq<u8>, u64> {
    Map::new(|h: Seq<u8>| t.contains_key(h), |h: Seq<u8>| le_u64(t[h]))
}

/// The seen-counts read from raw tree contents (keys are encoded IDs).
pub open spec fn counts_of(t: Map<Seq<u8>, Seq<u8>>) -> Map<u64, u64> {
    Map::new(|id: u64| t.contains_key(u64_le(id)), |id: u64| le_u64(t[u64_le(id)]))
}

/// The image records read from raw tree contents (keys are encoded IDs).
pub open spec fn images_of(t: Map<Seq<u8>, Seq<u8>>) -> Map<u64, RecordV> {
    Map::new(
        |id: u64| t.contains_key(u64_le(id)) && decode_rec(t[u64_le(id)]) is Some,
        |id: u64| decode_rec(t[u64_le(id)])->Some_0,
    )
}

/// A well-formed model: every hash-index entry has the fixed hash length
/// and points at a cluster that has both a seen-count and a record.
pub open spec fn model_wf(m: StoreModel) -> bool {
    forall|h: Seq<u8>| #[trigger]
        m.hashes.contains_key(h) ==> h.len() == HASH_LEN && m.counts.contains_key(m.hashes[h])
            && m.images.contains_key(m.hashes[h])
}

/// An ID that no existing cluster uses.
pub open spec fn fresh_id(m: StoreModel, id: u64) -> bool {
    !m.counts.contains_key(id) && !m.images.contains_key(id)
}

/// The hash is already in the index: its cluster's count grows by one and
/// nothing else changes.
pub open spec fn exact_hit(m: StoreModel, h: Seq<u8>) -> StoreModel {
    let id = m.hashes[h];
    StoreModel { hashes: m.hashes, counts: m.counts.insert(id, bump(m.counts[id])), images: m.images }
}

/// A near-duplicate of the stored hash `k` arrived as `h`: `k`'s cluster
/// absorbs `h`, the cluster's count grows by one, and the new hash is
/// indexed so that future exact lookups of `h` short-circuit.
pub open spec fn absorb(m: StoreModel, h: Seq<u8>, k: Seq<u8>) -> StoreModel {
    let id = m.hashes[k];
    StoreModel {
        hashes: m.hashes.insert(h, id),
        counts: m.counts.insert(id, bump(m.counts[id])),
        images: m.images,
    }
}

/// A brand new image: a fresh cluster with count one, record `r`, and one
/// hash-index entry.
pub open spec fn new_cluster(m: StoreModel, h: Seq<u8>, id: u64, r: RecordV) -> StoreModel {
    StoreModel {
        hashes: m.hashes.insert(h, id),
        counts: m.counts.insert(id, 1),
        images: m.images.insert(id, r),
    }
}

/// A known image is marked ignored in place; nothing else changes.
pub open spec fn mark_ignored_step(m: StoreModel, h: Seq<u8>) -> StoreModel {
    let id = m.hashes[h];
    let r = m.images[id];
    StoreModel {
        hashes: m.hashes,
        counts: m.counts,
        images: m.images.insert(id, RecordV { ignored: true, ..r }),
    }
}

/// Only one cluster's count moved (how a failed multi-step write can
/// leave the store).
pub open spec fn bump_only(m: StoreModel, id: u64) -> StoreModel {
    StoreModel { hashes: m.hashes, counts: m.counts.insert(id, bump(m.counts[id])), images: m.images }
}

/// A fresh cluster's count was seeded but nothing else was written yet
/// (how a failed "new cluster" write can leave the store).
pub open spec fn count_seeded(m: StoreModel, id: u64) -> StoreModel {
    StoreModel { hashes: m.hashes, counts: m.counts.insert(id, 1), images: m.images }
}

/// A fresh cluster's count and record were written but its hash-index
/// entry was not yet (how a failed "new cluster" write can leave the
/// store).
pub open spec fn count_and_image(m: StoreModel, id: u64, r: RecordV) -> StoreModel {
    StoreModel { hashes: m.hashes, counts: m.counts.insert(id, 1), images: m.images.insert(id, r) }
}

/// Inserting into the raw hash tree inserts the decoded ID into the
/// abstract hash index.
pub proof fn lemma_hashes_insert(t: Map<Seq<u8>, Seq<u8>>, k: Seq<u8>, v: Seq<u8>)
    ensures
        hashes_of(t.insert(k, v)) == hashes_of(t).insert(k, le_u64(v)),
{
    assert(hashes_of(t.insert(k, v)) =~= hashes_of(t).insert(k, le_u64(v)));
}

/// Inserting an encoded-ID key into the raw counter tree inserts the
/// decoded count under the decoded ID in the abstract counts.
pub proof fn lemma_counts_insert(t: Map<Seq<u8>, Seq<u8>>, k: Seq<u8>, v: Seq<u8>)
    requires
        k.len() == 8,
    ensures
        counts_of(t.insert(k, v)) == counts_of(t).insert(le_u64(k), le_u64(v)),
{
    crate::codec::lemma_u64_le_bijective();
    let lhs = counts_of(t.insert(k, v));
    let rhs = counts_of(t).insert(le_u64(k), le_u64(v));
    assert forall|id: u64|
        #![auto]
        lhs.contains_key(id) == rhs.contains_key(id) && (lhs.contains_key(id) ==> lhs[id]
            == rhs[id]) by {
        if u64_le(id) == k {
            assert(id == le_u64(k));
        }
        if id == le_u64(k) {
            assert(u64_le(id) == k);
        }
    }
    assert(lhs =~= rhs);
}

/// Inserting a decodable record under an encoded-ID key into the raw
/// record tree inserts the decoded record under the decoded ID in the
/// abstract records.
pub proof fn lemma_images_insert(t: Map<Seq<u8>, Seq<u8>>, k: Seq<u8>, v: Seq<u8>)
    requires
        k.len() == 8,
        decode_rec(v) is Some,
    ensures
        images_of(t.insert(k, v)) == images_of(t).insert(le_u64(k), decode_rec(v)->Some_0),
{
    crate::codec::lemma_u64_le_bijective();
    let lhs = images_of(t.insert(k, v));
    let rhs = images_of(t).insert(le_u64(k), decode_rec(v)->Some_0);
    assert forall|id: u64|
        #![auto]
        lhs.contains_key(id) == rhs.contains_key(id) && (lhs.contains_key(id) ==> lhs[id]
            == rhs[id]) by {
        if u64_le(id) == k {
            assert(id == le_u64(k));
        }
        if id == le_u64(k) {
            assert(u64_le(id) == k);
        }
    }
    assert(lhs =~= rhs);
}

/// Some stored hash other than `h` itself is near `h`.
pub open spec fn has_near_match(m: StoreModel, h: Seq<u8>) -> bool {
    exists|k: Seq<u8>| #[trigger] m.hashes.contains_key(k) && k != h && similar(h, k)
}

/// `k` is the near match of `h` that the similarity scan settles on: the
/// first one in the index's lexicographic key order.
pub open spec fn first_near_match(m: StoreModel, h: Seq<u8>, k: Seq<u8>) -> bool {
    &&& m.hashes.contains_key(k)
    &&& k != h
    &&& similar(h, k)
    &&& forall|k2: Seq<u8>| #[trigger]
        m.hashes.contains_key(k2) && k2 != h && similar(h, k2) ==> lex_leq(k, k2)
}

/// Law: recording the same hash twice yields a new cluster and then an
/// exact duplicate. The duplicate reports the first record, unchanged,
/// with a seen-count of two.
pub proof fn lemma_idempotent_exact_match(m: StoreModel, h: Seq<u8>, id: u64, r: RecordV)
    requires
        model_wf(m),
        h.len() == HASH_LEN,
        !m.hashes.contains_key(h),
        fresh_id(m, id),
    ensures
        ({
            let m1 = new_cluster(m, h, id, r);
            &&& model_wf(m1)
            &&& m1.hashes.contains_key(h)
            &&& m1.counts[m1.hashes[h]] == 1
            &&& m1.images[m1.hashes[h]] == r
            &&& bump(m1.counts[m1.hashes[h]]) == 2
            &&& exact_hit(m1, h).counts[m1.hashes[h]] == 2
            &&& exact_hit(m1, h).images == m1.images
            &&& model_wf(exact_hit(m1, h))
        }),
{
}

/// Law: two distinct hashes within the acceptance threshold, neither yet
/// indexed, recorded in sequence, yield a new cluster and then a
/// near-duplicate absorbed into it, provided the similarity scan settles
/// on the first hash (it always does in an otherwise empty store; with
/// other clusters within threshold of the second image, the first match
/// in key order wins instead). The second report then carries the first
/// record with count two; the second hash is indexed onto the first
/// cluster and no new record is created; and recording the first hash a
/// third time is an exact hit on that same single cluster.
pub proof fn lemma_near_duplicate_absorption(
    m: StoreModel,
    h1: Seq<u8>,
    h2: Seq<u8>,
    id: u64,
    r: RecordV,
)
    requires
        model_wf(m),
        h1.len() == HASH_LEN,
        h2.len() == HASH_LEN,
        h1 != h2,
        similar(h2, h1),
        !m.hashes.contains_key(h1),
        !m.hashes.contains_key(h2),
        fresh_id(m, id),
        first_near_match(new_cluster(m, h1, id, r), h2, h1),
    ensures
        ({
            let m1 = new_cluster(m, h1, id, r);
            let m2 = absorb(m1, h2, h1);
            &&& !m1.hashes.contains_key(h2)
            &&& m1.hashes[h1] == id
            &&& m2.images == m1.images
            &&& m2.images[id] == r
            &&& m2.counts[id] == 2
            &&& m2.hashes.contains_key(h1)
            &&& m2.hashes.contains_key(h2)
            &&& m2.hashes[h2] == m2.hashes[h1]
            &&& exact_hit(m2, h1).counts[id] == 3
            &&& exact_hit(m2, h1).images[id] == r
            &&& model_wf(m2)
        }),
{
}

/// Law: two hashes farther apart than the acceptance threshold, recorded
/// in sequence into an empty store, each start their own cluster: two
/// distinct IDs, each with a seen-count of one.
pub proof fn lemma_non_duplicate_independence(
    h1: Seq<u8>,
    h2: Seq<u8>,
    id1: u64,
    id2: u64,
    r1: RecordV,
    r2: RecordV,
)
    requires
        h1.len() == HASH_LEN,
        h2.len() == HASH_LEN,
        h1 != h2,
        !similar(h2, h1),
        id1 != id2,
    ensures
        ({
            let m0 = StoreModel {
                hashes: Map::empty(),
                counts: Map::empty(),
                images: Map::empty(),
            };
            let m1 = new_cluster(m0, h1, id1, r1);
            let m2 = new_cluster(m1, h2, id2, r2);
            &&& !m1.hashes.contains_key(h2)
            &&& !has_near_match(m1, h2)
            &&& fresh_id(m1, id2)
            &&& m2.hashes[h1] == id1
            &&& m2.hashes[h2] == id2
            &&& m2.hashes[h1] != m2.hashes[h2]
            &&& m2.counts[id1] == 1
            &&& m2.counts[id2] == 1
            &&& model_wf(m2)
        }),
{
    let m0 = StoreModel { hashes: Map::empty(), counts: Map::empty(), images: Map::empty() };
    let m1 = new_cluster(m0, h1, id1, r1);
    assert(!has_near_match(m1, h2)) by {
        if has_near_match(m1, h2) {
            let k = choose|k: Seq<u8>| #[trigger]
                m1.hashes.contains_key(k) && k != h2 && similar(h2, k);
            assert(k == h1);
        }
    }
}

/// Law: no transition ever lowers a seen-count; a hit raises exactly the
/// hit cluster's count, by exactly one whenever the count is below the
/// largest representable value (at which it saturates instead of
/// wrapping); creating a fresh cluster and marking a record ignored leave
/// every existing count alone.
pub proof fn lemma_counter_monotonic(
    m: StoreModel,
    h: Seq<u8>,
    k: Seq<u8>,
    idn: u64,
    r: RecordV,
    id: u64,
)
    requires
        m.counts.contains_key(id),
    ensures
        m.counts[id] <= bump(m.counts[id]),
        bump(m.counts[id]) - m.counts[id] <= 1,
        m.counts[id] < u64::MAX ==> bump(m.counts[id]) == m.counts[id] + 1,
        exact_hit(m, h).counts.contains_key(id) && exact_hit(m, h).counts[id] >= m.counts[id],
        id == m.hashes[h] ==> exact_hit(m, h).counts[id] == bump(m.counts[id]),
        id != m.hashes[h] ==> exact_hit(m, h).counts[id] == m.counts[id],
        absorb(m, h, k).counts.contains_key(id) && absorb(m, h, k).counts[id] >= m.counts[id],
        id == m.hashes[k] ==> absorb(m, h, k).counts[id] == bump(m.counts[id]),
        id != m.hashes[k] ==> absorb(m, h, k).counts[id] == m.counts[id],
        fresh_id(m, idn) ==> new_cluster(m, h, idn, r).counts[id] == m.counts[id],
        mark_ignored_step(m, h).counts == m.counts,
{
}

/// Law: marking a known hash ignored and then recording an exact
/// duplicate of that hash reports a record whose `ignored` flag is true;
/// the record's other fields, its cluster and its hash entries are
/// untouched, and the duplicate still bumps the same cluster's count.
pub proof fn lemma_ignored_flag(m: StoreModel, h: Seq<u8>)
    requires
        model_wf(m),
        m.hashes.contains_key(h),
    ensures
        ({
            let m1 = mark_ignored_step(m, h);
            let id = m.hashes[h];
            &&& model_wf(m1)
            &&& m1.hashes == m.hashes
            &&& m1.counts == m.counts
            &&& m1.images[id].ignored == true
            &&& m1.images[id].author == m.images[id].author
            &&& m1.images[id].sent == m.images[id].sent
            &&& m1.images[id].original_message_id == m.images[id].original_message_id
            &&& m1.images[id].channel_id == m.images[id].channel_id
            &&& exact_hit(m1, h).images[id].ignored == true
            &&& exact_hit(m1, h).counts[id] == bump(m.counts[id])
        }),
{
}

} // verus!
