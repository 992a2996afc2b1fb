//! The perceptual-hash engine: a fixed-length visual fingerprint of an
//! image, the Hamming distance between two fingerprints, and the fixed
//! acceptance threshold that makes two images "near duplicates".

use vstd::prelude::*;

use crate::errors::EngineError;

verus! {

#[verifier::external_type_specification]
#[verifier::external_body]
pub struct ExImageError(image::error::ImageError);

/// Length in bytes of every perceptual hash. The hash algorithm and this
/// length are fixed for the lifetime of a store: changing either would
/// invalidate every stored hash-index entry.
pub const HASH_LEN: usize = 8;

/// Two hashes at most this many bits apart name the same image.
pub const DIFFERENCE_THRESHOLD: u32 = 8;

/// Number of set bits in one byte.
pub open spec fn ones8(x: u8) -> int {
    ((x & 1) + ((x >> 1) & 1) + ((x >> 2) & 1) + ((x >> 3) & 1) + ((x >> 4) & 1) + ((x >> 5) & 1)
        + ((x >> 6) & 1) + ((x >> 7) & 1)) as int
}

/// Hamming distance between the first `n` bytes of two byte strings:
/// the number of bit positions at which they differ.
pub open spec fn hamming_prefix(a: Seq<u8>, b: Seq<u8>, n: int) -> int
    decreases n,
{
    if n <= 0 {
        0
    } else {
        hamming_prefix(a, b, n - 1) + ones8(a[n - 1] ^ b[n - 1])
    }
}

/// Hamming distance between two equal-length byte strings.
pub open spec fn hamming(a: Seq<u8>, b: Seq<u8>) -> int {
    hamming_prefix(a, b, a.len() as int)
}

/// Two byte strings name the same image when they have the same length
/// and are at most `DIFFERENCE_THRESHOLD` bits apart.
pub open spec fn similar(a: Seq<u8>, b: Seq<u8>) -> bool {
    a.len() == b.len() && hamming(a, b) <= DIFFERENCE_THRESHOLD
}

/// Number of set bits in one byte, computed bit by bit.
fn byte_ones(x: u8) -> (n: u8)
    ensures
        n as int == ones8(x),
        n <= 8,
{
    assert((x & 1) <= 1 && ((x >> 1) & 1) <= 1 && ((x >> 2) & 1) <= 1 && ((x >> 3) & 1) <= 1 && ((
    x >> 4) & 1) <= 1 && ((x >> 5) & 1) <= 1 && ((x >> 6) & 1) <= 1 && ((x >> 7) & 1) <= 1)
        by (bit_vector);
    (x & 1) + ((x >> 1) & 1) + ((x >> 2) & 1) + ((x >> 3) & 1) + ((x >> 4) & 1) + ((x >> 5) & 1) + (
    (x >> 6) & 1) + ((x >> 7) & 1)
}

/// A byte is no more than eight bits away from any other.
proof fn lemma_ones8_bound(x: u8)
    ensures
        0 <= ones8(x) <= 8,
{
    assert((x & 1) <= 1 && ((x >> 1) & 1) <= 1 && ((x >> 2) & 1) <= 1 && ((x >> 3) & 1) <= 1 && ((
    x >> 4) & 1) <= 1 && ((x >> 5) & 1) <= 1 && ((x >> 6) & 1) <= 1 && ((x >> 7) & 1) <= 1)
        by (bit_vector);
}

/// The distance of a hash to itself is zero.
pub proof fn lemma_hamming_self(a: Seq<u8>, n: int)
    ensures
        hamming_prefix(a, a, n) == 0,
    decreases n,
{
    if n > 0 {
        lemma_hamming_self(a, n - 1);
        let x = a[n - 1];
        assert(ones8(x ^ x) == 0) by (bit_vector);
    }
}

/// The distance between two hashes does not depend on their order.
pub proof fn lemma_hamming_symmetric(a: Seq<u8>, b: Seq<u8>, n: int)
    ensures
        hamming_prefix(a, b, n) == hamming_prefix(b, a, n),
    decreases n,
{
    if n > 0 {
        lemma_hamming_symmetric(a, b, n - 1);
        let x = a[n - 1];
        let y = b[n - 1];
        assert(ones8(x ^ y) == ones8(y ^ x)) by (bit_vector);
    }
}

/// A fixed-length perceptual hash of one image.
#[derive(Debug)]
pub struct ImageHash {
    bytes: Vec<u8>,
}

impl View for ImageHash {
    type V = Seq<u8>;

    closed spec fn view(&self) -> Seq<u8> {
        self.bytes@
    }
}

impl ImageHash {
    #[verifier::type_invariant]
    spec fn type_inv(self) -> bool {
        self.bytes@.len() == HASH_LEN
    }

    /// Rebuild a hash from stored bytes; fails on any other length.
    pub fn from_bytes(b: &[u8]) -> (r: Option<ImageHash>)
        ensures
            match r {
                Some(h) => b@.len() == HASH_LEN && h@ == b@,
                None => b@.len() != HASH_LEN,
            },
    {
        if b.len() == HASH_LEN {
            Some(ImageHash { bytes: vstd::slice::slice_to_vec(b) })
        } else {
            None
        }
    }

    /// The raw bytes of the hash, as they are stored in the hash index.
    pub fn as_bytes(&self) -> (r: &[u8])
        ensures
            r@ == self@,
            r@.len() == HASH_LEN,
    {
        proof {
            use_type_invariant(self);
        }
        self.bytes.as_slice()
    }
}

/// The perceptual hash of a decodable image: a deterministic function of
/// the image bytes alone (the decoder and the block-hash algorithm take
/// nothing else into account).
pub uninterp spec fn perceptual_hash_of(image: Seq<u8>) -> Seq<u8>;

/// Whether the bytes are an image that the decoder accepts: a
/// deterministic function of the bytes alone.
pub uninterp spec fn decodable(image: Seq<u8>) -> bool;

/// Decode an image from its raw bytes (container format auto-detected)
/// and compute its perceptual hash; an undecodable input is reported as
/// `UnsupportedImageFormat` and nothing is recorded.
///
/// Relies on the image crate's decoder and on the perceptual hasher's
/// block-hash algorithm at its fixed 8-by-8 size: decoding succeeds on a
/// given byte string deterministically, the hash is a function of the
/// decoded image alone, and a 64-bit block hash is exactly `HASH_LEN`
/// bytes.
#[verifier::external_body]
pub fn process_image(image: Vec<u8>) -> (r: Result<ImageHash, EngineError>)
    ensures
        r is Ok <==> decodable(image@),
        match r {
            Ok(h) => h@ == perceptual_hash_of(image@) && h@.len() == HASH_LEN,
            Err(e) => e is UnsupportedImageFormat,
        },
{
    let hasher = img_hash::HasherConfig::with_bytes_type::<[u8; 8]>()
        .hash_alg(img_hash::HashAlg::Blockhash)
        .to_hasher();
    let decoded = image::io::Reader::new(std::io::Cursor::new(image))
        .with_guessed_format()
        .map_err(|e| EngineError::UnsupportedImageFormat(image::error::ImageError::IoError(e)))?
        .decode()
        .map_err(EngineError::UnsupportedImageFormat)?;
    Ok(ImageHash { bytes: hasher.hash_image(&decoded).as_bytes().to_vec() })
}

/// Is a stored hash-index key close enough to a freshly computed hash to
/// name the same image? Keys of another length (which a well-formed store
/// never holds) are never similar.
pub fn similar_enough(new: &ImageHash, seen: &[u8]) -> (r: bool)
    ensures
        r == similar(new@, seen@),
{
    proof {
        use_type_invariant(new);
    }
    let a = new.as_bytes();
    if seen.len() != HASH_LEN {
        return false;
    }
    let mut dist: u32 = 0;
    let mut i: usize = 0;
    while i < HASH_LEN
        invariant
            a@.len() == HASH_LEN,
            seen@.len() == HASH_LEN,
            0 <= i <= HASH_LEN,
            dist as int == hamming_prefix(a@, seen@, i as int),
            dist <= 8 * i,
        decreases HASH_LEN - i,
    {
        let d = byte_ones(a[i] ^ seen[i]);
        proof {
            lemma_ones8_bound(a@[i as int] ^ seen@[i as int]);
        }
        dist += d as u32;
        i += 1;
    }
    dist <= DIFFERENCE_THRESHOLD
}

} // verus!
