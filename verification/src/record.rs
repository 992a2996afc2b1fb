//! The durable image record: its in-memory shape, its fixed binary layout
//! on disk, and a mutable view over the stored bytes that permits only
//! fixed-width field writes (so the `ignored` flag can be flipped in place
//! without re-encoding the record).
//!
//! Layout of an encoded record, offsets in bytes:
//! `[0]` the `ignored` flag (0 or 1); `[1..9]` `sent`; `[9..17]`
//! `original_message_id`; `[17..25]` `channel_id`; `[25..33]` the byte
//! length of the author name; `[33..]` the author name in UTF-8. All
//! integers are little-endian.

use vstd::prelude::*;
use vstd::string::StrSliceExecFns;
use vstd::utf8::{decode_utf8, encode_utf8, valid_utf8};

use crate::codec::{encode_u64, le_u64, read_u64_at, u64_le};

verus! {

/// Byte offset of the `sent` field inside an encoded record.
pub const SENT_AT: usize = 1;

/// Byte offset of the `original_message_id` field.
pub const MESSAGE_ID_AT: usize = 9;

/// Byte offset of the `channel_id` field.
pub const CHANNEL_ID_AT: usize = 17;

/// Byte offset of the author-length field.
pub const AUTHOR_LEN_AT: usize = 25;

/// Length of the fixed-width prefix of an encoded record.
pub const HEADER_LEN: usize = 33;

/// The mathematical value of one image record.
pub struct RecordV {
    /// Suppress repost notifications for this image.
    pub ignored: bool,
    /// Who first posted the image.
    pub author: Seq<char>,
    /// Seconds since the epoch when the image was first seen.
    pub sent: u64,
    /// Reference to the message that first carried the image.
    pub original_message_id: u64,
    /// Reference to the channel where that message appeared.
    pub channel_id: u64,
}

/// The durable facts about one distinct image.
#[derive(Debug, Clone)]
pub struct SeenImage {
    /// Is this image excluded from repost notifications?
    pub ignored: bool,
    /// User who sent the message containing the image.
    pub author: String,
    /// Seconds between the epoch and the message carrying the image.
    pub sent: u64,
    /// ID of the message that contained this image; replied to on a repost.
    pub original_message_id: u64,
    /// ID of the channel the image was seen in.
    pub channel_id: u64,
}

impl View for SeenImage {
    type V = RecordV;

    open spec fn view(&self) -> RecordV {
        RecordV {
            ignored: self.ignored,
            author: self.author@,
            sent: self.sent,
            original_message_id: self.original_message_id,
            channel_id: self.channel_id,
        }
    }
}

impl SeenImage {
    /// A fresh record: not ignored, first seen now.
    pub fn new(author: String, sent: u64, original_message_id: u64, channel_id: u64) -> (s:
        SeenImage)
        ensures
            s@ == (RecordV {
                ignored: false,
                author: author@,
                sent,
                original_message_id,
                channel_id,
            }),
    {
        SeenImage { ignored: false, author, sent, original_message_id, channel_id }
    }
}

impl PartialEq for SeenImage {
    /// Two records are equal when all five fields are.
    fn eq(&self, other: &SeenImage) -> (r: bool) {
        self.ignored == other.ignored && self.author == other.author && self.sent == other.sent
            && self.original_message_id == other.original_message_id && self.channel_id
            == other.channel_id
    }
}

impl vstd::std_specs::cmp::PartialEqSpecImpl for SeenImage {
    open spec fn obeys_eq_spec() -> bool {
        true
    }

    open spec fn eq_spec(&self, other: &SeenImage) -> bool {
        self@ == other@
    }
}

/// The bytes of one encoded record.
pub open spec fn encode_rec(r: RecordV) -> Seq<u8> {
    let abytes = encode_utf8(r.author);
    seq![if r.ignored { 1u8 } else { 0u8 }] + u64_le(r.sent) + u64_le(r.original_message_id)
        + u64_le(r.channel_id) + u64_le(abytes.len() as u64) + abytes
}

/// The record read back from stored bytes, or nothing if the bytes are not
/// a well-formed encoding (wrong flag byte, wrong length, or an author
/// name that is not UTF-8).
pub open spec fn decode_rec(b: Seq<u8>) -> Option<RecordV> {
    if b.len() < HEADER_LEN {
        None
    } else if b[0] != 0 && b[0] != 1 {
        None
    } else {
        let alen = le_u64(b.subrange(AUTHOR_LEN_AT as int, HEADER_LEN as int));
        if b.len() != HEADER_LEN + alen {
            None
        } else {
            let abytes = b.subrange(HEADER_LEN as int, b.len() as int);
            if !valid_utf8(abytes) {
                None
            } else {
                Some(
                    RecordV {
                        ignored: b[0] == 1,
                        author: decode_utf8(abytes),
                        sent: le_u64(b.subrange(SENT_AT as int, SENT_AT as int + 8)),
                        original_message_id: le_u64(
                            b.subrange(MESSAGE_ID_AT as int, MESSAGE_ID_AT as int + 8),
                        ),
                        channel_id: le_u64(
                            b.subrange(CHANNEL_ID_AT as int, CHANNEL_ID_AT as int + 8),
                        ),
                    },
                )
            }
        }
    }
}

/// Decoding inverts encoding: reading back an encoded record gives the
/// record itself.
pub proof fn lemma_record_round_trip(r: RecordV)
    requires
        encode_utf8(r.author).len() <= u64::MAX,
    ensures
        decode_rec(encode_rec(r)) == Some(r),
{
    crate::codec::lemma_u64_le_bijective();
    broadcast use vstd::utf8::encode_utf8_valid_utf8;
    broadcast use vstd::utf8::encode_utf8_decode_utf8;

    let abytes = encode_utf8(r.author);
    let e = encode_rec(r);
    assert(e.len() == HEADER_LEN + abytes.len());
    assert(e[0] == if r.ignored { 1u8 } else { 0u8 });
    assert(e.subrange(SENT_AT as int, SENT_AT as int + 8) =~= u64_le(r.sent));
    assert(e.subrange(MESSAGE_ID_AT as int, MESSAGE_ID_AT as int + 8) =~= u64_le(
        r.original_message_id,
    ));
    assert(e.subrange(CHANNEL_ID_AT as int, CHANNEL_ID_AT as int + 8) =~= u64_le(r.channel_id));
    assert(e.subrange(AUTHOR_LEN_AT as int, HEADER_LEN as int) =~= u64_le(abytes.len() as u64));
    assert(e.subrange(HEADER_LEN as int, e.len() as int) =~= abytes);
    assert(decode_rec(e)->Some_0 =~= r);
}

/// Relies on std's `str::from_utf8`: it succeeds exactly on valid UTF-8
/// input and decodes it to the corresponding characters.
#[verifier::external_body]
fn utf8_to_string(b: &[u8]) -> (r: Option<String>)
    ensures
        match r {
            Some(s) => valid_utf8(b@) && s@ == decode_utf8(b@),
            None => !valid_utf8(b@),
        },
{
    match core::str::from_utf8(b) {
        Ok(s) => Some(s.to_owned()),
        Err(_) => None,
    }
}

/// Encode a record into its stored bytes.
pub fn encode_record(img: &SeenImage) -> (out: Vec<u8>)
    ensures
        out@ == encode_rec(img@),
{
    let mut out: Vec<u8> = Vec::new();
    out.push(if img.ignored { 1 } else { 0 });
    let mut sent = encode_u64(img.sent);
    out.append(&mut sent);
    let mut mid = encode_u64(img.original_message_id);
    out.append(&mut mid);
    let mut chan = encode_u64(img.channel_id);
    out.append(&mut chan);
    let mut abytes = img.author.as_str().as_bytes_vec();
    let mut alen = encode_u64(abytes.len() as u64);
    out.append(&mut alen);
    out.append(&mut abytes);
    assert(out@ =~= encode_rec(img@));
    out
}

/// Decode stored bytes back into a record; fails exactly where
/// `decode_rec` does.
pub fn decode_record(b: &[u8]) -> (r: Option<SeenImage>)
    ensures
        match r {
            Some(img) => decode_rec(b@) == Some(img@),
            None => decode_rec(b@) is None,
        },
{
    let n = b.len();
    if n < HEADER_LEN {
        return None;
    }
    let flag = b[0];
    if flag != 0 && flag != 1 {
        return None;
    }
    let sent = read_u64_at(b, SENT_AT);
    let original_message_id = read_u64_at(b, MESSAGE_ID_AT);
    let channel_id = read_u64_at(b, CHANNEL_ID_AT);
    let alen = read_u64_at(b, AUTHOR_LEN_AT);
    if alen != (n - HEADER_LEN) as u64 {
        return None;
    }
    let abytes = vstd::slice::slice_subrange(b, HEADER_LEN, n);
    match utf8_to_string(abytes) {
        Some(author) => Some(
            SeenImage { ignored: flag == 1, author, sent, original_message_id, channel_id },
        ),
        None => None,
    }
}

/// Overwrite one byte of a buffer in place.
fn set_byte(v: &mut Vec<u8>, i: usize, b: u8)
    requires
        i < old(v)@.len(),
    ensures
        final(v)@ == old(v)@.update(i as int, b),
    no_unwind
{
    v[i] = b;
}

/// A mutable window onto the stored bytes of one record. Only fixed-width
/// fields can be written through it, so a mutation can never change the
/// record's length or move its variable-length tail.
pub struct RecordView {
    buf: Vec<u8>,
}

impl View for RecordView {
    type V = RecordV;

    closed spec fn view(&self) -> RecordV {
        decode_rec(self.buf@)->Some_0
    }
}

impl RecordView {
    #[verifier::type_invariant]
    spec fn type_inv(self) -> bool {
        decode_rec(self.buf@) is Some
    }

    /// The raw stored bytes under this view.
    pub closed spec fn bytes(self) -> Seq<u8> {
        self.buf@
    }

    /// Open a view over stored record bytes; fails if they do not decode.
    pub fn from_bytes(buf: Vec<u8>) -> (r: Option<RecordView>)
        ensures
            match r {
                Some(v) => decode_rec(buf@) is Some && v@ == decode_rec(buf@)->Some_0 && v.bytes()
                    == buf@,
                None => decode_rec(buf@) is None,
            },
    {
        match decode_record(buf.as_slice()) {
            Some(_) => Some(RecordView { buf }),
            None => None,
        }
    }

    /// Give the bytes back, for writing the (possibly mutated) record
    /// verbatim to the store.
    pub fn into_bytes(self) -> (out: Vec<u8>)
        ensures
            out@ == self.bytes(),
            decode_rec(out@) == Some(self@),
    {
        proof {
            use_type_invariant(&self);
        }
        let RecordView { buf } = self;
        buf
    }

    /// Read the `ignored` flag straight from the stored bytes.
    pub fn ignored(&self) -> (r: bool)
        ensures
            r == self@.ignored,
    {
        proof {
            use_type_invariant(self);
        }
        self.buf[0] == 1
    }

    /// Read the `sent` timestamp straight from the stored bytes.
    pub fn sent(&self) -> (r: u64)
        ensures
            r == self@.sent,
    {
        proof {
            use_type_invariant(self);
        }
        read_u64_at(self.buf.as_slice(), SENT_AT)
    }

    /// Read the original message reference straight from the stored bytes.
    pub fn original_message_id(&self) -> (r: u64)
        ensures
            r == self@.original_message_id,
    {
        proof {
            use_type_invariant(self);
        }
        read_u64_at(self.buf.as_slice(), MESSAGE_ID_AT)
    }

    /// Read the channel reference straight from the stored bytes.
    pub fn channel_id(&self) -> (r: u64)
        ensures
            r == self@.channel_id,
    {
        proof {
            use_type_invariant(self);
        }
        read_u64_at(self.buf.as_slice(), CHANNEL_ID_AT)
    }

    /// Copy the author name out of the stored bytes.
    pub fn author(&self) -> (r: String)
        ensures
            r@ == self@.author,
    {
        proof {
            use_type_invariant(self);
        }
        let n = self.buf.len();
        let abytes = vstd::slice::slice_subrange(self.buf.as_slice(), HEADER_LEN, n);
        utf8_to_string(abytes).unwrap()
    }

    /// Overwrite the `ignored` flag in place: a one-byte, fixed-width
    /// write; every other field keeps its value.
    pub fn set_ignored(&mut self, v: bool)
        ensures
            final(self)@ == (RecordV { ignored: v, ..old(self)@ }),
            final(self).bytes().len() == old(self).bytes().len(),
    {
        let ghost prior = self.buf@;
        let byte: u8 = if v { 1 } else { 0 };
        proof {
            use_type_invariant(&*self);
            let updated = prior.update(0, byte);
            assert(updated.subrange(SENT_AT as int, SENT_AT as int + 8) =~= prior.subrange(
                SENT_AT as int,
                SENT_AT as int + 8,
            ));
            assert(updated.subrange(MESSAGE_ID_AT as int, MESSAGE_ID_AT as int + 8)
                =~= prior.subrange(MESSAGE_ID_AT as int, MESSAGE_ID_AT as int + 8));
            assert(updated.subrange(CHANNEL_ID_AT as int, CHANNEL_ID_AT as int + 8)
                =~= prior.subrange(CHANNEL_ID_AT as int, CHANNEL_ID_AT as int + 8));
            assert(updated.subrange(AUTHOR_LEN_AT as int, HEADER_LEN as int) =~= prior.subrange(
                AUTHOR_LEN_AT as int,
                HEADER_LEN as int,
            ));
            assert(updated.subrange(HEADER_LEN as int, updated.len() as int) =~= prior.subrange(
                HEADER_LEN as int,
                prior.len() as int,
            ));
            assert(decode_rec(updated) is Some);
            assert(decode_rec(updated)->Some_0 =~= (RecordV { ignored: v, ..decode_rec(
                prior,
            )->Some_0 }));
        }
        set_byte(&mut self.buf, 0, byte);
        assert(self.buf@ == prior.update(0, byte));
    }
}

} // verus!
