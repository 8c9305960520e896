//! The wire format of a revision: its fields in the order object id, base
//! revision id, revision id, delta, author id, checksum. A number is eight
//! bytes, least significant first; a text or the delta is its length in
//! bytes as such a number, then the bytes, a text in UTF-8.

use crate::codec::utf8_text;
use crate::errors::ErrorCode;
use crate::revision::{Revision, RevisionModel};
use vstd::bytes::{
    lemma_auto_spec_u64_to_from_le_bytes, spec_u64_from_le_bytes, spec_u64_to_le_bytes,
    u64_from_le_bytes, u64_to_le_bytes,
};
use vstd::prelude::*;
use vstd::slice::{slice_subrange, slice_to_vec};
use vstd::utf8::{
    decode_utf8, encode_utf8, encode_utf8_decode_utf8, encode_utf8_valid_utf8, valid_utf8,
};

verus! {

/// The bytes of a number.
pub open spec fn number(x: u64) -> Seq<u8> {
    spec_u64_to_le_bytes(x)
}

/// The bytes of a field of bytes: their number, then they.
pub open spec fn field(bytes: Seq<u8>) -> Seq<u8> {
    number(bytes.len() as u64) + bytes
}

/// The bytes of a revision.
pub open spec fn frame(rev: RevisionModel) -> Seq<u8> {
    field(encode_utf8(rev.object_id)) + number(rev.base_rev_id) + number(rev.rev_id) + field(
        rev.delta_bytes,
    ) + field(encode_utf8(rev.author_id)) + field(encode_utf8(rev.checksum))
}

/// Whether the lengths of the fields fit the eight bytes they are written in.
pub open spec fn frame_fits(rev: RevisionModel) -> bool {
    &&& encode_utf8(rev.object_id).len() <= u64::MAX
    &&& rev.delta_bytes.len() <= u64::MAX
    &&& encode_utf8(rev.author_id).len() <= u64::MAX
    &&& encode_utf8(rev.checksum).len() <= u64::MAX
}

/// The number at `pos` and the place behind it, if eight bytes are there.
pub open spec fn read_number(bytes: Seq<u8>, pos: int) -> Option<(u64, int)> {
    if 0 <= pos && pos + 8 <= bytes.len() {
        Some((spec_u64_from_le_bytes(bytes.subrange(pos, pos + 8)), pos + 8))
    } else {
        None
    }
}

/// The field at `pos` and the place behind it, if its length and that many
/// bytes are there.
pub open spec fn read_field(bytes: Seq<u8>, pos: int) -> Option<(Seq<u8>, int)> {
    match read_number(bytes, pos) {
        Some((n, start)) => if start + n <= bytes.len() {
            Some((bytes.subrange(start, start + n), start + n))
        } else {
            None
        },
        None => None,
    }
}

/// The text at `pos` and the place behind it, if a field of valid UTF-8 is there.
pub open spec fn read_text(bytes: Seq<u8>, pos: int) -> Option<(Seq<char>, int)> {
    match read_field(bytes, pos) {
        Some((b, next)) => if valid_utf8(b) {
            Some((decode_utf8(b), next))
        } else {
            None
        },
        None => None,
    }
}

/// The revision that `bytes` hold, or `None` where the bytes are not those
/// of one revision and nothing more.
pub open spec fn unframe(bytes: Seq<u8>) -> Option<RevisionModel> {
    match read_text(bytes, 0) {
        None => None,
        Some((object_id, p1)) => match read_number(bytes, p1) {
            None => None,
            Some((base_rev_id, p2)) => match read_number(bytes, p2) {
                None => None,
                Some((rev_id, p3)) => match read_field(bytes, p3) {
                    None => None,
                    Some((delta_bytes, p4)) => match read_text(bytes, p4) {
                        None => None,
                        Some((author_id, p5)) => match read_text(bytes, p5) {
                            None => None,
                            Some((checksum, p6)) => if p6 == bytes.len() {
                                Some(
                                    RevisionModel {
                                        object_id,
                                        base_rev_id,
                                        rev_id,
                                        delta_bytes,
                                        author_id,
                                        checksum,
                                    },
                                )
                            } else {
                                None
                            },
                        },
                    },
                },
            },
        },
    }
}

/// A number written between other bytes is read back at its place.
pub proof fn lemma_read_number_at(before: Seq<u8>, x: u64, after: Seq<u8>)
    ensures
        read_number(before + number(x) + after, before.len() as int) == Some(
            (x, (before.len() + 8) as int),
        ),
        (before + number(x)).len() == before.len() + 8,
{
    lemma_auto_spec_u64_to_from_le_bytes();
    let all = before + number(x) + after;
    let at = before.len() as int;
    assert(all.subrange(at, at + 8) =~= number(x));
}

/// A field written between other bytes is read back at its place.
pub proof fn lemma_read_field_at(before: Seq<u8>, body: Seq<u8>, after: Seq<u8>)
    requires
        body.len() <= u64::MAX,
    ensures
        read_field(before + field(body) + after, before.len() as int) == Some(
            (body, (before.len() + 8 + body.len()) as int),
        ),
        (before + field(body)).len() == before.len() + 8 + body.len(),
{
    lemma_auto_spec_u64_to_from_le_bytes();
    let all = before + field(body) + after;
    let n = number(body.len() as u64);
    assert(all =~= before + n + (body + after));
    lemma_read_number_at(before, body.len() as u64, body + after);
    let at = before.len() as int;
    assert(all.subrange(at + 8, at + 8 + body.len()) =~= body);
}

/// A text written between other bytes is read back at its place.
pub proof fn lemma_read_text_at(before: Seq<u8>, text: Seq<char>, after: Seq<u8>)
    requires
        encode_utf8(text).len() <= u64::MAX,
    ensures
        read_text(before + field(encode_utf8(text)) + after, before.len() as int) == Some(
            (text, (before.len() + 8 + encode_utf8(text).len()) as int),
        ),
{
    lemma_read_field_at(before, encode_utf8(text), after);
    encode_utf8_valid_utf8(text);
    encode_utf8_decode_utf8(text);
}

/// Round trip: the bytes of a revision hold that revision.
pub proof fn lemma_unframe_frame(rev: RevisionModel)
    requires
        frame_fits(rev),
    ensures
        unframe(frame(rev)) == Some(rev),
{
    let empty = Seq::<u8>::empty();
    let f1 = field(encode_utf8(rev.object_id));
    let n2 = number(rev.base_rev_id);
    let n3 = number(rev.rev_id);
    let f4 = field(rev.delta_bytes);
    let f5 = field(encode_utf8(rev.author_id));
    let f6 = field(encode_utf8(rev.checksum));
    let all = frame(rev);
    lemma_auto_spec_u64_to_from_le_bytes();
    assert(all =~= empty + f1 + (n2 + n3 + f4 + f5 + f6));
    lemma_read_text_at(empty, rev.object_id, n2 + n3 + f4 + f5 + f6);
    let p1 = f1.len() as int;
    assert(all =~= f1 + n2 + (n3 + f4 + f5 + f6));
    lemma_read_number_at(f1, rev.base_rev_id, n3 + f4 + f5 + f6);
    assert(all =~= (f1 + n2) + n3 + (f4 + f5 + f6));
    lemma_read_number_at(f1 + n2, rev.rev_id, f4 + f5 + f6);
    assert(all =~= (f1 + n2 + n3) + f4 + (f5 + f6));
    lemma_read_field_at(f1 + n2 + n3, rev.delta_bytes, f5 + f6);
    assert(all =~= (f1 + n2 + n3 + f4) + f5 + f6);
    lemma_read_text_at(f1 + n2 + n3 + f4, rev.author_id, f6);
    assert(all =~= (f1 + n2 + n3 + f4 + f5) + f6 + empty);
    lemma_read_text_at(f1 + n2 + n3 + f4 + f5, rev.checksum, empty);
}

/// Appends a field of bytes.
fn put_field(out: &mut Vec<u8>, bytes: &[u8])
    ensures
        final(out)@ == old(out)@ + field(bytes@),
{
    let ghost before = out@;
    let mut len = u64_to_le_bytes(bytes.len() as u64);
    out.append(&mut len);
    out.extend_from_slice(bytes);
    assert(out@ =~= before + field(bytes@));
}

/// Appends a number.
fn put_number(out: &mut Vec<u8>, x: u64)
    ensures
        final(out)@ == old(out)@ + number(x),
{
    let mut bytes = u64_to_le_bytes(x);
    out.append(&mut bytes);
}

/// Reads the number at `pos`.
fn get_number(bytes: &[u8], pos: usize) -> (r: Option<(u64, usize)>)
    ensures
        match read_number(bytes@, pos as int) {
            Some((x, next)) => r matches Some(got) && got.0 == x && got.1 == next && next
                <= bytes@.len(),
            None => r is None,
        },
{
    if bytes.len() < 8 || pos > bytes.len() - 8 {
        return None;
    }
    let x = u64_from_le_bytes(slice_subrange(bytes, pos, pos + 8));
    Some((x, pos + 8))
}

/// Reads the field at `pos`.
fn get_field(bytes: &[u8], pos: usize) -> (r: Option<(&[u8], usize)>)
    ensures
        match read_field(bytes@, pos as int) {
            Some((body, next)) => r matches Some(got) && got.0@ == body && got.1 == next && next
                <= bytes@.len(),
            None => r is None,
        },
{
    let (n, start) = match get_number(bytes, pos) {
        Some(pair) => pair,
        None => {
            return None;
        },
    };
    if n > (bytes.len() - start) as u64 {
        return None;
    }
    let end = start + n as usize;
    Some((slice_subrange(bytes, start, end), end))
}

/// Reads the text at `pos`.
fn get_text(bytes: &[u8], pos: usize) -> (r: Option<(String, usize)>)
    ensures
        match read_text(bytes@, pos as int) {
            Some((text, next)) => r matches Some(got) && got.0@ == text && got.1 == next && next
                <= bytes@.len(),
            None => r is None,
        },
{
    let (body, next) = match get_field(bytes, pos) {
        Some(pair) => pair,
        None => {
            return None;
        },
    };
    match utf8_text(body) {
        Some(s) => Some((s.to_owned(), next)),
        None => None,
    }
}

impl Revision {
    /// The revision in the wire format.
    pub fn to_bytes(&self) -> (bytes: Vec<u8>)
        ensures
            bytes@ == frame(self@),
            unframe(bytes@) == Some(self@),
    {
        let mut out: Vec<u8> = Vec::new();
        let object_id = self.object_id.as_str().as_bytes();
        let author_id = self.author_id.as_str().as_bytes();
        let checksum = self.checksum.as_str().as_bytes();
        let delta = self.delta_bytes.as_slice();
        let _ = object_id.len();
        let _ = author_id.len();
        let _ = checksum.len();
        let _ = delta.len();
        put_field(&mut out, object_id);
        put_number(&mut out, self.base_rev_id);
        put_number(&mut out, self.rev_id);
        put_field(&mut out, delta);
        put_field(&mut out, author_id);
        put_field(&mut out, checksum);
        proof {
            assert(out@ =~= frame(self@));
            lemma_unframe_frame(self@);
        }
        out
    }

    /// Reads a revision from the wire format. Bytes that are not those of
    /// one revision and nothing more are refused.
    pub fn from_bytes(bytes: &[u8]) -> (r: Result<Revision, ErrorCode>)
        ensures
            r is Ok <==> unframe(bytes@) is Some,
            r matches Err(e) ==> e == ErrorCode::MalformedDelta,
            r matches Ok(rev) ==> rev@ == unframe(bytes@)->0,
    {
        let ghost all = bytes@;
        let (object_id, p1) = match get_text(bytes, 0) {
            Some(pair) => pair,
            None => {
                return Err(ErrorCode::MalformedDelta);
            },
        };
        assert(read_text(all, 0) == Some((object_id@, p1 as int)));
        let (base_rev_id, p2) = match get_number(bytes, p1) {
            Some(pair) => pair,
            None => {
                return Err(ErrorCode::MalformedDelta);
            },
        };
        assert(read_number(all, p1 as int) == Some((base_rev_id, p2 as int)));
        let (rev_id, p3) = match get_number(bytes, p2) {
            Some(pair) => pair,
            None => {
                return Err(ErrorCode::MalformedDelta);
            },
        };
        assert(read_number(all, p2 as int) == Some((rev_id, p3 as int)));
        let (delta, p4) = match get_field(bytes, p3) {
            Some(pair) => pair,
            None => {
                return Err(ErrorCode::MalformedDelta);
            },
        };
        assert(read_field(all, p3 as int) == Some((delta@, p4 as int)));
        let (author_id, p5) = match get_text(bytes, p4) {
            Some(pair) => pair,
            None => {
                return Err(ErrorCode::MalformedDelta);
            },
        };
        assert(read_text(all, p4 as int) == Some((author_id@, p5 as int)));
        let (checksum, p6) = match get_text(bytes, p5) {
            Some(pair) => pair,
            None => {
                return Err(ErrorCode::MalformedDelta);
            },
        };
        assert(read_text(all, p5 as int) == Some((checksum@, p6 as int)));
        if p6 != bytes.len() {
            return Err(ErrorCode::MalformedDelta);
        }
        Ok(
            Revision {
                object_id,
                base_rev_id,
                rev_id,
                delta_bytes: slice_to_vec(delta),
                author_id,
                checksum,
            },
        )
    }
}

} // verus!
