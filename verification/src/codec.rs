//! The byte format of a delta.
//!
//! Each operation is a tag byte and a length of eight bytes, least
//! significant first. A delete (`d`) and a retain (`r`) give their number of
//! characters. An insert (`i`) gives the number of bytes of its text, and the
//! text follows in UTF-8.

use crate::delta::Delta;
use crate::errors::ErrorCode;
use crate::op::{ops_view, Op, Operation, PlainTextAttributes};
use crate::semantics::{base_len, normalize, push_op, target_len};
use crate::semantics_proofs::{
    lemma_len_concat, lemma_len_push, lemma_normalize_canonical, lemma_push_all_snoc,
};
use vstd::bytes::{
    lemma_auto_spec_u64_to_from_le_bytes, spec_u64_from_le_bytes, spec_u64_to_le_bytes,
    u64_from_le_bytes, u64_to_le_bytes,
};
use vstd::prelude::*;
use vstd::slice::slice_subrange;
use vstd::utf8::{
    decode_utf8, decode_utf8_encode_utf8, encode_utf8, encode_utf8_decode_utf8,
    encode_utf8_valid_utf8, valid_utf8,
};

verus! {

/// Tag of a delete: the letter `d`.
pub const TAG_DELETE: u8 = 0x64;

/// Tag of a retain: the letter `r`.
pub const TAG_RETAIN: u8 = 0x72;

/// Tag of an insert: the letter `i`.
pub const TAG_INSERT: u8 = 0x69;

/// Bytes of a tag and a length.
pub const HEADER_LEN: usize = 9;

/// The bytes of one operation.
pub open spec fn encode_op(op: Op) -> Seq<u8> {
    match op {
        Op::Delete(n) => seq![TAG_DELETE] + spec_u64_to_le_bytes(n as u64),
        Op::Retain(n) => seq![TAG_RETAIN] + spec_u64_to_le_bytes(n as u64),
        Op::Insert(s) => seq![TAG_INSERT] + spec_u64_to_le_bytes(encode_utf8(s).len() as u64)
            + encode_utf8(s),
    }
}

/// The bytes of a sequence of operations: those of each, in order.
pub open spec fn encode(ops: Seq<Op>) -> Seq<u8>
    decreases ops.len(),
{
    if ops.len() == 0 {
        Seq::empty()
    } else {
        encode_op(ops[0]) + encode(ops.skip(1))
    }
}

/// Whether the lengths of an operation fit the eight bytes they are written in.
pub open spec fn op_fits(op: Op) -> bool {
    match op {
        Op::Delete(n) => n <= u64::MAX,
        Op::Retain(n) => n <= u64::MAX,
        Op::Insert(s) => encode_utf8(s).len() <= u64::MAX,
    }
}

/// Whether every operation fits.
pub open spec fn fits(ops: Seq<Op>) -> bool {
    forall|i: int| 0 <= i < ops.len() ==> op_fits(#[trigger] ops[i])
}

/// `ops` in front of what was read after them, if that was read.
pub open spec fn prefixed(ops: Seq<Op>, rest: Option<Seq<Op>>) -> Option<Seq<Op>> {
    match rest {
        Some(r) => Some(ops + r),
        None => None,
    }
}

/// The operations that `bytes` hold, or `None` where the bytes are not the
/// bytes of any sequence of operations.
pub open spec fn decode(bytes: Seq<u8>) -> Option<Seq<Op>>
    decreases bytes.len(),
{
    if bytes.len() == 0 {
        Some(Seq::empty())
    } else if bytes.len() < HEADER_LEN {
        None
    } else {
        let n = spec_u64_from_le_bytes(bytes.subrange(1, HEADER_LEN as int)) as nat;
        if bytes[0] == TAG_DELETE {
            prefixed(seq![Op::Delete(n)], decode(bytes.skip(HEADER_LEN as int)))
        } else if bytes[0] == TAG_RETAIN {
            prefixed(seq![Op::Retain(n)], decode(bytes.skip(HEADER_LEN as int)))
        } else if bytes[0] == TAG_INSERT {
            let text = bytes.subrange(HEADER_LEN as int, HEADER_LEN + n);
            if bytes.len() < HEADER_LEN + n || !valid_utf8(text) {
                None
            } else {
                prefixed(seq![Op::Insert(decode_utf8(text))], decode(bytes.skip(HEADER_LEN + n)))
            }
        } else {
            None
        }
    }
}

/// The canonical operations that `bytes` hold, or `None` where the bytes are
/// not the bytes of operations or give lengths beyond what the machine counts.
pub open spec fn parse(bytes: Seq<u8>) -> Option<Seq<Op>> {
    match decode(bytes) {
        Some(ops) => if base_len(ops) <= usize::MAX && target_len(ops) <= usize::MAX {
            Some(normalize(ops))
        } else {
            None
        },
        None => None,
    }
}

/// The bytes of an operation start with its tag and its length.
pub proof fn lemma_encode_op_header(op: Op)
    requires
        op_fits(op),
    ensures
        encode_op(op).len() >= HEADER_LEN,
        encode_op(op)[0] == match op {
            Op::Delete(_) => TAG_DELETE,
            Op::Retain(_) => TAG_RETAIN,
            Op::Insert(_) => TAG_INSERT,
        },
        spec_u64_from_le_bytes(encode_op(op).subrange(1, HEADER_LEN as int)) as nat == match op {
            Op::Delete(n) => n,
            Op::Retain(n) => n,
            Op::Insert(s) => encode_utf8(s).len(),
        },
        op is Insert ==> encode_op(op).len() == HEADER_LEN + encode_utf8(op->Insert_0).len(),
        !(op is Insert) ==> encode_op(op).len() == HEADER_LEN,
{
    lemma_auto_spec_u64_to_from_le_bytes();
    let e = encode_op(op);
    match op {
        Op::Delete(n) => {
            assert(e.subrange(1, HEADER_LEN as int) =~= spec_u64_to_le_bytes(n as u64));
        },
        Op::Retain(n) => {
            assert(e.subrange(1, HEADER_LEN as int) =~= spec_u64_to_le_bytes(n as u64));
        },
        Op::Insert(s) => {
            assert(e.subrange(1, HEADER_LEN as int) =~= spec_u64_to_le_bytes(
                encode_utf8(s).len() as u64,
            ));
        },
    }
}

/// Round trip: what was encoded decodes to itself.
pub proof fn lemma_decode_encode(ops: Seq<Op>)
    requires
        fits(ops),
    ensures
        decode(encode(ops)) == Some(ops),
    decreases ops.len(),
{
    if ops.len() > 0 {
        let op = ops[0];
        let rest = ops.skip(1);
        let head = encode_op(op);
        let bytes = encode(ops);
        assert(op_fits(op));
        assert(fits(rest)) by {
            assert forall|i: int| 0 <= i < rest.len() implies op_fits(#[trigger] rest[i]) by {
                assert(rest[i] == ops[i + 1]);
            }
        }
        lemma_encode_op_header(op);
        lemma_decode_encode(rest);
        assert(bytes.subrange(1, HEADER_LEN as int) =~= head.subrange(1, HEADER_LEN as int));
        assert(bytes[0] == head[0]);
        assert(bytes.skip(head.len() as int) =~= encode(rest));
        assert(seq![op] + rest =~= ops);
        match op {
            Op::Insert(s) => {
                let n = encode_utf8(s).len();
                assert(bytes.subrange(HEADER_LEN as int, HEADER_LEN + n) =~= encode_utf8(s));
                encode_utf8_valid_utf8(s);
                encode_utf8_decode_utf8(s);
            },
            _ => {},
        }
    } else {
        assert(ops =~= Seq::<Op>::empty());
    }
}

/// What decodes was encoded: the bytes of the decoded operations are the bytes read.
pub proof fn lemma_encode_decode(bytes: Seq<u8>)
    requires
        decode(bytes) is Some,
    ensures
        encode(decode(bytes)->0) == bytes,
        fits(decode(bytes)->0),
    decreases bytes.len(),
{
    lemma_auto_spec_u64_to_from_le_bytes();
    if bytes.len() > 0 {
        let ops = decode(bytes)->0;
        let lenb = bytes.subrange(1, HEADER_LEN as int);
        let n = spec_u64_from_le_bytes(lenb) as nat;
        assert(spec_u64_to_le_bytes(spec_u64_from_le_bytes(lenb)) == lenb);
        if bytes[0] == TAG_INSERT {
            let text = bytes.subrange(HEADER_LEN as int, HEADER_LEN + n);
            let tail = bytes.skip(HEADER_LEN + n);
            decode_utf8_encode_utf8(text);
            lemma_encode_decode(tail);
            let rest = decode(tail)->0;
            assert(ops[0] == Op::Insert(decode_utf8(text)));
            assert(ops.skip(1) =~= rest);
            assert(op_fits(ops[0]));
            assert forall|i: int| 0 <= i < ops.len() implies op_fits(#[trigger] ops[i]) by {
                if i > 0 {
                    assert(ops[i] == rest[i - 1]);
                }
            }
            assert(encode_op(ops[0]) + tail =~= bytes);
        } else {
            let tail = bytes.skip(HEADER_LEN as int);
            lemma_encode_decode(tail);
            let rest = decode(tail)->0;
            assert(ops.skip(1) =~= rest);
            assert(op_fits(ops[0]));
            assert forall|i: int| 0 <= i < ops.len() implies op_fits(#[trigger] ops[i]) by {
                if i > 0 {
                    assert(ops[i] == rest[i - 1]);
                }
            }
            assert(encode_op(ops[0]) + tail =~= bytes);
        }
    } else {
        assert(decode(bytes)->0 =~= Seq::<Op>::empty());
    }
}

/// `core::str::from_utf8`: the text that the bytes encode in UTF-8, or
/// `None` where they are not valid UTF-8.
#[verifier::external_body]
pub(crate) fn utf8_text(bytes: &[u8]) -> (r: Option<&str>)
    ensures
        r is Some <==> valid_utf8(bytes@),
        r matches Some(s) ==> s@ == decode_utf8(bytes@),
{
    match core::str::from_utf8(bytes) {
        Ok(s) => Some(s),
        Err(_) => None,
    }
}

impl Delta {
    /// The delta in the byte format.
    pub fn to_bytes(&self) -> (bytes: Vec<u8>)
        ensures
            bytes@ == encode(self@),
            decode(bytes@) == Some(self@),
            parse(bytes@) == Some(self@),
    {
        let ops = self.ops();
        let _ = self.base_len();
        let _ = self.target_len();
        let mut out: Vec<u8> = Vec::new();
        let mut i: usize = 0;
        proof {
            assert(self@.skip(0) =~= self@);
            assert(out@ + encode(self@) =~= encode(self@));
        }
        while i < ops.len()
            invariant
                i <= ops@.len(),
                ops_view(ops@) == self@,
                out@ + encode(self@.skip(i as int)) == encode(self@),
                forall|j: int| 0 <= j < i ==> op_fits(#[trigger] self@[j]),
            decreases ops@.len() - i,
        {
            let ghost rest = self@.skip(i as int);
            let ghost before = out@;
            proof {
                assert(rest[0] == ops@[i as int]@);
                assert(rest.skip(1) =~= self@.skip(i + 1));
            }
            match &ops[i] {
                Operation::Delete(n) => {
                    out.push(TAG_DELETE);
                    let mut len = u64_to_le_bytes(*n as u64);
                    out.append(&mut len);
                },
                Operation::Retain(n, _) => {
                    out.push(TAG_RETAIN);
                    let mut len = u64_to_le_bytes(*n as u64);
                    out.append(&mut len);
                },
                Operation::Insert(s, _) => {
                    let text = s.as_str().as_bytes();
                    out.push(TAG_INSERT);
                    let mut len = u64_to_le_bytes(text.len() as u64);
                    out.append(&mut len);
                    out.extend_from_slice(text);
                },
            }
            proof {
                assert(op_fits(self@[i as int]));
                assert(out@ =~= before + encode_op(rest[0]));
                assert((before + encode_op(rest[0])) + encode(rest.skip(1)) =~= before + (
                encode_op(rest[0]) + encode(rest.skip(1))));
            }
            i = i + 1;
        }
        proof {
            assert(self@.skip(i as int) =~= Seq::<Op>::empty());
            assert(out@ + Seq::<u8>::empty() =~= out@);
            assert(fits(self@));
            lemma_decode_encode(self@);
            lemma_normalize_canonical(self@);
        }
        out
    }

    /// Reads a delta from the byte format. Bytes that are not the bytes of
    /// operations, or whose lengths the machine cannot count, are refused.
    pub fn from_bytes(bytes: &[u8]) -> (r: Result<Delta, ErrorCode>)
        ensures
            r is Ok <==> parse(bytes@) is Some,
            r matches Err(e) ==> e == ErrorCode::MalformedDelta,
            r matches Ok(d) ==> d@ == parse(bytes@)->0,
    {
        let total = bytes.len();
        let mut out = Delta::new();
        let mut pos: usize = 0;
        let ghost mut read: Seq<Op> = Seq::empty();
        proof {
            assert(bytes@.skip(0) =~= bytes@);
            assert(decode(bytes@) =~= prefixed(read, decode(bytes@))) by {
                if decode(bytes@) is Some {
                    assert(read + decode(bytes@)->0 =~= decode(bytes@)->0);
                }
            }
        }
        while pos < total
            invariant
                pos <= total,
                total == bytes@.len(),
                out@ == normalize(read),
                base_len(out@) == base_len(read),
                target_len(out@) == target_len(read),
                decode(bytes@) == prefixed(read, decode(bytes@.skip(pos as int))),
            decreases total - pos,
        {
            let ghost tail = bytes@.skip(pos as int);
            if total - pos < HEADER_LEN {
                return Err(ErrorCode::MalformedDelta);
            }
            let tag = bytes[pos];
            let n64 = u64_from_le_bytes(slice_subrange(bytes, pos + 1, pos + HEADER_LEN));
            proof {
                assert(tail.subrange(1, HEADER_LEN as int) =~= bytes@.subrange(
                    pos + 1,
                    pos + HEADER_LEN,
                ));
                assert(tail[0] == bytes@[pos as int]);
            }
            if tag == TAG_DELETE || tag == TAG_RETAIN {
                let ghost op = if tag == TAG_DELETE {
                    Op::Delete(n64 as nat)
                } else {
                    Op::Retain(n64 as nat)
                };
                proof {
                    assert(tail.skip(HEADER_LEN as int) =~= bytes@.skip(pos + HEADER_LEN));
                    Self::lemma_read_on(bytes@, read, op, bytes@.skip(pos + HEADER_LEN));
                }
                if n64 > (usize::MAX - out.base_len()) as u64 {
                    return Err(ErrorCode::MalformedDelta);
                }
                let n = n64 as usize;
                if tag == TAG_DELETE {
                    out.delete(n);
                } else {
                    if n > usize::MAX - out.target_len() {
                        return Err(ErrorCode::MalformedDelta);
                    }
                    out.retain(n, PlainTextAttributes {  });
                }
                proof {
                    read = read.push(op);
                }
                pos = pos + HEADER_LEN;
            } else if tag == TAG_INSERT {
                if n64 > (total - pos - HEADER_LEN) as u64 {
                    return Err(ErrorCode::MalformedDelta);
                }
                let n = n64 as usize;
                let text = slice_subrange(bytes, pos + HEADER_LEN, pos + HEADER_LEN + n);
                proof {
                    assert(tail.subrange(HEADER_LEN as int, HEADER_LEN + n) =~= text@);
                    assert(tail.skip(HEADER_LEN + n) =~= bytes@.skip(pos + HEADER_LEN + n));
                }
                match utf8_text(text) {
                    None => {
                        return Err(ErrorCode::MalformedDelta);
                    },
                    Some(s) => {
                        let ghost op = Op::Insert(s@);
                        proof {
                            Self::lemma_read_on(
                                bytes@,
                                read,
                                op,
                                bytes@.skip(pos + HEADER_LEN + n),
                            );
                        }
                        let chars = s.unicode_len();
                        if chars > usize::MAX - out.target_len() {
                            return Err(ErrorCode::MalformedDelta);
                        }
                        out.insert(s, PlainTextAttributes {  });
                        proof {
                            read = read.push(op);
                        }
                    },
                }
                pos = pos + HEADER_LEN + n;
            } else {
                return Err(ErrorCode::MalformedDelta);
            }
        }
        let _ = out.base_len();
        let _ = out.target_len();
        proof {
            assert(bytes@.skip(pos as int) =~= Seq::<u8>::empty());
            assert(read + Seq::<Op>::empty() =~= read);
        }
        Ok(out)
    }

    /// Reading one more operation: what the whole decodes to, the lengths so
    /// far, and the normal form so far.
    proof fn lemma_read_on(bytes: Seq<u8>, read: Seq<Op>, op: Op, tail: Seq<u8>)
        requires
            decode(bytes) == prefixed(read, prefixed(seq![op], decode(tail))),
        ensures
            decode(bytes) == prefixed(read.push(op), decode(tail)),
            normalize(read.push(op)) == push_op(normalize(read), op),
            base_len(read.push(op)) == base_len(read) + op.consumed(),
            target_len(read.push(op)) == target_len(read) + op.produced(),
            decode(bytes) is Some ==> base_len(decode(bytes)->0) >= base_len(read.push(op))
                && target_len(decode(bytes)->0) >= target_len(read.push(op)),
    {
        lemma_push_all_snoc(Seq::empty(), read, op);
        lemma_len_push(read, op);
        if decode(tail) is Some {
            let r = decode(tail)->0;
            assert(read + (seq![op] + r) =~= read.push(op) + r);
            lemma_len_concat(read.push(op), r);
        }
    }
}

} // verus!
