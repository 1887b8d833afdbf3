//! The BSON wire format, written down as specification functions.
//!
//! `spec_doc` says, byte for byte, what the encoder must produce for a
//! document model, and with which error it must fail.  `dec_doc` says
//! what the decoder must accept and what it must reconstruct.  The
//! executable encoder and decoder are verified against these
//! functions, and the round-trip law relates the two.

use vstd::prelude::*;

use vstd::bytes::spec_u32_from_le_bytes;
use vstd::bytes::spec_u32_to_le_bytes;
use vstd::bytes::spec_u64_from_le_bytes;
use vstd::bytes::spec_u64_to_le_bytes;
use vstd::utf8::decode_utf8;
use vstd::utf8::encode_utf8;
use vstd::utf8::valid_utf8;

use crate::bson::Val;
use crate::document::distinct_keys;
use crate::document::fold_entries;

verus! {

/// Why a document could not be encoded.
#[derive(Clone, Copy, Debug, PartialEq, Eq, Structural)]
pub enum EncodeError {
    /// A key or a regular-expression component holds an embedded null
    /// byte, which cannot be stored in a null-terminated field.
    InvalidCString,
    /// A length prefix would not fit in a signed 32-bit integer.
    TooLarge,
}

/// Why a byte buffer could not be decoded.
#[derive(Clone, Copy, Debug, PartialEq, Eq, Structural)]
pub enum DecodeError {
    /// A declared length runs past the end of the input.
    Truncated,
    /// A declared length is impossible or does not match what was
    /// actually consumed.
    LengthMismatch,
    /// A document does not end in its one-byte terminator.
    MissingTerminator,
    /// An element carries a type tag that the format does not define.
    UnknownTag,
    /// A null-terminated text field has no terminator in bounds, or a
    /// length-prefixed string does not end in a null byte.
    MalformedText,
    /// A text field does not hold valid UTF-8.
    InvalidUtf8,
    /// A payload byte has a value the format does not allow, such as a
    /// boolean that is neither 0 nor 1.
    InvalidData,
}

/// The type tag that introduces an element holding this value.
pub open spec fn tag_of(v: Val) -> u8 {
    match v {
        Val::Double(_) => 0x01u8,
        Val::Text(_) => 0x02u8,
        Val::Doc(_) => 0x03u8,
        Val::Arr(_) => 0x04u8,
        Val::Bin(_, _) => 0x05u8,
        Val::Undefined => 0x06u8,
        Val::Bool(_) => 0x08u8,
        Val::DateTime(_) => 0x09u8,
        Val::Null => 0x0au8,
        Val::Regex(_, _) => 0x0bu8,
        Val::DbPtr(_, _) => 0x0cu8,
        Val::Code(_) => 0x0du8,
        Val::Symbol(_) => 0x0eu8,
        Val::CodeScope(_, _) => 0x0fu8,
        Val::Int32(_) => 0x10u8,
        Val::Timestamp(_) => 0x11u8,
        Val::Int64(_) => 0x12u8,
        Val::MinKey => 0xffu8,
        Val::MaxKey => 0x7fu8,
    }
}

/// Whether a value can round-trip through the wire format: every
/// document in it has pairwise distinct keys, and every database
/// pointer carries exactly its twelve identifier bytes.
pub open spec fn wf_val(v: Val) -> bool
    decreases v,
{
    match v {
        Val::Doc(es) => wf_entries(es),
        Val::Arr(vs) => wf_vals(vs),
        Val::CodeScope(_, es) => wf_entries(es),
        Val::DbPtr(_, id) => id.len() == 12,
        _ => true,
    }
}

/// Well-formedness of a document's entries: distinct keys, and every
/// value well-formed.
pub open spec fn wf_entries(es: Seq<(Seq<char>, Val)>) -> bool
    decreases es,
{
    &&& distinct_keys(es)
    &&& forall|i: int| 0 <= i < es.len() ==> wf_val((#[trigger] es[i]).1)
}

/// Well-formedness of every value of a sequence.
pub open spec fn wf_vals(vs: Seq<Val>) -> bool
    decreases vs,
{
    forall|i: int| 0 <= i < vs.len() ==> wf_val(#[trigger] vs[i])
}

/// The ASCII digits of `n` in decimal, most significant first.
pub open spec fn digits_of(n: nat) -> Seq<u8>
    decreases n,
{
    if n < 10 {
        seq![(0x30 + n) as u8]
    } else {
        digits_of(n / 10).push((0x30 + n % 10) as u8)
    }
}

/// A null-terminated text field: the UTF-8 bytes of `s` followed by a
/// null byte.  Fails if the bytes themselves contain a null.
pub open spec fn spec_cstring(s: Seq<char>) -> Result<Seq<u8>, EncodeError> {
    let b = encode_utf8(s);
    if b.contains(0u8) {
        Err(EncodeError::InvalidCString)
    } else {
        Ok(b.push(0u8))
    }
}

/// A length-prefixed string: the byte count plus one, the UTF-8 bytes
/// of `s`, and a trailing null byte.
pub open spec fn spec_string(s: Seq<char>) -> Result<Seq<u8>, EncodeError> {
    let b = encode_utf8(s);
    if b.len() + 1 > i32::MAX {
        Err(EncodeError::TooLarge)
    } else {
        Ok(spec_u32_to_le_bytes((b.len() + 1) as u32) + b + seq![0u8])
    }
}

/// Frame a document body: length prefix, body, terminator.
pub open spec fn spec_close_doc(body: Seq<u8>) -> Result<Seq<u8>, EncodeError> {
    if body.len() + 5 > i32::MAX {
        Err(EncodeError::TooLarge)
    } else {
        Ok(spec_u32_to_le_bytes((body.len() + 5) as u32) + body + seq![0u8])
    }
}

/// The encoding of a whole document with the entries `es`.
pub open spec fn spec_doc(es: Seq<(Seq<char>, Val)>) -> Result<Seq<u8>, EncodeError>
    decreases es, 1int,
{
    match spec_elems(es) {
        Err(e) => Err(e),
        Ok(body) => spec_close_doc(body),
    }
}

/// The concatenated element encodings of the entries `es`, in order.
pub open spec fn spec_elems(es: Seq<(Seq<char>, Val)>) -> Result<Seq<u8>, EncodeError>
    decreases es, 0int,
{
    if es.len() == 0 {
        Ok(Seq::empty())
    } else {
        match spec_cstring(es[0].0) {
            Err(e) => Err(e),
            Ok(kb) => match spec_value(es[0].1) {
                Err(e) => Err(e),
                Ok(vb) => match spec_elems(es.drop_first()) {
                    Err(e) => Err(e),
                    Ok(rest) => Ok(seq![tag_of(es[0].1)] + kb + vb + rest),
                },
            },
        }
    }
}

/// The concatenated element encodings of an array's values, keyed by
/// their decimal positions starting at `i`.
pub open spec fn spec_arr_elems(vs: Seq<Val>, i: nat) -> Result<Seq<u8>, EncodeError>
    decreases vs, 0int,
{
    if vs.len() == 0 {
        Ok(Seq::empty())
    } else {
        match spec_value(vs[0]) {
            Err(e) => Err(e),
            Ok(vb) => match spec_arr_elems(vs.drop_first(), i + 1) {
                Err(e) => Err(e),
                Ok(rest) => Ok(
                    seq![tag_of(vs[0])] + digits_of(i) + seq![0u8] + vb + rest,
                ),
            },
        }
    }
}

/// The payload encoding of a single value (without tag or key).
pub open spec fn spec_value(v: Val) -> Result<Seq<u8>, EncodeError>
    decreases v, 2int,
{
    match v {
        Val::Double(bits) => Ok(spec_u64_to_le_bytes(bits)),
        Val::Text(s) => spec_string(s),
        Val::Doc(es) => spec_doc(es),
        Val::Arr(vs) => match spec_arr_elems(vs, 0) {
            Err(e) => Err(e),
            Ok(body) => spec_close_doc(body),
        },
        Val::Bin(t, p) => if p.len() > i32::MAX {
            Err(EncodeError::TooLarge)
        } else {
            Ok(spec_u32_to_le_bytes(p.len() as u32) + seq![t] + p)
        },
        Val::Undefined => Ok(Seq::empty()),
        Val::Bool(b) => Ok(seq![if b { 1u8 } else { 0u8 }]),
        Val::DateTime(ms) => Ok(spec_u64_to_le_bytes(ms as u64)),
        Val::Null => Ok(Seq::empty()),
        Val::Regex(p, o) => match spec_cstring(p) {
            Err(e) => Err(e),
            Ok(pb) => match spec_cstring(o) {
                Err(e) => Err(e),
                Ok(ob) => Ok(pb + ob),
            },
        },
        Val::DbPtr(ns, id) => match spec_string(ns) {
            Err(e) => Err(e),
            Ok(nb) => Ok(nb + id),
        },
        Val::Code(s) => spec_string(s),
        Val::CodeScope(s, es) => match spec_string(s) {
            Err(e) => Err(e),
            Ok(sb) => match spec_doc(es) {
                Err(e) => Err(e),
                Ok(db) => if 4 + sb.len() + db.len() > i32::MAX {
                    Err(EncodeError::TooLarge)
                } else {
                    Ok(spec_u32_to_le_bytes((4 + sb.len() + db.len()) as u32) + sb + db)
                },
            },
        },
        Val::Symbol(s) => spec_string(s),
        Val::Int32(x) => Ok(spec_u32_to_le_bytes(x as u32)),
        Val::Timestamp(x) => Ok(spec_u64_to_le_bytes(x)),
        Val::Int64(x) => Ok(spec_u64_to_le_bytes(x as u64)),
        Val::MinKey => Ok(Seq::empty()),
        Val::MaxKey => Ok(Seq::empty()),
    }
}

/// The position of the first null byte of `b`, or `-1` if there is
/// none.
pub open spec fn first_zero(b: Seq<u8>) -> int
    decreases b.len(),
{
    if b.len() == 0 {
        -1
    } else if b[0] == 0 {
        0
    } else {
        let r = first_zero(b.drop_first());
        if r < 0 {
            -1
        } else {
            r + 1
        }
    }
}

/// Parse a null-terminated text field from the front of `b`: the
/// decoded characters and the bytes consumed, terminator included.
pub open spec fn dec_cstring(b: Seq<u8>) -> Result<(Seq<char>, int), DecodeError> {
    let p = first_zero(b);
    if p < 0 {
        Err(DecodeError::MalformedText)
    } else {
        let tb = b.take(p);
        if !valid_utf8(tb) {
            Err(DecodeError::InvalidUtf8)
        } else {
            Ok((decode_utf8(tb), p + 1))
        }
    }
}

/// Parse a length-prefixed string from the front of `b`.
pub open spec fn dec_string(b: Seq<u8>) -> Result<(Seq<char>, int), DecodeError> {
    if b.len() < 4 {
        Err(DecodeError::Truncated)
    } else {
        let m = spec_u32_from_le_bytes(b.take(4)) as int;
        if m < 1 || m > i32::MAX {
            Err(DecodeError::LengthMismatch)
        } else if 4 + m > b.len() {
            Err(DecodeError::Truncated)
        } else if b[4 + m - 1] != 0 {
            Err(DecodeError::MalformedText)
        } else {
            let tb = b.subrange(4, 4 + m - 1);
            if !valid_utf8(tb) {
                Err(DecodeError::InvalidUtf8)
            } else {
                Ok((decode_utf8(tb), 4 + m))
            }
        }
    }
}

/// Parse a whole document from the front of `b`: its raw entry list,
/// in wire order, and the bytes consumed.
pub open spec fn dec_doc(b: Seq<u8>) -> Result<(Seq<(Seq<char>, Val)>, int), DecodeError>
    decreases b.len(), 0int,
{
    if b.len() < 4 {
        Err(DecodeError::Truncated)
    } else {
        let n = spec_u32_from_le_bytes(b.take(4)) as int;
        if n < 5 || n > i32::MAX {
            Err(DecodeError::LengthMismatch)
        } else if n > b.len() {
            Err(DecodeError::Truncated)
        } else {
            match dec_elems(b.subrange(4, n)) {
                Err(e) => Err(e),
                Ok((es, c)) => if c != n - 4 {
                    Err(DecodeError::LengthMismatch)
                } else {
                    Ok((es, n))
                },
            }
        }
    }
}

/// Parse elements until the document terminator, which is consumed.
pub open spec fn dec_elems(b: Seq<u8>) -> Result<(Seq<(Seq<char>, Val)>, int), DecodeError>
    decreases b.len(), 2int,
{
    if b.len() == 0 {
        Err(DecodeError::MissingTerminator)
    } else if b[0] == 0 {
        Ok((Seq::empty(), 1))
    } else {
        match dec_cstring(b.drop_first()) {
            Err(e) => Err(e),
            Ok((k, kc)) => if kc < 1 || 1 + kc > b.len() {
                Err(DecodeError::Truncated)
            } else { match dec_value(b[0], b.skip(1 + kc)) {
                Err(e) => Err(e),
                Ok((v, vc)) => {
                    let c = 1 + kc + vc;
                    if c < 2 || c > b.len() {
                        Err(DecodeError::Truncated)
                    } else {
                        match dec_elems(b.skip(c)) {
                            Err(e) => Err(e),
                            Ok((rest, rc)) => Ok(
                                (seq![(k, v)] + rest, c + rc),
                            ),
                        }
                    }
                },
            } },
        }
    }
}

/// Decode a complete top-level document: the buffer must hold exactly
/// one document, so the declared length must equal the buffer length.
pub open spec fn dec_top(b: Seq<u8>) -> Result<Seq<(Seq<char>, Val)>, DecodeError> {
    match dec_doc(b) {
        Err(e) => Err(e),
        Ok((es, c)) => if c != b.len() {
            Err(DecodeError::LengthMismatch)
        } else {
            Ok(es)
        },
    }
}

/// What `first_zero` finds: the least position holding a null byte,
/// or a negative number when there is none.
pub proof fn lemma_first_zero(s: Seq<u8>)
    ensures
        first_zero(s) < 0 <==> !s.contains(0u8),
        s.contains(0u8) ==> {
            &&& 0 <= first_zero(s) < s.len()
            &&& s[first_zero(s)] == 0
            &&& forall|k: int| 0 <= k < first_zero(s) ==> s[k] != 0
        },
    decreases s.len(),
{
    if s.len() == 0 {
        assert(!s.contains(0u8));
    } else if s[0] == 0 {
        assert(s.contains(0u8));
    } else {
        let t = s.drop_first();
        lemma_first_zero(t);
        if s.contains(0u8) {
            let k = choose|k: int| 0 <= k < s.len() && s[k] == 0u8;
            assert(t[k - 1] == 0u8);
            assert(t.contains(0u8));
        }
        if t.contains(0u8) {
            assert(s[first_zero(t) + 1] == t[first_zero(t)]);
            assert(s.contains(0u8));
            assert forall|k: int| 0 <= k < first_zero(s) implies s[k] != 0 by {
                if k > 0 {
                    assert(s[k] == t[k - 1]);
                }
            }
        }
    }
}

/// The values of an entry list, keys dropped, order kept.
pub open spec fn entry_vals(es: Seq<(Seq<char>, Val)>) -> Seq<Val>
    decreases es,
{
    if es.len() == 0 {
        Seq::empty()
    } else {
        entry_vals(es.drop_last()).push(es.last().1)
    }
}

/// Parse the payload of a single value with the given type tag.
pub open spec fn dec_value(tag: u8, b: Seq<u8>) -> Result<(Val, int), DecodeError>
    decreases b.len(), 1int,
{
    if tag == 0x01 {
        if b.len() < 8 {
            Err(DecodeError::Truncated)
        } else {
            Ok((Val::Double(spec_u64_from_le_bytes(b.take(8))), 8))
        }
    } else if tag == 0x02 {
        match dec_string(b) {
            Err(e) => Err(e),
            Ok((s, c)) => Ok((Val::Text(s), c)),
        }
    } else if tag == 0x03 {
        match dec_doc(b) {
            Err(e) => Err(e),
            Ok((es, c)) => Ok((Val::Doc(fold_entries(es)), c)),
        }
    } else if tag == 0x04 {
        match dec_doc(b) {
            Err(e) => Err(e),
            Ok((es, c)) => Ok((Val::Arr(entry_vals(es)), c)),
        }
    } else if tag == 0x05 {
        if b.len() < 4 {
            Err(DecodeError::Truncated)
        } else {
            let m = spec_u32_from_le_bytes(b.take(4)) as int;
            if m > i32::MAX {
                Err(DecodeError::LengthMismatch)
            } else if 5 + m > b.len() {
                Err(DecodeError::Truncated)
            } else {
                Ok((Val::Bin(b[4], b.subrange(5, 5 + m)), 5 + m))
            }
        }
    } else if tag == 0x06 {
        Ok((Val::Undefined, 0))
    } else if tag == 0x08 {
        if b.len() < 1 {
            Err(DecodeError::Truncated)
        } else if b[0] == 0 {
            Ok((Val::Bool(false), 1))
        } else if b[0] == 1 {
            Ok((Val::Bool(true), 1))
        } else {
            Err(DecodeError::InvalidData)
        }
    } else if tag == 0x09 {
        if b.len() < 8 {
            Err(DecodeError::Truncated)
        } else {
            Ok((Val::DateTime(spec_u64_from_le_bytes(b.take(8)) as i64), 8))
        }
    } else if tag == 0x0a {
        Ok((Val::Null, 0))
    } else if tag == 0x0b {
        match dec_cstring(b) {
            Err(e) => Err(e),
            Ok((p, pc)) => match dec_cstring(b.skip(pc)) {
                Err(e) => Err(e),
                Ok((o, oc)) => Ok((Val::Regex(p, o), pc + oc)),
            },
        }
    } else if tag == 0x0c {
        match dec_string(b) {
            Err(e) => Err(e),
            Ok((s, c)) => if c + 12 > b.len() {
                Err(DecodeError::Truncated)
            } else {
                Ok((Val::DbPtr(s, b.subrange(c, c + 12)), c + 12))
            },
        }
    } else if tag == 0x0d {
        match dec_string(b) {
            Err(e) => Err(e),
            Ok((s, c)) => Ok((Val::Code(s), c)),
        }
    } else if tag == 0x0e {
        match dec_string(b) {
            Err(e) => Err(e),
            Ok((s, c)) => Ok((Val::Symbol(s), c)),
        }
    } else if tag == 0x0f {
        if b.len() < 4 {
            Err(DecodeError::Truncated)
        } else {
            let t = spec_u32_from_le_bytes(b.take(4)) as int;
            if t > i32::MAX {
                Err(DecodeError::LengthMismatch)
            } else {
                match dec_string(b.skip(4)) {
                    Err(e) => Err(e),
                    Ok((s, sc)) => match dec_doc(b.skip(4 + sc)) {
                        Err(e) => Err(e),
                        Ok((es, dc)) => if t != 4 + sc + dc {
                            Err(DecodeError::LengthMismatch)
                        } else {
                            Ok((Val::CodeScope(s, fold_entries(es)), t))
                        },
                    },
                }
            }
        }
    } else if tag == 0x10 {
        if b.len() < 4 {
            Err(DecodeError::Truncated)
        } else {
            Ok((Val::Int32(spec_u32_from_le_bytes(b.take(4)) as i32), 4))
        }
    } else if tag == 0x11 {
        if b.len() < 8 {
            Err(DecodeError::Truncated)
        } else {
            Ok((Val::Timestamp(spec_u64_from_le_bytes(b.take(8))), 8))
        }
    } else if tag == 0x12 {
        if b.len() < 8 {
            Err(DecodeError::Truncated)
        } else {
            Ok((Val::Int64(spec_u64_from_le_bytes(b.take(8)) as i64), 8))
        }
    } else if tag == 0xff {
        Ok((Val::MinKey, 0))
    } else if tag == 0x7f {
        Ok((Val::MaxKey, 0))
    } else {
        Err(DecodeError::UnknownTag)
    }
}

} // verus!
