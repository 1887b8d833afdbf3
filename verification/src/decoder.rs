//! The executable decoder, verified against the wire-format
//! specification in `wire`.
//!
//! Every parser works on the window `b[pos..end]` and relates its
//! result to the matching specification function applied to that
//! window, so that no parse ever reads past the bounds that the
//! enclosing structure declared.

use vstd::prelude::*;

use vstd::bytes::u32_from_le_bytes;
use vstd::bytes::u64_from_le_bytes;
use vstd::slice::slice_subrange;
use vstd::slice::slice_to_vec;
use vstd::utf8::encode_utf8_decode_utf8;

use crate::bson::Bson;
use crate::bson::Val;
use crate::bson::vals_of;
use crate::document::Document;
use crate::document::fold_entries;
use crate::document::insert_entry;
use crate::text::string_from_utf8;
use crate::wire::DecodeError;
use crate::wire::dec_cstring;
use crate::wire::dec_doc;
use crate::wire::dec_elems;
use crate::wire::dec_string;
use crate::wire::dec_top;
use crate::wire::dec_value;
use crate::wire::entry_vals;
use crate::wire::first_zero;
use crate::wire::lemma_first_zero;

verus! {

broadcast use vstd::std_specs::vec::group_vec_axioms;

/// Parse a null-terminated text field from `b[pos..end]`.
fn parse_cstring(b: &[u8], pos: usize, end: usize) -> (r: Result<(String, usize), DecodeError>)
    requires
        pos <= end <= b@.len(),
    ensures
        match r {
            Ok(p) => {
                &&& dec_cstring(b@.subrange(pos as int, end as int)) matches Ok(t)
                    && t.0 == p.0@ && t.1 == p.1 as int
                &&& 1 <= p.1 && pos + p.1 <= end
            },
            Err(e) => dec_cstring(b@.subrange(pos as int, end as int)) matches Err(e2)
                && e == e2,
        },
{
    let ghost w = b@.subrange(pos as int, end as int);
    proof {
        lemma_first_zero(w);
    }
    let mut j: usize = pos;
    let mut found = false;
    while j < end && !found
        invariant
            pos <= j <= end <= b@.len(),
            w == b@.subrange(pos as int, end as int),
            forall|k: int| 0 <= k < j - pos ==> w[k] != 0,
            found ==> j < end && w[j - pos] == 0,
        decreases end - j + (if found { 0int } else { 1int }),
    {
        if b[j] == 0 {
            found = true;
        } else {
            j = j + 1;
        }
    }
    if !found {
        proof {
            if w.contains(0u8) {
                let k = choose|k: int| 0 <= k < w.len() && w[k] == 0u8;
                assert(w[k] != 0);
            }
        }
        return Err(DecodeError::MalformedText);
    }
    proof {
        assert(w[j - pos] == 0);
        assert(w.contains(0u8));
        let fz = first_zero(w);
        if fz < j - pos {
            assert(w[fz] != 0);
        }
        if fz > j - pos {
            assert(w[j - pos] != 0);
        }
        assert(fz == j - pos);
        assert(w.take(fz) =~= b@.subrange(pos as int, j as int));
    }
    let tb = slice_to_vec(slice_subrange(b, pos, j));
    match string_from_utf8(tb) {
        Some(s) => {
            proof {
                encode_utf8_decode_utf8(s@);
            }
            Ok((s, j - pos + 1))
        },
        None => Err(DecodeError::InvalidUtf8),
    }
}

/// Parse a length-prefixed string from `b[pos..end]`.
fn parse_string(b: &[u8], pos: usize, end: usize) -> (r: Result<(String, usize), DecodeError>)
    requires
        pos <= end <= b@.len(),
    ensures
        match r {
            Ok(p) => {
                &&& dec_string(b@.subrange(pos as int, end as int)) matches Ok(t)
                    && t.0 == p.0@ && t.1 == p.1 as int
                &&& 5 <= p.1 && pos + p.1 <= end
            },
            Err(e) => dec_string(b@.subrange(pos as int, end as int)) matches Err(e2)
                && e == e2,
        },
{
    let ghost w = b@.subrange(pos as int, end as int);
    if end - pos < 4 {
        return Err(DecodeError::Truncated);
    }
    let m = u32_from_le_bytes(slice_subrange(b, pos, pos + 4));
    proof {
        assert(w.take(4) =~= b@.subrange(pos as int, pos + 4));
    }
    if m < 1 || m > i32::MAX as u32 {
        return Err(DecodeError::LengthMismatch);
    }
    let mu = m as usize;
    if mu > end - pos - 4 {
        return Err(DecodeError::Truncated);
    }
    if b[pos + 4 + mu - 1] != 0 {
        proof {
            assert(w[4 + m - 1] == b@[pos + 4 + mu - 1]);
        }
        return Err(DecodeError::MalformedText);
    }
    proof {
        assert(w[4 + m - 1] == b@[pos + 4 + mu - 1]);
        assert(w.subrange(4, 4 + m - 1) =~= b@.subrange(pos + 4, pos + 4 + mu - 1));
    }
    let tb = slice_to_vec(slice_subrange(b, pos + 4, pos + 4 + mu - 1));
    match string_from_utf8(tb) {
        Some(s) => {
            proof {
                encode_utf8_decode_utf8(s@);
            }
            Ok((s, 4 + mu))
        },
        None => Err(DecodeError::InvalidUtf8),
    }
}

/// Parse a binary payload from `b[pos..end]`.
fn parse_binary(b: &[u8], pos: usize, end: usize) -> (r: Result<(Bson, usize), DecodeError>)
    requires
        pos <= end <= b@.len(),
    ensures
        match r {
            Ok(p) => {
                &&& dec_value(0x05u8, b@.subrange(pos as int, end as int)) matches Ok(t)
                    && t.0 == p.0@ && t.1 == p.1 as int
                &&& pos + p.1 <= end
            },
            Err(e) => dec_value(0x05u8, b@.subrange(pos as int, end as int)) matches Err(e2)
                && e == e2,
        },
{
    let ghost w = b@.subrange(pos as int, end as int);
    if end - pos < 4 {
        return Err(DecodeError::Truncated);
    }
    let m = u32_from_le_bytes(slice_subrange(b, pos, pos + 4));
    proof {
        assert(w.take(4) =~= b@.subrange(pos as int, pos + 4));
    }
    if m > i32::MAX as u32 {
        return Err(DecodeError::LengthMismatch);
    }
    let mu = m as usize;
    if end - pos < 5 || mu > end - pos - 5 {
        return Err(DecodeError::Truncated);
    }
    let t = b[pos + 4];
    let payload = slice_to_vec(slice_subrange(b, pos + 5, pos + 5 + mu));
    proof {
        assert(w[4] == b@[pos + 4]);
        assert(w.subrange(5, 5 + m as int) =~= b@.subrange(pos + 5, pos + 5 + mu));
    }
    Ok((Bson::Binary(t, payload), 5 + mu))
}

/// Parse a database pointer from `b[pos..end]`.
fn parse_dbpointer(b: &[u8], pos: usize, end: usize) -> (r: Result<(Bson, usize), DecodeError>)
    requires
        pos <= end <= b@.len(),
    ensures
        match r {
            Ok(p) => {
                &&& dec_value(0x0cu8, b@.subrange(pos as int, end as int)) matches Ok(t)
                    && t.0 == p.0@ && t.1 == p.1 as int
                &&& pos + p.1 <= end
            },
            Err(e) => dec_value(0x0cu8, b@.subrange(pos as int, end as int)) matches Err(e2)
                && e == e2,
        },
{
    let ghost w = b@.subrange(pos as int, end as int);
    let (s, sc) = match parse_string(b, pos, end) {
        Ok(p) => p,
        Err(e) => {
            return Err(e);
        },
    };
    if 12 > end - pos - sc {
        return Err(DecodeError::Truncated);
    }
    let q = pos + sc;
    let id: [u8; 12] = [
        b[q], b[q + 1], b[q + 2], b[q + 3], b[q + 4], b[q + 5],
        b[q + 6], b[q + 7], b[q + 8], b[q + 9], b[q + 10], b[q + 11],
    ];
    proof {
        assert(id@ =~= w.subrange(sc as int, sc + 12));
    }
    Ok((Bson::DbPointer(s, id), sc + 12))
}


/// One element step of `dec_elems`: with the tag, key and value of
/// the first element parsed, the element list of the window starting
/// at `cur` is that element followed by the element list after it.
proof fn lemma_elems_step(
    buf: Seq<u8>,
    cur: int,
    lim: int,
    tag: u8,
    k: Seq<char>,
    kc: int,
    v: Val,
    vc: int,
)
    requires
        0 <= cur < lim <= buf.len(),
        buf[cur] == tag,
        tag != 0,
        dec_cstring(buf.subrange(cur + 1, lim)) == Ok::<(Seq<char>, int), DecodeError>((k, kc)),
        1 <= kc,
        cur + 1 + kc <= lim,
        dec_value(tag, buf.subrange(cur + 1 + kc, lim)) == Ok::<(Val, int), DecodeError>((v, vc)),
        0 <= vc,
        cur + 1 + kc + vc <= lim,
    ensures
        match dec_elems(buf.subrange(cur + 1 + kc + vc, lim)) {
            Ok(t) => dec_elems(buf.subrange(cur, lim)) == Ok::<(Seq<(Seq<char>, Val)>, int),
                DecodeError,
            >((seq![(k, v)] + t.0, 1 + kc + vc + t.1)),
            Err(e) => dec_elems(buf.subrange(cur, lim)) matches Err(e2) && e2 == e,
        },
{
    let win = buf.subrange(cur, lim);
    assert(win[0] == tag);
    assert(win.drop_first() =~= buf.subrange(cur + 1, lim));
    assert(win.skip(1 + kc) =~= buf.subrange(cur + 1 + kc, lim));
    assert(win.skip(1 + kc + vc) =~= buf.subrange(cur + 1 + kc + vc, lim));
}

/// Parse a whole document from `b[pos..end]` into a `Document`,
/// entry by entry, with the container's replacement semantics.
#[verifier::rlimit(100)]
fn parse_doc(b: &[u8], pos: usize, end: usize) -> (r: Result<(Document, usize), DecodeError>)
    requires
        pos <= end <= b@.len(),
    ensures
        match r {
            Ok(p) => {
                &&& dec_doc(b@.subrange(pos as int, end as int)) matches Ok(t)
                    && t.1 == p.1 as int && p.0@ == fold_entries(t.0)
                &&& pos + p.1 <= end
            },
            Err(e) => dec_doc(b@.subrange(pos as int, end as int)) matches Err(e2) && e == e2,
        },
    decreases end - pos, 0int,
{
    let ghost w = b@.subrange(pos as int, end as int);
    if end - pos < 4 {
        return Err(DecodeError::Truncated);
    }
    let n = u32_from_le_bytes(slice_subrange(b, pos, pos + 4));
    proof {
        assert(w.take(4) =~= b@.subrange(pos as int, pos + 4));
    }
    if n < 5 || n > i32::MAX as u32 {
        return Err(DecodeError::LengthMismatch);
    }
    let nu = n as usize;
    if nu > end - pos {
        return Err(DecodeError::Truncated);
    }
    let lim = pos + nu;
    let ghost region = w.subrange(4, n as int);
    proof {
        assert(region =~= b@.subrange(pos + 4, lim as int));
    }
    let mut cur: usize = pos + 4;
    let mut doc = Document::new();
    let ghost mut ges = Seq::<(Seq<char>, Val)>::empty();
    proof {
        assert(ges + Seq::<(Seq<char>, Val)>::empty() =~= ges);
    }
    loop
        invariant_except_break
            pos <= end <= b@.len(),
            w == b@.subrange(pos as int, end as int),
            5 <= n && n <= i32::MAX as u32,
            n == vstd::bytes::spec_u32_from_le_bytes(w.take(4)),
            nu == n as usize,
            lim == pos + nu,
            lim <= end,
            region == w.subrange(4, n as int),
            region == b@.subrange(pos + 4, lim as int),
            pos + 4 <= cur <= lim,
            doc@ == fold_entries(ges),
            match dec_elems(b@.subrange(cur as int, lim as int)) {
                Ok(t) => dec_elems(region) matches Ok(t2) && t2.0 == ges + t.0
                    && t2.1 == (cur - (pos + 4)) + t.1,
                Err(e) => dec_elems(region) matches Err(e2) && e2 == e,
            },
        ensures
            pos + 4 < cur <= lim,
            doc@ == fold_entries(ges),
            dec_elems(region) matches Ok(t2) && t2.0 == ges
                && t2.1 == cur - (pos + 4),
        decreases lim - cur,
    {
        let ghost win = b@.subrange(cur as int, lim as int);
        if cur == lim {
            proof {
                assert(win.len() == 0);
            }
            return Err(DecodeError::MissingTerminator);
        }
        let tag = b[cur];
        proof {
            assert(win[0] == b@[cur as int]);
        }
        if tag == 0 {
            proof {
                assert(dec_elems(win) == Ok::<(Seq<(Seq<char>, Val)>, int), DecodeError>((
                    Seq::empty(),
                    1,
                )));
                assert(ges + Seq::<(Seq<char>, Val)>::empty() =~= ges);
            }
            cur = cur + 1;
            break;
        }
        let (key, kc) = match parse_cstring(b, cur + 1, lim) {
            Ok(p) => p,
            Err(e) => {
                proof {
                    assert(win.drop_first() =~= b@.subrange(cur + 1, lim as int));
                }
                return Err(e);
            },
        };
        proof {
            assert(win.drop_first() =~= b@.subrange(cur + 1, lim as int));
        }
        let vpos = cur + 1 + kc;
        let (v, vc) = match parse_value(tag, b, vpos, lim) {
            Ok(p) => p,
            Err(e) => {
                proof {
                    assert(win.skip(1 + kc as int) =~= b@.subrange(vpos as int, lim as int));
                }
                return Err(e);
            },
        };
        let ghost e = (key@, v@);
        let ghost old_ges = ges;
        let ghost old_doc = doc@;
        proof {
            lemma_elems_step(b@, cur as int, lim as int, tag, key@, kc as int, v@, vc as int);
            ges = old_ges.push(e);
            assert(ges.drop_last() =~= old_ges);
            match dec_elems(b@.subrange(vpos + vc, lim as int)) {
                Ok(t) => {
                    assert((old_ges + (seq![e] + t.0)) =~= (ges + t.0));
                },
                Err(_) => {},
            }
        }
        doc.insert(key, v);
        proof {
            assert(doc@ == insert_entry(old_doc, e));
            assert(doc@ == fold_entries(ges));
        }
        cur = vpos + vc;
    }
    if cur != lim {
        return Err(DecodeError::LengthMismatch);
    }
    Ok((doc, nu))
}

/// Parse a document holding array elements from `b[pos..end]`,
/// keeping every value in wire order and discarding the keys.
#[verifier::rlimit(100)]
fn parse_arr(b: &[u8], pos: usize, end: usize) -> (r: Result<(Vec<Bson>, usize), DecodeError>)
    requires
        pos <= end <= b@.len(),
    ensures
        match r {
            Ok(p) => {
                &&& dec_doc(b@.subrange(pos as int, end as int)) matches Ok(t)
                    && t.1 == p.1 as int && vals_of(p.0@) == entry_vals(t.0)
                &&& pos + p.1 <= end
            },
            Err(e) => dec_doc(b@.subrange(pos as int, end as int)) matches Err(e2) && e == e2,
        },
    decreases end - pos, 0int,
{
    let ghost w = b@.subrange(pos as int, end as int);
    if end - pos < 4 {
        return Err(DecodeError::Truncated);
    }
    let n = u32_from_le_bytes(slice_subrange(b, pos, pos + 4));
    proof {
        assert(w.take(4) =~= b@.subrange(pos as int, pos + 4));
    }
    if n < 5 || n > i32::MAX as u32 {
        return Err(DecodeError::LengthMismatch);
    }
    let nu = n as usize;
    if nu > end - pos {
        return Err(DecodeError::Truncated);
    }
    let lim = pos + nu;
    let ghost region = w.subrange(4, n as int);
    proof {
        assert(region =~= b@.subrange(pos + 4, lim as int));
    }
    let mut cur: usize = pos + 4;
    let mut arr: Vec<Bson> = Vec::new();
    let ghost mut ges = Seq::<(Seq<char>, Val)>::empty();
    proof {
        assert(ges + Seq::<(Seq<char>, Val)>::empty() =~= ges);
    }
    loop
        invariant_except_break
            pos <= end <= b@.len(),
            w == b@.subrange(pos as int, end as int),
            5 <= n && n <= i32::MAX as u32,
            n == vstd::bytes::spec_u32_from_le_bytes(w.take(4)),
            nu == n as usize,
            lim == pos + nu,
            lim <= end,
            region == w.subrange(4, n as int),
            region == b@.subrange(pos + 4, lim as int),
            pos + 4 <= cur <= lim,
            vals_of(arr@) == entry_vals(ges),
            match dec_elems(b@.subrange(cur as int, lim as int)) {
                Ok(t) => dec_elems(region) matches Ok(t2) && t2.0 == ges + t.0
                    && t2.1 == (cur - (pos + 4)) + t.1,
                Err(e) => dec_elems(region) matches Err(e2) && e2 == e,
            },
        ensures
            pos + 4 < cur <= lim,
            vals_of(arr@) == entry_vals(ges),
            dec_elems(region) matches Ok(t2) && t2.0 == ges
                && t2.1 == cur - (pos + 4),
        decreases lim - cur,
    {
        let ghost win = b@.subrange(cur as int, lim as int);
        if cur == lim {
            proof {
                assert(win.len() == 0);
            }
            return Err(DecodeError::MissingTerminator);
        }
        let tag = b[cur];
        proof {
            assert(win[0] == b@[cur as int]);
        }
        if tag == 0 {
            proof {
                assert(dec_elems(win) == Ok::<(Seq<(Seq<char>, Val)>, int), DecodeError>((
                    Seq::empty(),
                    1,
                )));
                assert(ges + Seq::<(Seq<char>, Val)>::empty() =~= ges);
            }
            cur = cur + 1;
            break;
        }
        let (key, kc) = match parse_cstring(b, cur + 1, lim) {
            Ok(p) => p,
            Err(e) => {
                proof {
                    assert(win.drop_first() =~= b@.subrange(cur + 1, lim as int));
                }
                return Err(e);
            },
        };
        proof {
            assert(win.drop_first() =~= b@.subrange(cur + 1, lim as int));
        }
        let vpos = cur + 1 + kc;
        let (v, vc) = match parse_value(tag, b, vpos, lim) {
            Ok(p) => p,
            Err(e) => {
                proof {
                    assert(win.skip(1 + kc as int) =~= b@.subrange(vpos as int, lim as int));
                }
                return Err(e);
            },
        };
        let ghost e = (key@, v@);
        let ghost old_ges = ges;
        let ghost old_arr = arr@;
        proof {
            lemma_elems_step(b@, cur as int, lim as int, tag, key@, kc as int, v@, vc as int);
            ges = old_ges.push(e);
            assert(ges.drop_last() =~= old_ges);
            match dec_elems(b@.subrange(vpos + vc, lim as int)) {
                Ok(t) => {
                    assert((old_ges + (seq![e] + t.0)) =~= (ges + t.0));
                },
                Err(_) => {},
            }
        }
        arr.push(v);
        proof {
            assert(arr@.drop_last() =~= old_arr);
            assert(vals_of(arr@) == entry_vals(ges));
        }
        cur = vpos + vc;
    }
    if cur != lim {
        return Err(DecodeError::LengthMismatch);
    }
    Ok((arr, nu))
}

/// Parse code with scope from `b[pos..end]`.
#[verifier::rlimit(100)]
fn parse_code_scope(b: &[u8], pos: usize, end: usize) -> (r: Result<(Bson, usize), DecodeError>)
    requires
        pos <= end <= b@.len(),
    ensures
        match r {
            Ok(p) => {
                &&& dec_value(0x0fu8, b@.subrange(pos as int, end as int)) matches Ok(t)
                    && t.0 == p.0@ && t.1 == p.1 as int
                &&& pos + p.1 <= end
            },
            Err(e) => dec_value(0x0fu8, b@.subrange(pos as int, end as int)) matches Err(e2)
                && e == e2,
        },
    decreases end - pos, 0int,
{
    let ghost w = b@.subrange(pos as int, end as int);
    if end - pos < 4 {
        return Err(DecodeError::Truncated);
    }
    let t = u32_from_le_bytes(slice_subrange(b, pos, pos + 4));
    proof {
        assert(w.take(4) =~= b@.subrange(pos as int, pos + 4));
    }
    if t > i32::MAX as u32 {
        return Err(DecodeError::LengthMismatch);
    }
    let (s, sc) = match parse_string(b, pos + 4, end) {
        Ok(p) => p,
        Err(e) => {
            proof {
                assert(w.skip(4) =~= b@.subrange(pos + 4, end as int));
            }
            return Err(e);
        },
    };
    proof {
        assert(w.skip(4) =~= b@.subrange(pos + 4, end as int));
    }
    let dpos = pos + 4 + sc;
    let (d, dc) = match parse_doc(b, dpos, end) {
        Ok(p) => p,
        Err(e) => {
            proof {
                assert(w.skip(4 + sc as int) =~= b@.subrange(dpos as int, end as int));
            }
            return Err(e);
        },
    };
    proof {
        assert(w.skip(4 + sc as int) =~= b@.subrange(dpos as int, end as int));
    }
    if !(t as usize == 4 + sc + dc) {
        return Err(DecodeError::LengthMismatch);
    }
    Ok((Bson::CodeWithScope(s, d), 4 + sc + dc))
}

/// Parse the payload of one value with the given type tag from
/// `b[pos..end]`.
#[verifier::rlimit(100)]
fn parse_value(tag: u8, b: &[u8], pos: usize, end: usize) -> (r: Result<(Bson, usize),
    DecodeError>)
    requires
        pos <= end <= b@.len(),
    ensures
        match r {
            Ok(p) => {
                &&& dec_value(tag, b@.subrange(pos as int, end as int)) matches Ok(t)
                    && t.0 == p.0@ && t.1 == p.1 as int
                &&& pos + p.1 <= end
            },
            Err(e) => dec_value(tag, b@.subrange(pos as int, end as int)) matches Err(e2)
                && e == e2,
        },
    decreases end - pos, 1int,
{
    let ghost w = b@.subrange(pos as int, end as int);
    if tag == 0x01 || tag == 0x09 || tag == 0x11 || tag == 0x12 {
        if end - pos < 8 {
            return Err(DecodeError::Truncated);
        }
        let x = u64_from_le_bytes(slice_subrange(b, pos, pos + 8));
        proof {
            assert(w.take(8) =~= b@.subrange(pos as int, pos + 8));
        }
        if tag == 0x01 {
            Ok((Bson::Double(x), 8))
        } else if tag == 0x09 {
            Ok((Bson::DateTime(x as i64), 8))
        } else if tag == 0x11 {
            Ok((Bson::Timestamp(x), 8))
        } else {
            Ok((Bson::Int64(x as i64), 8))
        }
    } else if tag == 0x02 || tag == 0x0d || tag == 0x0e {
        let (s, c) = match parse_string(b, pos, end) {
            Ok(p) => p,
            Err(e) => {
                return Err(e);
            },
        };
        if tag == 0x02 {
            Ok((Bson::String(s), c))
        } else if tag == 0x0d {
            Ok((Bson::Code(s), c))
        } else {
            Ok((Bson::Symbol(s), c))
        }
    } else if tag == 0x03 {
        let (d, c) = match parse_doc(b, pos, end) {
            Ok(p) => p,
            Err(e) => {
                return Err(e);
            },
        };
        Ok((Bson::Document(d), c))
    } else if tag == 0x04 {
        let (a, c) = match parse_arr(b, pos, end) {
            Ok(p) => p,
            Err(e) => {
                return Err(e);
            },
        };
        Ok((Bson::Array(a), c))
    } else if tag == 0x05 {
        parse_binary(b, pos, end)
    } else if tag == 0x06 {
        Ok((Bson::Undefined, 0))
    } else if tag == 0x08 {
        if end - pos < 1 {
            return Err(DecodeError::Truncated);
        }
        let x = b[pos];
        proof {
            assert(w[0] == b@[pos as int]);
        }
        if x == 0 {
            Ok((Bson::Boolean(false), 1))
        } else if x == 1 {
            Ok((Bson::Boolean(true), 1))
        } else {
            Err(DecodeError::InvalidData)
        }
    } else if tag == 0x0a {
        Ok((Bson::Null, 0))
    } else if tag == 0x0b {
        let (p1, c1) = match parse_cstring(b, pos, end) {
            Ok(p) => p,
            Err(e) => {
                return Err(e);
            },
        };
        let (p2, c2) = match parse_cstring(b, pos + c1, end) {
            Ok(p) => p,
            Err(e) => {
                proof {
                    assert(w.skip(c1 as int) =~= b@.subrange(pos + c1, end as int));
                }
                return Err(e);
            },
        };
        proof {
            assert(w.skip(c1 as int) =~= b@.subrange(pos + c1, end as int));
        }
        Ok((Bson::RegExp(p1, p2), c1 + c2))
    } else if tag == 0x0c {
        parse_dbpointer(b, pos, end)
    } else if tag == 0x0f {
        parse_code_scope(b, pos, end)
    } else if tag == 0x10 {
        if end - pos < 4 {
            return Err(DecodeError::Truncated);
        }
        let x = u32_from_le_bytes(slice_subrange(b, pos, pos + 4));
        proof {
            assert(w.take(4) =~= b@.subrange(pos as int, pos + 4));
        }
        Ok((Bson::Int32(x as i32), 4))
    } else if tag == 0xff {
        Ok((Bson::MinKey, 0))
    } else if tag == 0x7f {
        Ok((Bson::MaxKey, 0))
    } else {
        Err(DecodeError::UnknownTag)
    }
}

/// The total byte length that a document's four-byte length prefix
/// declares, when it is a length a document can have.
pub fn declared_length(prefix: &[u8]) -> (r: Option<usize>)
    ensures
        match r {
            Some(n) => {
                &&& prefix@.len() == 4
                &&& n == vstd::bytes::spec_u32_from_le_bytes(prefix@)
                &&& 5 <= n <= i32::MAX
            },
            None => prefix@.len() != 4 || vstd::bytes::spec_u32_from_le_bytes(prefix@) < 5
                || vstd::bytes::spec_u32_from_le_bytes(prefix@) > i32::MAX,
        },
{
    if prefix.len() != 4 {
        return None;
    }
    let n = u32_from_le_bytes(prefix);
    if n < 5 || n > i32::MAX as u32 {
        return None;
    }
    Some(n as usize)
}

/// Deserialize a byte buffer holding exactly one BSON document.
///
/// Succeeds exactly when the buffer is a complete, well-formed
/// document encoding; the reconstructed document holds the decoded
/// entries in wire order, later duplicates replacing earlier ones in
/// place.
pub fn decode(bytes: &[u8]) -> (r: Result<Document, DecodeError>)
    ensures
        match r {
            Ok(d) => dec_top(bytes@) matches Ok(es) && d@ == fold_entries(es),
            Err(e) => dec_top(bytes@) matches Err(e2) && e == e2,
        },
{
    proof {
        assert(bytes@.subrange(0, bytes@.len() as int) =~= bytes@);
    }
    let (d, c) = match parse_doc(bytes, 0, bytes.len()) {
        Ok(p) => p,
        Err(e) => {
            return Err(e);
        },
    };
    if c != bytes.len() {
        return Err(DecodeError::LengthMismatch);
    }
    Ok(d)
}

} // verus!
