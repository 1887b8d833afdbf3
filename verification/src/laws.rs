//! The laws the codec and the container obey, proved once and for
//! all over the specification functions that the executable
//! functions' contracts use.

use vstd::prelude::*;

use vstd::bytes::spec_u32_from_le_bytes;
use vstd::bytes::spec_u32_to_le_bytes;
use vstd::utf8::decode_utf8;
use vstd::utf8::encode_utf8;
use vstd::utf8::encode_utf8_decode_utf8;
use vstd::utf8::encode_utf8_valid_utf8;
use vstd::utf8::partial_valid_utf8;
use vstd::utf8::partial_valid_utf8_extend_ascii_block;
use vstd::utf8::valid_utf8;

use crate::bson::Val;
use crate::decoder::decode;
use crate::document::Document;
use crate::encoder::encode;
use crate::document::distinct_keys;
use crate::document::fold_entries;
use crate::document::has_key;
use crate::document::insert_entry;
use crate::document::key_slot;
use crate::document::value_of;
use crate::wire::dec_cstring;
use crate::wire::dec_doc;
use crate::wire::dec_elems;
use crate::wire::dec_string;
use crate::wire::dec_top;
use crate::wire::dec_value;
use crate::wire::digits_of;
use crate::wire::entry_vals;
use crate::wire::first_zero;
use crate::wire::lemma_first_zero;
use crate::wire::spec_arr_elems;
use crate::wire::spec_cstring;
use crate::wire::spec_doc;
use crate::wire::spec_elems;
use crate::wire::spec_string;
use crate::wire::spec_value;
use crate::wire::tag_of;
use crate::wire::wf_entries;
use crate::wire::wf_val;
use crate::wire::wf_vals;

verus! {

/// No value's type tag is the document terminator byte.
proof fn lemma_tag_nonzero(v: Val)
    ensures
        tag_of(v) != 0,
{
}

/// Decimal digits are ASCII bytes, and never null.
proof fn lemma_digits_of(n: nat)
    ensures
        digits_of(n).len() >= 1,
        forall|j: int| 0 <= j < digits_of(n).len() ==> 0x30 <= #[trigger] digits_of(n)[j]
            <= 0x39,
    decreases n,
{
    if n >= 10 {
        lemma_digits_of(n / 10);
    }
}

/// A sequence of ASCII bytes is valid UTF-8.
proof fn lemma_ascii_valid_utf8(b: Seq<u8>)
    requires
        forall|j: int| 0 <= j < b.len() ==> #[trigger] b[j] < 0x80,
    ensures
        valid_utf8(b),
{
    assert(partial_valid_utf8(b, 0)) by {
        assert(b.subrange(0, 0) =~= Seq::<u8>::empty());
    }
    partial_valid_utf8_extend_ascii_block(b, 0, b.len() as int);
    assert(b.subrange(0, b.len() as int) =~= b);
}

/// Parsing a null-terminated field recovers exactly the bytes before
/// the terminator, whatever follows it.
proof fn lemma_cstring_bytes_rt(kb: Seq<u8>, rest: Seq<u8>)
    requires
        !kb.contains(0u8),
        valid_utf8(kb),
    ensures
        dec_cstring(kb + seq![0u8] + rest) matches Ok(t) && t.0 == decode_utf8(kb)
            && t.1 == kb.len() + 1,
{
    let w = kb + seq![0u8] + rest;
    lemma_first_zero(w);
    assert(w[kb.len() as int] == 0);
    assert(w.contains(0u8));
    let fz = first_zero(w);
    if fz < kb.len() {
        assert(w[fz] == kb[fz]);
        assert(kb.contains(0u8)) by {
            assert(kb[fz] == 0u8);
        }
    }
    if fz > kb.len() {
        assert(w[kb.len() as int] != 0);
    }
    assert(fz == kb.len());
    assert(w.take(fz) =~= kb);
}

/// Parsing a null-terminated field recovers the characters it was
/// encoded from.
proof fn lemma_cstring_rt(k: Seq<char>, rest: Seq<u8>)
    requires
        spec_cstring(k) is Ok,
    ensures
        dec_cstring(spec_cstring(k).unwrap() + rest) matches Ok(t) && t.0 == k
            && t.1 == spec_cstring(k).unwrap().len(),
{
    let kb = encode_utf8(k);
    encode_utf8_valid_utf8(k);
    encode_utf8_decode_utf8(k);
    assert(spec_cstring(k).unwrap() + rest =~= kb + seq![0u8] + rest);
    lemma_cstring_bytes_rt(kb, rest);
}

/// Parsing a length-prefixed string recovers the characters it was
/// encoded from.
proof fn lemma_string_rt(s: Seq<char>, rest: Seq<u8>)
    requires
        spec_string(s) is Ok,
    ensures
        dec_string(spec_string(s).unwrap() + rest) matches Ok(t) && t.0 == s
            && t.1 == spec_string(s).unwrap().len(),
{
    let b = encode_utf8(s);
    let sb = spec_string(s).unwrap();
    let w = sb + rest;
    vstd::bytes::lemma_auto_spec_u32_to_from_le_bytes();
    assert(w.take(4) =~= spec_u32_to_le_bytes((b.len() + 1) as u32));
    let m = spec_u32_from_le_bytes(w.take(4)) as int;
    assert(m == b.len() + 1);
    assert(w[4 + m - 1] == 0);
    assert(w.subrange(4, 4 + m - 1) =~= b);
    encode_utf8_valid_utf8(s);
    encode_utf8_decode_utf8(s);
}

/// Folding an entry list whose keys are pairwise distinct changes
/// nothing: replacement never fires.
pub proof fn lemma_fold_distinct(es: Seq<(Seq<char>, Val)>)
    requires
        distinct_keys(es),
    ensures
        fold_entries(es) == es,
    decreases es.len(),
{
    if es.len() > 0 {
        let front = es.drop_last();
        assert(distinct_keys(front)) by {
            assert(forall|i: int| 0 <= i < front.len() ==> front[i] == es[i]);
        }
        lemma_fold_distinct(front);
        if has_key(front, es.last().0) {
            let i = key_slot(front, es.last().0);
            assert(front[i] == es[i]);
            assert((es[i]).0 == (es[es.len() - 1]).0);
            assert(false);
        }
        assert(front.push(es.last()) =~= es);
    }
}

/// Decoding the encoding of a document's entries, with anything at
/// all after the terminator, yields exactly those entries.
#[verifier::rlimit(100)]
proof fn lemma_rt_elems(es: Seq<(Seq<char>, Val)>, rest: Seq<u8>)
    requires
        spec_elems(es) is Ok,
        forall|i: int| 0 <= i < es.len() ==> wf_val((#[trigger] es[i]).1),
    ensures
        dec_elems(spec_elems(es).unwrap() + seq![0u8] + rest) matches Ok(t) && t.0 == es
            && t.1 == spec_elems(es).unwrap().len() + 1,
    decreases es, 0int,
{
    let body = spec_elems(es).unwrap();
    let w = body + seq![0u8] + rest;
    if es.len() == 0 {
        assert(w[0] == 0);
        assert(es =~= Seq::<(Seq<char>, Val)>::empty());
    } else {
        let kb = spec_cstring(es[0].0).unwrap();
        let vb = spec_value(es[0].1).unwrap();
        let restbody = spec_elems(es.drop_first()).unwrap();
        let tag = tag_of(es[0].1);
        assert(body == seq![tag] + kb + vb + restbody);
        assert(w[0] == tag);
        lemma_tag_nonzero(es[0].1);
        assert(w.drop_first() =~= kb + vb + restbody + seq![0u8] + rest);
        lemma_cstring_rt(es[0].0, vb + restbody + seq![0u8] + rest);
        assert(spec_cstring(es[0].0).unwrap() + (vb + restbody + seq![0u8] + rest)
            =~= w.drop_first());
        let kc = kb.len() as int;
        assert(w.skip(1 + kc) =~= vb + (restbody + seq![0u8] + rest));
        assert(wf_val(es[0].1));
        lemma_rt_value(es[0].1, restbody + seq![0u8] + rest);
        assert(spec_value(es[0].1).unwrap() + (restbody + seq![0u8] + rest)
            =~= w.skip(1 + kc));
        let vc = vb.len() as int;
        let c = 1 + kc + vc;
        assert(c <= w.len());
        assert(w.skip(c) =~= restbody + seq![0u8] + rest);
        assert(forall|i: int| 0 <= i < es.drop_first().len()
            ==> wf_val((#[trigger] es.drop_first()[i]).1));
        lemma_rt_elems(es.drop_first(), rest);
        assert(spec_elems(es.drop_first()).unwrap() + seq![0u8] + rest =~= w.skip(c));
        assert(seq![(es[0].0, es[0].1)] + es.drop_first() =~= es);
    }
}

/// The same for an array's elements: the parsed entries carry exactly
/// the array's values, in order.
#[verifier::rlimit(100)]
proof fn lemma_rt_arr_elems(vs: Seq<Val>, i: nat, rest: Seq<u8>)
    requires
        spec_arr_elems(vs, i) is Ok,
        wf_vals(vs),
    ensures
        dec_elems(spec_arr_elems(vs, i).unwrap() + seq![0u8] + rest) matches Ok(t)
            && entry_vals(t.0) == vs && t.1 == spec_arr_elems(vs, i).unwrap().len() + 1,
    decreases vs, 0int,
{
    let body = spec_arr_elems(vs, i).unwrap();
    let w = body + seq![0u8] + rest;
    if vs.len() == 0 {
        assert(w[0] == 0);
        assert(entry_vals(Seq::<(Seq<char>, Val)>::empty()) =~= Seq::<Val>::empty());
        assert(vs =~= Seq::<Val>::empty());
    } else {
        let kb = digits_of(i);
        let vb = spec_value(vs[0]).unwrap();
        let restbody = spec_arr_elems(vs.drop_first(), i + 1).unwrap();
        let tag = tag_of(vs[0]);
        assert(body == seq![tag] + kb + seq![0u8] + vb + restbody);
        assert(w[0] == tag);
        lemma_tag_nonzero(vs[0]);
        lemma_digits_of(i);
        assert(!kb.contains(0u8)) by {
            if kb.contains(0u8) {
                let j = choose|j: int| 0 <= j < kb.len() && kb[j] == 0u8;
                assert(0x30 <= kb[j] <= 0x39);
            }
        }
        lemma_ascii_valid_utf8(kb);
        assert(w.drop_first() =~= kb + seq![0u8] + (vb + restbody + seq![0u8] + rest));
        lemma_cstring_bytes_rt(kb, vb + restbody + seq![0u8] + rest);
        let kc = kb.len() as int;
        assert(w.skip(1 + kc + 1) =~= vb + (restbody + seq![0u8] + rest));
        assert(wf_val(vs[0]));
        lemma_rt_value(vs[0], restbody + seq![0u8] + rest);
        assert(spec_value(vs[0]).unwrap() + (restbody + seq![0u8] + rest)
            =~= w.skip(1 + kc + 1));
        let vc = vb.len() as int;
        let c = 1 + (kc + 1) + vc;
        assert(c <= w.len());
        assert(w.skip(c) =~= restbody + seq![0u8] + rest);
        assert(wf_vals(vs.drop_first())) by {
            assert(forall|j: int| 0 <= j < vs.drop_first().len()
                ==> vs.drop_first()[j] == #[trigger] vs[j + 1]);
        }
        lemma_rt_arr_elems(vs.drop_first(), i + 1, rest);
        assert(spec_arr_elems(vs.drop_first(), i + 1).unwrap() + seq![0u8] + rest
            =~= w.skip(c));
        match dec_elems(w.skip(c)) {
            Ok(t) => {
                lemma_entry_vals_cons((decode_utf8(kb), vs[0]), t.0);
                assert(seq![vs[0]] + entry_vals(t.0) =~= vs) by {
                    assert(entry_vals(t.0) == vs.drop_first());
                }
            },
            Err(_) => {
                assert(false);
            },
        }
    }
}

/// The values of a list with one entry in front: the front value,
/// then the rest.
proof fn lemma_entry_vals_cons(e: (Seq<char>, Val), es: Seq<(Seq<char>, Val)>)
    ensures
        entry_vals(seq![e] + es) == seq![e.1] + entry_vals(es),
    decreases es.len(),
{
    let full = seq![e] + es;
    if es.len() == 0 {
        assert(full.len() == 1);
        assert(full.last() == e);
        assert(full.drop_last() =~= Seq::<(Seq<char>, Val)>::empty());
        assert(entry_vals(full) == entry_vals(full.drop_last()).push(e.1));
        assert(entry_vals(full) =~= seq![e.1] + entry_vals(es));
    } else {
        assert(full.drop_last() =~= seq![e] + es.drop_last());
        lemma_entry_vals_cons(e, es.drop_last());
        assert(full.last() == es.last());
        assert(entry_vals(full) == entry_vals(full.drop_last()).push(es.last().1));
        assert((seq![e.1] + entry_vals(es.drop_last())).push(es.last().1)
            =~= seq![e.1] + entry_vals(es.drop_last()).push(es.last().1));
        assert(entry_vals(full) =~= seq![e.1] + entry_vals(es));
    }
}

/// Decoding the encoding of a whole document, with anything at all
/// after it, yields exactly its entries and consumes exactly its
/// bytes.
proof fn lemma_rt_doc(es: Seq<(Seq<char>, Val)>, rest: Seq<u8>)
    requires
        spec_doc(es) is Ok,
        forall|i: int| 0 <= i < es.len() ==> wf_val((#[trigger] es[i]).1),
    ensures
        dec_doc(spec_doc(es).unwrap() + rest) matches Ok(t) && t.0 == es
            && t.1 == spec_doc(es).unwrap().len(),
    decreases es, 1int,
{
    let body = spec_elems(es).unwrap();
    let db = spec_doc(es).unwrap();
    let w = db + rest;
    let n = body.len() + 5;
    vstd::bytes::lemma_auto_spec_u32_to_from_le_bytes();
    assert(w.take(4) =~= spec_u32_to_le_bytes(n as u32));
    assert(spec_u32_from_le_bytes(w.take(4)) == n);
    assert(w.subrange(4, n as int) =~= body + seq![0u8] + Seq::<u8>::empty());
    lemma_rt_elems(es, Seq::empty());
}

/// Decoding the payload encoding of a single value, with anything at
/// all after it, yields that value back and consumes exactly its
/// bytes.
#[verifier::rlimit(100)]
proof fn lemma_rt_value(v: Val, rest: Seq<u8>)
    requires
        spec_value(v) is Ok,
        wf_val(v),
    ensures
        dec_value(tag_of(v), spec_value(v).unwrap() + rest) matches Ok(t) && t.0 == v
            && t.1 == spec_value(v).unwrap().len(),
    decreases v, 2int,
{
    let pb = spec_value(v).unwrap();
    let w = pb + rest;
    vstd::bytes::lemma_auto_spec_u32_to_from_le_bytes();
    vstd::bytes::lemma_auto_spec_u64_to_from_le_bytes();
    match v {
        Val::Double(bits) => {
            assert(w.take(8) =~= vstd::bytes::spec_u64_to_le_bytes(bits));
        },
        Val::Text(s) => {
            lemma_string_rt(s, rest);
        },
        Val::Doc(es) => {
            lemma_rt_doc(es, rest);
            lemma_fold_distinct(es);
        },
        Val::Arr(vs) => {
            let body = spec_arr_elems(vs, 0).unwrap();
            let n = body.len() + 5;
            assert(w.take(4) =~= spec_u32_to_le_bytes(n as u32));
            assert(spec_u32_from_le_bytes(w.take(4)) == n);
            assert(w.subrange(4, n as int) =~= body + seq![0u8] + Seq::<u8>::empty());
            lemma_rt_arr_elems(vs, 0, Seq::empty());
        },
        Val::Bin(t, p) => {
            assert(w.take(4) =~= spec_u32_to_le_bytes(p.len() as u32));
            assert(w[4] == t);
            assert(w.subrange(5, 5 + p.len() as int) =~= p);
        },
        Val::Undefined => {},
        Val::Bool(b) => {
            assert(w[0] == if b { 1u8 } else { 0u8 });
        },
        Val::DateTime(ms) => {
            assert(w.take(8) =~= vstd::bytes::spec_u64_to_le_bytes(ms as u64));
            assert(((ms as u64) as i64) == ms) by (bit_vector);
        },
        Val::Null => {},
        Val::Regex(p, o) => {
            let pb2 = spec_cstring(p).unwrap();
            let ob = spec_cstring(o).unwrap();
            lemma_cstring_rt(p, ob + rest);
            assert(spec_cstring(p).unwrap() + (ob + rest) =~= w);
            assert(w.skip(pb2.len() as int) =~= ob + rest);
            lemma_cstring_rt(o, rest);
        },
        Val::DbPtr(ns, id) => {
            let nb = spec_string(ns).unwrap();
            lemma_string_rt(ns, id + rest);
            assert(spec_string(ns).unwrap() + (id + rest) =~= w);
            let c = nb.len() as int;
            assert(w.subrange(c, c + 12) =~= id);
        },
        Val::Code(s) => {
            lemma_string_rt(s, rest);
        },
        Val::CodeScope(s, es) => {
            let sb = spec_string(s).unwrap();
            let db = spec_doc(es).unwrap();
            let total = 4 + sb.len() + db.len();
            assert(w.take(4) =~= spec_u32_to_le_bytes(total as u32));
            assert(spec_u32_from_le_bytes(w.take(4)) == total);
            assert(w.skip(4) =~= sb + (db + rest));
            lemma_string_rt(s, db + rest);
            assert(w.skip(4 + sb.len() as int) =~= db + rest);
            lemma_rt_doc(es, rest);
            lemma_fold_distinct(es);
        },
        Val::Symbol(s) => {
            lemma_string_rt(s, rest);
        },
        Val::Int32(x) => {
            assert(w.take(4) =~= spec_u32_to_le_bytes(x as u32));
            assert(((x as u32) as i32) == x) by (bit_vector);
        },
        Val::Timestamp(x) => {
            assert(w.take(8) =~= vstd::bytes::spec_u64_to_le_bytes(x));
        },
        Val::Int64(x) => {
            assert(w.take(8) =~= vstd::bytes::spec_u64_to_le_bytes(x as u64));
            assert(((x as u64) as i64) == x) by (bit_vector);
        },
        Val::MinKey => {},
        Val::MaxKey => {},
    }
}

/// Round-trip law: decoding an encoding reproduces the document.
///
/// For every well-formed entry list that the encoder accepts, the
/// decoder accepts exactly the encoder's output and reconstructs
/// exactly the same entries, key order included; and building a
/// document from those entries by repeated insertion changes nothing.
pub proof fn lemma_round_trip(es: Seq<(Seq<char>, Val)>)
    requires
        spec_doc(es) is Ok,
        wf_entries(es),
    ensures
        dec_top(spec_doc(es).unwrap()) matches Ok(es2) && es2 == es,
        fold_entries(es) == es,
{
    lemma_rt_doc(es, Seq::empty());
    assert(spec_doc(es).unwrap() + Seq::<u8>::empty() =~= spec_doc(es).unwrap());
    lemma_fold_distinct(es);
}

/// The round-trip law, carried out: encode a document and decode the
/// bytes back.  Decoding cannot fail on the encoder's output, and the
/// document that comes back has exactly the same entries; `None`
/// comes back exactly when the document cannot be encoded at all.
pub fn encode_then_decode(d: &Document) -> (r: Option<Document>)
    ensures
        match r {
            Some(d2) => d2@ == d@,
            None => spec_doc(d@) is Err,
        },
{
    match encode(d) {
        Ok(bytes) => {
            proof {
                lemma_round_trip(d@);
            }
            match decode(bytes.as_slice()) {
                Ok(d2) => Some(d2),
                Err(_) => {
                    proof {
                        assert(false);
                    }
                    None
                },
            }
        },
        Err(_) => None,
    }
}

/// Length-prefix exactness: the first four bytes of any top-level
/// encoding spell the total byte length, and the last byte is the
/// terminator.
pub proof fn lemma_length_prefix(es: Seq<(Seq<char>, Val)>)
    requires
        spec_doc(es) is Ok,
    ensures
        ({
            let b = spec_doc(es).unwrap();
            &&& b.len() >= 5
            &&& spec_u32_from_le_bytes(b.take(4)) == b.len()
            &&& b[b.len() - 1] == 0
        }),
{
    let body = spec_elems(es).unwrap();
    let b = spec_doc(es).unwrap();
    vstd::bytes::lemma_auto_spec_u32_to_from_le_bytes();
    assert(b.take(4) =~= spec_u32_to_le_bytes((body.len() + 5) as u32));
    assert(b[b.len() - 1] == 0);
}

/// A successful element parse always ends on the terminator it
/// consumed.
proof fn lemma_dec_elems_bounds(w: Seq<u8>)
    ensures
        dec_elems(w) matches Ok(t) ==> 1 <= t.1 <= w.len() && w[t.1 - 1] == 0,
    decreases w.len(), 2int,
{
    if w.len() == 0 {
    } else if w[0] == 0 {
    } else {
        match dec_cstring(w.drop_first()) {
            Err(_) => {},
            Ok((k, kc)) => {
                if !(kc < 1 || 1 + kc > w.len()) {
                    match dec_value(w[0], w.skip(1 + kc)) {
                        Err(_) => {},
                        Ok((v, vc)) => {
                            let c = 1 + kc + vc;
                            if !(c < 2 || c > w.len()) {
                                lemma_dec_elems_bounds(w.skip(c));
                                match dec_elems(w.skip(c)) {
                                    Err(_) => {},
                                    Ok(t) => {
                                        assert(w.skip(c)[t.1 - 1] == w[c + t.1 - 1]);
                                    },
                                }
                            }
                        },
                    }
                }
            },
        }
    }
}

/// Rejection of malformed input: a declared length that exceeds the
/// buffer is refused.
pub proof fn lemma_reject_oversized(b: Seq<u8>)
    requires
        b.len() >= 4,
        spec_u32_from_le_bytes(b.take(4)) > b.len(),
    ensures
        dec_top(b) is Err,
{
}

/// Rejection of malformed input: a buffer whose final byte is not the
/// document terminator is refused.
pub proof fn lemma_reject_bad_terminator(b: Seq<u8>)
    requires
        b.len() >= 1,
        b[b.len() - 1] != 0,
    ensures
        dec_top(b) is Err,
{
    if b.len() >= 4 {
        let n = spec_u32_from_le_bytes(b.take(4)) as int;
        if 5 <= n <= b.len() && n <= i32::MAX {
            lemma_dec_elems_bounds(b.subrange(4, n));
            match dec_elems(b.subrange(4, n)) {
                Err(_) => {},
                Ok(t) => {
                    if t.1 == n - 4 && n == b.len() {
                        assert(b.subrange(4, n)[t.1 - 1] == b[b.len() - 1]);
                        assert(false);
                    }
                },
            }
        }
    }
}

/// Order preservation: inserting never moves an existing key, and a
/// new key goes to the end.
pub proof fn lemma_insert_preserves_order(es: Seq<(Seq<char>, Val)>, k: Seq<char>, v: Val)
    ensures
        insert_entry(es, (k, v)).len() >= es.len(),
        forall|j: int| 0 <= j < es.len() ==> insert_entry(es, (k, v))[j].0
            == (#[trigger] es[j]).0,
        !has_key(es, k) ==> insert_entry(es, (k, v)) == es.push((k, v)),
{
    if has_key(es, k) {
        let i = key_slot(es, k);
        assert(0 <= i < es.len() && es[i].0 == k);
    }
}

/// The slot of a key is the only one holding it when keys are
/// distinct.
proof fn lemma_key_slot_unique(es: Seq<(Seq<char>, Val)>, k: Seq<char>, i: int)
    requires
        distinct_keys(es),
        0 <= i < es.len(),
        es[i].0 == k,
    ensures
        has_key(es, k),
        key_slot(es, k) == i,
{
    assert(has_key(es, k));
    let j = key_slot(es, k);
    assert(0 <= j < es.len() && es[j].0 == k);
    if i != j {
        assert((es[i]).0 != (es[j]).0);
    }
}

/// Replacement semantics: replacing the value of an existing key
/// keeps the key's position and its neighbours, and a later read of
/// the key sees only the new value.
pub proof fn lemma_replacement(es: Seq<(Seq<char>, Val)>, k: Seq<char>, v: Val)
    requires
        distinct_keys(es),
        has_key(es, k),
    ensures
        ({
            let es2 = insert_entry(es, (k, v));
            &&& es2.len() == es.len()
            &&& key_slot(es2, k) == key_slot(es, k)
            &&& has_key(es2, k) && value_of(es2, k) == v
            &&& forall|j: int| 0 <= j < es.len() && j != key_slot(es, k)
                ==> es2[j] == #[trigger] es[j]
        }),
{
    let i = key_slot(es, k);
    assert(0 <= i < es.len() && es[i].0 == k);
    let es2 = insert_entry(es, (k, v));
    assert(distinct_keys(es2)) by {
        assert(forall|j: int| 0 <= j < es2.len() ==> (#[trigger] es2[j]).0 == es[j].0);
    }
    lemma_key_slot_unique(es2, k, i);
}

/// Absent-key law: a never-inserted key is absent; inserting it
/// appends a fresh entry, makes exactly that key present, and a later
/// read of it sees the inserted value.
pub proof fn lemma_absent_key(es: Seq<(Seq<char>, Val)>, k: Seq<char>, v: Val)
    requires
        !has_key(es, k),
    ensures
        ({
            let es2 = insert_entry(es, (k, v));
            &&& es2 == es.push((k, v))
            &&& has_key(es2, k) && value_of(es2, k) == v
            &&& forall|k2: Seq<char>| k2 != k ==> (#[trigger] has_key(es2, k2) <==> has_key(
                es,
                k2,
            ))
        }),
{
    let es2 = insert_entry(es, (k, v));
    assert(es2 == es.push((k, v)));
    assert(es2[es.len() as int].0 == k);
    assert(has_key(es2, k));
    let j = key_slot(es2, k);
    assert(0 <= j < es2.len() && es2[j].0 == k);
    if j < es.len() {
        assert(es[j].0 == k);
        assert(has_key(es, k));
    }
    assert(value_of(es2, k) == v);
    assert forall|k2: Seq<char>| k2 != k implies (#[trigger] has_key(es2, k2) <==> has_key(
        es,
        k2,
    )) by {
        if has_key(es2, k2) {
            let j2 = key_slot(es2, k2);
            assert(0 <= j2 < es2.len() && es2[j2].0 == k2);
            assert(j2 < es.len());
            assert(has_key(es, k2));
        }
        if has_key(es, k2) {
            let j2 = key_slot(es, k2);
            assert(es2[j2].0 == k2);
            assert(has_key(es2, k2));
        }
    }
}

} // verus!
