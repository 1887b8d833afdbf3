//! The executable encoder, verified against the wire-format
//! specification in `wire`.

use vstd::prelude::*;

use vstd::bytes::u32_to_le_bytes;
use vstd::bytes::u64_to_le_bytes;
use vstd::slice::slice_to_vec;
use vstd::string::StrSliceExecFns;
use vstd::string::StringSliceAdditionalSpecFns;

use crate::bson::Bson;
use crate::bson::Val;
use crate::bson::lemma_vals_of;
use crate::bson::vals_of;
use crate::document::Document;
use crate::document::distinct_keys;
use crate::wire::EncodeError;
use crate::wire::wf_entries;
use crate::wire::wf_val;
use crate::wire::wf_vals;
use crate::wire::digits_of;
use crate::wire::spec_arr_elems;
use crate::wire::spec_close_doc;
use crate::wire::spec_cstring;
use crate::wire::spec_doc;
use crate::wire::spec_elems;
use crate::wire::spec_string;
use crate::wire::spec_value;
use crate::wire::tag_of;

verus! {

broadcast use vstd::std_specs::vec::group_vec_axioms;

/// The type tag of a value.
fn tag_byte(v: &Bson) -> (t: u8)
    ensures
        t == tag_of(v@),
{
    match v {
        Bson::Double(_) => 0x01u8,
        Bson::String(_) => 0x02u8,
        Bson::Document(_) => 0x03u8,
        Bson::Array(_) => 0x04u8,
        Bson::Binary(_, _) => 0x05u8,
        Bson::Undefined => 0x06u8,
        Bson::Boolean(_) => 0x08u8,
        Bson::DateTime(_) => 0x09u8,
        Bson::Null => 0x0au8,
        Bson::RegExp(_, _) => 0x0bu8,
        Bson::DbPointer(_, _) => 0x0cu8,
        Bson::Code(_) => 0x0du8,
        Bson::CodeWithScope(_, _) => 0x0fu8,
        Bson::Symbol(_) => 0x0eu8,
        Bson::Int32(_) => 0x10u8,
        Bson::Timestamp(_) => 0x11u8,
        Bson::Int64(_) => 0x12u8,
        Bson::MinKey => 0xffu8,
        Bson::MaxKey => 0x7fu8,
    }
}

/// Append the decimal digits of `n` to `out`.
fn push_digits(n: usize, out: &mut Vec<u8>)
    ensures
        final(out)@ == old(out)@ + digits_of(n as nat),
    decreases n,
{
    if n < 10 {
        out.push(0x30u8 + n as u8);
    } else {
        push_digits(n / 10, out);
        out.push(0x30u8 + (n % 10) as u8);
    }
}

/// Encode a null-terminated text field.
pub(crate) fn enc_cstring(s: &str) -> (r: Result<Vec<u8>, EncodeError>)
    ensures
        match r {
            Ok(b) => spec_cstring(s@) == Ok::<Seq<u8>, EncodeError>(b@),
            Err(e) => spec_cstring(s@) == Err::<Seq<u8>, EncodeError>(e),
        },
{
    let mut b = s.as_bytes_vec();
    let mut j: usize = 0;
    while j < b.len()
        invariant
            b@ == s.spec_bytes(),
            0 <= j <= b@.len(),
            forall|k: int| 0 <= k < j ==> b@[k] != 0,
        decreases b@.len() - j,
    {
        if b[j] == 0 {
            proof {
                assert(b@.contains(0u8));
            }
            return Err(EncodeError::InvalidCString);
        }
        j = j + 1;
    }
    proof {
        assert(!b@.contains(0u8)) by {
            if b@.contains(0u8) {
                let k = choose|k: int| 0 <= k < b@.len() && b@[k] == 0u8;
                assert(b@[k] != 0);
            }
        }
    }
    let ghost text = b@;
    b.push(0u8);
    proof {
        assert(b@ =~= text.push(0u8));
    }
    Ok(b)
}

/// Encode a length-prefixed string.
pub(crate) fn enc_string(s: &str) -> (r: Result<Vec<u8>, EncodeError>)
    ensures
        match r {
            Ok(b) => spec_string(s@) == Ok::<Seq<u8>, EncodeError>(b@),
            Err(e) => spec_string(s@) == Err::<Seq<u8>, EncodeError>(e),
        },
{
    let mut b = s.as_bytes_vec();
    if b.len() >= i32::MAX as usize {
        return Err(EncodeError::TooLarge);
    }
    let mut out = u32_to_le_bytes(b.len() as u32 + 1);
    let ghost text = b@;
    out.append(&mut b);
    out.push(0u8);
    proof {
        assert(out@ =~= vstd::bytes::spec_u32_to_le_bytes((text.len() + 1) as u32) + text
            + seq![0u8]);
    }
    Ok(out)
}

/// Frame a finished document body with its length prefix and
/// terminator.
pub(crate) fn enc_close_doc(body: Vec<u8>) -> (r: Result<Vec<u8>, EncodeError>)
    ensures
        match r {
            Ok(b) => spec_close_doc(body@) == Ok::<Seq<u8>, EncodeError>(b@),
            Err(e) => spec_close_doc(body@) == Err::<Seq<u8>, EncodeError>(e),
        },
{
    let mut body = body;
    if body.len() > i32::MAX as usize - 5 {
        return Err(EncodeError::TooLarge);
    }
    let mut out = u32_to_le_bytes(body.len() as u32 + 5);
    let ghost bodyv = body@;
    out.append(&mut body);
    out.push(0u8);
    proof {
        assert(out@ =~= vstd::bytes::spec_u32_to_le_bytes((bodyv.len() + 5) as u32) + bodyv
            + seq![0u8]);
    }
    Ok(out)
}

/// Encode the elements of a document, in insertion order.
pub(crate) fn enc_doc_body(d: &Document) -> (r: Result<Vec<u8>, EncodeError>)
    ensures
        match r {
            Ok(b) => spec_elems(d@) == Ok::<Seq<u8>, EncodeError>(b@),
            Err(e) => spec_elems(d@) == Err::<Seq<u8>, EncodeError>(e),
        },
        r is Ok ==> wf_entries(d@),
    decreases *d, 0int,
{
    let n = d.len();
    let mut out: Vec<u8> = Vec::new();
    let mut i: usize = 0;
    proof {
        use_type_invariant(d);
        d.lemma_wf_distinct();
        assert(d@.skip(0) =~= d@);
        match spec_elems(d@) {
            Ok(rest) => {
                assert(Seq::<u8>::empty() + rest =~= rest);
            },
            Err(_) => {},
        }
    }
    while i < n
        invariant
            n == d@.len(),
            0 <= i <= n,
            distinct_keys(d@),
            forall|j: int| 0 <= j < i ==> wf_val((#[trigger] d@[j]).1),
            match spec_elems(d@.skip(i as int)) {
                Ok(rest) => spec_elems(d@) matches Ok(full) && full == out@ + rest,
                Err(e) => spec_elems(d@) matches Err(e2) && e2 == e,
            },
        decreases n - i,
    {
        let ghost prefix = out@;
        let ghost tail = d@.skip(i as int);
        proof {
            assert(tail[0] == d@[i as int]);
            assert(tail.drop_first() =~= d@.skip(i + 1));
        }
        let p = d.entry_at(i);
        let kb = match enc_cstring(p.0.as_str()) {
            Ok(kb) => kb,
            Err(e) => {
                return Err(e);
            },
        };
        let vb = match enc_value(&p.1) {
            Ok(vb) => vb,
            Err(e) => {
                return Err(e);
            },
        };
        let mut kb = kb;
        let mut vb = vb;
        out.push(tag_byte(&p.1));
        out.append(&mut kb);
        out.append(&mut vb);
        proof {
            match spec_elems(d@.skip(i + 1)) {
                Ok(rest) => {
                    assert(spec_elems(tail) == Ok::<Seq<u8>, EncodeError>(
                        seq![tag_of(d@[i as int].1)] + spec_cstring(d@[i as int].0).unwrap()
                            + spec_value(d@[i as int].1).unwrap() + rest,
                    ));
                    assert(out@ =~= prefix + (seq![tag_of(d@[i as int].1)]
                        + spec_cstring(d@[i as int].0).unwrap()
                        + spec_value(d@[i as int].1).unwrap()));
                    assert(out@ + rest =~= prefix + (seq![tag_of(d@[i as int].1)]
                        + spec_cstring(d@[i as int].0).unwrap()
                        + spec_value(d@[i as int].1).unwrap() + rest));
                },
                Err(_) => {},
            }
        }
        i = i + 1;
    }
    proof {
        assert(d@.skip(n as int) =~= Seq::<(Seq<char>, Val)>::empty());
        match spec_elems(d@) {
            Ok(full) => {
                assert(out@ + Seq::<u8>::empty() =~= out@);
            },
            Err(_) => {},
        }
    }
    Ok(out)
}

/// Encode the elements of an array, keyed by their decimal positions.
pub(crate) fn enc_arr_body(a: &Vec<Bson>) -> (r: Result<Vec<u8>, EncodeError>)
    ensures
        match r {
            Ok(b) => spec_arr_elems(vals_of(a@), 0) == Ok::<Seq<u8>, EncodeError>(b@),
            Err(e) => spec_arr_elems(vals_of(a@), 0) == Err::<Seq<u8>, EncodeError>(e),
        },
        r is Ok ==> wf_vals(vals_of(a@)),
    decreases *a, 0int,
{
    let n = a.len();
    let mut out: Vec<u8> = Vec::new();
    let mut i: usize = 0;
    let ghost vs = vals_of(a@);
    proof {
        lemma_vals_of(a@);
        assert(vs.skip(0) =~= vs);
        match spec_arr_elems(vs, 0) {
            Ok(rest) => {
                assert(Seq::<u8>::empty() + rest =~= rest);
            },
            Err(_) => {},
        }
    }
    while i < n
        invariant
            n == a@.len(),
            0 <= i <= n,
            vs == vals_of(a@),
            vs.len() == n,
            forall|k: int| 0 <= k < n ==> vs[k] == #[trigger] a@[k]@,
            forall|j: int| 0 <= j < i ==> wf_val(#[trigger] vs[j]),
            match spec_arr_elems(vs.skip(i as int), i as nat) {
                Ok(rest) => spec_arr_elems(vs, 0) matches Ok(full) && full == out@ + rest,
                Err(e) => spec_arr_elems(vs, 0) matches Err(e2) && e2 == e,
            },
        decreases n - i,
    {
        let ghost prefix = out@;
        let ghost tail = vs.skip(i as int);
        proof {
            assert(tail[0] == vs[i as int]);
            assert(tail.drop_first() =~= vs.skip(i + 1));
        }
        let v = &a[i];
        let vb = match enc_value(v) {
            Ok(vb) => vb,
            Err(e) => {
                return Err(e);
            },
        };
        let mut vb = vb;
        out.push(tag_byte(v));
        push_digits(i, &mut out);
        out.push(0u8);
        out.append(&mut vb);
        proof {
            match spec_arr_elems(vs.skip(i + 1), i as nat + 1) {
                Ok(rest) => {
                    assert(spec_arr_elems(tail, i as nat) == Ok::<Seq<u8>, EncodeError>(
                        seq![tag_of(vs[i as int])] + digits_of(i as nat) + seq![0u8]
                            + spec_value(vs[i as int]).unwrap() + rest,
                    ));
                    assert(out@ =~= prefix + (seq![tag_of(vs[i as int])] + digits_of(i as nat)
                        + seq![0u8] + spec_value(vs[i as int]).unwrap()));
                    assert(out@ + rest =~= prefix + (seq![tag_of(vs[i as int])]
                        + digits_of(i as nat) + seq![0u8]
                        + spec_value(vs[i as int]).unwrap() + rest));
                },
                Err(_) => {},
            }
        }
        i = i + 1;
    }
    proof {
        assert(vs.skip(n as int) =~= Seq::<Val>::empty());
        match spec_arr_elems(vs, 0) {
            Ok(full) => {
                assert(out@ + Seq::<u8>::empty() =~= out@);
            },
            Err(_) => {},
        }
    }
    Ok(out)
}

/// Encode a whole document: length prefix, elements, terminator.
pub(crate) fn enc_doc_bytes(d: &Document) -> (r: Result<Vec<u8>, EncodeError>)
    ensures
        match r {
            Ok(b) => spec_doc(d@) == Ok::<Seq<u8>, EncodeError>(b@),
            Err(e) => spec_doc(d@) == Err::<Seq<u8>, EncodeError>(e),
        },
        r is Ok ==> wf_entries(d@),
    decreases *d, 1int,
{
    let body = match enc_doc_body(d) {
        Ok(body) => body,
        Err(e) => {
            return Err(e);
        },
    };
    enc_close_doc(body)
}

/// Encode a binary payload: length, subtype byte, raw bytes.
pub(crate) fn enc_binary(t: u8, p: &Vec<u8>) -> (r: Result<Vec<u8>, EncodeError>)
    ensures
        match r {
            Ok(b) => spec_value(Val::Bin(t, p@)) == Ok::<Seq<u8>, EncodeError>(b@),
            Err(e) => spec_value(Val::Bin(t, p@)) == Err::<Seq<u8>, EncodeError>(e),
        },
{
    if p.len() > i32::MAX as usize {
        return Err(EncodeError::TooLarge);
    }
    let mut out = u32_to_le_bytes(p.len() as u32);
    out.push(t);
    let mut payload = slice_to_vec(p.as_slice());
    out.append(&mut payload);
    proof {
        assert(out@ =~= vstd::bytes::spec_u32_to_le_bytes(p@.len() as u32) + seq![t] + p@);
    }
    Ok(out)
}

/// Encode a database pointer: a string and twelve identifier bytes.
pub(crate) fn enc_dbpointer(ns: &str, id: &[u8; 12]) -> (r: Result<Vec<u8>, EncodeError>)
    ensures
        match r {
            Ok(b) => spec_value(Val::DbPtr(ns@, id@)) == Ok::<Seq<u8>, EncodeError>(b@),
            Err(e) => spec_value(Val::DbPtr(ns@, id@)) == Err::<Seq<u8>, EncodeError>(e),
        },
{
    let mut nb = match enc_string(ns) {
        Ok(nb) => nb,
        Err(e) => {
            return Err(e);
        },
    };
    let ghost nbv = nb@;
    let mut j: usize = 0;
    while j < 12
        invariant
            0 <= j <= 12,
            nb@ == nbv + id@.take(j as int),
        decreases 12 - j,
    {
        nb.push(id[j]);
        proof {
            assert(nb@ =~= nbv + id@.take(j + 1));
        }
        j = j + 1;
    }
    proof {
        assert(id@.take(12) =~= id@);
    }
    Ok(nb)
}

/// Encode code with its scope: total length, code string, scope
/// document.
pub(crate) fn enc_code_scope(s: &str, d: &Document) -> (r: Result<Vec<u8>, EncodeError>)
    ensures
        match r {
            Ok(b) => spec_value(Val::CodeScope(s@, d@)) == Ok::<Seq<u8>, EncodeError>(b@),
            Err(e) => spec_value(Val::CodeScope(s@, d@)) == Err::<Seq<u8>, EncodeError>(e),
        },
        r is Ok ==> wf_entries(d@),
    decreases *d, 2int,
{
    let sb = match enc_string(s) {
        Ok(sb) => sb,
        Err(e) => {
            return Err(e);
        },
    };
    let db = match enc_doc_bytes(d) {
        Ok(db) => db,
        Err(e) => {
            return Err(e);
        },
    };
    proof {
        vstd::bytes::lemma_auto_spec_u32_to_from_le_bytes();
        assert(sb@.len() <= i32::MAX as int + 4);
        assert(db@.len() <= i32::MAX as int);
    }
    let total: u64 = 4u64 + sb.len() as u64 + db.len() as u64;
    if total > i32::MAX as u64 {
        return Err(EncodeError::TooLarge);
    }
    let mut out = u32_to_le_bytes(total as u32);
    let mut sb = sb;
    let mut db = db;
    out.append(&mut sb);
    out.append(&mut db);
    proof {
        assert(out@ =~= vstd::bytes::spec_u32_to_le_bytes(
            (4 + spec_string(s@).unwrap().len() + spec_doc(d@).unwrap().len()) as u32,
        ) + spec_string(s@).unwrap() + spec_doc(d@).unwrap());
    }
    Ok(out)
}

/// Encode a regular expression: two null-terminated components.
pub(crate) fn enc_regexp(p: &str, o: &str) -> (r: Result<Vec<u8>, EncodeError>)
    ensures
        match r {
            Ok(b) => spec_value(Val::Regex(p@, o@)) == Ok::<Seq<u8>, EncodeError>(b@),
            Err(e) => spec_value(Val::Regex(p@, o@)) == Err::<Seq<u8>, EncodeError>(e),
        },
{
    let mut pb = match enc_cstring(p) {
        Ok(pb) => pb,
        Err(e) => {
            return Err(e);
        },
    };
    let mut ob = match enc_cstring(o) {
        Ok(ob) => ob,
        Err(e) => {
            return Err(e);
        },
    };
    pb.append(&mut ob);
    Ok(pb)
}

/// Encode the payload of a single value, without tag or key.
pub(crate) fn enc_value(v: &Bson) -> (r: Result<Vec<u8>, EncodeError>)
    ensures
        match r {
            Ok(b) => spec_value(v@) == Ok::<Seq<u8>, EncodeError>(b@),
            Err(e) => spec_value(v@) == Err::<Seq<u8>, EncodeError>(e),
        },
        r is Ok ==> wf_val(v@),
    decreases *v, 3int,
{
    match v {
        Bson::Double(bits) => Ok(u64_to_le_bytes(*bits)),
        Bson::String(s) => enc_string(s.as_str()),
        Bson::Document(d) => enc_doc_bytes(d),
        Bson::Array(a) => {
            let body = match enc_arr_body(a) {
                Ok(body) => body,
                Err(e) => {
                    return Err(e);
                },
            };
            enc_close_doc(body)
        },
        Bson::Binary(t, p) => enc_binary(*t, p),
        Bson::Undefined => Ok(Vec::new()),
        Bson::Boolean(b) => {
            let mut out: Vec<u8> = Vec::new();
            out.push(if *b { 1u8 } else { 0u8 });
            proof {
                assert(out@ =~= seq![if *b { 1u8 } else { 0u8 }]);
            }
            Ok(out)
        },
        Bson::DateTime(ms) => Ok(u64_to_le_bytes(*ms as u64)),
        Bson::Null => Ok(Vec::new()),
        Bson::RegExp(p, o) => enc_regexp(p.as_str(), o.as_str()),
        Bson::DbPointer(ns, id) => enc_dbpointer(ns.as_str(), id),
        Bson::Code(s) => enc_string(s.as_str()),
        Bson::CodeWithScope(s, d) => enc_code_scope(s.as_str(), d),
        Bson::Symbol(s) => enc_string(s.as_str()),
        Bson::Int32(x) => Ok(u32_to_le_bytes(*x as u32)),
        Bson::Timestamp(x) => Ok(u64_to_le_bytes(*x)),
        Bson::Int64(x) => Ok(u64_to_le_bytes(*x as u64)),
        Bson::MinKey => Ok(Vec::new()),
        Bson::MaxKey => Ok(Vec::new()),
    }
}

/// Serialize a document to its exact BSON bytes.
///
/// Succeeds for every document whose keys and regular-expression
/// components are free of embedded null bytes and whose length
/// prefixes fit in a signed 32-bit integer; fails with the matching
/// error otherwise, producing no bytes.
pub fn encode(d: &Document) -> (r: Result<Vec<u8>, EncodeError>)
    ensures
        match r {
            Ok(b) => spec_doc(d@) == Ok::<Seq<u8>, EncodeError>(b@),
            Err(e) => spec_doc(d@) == Err::<Seq<u8>, EncodeError>(e),
        },
        r is Ok ==> wf_entries(d@),
{
    enc_doc_bytes(d)
}

} // verus!
