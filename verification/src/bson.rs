//! The BSON value model: the executable `Bson` enum and its
//! mathematical counterpart `Val`.

use vstd::prelude::*;

use vstd::slice::slice_to_vec;

use crate::document::Document;
use crate::document::clone_doc;

verus! {

broadcast use vstd::std_specs::vec::group_vec_axioms;

/// The mathematical model of a BSON value.
///
/// Text is modelled as a sequence of characters, byte payloads as
/// sequences of bytes, and a document as its sequence of key/value
/// entries in insertion order.  A `Double` is carried as the 64 bits
/// of its IEEE-754 representation, which is exactly what the wire
/// format stores.
pub enum Val {
    Double(u64),
    Text(Seq<char>),
    Doc(Seq<(Seq<char>, Val)>),
    Arr(Seq<Val>),
    Bin(u8, Seq<u8>),
    Undefined,
    Bool(bool),
    DateTime(i64),
    Null,
    Regex(Seq<char>, Seq<char>),
    DbPtr(Seq<char>, Seq<u8>),
    Code(Seq<char>),
    CodeScope(Seq<char>, Seq<(Seq<char>, Val)>),
    Symbol(Seq<char>),
    Int32(i32),
    Timestamp(u64),
    Int64(i64),
    MinKey,
    MaxKey,
}

/// The enum for all valid BSON types.
///
/// `Double` carries the 64-bit IEEE-754 bit pattern of the number, so
/// that the value round-trips through the wire format bit-exactly.
/// `Timestamp` carries the packed 64-bit form, increment in the low
/// half and seconds in the high half.
#[derive(Debug, PartialEq)]
pub enum Bson {
    Double(u64),
    String(String),
    Document(Document),
    Array(Vec<Bson>),
    Binary(u8, Vec<u8>),
    Undefined,
    Boolean(bool),
    DateTime(i64),
    Null,
    RegExp(String, String),
    DbPointer(String, [u8; 12]),
    Code(String),
    CodeWithScope(String, Document),
    Symbol(String),
    Int32(i32),
    Timestamp(u64),
    Int64(i64),
    MinKey,
    MaxKey,
}

/// The model of a single `Bson` value.
pub open spec fn val_of(b: Bson) -> Val
    decreases b,
{
    match b {
        Bson::Double(bits) => Val::Double(bits),
        Bson::String(s) => Val::Text(s@),
        Bson::Document(d) => Val::Doc(crate::document::doc_entries(d)),
        Bson::Array(v) => Val::Arr(vals_of(v@)),
        Bson::Binary(t, p) => Val::Bin(t, p@),
        Bson::Undefined => Val::Undefined,
        Bson::Boolean(v) => Val::Bool(v),
        Bson::DateTime(ms) => Val::DateTime(ms),
        Bson::Null => Val::Null,
        Bson::RegExp(p, o) => Val::Regex(p@, o@),
        Bson::DbPointer(ns, id) => Val::DbPtr(ns@, id@),
        Bson::Code(s) => Val::Code(s@),
        Bson::CodeWithScope(s, d) => Val::CodeScope(s@, crate::document::doc_entries(d)),
        Bson::Symbol(s) => Val::Symbol(s@),
        Bson::Int32(v) => Val::Int32(v),
        Bson::Timestamp(v) => Val::Timestamp(v),
        Bson::Int64(v) => Val::Int64(v),
        Bson::MinKey => Val::MinKey,
        Bson::MaxKey => Val::MaxKey,
    }
}

/// The models of a sequence of `Bson` values, element by element.
pub open spec fn vals_of(s: Seq<Bson>) -> Seq<Val>
    decreases s,
{
    if s.len() == 0 {
        Seq::empty()
    } else {
        vals_of(s.drop_last()).push(val_of(s.last()))
    }
}

impl View for Bson {
    type V = Val;

    open spec fn view(&self) -> Val {
        val_of(*self)
    }
}

impl<'a> From<&'a str> for Bson {
    /// Convert a string slice to a `Bson::String`.
    fn from(value: &'a str) -> (r: Bson)
        ensures
            r@ == Val::Text(value@),
    {
        Bson::String(value.to_owned())
    }
}

impl<'a> vstd::std_specs::convert::FromSpecImpl<&'a str> for Bson {
    // A specification-level `String` cannot be built from a character
    // sequence, so the promise lives in the `ensures` of `from`
    // instead of in `from_spec`.
    open spec fn obeys_from_spec() -> bool {
        false
    }

    open spec fn from_spec(value: &'a str) -> Bson {
        Bson::Undefined
    }
}

impl From<bool> for Bson {
    /// Convert a `bool` to a `Bson::Boolean`.
    fn from(value: bool) -> (r: Bson) {
        Bson::Boolean(value)
    }
}

impl vstd::std_specs::convert::FromSpecImpl<bool> for Bson {
    open spec fn obeys_from_spec() -> bool {
        true
    }

    open spec fn from_spec(value: bool) -> Bson {
        Bson::Boolean(value)
    }
}

impl From<i8> for Bson {
    /// Convert an `i8` to a `Bson::Int32`; the narrowing is lossless.
    fn from(value: i8) -> (r: Bson) {
        Bson::Int32(value as i32)
    }
}

impl vstd::std_specs::convert::FromSpecImpl<i8> for Bson {
    open spec fn obeys_from_spec() -> bool {
        true
    }

    open spec fn from_spec(value: i8) -> Bson {
        Bson::Int32(value as i32)
    }
}

impl From<i16> for Bson {
    /// Convert an `i16` to a `Bson::Int32`; the narrowing is lossless.
    fn from(value: i16) -> (r: Bson) {
        Bson::Int32(value as i32)
    }
}

impl vstd::std_specs::convert::FromSpecImpl<i16> for Bson {
    open spec fn obeys_from_spec() -> bool {
        true
    }

    open spec fn from_spec(value: i16) -> Bson {
        Bson::Int32(value as i32)
    }
}

impl From<i32> for Bson {
    /// Convert an `i32` to a `Bson::Int32`.
    fn from(value: i32) -> (r: Bson) {
        Bson::Int32(value)
    }
}

impl vstd::std_specs::convert::FromSpecImpl<i32> for Bson {
    open spec fn obeys_from_spec() -> bool {
        true
    }

    open spec fn from_spec(value: i32) -> Bson {
        Bson::Int32(value)
    }
}

impl From<u64> for Bson {
    /// Convert a `u64` to a `Bson::Timestamp`: the packed form,
    /// increment in the low half, seconds in the high half.
    fn from(value: u64) -> (r: Bson) {
        Bson::Timestamp(value)
    }
}

impl vstd::std_specs::convert::FromSpecImpl<u64> for Bson {
    open spec fn obeys_from_spec() -> bool {
        true
    }

    open spec fn from_spec(value: u64) -> Bson {
        Bson::Timestamp(value)
    }
}

impl From<i64> for Bson {
    /// Convert an `i64` to a `Bson::Int64`.
    fn from(value: i64) -> (r: Bson) {
        Bson::Int64(value)
    }
}

impl vstd::std_specs::convert::FromSpecImpl<i64> for Bson {
    open spec fn obeys_from_spec() -> bool {
        true
    }

    open spec fn from_spec(value: i64) -> Bson {
        Bson::Int64(value)
    }
}

/// Pack a timestamp from its two 32-bit halves: the ordinal
/// increment in the low half and the seconds since the epoch in the
/// high half, which is the order the wire format stores them in.
pub fn timestamp_pack(increment: u32, seconds: u32) -> (r: u64)
    ensures
        r == (increment as u64) | ((seconds as u64) << 32),
        r as u32 == increment,
        (r >> 32) as u32 == seconds,
{
    proof {
        assert((((increment as u64) | ((seconds as u64) << 32)) as u32) == increment)
            by (bit_vector);
        assert(((((increment as u64) | ((seconds as u64) << 32)) >> 32) as u32) == seconds)
            by (bit_vector);
    }
    (increment as u64) | ((seconds as u64) << 32)
}

/// The ordinal increment of a packed timestamp: its low 32 bits.
pub fn timestamp_increment(t: u64) -> (r: u32)
    ensures
        r == t as u32,
{
    t as u32
}

/// The seconds of a packed timestamp: its high 32 bits.
pub fn timestamp_seconds(t: u64) -> (r: u32)
    ensures
        r == (t >> 32) as u32,
{
    (t >> 32) as u32
}

/// Clone every value of a sequence, in order.
fn clone_bson_vec(a: &Vec<Bson>) -> (out: Vec<Bson>)
    ensures
        vals_of(out@) == vals_of(a@),
    decreases *a, 0int,
{
    let mut out: Vec<Bson> = Vec::new();
    let mut i: usize = 0;
    while i < a.len()
        invariant
            0 <= i <= a@.len(),
            out@.len() == i,
            forall|j: int| 0 <= j < i ==> (#[trigger] out@[j])@ == a@[j]@,
        decreases a@.len() - i,
    {
        let c = clone_bson(&a[i]);
        out.push(c);
        i = i + 1;
    }
    proof {
        lemma_vals_of(out@);
        lemma_vals_of(a@);
        assert forall|j: int| 0 <= j < a@.len() implies vals_of(out@)[j]
            == vals_of(a@)[j] by {
            assert(out@[j]@ == a@[j]@);
        }
        assert(vals_of(out@) =~= vals_of(a@));
    }
    out
}

/// Clone a single value; the clone is structurally equal, nested
/// documents and arrays included.
pub fn clone_bson(b: &Bson) -> (r: Bson)
    ensures
        r@ == b@,
    decreases *b, 1int,
{
    match b {
        Bson::Double(x) => Bson::Double(*x),
        Bson::String(s) => Bson::String(s.clone()),
        Bson::Document(d) => Bson::Document(clone_doc(d)),
        Bson::Array(a) => Bson::Array(clone_bson_vec(a)),
        Bson::Binary(t, p) => Bson::Binary(*t, slice_to_vec(p.as_slice())),
        Bson::Undefined => Bson::Undefined,
        Bson::Boolean(v) => Bson::Boolean(*v),
        Bson::DateTime(ms) => Bson::DateTime(*ms),
        Bson::Null => Bson::Null,
        Bson::RegExp(p, o) => Bson::RegExp(p.clone(), o.clone()),
        Bson::DbPointer(ns, id) => Bson::DbPointer(ns.clone(), *id),
        Bson::Code(s) => Bson::Code(s.clone()),
        Bson::CodeWithScope(s, d) => Bson::CodeWithScope(s.clone(), clone_doc(d)),
        Bson::Symbol(s) => Bson::Symbol(s.clone()),
        Bson::Int32(v) => Bson::Int32(*v),
        Bson::Timestamp(v) => Bson::Timestamp(*v),
        Bson::Int64(v) => Bson::Int64(*v),
        Bson::MinKey => Bson::MinKey,
        Bson::MaxKey => Bson::MaxKey,
    }
}

impl Clone for Bson {
    /// Cloning is structural: the clone models the same value.
    fn clone(&self) -> (r: Bson)
        ensures
            r@ == self@,
    {
        clone_bson(self)
    }
}

/// `vals_of` maps the model pointwise over the sequence.
pub proof fn lemma_vals_of(s: Seq<Bson>)
    ensures
        vals_of(s).len() == s.len(),
        forall|i: int| 0 <= i < s.len() ==> vals_of(s)[i] == #[trigger] s[i]@,
    decreases s,
{
    if s.len() > 0 {
        lemma_vals_of(s.drop_last());
        assert forall|i: int| 0 <= i < s.len() implies vals_of(s)[i] == #[trigger] s[i]@ by {
            if i < s.len() - 1 {
                assert(s.drop_last()[i] == s[i]);
            }
        }
    }
}

} // verus!
