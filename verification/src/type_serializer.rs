//! The `TypeSerializer` object that can serialize BSON values.

use vstd::prelude::*;

use crate::bson::Bson;
use crate::bson::Val;
use crate::bson::vals_of;
use crate::document::Document;
use crate::encoder::enc_arr_body;
use crate::encoder::enc_binary;
use crate::encoder::enc_close_doc;
use crate::encoder::enc_code_scope;
use crate::encoder::enc_dbpointer;
use crate::encoder::enc_doc_bytes;
use crate::encoder::enc_regexp;
use crate::encoder::enc_string;
use crate::encoder::enc_value;
use crate::wire::EncodeError;
use crate::wire::spec_doc;
use crate::wire::spec_string;
use crate::wire::spec_value;

verus! {

/// Serializes single BSON values, payload by payload, into an owned
/// byte buffer.  Each `serialize_*` method appends the exact wire
/// payload of one value; on an error nothing is appended.
pub struct TypeSerializer {
    out: Vec<u8>,
}

impl View for TypeSerializer {
    type V = Seq<u8>;

    closed spec fn view(&self) -> Seq<u8> {
        self.out@
    }
}

impl TypeSerializer {
    /// Create a new `TypeSerializer` with an empty output buffer.
    pub fn new() -> (s: TypeSerializer)
        ensures
            s@ == Seq::<u8>::empty(),
    {
        TypeSerializer { out: Vec::new() }
    }

    /// The bytes written so far.
    pub fn into_bytes(self) -> (b: Vec<u8>)
        ensures
            b@ == self@,
    {
        self.out
    }

    /// Serialize the payload of the provided BSON value.
    pub fn serialize(&mut self, bson: &Bson) -> (r: Result<(), EncodeError>)
        ensures
            match r {
                Ok(_) => spec_value(bson@) matches Ok(b) && final(self)@ == old(self)@ + b,
                Err(e) => spec_value(bson@) matches Err(e2) && e == e2
                    && final(self)@ == old(self)@,
            },
    {
        match enc_value(bson) {
            Ok(mut b) => {
                self.out.append(&mut b);
                Ok(())
            },
            Err(e) => Err(e),
        }
    }

    /// Serialize a double, given as its IEEE-754 bit pattern.
    pub fn serialize_double(&mut self, bits: u64) -> (r: Result<(), EncodeError>)
        ensures
            r is Ok,
            spec_value(Val::Double(bits)) matches Ok(b) && final(self)@ == old(self)@ + b,
    {
        let mut b = vstd::bytes::u64_to_le_bytes(bits);
        self.out.append(&mut b);
        Ok(())
    }

    /// Serialize a length-prefixed string payload.
    pub fn serialize_string(&mut self, value: &str) -> (r: Result<(), EncodeError>)
        ensures
            match r {
                Ok(_) => spec_string(value@) matches Ok(b) && final(self)@ == old(self)@ + b,
                Err(e) => spec_string(value@) matches Err(e2) && e == e2
                    && final(self)@ == old(self)@,
            },
    {
        match enc_string(value) {
            Ok(mut b) => {
                self.out.append(&mut b);
                Ok(())
            },
            Err(e) => Err(e),
        }
    }

    /// Serialize an embedded document payload.
    pub fn serialize_document(&mut self, value: &Document) -> (r: Result<(), EncodeError>)
        ensures
            match r {
                Ok(_) => spec_doc(value@) matches Ok(b) && final(self)@ == old(self)@ + b,
                Err(e) => spec_doc(value@) matches Err(e2) && e == e2
                    && final(self)@ == old(self)@,
            },
    {
        match enc_doc_bytes(value) {
            Ok(mut b) => {
                self.out.append(&mut b);
                Ok(())
            },
            Err(e) => Err(e),
        }
    }

    /// Serialize an array payload: a document keyed by positions.
    pub fn serialize_array(&mut self, value: &Vec<Bson>) -> (r: Result<(), EncodeError>)
        ensures
            match r {
                Ok(_) => spec_value(Val::Arr(vals_of(value@))) matches Ok(b)
                    && final(self)@ == old(self)@ + b,
                Err(e) => spec_value(Val::Arr(vals_of(value@))) matches Err(e2) && e == e2
                    && final(self)@ == old(self)@,
            },
    {
        let body = match enc_arr_body(value) {
            Ok(body) => body,
            Err(e) => {
                return Err(e);
            },
        };
        match enc_close_doc(body) {
            Ok(mut b) => {
                self.out.append(&mut b);
                Ok(())
            },
            Err(e) => Err(e),
        }
    }

    /// Serialize a binary payload: length, subtype byte, raw bytes.
    pub fn serialize_binary(&mut self, t: u8, value: &Vec<u8>) -> (r: Result<(), EncodeError>)
        ensures
            match r {
                Ok(_) => spec_value(Val::Bin(t, value@)) matches Ok(b)
                    && final(self)@ == old(self)@ + b,
                Err(e) => spec_value(Val::Bin(t, value@)) matches Err(e2) && e == e2
                    && final(self)@ == old(self)@,
            },
    {
        match enc_binary(t, value) {
            Ok(mut b) => {
                self.out.append(&mut b);
                Ok(())
            },
            Err(e) => Err(e),
        }
    }

    /// Serialize a null payload, which is empty.
    pub fn serialize_null(&mut self) -> (r: Result<(), EncodeError>)
        ensures
            r is Ok,
            final(self)@ == old(self)@,
    {
        Ok(())
    }

    /// Serialize a boolean payload: one byte, 0 or 1.
    pub fn serialize_boolean(&mut self, value: bool) -> (r: Result<(), EncodeError>)
        ensures
            r is Ok,
            spec_value(Val::Bool(value)) matches Ok(b) && final(self)@ == old(self)@ + b,
    {
        let ghost prefix = self.out@;
        self.out.push(if value { 1u8 } else { 0u8 });
        proof {
            assert(self.out@ =~= prefix + seq![if value { 1u8 } else { 0u8 }]);
        }
        Ok(())
    }

    /// Serialize a datetime payload: signed milliseconds, 8 bytes.
    pub fn serialize_datetime(&mut self, value: i64) -> (r: Result<(), EncodeError>)
        ensures
            r is Ok,
            spec_value(Val::DateTime(value)) matches Ok(b) && final(self)@ == old(self)@ + b,
    {
        let mut b = vstd::bytes::u64_to_le_bytes(value as u64);
        self.out.append(&mut b);
        Ok(())
    }

    /// Serialize a regular-expression payload: two null-terminated
    /// components.
    pub fn serialize_regexp(&mut self, pattern: &str, options: &str) -> (r: Result<(),
        EncodeError>)
        ensures
            match r {
                Ok(_) => spec_value(Val::Regex(pattern@, options@)) matches Ok(b)
                    && final(self)@ == old(self)@ + b,
                Err(e) => spec_value(Val::Regex(pattern@, options@)) matches Err(e2) && e == e2
                    && final(self)@ == old(self)@,
            },
    {
        match enc_regexp(pattern, options) {
            Ok(mut b) => {
                self.out.append(&mut b);
                Ok(())
            },
            Err(e) => Err(e),
        }
    }

    /// Serialize a database-pointer payload: a string and a 12-byte
    /// identifier.
    pub fn serialize_dbpointer(&mut self, name: &str, id: &[u8; 12]) -> (r: Result<(),
        EncodeError>)
        ensures
            match r {
                Ok(_) => spec_value(Val::DbPtr(name@, id@)) matches Ok(b)
                    && final(self)@ == old(self)@ + b,
                Err(e) => spec_value(Val::DbPtr(name@, id@)) matches Err(e2) && e == e2
                    && final(self)@ == old(self)@,
            },
    {
        match enc_dbpointer(name, id) {
            Ok(mut b) => {
                self.out.append(&mut b);
                Ok(())
            },
            Err(e) => Err(e),
        }
    }

    /// Serialize code with its scope document.
    pub fn serialize_code(&mut self, code: &str, scope: &Document) -> (r: Result<(),
        EncodeError>)
        ensures
            match r {
                Ok(_) => spec_value(Val::CodeScope(code@, scope@)) matches Ok(b)
                    && final(self)@ == old(self)@ + b,
                Err(e) => spec_value(Val::CodeScope(code@, scope@)) matches Err(e2) && e == e2
                    && final(self)@ == old(self)@,
            },
    {
        match enc_code_scope(code, scope) {
            Ok(mut b) => {
                self.out.append(&mut b);
                Ok(())
            },
            Err(e) => Err(e),
        }
    }

    /// Serialize a 32-bit integer payload, little endian.
    pub fn serialize_i32(&mut self, value: i32) -> (r: Result<(), EncodeError>)
        ensures
            r is Ok,
            spec_value(Val::Int32(value)) matches Ok(b) && final(self)@ == old(self)@ + b,
    {
        let mut b = vstd::bytes::u32_to_le_bytes(value as u32);
        self.out.append(&mut b);
        Ok(())
    }

    /// Serialize a timestamp payload: the packed 64-bit form,
    /// increment in the low half, seconds in the high half.
    pub fn serialize_u64(&mut self, value: u64) -> (r: Result<(), EncodeError>)
        ensures
            r is Ok,
            spec_value(Val::Timestamp(value)) matches Ok(b) && final(self)@ == old(self)@ + b,
    {
        let mut b = vstd::bytes::u64_to_le_bytes(value);
        self.out.append(&mut b);
        Ok(())
    }

    /// Serialize a 64-bit integer payload, little endian.
    pub fn serialize_i64(&mut self, value: i64) -> (r: Result<(), EncodeError>)
        ensures
            r is Ok,
            spec_value(Val::Int64(value)) matches Ok(b) && final(self)@ == old(self)@ + b,
    {
        let mut b = vstd::bytes::u64_to_le_bytes(value as u64);
        self.out.append(&mut b);
        Ok(())
    }

    /// Serialize a min-key payload, which is empty.
    pub fn serialize_minkey(&mut self) -> (r: Result<(), EncodeError>)
        ensures
            r is Ok,
            final(self)@ == old(self)@,
    {
        Ok(())
    }

    /// Serialize a max-key payload, which is empty.
    pub fn serialize_maxkey(&mut self) -> (r: Result<(), EncodeError>)
        ensures
            r is Ok,
            final(self)@ == old(self)@,
    {
        Ok(())
    }
}

} // verus!
