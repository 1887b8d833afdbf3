//! The `DocumentSerializer` object that can serialize documents.

use vstd::prelude::*;

use crate::document::Document;
use crate::encoder::enc_doc_bytes;
use crate::wire::EncodeError;
use crate::wire::spec_doc;

verus! {

/// Serializes whole documents into an owned byte buffer.
pub struct DocumentSerializer {
    out: Vec<u8>,
}

impl View for DocumentSerializer {
    type V = Seq<u8>;

    closed spec fn view(&self) -> Seq<u8> {
        self.out@
    }
}

impl DocumentSerializer {
    /// Create a new `DocumentSerializer` with an empty output buffer.
    pub fn new() -> (s: DocumentSerializer)
        ensures
            s@ == Seq::<u8>::empty(),
    {
        DocumentSerializer { out: Vec::new() }
    }

    /// The bytes written so far.
    pub fn into_bytes(self) -> (b: Vec<u8>)
        ensures
            b@ == self@,
    {
        self.out
    }

    /// Serialize the provided document to raw BSON, appending its
    /// exact encoding to the buffer.  On an error nothing is
    /// appended.
    pub fn serialize(&mut self, document: &Document) -> (r: Result<(), EncodeError>)
        ensures
            match r {
                Ok(_) => spec_doc(document@) matches Ok(b) && final(self)@ == old(self)@ + b,
                Err(e) => spec_doc(document@) matches Err(e2) && e == e2
                    && final(self)@ == old(self)@,
            },
    {
        match enc_doc_bytes(document) {
            Ok(mut b) => {
                self.out.append(&mut b);
                Ok(())
            },
            Err(e) => Err(e),
        }
    }
}

} // verus!
