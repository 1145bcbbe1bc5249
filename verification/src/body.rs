//! Reading the daemon's response to a poll under the size bound.

use bytes::{Bytes, BytesMut};
use vstd::prelude::*;
use vstd::string::*;

use crate::config::MAX_BUNDLE_BYTES;
use crate::error::DtnError;
use crate::outside::{buffer_extend, buffer_freeze, buffer_len, buffer_new, bytes_slice};
#[allow(unused_imports)]
use crate::outside::{buffer_held, bytes_held};

verus! {

/// A response body that is being read.
#[derive(Debug)]
pub struct BoundedBody {
    body: BytesMut,
}

impl View for BoundedBody {
    type V = Seq<u8>;

    closed spec fn view(&self) -> Seq<u8> {
        buffer_held(self.body)
    }
}

/// The body after one more chunk, where the bound admits it.
pub open spec fn body_with(body: Seq<u8>, chunk: Seq<u8>) -> Option<Seq<u8>> {
    if body.len() + chunk.len() <= MAX_BUNDLE_BYTES {
        Some(body + chunk)
    } else {
        None
    }
}

/// Whether the length that a response announces is one that a bundle may have. A
/// response that announces none may be read.
pub open spec fn announcement_admitted(content_length: Option<u64>) -> bool {
    match content_length {
        Some(length) => length <= MAX_BUNDLE_BYTES,
        None => true,
    }
}

impl BoundedBody {
    /// Begins to read a response, unless it announces more than a bundle may have.
    pub fn begin(content_length: Option<u64>) -> (r: Result<BoundedBody, DtnError>)
        ensures
            match r {
                Ok(body) => announcement_admitted(content_length) && body@ == Seq::<u8>::empty(),
                Err(e) => !announcement_admitted(content_length) && e == DtnError::BodyTooLarge,
            },
    {
        if let Some(length) = content_length {
            if length > MAX_BUNDLE_BYTES as u64 {
                return Err(DtnError::BodyTooLarge);
            }
        }
        Ok(BoundedBody { body: buffer_new() })
    }

    /// Takes in the next chunk, unless the body would be more than a bundle may have.
    pub fn push(&mut self, chunk: &[u8]) -> (r: Result<(), DtnError>)
        ensures
            match r {
                Ok(()) => body_with(old(self)@, chunk@) == Some(final(self)@),
                Err(e) => body_with(old(self)@, chunk@) is None && final(self)@ == old(self)@ && e
                    == DtnError::BodyTooLarge,
            },
            r is Ok <==> old(self)@.len() + chunk@.len() <= 67_108_864,
            r is Ok ==> final(self)@ == old(self)@ + chunk@,
    {
        let held: usize = buffer_len(&self.body);
        if held.saturating_add(chunk.len()) > MAX_BUNDLE_BYTES {
            return Err(DtnError::BodyTooLarge);
        }
        buffer_extend(&mut self.body, chunk);
        Ok(())
    }

    /// The whole body.
    pub fn finish(self) -> (r: Bytes)
        ensures
            bytes_held(r) == self@,
    {
        buffer_freeze(self.body)
    }
}

/// The body that comes of reading chunks one after another, unless the bound stops
/// the reading.
pub open spec fn body_of(chunks: Seq<Seq<u8>>) -> Option<Seq<u8>>
    decreases chunks.len(),
{
    if chunks.len() == 0 {
        Some(Seq::empty())
    } else {
        match body_of(chunks.drop_last()) {
            Some(body) => body_with(body, chunks.last()),
            None => None,
        }
    }
}

/// However a response is cut into chunks, it is read to its end and is their
/// concatenation where it has at most the bytes that a bundle may have, and is
/// refused where it has more.
pub proof fn law_body_is_whole_or_refused(chunks: Seq<Seq<u8>>)
    ensures
        body_of(chunks) == if chunks.flatten().len() <= MAX_BUNDLE_BYTES {
            Some(chunks.flatten())
        } else {
            None
        },
    decreases chunks.len(),
{
    if chunks.len() == 0 {
        chunks.lemma_flatten_and_flatten_alt_are_equivalent();
        assert(chunks.flatten() =~= Seq::<u8>::empty());
    } else {
        law_body_is_whole_or_refused(chunks.drop_last());
        chunks.lemma_flatten_and_flatten_alt_are_equivalent();
        chunks.drop_last().lemma_flatten_and_flatten_alt_are_equivalent();
        assert(chunks.flatten() =~= chunks.drop_last().flatten() + chunks.last());
    }
}

/// What the daemon answers where its queue is empty.
pub open spec fn empty_queue_answer() -> Seq<u8> {
    "Nothing to receive".spec_bytes()
}

/// Whether two byte strings are the same.
pub(crate) fn same_bytes(a: &[u8], b: &[u8]) -> (r: bool)
    ensures
        r == (a@ == b@),
{
    if a.len() != b.len() {
        return false;
    }
    let mut i: usize = 0;
    while i < a.len()
        invariant
            a@.len() == b@.len(),
            i <= a@.len(),
            forall|j: int| 0 <= j < i ==> a@[j] == b@[j],
        decreases a@.len() - i,
    {
        if a[i] != b[i] {
            return false;
        }
        i += 1;
    }
    assert(a@ =~= b@);
    true
}

/// Whether a response says that there is no bundle to receive.
pub fn is_empty_queue(raw: &Bytes) -> (r: bool)
    ensures
        r == (bytes_held(*raw).len() == 0 || bytes_held(*raw) == empty_queue_answer()),
{
    let body: &[u8] = bytes_slice(raw);
    body.len() == 0 || same_bytes(body, "Nothing to receive".as_bytes())
}

} // verus!
