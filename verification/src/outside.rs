//! The calls into other crates, each behind a contract that is believed and not
//! proved.

use bytes::{Bytes, BytesMut};
use kitsune2_api::Url;
use vstd::prelude::*;
use vstd::string::*;

use crate::bundle::{PayloadBlock, ReceivedBundle};
#[allow(unused_imports)]
use crate::address::{dot_segment, node_url_text, peer_segment, percent_encoded};
#[allow(unused_imports)]
use crate::config::valid_segment;

verus! {

/// How `{:?}` shows the given text.
pub uninterp spec fn debug_text(text: Seq<char>) -> Seq<char>;

/// Shows a text as `std`'s `Debug` for `str` does.
///
/// Claims only that what is shown depends on the text and on nothing else.
#[verifier::external_body]
pub(crate) fn debug_quoted(text: &str) -> (r: String)
    ensures
        r@ == debug_text(text@),
{
    format!("{:?}", text)
}

/// Calls `urlencoding::encode`.
///
/// Claims that every byte of the UTF-8 text is percent-encoded, in upper case,
/// except letters, digits and `-`, `.`, `_`, `~`.
#[verifier::external_body]
pub(crate) fn percent_encode(data: &str) -> (r: String)
    ensures
        r@ == percent_encoded(vstd::utf8::encode_utf8(data@)),
{
    urlencoding::encode(data).into_owned()
}

/// What `kitsune2_api::Url::from_str` objects to in a text; nothing where it
/// accepts the text as a URL.
pub uninterp spec fn url_objection(src: Seq<char>) -> Option<Seq<char>>;

/// Calls `kitsune2_api::Url::from_str`, and `Url::as_str` on what it returns.
///
/// Claims that whether a text is accepted, and the message where it is not, depend
/// on the text alone; that an accepted URL is the text as it was given; and that a
/// node URL of a valid name is accepted unless the name is a dot segment, which the
/// parser would resolve away, so that the text is not in canonical form.
#[verifier::external_body]
pub(crate) fn kitsune_url(src: &str) -> (r: Result<String, String>)
    ensures
        match r {
            Ok(text) => url_objection(src@) is None && text@ == src@,
            Err(message) => url_objection(src@) == Some(message@),
        },
        forall|name: Seq<char>|
            src@ == #[trigger] node_url_text(name) && valid_segment(name) ==> (r is Ok
                <==> !dot_segment(name)),
{
    match Url::from_str(src) {
        Ok(url) => Ok(url.as_str().to_string()),
        Err(error) => Err(error.to_string()),
    }
}

/// Calls `kitsune2_api::Url::peer_id` on the URL of the given text.
///
/// Claims that the peer id of an accepted URL is what stands behind its last slash,
/// and that there is none where that slash is missing or nothing follows it.
#[verifier::external_body]
pub(crate) fn kitsune_peer_id(url: &str) -> (r: Option<String>)
    ensures
        url_objection(url@) is Some ==> r is None,
        url_objection(url@) is None ==> match r {
            Some(id) => peer_segment(url@) == Some(id@),
            None => peer_segment(url@) is None,
        },
{
    match Url::from_str(url) {
        Ok(url) => match url.peer_id() {
            Some(id) => Some(id.to_string()),
            None => None,
        },
        Err(_) => None,
    }
}

/// What `bp7` makes of received bytes: the source endpoint of the bundle and its
/// payload block (nothing where it has none, and nothing in it where the block
/// holds no data), or how the decoding error is shown.
pub uninterp spec fn bp7_decoded(raw: Seq<u8>) -> Result<
    (Seq<char>, Option<Option<Seq<u8>>>),
    Seq<char>,
>;

/// Calls `bp7::Bundle::try_from` on the bytes; on the bundle, takes the source
/// endpoint as text and calls `Bundle::extension_block_by_type` for the payload
/// block and `CanonicalBlock::data` on that.
///
/// Claims only that all of it depends on the bytes and on nothing else.
#[verifier::external_body]
pub(crate) fn bp7_decode(raw: &[u8]) -> (r: Result<ReceivedBundle, String>)
    ensures
        match r {
            Ok(bundle) => bp7_decoded(raw@) == Ok::<_, Seq<char>>(bundle@),
            Err(shown) => bp7_decoded(raw@) == Err::<(Seq<char>, Option<Option<Seq<u8>>>), _>(
                shown@,
            ),
        },
{
    let bundle = match bp7::Bundle::try_from(raw.to_vec()) {
        Ok(bundle) => bundle,
        Err(error) => return Err(format!("{:?}", error)),
    };
    let payload = match bundle.extension_block_by_type(bp7::canonical::PAYLOAD_BLOCK) {
        None => PayloadBlock::Missing,
        Some(block) => match block.data() {
            bp7::canonical::CanonicalData::Data(data) => PayloadBlock::Data(data.clone()),
            _ => PayloadBlock::Other,
        },
    };
    Ok(ReceivedBundle { source: bundle.primary.source.to_string(), payload })
}

#[verifier::external_type_specification]
#[verifier::external_body]
pub struct ExBytes(bytes::Bytes);

#[verifier::external_type_specification]
#[verifier::external_body]
pub struct ExBytesMut(bytes::BytesMut);

/// The bytes that a `bytes::Bytes` holds.
pub uninterp spec fn bytes_held(b: bytes::Bytes) -> Seq<u8>;

/// The bytes that a `bytes::BytesMut` holds.
pub uninterp spec fn buffer_held(b: bytes::BytesMut) -> Seq<u8>;

/// Calls `Bytes::as_ref`, which gives the bytes held.
#[verifier::external_body]
pub(crate) fn bytes_slice(b: &Bytes) -> (r: &[u8])
    ensures
        r@ == bytes_held(*b),
{
    b.as_ref()
}

/// Calls `Bytes::from` on a vector, which takes over its contents.
#[verifier::external_body]
pub(crate) fn bytes_from_vec(v: Vec<u8>) -> (r: Bytes)
    ensures
        bytes_held(r) == v@,
{
    Bytes::from(v)
}

/// Calls `BytesMut::new`, which holds nothing.
#[verifier::external_body]
pub(crate) fn buffer_new() -> (r: BytesMut)
    ensures
        buffer_held(r) == Seq::<u8>::empty(),
{
    BytesMut::new()
}

/// Calls `BytesMut::len`, which counts the bytes held.
#[verifier::external_body]
pub(crate) fn buffer_len(b: &BytesMut) -> (r: usize)
    ensures
        r == buffer_held(*b).len(),
{
    b.len()
}

/// Calls `BytesMut::extend_from_slice`, which adds the bytes at the end. Growth
/// beyond what the allocator can describe panics, so the total is bounded.
#[verifier::external_body]
pub(crate) fn buffer_extend(b: &mut BytesMut, more: &[u8])
    requires
        buffer_held(*old(b)).len() + more@.len() <= 0x1000_0000,
    ensures
        buffer_held(*final(b)) == buffer_held(*old(b)) + more@,
{
    b.extend_from_slice(more)
}

/// Calls `BytesMut::freeze`, which keeps the contents.
#[verifier::external_body]
pub(crate) fn buffer_freeze(b: BytesMut) -> (r: Bytes)
    ensures
        bytes_held(r) == buffer_held(b),
{
    b.freeze()
}

} // verus!
