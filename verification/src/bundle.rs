//! Received bundles and what is handed on of them.

use bytes::Bytes;
use vstd::prelude::*;
use vstd::string::*;

use crate::address::{node_url, source_node_name, PeerUrl};
use crate::error::DtnError;
use crate::outside::{bp7_decode, bytes_from_vec, bytes_slice};
#[allow(unused_imports)]
use crate::address::{dot_segment, node_url_text, source_node};
#[allow(unused_imports)]
use crate::outside::{bp7_decoded, bytes_held, url_objection};

verus! {

/// The payload block of a bundle.
#[derive(Debug, PartialEq, Eq)]
pub enum PayloadBlock {
    /// The bundle has no payload block.
    Missing,
    /// The block holds something that is no data.
    Other,
    /// The block holds these bytes.
    Data(Vec<u8>),
}

impl View for PayloadBlock {
    type V = Option<Option<Seq<u8>>>;

    open spec fn view(&self) -> Option<Option<Seq<u8>>> {
        match self {
            PayloadBlock::Missing => None,
            PayloadBlock::Other => Some(None),
            PayloadBlock::Data(data) => Some(Some(data@)),
        }
    }
}

/// What the transport reads of a BPv7 bundle.
#[derive(Debug, PartialEq, Eq)]
pub struct ReceivedBundle {
    /// The endpoint that sent the bundle.
    pub source: String,
    /// The payload block.
    pub payload: PayloadBlock,
}

impl View for ReceivedBundle {
    type V = (Seq<char>, Option<Option<Seq<u8>>>);

    open spec fn view(&self) -> (Seq<char>, Option<Option<Seq<u8>>>) {
        (self.source@, self.payload@)
    }
}

/// The payload of a bundle, where its payload block holds data.
pub fn extract_payload(bundle: &ReceivedBundle) -> (r: Option<Vec<u8>>)
    ensures
        match r {
            Some(data) => bundle@.1 == Some(Some(data@)),
            None => bundle@.1 is None || bundle@.1 == Some(None::<Seq<u8>>),
        },
{
    match &bundle.payload {
        PayloadBlock::Data(data) => {
            let copy: Vec<u8> = data.clone();
            assert(copy@ =~= data@);
            Some(copy)
        },
        _ => None,
    }
}

/// What is handed to the Kitsune2 handler for one bundle.
#[derive(Debug)]
pub struct Delivery {
    /// The nominal URL of the node that sent it.
    pub peer: PeerUrl,
    /// The payload.
    pub payload: Bytes,
}

/// Whether `r` is what comes of a bundle that was decoded as given: the payload and
/// the URL of the source node, or the first of these that the bundle lacks.
pub open spec fn delivers(
    decoded: Result<(Seq<char>, Option<Option<Seq<u8>>>), Seq<char>>,
    r: Result<Delivery, DtnError>,
) -> bool {
    match decoded {
        Err(shown) => r matches Err(DtnError::BundleDecode { detail }) && detail@ == shown,
        Ok((source, payload)) => match payload {
            Some(Some(data)) => match source_node(source) {
                Some(name) => if dot_segment(name) {
                    r matches Err(DtnError::UrlRejected { url, detail }) && url@ == node_url_text(
                        name,
                    ) && url_objection(url@) == Some(detail@)
                } else {
                    r matches Ok(delivery) && delivery.peer@ == node_url_text(name) && bytes_held(
                        delivery.payload,
                    ) == data
                },
                None => r matches Err(DtnError::UnsupportedSource { eid }) && eid@ == source,
            },
            _ => r matches Err(DtnError::NoPayload),
        },
    }
}

/// The decoded form as a mathematical value.
pub open spec fn decoded_view(decoded: Result<ReceivedBundle, String>) -> Result<
    (Seq<char>, Option<Option<Seq<u8>>>),
    Seq<char>,
> {
    match decoded {
        Ok(bundle) => Ok(bundle@),
        Err(shown) => Err(shown@),
    }
}

/// Works out what to hand on of a bundle from what decoding it gave.
pub fn delivery_of(decoded: Result<ReceivedBundle, String>) -> (r: Result<Delivery, DtnError>)
    ensures
        delivers(decoded_view(decoded), r),
{
    match decoded {
        Err(detail) => Err(DtnError::BundleDecode { detail }),
        Ok(bundle) => {
            let payload: Vec<u8> = match extract_payload(&bundle) {
                Some(data) => data,
                None => {
                    return Err(DtnError::NoPayload);
                },
            };
            match source_node_name(bundle.source.as_str()) {
                None => Err(DtnError::UnsupportedSource { eid: bundle.source.clone() }),
                Some(name) => match node_url(name) {
                    Ok(peer) => Ok(Delivery { peer, payload: bytes_from_vec(payload) }),
                    Err(e) => Err(e),
                },
            }
        },
    }
}

/// Decodes received bytes and works out what to hand to the Kitsune2 handler.
pub fn dispatch_bundle(raw: &Bytes) -> (r: Result<Delivery, DtnError>)
    ensures
        delivers(bp7_decoded(bytes_held(*raw)), r),
{
    delivery_of(bp7_decode(bytes_slice(raw)))
}

} // verus!
