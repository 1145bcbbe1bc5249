//! What is read of an answer, and what is handed on of a bundle.

use bytes::Bytes;
use vstd::prelude::*;

#[allow(unused_imports)]
use crate::address::{peer_node_name, PeerUrl};
#[allow(unused_imports)]
use crate::body::{body_with, is_empty_queue, BoundedBody};
#[allow(unused_imports)]
use crate::bundle::{
    delivery_of, dispatch_bundle, extract_payload, Delivery, PayloadBlock, ReceivedBundle,
};
#[allow(unused_imports)]
use crate::error::DtnError;
#[allow(unused_imports)]
use crate::outside::{bp7_decoded, bytes_held};
#[allow(unused_imports)]
use super::addresses::law_peers_are_named_last;
#[allow(unused_imports)]
use super::configuration::{is_plain_name, law_valid_names_are_plain};
#[allow(unused_imports)]
use vstd::utf8::encode_utf8;

verus! {

/// The endpoint of a node.
pub open spec fn endpoint_of(name: Seq<char>) -> Seq<char> {
    "dtn://"@ + name + seq!['/']
}

/// Whether a name has a URL.
pub open spec fn has_url(name: Seq<char>) -> bool {
    is_plain_name(name) && name != seq!['.'] && name != seq!['.', '.']
}

/// Whether a payload is delivered as sent by the node of the given name.
pub open spec fn delivered_from(r: Result<Delivery, DtnError>, name: Seq<char>, data: Seq<u8>) -> bool {
    &&& r is Ok
    &&& r->Ok_0.peer@ == "ws://dtn.local:1/"@ + name
    &&& bytes_held(r->Ok_0.payload) == data
}

/// The source of a bundle is read strictly.
proof fn lemma_source(source: Seq<char>, name: Seq<char>)
    ensures
        is_plain_name(name) && source == endpoint_of(name) ==> crate::address::source_node(source)
            == Some(name),
        crate::address::source_node(source) is Some ==> source == endpoint_of(
            crate::address::source_node(source)->0,
        ) && is_plain_name(crate::address::source_node(source)->0),
{
    reveal_strlit("dtn://");
    reveal_strlit("/");
    assert("/"@ =~= seq!['/']);
    law_valid_names_are_plain(name);
    if source == endpoint_of(name) {
        assert(source.subrange(6, source.len() - 1) =~= name);
    }
    if crate::address::source_node(source) is Some {
        law_valid_names_are_plain(crate::address::source_node(source)->0);
    }
}

/// Dot segments, as texts.
proof fn lemma_dots()
    ensures
        "."@ == seq!['.'],
        ".."@ == seq!['.', '.'],
{
    reveal_strlit(".");
    reveal_strlit("..");
    assert("."@ =~= seq!['.']);
    assert(".."@ =~= seq!['.', '.']);
}

/// A bundle from a node is handed on with its whole payload, under the URL of that very
/// node.
pub proof fn law_bundles_are_delivered_from_their_source(
    bundle: ReceivedBundle,
    name: Seq<char>,
    data: Vec<u8>,
    r: Result<Delivery, DtnError>,
    peer: PeerUrl,
    p: Result<String, DtnError>,
)
    requires
        call_ensures(delivery_of, (Ok::<ReceivedBundle, String>(bundle),), r),
        has_url(name),
        bundle.source@ == endpoint_of(name),
        bundle.payload == PayloadBlock::Data(data),
        r is Ok ==> r->Ok_0.peer == peer,
        call_ensures(peer_node_name, (&peer,), p),
    ensures
        delivered_from(r, name, data@),
        p is Ok && p->Ok_0@ == name,
{
    lemma_source(bundle.source@, name);
    lemma_dots();
    assert(delivered_from(r, name, data@));
    super::addresses::lemma_node_url_parts(name);
    law_peers_are_named_last(peer, seq!['w', 's'], super::addresses::host_text(), name, p);
}

/// What is not handed on, and why: bytes that could not be decoded, then bundles without
/// data, then those of no node, and last those of a node that has no URL.
pub proof fn law_bundles_are_refused(
    decoded: Result<ReceivedBundle, String>,
    r: Result<Delivery, DtnError>,
)
    requires
        call_ensures(delivery_of, (decoded,), r),
    ensures
        decoded is Err ==> r is Err && r->Err_0 is BundleDecode && r->Err_0->BundleDecode_detail@
            == decoded->Err_0@,
        decoded is Ok && !(decoded->Ok_0.payload is Data) ==> r is Err && r->Err_0 is NoPayload,
        decoded is Ok && decoded->Ok_0.payload is Data && (forall|name: Seq<char>|
            is_plain_name(name) ==> decoded->Ok_0.source@ != #[trigger] endpoint_of(name)) ==> {
            &&& r is Err && r->Err_0 is UnsupportedSource
            &&& r->Err_0->UnsupportedSource_eid@ == decoded->Ok_0.source@
        },
        decoded is Ok && decoded->Ok_0.payload is Data && (decoded->Ok_0.source@ == endpoint_of(
            seq!['.'],
        ) || decoded->Ok_0.source@ == endpoint_of(seq!['.', '.'])) ==> r is Err && r->Err_0
            is UrlRejected,
{
    lemma_dots();
    if decoded is Ok {
        let source = decoded->Ok_0.source@;
        lemma_source(source, seq!['.']);
        lemma_source(source, seq!['.', '.']);
        let found = crate::address::source_node(source);
        if found is Some {
            assert(source == endpoint_of(found->0));
        }
    }
}

/// Received bytes are handed on as what they decode to: where that is a bundle of a node with
/// data, all of the data, under the URL of that node.
pub proof fn law_received_bytes_are_delivered(
    raw: Bytes,
    name: Seq<char>,
    data: Seq<u8>,
    r: Result<Delivery, DtnError>,
)
    requires
        call_ensures(dispatch_bundle, (&raw,), r),
    ensures
        has_url(name) && bp7_decoded(bytes_held(raw)) == Ok::<_, Seq<char>>(
            (endpoint_of(name), Some(Some(data))),
        ) ==> delivered_from(r, name, data),
        bp7_decoded(bytes_held(raw)) is Err ==> r is Err && r->Err_0 is BundleDecode
            && r->Err_0->BundleDecode_detail@ == bp7_decoded(bytes_held(raw))->Err_0,
        bp7_decoded(bytes_held(raw)) is Ok && !(bp7_decoded(bytes_held(raw))->Ok_0.1 is Some
            && bp7_decoded(bytes_held(raw))->Ok_0.1->0 is Some) ==> r is Err && r->Err_0
            is NoPayload,
        bp7_decoded(bytes_held(raw)) is Ok && bp7_decoded(bytes_held(raw))->Ok_0.1 == Some(
            Some(data),
        ) && (forall|n: Seq<char>|
            is_plain_name(n) ==> bp7_decoded(bytes_held(raw))->Ok_0.0 != #[trigger] endpoint_of(n))
            ==> {
            &&& r is Err && r->Err_0 is UnsupportedSource
            &&& r->Err_0->UnsupportedSource_eid@ == bp7_decoded(bytes_held(raw))->Ok_0.0
        },
{
    lemma_source(endpoint_of(name), name);
    lemma_dots();
    if bp7_decoded(bytes_held(raw)) is Ok {
        let source = bp7_decoded(bytes_held(raw))->Ok_0.0;
        lemma_source(source, name);
        let found = crate::address::source_node(source);
        if found is Some {
            assert(source == endpoint_of(found->0));
        }
    }
}

/// The payload of a bundle is what its payload block holds, where that is data.
pub proof fn law_payloads_are_taken_out(bundle: ReceivedBundle, r: Option<Vec<u8>>)
    requires
        call_ensures(extract_payload, (&bundle,), r),
    ensures
        r is Some <==> bundle.payload is Data,
        r is Some ==> r->0@ == bundle.payload->Data_0@,
{
}

/// An answer means an empty queue exactly where it is empty or says `Nothing to receive`.
pub proof fn law_empty_queues_are_told(raw: Bytes, r: bool)
    requires
        call_ensures(is_empty_queue, (&raw,), r),
    ensures
        r <==> bytes_held(raw).len() == 0 || bytes_held(raw) == encode_utf8("Nothing to receive"@),
{
}

/// An answer is begun exactly where it announces no length or one of at most 64 MiB, and
/// begins empty; what is finished is what was read.
pub proof fn law_answers_are_bounded(
    announced: Option<u64>,
    r: Result<BoundedBody, DtnError>,
    body: BoundedBody,
    whole: Bytes,
)
    requires
        call_ensures(BoundedBody::begin, (announced,), r),
        call_ensures(BoundedBody::finish, (body,), whole),
    ensures
        r is Ok <==> (announced is Some ==> announced->0 <= 67_108_864),
        r is Ok ==> r->Ok_0@.len() == 0,
        r is Err ==> r->Err_0 is BodyTooLarge,
        bytes_held(whole) == body@,
{
}

/// A chunk is taken in, behind what is there, exactly where there are at most 64 MiB
/// then.
pub proof fn law_chunks_are_taken_in(body: Seq<u8>, chunk: Seq<u8>)
    ensures
        body.len() + chunk.len() <= 67_108_864 ==> body_with(body, chunk) == Some(body + chunk),
        body.len() + chunk.len() > 67_108_864 ==> body_with(body, chunk) is None,
{
}

/// A body that takes a chunk in holds what it held and the chunk behind it; one that does
/// not, because there would be more than 64 MiB, holds what it held.
pub proof fn law_bodies_grow_by_their_chunks(chunk: &[u8], r: Result<(), DtnError>)
    ensures
        forall|body: &mut BoundedBody| #[trigger]
            call_ensures(BoundedBody::push, (body, chunk), r) ==> {
                &&& r is Ok <==> (*body)@.len() + chunk@.len() <= 67_108_864
                &&& r is Ok ==> (*final(body))@ == (*body)@ + chunk@
                &&& r is Err ==> (*final(body))@ == (*body)@ && r->Err_0 is BodyTooLarge
            },
{
}

} // verus!
