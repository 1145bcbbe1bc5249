use bp7::bundle::new_std_payload_bundle;
use bp7::EndpointID;
use bytes::Bytes;
use kitsune2_transport_dtn::body::{is_empty_queue, BoundedBody};
use kitsune2_transport_dtn::bundle::{
    delivery_of, dispatch_bundle, extract_payload, PayloadBlock, ReceivedBundle,
};
use kitsune2_transport_dtn::config::MAX_BUNDLE_BYTES;
use kitsune2_transport_dtn::error::DtnError;

fn encoded(source: &str, payload: &[u8]) -> Bytes {
    let source = EndpointID::try_from(source).expect("source");
    let destination = EndpointID::try_from("dtn://node-1/kitsune2").expect("destination");
    Bytes::from(new_std_payload_bundle(source, destination, payload.to_vec()).to_cbor())
}

#[test]
fn a_bundle_is_handed_on_with_its_source_and_payload() {
    let raw = encoded("dtn://node-2/", b"payload");
    let delivery = dispatch_bundle(&raw).expect("a delivery");
    assert_eq!(delivery.peer.as_str(), "ws://dtn.local:1/node-2");
    assert_eq!(delivery.payload, Bytes::from_static(b"payload"));
}

#[test]
fn long_payloads_are_handed_on_unchanged() {
    let payload: Vec<u8> = (0..100_000_u32).map(|i| (i % 251) as u8).collect();
    let raw = encoded("dtn://node-2/", &payload);
    let delivery = dispatch_bundle(&raw).expect("a delivery");
    assert_eq!(delivery.payload, Bytes::from(payload));
}

#[test]
fn bundles_of_other_sources_are_refused() {
    for source in ["dtn://node-2/service", "ipn:1.1", "dtn:none"] {
        let raw = encoded(source, b"payload");
        assert_eq!(
            dispatch_bundle(&raw).unwrap_err(),
            DtnError::UnsupportedSource { eid: source.into() }
        );
    }
}

#[test]
fn bytes_that_are_no_bundle_are_refused() {
    for raw in [&b"Nothing to receive"[..], &b""[..], &b"\x9f\xff"[..]] {
        match dispatch_bundle(&Bytes::copy_from_slice(raw)) {
            Err(DtnError::BundleDecode { detail }) => assert!(!detail.is_empty()),
            other => panic!("decoded {raw:?} as {other:?}"),
        }
    }
}

#[test]
fn bundles_without_data_are_refused() {
    for payload in [PayloadBlock::Missing, PayloadBlock::Other] {
        let bundle = ReceivedBundle { source: "dtn://node-2/".into(), payload };
        assert_eq!(extract_payload(&bundle), None);
        assert_eq!(delivery_of(Ok(bundle)).unwrap_err(), DtnError::NoPayload);
    }
    let bundle = ReceivedBundle {
        source: "nowhere".into(),
        payload: PayloadBlock::Missing,
    };
    assert_eq!(delivery_of(Ok(bundle)).unwrap_err(), DtnError::NoPayload);
}

#[test]
fn decoded_bundles_are_mapped() {
    let bundle = |source: &str| ReceivedBundle {
        source: source.into(),
        payload: PayloadBlock::Data(b"data".to_vec()),
    };
    assert_eq!(extract_payload(&bundle("x")), Some(b"data".to_vec()));
    let delivery = delivery_of(Ok(bundle("dtn://node-2/"))).expect("a delivery");
    assert_eq!(delivery.peer.as_str(), "ws://dtn.local:1/node-2");
    assert_eq!(delivery.payload, Bytes::from_static(b"data"));
    assert_eq!(
        delivery_of(Ok(bundle("dtn://node 2/"))).unwrap_err(),
        DtnError::UnsupportedSource { eid: "dtn://node 2/".into() }
    );
    match delivery_of(Ok(bundle("dtn://../"))) {
        Err(DtnError::UrlRejected { .. }) => {}
        other => panic!("mapped to {other:?}"),
    }
    assert_eq!(
        delivery_of(Err("shown".into())).unwrap_err(),
        DtnError::BundleDecode { detail: "shown".into() }
    );
}

#[test]
fn a_body_is_what_its_chunks_hold() {
    let mut body = BoundedBody::begin(Some(8)).expect("admitted");
    assert_eq!(body.push(b"raw-"), Ok(()));
    assert_eq!(body.push(b""), Ok(()));
    assert_eq!(body.push(b"bundle"), Ok(()));
    assert_eq!(body.finish(), Bytes::from_static(b"raw-bundle"));
    let empty = BoundedBody::begin(None).expect("admitted");
    assert_eq!(empty.finish(), Bytes::new());
}

#[test]
fn announced_bodies_are_bounded() {
    assert!(BoundedBody::begin(Some(MAX_BUNDLE_BYTES as u64)).is_ok());
    assert_eq!(
        BoundedBody::begin(Some(MAX_BUNDLE_BYTES as u64 + 1)).unwrap_err(),
        DtnError::BodyTooLarge
    );
    assert!(BoundedBody::begin(None).is_ok());
}

#[test]
fn streamed_bodies_are_bounded() {
    let chunk = vec![7_u8; MAX_BUNDLE_BYTES / 4];
    let mut body = BoundedBody::begin(None).expect("admitted");
    for _ in 0..4 {
        assert_eq!(body.push(&chunk), Ok(()));
    }
    assert_eq!(body.push(b"x"), Err(DtnError::BodyTooLarge));
    assert_eq!(body.push(b""), Ok(()));
    assert_eq!(body.finish().len(), MAX_BUNDLE_BYTES);
}

#[test]
fn empty_queues_are_recognised() {
    assert!(is_empty_queue(&Bytes::new()));
    assert!(is_empty_queue(&Bytes::from_static(b"Nothing to receive")));
    for other in [&b"Nothing to receive\n"[..], b"nothing to receive", b"N", b"\x9f"] {
        assert!(!is_empty_queue(&Bytes::copy_from_slice(other)));
    }
}
