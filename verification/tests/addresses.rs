use kitsune2_transport_dtn::address::{
    endpoint_url, node_url, peer_node_name, register_url, send_url, source_node_name, PeerUrl,
};
use kitsune2_transport_dtn::config::{
    validate_dtn_config, validate_dtn_segment, DtnConfig, PollInterval,
};
use kitsune2_transport_dtn::error::{DtnError, SegmentKind};

fn valid_config() -> DtnConfig {
    DtnConfig {
        web_port: 3000,
        node_name: "node-1".into(),
        service: "kitsune2".into(),
        lifetime_secs: 3600,
        poll_interval: PollInterval::from_millis(100),
    }
}

#[test]
fn node_url_rejects_invalid_node_names() {
    for invalid in ["", "node/child", "node child", "node?query", "node#fragment"] {
        assert!(
            node_url(invalid).is_err(),
            "accepted invalid node name {invalid:?}"
        );
    }
}

#[test]
fn node_url_round_trips_peer_name() {
    let url = node_url("node-1").expect("valid node URL");
    assert_eq!(peer_node_name(&url).expect("peer name"), "node-1");
}

#[test]
fn source_eid_parsing_is_strict() {
    assert_eq!(source_node_name("dtn://node-1/"), Some("node-1"));
    for invalid in [
        "node-1",
        "dtn://node-1",
        "dtn://node-1/service",
        "dtn://node child/",
        "ipn:1.1",
    ] {
        assert_eq!(source_node_name(invalid), None, "accepted {invalid:?}");
    }
}

#[test]
fn config_validation_rejects_unsafe_or_inert_values() {
    let mut cfg = valid_config();
    assert!(validate_dtn_config(&cfg).is_ok());

    cfg.web_port = 0;
    assert!(validate_dtn_config(&cfg).is_err());
    cfg = valid_config();
    cfg.service = "bad/service".into();
    assert!(validate_dtn_config(&cfg).is_err());
    cfg = valid_config();
    cfg.lifetime_secs = 0;
    assert!(validate_dtn_config(&cfg).is_err());
    cfg = valid_config();
    cfg.poll_interval = PollInterval::from_millis(0);
    assert!(validate_dtn_config(&cfg).is_err());
}

#[test]
fn every_unreserved_character_round_trips() {
    let mut names: Vec<String> = ('a'..='z')
        .chain('A'..='Z')
        .chain('0'..='9')
        .chain(['-', '_', '~'])
        .map(|c| c.to_string())
        .collect();
    names.push("a.b-c_d~e".into());
    names.push("...".into());
    names.push(".a".into());
    names.push("n".repeat(255));
    for name in names {
        let url = node_url(&name).expect("valid name");
        assert_eq!(url.as_str(), format!("ws://dtn.local:1/{name}"));
        assert_eq!(peer_node_name(&url).expect("peer name"), name);
    }
}

#[test]
fn names_of_the_wrong_length_are_refused() {
    assert_eq!(
        node_url(&"n".repeat(256)).unwrap_err(),
        DtnError::InvalidSegment(SegmentKind::NodeName)
    );
    assert_eq!(
        validate_dtn_segment(SegmentKind::Service, ""),
        Err(DtnError::InvalidSegment(SegmentKind::Service))
    );
    assert_eq!(validate_dtn_segment(SegmentKind::Service, &"s".repeat(255)), Ok(()));
    assert_eq!(
        validate_dtn_segment(SegmentKind::Service, "n\u{e9}"),
        Err(DtnError::InvalidSegment(SegmentKind::Service))
    );
}

#[test]
fn dot_segments_have_no_url() {
    for name in [".", ".."] {
        match node_url(name) {
            Err(DtnError::UrlRejected { url, detail }) => {
                assert_eq!(url, format!("ws://dtn.local:1/{name}"));
                assert!(!detail.is_empty());
            }
            other => panic!("{name} has the url {other:?}"),
        }
    }
}

#[test]
fn peer_urls_without_a_valid_node_are_refused() {
    let url = PeerUrl::parse("ws://dtn.local:1").expect("valid url");
    assert_eq!(peer_node_name(&url), Err(DtnError::NoPeerNode));
    let url = PeerUrl::parse("ws://dtn.local:1/a!b").expect("valid url");
    assert_eq!(
        peer_node_name(&url),
        Err(DtnError::InvalidSegment(SegmentKind::PeerNodeName))
    );
    assert_eq!(
        send_url(&valid_config(), &url),
        Err(DtnError::InvalidSegment(SegmentKind::PeerNodeName))
    );
}

#[test]
fn texts_that_are_no_kitsune_urls_are_refused() {
    for text in ["", "node-1", "ftp://dtn.local:1/node-1", "ws://dtn.local/../node"] {
        assert!(PeerUrl::parse(text).is_err(), "accepted {text:?}");
    }
    assert_eq!(
        PeerUrl::parse("ws://dtn.local:1/node-1").expect("valid url").as_str(),
        "ws://dtn.local:1/node-1"
    );
}

#[test]
fn source_names_are_validated() {
    assert_eq!(source_node_name("dtn:///"), None);
    assert_eq!(source_node_name("dtn://"), None);
    assert_eq!(source_node_name("dtn:none"), None);
    assert_eq!(source_node_name("dtn://n\u{e9}/"), None);
    assert_eq!(source_node_name("dtn://./"), Some("."));
    let longest = "n".repeat(255);
    assert_eq!(source_node_name(&format!("dtn://{longest}/")), Some(longest.as_str()));
    assert_eq!(source_node_name(&format!("dtn://n{longest}/")), None);
}

#[test]
fn a_source_maps_to_the_node_that_sent() {
    let name = source_node_name("dtn://node-2/").expect("a node");
    let url = node_url(name).expect("a url");
    assert_eq!(peer_node_name(&url).expect("a name"), "node-2");
}

#[test]
fn requests_to_the_daemon_are_written_out() {
    let cfg = valid_config();
    let peer = node_url("node-2").expect("a url");
    assert_eq!(
        send_url(&cfg, &peer).expect("a request"),
        "http://127.0.0.1:3000/send?dst=dtn%3A%2F%2Fnode-2%2Fkitsune2&lifetime=3600s"
    );
    assert_eq!(register_url(&cfg), "http://127.0.0.1:3000/register?kitsune2");
    assert_eq!(endpoint_url(&cfg), "http://127.0.0.1:3000/endpoint?kitsune2");
}

#[test]
fn services_are_percent_encoded() {
    let mut cfg = valid_config();
    cfg.service = "a b/\u{e9}~".into();
    assert_eq!(register_url(&cfg), "http://127.0.0.1:3000/register?a%20b%2F%C3%A9~");
    assert_eq!(endpoint_url(&cfg), "http://127.0.0.1:3000/endpoint?a%20b%2F%C3%A9~");
    cfg.service = "Az09-._~".into();
    assert_eq!(register_url(&cfg), "http://127.0.0.1:3000/register?Az09-._~");
}
