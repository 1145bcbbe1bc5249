use kitsune2_transport_dtn::config::{
    inbound_journal_settings, validate_dtn_config, CapacityVar, DtnConfig, PollInterval,
    DEFAULT_JOURNAL_MAX_BYTES, MAX_BUNDLE_BYTES,
};
use kitsune2_transport_dtn::error::{DtnError, SegmentKind};
use kitsune2_transport_dtn::factory::{CreationStep, DtnTransportFactory};

fn config() -> DtnConfig {
    DtnConfig {
        web_port: 3000,
        node_name: "node-1".into(),
        service: "kitsune2".into(),
        lifetime_secs: 3600,
        poll_interval: PollInterval::from_millis(100),
    }
}

#[test]
fn each_unusable_value_has_its_own_error() {
    let mut cfg = config();
    cfg.web_port = 0;
    assert_eq!(validate_dtn_config(&cfg), Err(DtnError::ZeroWebPort));
    cfg = config();
    cfg.node_name = "node 1".into();
    assert_eq!(
        validate_dtn_config(&cfg),
        Err(DtnError::InvalidSegment(SegmentKind::NodeName))
    );
    cfg = config();
    cfg.service = "".into();
    assert_eq!(
        validate_dtn_config(&cfg),
        Err(DtnError::InvalidSegment(SegmentKind::Service))
    );
    cfg = config();
    cfg.lifetime_secs = 0;
    assert_eq!(validate_dtn_config(&cfg), Err(DtnError::ZeroLifetime));
    cfg = config();
    cfg.poll_interval = PollInterval { secs: 0, nanos: 0 };
    assert_eq!(validate_dtn_config(&cfg), Err(DtnError::ZeroPollInterval));
    cfg.poll_interval = PollInterval { secs: 0, nanos: 1 };
    assert_eq!(validate_dtn_config(&cfg), Ok(()));
}

#[test]
fn intervals_are_cut_into_seconds_and_nanoseconds() {
    let interval = PollInterval::from_millis(2_345);
    assert_eq!(interval.secs, 2);
    assert_eq!(interval.nanos, 345_000_000);
    assert!(!interval.is_zero());
    assert!(PollInterval::from_millis(0).is_zero());
}

#[test]
fn the_journal_has_a_default_place_and_capacity() {
    let settings = inbound_journal_settings(&config(), None, CapacityVar::NotPresent).unwrap();
    assert_eq!(settings.base, b".kitsune2-dtn-journal");
    assert_eq!(settings.instance, "node-1-3000");
    assert_eq!(settings.service, "kitsune2");
    assert_eq!(settings.max_pending_bytes, 536_870_912);
    assert_eq!(DEFAULT_JOURNAL_MAX_BYTES, 512 * 1024 * 1024);
    assert_eq!(MAX_BUNDLE_BYTES, 64 * 1024 * 1024);
}

#[test]
fn the_journal_can_be_moved_and_resized() {
    let settings = inbound_journal_settings(
        &config(),
        Some(b"/var/lib/\xff".to_vec()),
        CapacityVar::Value("67108864".into()),
    )
    .unwrap();
    assert_eq!(settings.base, b"/var/lib/\xff");
    assert_eq!(settings.max_pending_bytes, 67_108_864);
}

#[test]
fn capacities_are_numbers_that_hold_one_bundle() {
    let outcome = |text: &str| {
        inbound_journal_settings(&config(), None, CapacityVar::Value(text.into()))
            .map(|settings| settings.max_pending_bytes)
    };
    assert_eq!(outcome("+67108864"), Ok(67_108_864));
    assert_eq!(outcome("0067108864"), Ok(67_108_864));
    assert_eq!(outcome("18446744073709551615"), Ok(u64::MAX));
    assert_eq!(outcome("67108863"), Err(DtnError::CapacityTooSmall));
    assert_eq!(outcome("0"), Err(DtnError::CapacityTooSmall));
    for text in ["", "+", "-1", " 67108864", "6_7", "1e9", "18446744073709551616"] {
        assert_eq!(outcome(text), Err(DtnError::CapacityNotANumber), "{text:?}");
    }
    assert_eq!(
        inbound_journal_settings(&config(), None, CapacityVar::NotUnicode).unwrap_err(),
        DtnError::CapacityNotUnicode
    );
}

#[test]
fn nodes_with_similar_names_have_their_own_journals() {
    let mut a = config();
    a.node_name = "node-1".into();
    a.web_port = 23;
    let mut b = config();
    b.node_name = "node-12".into();
    b.web_port = 3;
    let place = |cfg: &DtnConfig| {
        inbound_journal_settings(cfg, None, CapacityVar::NotPresent)
            .unwrap()
            .instance
    };
    assert_eq!(place(&a), "node-1-23");
    assert_eq!(place(&b), "node-12-3");
}

#[test]
fn factories_check_configuration_and_environment() {
    let mut factory = DtnTransportFactory { cfg: config() };
    assert_eq!(factory.validate_config(None, CapacityVar::NotPresent), Ok(()));
    assert_eq!(
        factory.validate_config(None, CapacityVar::Value("1".into())),
        Err(DtnError::CapacityTooSmall)
    );
    let settings = factory
        .begin(Some(b"base".to_vec()), CapacityVar::NotPresent)
        .unwrap();
    assert_eq!(settings.base, b"base");
    assert_eq!(settings.instance, "node-1-3000");
    factory.cfg.web_port = 0;
    assert_eq!(
        factory.validate_config(None, CapacityVar::Value("1".into())),
        Err(DtnError::ZeroWebPort)
    );
    assert_eq!(
        factory.begin(None, CapacityVar::NotPresent).unwrap_err(),
        DtnError::ZeroWebPort
    );
}

#[test]
fn a_transport_needs_every_step() {
    let order = [
        CreationStep::OpenJournal,
        CreationStep::BuildUrl,
        CreationStep::BuildClient,
        CreationStep::Register,
    ];
    for failing in 0..=order.len() {
        let mut step = CreationStep::OpenJournal;
        for (i, expected) in order.iter().enumerate() {
            if step != CreationStep::Failed {
                assert_eq!(step, *expected);
            }
            step = step.next(i != failing);
        }
        if failing < order.len() {
            assert_eq!(step, CreationStep::Failed);
        } else {
            assert_eq!(step, CreationStep::Ready);
        }
        assert_eq!(step.next(true), step);
        assert_eq!(step.next(false), step);
    }
}

#[test]
fn journals_stand_below_their_base() {
    let root = |base: Option<&[u8]>| {
        inbound_journal_settings(&config(), base.map(|b| b.to_vec()), CapacityVar::NotPresent)
            .unwrap()
            .root()
    };
    assert_eq!(root(None), b".kitsune2-dtn-journal/node-1-3000/kitsune2");
    assert_eq!(root(Some(b"/var/lib")), b"/var/lib/node-1-3000/kitsune2");
    assert_eq!(root(Some(b"/var/lib/")), b"/var/lib/node-1-3000/kitsune2");
    assert_eq!(root(Some(b"/")), b"/node-1-3000/kitsune2");
    assert_eq!(root(Some(b"")), b"node-1-3000/kitsune2");
    assert_eq!(root(Some(b"\xff")), b"\xff/node-1-3000/kitsune2");
}

#[test]
fn services_of_a_node_have_their_own_journals() {
    let mut cfg = config();
    let first = inbound_journal_settings(&cfg, None, CapacityVar::NotPresent).unwrap();
    cfg.service = "other".into();
    let second = inbound_journal_settings(&cfg, None, CapacityVar::NotPresent).unwrap();
    assert_eq!(first.instance, second.instance);
    assert_ne!(first.root(), second.root());
}
