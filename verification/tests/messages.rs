use kitsune2_transport_dtn::error::{DtnError, SegmentKind};

#[test]
fn errors_say_what_is_wrong() {
    let cases = [
        (
            DtnError::InvalidSegment(SegmentKind::NodeName),
            "dtn node name must be 1-255 bytes of URI-unreserved ASCII",
        ),
        (
            DtnError::InvalidSegment(SegmentKind::Service),
            "dtn service must be 1-255 bytes of URI-unreserved ASCII",
        ),
        (
            DtnError::InvalidSegment(SegmentKind::PeerNodeName),
            "dtn peer node name must be 1-255 bytes of URI-unreserved ASCII",
        ),
        (
            DtnError::InvalidSegment(SegmentKind::SourceNodeName),
            "dtn source node name must be 1-255 bytes of URI-unreserved ASCII",
        ),
        (DtnError::ZeroWebPort, "dtn web port must be non-zero"),
        (DtnError::ZeroLifetime, "dtn bundle lifetime must be non-zero"),
        (DtnError::ZeroPollInterval, "dtn poll interval must be non-zero"),
        (
            DtnError::CapacityNotANumber,
            "KITSUNE2_DTN_JOURNAL_MAX_BYTES must be an unsigned byte count",
        ),
        (
            DtnError::CapacityNotUnicode,
            "KITSUNE2_DTN_JOURNAL_MAX_BYTES must be valid Unicode digits",
        ),
        (
            DtnError::CapacityTooSmall,
            "dtn inbound journal capacity must be at least 67108864 bytes",
        ),
        (DtnError::EmptyJournalRoot, "dtn inbound journal root must not be empty"),
        (
            DtnError::ZeroPendingBytes,
            "dtn inbound journal max pending bytes must be non-zero",
        ),
        (
            DtnError::ZeroRecordBytes,
            "dtn inbound journal max record bytes must be non-zero",
        ),
        (
            DtnError::RecordTooLarge { max: 8 },
            "dtn inbound journal record exceeds 8 bytes",
        ),
        (
            DtnError::RecordTooLargeAfterRead { max: 8 },
            "dtn inbound journal record exceeds 8 bytes after read",
        ),
        (
            DtnError::CapacityExceeded { projected: 9, capacity: 8 },
            "dtn inbound journal capacity exceeded: projected 9 > 8 bytes",
        ),
        (
            DtnError::NoUniqueRecordId,
            "failed to allocate unique dtn inbound journal record id",
        ),
        (
            DtnError::OutsidePendingSet,
            "dtn inbound journal record is outside the pending journal set",
        ),
        (
            DtnError::MalformedRecord { name: "r".into() },
            "malformed dtn inbound journal record: r",
        ),
        (
            DtnError::OversizedRecord { name: "r".into() },
            "oversized dtn inbound journal record: r",
        ),
        (
            DtnError::IncompleteTemp { name: "r".into() },
            "incomplete dtn inbound journal temp record: r",
        ),
        (
            DtnError::RecoveryCollision { name: "r".into() },
            "dtn inbound journal temp record collides with pending record: r",
        ),
        (
            DtnError::LengthMismatch { declared: 3, actual: 2 },
            "dtn inbound journal record declares 3 bytes but holds 2",
        ),
        (
            DtnError::ChecksumMismatch { expected: 1, found: 0 },
            "dtn inbound journal record declares checksum 1 but has 0",
        ),
        (DtnError::NoPeerNode, "dtn peer url has no node-name path segment"),
        (DtnError::UrlRejected { url: "u".into(), detail: "why".into() }, "why"),
        (
            DtnError::BodyTooLarge,
            "dtn /endpoint response exceeds 67108864 bytes",
        ),
        (
            DtnError::BundleDecode { detail: "why".into() },
            "failed to decode received bundle as bp7 Bundle: why",
        ),
        (DtnError::NoPayload, "received BPv7 bundle without a payload block"),
        (
            DtnError::UnsupportedSource { eid: "dtn://a\"b/".into() },
            "unsupported dtn source EID \"dtn://a\\\"b/\"; expected dtn://<URI-unreserved-node>/",
        ),
    ];
    for (error, message) in cases {
        assert_eq!(error.message(), message);
    }
}
