//! Why a request of the transport is refused.

use vstd::prelude::*;
use vstd::string::*;

use crate::config::{MAX_BUNDLE_BYTES, MAX_DTN_SEGMENT_BYTES};
use crate::outside::debug_quoted;
use crate::text::append_decimal;
#[allow(unused_imports)]
use crate::outside::debug_text;
#[allow(unused_imports)]
use crate::text::decimal_text;

verus! {

/// What a validated name stands for.
#[derive(Clone, Copy, Debug, PartialEq, Eq)]
pub enum SegmentKind {
    NodeName,
    Service,
    PeerNodeName,
    SourceNodeName,
}

impl SegmentKind {
    /// The words that error messages use for this kind of name.
    pub open spec fn words(self) -> Seq<char> {
        match self {
            SegmentKind::NodeName => "node name"@,
            SegmentKind::Service => "service"@,
            SegmentKind::PeerNodeName => "peer node name"@,
            SegmentKind::SourceNodeName => "source node name"@,
        }
    }

    fn as_str(&self) -> (r: &'static str)
        ensures
            r@ == self.words(),
    {
        match self {
            SegmentKind::NodeName => "node name",
            SegmentKind::Service => "service",
            SegmentKind::PeerNodeName => "peer node name",
            SegmentKind::SourceNodeName => "source node name",
        }
    }
}

/// Why a request of the transport is refused.
#[derive(Debug, PartialEq, Eq)]
pub enum DtnError {
    /// A name is not 1 to 255 bytes of URI-unreserved ASCII.
    InvalidSegment(SegmentKind),
    /// The daemon's web port is zero.
    ZeroWebPort,
    /// The bundle lifetime is zero.
    ZeroLifetime,
    /// The poll interval is zero.
    ZeroPollInterval,
    /// The configured journal capacity is no unsigned number.
    CapacityNotANumber,
    /// The configured journal capacity is not Unicode.
    CapacityNotUnicode,
    /// The configured journal capacity cannot hold one bundle of the largest size.
    CapacityTooSmall,
    /// The journal root is empty.
    EmptyJournalRoot,
    /// The journal may hold no pending bytes.
    ZeroPendingBytes,
    /// The journal may hold no record.
    ZeroRecordBytes,
    /// A record is longer than the journal admits.
    RecordTooLarge { max: usize },
    /// A record turned out longer than the journal admits when it was read.
    RecordTooLargeAfterRead { max: usize },
    /// A record would take the journal over its capacity.
    CapacityExceeded { projected: u64, capacity: u64 },
    /// No unused record name was found.
    NoUniqueRecordId,
    /// A record does not belong to the pending set of this journal.
    OutsidePendingSet,
    /// An entry under a reserved name is no well-formed record.
    MalformedRecord { name: String },
    /// A pending record is longer than the journal admits.
    OversizedRecord { name: String },
    /// A record whose write was interrupted.
    IncompleteTemp { name: String },
    /// An interrupted record would replace a committed one.
    RecoveryCollision { name: String },
    /// A record does not have the length that its name declares.
    LengthMismatch { declared: usize, actual: u64 },
    /// A record does not have the checksum that its name declares.
    ChecksumMismatch { expected: u32, found: u32 },
    /// A peer URL names no node.
    NoPeerNode,
    /// Kitsune2 does not accept a URL.
    UrlRejected { url: String, detail: String },
    /// A response of the daemon is longer than a bundle may be.
    BodyTooLarge,
    /// Received bytes are no BPv7 bundle.
    BundleDecode { detail: String },
    /// A received bundle has no payload.
    NoPayload,
    /// A received bundle comes from no node that can be addressed.
    UnsupportedSource { eid: String },
}

impl DtnError {
    /// The message of this error.
    pub open spec fn message_text(self) -> Seq<char> {
        match self {
            DtnError::InvalidSegment(kind) => "dtn "@ + kind.words() + " must be 1-"@ + decimal_text(
                MAX_DTN_SEGMENT_BYTES as nat,
            ) + " bytes of URI-unreserved ASCII"@,
            DtnError::ZeroWebPort => "dtn web port must be non-zero"@,
            DtnError::ZeroLifetime => "dtn bundle lifetime must be non-zero"@,
            DtnError::ZeroPollInterval => "dtn poll interval must be non-zero"@,
            DtnError::CapacityNotANumber =>
                "KITSUNE2_DTN_JOURNAL_MAX_BYTES must be an unsigned byte count"@,
            DtnError::CapacityNotUnicode =>
                "KITSUNE2_DTN_JOURNAL_MAX_BYTES must be valid Unicode digits"@,
            DtnError::CapacityTooSmall => "dtn inbound journal capacity must be at least "@
                + decimal_text(MAX_BUNDLE_BYTES as nat) + " bytes"@,
            DtnError::EmptyJournalRoot => "dtn inbound journal root must not be empty"@,
            DtnError::ZeroPendingBytes => "dtn inbound journal max pending bytes must be non-zero"@,
            DtnError::ZeroRecordBytes => "dtn inbound journal max record bytes must be non-zero"@,
            DtnError::RecordTooLarge { max } => "dtn inbound journal record exceeds "@
                + decimal_text(max as nat) + " bytes"@,
            DtnError::RecordTooLargeAfterRead { max } => "dtn inbound journal record exceeds "@
                + decimal_text(max as nat) + " bytes after read"@,
            DtnError::CapacityExceeded { projected, capacity } =>
                "dtn inbound journal capacity exceeded: projected "@ + decimal_text(
                projected as nat,
            ) + " > "@ + decimal_text(capacity as nat) + " bytes"@,
            DtnError::NoUniqueRecordId =>
                "failed to allocate unique dtn inbound journal record id"@,
            DtnError::OutsidePendingSet =>
                "dtn inbound journal record is outside the pending journal set"@,
            DtnError::MalformedRecord { name } => "malformed dtn inbound journal record: "@ + name@,
            DtnError::OversizedRecord { name } => "oversized dtn inbound journal record: "@ + name@,
            DtnError::IncompleteTemp { name } => "incomplete dtn inbound journal temp record: "@
                + name@,
            DtnError::RecoveryCollision { name } =>
                "dtn inbound journal temp record collides with pending record: "@ + name@,
            DtnError::LengthMismatch { declared, actual } =>
                "dtn inbound journal record declares "@ + decimal_text(declared as nat)
                + " bytes but holds "@ + decimal_text(actual as nat),
            DtnError::ChecksumMismatch { expected, found } =>
                "dtn inbound journal record declares checksum "@ + decimal_text(expected as nat)
                + " but has "@ + decimal_text(found as nat),
            DtnError::NoPeerNode => "dtn peer url has no node-name path segment"@,
            DtnError::UrlRejected { url: _, detail } => detail@,
            DtnError::BodyTooLarge => "dtn /endpoint response exceeds "@ + decimal_text(
                MAX_BUNDLE_BYTES as nat,
            ) + " bytes"@,
            DtnError::BundleDecode { detail } =>
                "failed to decode received bundle as bp7 Bundle: "@ + detail@,
            DtnError::NoPayload => "received BPv7 bundle without a payload block"@,
            DtnError::UnsupportedSource { eid } => "unsupported dtn source EID "@ + debug_text(eid@)
                + "; expected dtn://<URI-unreserved-node>/"@,
        }
    }

    /// The message of this error.
    pub fn message(&self) -> (r: String)
        ensures
            r@ == self.message_text(),
    {
        match self {
            DtnError::InvalidSegment(kind) => {
                let mut m: String = "dtn ".to_owned();
                m.append(kind.as_str());
                m.append(" must be 1-");
                append_decimal(&mut m, MAX_DTN_SEGMENT_BYTES as u64);
                m.append(" bytes of URI-unreserved ASCII");
                m
            },
            DtnError::ZeroWebPort => "dtn web port must be non-zero".to_owned(),
            DtnError::ZeroLifetime => "dtn bundle lifetime must be non-zero".to_owned(),
            DtnError::ZeroPollInterval => "dtn poll interval must be non-zero".to_owned(),
            DtnError::CapacityNotANumber => {
                "KITSUNE2_DTN_JOURNAL_MAX_BYTES must be an unsigned byte count".to_owned()
            },
            DtnError::CapacityNotUnicode => {
                "KITSUNE2_DTN_JOURNAL_MAX_BYTES must be valid Unicode digits".to_owned()
            },
            DtnError::CapacityTooSmall => {
                let mut m: String = "dtn inbound journal capacity must be at least ".to_owned();
                append_decimal(&mut m, MAX_BUNDLE_BYTES as u64);
                m.append(" bytes");
                m
            },
            DtnError::EmptyJournalRoot => "dtn inbound journal root must not be empty".to_owned(),
            DtnError::ZeroPendingBytes => {
                "dtn inbound journal max pending bytes must be non-zero".to_owned()
            },
            DtnError::ZeroRecordBytes => {
                "dtn inbound journal max record bytes must be non-zero".to_owned()
            },
            DtnError::RecordTooLarge { max } => {
                let mut m: String = "dtn inbound journal record exceeds ".to_owned();
                append_decimal(&mut m, *max as u64);
                m.append(" bytes");
                m
            },
            DtnError::RecordTooLargeAfterRead { max } => {
                let mut m: String = "dtn inbound journal record exceeds ".to_owned();
                append_decimal(&mut m, *max as u64);
                m.append(" bytes after read");
                m
            },
            DtnError::CapacityExceeded { projected, capacity } => {
                let mut m: String = "dtn inbound journal capacity exceeded: projected ".to_owned();
                append_decimal(&mut m, *projected);
                m.append(" > ");
                append_decimal(&mut m, *capacity);
                m.append(" bytes");
                m
            },
            DtnError::NoUniqueRecordId => {
                "failed to allocate unique dtn inbound journal record id".to_owned()
            },
            DtnError::OutsidePendingSet => {
                "dtn inbound journal record is outside the pending journal set".to_owned()
            },
            DtnError::MalformedRecord { name } => {
                let mut m: String = "malformed dtn inbound journal record: ".to_owned();
                m.append(name.as_str());
                m
            },
            DtnError::OversizedRecord { name } => {
                let mut m: String = "oversized dtn inbound journal record: ".to_owned();
                m.append(name.as_str());
                m
            },
            DtnError::IncompleteTemp { name } => {
                let mut m: String = "incomplete dtn inbound journal temp record: ".to_owned();
                m.append(name.as_str());
                m
            },
            DtnError::RecoveryCollision { name } => {
                let mut m: String =
                    "dtn inbound journal temp record collides with pending record: ".to_owned();
                m.append(name.as_str());
                m
            },
            DtnError::LengthMismatch { declared, actual } => {
                let mut m: String = "dtn inbound journal record declares ".to_owned();
                append_decimal(&mut m, *declared as u64);
                m.append(" bytes but holds ");
                append_decimal(&mut m, *actual);
                m
            },
            DtnError::ChecksumMismatch { expected, found } => {
                let mut m: String = "dtn inbound journal record declares checksum ".to_owned();
                append_decimal(&mut m, *expected as u64);
                m.append(" but has ");
                append_decimal(&mut m, *found as u64);
                m
            },
            DtnError::NoPeerNode => "dtn peer url has no node-name path segment".to_owned(),
            DtnError::UrlRejected { url: _, detail } => detail.clone(),
            DtnError::BodyTooLarge => {
                let mut m: String = "dtn /endpoint response exceeds ".to_owned();
                append_decimal(&mut m, MAX_BUNDLE_BYTES as u64);
                m.append(" bytes");
                m
            },
            DtnError::BundleDecode { detail } => {
                let mut m: String = "failed to decode received bundle as bp7 Bundle: ".to_owned();
                m.append(detail.as_str());
                m
            },
            DtnError::NoPayload => "received BPv7 bundle without a payload block".to_owned(),
            DtnError::UnsupportedSource { eid } => {
                let mut m: String = "unsupported dtn source EID ".to_owned();
                m.append(debug_quoted(eid.as_str()).as_str());
                m.append("; expected dtn://<URI-unreserved-node>/");
                m
            },
        }
    }
}

} // verus!
