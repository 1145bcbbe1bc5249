//! What errors say.

use vstd::prelude::*;

#[allow(unused_imports)]
use crate::error::{DtnError, SegmentKind};
#[allow(unused_imports)]
use crate::outside::debug_text;
#[allow(unused_imports)]
use crate::text::decimal_text;

verus! {

/// What a kind of name is called.
pub open spec fn called(kind: SegmentKind) -> Seq<char> {
    match kind {
        SegmentKind::NodeName => "node name"@,
        SegmentKind::Service => "service"@,
        SegmentKind::PeerNodeName => "peer node name"@,
        SegmentKind::SourceNodeName => "source node name"@,
    }
}

/// The limits of names and bundles, as numerals.
proof fn lemma_limits()
    ensures
        decimal_text(255) == "255"@,
        decimal_text(67_108_864) == "67108864"@,
{
    reveal_strlit("255");
    reveal_strlit("67108864");
    reveal_with_fuel(decimal_text, 9);
    assert(decimal_text(255) =~= "255"@);
    assert(decimal_text(67_108_864) =~= "67108864"@);
}

/// Errors without values say one thing each.
pub proof fn law_plain_errors_say_what_is_wrong(e: DtnError, r: String)
    requires
        call_ensures(DtnError::message, (&e,), r),
    ensures
        e is ZeroWebPort ==> r@ == "dtn web port must be non-zero"@,
        e is ZeroLifetime ==> r@ == "dtn bundle lifetime must be non-zero"@,
        e is ZeroPollInterval ==> r@ == "dtn poll interval must be non-zero"@,
        e is CapacityNotANumber ==> r@
            == "KITSUNE2_DTN_JOURNAL_MAX_BYTES must be an unsigned byte count"@,
        e is CapacityNotUnicode ==> r@
            == "KITSUNE2_DTN_JOURNAL_MAX_BYTES must be valid Unicode digits"@,
        e is CapacityTooSmall ==> r@ == "dtn inbound journal capacity must be at least "@
            + "67108864"@ + " bytes"@,
        e is EmptyJournalRoot ==> r@ == "dtn inbound journal root must not be empty"@,
        e is ZeroPendingBytes ==> r@ == "dtn inbound journal max pending bytes must be non-zero"@,
        e is ZeroRecordBytes ==> r@ == "dtn inbound journal max record bytes must be non-zero"@,
        e is NoUniqueRecordId ==> r@ == "failed to allocate unique dtn inbound journal record id"@,
        e is OutsidePendingSet ==> r@
            == "dtn inbound journal record is outside the pending journal set"@,
        e is NoPeerNode ==> r@ == "dtn peer url has no node-name path segment"@,
        e is BodyTooLarge ==> r@ == "dtn /endpoint response exceeds "@ + "67108864"@ + " bytes"@,
        e is NoPayload ==> r@ == "received BPv7 bundle without a payload block"@,
{
    lemma_limits();
}

/// Errors with values say the values, all of them and nothing else.
pub proof fn law_errors_say_their_values(e: DtnError, r: String)
    requires
        call_ensures(DtnError::message, (&e,), r),
    ensures
        e matches DtnError::InvalidSegment(kind) ==> r@ == "dtn "@ + called(kind) + " must be 1-"@
            + "255"@ + " bytes of URI-unreserved ASCII"@,
        e matches DtnError::RecordTooLarge { max } ==> r@ == "dtn inbound journal record exceeds "@
            + decimal_text(max as nat) + " bytes"@,
        e matches DtnError::RecordTooLargeAfterRead { max } ==> r@
            == "dtn inbound journal record exceeds "@ + decimal_text(max as nat)
            + " bytes after read"@,
        e matches DtnError::CapacityExceeded { projected, capacity } ==> r@
            == "dtn inbound journal capacity exceeded: projected "@ + decimal_text(projected as nat)
            + " > "@ + decimal_text(capacity as nat) + " bytes"@,
        e matches DtnError::MalformedRecord { name } ==> r@
            == "malformed dtn inbound journal record: "@ + name@,
        e matches DtnError::OversizedRecord { name } ==> r@
            == "oversized dtn inbound journal record: "@ + name@,
        e matches DtnError::IncompleteTemp { name } ==> r@
            == "incomplete dtn inbound journal temp record: "@ + name@,
        e matches DtnError::RecoveryCollision { name } ==> r@
            == "dtn inbound journal temp record collides with pending record: "@ + name@,
        e matches DtnError::LengthMismatch { declared, actual } ==> r@
            == "dtn inbound journal record declares "@ + decimal_text(declared as nat)
            + " bytes but holds "@ + decimal_text(actual as nat),
        e matches DtnError::ChecksumMismatch { expected, found } ==> r@
            == "dtn inbound journal record declares checksum "@ + decimal_text(expected as nat)
            + " but has "@ + decimal_text(found as nat),
        e matches DtnError::UrlRejected { url: _, detail } ==> r@ == detail@,
        e matches DtnError::BundleDecode { detail } ==> r@
            == "failed to decode received bundle as bp7 Bundle: "@ + detail@,
        e matches DtnError::UnsupportedSource { eid } ==> r@ == "unsupported dtn source EID "@
            + debug_text(eid@) + "; expected dtn://<URI-unreserved-node>/"@,
{
    lemma_limits();
}

} // verus!
