//! What is configured, and what comes of it.

use vstd::prelude::*;

#[allow(unused_imports)]
use crate::config::{
    inbound_journal_settings, unreserved, valid_segment, validate_dtn_config, validate_dtn_segment,
    CapacityVar, DtnConfig, JournalSettings, PollInterval, DEFAULT_JOURNAL_MAX_BYTES,
    HTTP_CONNECT_TIMEOUT_SECS, HTTP_REQUEST_TIMEOUT_SECS, MAX_BUNDLE_BYTES, MAX_DTN_SEGMENT_BYTES,
};
#[allow(unused_imports)]
use crate::error::{DtnError, SegmentKind};
#[allow(unused_imports)]
use crate::factory::{CreationStep, DtnTransportFactory};
#[allow(unused_imports)]
use crate::text::{decimal_text, parsed_decimal};
#[allow(unused_imports)]
use vstd::utf8::encode_utf8;

verus! {

/// The limits of the transport, in bytes and seconds.
pub proof fn law_limits()
    ensures
        MAX_BUNDLE_BYTES == 64 * 1024 * 1024,
        DEFAULT_JOURNAL_MAX_BYTES == 512 * 1024 * 1024,
        MAX_DTN_SEGMENT_BYTES == 255,
        HTTP_CONNECT_TIMEOUT_SECS == 5,
        HTTP_REQUEST_TIMEOUT_SECS == 30,
{
}

/// A letter or digit of ASCII, or one of `-`, `.`, `_` and `~`, by its code.
pub open spec fn has_plain_code(c: char) -> bool {
    let code = c as int;
    ||| 48 <= code <= 57
    ||| 65 <= code <= 90
    ||| 97 <= code <= 122
    ||| code == 45
    ||| code == 46
    ||| code == 95
    ||| code == 126
}

/// A name of 1 to 255 such characters.
pub open spec fn is_plain_name(name: Seq<char>) -> bool {
    &&& 1 <= name.len()
    &&& name.len() <= 255
    &&& forall|i: int| 0 <= i < name.len() ==> has_plain_code(#[trigger] name[i])
}

/// The two ways to say that a name is valid agree.
pub proof fn law_valid_names_are_plain(name: Seq<char>)
    ensures
        valid_segment(name) <==> is_plain_name(name),
{
    if valid_segment(name) {
        assert forall|i: int| 0 <= i < name.len() implies has_plain_code(#[trigger] name[i]) by {
            assert(unreserved(name[i]));
        }
    }
    if is_plain_name(name) {
        assert forall|i: int| 0 <= i < name.len() implies unreserved(#[trigger] name[i]) by {
            assert(has_plain_code(name[i]));
        }
    }
}

/// A name is accepted exactly where it has 1 to 255 plain characters, and is refused as what
/// it was meant for.
pub proof fn law_names_are_validated(kind: SegmentKind, value: &str, r: Result<(), DtnError>)
    requires
        call_ensures(validate_dtn_segment, (kind, value), r),
    ensures
        r is Ok <==> is_plain_name(value@),
        r matches Err(e) ==> e == DtnError::InvalidSegment(kind),
{
    law_valid_names_are_plain(value@);
}

/// Whether a configuration can be used: port and lifetime are not zero, name and service are
/// plain names, and the poll interval is longer than no time.
pub open spec fn is_usable(cfg: DtnConfig) -> bool {
    &&& cfg.web_port > 0
    &&& is_plain_name(cfg.node_name@)
    &&& is_plain_name(cfg.service@)
    &&& cfg.lifetime_secs > 0
    &&& (cfg.poll_interval.secs > 0 || cfg.poll_interval.nanos > 0)
}

/// A configuration is accepted exactly where it can be used. Otherwise the error names the
/// first of port, node name, service, lifetime and poll interval that is unusable, and
/// that one is.
pub proof fn law_configurations_are_validated(cfg: DtnConfig, r: Result<(), DtnError>)
    requires
        call_ensures(validate_dtn_config, (&cfg,), r),
    ensures
        r is Ok <==> is_usable(cfg),
        r matches Err(e) ==> unusable_first(cfg, e),
{
    law_valid_names_are_plain(cfg.node_name@);
    law_valid_names_are_plain(cfg.service@);
}

/// Whether an error names the first unusable value of a configuration.
pub open spec fn unusable_first(cfg: DtnConfig, e: DtnError) -> bool {
    &&& e is ZeroWebPort <==> cfg.web_port == 0
    &&& e == DtnError::InvalidSegment(SegmentKind::NodeName) <==> cfg.web_port > 0
        && !is_plain_name(cfg.node_name@)
    &&& e == DtnError::InvalidSegment(SegmentKind::Service) <==> cfg.web_port > 0
        && is_plain_name(cfg.node_name@) && !is_plain_name(cfg.service@)
    &&& e is ZeroLifetime <==> cfg.web_port > 0 && is_plain_name(cfg.node_name@)
        && is_plain_name(cfg.service@) && cfg.lifetime_secs == 0
    &&& e is ZeroPollInterval <==> cfg.web_port > 0 && is_plain_name(cfg.node_name@)
        && is_plain_name(cfg.service@) && cfg.lifetime_secs > 0 && cfg.poll_interval.secs == 0
        && cfg.poll_interval.nanos == 0
}

/// An interval of milliseconds is cut into whole seconds and what is left, and is no time
/// only where it has neither.
pub proof fn law_intervals(millis: u64, interval: PollInterval, r: PollInterval, zero: bool)
    requires
        call_ensures(PollInterval::from_millis, (millis,), r),
        call_ensures(PollInterval::is_zero, (&interval,), zero),
    ensures
        r.secs == millis / 1000,
        r.nanos == (millis % 1000) * 1_000_000,
        zero <==> interval.secs == 0 && interval.nanos == 0,
{
    assert(r.secs * 1_000_000_000 + r.nanos == millis * 1_000_000);
}

/// The capacity that the environment asks for: the number that it says, or 512 MiB where it
/// says none. It is refused where it is no number or holds no bundle of 64 MiB.
pub open spec fn asks_for(var: CapacityVar, r: Result<u64, DtnError>) -> bool {
    match var {
        CapacityVar::NotPresent => r == Ok::<u64, DtnError>(536_870_912),
        CapacityVar::NotUnicode => r == Err::<u64, DtnError>(DtnError::CapacityNotUnicode),
        CapacityVar::Value(text) => match parsed_decimal(text@, u64::MAX as nat) {
            None => r == Err::<u64, DtnError>(DtnError::CapacityNotANumber),
            Some(n) => if n >= 67_108_864 {
                r == Ok::<u64, DtnError>(n as u64)
            } else {
                r == Err::<u64, DtnError>(DtnError::CapacityTooSmall)
            },
        },
    }
}

/// Whether the settings are those of a configuration: below the configured directory, or
/// `.kitsune2-dtn-journal`, that of the node name and port, and below that the one of the
/// service.
pub open spec fn places(
    settings: JournalSettings,
    cfg: DtnConfig,
    root_var: Option<Vec<u8>>,
) -> bool {
    &&& match root_var {
        Some(base) => settings.base@ == base@,
        None => settings.base@ == encode_utf8(".kitsune2-dtn-journal"@),
    }
    &&& settings.instance@ == cfg.node_name@ + seq!['-'] + decimal_text(cfg.web_port as nat)
    &&& settings.service@ == cfg.service@
}

/// Where a journal stands and what it may hold.
pub proof fn law_journals_are_placed(
    cfg: DtnConfig,
    root_var: Option<Vec<u8>>,
    var: CapacityVar,
    r: Result<JournalSettings, DtnError>,
)
    requires
        call_ensures(inbound_journal_settings, (&cfg, root_var, var), r),
    ensures
        match r {
            Ok(settings) => {
                &&& places(settings, cfg, root_var)
                &&& asks_for(var, Ok(settings.max_pending_bytes))
            },
            Err(e) => asks_for(var, Err(e)),
        },
{
    reveal_strlit("-");
    if r is Ok {
        assert(r->Ok_0.instance@ =~= cfg.node_name@ + seq!['-'] + decimal_text(
            cfg.web_port as nat,
        ));
    }
}

/// A transport can be created exactly where its configuration can be used and the
/// environment asks for a capacity. The settings are those of the configuration, and errors
/// of the configuration come first.
pub proof fn law_factories_begin(
    factory: DtnTransportFactory,
    root_var: Option<Vec<u8>>,
    var: CapacityVar,
    r: Result<JournalSettings, DtnError>,
    v: Result<(), DtnError>,
)
    requires
        call_ensures(DtnTransportFactory::begin, (&factory, root_var, var), r),
        call_ensures(DtnTransportFactory::validate_config, (&factory, root_var, var), v),
    ensures
        r is Ok ==> {
            &&& is_usable(factory.cfg)
            &&& places(r->Ok_0, factory.cfg, root_var)
            &&& asks_for(var, Ok(r->Ok_0.max_pending_bytes))
        },
        r is Err ==> if is_usable(factory.cfg) {
            asks_for(var, Err(r->Err_0))
        } else {
            unusable_first(factory.cfg, r->Err_0)
        },
        v is Ok <==> r is Ok,
        v is Err ==> v->Err_0 == r->Err_0,
{
    law_valid_names_are_plain(factory.cfg.node_name@);
    law_valid_names_are_plain(factory.cfg.service@);
    reveal_strlit("-");
    if r is Ok {
        assert(r->Ok_0.instance@ =~= factory.cfg.node_name@ + seq!['-'] + decimal_text(
            factory.cfg.web_port as nat,
        ));
    }
}

/// The bytes of a path that end it in a slash where it has anything and does not yet.
pub open spec fn with_slash(path: Seq<u8>) -> Seq<u8> {
    if path.len() == 0 || path.last() == 0x2f {
        path
    } else {
        path.push(0x2f)
    }
}

/// The root of a journal of valid names is the base, the directory of the node and that of
/// the service, with a slash between each two.
pub proof fn law_roots_are_joined(settings: JournalSettings, r: Vec<u8>)
    requires
        call_ensures(JournalSettings::root, (&settings,), r),
        settings.instance@.len() > 0 && settings.instance@[0] != '/',
        settings.service@.len() > 0 && settings.service@[0] != '/',
        is_ascii_name(settings.instance@),
        is_ascii_name(settings.service@),
        settings.instance@.last() != '/',
    ensures
        r@ == with_slash(settings.base@) + encode_utf8(settings.instance@) + seq![0x2fu8]
            + encode_utf8(settings.service@),
{
    let instance = encode_utf8(settings.instance@);
    let service = encode_utf8(settings.service@);
    vstd::utf8::is_ascii_chars_encode_utf8(settings.instance@);
    vstd::utf8::is_ascii_chars_encode_utf8(settings.service@);
    assert(instance[0] == settings.instance@[0] as u8);
    assert(service[0] == settings.service@[0] as u8);
    assert(instance.last() == settings.instance@.last() as u8);
    let node = with_slash(settings.base@) + instance;
    assert(node.last() == instance.last());
    assert(r@ =~= node + seq![0x2fu8] + service);
}

/// Whether a text is made of ASCII characters.
pub open spec fn is_ascii_name(name: Seq<char>) -> bool {
    vstd::utf8::is_ascii_chars(name)
}

/// The steps of a creation: journal, URL, client, registration, and then it is ready. The
/// first failure ends it, and nothing follows the end.
pub proof fn law_creation_steps(step: CreationStep, done: CreationStep, failed: CreationStep)
    requires
        call_ensures(CreationStep::next, (step, true), done),
        call_ensures(CreationStep::next, (step, false), failed),
    ensures
        step is OpenJournal ==> done is BuildUrl,
        step is BuildUrl ==> done is BuildClient,
        step is BuildClient ==> done is Register,
        step is Register ==> done is Ready,
        step is Ready ==> done is Ready && failed is Ready,
        step is Failed ==> done is Failed,
        !(step is Ready) ==> failed is Failed,
{
}

} // verus!
