//! The configuration of the transport and what it is checked for.

use vstd::prelude::*;
use vstd::string::*;
#[allow(unused_imports)]
use vstd::utf8::{encode_utf8, encode_utf8_decode_utf8};

use crate::error::{DtnError, SegmentKind};
use crate::path::join;
use crate::text::{append_decimal, read_decimal, to_chars};
#[allow(unused_imports)]
use crate::path::{
    components, is_dot, is_rooted, join_path, law_joined_name_is_one_component,
    law_same_paths_have_one_normal_form, normal_path,
};
#[allow(unused_imports)]
use crate::text::{
    decimal_text, lemma_decimal_text, lemma_last_position_before, lemma_parsed_decimal_text,
    parsed_decimal,
};

verus! {

/// The most bytes that a received bundle may have.
pub const MAX_BUNDLE_BYTES: usize = 67_108_864;

/// The most bytes that a node or service name may have.
pub const MAX_DTN_SEGMENT_BYTES: usize = 255;

/// The bytes that a journal may hold pending where nothing else is configured.
pub const DEFAULT_JOURNAL_MAX_BYTES: u64 = 536_870_912;

/// How long a connection to the daemon may take to open, in seconds.
pub const HTTP_CONNECT_TIMEOUT_SECS: u64 = 5;

/// How long a request to the daemon may take, in seconds.
pub const HTTP_REQUEST_TIMEOUT_SECS: u64 = 30;

/// A time between two polls, as whole seconds and the nanoseconds beyond them.
#[derive(Clone, Copy, Debug, PartialEq, Eq)]
pub struct PollInterval {
    pub secs: u64,
    pub nanos: u32,
}

impl PollInterval {
    /// The interval in nanoseconds.
    pub open spec fn total_nanos(self) -> nat {
        self.secs as nat * 1_000_000_000 + self.nanos as nat
    }

    /// The interval of the given number of milliseconds.
    pub fn from_millis(millis: u64) -> (r: Self)
        ensures
            r.total_nanos() == millis * 1_000_000,
            r.nanos < 1_000_000_000,
    {
        PollInterval { secs: millis / 1_000, nanos: ((millis % 1_000) as u32) * 1_000_000 }
    }

    /// Whether the interval is no time at all.
    pub fn is_zero(&self) -> (r: bool)
        ensures
            r == (self.total_nanos() == 0),
    {
        self.secs == 0 && self.nanos == 0
    }
}

/// Configuration for the DTN-backed transport.
#[derive(Clone, Debug)]
pub struct DtnConfig {
    /// The local dtn7-rs daemon's HTTP web port (e.g. 3000).
    pub web_port: u16,
    /// This node's DTN node name (must match `dtnd -n <name>`).
    pub node_name: String,
    /// The local endpoint service name to register and poll (e.g. "kitsune2").
    pub service: String,
    /// Bundle lifetime, in seconds.
    pub lifetime_secs: u64,
    /// How long to wait after the application-agent queue was found empty or a
    /// poll failed.
    pub poll_interval: PollInterval,
}

/// The characters that a URI never needs to escape.
pub open spec fn unreserved(c: char) -> bool {
    ||| 'a' <= c <= 'z'
    ||| 'A' <= c <= 'Z'
    ||| '0' <= c <= '9'
    ||| c == '-'
    ||| c == '.'
    ||| c == '_'
    ||| c == '~'
}

/// A name that can stand as one segment of a DTN address: 1 to 255 unreserved
/// characters, which are one byte each.
pub open spec fn valid_segment(s: Seq<char>) -> bool {
    &&& 1 <= s.len() <= MAX_DTN_SEGMENT_BYTES
    &&& forall|i: int| 0 <= i < s.len() ==> unreserved(#[trigger] s[i])
}

fn is_unreserved(c: char) -> (r: bool)
    ensures
        r == unreserved(c),
{
    ('a' <= c && c <= 'z') || ('A' <= c && c <= 'Z') || ('0' <= c && c <= '9') || c == '-' || c
        == '.' || c == '_' || c == '~'
}

/// Refuses a name that cannot stand as one segment of a DTN address.
pub fn validate_dtn_segment(kind: SegmentKind, value: &str) -> (r: Result<(), DtnError>)
    ensures
        r == if valid_segment(value@) {
            Ok::<(), DtnError>(())
        } else {
            Err(DtnError::InvalidSegment(kind))
        },
{
    let chars: Vec<char> = to_chars(value);
    if chars.len() == 0 || chars.len() > MAX_DTN_SEGMENT_BYTES {
        return Err(DtnError::InvalidSegment(kind));
    }
    let mut i: usize = 0;
    while i < chars.len()
        invariant
            chars@ == value@,
            i <= chars.len(),
            forall|j: int| 0 <= j < i ==> unreserved(#[trigger] value@[j]),
        decreases chars.len() - i,
    {
        if !is_unreserved(chars[i]) {
            assert(!unreserved(value@[i as int]));
            return Err(DtnError::InvalidSegment(kind));
        }
        i += 1;
    }
    Ok(())
}

impl DtnConfig {
    /// The first thing wrong with this configuration.
    pub open spec fn verdict(self) -> Result<(), DtnError> {
        if self.web_port == 0 {
            Err(DtnError::ZeroWebPort)
        } else if !valid_segment(self.node_name@) {
            Err(DtnError::InvalidSegment(SegmentKind::NodeName))
        } else if !valid_segment(self.service@) {
            Err(DtnError::InvalidSegment(SegmentKind::Service))
        } else if self.lifetime_secs == 0 {
            Err(DtnError::ZeroLifetime)
        } else if self.poll_interval.total_nanos() == 0 {
            Err(DtnError::ZeroPollInterval)
        } else {
            Ok(())
        }
    }
}

/// Refuses a configuration that is unsafe or could do nothing.
pub fn validate_dtn_config(cfg: &DtnConfig) -> (r: Result<(), DtnError>)
    ensures
        r == cfg.verdict(),
{
    if cfg.web_port == 0 {
        return Err(DtnError::ZeroWebPort);
    }
    validate_dtn_segment(SegmentKind::NodeName, cfg.node_name.as_str())?;
    validate_dtn_segment(SegmentKind::Service, cfg.service.as_str())?;
    if cfg.lifetime_secs == 0 {
        return Err(DtnError::ZeroLifetime);
    }
    if cfg.poll_interval.is_zero() {
        return Err(DtnError::ZeroPollInterval);
    }
    Ok(())
}

/// What the environment says of the journal's capacity.
#[derive(Clone, Debug, PartialEq, Eq)]
pub enum CapacityVar {
    /// The variable is not set.
    NotPresent,
    /// The variable is set to something that is not Unicode.
    NotUnicode,
    /// The variable is set to this text.
    Value(String),
}

impl CapacityVar {
    /// The capacity in bytes that this setting asks for, or what is wrong with it.
    pub open spec fn capacity(self) -> Result<u64, DtnError> {
        let bytes: Result<u64, DtnError> = match self {
            CapacityVar::NotPresent => Ok(DEFAULT_JOURNAL_MAX_BYTES),
            CapacityVar::NotUnicode => Err(DtnError::CapacityNotUnicode),
            CapacityVar::Value(text) => match parsed_decimal(text@, u64::MAX as nat) {
                Some(n) => Ok(n as u64),
                None => Err(DtnError::CapacityNotANumber),
            },
        };
        match bytes {
            Ok(n) => if n < MAX_BUNDLE_BYTES { Err(DtnError::CapacityTooSmall) } else { Ok(n) },
            Err(e) => Err(e),
        }
    }
}

/// Where a node keeps its journal, and how much the journal may hold.
#[derive(Debug, PartialEq, Eq)]
pub struct JournalSettings {
    /// The directory that holds the journals, as the bytes of its path.
    pub base: Vec<u8>,
    /// The directory of this node below it.
    pub instance: String,
    /// The directory of the service below that: the root of the journal.
    pub service: String,
    /// The bytes that the journal may hold pending.
    pub max_pending_bytes: u64,
}

/// The directory of a node below the one that holds the journals.
pub open spec fn instance_name(node_name: Seq<char>, web_port: u16) -> Seq<char> {
    node_name + "-"@ + decimal_text(web_port as nat)
}

/// The root of the journal of a service on a node.
pub open spec fn journal_root(
    base: Seq<u8>,
    node_name: Seq<char>,
    web_port: u16,
    service: Seq<char>,
) -> Seq<u8> {
    join_path(
        join_path(base, encode_utf8(instance_name(node_name, web_port))),
        encode_utf8(service),
    )
}

impl JournalSettings {
    /// The root of the journal, as the bytes of its path.
    pub fn root(&self) -> (r: Vec<u8>)
        ensures
            r@ == join_path(
                join_path(self.base@, encode_utf8(self.instance@)),
                encode_utf8(self.service@),
            ),
    {
        let node: Vec<u8> = join(self.base.as_slice(), self.instance.as_str().as_bytes());
        join(node.as_slice(), self.service.as_str().as_bytes())
    }
}

/// The directory that holds the journals where nothing else is configured.
pub open spec fn default_journal_base() -> Seq<u8> {
    ".kitsune2-dtn-journal".spec_bytes()
}

/// Works out where the journal stands and how much it may hold, from the
/// configuration and from what the environment says of each.
pub fn inbound_journal_settings(
    cfg: &DtnConfig,
    root_var: Option<Vec<u8>>,
    capacity_var: CapacityVar,
) -> (r: Result<JournalSettings, DtnError>)
    ensures
        match r {
            Ok(settings) => {
                &&& settings.base@ == match root_var {
                    Some(base) => base@,
                    None => default_journal_base(),
                }
                &&& settings.instance@ == instance_name(cfg.node_name@, cfg.web_port)
                &&& settings.service@ == cfg.service@
                &&& capacity_var.capacity() == Ok::<u64, DtnError>(settings.max_pending_bytes)
            },
            Err(e) => capacity_var.capacity() == Err::<u64, DtnError>(e),
        },
{
    let base: Vec<u8> = match root_var {
        Some(base) => base,
        None => ".kitsune2-dtn-journal".as_bytes_vec(),
    };
    let mut instance: String = cfg.node_name.clone();
    instance.append("-");
    append_decimal(&mut instance, cfg.web_port as u64);
    let max_pending_bytes: u64 = match capacity_var {
        CapacityVar::NotPresent => DEFAULT_JOURNAL_MAX_BYTES,
        CapacityVar::NotUnicode => {
            return Err(DtnError::CapacityNotUnicode);
        },
        CapacityVar::Value(text) => {
            let chars: Vec<char> = to_chars(text.as_str());
            match read_decimal(chars.as_slice(), u64::MAX) {
                Some(n) => n,
                None => {
                    return Err(DtnError::CapacityNotANumber);
                },
            }
        },
    };
    if max_pending_bytes < MAX_BUNDLE_BYTES as u64 {
        return Err(DtnError::CapacityTooSmall);
    }
    Ok(JournalSettings { base, instance, service: cfg.service.clone(), max_pending_bytes })
}

/// Nodes do not share a journal: those that differ in name or port have different
/// directories.
pub proof fn law_nodes_have_their_own_journals(
    a_name: Seq<char>,
    a_port: u16,
    b_name: Seq<char>,
    b_port: u16,
)
    requires
        instance_name(a_name, a_port) == instance_name(b_name, b_port),
    ensures
        a_name == b_name,
        a_port == b_port,
{
    reveal_strlit("-");
    let (a, b) = (decimal_text(a_port as nat), decimal_text(b_port as nat));
    lemma_decimal_text(a_port as nat);
    lemma_decimal_text(b_port as nat);
    lemma_last_position_before(a_name, '-', a);
    lemma_last_position_before(b_name, '-', b);
    assert(instance_name(a_name, a_port) =~= a_name + seq!['-'] + a);
    assert(instance_name(b_name, b_port) =~= b_name + seq!['-'] + b);
    let text = instance_name(a_name, a_port);
    assert(text.take(a_name.len() as int) =~= a_name);
    assert(text.take(b_name.len() as int) =~= b_name);
    assert(text.skip(a_name.len() as int + 1) =~= a);
    assert(text.skip(b_name.len() as int + 1) =~= b);
    lemma_parsed_decimal_text(a_port as nat, u16::MAX as nat);
    lemma_parsed_decimal_text(b_port as nat, u16::MAX as nat);
}

/// A service whose name a path does not resolve away.
pub open spec fn is_plain_service(service: Seq<char>) -> bool {
    valid_segment(service) && service != "."@ && service != ".."@
}

/// Names made of unreserved characters are path components that stand for themselves.
proof fn lemma_name_is_component(name: Seq<char>)
    requires
        name.len() > 0,
        forall|i: int| 0 <= i < name.len() ==> unreserved(#[trigger] name[i]),
        name != "."@,
    ensures
        encode_utf8(name).len() > 0,
        forall|k: int| 0 <= k < encode_utf8(name).len() ==> encode_utf8(name)[k] != 0x2f,
        !is_dot(encode_utf8(name)),
{
    assert(vstd::utf8::is_ascii_chars(name)) by {
        assert forall|i: int| 0 <= i < name.len() implies '\0' <= #[trigger] name[i] <= '\x7f' by {
            assert(unreserved(name[i]));
        }
    }
    vstd::utf8::is_ascii_chars_encode_utf8(name);
    let bytes = encode_utf8(name);
    assert forall|k: int| 0 <= k < bytes.len() implies bytes[k] != 0x2f by {
        assert(unreserved(name[k]));
        assert(bytes[k] == name[k] as u8);
    }
    if is_dot(bytes) {
        reveal_strlit(".");
        assert(bytes[0] == name[0] as u8);
        assert(unreserved(name[0]));
        assert(name =~= "."@);
    }
}

/// The directory of a node is one component.
proof fn lemma_instance_is_component(node_name: Seq<char>, web_port: u16)
    requires
        valid_segment(node_name),
    ensures
        ({
            let name = instance_name(node_name, web_port);
            &&& name.len() > 0
            &&& forall|i: int| 0 <= i < name.len() ==> unreserved(#[trigger] name[i])
            &&& name != "."@
        }),
{
    reveal_strlit("-");
    reveal_strlit(".");
    lemma_decimal_text(web_port as nat);
    let name = instance_name(node_name, web_port);
    let digits = decimal_text(web_port as nat);
    assert forall|i: int| 0 <= i < name.len() implies unreserved(#[trigger] name[i]) by {
        if i < node_name.len() {
            assert(unreserved(node_name[i]));
        } else if i > node_name.len() {
            let k = i - node_name.len() - 1;
            assert(name[i] == digits[k]);
            assert('0' <= digits[k] <= '9');
        }
    }
    assert(name.len() >= 3);
}

/// The root of a journal stands two components below the directory that holds the journals:
/// that of the node and that of the service.
pub proof fn law_root_is_two_below_the_base(
    base: Seq<u8>,
    node_name: Seq<char>,
    web_port: u16,
    service: Seq<char>,
)
    requires
        valid_segment(node_name),
        is_plain_service(service),
    ensures
        components(journal_root(base, node_name, web_port, service)) == components(base).push(
            encode_utf8(instance_name(node_name, web_port)),
        ).push(encode_utf8(service)),
        is_rooted(journal_root(base, node_name, web_port, service)) == is_rooted(base),
{
    let instance = instance_name(node_name, web_port);
    lemma_instance_is_component(node_name, web_port);
    lemma_name_is_component(instance);
    lemma_name_is_component(service);
    law_joined_name_is_one_component(base, encode_utf8(instance));
    law_joined_name_is_one_component(join_path(base, encode_utf8(instance)), encode_utf8(service));
}

/// Services do not share a journal: below one directory, journals have equal roots exactly
/// where name, port and service are equal, and their roots are the same path only there.
pub proof fn law_services_have_their_own_journals(
    base: Seq<u8>,
    a_name: Seq<char>,
    a_port: u16,
    a_service: Seq<char>,
    b_name: Seq<char>,
    b_port: u16,
    b_service: Seq<char>,
)
    requires
        valid_segment(a_name),
        is_plain_service(a_service),
        valid_segment(b_name),
        is_plain_service(b_service),
    ensures
        journal_root(base, a_name, a_port, a_service) == journal_root(
            base,
            b_name,
            b_port,
            b_service,
        ) <==> (a_name == b_name && a_port == b_port && a_service == b_service),
        normal_path(journal_root(base, a_name, a_port, a_service)) == normal_path(
            journal_root(base, b_name, b_port, b_service),
        ) <==> (a_name == b_name && a_port == b_port && a_service == b_service),
{
    let a = journal_root(base, a_name, a_port, a_service);
    let b = journal_root(base, b_name, b_port, b_service);
    law_root_is_two_below_the_base(base, a_name, a_port, a_service);
    law_root_is_two_below_the_base(base, b_name, b_port, b_service);
    law_same_paths_have_one_normal_form(a, b);
    if components(a) == components(b) {
        let n = components(base).len() as int;
        let (x, y) = (instance_name(a_name, a_port), instance_name(b_name, b_port));
        assert(components(a)[n] == encode_utf8(x) && components(b)[n] == encode_utf8(y));
        assert(components(a)[n + 1] == encode_utf8(a_service));
        assert(components(b)[n + 1] == encode_utf8(b_service));
        encode_utf8_decode_utf8(x);
        encode_utf8_decode_utf8(y);
        encode_utf8_decode_utf8(a_service);
        encode_utf8_decode_utf8(b_service);
        law_nodes_have_their_own_journals(a_name, a_port, b_name, b_port);
    }
}

} // verus!
