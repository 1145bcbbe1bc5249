//! Addresses: the names of nodes, their Kitsune2 URLs, their DTN endpoints, and
//! the requests that the daemon is sent.

use vstd::prelude::*;
use vstd::string::*;

use crate::config::{validate_dtn_segment, DtnConfig};
use crate::error::{DtnError, SegmentKind};
use crate::outside::{kitsune_peer_id, kitsune_url, percent_encode};
use crate::text::{append_decimal, matches_at, to_chars};
#[allow(unused_imports)]
use crate::config::{unreserved, valid_segment};
#[allow(unused_imports)]
use crate::outside::url_objection;
#[allow(unused_imports)]
use crate::text::{begins_with, decimal_text, last_position, lemma_last_position_before};

verus! {

/// The URL of a node. Host and port are placeholders: the name in the last path
/// segment is the address.
pub open spec fn node_url_text(name: Seq<char>) -> Seq<char> {
    "ws://dtn.local:1/"@ + name
}

/// A path segment that a URL parser resolves away.
pub open spec fn dot_segment(name: Seq<char>) -> bool {
    name == "."@ || name == ".."@
}

/// What follows the first `://` of a text.
pub open spec fn after_scheme(s: Seq<char>) -> Option<Seq<char>>
    decreases s.len(),
{
    if s.len() == 0 {
        None
    } else if begins_with(s, "://"@) {
        Some(s.skip(3))
    } else {
        after_scheme(s.skip(1))
    }
}

/// What follows the last slash of a URL behind its scheme, unless it is empty.
pub open spec fn peer_segment(url: Seq<char>) -> Option<Seq<char>> {
    match after_scheme(url) {
        None => None,
        Some(rest) => {
            let slash = last_position(rest, '/');
            if slash < 0 || slash == rest.len() - 1 {
                None
            } else {
                Some(rest.skip(slash + 1))
            }
        },
    }
}

/// A URL that Kitsune2 accepts.
#[derive(Debug, PartialEq, Eq)]
pub struct PeerUrl {
    text: String,
}

impl View for PeerUrl {
    type V = Seq<char>;

    closed spec fn view(&self) -> Seq<char> {
        self.text@
    }
}

impl PeerUrl {
    #[verifier::type_invariant]
    spec fn accepted(self) -> bool {
        url_objection(self.text@) is None
    }

    /// Accepts a text as a URL where Kitsune2 does.
    pub fn parse(text: &str) -> (r: Result<PeerUrl, DtnError>)
        ensures
            match r {
                Ok(url) => url_objection(text@) is None && url@ == text@,
                Err(e) => e matches DtnError::UrlRejected { url, detail } && url@ == text@
                    && url_objection(text@) == Some(detail@),
            },
            forall|name: Seq<char>|
                text@ == #[trigger] node_url_text(name) && valid_segment(name) ==> (r is Ok
                    <==> !dot_segment(name)),
    {
        match kitsune_url(text) {
            Ok(text) => Ok(PeerUrl { text }),
            Err(detail) => Err(DtnError::UrlRejected { url: text.to_owned(), detail }),
        }
    }

    /// The URL as text.
    pub fn as_str(&self) -> (r: &str)
        ensures
            r@ == self@,
    {
        self.text.as_str()
    }
}

/// Builds the nominal Kitsune2 URL of a DTN node. A name that is a dot segment has
/// none.
pub fn node_url(node_name: &str) -> (r: Result<PeerUrl, DtnError>)
    ensures
        match r {
            Ok(url) => valid_segment(node_name@) && !dot_segment(node_name@) && url@ == node_url_text(
                node_name@,
            ),
            Err(DtnError::InvalidSegment(kind)) => !valid_segment(node_name@) && kind
                == SegmentKind::NodeName,
            Err(DtnError::UrlRejected { url, detail }) => {
                &&& valid_segment(node_name@) && dot_segment(node_name@)
                &&& url@ == node_url_text(node_name@)
                &&& url_objection(url@) == Some(detail@)
            },
            Err(_) => false,
        },
{
    validate_dtn_segment(SegmentKind::NodeName, node_name)?;
    let mut text: String = "ws://dtn.local:1/".to_owned();
    text.append(node_name);
    assert(text@ == node_url_text(node_name@));
    PeerUrl::parse(text.as_str())
}

/// The name of the node that a peer URL addresses.
pub fn peer_node_name(url: &PeerUrl) -> (r: Result<String, DtnError>)
    ensures
        match r {
            Ok(name) => peer_segment(url@) == Some(name@) && valid_segment(name@),
            Err(e) => match peer_segment(url@) {
                None => e == DtnError::NoPeerNode,
                Some(name) => !valid_segment(name) && e == DtnError::InvalidSegment(
                    SegmentKind::PeerNodeName,
                ),
            },
        },
{
    proof {
        use_type_invariant(url);
    }
    match kitsune_peer_id(url.text.as_str()) {
        None => Err(DtnError::NoPeerNode),
        Some(name) => {
            validate_dtn_segment(SegmentKind::PeerNodeName, name.as_str())?;
            Ok(name)
        },
    }
}

/// The endpoint id of a node.
pub open spec fn node_eid(name: Seq<char>) -> Seq<char> {
    "dtn://"@ + name + "/"@
}

/// The name of the node whose endpoint id this is, where it is one and the name is
/// valid.
pub open spec fn source_node(eid: Seq<char>) -> Option<Seq<char>> {
    let name = eid.subrange(6, eid.len() - 1);
    if eid.len() >= 7 && eid == node_eid(name) && valid_segment(name) {
        Some(name)
    } else {
        None
    }
}

/// The name of the node that a source endpoint stands for, where it stands for a
/// node and its name is valid.
pub fn source_node_name(source_eid: &str) -> (r: Option<&str>)
    ensures
        match r {
            Some(name) => source_node(source_eid@) == Some(name@),
            None => source_node(source_eid@) is None,
        },
{
    proof {
        reveal_strlit("dtn://");
        reveal_strlit("/");
    }
    let chars: Vec<char> = to_chars(source_eid);
    let len: usize = chars.len();
    if !matches_at(chars.as_slice(), 0, "dtn://") || len < 7 || !matches_at(
        chars.as_slice(),
        len - 1,
        "/",
    ) {
        proof {
            if source_node(source_eid@) is Some {
                let eid = node_eid(source_eid@.subrange(6, len - 1));
                assert(eid.subrange(0, 6) =~= "dtn://"@);
                assert(eid.subrange(len - 1, len as int) =~= "/"@);
            }
        }
        return None;
    }
    let name: &str = source_eid.substring_char(6, len - 1);
    assert(source_eid@ =~= node_eid(name@)) by {
        assert(source_eid@.subrange(0, 6) == "dtn://"@);
        assert(source_eid@.subrange(len - 1, len as int) == "/"@);
        assert(source_eid@ =~= source_eid@.subrange(0, 6) + source_eid@.subrange(6, len - 1)
            + source_eid@.subrange(len - 1, len as int));
    }
    match validate_dtn_segment(SegmentKind::SourceNodeName, name) {
        Ok(()) => Some(name),
        Err(_) => None,
    }
}

/// The two upper-case hexadecimal digits of a byte behind a percent sign.
pub open spec fn percent_byte(b: u8) -> Seq<char> {
    let digits = seq![
        '0',
        '1',
        '2',
        '3',
        '4',
        '5',
        '6',
        '7',
        '8',
        '9',
        'A',
        'B',
        'C',
        'D',
        'E',
        'F',
    ];
    seq!['%', digits[b as int / 16], digits[b as int % 16]]
}

/// Bytes with everything but unreserved characters percent-encoded.
pub open spec fn percent_encoded(data: Seq<u8>) -> Seq<char>
    decreases data.len(),
{
    if data.len() == 0 {
        Seq::empty()
    } else {
        let last = data.last();
        percent_encoded(data.drop_last()) + if last < 128 && unreserved(last as char) {
            seq![last as char]
        } else {
            percent_byte(last)
        }
    }
}

/// The endpoint id of a service on a node.
pub open spec fn service_eid(node: Seq<char>, service: Seq<char>) -> Seq<char> {
    "dtn://"@ + node + "/"@ + service
}

/// Where the daemon's API is served.
pub open spec fn daemon_text(web_port: u16) -> Seq<char> {
    "http://127.0.0.1:"@ + decimal_text(web_port as nat)
}

/// The request that sends a bundle to the service on a node.
pub open spec fn send_request(cfg: DtnConfig, node: Seq<char>) -> Seq<char> {
    daemon_text(cfg.web_port) + "/send?dst="@ + percent_encoded(
        vstd::utf8::encode_utf8(service_eid(node, cfg.service@)),
    ) + "&lifetime="@ + decimal_text(cfg.lifetime_secs as nat) + "s"@
}

/// The request that registers the local service.
pub open spec fn register_request(cfg: DtnConfig) -> Seq<char> {
    daemon_text(cfg.web_port) + "/register?"@ + percent_encoded(
        vstd::utf8::encode_utf8(cfg.service@),
    )
}

/// The request that takes the next bundle off the queue of the local service.
pub open spec fn endpoint_request(cfg: DtnConfig) -> Seq<char> {
    daemon_text(cfg.web_port) + "/endpoint?"@ + percent_encoded(
        vstd::utf8::encode_utf8(cfg.service@),
    )
}

fn daemon_url(web_port: u16) -> (r: String)
    ensures
        r@ == daemon_text(web_port),
{
    let mut text: String = "http://127.0.0.1:".to_owned();
    append_decimal(&mut text, web_port as u64);
    text
}

/// The request that sends a bundle to a peer, or why the peer cannot be sent to.
pub fn send_url(cfg: &DtnConfig, peer: &PeerUrl) -> (r: Result<String, DtnError>)
    ensures
        match r {
            Ok(text) => peer_segment(peer@) matches Some(node) && valid_segment(node) && text@
                == send_request(*cfg, node),
            Err(e) => match peer_segment(peer@) {
                None => e == DtnError::NoPeerNode,
                Some(name) => !valid_segment(name) && e == DtnError::InvalidSegment(
                    SegmentKind::PeerNodeName,
                ),
            },
        },
{
    let node: String = peer_node_name(peer)?;
    let mut dst: String = "dtn://".to_owned();
    dst.append(node.as_str());
    dst.append("/");
    dst.append(cfg.service.as_str());
    let mut text: String = daemon_url(cfg.web_port);
    text.append("/send?dst=");
    text.append(percent_encode(dst.as_str()).as_str());
    text.append("&lifetime=");
    append_decimal(&mut text, cfg.lifetime_secs);
    text.append("s");
    Ok(text)
}

/// The request that registers the local service.
pub fn register_url(cfg: &DtnConfig) -> (r: String)
    ensures
        r@ == register_request(*cfg),
{
    let mut text: String = daemon_url(cfg.web_port);
    text.append("/register?");
    text.append(percent_encode(cfg.service.as_str()).as_str());
    text
}

/// The request that takes the next bundle off the queue of the local service.
pub fn endpoint_url(cfg: &DtnConfig) -> (r: String)
    ensures
        r@ == endpoint_request(*cfg),
{
    let mut text: String = daemon_url(cfg.web_port);
    text.append("/endpoint?");
    text.append(percent_encode(cfg.service.as_str()).as_str());
    text
}

/// The URL of a node leads back to the node: wherever a name has a URL, the peer
/// that the URL addresses has that name.
pub proof fn law_node_url_round_trips(name: Seq<char>)
    requires
        valid_segment(name),
    ensures
        peer_segment(node_url_text(name)) == Some(name),
{
    reveal_strlit("ws://dtn.local:1/");
    reveal_strlit("://");
    let url = node_url_text(name);
    let scheme = url.skip(1).skip(1);
    let rest = scheme.skip(3);
    let host = rest.take(11);
    assert(!begins_with(url, "://"@)) by {
        assert(url.subrange(0, 3)[0] == 'w');
    }
    assert(!begins_with(url.skip(1), "://"@)) by {
        assert(url.skip(1).subrange(0, 3)[0] == 's');
    }
    assert(scheme.subrange(0, 3) =~= "://"@);
    assert(after_scheme(url) == Some(rest)) by {
        reveal_with_fuel(after_scheme, 4);
    }
    assert(rest =~= host + seq!['/'] + name);
    assert forall|i: int| 0 <= i < name.len() implies name[i] != '/' by {
        assert(unreserved(name[i]));
    }
    lemma_last_position_before(host, '/', name);
    assert(rest.skip(12) =~= name);
}

/// Source endpoints are read strictly: a valid name is found in its own endpoint id,
/// and in no other text.
pub proof fn law_source_names_are_strict(eid: Seq<char>, name: Seq<char>)
    requires
        valid_segment(name),
    ensures
        source_node(eid) == Some(name) <==> eid == node_eid(name),
{
    reveal_strlit("dtn://");
    reveal_strlit("/");
    if eid == node_eid(name) {
        assert(eid.subrange(6, eid.len() - 1) =~= name);
    }
}

/// A bundle from a node is taken for one from that node: the URL that its source
/// endpoint is mapped to addresses the node that sent it.
pub proof fn law_source_maps_to_its_node(name: Seq<char>)
    requires
        valid_segment(name),
    ensures
        source_node(node_eid(name)) == Some(name),
        peer_segment(node_url_text(source_node(node_eid(name))->0)) == Some(name),
{
    law_source_names_are_strict(node_eid(name), name);
    law_node_url_round_trips(name);
}

/// Valid names need no escaping: the daemon is asked for a service by the name that
/// it has.
pub proof fn law_valid_names_encode_to_themselves(name: Seq<char>)
    requires
        valid_segment(name),
    ensures
        percent_encoded(vstd::utf8::encode_utf8(name)) == name,
{
    assert(vstd::utf8::is_ascii_chars(name)) by {
        assert forall|i: int| 0 <= i < name.len() implies '\0' <= #[trigger] name[i] <= '\x7f' by {
            assert(unreserved(name[i]));
        }
    }
    vstd::utf8::is_ascii_chars_encode_utf8(name);
    let data = vstd::utf8::encode_utf8(name);
    lemma_unreserved_bytes(name, data);
}

/// A service is registered and polled under one name, the one that is configured.
pub proof fn law_service_is_polled_as_registered(cfg: DtnConfig)
    requires
        valid_segment(cfg.service@),
    ensures
        register_request(cfg) == daemon_text(cfg.web_port) + "/register?"@ + cfg.service@,
        endpoint_request(cfg) == daemon_text(cfg.web_port) + "/endpoint?"@ + cfg.service@,
{
    law_valid_names_encode_to_themselves(cfg.service@);
}

/// Bytes that are unreserved characters encode to those characters.
proof fn lemma_unreserved_bytes(chars: Seq<char>, data: Seq<u8>)
    requires
        chars.len() == data.len(),
        forall|i: int| 0 <= i < chars.len() ==> unreserved(#[trigger] chars[i]),
        forall|i: int| 0 <= i < chars.len() ==> data[i] == #[trigger] chars[i] as u8,
    ensures
        percent_encoded(data) == chars,
    decreases chars.len(),
{
    if chars.len() > 0 {
        lemma_unreserved_bytes(chars.drop_last(), data.drop_last());
        let c = chars.last();
        assert(unreserved(c));
        assert(data.last() == c as u8);
        assert(percent_encoded(data) =~= chars);
    } else {
        assert(percent_encoded(data) =~= chars);
    }
}

} // verus!
