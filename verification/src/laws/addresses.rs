//! What nodes are called, and what the daemon is asked.

use vstd::prelude::*;

#[allow(unused_imports)]
use crate::address::{
    after_scheme, endpoint_url, law_valid_names_encode_to_themselves, node_url, peer_node_name,
    peer_segment, percent_byte, percent_encoded, register_url, send_url, source_node_name, PeerUrl,
};
#[allow(unused_imports)]
use crate::config::{unreserved, DtnConfig};
#[allow(unused_imports)]
use crate::error::{DtnError, SegmentKind};
#[allow(unused_imports)]
use crate::text::{
    begins_with, decimal_text, last_position, lemma_decimal_text, lemma_last_position_before,
};
#[allow(unused_imports)]
use super::configuration::{has_plain_code, is_plain_name, law_valid_names_are_plain};
#[allow(unused_imports)]
use super::numerals::law_last_position_is_last;
#[allow(unused_imports)]
use vstd::utf8::encode_utf8;

verus! {

/// A node has a URL exactly where its name is plain and no dot segment: the name behind a
/// fixed host. The error says which of the two the name lacks.
pub proof fn law_nodes_have_urls(name: &str, r: Result<PeerUrl, DtnError>)
    requires
        call_ensures(node_url, (name,), r),
    ensures
        r is Ok <==> is_plain_name(name@) && name@ != seq!['.'] && name@ != seq!['.', '.'],
        r is Ok ==> r->Ok_0@ == "ws://dtn.local:1/"@ + name@,
        r is Err && !is_plain_name(name@) ==> r->Err_0 == DtnError::InvalidSegment(
            SegmentKind::NodeName,
        ),
        r is Err && is_plain_name(name@) ==> {
            &&& r->Err_0 is UrlRejected
            &&& r->Err_0->UrlRejected_url@ == "ws://dtn.local:1/"@ + name@
        },
{
    law_valid_names_are_plain(name@);
    reveal_strlit(".");
    reveal_strlit("..");
    assert("."@ =~= seq!['.']);
    assert(".."@ =~= seq!['.', '.']);
}

/// The text of a URL: a scheme, a host and a path whose last segment is given.
pub open spec fn url_of(scheme: Seq<char>, host: Seq<char>, segment: Seq<char>) -> Seq<char> {
    scheme + "://"@ + host + seq!['/'] + segment
}

/// What stands behind the scheme of a URL.
proof fn lemma_behind_scheme(scheme: Seq<char>, rest: Seq<char>)
    requires
        !scheme.contains(':'),
    ensures
        after_scheme(scheme + "://"@ + rest) == Some(rest),
    decreases scheme.len(),
{
    reveal_strlit("://");
    let url = scheme + "://"@ + rest;
    if scheme.len() == 0 {
        assert(url.subrange(0, 3) =~= "://"@);
        assert(url.skip(3) =~= rest);
    } else {
        assert(scheme.contains(scheme[0]));
        assert(!begins_with(url, "://"@)) by {
            assert(url[0] == scheme[0]);
            if begins_with(url, "://"@) {
                assert(url.subrange(0, 3)[0] == ':');
            }
        }
        let shorter = scheme.skip(1);
        assert(!shorter.contains(':')) by {
            if shorter.contains(':') {
                let i = choose|i: int| 0 <= i < shorter.len() && shorter[i] == ':';
                assert(scheme[i + 1] == ':');
            }
        }
        lemma_behind_scheme(shorter, rest);
        assert(url.skip(1) =~= shorter + "://"@ + rest);
    }
}

/// The last segment of a URL.
proof fn lemma_last_segment(scheme: Seq<char>, host: Seq<char>, segment: Seq<char>)
    requires
        !scheme.contains(':'),
        !segment.contains('/'),
    ensures
        peer_segment(url_of(scheme, host, segment)) == if segment.len() == 0 {
            None
        } else {
            Some(segment)
        },
        peer_segment(scheme + "://"@ + segment) is None,
{
    let rest = host + seq!['/'] + segment;
    assert(url_of(scheme, host, segment) =~= scheme + "://"@ + rest);
    lemma_behind_scheme(scheme, rest);
    assert forall|i: int| 0 <= i < segment.len() implies segment[i] != '/' by {
        assert(segment.contains(segment[i]));
    }
    lemma_last_position_before(host, '/', segment);
    assert(rest.skip(host.len() as int + 1) =~= segment);
    lemma_behind_scheme(scheme, segment);
    law_last_position_is_last(segment, '/');
    if last_position(segment, '/') >= 0 {
        assert(segment.contains(segment[last_position(segment, '/')]));
    }
}

/// A peer URL addresses the node that its last segment names. There is none where that is
/// empty or the path is missing, and a name that is not plain is refused.
pub proof fn law_peers_are_named_last(
    url: PeerUrl,
    scheme: Seq<char>,
    host: Seq<char>,
    segment: Seq<char>,
    r: Result<String, DtnError>,
)
    requires
        call_ensures(peer_node_name, (&url,), r),
        !scheme.contains(':'),
        !segment.contains('/'),
    ensures
        url@ == url_of(scheme, host, segment) ==> {
            &&& r is Ok <==> is_plain_name(segment)
            &&& r is Ok ==> r->Ok_0@ == segment
            &&& r is Err && segment.len() == 0 ==> r->Err_0 is NoPeerNode
            &&& r is Err && segment.len() > 0 ==> r->Err_0 == DtnError::InvalidSegment(
                SegmentKind::PeerNodeName,
            )
        },
        url@ == scheme + "://"@ + segment ==> r is Err && r->Err_0 is NoPeerNode,
{
    lemma_last_segment(scheme, host, segment);
    law_valid_names_are_plain(segment);
}

/// The URL of a node addresses the node.
pub proof fn law_node_urls_lead_back(
    name: &str,
    url: PeerUrl,
    r: Result<PeerUrl, DtnError>,
    p: Result<String, DtnError>,
)
    requires
        call_ensures(node_url, (name,), r),
        r is Ok && r->Ok_0 == url,
        call_ensures(peer_node_name, (&url,), p),
    ensures
        p is Ok && p->Ok_0@ == name@,
{
    law_nodes_have_urls(name, r);
    lemma_node_url_parts(name@);
    law_peers_are_named_last(url, seq!['w', 's'], host_text(), name@, p);
}

/// The host of every node URL.
pub open spec fn host_text() -> Seq<char> {
    "dtn.local:1"@
}

/// The parts of a node URL.
pub proof fn lemma_node_url_parts(name: Seq<char>)
    requires
        is_plain_name(name),
    ensures
        "ws://dtn.local:1/"@ + name == url_of(seq!['w', 's'], host_text(), name),
        !seq!['w', 's'].contains(':'),
        !name.contains('/'),
{
    reveal_strlit("ws://dtn.local:1/");
    reveal_strlit("dtn.local:1");
    reveal_strlit("://");
    assert("ws://dtn.local:1/"@ + name =~= url_of(seq!['w', 's'], host_text(), name));
    if name.contains('/') {
        let i = choose|i: int| 0 <= i < name.len() && name[i] == '/';
        assert(has_plain_code(name[i]));
    }
    if seq!['w', 's'].contains(':') {
        let i = choose|i: int| 0 <= i < 2 && seq!['w', 's'][i] == ':';
        assert(i == 0 || i == 1);
    }
}

/// A source endpoint stands for a node exactly where it is `dtn://`, a plain name and a
/// slash, and then for the node of that name.
pub proof fn law_sources_name_their_node(eid: &str, name: Seq<char>, r: Option<&str>)
    requires
        call_ensures(source_node_name, (eid,), r),
    ensures
        r is Some ==> eid@ == "dtn://"@ + r->0@ + seq!['/'] && is_plain_name(r->0@),
        eid@ == "dtn://"@ + name + seq!['/'] && is_plain_name(name) ==> r is Some && r->0@ == name,
{
    reveal_strlit("dtn://");
    reveal_strlit("/");
    assert("/"@ =~= seq!['/']);
    law_valid_names_are_plain(name);
    if eid@ == "dtn://"@ + name + seq!['/'] {
        assert(eid@.subrange(6, eid@.len() - 1) =~= name);
    }
    if r is Some {
        law_valid_names_are_plain(r->0@);
    }
}

/// A URL is kept as the text that it was given as.
pub proof fn law_urls_keep_their_text(
    text: &str,
    url: PeerUrl,
    r: Result<PeerUrl, DtnError>,
    shown: &str,
)
    requires
        call_ensures(PeerUrl::parse, (text,), r),
        r is Ok && r->Ok_0 == url,
        call_ensures(PeerUrl::as_str, (&url,), shown),
    ensures
        shown@ == text@,
{
}

/// Percent-encoding goes byte by byte: a plain character stands for itself, and any other
/// byte is a percent sign and its two hexadecimal digits in upper case.
pub proof fn law_bytes_are_percent_encoded(data: Seq<u8>, byte: u8)
    ensures
        percent_encoded(Seq::<u8>::empty()).len() == 0,
        byte < 128 && has_plain_code(byte as char) ==> percent_encoded(data.push(byte))
            == percent_encoded(data).push(byte as char),
        !(byte < 128 && has_plain_code(byte as char)) ==> {
            let text = percent_encoded(data.push(byte));
            let n = percent_encoded(data).len() as int;
            &&& text.len() == n + 3
            &&& text.take(n) == percent_encoded(data)
            &&& text[n] == '%'
            &&& text[n + 1] as int == upper_digit(byte as int / 16)
            &&& text[n + 2] as int == upper_digit(byte as int % 16)
        },
{
    assert(data.push(byte).drop_last() =~= data);
    assert(byte < 128 ==> (has_plain_code(byte as char) <==> unreserved(byte as char)));
    let text = percent_encoded(data.push(byte));
    if byte < 128 && has_plain_code(byte as char) {
        assert(text =~= percent_encoded(data).push(byte as char));
    } else {
        assert(text.take(percent_encoded(data).len() as int) =~= percent_encoded(data));
    }
}

/// The code of an upper-case hexadecimal digit.
pub open spec fn upper_digit(value: int) -> int {
    if value < 10 {
        48 + value
    } else {
        55 + value
    }
}

/// Percent-encoding of bytes and more bytes is that of each.
proof fn lemma_percent_parts(a: Seq<u8>, b: Seq<u8>)
    ensures
        percent_encoded(a + b) == percent_encoded(a) + percent_encoded(b),
    decreases b.len(),
{
    if b.len() == 0 {
        assert(a + b =~= a);
        assert(percent_encoded(a) + percent_encoded(b) =~= percent_encoded(a));
    } else {
        lemma_percent_parts(a, b.drop_last());
        assert((a + b).drop_last() =~= a + b.drop_last());
        assert(percent_encoded(a + b) =~= percent_encoded(a) + percent_encoded(b));
    }
}

/// The UTF-8 bytes of ASCII text and more of it are those of each.
proof fn lemma_ascii_parts(a: Seq<char>, b: Seq<char>)
    requires
        vstd::utf8::is_ascii_chars(a),
        vstd::utf8::is_ascii_chars(b),
    ensures
        vstd::utf8::is_ascii_chars(a + b),
        encode_utf8(a + b) == encode_utf8(a) + encode_utf8(b),
{
    assert(vstd::utf8::is_ascii_chars(a + b)) by {
        assert forall|i: int| 0 <= i < (a + b).len() implies '\0' <= #[trigger] (a + b)[i]
            <= '\x7f' by {
            if i < a.len() {
                assert(a[i] == (a + b)[i]);
            } else {
                assert(b[i - a.len()] == (a + b)[i]);
            }
        }
    }
    vstd::utf8::is_ascii_chars_encode_utf8(a);
    vstd::utf8::is_ascii_chars_encode_utf8(b);
    vstd::utf8::is_ascii_chars_encode_utf8(a + b);
    assert(encode_utf8(a + b) =~= encode_utf8(a) + encode_utf8(b));
}

/// Plain names are ASCII, and their encoding is themselves.
proof fn lemma_plain_is_itself(name: Seq<char>)
    requires
        is_plain_name(name),
    ensures
        vstd::utf8::is_ascii_chars(name),
        percent_encoded(encode_utf8(name)) == name,
{
    law_valid_names_are_plain(name);
    law_valid_names_encode_to_themselves(name);
    assert forall|i: int| 0 <= i < name.len() implies '\0' <= #[trigger] name[i] <= '\x7f' by {
        assert(has_plain_code(name[i]));
    }
}

/// The encoding of one slash or colon.
proof fn lemma_percent_single(c: char, byte: u8)
    requires
        c as int == byte as int,
        byte < 128,
        !has_plain_code(c),
    ensures
        vstd::utf8::is_ascii_chars(seq![c]),
        percent_encoded(encode_utf8(seq![c])) == percent_byte(byte),
{
    vstd::utf8::is_ascii_chars_encode_utf8(seq![c]);
    assert(encode_utf8(seq![c]) =~= seq![byte]);
    assert(seq![byte].drop_last() =~= Seq::<u8>::empty());
    reveal_with_fuel(percent_encoded, 2);
    assert(byte as char == c);
    assert(percent_encoded(seq![byte]) =~= percent_byte(byte));
}

/// The encoding of `dtn://`.
proof fn lemma_percent_scheme()
    ensures
        vstd::utf8::is_ascii_chars("dtn://"@),
        percent_encoded(encode_utf8("dtn://"@)) == "dtn%3A%2F%2F"@,
{
    reveal_strlit("dtn://");
    reveal_strlit("dtn%3A%2F%2F");
    let dtn = seq!['d', 't', 'n'];
    lemma_plain_is_itself(dtn);
    lemma_percent_single(':', 0x3a);
    lemma_percent_single('/', 0x2f);
    let (colon, slash) = (seq![':'], seq!['/']);
    lemma_ascii_parts(dtn, colon);
    lemma_ascii_parts(dtn + colon, slash);
    lemma_ascii_parts(dtn + colon + slash, slash);
    lemma_percent_parts(encode_utf8(dtn), encode_utf8(colon));
    lemma_percent_parts(encode_utf8(dtn + colon), encode_utf8(slash));
    lemma_percent_parts(encode_utf8(dtn + colon + slash), encode_utf8(slash));
    assert("dtn://"@ =~= dtn + colon + slash + slash);
    assert(percent_encoded(encode_utf8("dtn://"@)) =~= "dtn%3A%2F%2F"@);
}

/// The encoding of the endpoint of a service on a node.
proof fn lemma_percent_endpoint(node: Seq<char>, service: Seq<char>)
    requires
        is_plain_name(node),
        is_plain_name(service),
    ensures
        percent_encoded(encode_utf8("dtn://"@ + node + "/"@ + service)) == "dtn%3A%2F%2F"@ + node
            + "%2F"@ + service,
{
    reveal_strlit("/");
    reveal_strlit("%2F");
    let slash = seq!['/'];
    assert("/"@ =~= slash);
    lemma_percent_scheme();
    lemma_plain_is_itself(node);
    lemma_plain_is_itself(service);
    lemma_percent_single('/', 0x2f);
    let scheme = "dtn://"@;
    lemma_ascii_parts(scheme, node);
    lemma_ascii_parts(scheme + node, slash);
    lemma_ascii_parts(scheme + node + slash, service);
    lemma_percent_parts(encode_utf8(scheme), encode_utf8(node));
    lemma_percent_parts(encode_utf8(scheme + node), encode_utf8(slash));
    lemma_percent_parts(encode_utf8(scheme + node + slash), encode_utf8(service));
    assert(percent_byte(0x2f) =~= "%2F"@);
}

/// The request that sends to a service on a node.
pub open spec fn send_text(
    port: u16,
    node: Seq<char>,
    service: Seq<char>,
    lifetime: u64,
) -> Seq<char> {
    "http://127.0.0.1:"@ + decimal_text(port as nat) + "/send?dst="@ + percent_encoded(
        encode_utf8("dtn://"@ + node + "/"@ + service),
    ) + "&lifetime="@ + decimal_text(lifetime as nat) + "s"@
}

/// A message to a peer goes to the configured service on the node that the URL of the peer
/// names, with the configured lifetime, through the daemon on the configured port. Where the
/// URL names no node it goes nowhere.
pub proof fn law_messages_go_to_the_service_on_the_peer(
    cfg: DtnConfig,
    peer: PeerUrl,
    scheme: Seq<char>,
    host: Seq<char>,
    node: Seq<char>,
    r: Result<String, DtnError>,
)
    requires
        call_ensures(send_url, (&cfg, &peer), r),
        !scheme.contains(':'),
        !node.contains('/'),
        peer@ == url_of(scheme, host, node),
    ensures
        r is Ok <==> is_plain_name(node),
        r is Ok ==> r->Ok_0@ == send_text(cfg.web_port, node, cfg.service@, cfg.lifetime_secs),
        r is Ok && is_plain_name(cfg.service@) ==> r->Ok_0@ == "http://127.0.0.1:"@ + decimal_text(
            cfg.web_port as nat,
        ) + "/send?dst="@ + ("dtn%3A%2F%2F"@ + node + "%2F"@ + cfg.service@) + "&lifetime="@
            + decimal_text(cfg.lifetime_secs as nat) + "s"@,
        r is Err && node.len() == 0 ==> r->Err_0 is NoPeerNode,
        r is Err && node.len() > 0 ==> r->Err_0 == DtnError::InvalidSegment(
            SegmentKind::PeerNodeName,
        ),
{
    lemma_last_segment(scheme, host, node);
    law_valid_names_are_plain(node);
    if is_plain_name(node) && is_plain_name(cfg.service@) {
        lemma_percent_endpoint(node, cfg.service@);
    }
}

/// The service that a message is sent to is the one that the same configuration registers and
/// polls: all three requests name it, behind what they ask for.
pub proof fn law_requests_name_the_configured_service(
    cfg: DtnConfig,
    register: String,
    endpoint: String,
)
    requires
        call_ensures(register_url, (&cfg,), register),
        call_ensures(endpoint_url, (&cfg,), endpoint),
    ensures
        register@ == "http://127.0.0.1:"@ + decimal_text(cfg.web_port as nat) + "/register?"@
            + percent_encoded(encode_utf8(cfg.service@)),
        endpoint@ == "http://127.0.0.1:"@ + decimal_text(cfg.web_port as nat) + "/endpoint?"@
            + percent_encoded(encode_utf8(cfg.service@)),
        is_plain_name(cfg.service@) ==> percent_encoded(encode_utf8(cfg.service@)) == cfg.service@,
{
    if is_plain_name(cfg.service@) {
        lemma_plain_is_itself(cfg.service@);
    }
}

/// A text is cut at the first of a character.
proof fn lemma_cut(a: Seq<char>, x: Seq<char>, b: Seq<char>, y: Seq<char>, c: char)
    requires
        !a.contains(c),
        !b.contains(c),
        a + seq![c] + x == b + seq![c] + y,
    ensures
        a == b,
        x == y,
{
    let (p, q) = (a + seq![c] + x, b + seq![c] + y);
    if a.len() < b.len() {
        assert(p[a.len() as int] == c);
        assert(q[a.len() as int] == b[a.len() as int]);
        assert(b.contains(b[a.len() as int]));
    } else if b.len() < a.len() {
        assert(q[b.len() as int] == c);
        assert(p[b.len() as int] == a[b.len() as int]);
        assert(a.contains(a[b.len() as int]));
    }
    assert(p.take(a.len() as int) =~= a);
    assert(q.take(b.len() as int) =~= b);
    assert(p.skip(a.len() as int + 1) =~= x);
    assert(q.skip(b.len() as int + 1) =~= y);
}

/// Texts with the same beginning go on alike where they are alike.
proof fn lemma_same_beginning(p: Seq<char>, x: Seq<char>, y: Seq<char>)
    requires
        p + x == p + y,
    ensures
        x == y,
{
    assert((p + x).skip(p.len() as int) =~= x);
    assert((p + y).skip(p.len() as int) =~= y);
}

/// Numerals hold digits alone.
proof fn lemma_numeral_without(n: nat, c: char)
    requires
        !('0' <= c <= '9'),
    ensures
        !decimal_text(n).contains(c),
{
    lemma_decimal_text(n);
    if decimal_text(n).contains(c) {
        let i = choose|i: int| 0 <= i < decimal_text(n).len() && decimal_text(n)[i] == c;
        assert('0' <= decimal_text(n)[i] <= '9');
    }
}

/// Plain names hold plain characters alone.
proof fn lemma_name_without(name: Seq<char>, c: char)
    requires
        is_plain_name(name),
        !has_plain_code(c),
    ensures
        !name.contains(c),
{
    if name.contains(c) {
        let i = choose|i: int| 0 <= i < name.len() && name[i] == c;
        assert(has_plain_code(name[i]));
    }
}

/// Equal numerals are of equal numbers.
proof fn lemma_numeral_injective(a: nat, b: nat)
    requires
        decimal_text(a) == decimal_text(b),
    ensures
        a == b,
{
    lemma_decimal_text(a);
    lemma_decimal_text(b);
}

/// A send request from its parts, cut where it can be cut.
proof fn lemma_send_text_cuts(port: u16, node: Seq<char>, service: Seq<char>, lifetime: u64)
    requires
        is_plain_name(node),
        is_plain_name(service),
    ensures
        send_text(port, node, service, lifetime) == "http://127.0.0.1:"@ + (decimal_text(
            port as nat,
        ) + seq!['/'] + (send_head() + (node + seq!['%'] + (seq!['2', 'F'] + (service + seq!['&'] + (
        lifetime_head() + (decimal_text(lifetime as nat) + seq!['s']))))))),
{
    lemma_percent_endpoint(node, service);
    reveal_strlit("/send?dst=");
    reveal_strlit("dtn%3A%2F%2F");
    reveal_strlit("%2F");
    reveal_strlit("&lifetime=");
    reveal_strlit("s");
    assert(send_text(port, node, service, lifetime) =~= "http://127.0.0.1:"@ + (decimal_text(
        port as nat,
    ) + seq!['/'] + (send_head() + (node + seq!['%'] + (seq!['2', 'F'] + (service + seq!['&'] + (
    lifetime_head() + (decimal_text(lifetime as nat) + seq!['s']))))))));
}

/// What stands between the port and the node in a send request.
spec fn send_head() -> Seq<char> {
    seq![
        's', 'e', 'n', 'd', '?', 'd', 's', 't', '=', 'd', 't', 'n', '%', '3', 'A', '%', '2', 'F', '%',
        '2', 'F',
    ]
}

/// What stands between the service and the lifetime in a send request.
spec fn lifetime_head() -> Seq<char> {
    seq!['l', 'i', 'f', 'e', 't', 'i', 'm', 'e', '=']
}

/// Requests to different daemons, nodes or services or with different lifetimes are
/// different.
pub proof fn law_send_requests_differ(
    a_cfg: DtnConfig,
    a_peer: PeerUrl,
    a_name: Result<String, DtnError>,
    a: Result<String, DtnError>,
    b_cfg: DtnConfig,
    b_peer: PeerUrl,
    b_name: Result<String, DtnError>,
    b: Result<String, DtnError>,
)
    requires
        is_plain_name(a_cfg.service@),
        is_plain_name(b_cfg.service@),
        call_ensures(peer_node_name, (&a_peer,), a_name),
        call_ensures(peer_node_name, (&b_peer,), b_name),
        call_ensures(send_url, (&a_cfg, &a_peer), a),
        call_ensures(send_url, (&b_cfg, &b_peer), b),
        a is Ok && b is Ok,
        a->Ok_0@ == b->Ok_0@,
    ensures
        a_cfg.web_port == b_cfg.web_port,
        a_name is Ok && b_name is Ok && a_name->Ok_0@ == b_name->Ok_0@,
        a_cfg.service@ == b_cfg.service@,
        a_cfg.lifetime_secs == b_cfg.lifetime_secs,
{
    let (x, y) = (a_name->Ok_0@, b_name->Ok_0@);
    law_valid_names_are_plain(x);
    law_valid_names_are_plain(y);
    let (s, t) = (a_cfg.service@, b_cfg.service@);
    let (m, n) = (decimal_text(a_cfg.web_port as nat), decimal_text(b_cfg.web_port as nat));
    let (k, l) = (
        decimal_text(a_cfg.lifetime_secs as nat),
        decimal_text(b_cfg.lifetime_secs as nat),
    );
    assert(a->Ok_0@ == send_text(a_cfg.web_port, x, s, a_cfg.lifetime_secs));
    assert(b->Ok_0@ == send_text(b_cfg.web_port, y, t, b_cfg.lifetime_secs));
    lemma_send_text_cuts(a_cfg.web_port, x, s, a_cfg.lifetime_secs);
    lemma_send_text_cuts(b_cfg.web_port, y, t, b_cfg.lifetime_secs);
    let (a5, b5) = (k + seq!['s'], l + seq!['s']);
    let (a4, b4) = (lifetime_head() + a5, lifetime_head() + b5);
    let (a3, b3) = (s + seq!['&'] + a4, t + seq!['&'] + b4);
    let (a2, b2) = (seq!['2', 'F'] + a3, seq!['2', 'F'] + b3);
    let (a1, b1) = (x + seq!['%'] + a2, y + seq!['%'] + b2);
    let (a0, b0) = (send_head() + a1, send_head() + b1);
    lemma_same_beginning("http://127.0.0.1:"@, m + seq!['/'] + a0, n + seq!['/'] + b0);
    lemma_numeral_without(a_cfg.web_port as nat, '/');
    lemma_numeral_without(b_cfg.web_port as nat, '/');
    lemma_cut(m, a0, n, b0, '/');
    lemma_same_beginning(send_head(), a1, b1);
    lemma_name_without(x, '%');
    lemma_name_without(y, '%');
    lemma_cut(x, a2, y, b2, '%');
    lemma_same_beginning(seq!['2', 'F'], a3, b3);
    lemma_name_without(s, '&');
    lemma_name_without(t, '&');
    lemma_cut(s, a4, t, b4, '&');
    lemma_same_beginning(lifetime_head(), a5, b5);
    assert(a5.drop_last() =~= k);
    assert(b5.drop_last() =~= l);
    lemma_numeral_injective(a_cfg.web_port as nat, b_cfg.web_port as nat);
    lemma_numeral_injective(a_cfg.lifetime_secs as nat, b_cfg.lifetime_secs as nat);
}

} // verus!
