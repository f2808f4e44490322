//! ICE: candidate priorities, candidate pairs and the STUN Binding messages used by
//! connectivity checks.
use crate::crypto::{is_alphanumeric_ascii, random_alphanumeric};
use crate::text::{decimal, push_str, str_eq, string_from_utf8, u64_to_decimal};
use crate::wire::{
    be16, be32, get_be16, get_be32, lemma_be16_roundtrip, lemma_be32_roundtrip, push_all,
    push_be16, push_be32, read_be16, read_be32,
};
use vstd::prelude::*;
use vstd::utf8::{decode_utf8, encode_utf8, encode_utf8_decode_utf8, encode_utf8_valid_utf8, valid_utf8};

verus! {

/// The STUN magic cookie.
pub const STUN_COOKIE: u32 = 0x2112A442;

/// STUN message type of a Binding Request.
pub const STUN_BINDING_REQUEST: u16 = 0x0001;

/// STUN message type of a Binding Success Response.
pub const STUN_BINDING_SUCCESS: u16 = 0x0101;

/// STUN attribute type USERNAME.
pub const STUN_ATTR_USERNAME: u16 = 0x0006;

/// STUN attribute type XOR-MAPPED-ADDRESS.
pub const STUN_ATTR_XOR_MAPPED_ADDRESS: u16 = 0x0020;

/// ICE credentials of an agent.
#[derive(Debug)]
pub struct IceCredentials {
    pub ufrag: String,
    pub pwd: String,
}

/// What `str::to_uppercase` makes of a text.
pub uninterp spec fn uppercase_of(s: Seq<char>) -> Seq<char>;

/// The text in upper case (`str::to_uppercase`).
/// Trusted: the result is named `uppercase_of`; nothing else is stated.
#[verifier::external_body]
pub(crate) fn to_uppercase(s: &str) -> (r: String)
    ensures
        r@ == uppercase_of(s@),
{
    s.to_uppercase()
}

/// A transport address offered for connectivity, with its address in text form.
#[derive(Debug, Clone)]
pub struct IceCandidate {
    pub foundation: String,
    pub component_id: u32,
    pub priority: u32,
    pub transport: String,
    pub ip: String,
    pub port: u16,
    pub typ: String,
    pub rel_addr: Option<String>,
    pub rel_port: Option<u16>,
    pub local_preference: u32,
}

/// What a candidate is made from.
pub struct IceCandidateParams<'a> {
    pub foundation: String,
    pub component_id: u32,
    pub transport: &'a str,
    pub ip: String,
    pub port: u16,
    pub typ: &'a str,
    pub local_preference: u32,
    pub rel_addr: Option<String>,
    pub rel_port: Option<u16>,
}

impl IceCandidate {
    /// A candidate with its priority computed from type, component and local preference,
    /// and its transport in upper case.
    pub fn new(params: IceCandidateParams) -> (c: Self)
        requires
            candidate_priority(params.typ@, params.component_id, params.local_preference) <= u32::MAX,
        ensures
            c.foundation@ == params.foundation@,
            c.component_id == params.component_id,
            c.priority == candidate_priority(params.typ@, params.component_id, params.local_preference),
            c.transport@ == uppercase_of(params.transport@),
            c.ip@ == params.ip@,
            c.port == params.port,
            c.typ@ == params.typ@,
            opt_string(c.rel_addr) == opt_string(params.rel_addr),
            c.rel_port == params.rel_port,
            c.local_preference == params.local_preference,
    {
        let priority = compute_candidate_priority(params.typ, params.component_id, params.local_preference);
        IceCandidate {
            foundation: params.foundation,
            component_id: params.component_id,
            priority,
            transport: to_uppercase(params.transport),
            ip: params.ip,
            port: params.port,
            typ: String::from_str(params.typ),
            rel_addr: params.rel_addr,
            rel_port: params.rel_port,
            local_preference: params.local_preference,
        }
    }

    /// A host candidate over UDP.
    pub fn host_candidate(
        foundation: String,
        component_id: u32,
        ip: String,
        port: u16,
        local_preference: u32,
    ) -> (c: Self)
        requires
            candidate_priority("host"@, component_id, local_preference) <= u32::MAX,
        ensures
            c.foundation@ == foundation@,
            c.component_id == component_id,
            c.priority == candidate_priority("host"@, component_id, local_preference),
            c.transport@ == uppercase_of("UDP"@),
            c.ip@ == ip@,
            c.port == port,
            c.typ@ == "host"@,
            c.rel_addr is None,
            c.rel_port is None,
            c.local_preference == local_preference,
    {
        IceCandidate::new(
            IceCandidateParams {
                foundation,
                component_id,
                transport: "UDP",
                ip,
                port,
                typ: "host",
                local_preference,
                rel_addr: None,
                rel_port: None,
            },
        )
    }
}

/// Type preference of a candidate type (RFC 8445): host 126, prflx 110, srflx 100, relay 0,
/// anything else 90.
pub open spec fn candidate_type_pref(typ: Seq<char>) -> u32 {
    if typ == "host"@ {
        126
    } else if typ == "srflx"@ {
        100
    } else if typ == "prflx"@ {
        110
    } else if typ == "relay"@ {
        0
    } else {
        90
    }
}

/// The component id clamped to 1..=256.
pub open spec fn clamp_component(c: u32) -> u32 {
    if c < 1 {
        1
    } else if c > 256 {
        256
    } else {
        c
    }
}

/// Candidate priority as a mathematical integer: type preference in the top byte, local
/// preference shifted by 8 (keeping 32 bits), and 256 minus the clamped component.
pub open spec fn candidate_priority(typ: Seq<char>, component_id: u32, local_pref: u32) -> int {
    (candidate_type_pref(typ) as int) * 0x100_0000 + ((local_pref << 8u32) as int) + (256
        - clamp_component(component_id))
}

fn candidate_type_preference(typ: &str) -> (r: u32)
    ensures
        r == candidate_type_pref(typ@),
{
    if str_eq(typ, "host") {
        126
    } else if str_eq(typ, "srflx") {
        100
    } else if str_eq(typ, "prflx") {
        110
    } else if str_eq(typ, "relay") {
        0
    } else {
        90
    }
}

/// Priority of a candidate from its type, component and local preference; the sum must fit
/// in 32 bits.
pub fn compute_candidate_priority(typ: &str, component_id: u32, local_pref: u32) -> (r: u32)
    requires
        candidate_priority(typ@, component_id, local_pref) <= u32::MAX,
    ensures
        r == candidate_priority(typ@, component_id, local_pref),
{
    let type_pref = candidate_type_preference(typ);
    let comp = if component_id < 1 {
        1
    } else if component_id > 256 {
        256
    } else {
        component_id
    };
    assert(type_pref <= 126);
    assert((type_pref << 24u32) == type_pref * 0x100_0000) by (bit_vector)
        requires
            type_pref <= 126,
    ;
    (type_pref << 24u32) + (local_pref << 8u32) + (256 - comp)
}

/// Priority of a candidate pair: the controlling side's candidate priority in the high 32 bits.
pub open spec fn pair_priority(controlling: bool, local_prio: u32, remote_prio: u32) -> int {
    if controlling {
        local_prio as int * 0x1_0000_0000 + remote_prio as int
    } else {
        remote_prio as int * 0x1_0000_0000 + local_prio as int
    }
}

/// Priority of a candidate pair (RFC 8445 with the controlling candidate in the high half).
pub fn compute_pair_priority(controlling: bool, local_prio: u32, remote_prio: u32) -> (r: u64)
    ensures
        r == pair_priority(controlling, local_prio, remote_prio),
{
    let (hi, lo) = if controlling {
        (local_prio, remote_prio)
    } else {
        (remote_prio, local_prio)
    };
    assert(((hi as u64) << 32u64) + (lo as u64) == hi as int * 0x1_0000_0000 + lo as int)
        by (bit_vector);
    ((hi as u64) << 32u64) + (lo as u64)
}

/// Padded length of a STUN attribute value: its length rounded up to a multiple of 4.
pub open spec fn stun_padded(al: int) -> int {
    al + (4 - al % 4) % 4
}

/// `n` zero bytes.
pub open spec fn zero_bytes(n: nat) -> Seq<u8> {
    Seq::new(n, |i: int| 0u8)
}

/// The attributes of a Binding Request: a USERNAME attribute when a name is given.
pub open spec fn stun_request_attrs(username: Option<Seq<char>>) -> Seq<u8> {
    match username {
        None => seq![],
        Some(name) => {
            let nb = encode_utf8(name);
            be16(STUN_ATTR_USERNAME) + be16(nb.len() as u16) + nb + zero_bytes(
                (stun_padded(nb.len() as int) - nb.len()) as nat,
            )
        },
    }
}

/// The bytes of a Binding Request with transaction id `txid`.
pub open spec fn stun_request_bytes(txid: Seq<u8>, username: Option<Seq<char>>) -> Seq<u8> {
    let attrs = stun_request_attrs(username);
    be16(STUN_BINDING_REQUEST) + be16(attrs.len() as u16) + be32(STUN_COOKIE) + txid + attrs
}

/// The view of an optional text.
pub open spec fn opt_text(s: Option<&str>) -> Option<Seq<char>> {
    match s {
        Some(t) => Some(t@),
        None => None,
    }
}

/// Builds a STUN Binding Request, with a USERNAME attribute (zero-padded to 32 bits) when a
/// name is given.
pub fn build_stun_binding_request(txid: &[u8; 12], username: Option<&str>) -> (req: Vec<u8>)
    ensures
        req@ == stun_request_bytes(txid@, opt_text(username)),
{
    let mut attrs = Vec::new();
    match username {
        Some(name) => {
            let name_bytes = name.as_bytes();
            let nl = name_bytes.len();
            let pad = (4 - nl % 4) % 4;
            push_be16(&mut attrs, STUN_ATTR_USERNAME);
            push_be16(&mut attrs, nl as u16);
            push_all(&mut attrs, name_bytes);
            let ghost before = attrs@;
            let mut i: usize = 0;
            while i < pad
                invariant
                    i <= pad <= 3,
                    attrs@ == before + zero_bytes(i as nat),
                decreases pad - i,
            {
                attrs.push(0);
                i += 1;
                assert(attrs@ =~= before + zero_bytes(i as nat));
            }
            assert(pad == stun_padded(nl as int) - nl);
        },
        None => {},
    }
    let mut req = Vec::new();
    push_be16(&mut req, STUN_BINDING_REQUEST);
    push_be16(&mut req, attrs.len() as u16);
    push_be32(&mut req, STUN_COOKIE);
    push_all(&mut req, txid);
    push_all(&mut req, attrs.as_slice());
    assert(req@ =~= stun_request_bytes(txid@, opt_text(username)));
    req
}

/// A parsed Binding Request: its transaction id and USERNAME, if any.
pub struct StunBindingRequest {
    pub txid: [u8; 12],
    pub username: Option<String>,
}

/// Scans the attributes of a STUN message from `off` up to `end`: `None` when an attribute
/// value runs past the buffer, otherwise the last USERNAME that is valid UTF-8 (or `acc`).
pub open spec fn stun_scan_username(
    b: Seq<u8>,
    off: int,
    end: int,
    acc: Option<Seq<char>>,
) -> Option<Option<Seq<char>>>
    decreases b.len() + 4 - off,
{
    if off < 0 || off + 4 > end {
        Some(acc)
    } else {
        let at = get_be16(b, off);
        let al = get_be16(b, off + 2) as int;
        let vstart = off + 4;
        if vstart + al > b.len() {
            None
        } else {
            let v = b.subrange(vstart, vstart + al);
            let acc2 = if at == STUN_ATTR_USERNAME && valid_utf8(v) {
                Some(decode_utf8(v))
            } else {
                acc
            };
            proof {
                assert(stun_padded(al) >= 0);
            }
            stun_scan_username(b, vstart + stun_padded(al), end, acc2)
        }
    }
}

/// What a Binding Request parses to: (transaction id, USERNAME), or `None`.
pub open spec fn stun_request_parse(b: Seq<u8>) -> Option<(Seq<u8>, Option<Seq<char>>)> {
    if b.len() < 20 {
        None
    } else if get_be16(b, 0) != STUN_BINDING_REQUEST {
        None
    } else if get_be32(b, 4) != STUN_COOKIE {
        None
    } else if b.len() < 20 + get_be16(b, 2) {
        None
    } else {
        match stun_scan_username(b, 20, 20 + get_be16(b, 2) as int, None) {
            None => None,
            Some(u) => Some((b.subrange(8, 20), u)),
        }
    }
}

/// The view of an optional string.
pub open spec fn opt_string(s: Option<String>) -> Option<Seq<char>> {
    match s {
        Some(t) => Some(t@),
        None => None,
    }
}

/// Parses a STUN Binding Request: its transaction id and the USERNAME attribute, if any.
pub fn parse_stun_binding_request(buf: &[u8]) -> (r: Option<StunBindingRequest>)
    ensures
        r is Some <==> stun_request_parse(buf@) is Some,
        r matches Some(req) ==> stun_request_parse(buf@) == Some(
            (req.txid@, opt_string(req.username)),
        ),
{
    let n = buf.len();
    if n < 20 {
        return None;
    }
    let typ = read_be16(buf, 0);
    if typ != STUN_BINDING_REQUEST {
        return None;
    }
    let len = read_be16(buf, 2) as usize;
    let cookie = read_be32(buf, 4);
    if cookie != STUN_COOKIE {
        return None;
    }
    if n < 20 + len {
        return None;
    }
    let txid: [u8; 12] = [
        buf[8],
        buf[9],
        buf[10],
        buf[11],
        buf[12],
        buf[13],
        buf[14],
        buf[15],
        buf[16],
        buf[17],
        buf[18],
        buf[19],
    ];
    assert(txid@ =~= buf@.subrange(8, 20));
    let mut username: Option<String> = None;
    let mut off: usize = 20;
    let end = 20 + len;
    while off <= end && end - off >= 4
        invariant
            20 <= off,
            end == 20 + len,
            end <= n,
            n == buf@.len(),
            len == get_be16(buf@, 2),
            off <= n + 3,
            stun_scan_username(buf@, off as int, end as int, opt_string(username))
                == stun_scan_username(buf@, 20, end as int, None),
        decreases n + 4 - off,
    {
        let ghost old_off = off;
        let at = read_be16(buf, off);
        let al = read_be16(buf, off + 2) as usize;
        off += 4;
        if al > n - off {
            assert(stun_scan_username(buf@, old_off as int, end as int, opt_string(username))
                is None);
            return None;
        }
        if at == STUN_ATTR_USERNAME {
            match string_from_utf8(&buf[off..off + al]) {
                Some(s) => {
                    username = Some(s);
                },
                None => {},
            }
        }
        let padded = al + (4 - al % 4) % 4;
        off += padded;
    }
    assert(stun_scan_username(buf@, off as int, end as int, opt_string(username)) == Some(
        opt_string(username),
    ));
    Some(StunBindingRequest { txid, username })
}

/// Whether `b` is at least 20 bytes long and carries the STUN magic cookie at bytes 4..8.
pub open spec fn looks_like_stun(b: Seq<u8>) -> bool {
    b.len() >= 20 && get_be32(b, 4) == STUN_COOKIE
}

/// Tells whether `buf` looks like a STUN message.
pub fn is_stun_message(buf: &[u8]) -> (r: bool)
    ensures
        r == looks_like_stun(buf@),
{
    if buf.len() < 20 {
        return false;
    }
    read_be32(buf, 4) == STUN_COOKIE
}

/// Parsing a built Binding Request gives back its transaction id and username, when the
/// username attribute fits the 16-bit message length.
pub proof fn lemma_stun_request_roundtrip(txid: Seq<u8>, username: Option<Seq<char>>)
    requires
        txid.len() == 12,
        match username {
            Some(u) => encode_utf8(u).len() <= 65528,
            None => true,
        },
    ensures
        stun_request_parse(stun_request_bytes(txid, username)) == Some((txid, username)),
{
    let attrs = stun_request_attrs(username);
    let b = stun_request_bytes(txid, username);
    let l = attrs.len();
    assert(l <= 65535);
    assert(b.subrange(0, 2) =~= be16(STUN_BINDING_REQUEST));
    assert(b.subrange(2, 4) =~= be16(l as u16));
    assert(b.subrange(4, 8) =~= be32(STUN_COOKIE));
    lemma_be16_roundtrip(STUN_BINDING_REQUEST, b, 0);
    lemma_be16_roundtrip(l as u16, b, 2);
    lemma_be32_roundtrip(STUN_COOKIE, b, 4);
    assert(b.subrange(8, 20) =~= txid);
    match username {
        None => {},
        Some(name) => {
            let nb = encode_utf8(name);
            assert(b.subrange(20, 22) =~= be16(STUN_ATTR_USERNAME));
            assert(b.subrange(22, 24) =~= be16(nb.len() as u16));
            lemma_be16_roundtrip(STUN_ATTR_USERNAME, b, 20);
            lemma_be16_roundtrip(nb.len() as u16, b, 22);
            assert(b.subrange(24, 24 + nb.len() as int) =~= nb);
            encode_utf8_valid_utf8(name);
            encode_utf8_decode_utf8(name);
            assert(stun_scan_username(b, 24 + stun_padded(nb.len() as int), 20 + l as int, Some(name))
                == Some(Some(name)));
        },
    }
}

/// The XOR-MAPPED-ADDRESS attribute for an IPv4 address and port.
pub open spec fn xor_mapped_attr(ip: Seq<u8>, port: u16) -> Seq<u8> {
    let c = be32(STUN_COOKIE);
    be16(STUN_ATTR_XOR_MAPPED_ADDRESS) + be16(8) + seq![0u8, 1u8] + be16(
        port ^ ((STUN_COOKIE >> 16u32) as u16),
    ) + seq![ip[0] ^ c[0], ip[1] ^ c[1], ip[2] ^ c[2], ip[3] ^ c[3]]
}

/// The bytes of a Binding Success Response reporting IPv4 address `ip` and `port`.
pub open spec fn stun_success_bytes(txid: Seq<u8>, ip: Seq<u8>, port: u16) -> Seq<u8> {
    be16(STUN_BINDING_SUCCESS) + be16(12) + be32(STUN_COOKIE) + txid + xor_mapped_attr(ip, port)
}

/// Builds a Binding Success Response whose XOR-MAPPED-ADDRESS reports the IPv4 source
/// address `ip`:`port` of the request.
pub fn build_stun_success_response(txid: &[u8; 12], ip: [u8; 4], port: u16) -> (resp: Vec<u8>)
    ensures
        resp@ == stun_success_bytes(txid@, ip@, port),
{
    let cookie: [u8; 4] = [0x21, 0x12, 0xA4, 0x42];
    assert(cookie@ =~= be32(STUN_COOKIE)) by {
        assert(((0x2112A442u32 >> 24u32) as u8) == 0x21u8) by (bit_vector);
        assert(((0x2112A442u32 >> 16u32) as u8) == 0x12u8) by (bit_vector);
        assert(((0x2112A442u32 >> 8u32) as u8) == 0xA4u8) by (bit_vector);
        assert((0x2112A442u32 as u8) == 0x42u8) by (bit_vector);
    }
    let mut resp = Vec::new();
    push_be16(&mut resp, STUN_BINDING_SUCCESS);
    push_be16(&mut resp, 12);
    push_be32(&mut resp, STUN_COOKIE);
    push_all(&mut resp, txid);
    push_be16(&mut resp, STUN_ATTR_XOR_MAPPED_ADDRESS);
    push_be16(&mut resp, 8);
    resp.push(0x00);
    resp.push(0x01);
    assert(((0x2112A442u32 >> 16u32) as u16) == 0x2112u16) by (bit_vector);
    push_be16(&mut resp, port ^ 0x2112u16);
    resp.push(ip[0] ^ cookie[0]);
    resp.push(ip[1] ^ cookie[1]);
    resp.push(ip[2] ^ cookie[2]);
    resp.push(ip[3] ^ cookie[3]);
    assert(resp@ =~= stun_success_bytes(txid@, ip@, port));
    resp
}

/// The IPv4 address and port of the first XOR-MAPPED-ADDRESS attribute found from `off`
/// up to `end`; `None` if there is none, if its value runs past the buffer, or if its family
/// is not IPv4.
pub open spec fn stun_scan_mapped(b: Seq<u8>, off: int, end: int) -> Option<(Seq<u8>, u16)>
    decreases b.len() + 4 - off,
{
    if off < 0 || off + 4 > end {
        None
    } else {
        let at = get_be16(b, off);
        let al = get_be16(b, off + 2) as int;
        let v = off + 4;
        if at == STUN_ATTR_XOR_MAPPED_ADDRESS && al >= 8 {
            if v + al > b.len() || b[v + 1] != 1 {
                None
            } else {
                let c = be32(STUN_COOKIE);
                Some(
                    (
                        seq![b[v + 4] ^ c[0], b[v + 5] ^ c[1], b[v + 6] ^ c[2], b[v + 7] ^ c[3]],
                        get_be16(b, v + 2) ^ ((STUN_COOKIE >> 16u32) as u16),
                    ),
                )
            }
        } else if v + stun_padded(al) > b.len() + 3 {
            None
        } else {
            proof {
                assert(stun_padded(al) >= 0);
            }
            stun_scan_mapped(b, v + stun_padded(al), end)
        }
    }
}

/// What a Binding Success Response for transaction `txid` reports: its mapped IPv4 address
/// and port.
pub open spec fn stun_success_parse(b: Seq<u8>, txid: Seq<u8>) -> Option<(Seq<u8>, u16)> {
    if b.len() < 20 || get_be16(b, 0) != STUN_BINDING_SUCCESS || get_be32(b, 4) != STUN_COOKIE
        || b.subrange(8, 20) != txid || b.len() < 20 + get_be16(b, 2) {
        None
    } else {
        stun_scan_mapped(b, 20, 20 + get_be16(b, 2) as int)
    }
}

/// Parses a Binding Success Response for transaction `expect_txid` and returns the IPv4
/// address and port of its XOR-MAPPED-ADDRESS.
pub fn parse_stun_success_response(buf: &[u8], expect_txid: &[u8; 12]) -> (r: Option<([u8; 4], u16)>)
    ensures
        r is Some <==> stun_success_parse(buf@, expect_txid@) is Some,
        r matches Some((ip, port)) ==> stun_success_parse(buf@, expect_txid@) == Some(
            (ip@, port),
        ),
{
    let n = buf.len();
    if n < 20 {
        return None;
    }
    let typ = read_be16(buf, 0);
    if typ != STUN_BINDING_SUCCESS {
        return None;
    }
    let len = read_be16(buf, 2) as usize;
    let cookie = read_be32(buf, 4);
    if cookie != STUN_COOKIE {
        return None;
    }
    if !crate::text::bytes_eq(&buf[8..20], expect_txid) {
        return None;
    }
    if n < 20 + len {
        return None;
    }
    let cb: [u8; 4] = [0x21, 0x12, 0xA4, 0x42];
    assert(cb@ =~= be32(STUN_COOKIE)) by {
        assert(((0x2112A442u32 >> 24u32) as u8) == 0x21u8) by (bit_vector);
        assert(((0x2112A442u32 >> 16u32) as u8) == 0x12u8) by (bit_vector);
        assert(((0x2112A442u32 >> 8u32) as u8) == 0xA4u8) by (bit_vector);
        assert((0x2112A442u32 as u8) == 0x42u8) by (bit_vector);
    }
    let mut off: usize = 20;
    let end = 20 + len;
    assert(buf@.subrange(8, 20) == expect_txid@);
    assert(stun_success_parse(buf@, expect_txid@) == stun_scan_mapped(buf@, 20, end as int));
    while off <= end && end - off >= 4
        invariant
            20 <= off,
            end == 20 + len,
            end <= n,
            n == buf@.len(),
            len == get_be16(buf@, 2),
            cb@ == be32(STUN_COOKIE),
            stun_success_parse(buf@, expect_txid@) == stun_scan_mapped(buf@, 20, end as int),
            off <= n + 3,
            stun_scan_mapped(buf@, off as int, end as int) == stun_scan_mapped(
                buf@,
                20,
                end as int,
            ),
        decreases n + 4 - off,
    {
        let at = read_be16(buf, off);
        let al = read_be16(buf, off + 2) as usize;
        let v = off + 4;
        if at == STUN_ATTR_XOR_MAPPED_ADDRESS && al >= 8 {
            if al > n - v {
                return None;
            }
            let family = buf[v + 1];
            if family != 0x01 {
                return None;
            }
            let xport = read_be16(buf, v + 2);
            assert(((0x2112A442u32 >> 16u32) as u16) == 0x2112u16) by (bit_vector);
            let port = xport ^ 0x2112u16;
            let ip: [u8; 4] = [
                buf[v + 4] ^ cb[0],
                buf[v + 5] ^ cb[1],
                buf[v + 6] ^ cb[2],
                buf[v + 7] ^ cb[3],
            ];
            let ghost want = stun_scan_mapped(buf@, off as int, end as int);
            assert(want == Some((ip@, port))) by {
                assert(want.unwrap().0 =~= ip@);
            }
            return Some((ip, port));
        }
        let padded = al + (4 - al % 4) % 4;
        if padded > 3 && padded - 3 > n - v {
            return None;
        }
        off = v + padded;
    }
    None
}

/// Parsing a built success response with the same transaction id gives back the address.
#[verifier::spinoff_prover]
#[verifier::rlimit(40)]
pub proof fn lemma_stun_success_roundtrip(txid: Seq<u8>, ip: Seq<u8>, port: u16)
    requires
        txid.len() == 12,
        ip.len() == 4,
    ensures
        stun_success_parse(stun_success_bytes(txid, ip, port), txid) == Some((ip, port)),
{
    let b = stun_success_bytes(txid, ip, port);
    let c = be32(STUN_COOKIE);
    assert(b.subrange(0, 2) =~= be16(STUN_BINDING_SUCCESS));
    assert(b.subrange(2, 4) =~= be16(12));
    assert(b.subrange(4, 8) =~= be32(STUN_COOKIE));
    assert(b.subrange(8, 20) =~= txid);
    assert(b.subrange(20, 22) =~= be16(STUN_ATTR_XOR_MAPPED_ADDRESS));
    assert(b.subrange(22, 24) =~= be16(8));
    let xp = port ^ ((STUN_COOKIE >> 16u32) as u16);
    assert(b.subrange(26, 28) =~= be16(xp));
    lemma_be16_roundtrip(STUN_BINDING_SUCCESS, b, 0);
    lemma_be16_roundtrip(12, b, 2);
    lemma_be32_roundtrip(STUN_COOKIE, b, 4);
    lemma_be16_roundtrip(STUN_ATTR_XOR_MAPPED_ADDRESS, b, 20);
    lemma_be16_roundtrip(8, b, 22);
    lemma_be16_roundtrip(xp, b, 26);
    assert(xp ^ ((STUN_COOKIE >> 16u32) as u16) == port) by (bit_vector)
        requires
            xp == port ^ ((0x2112A442u32 >> 16u32) as u16),
    ;
    let i0 = ip[0];
    let i1 = ip[1];
    let i2 = ip[2];
    let i3 = ip[3];
    let c0 = c[0];
    let c1 = c[1];
    let c2 = c[2];
    let c3 = c[3];
    assert(forall|x: u8, y: u8| #[trigger] ((x ^ y) ^ y) == x) by (bit_vector);
    assert(b[28] == i0 ^ c0 && b[29] == i1 ^ c1 && b[30] == i2 ^ c2 && b[31] == i3 ^ c3);
    let got = stun_success_parse(b, txid);
    assert(got.unwrap().0 =~= ip);
}

/// A pair of a local and a remote candidate, with the pair's priority.
#[derive(Debug, Clone)]
pub struct CandidatePair {
    pub local: IceCandidate,
    pub remote: IceCandidate,
    pub priority: u64,
}

/// The local preference of the first host candidate among `cs[k..]` with address `ip` and
/// port `port`, or 65535 when there is none.
pub open spec fn host_pref(cs: Seq<IceCandidate>, k: int, ip: Seq<char>, port: u16) -> u32
    decreases cs.len() - k,
{
    if k < 0 || k >= cs.len() {
        65535
    } else if cs[k].ip@ == ip && cs[k].port == port && cs[k].typ@ == "host"@ {
        cs[k].local_preference
    } else {
        host_pref(cs, k + 1, ip, port)
    }
}

/// The ICE agent's state: its credentials, its candidates and the peer's, its role, the
/// pair chosen by a successful check, the peer's credentials, and the count that numbers
/// the foundations it hands out. The sockets of its local candidates are the caller's.
#[derive(Debug)]
pub struct IceAgent {
    pub credentials: IceCredentials,
    pub local_candidates: Vec<IceCandidate>,
    pub remote_candidates: Vec<IceCandidate>,
    pub controlling: bool,
    pub selected_candidates: Option<(IceCandidate, IceCandidate)>,
    pub remote_credentials: Option<IceCredentials>,
    pub foundation_counter: u32,
}

/// The pairs that `local` forms with the first `n` remote candidates: one for each
/// remote candidate of the same component, in order.
pub open spec fn pairs_row(controlling: bool, local: IceCandidate, remotes: Seq<IceCandidate>, n: int) -> Seq<
    CandidatePair,
>
    decreases n,
{
    if n <= 0 {
        Seq::empty()
    } else {
        let prev = pairs_row(controlling, local, remotes, n - 1);
        let remote = remotes[n - 1];
        if local.component_id == remote.component_id {
            prev.push(
                CandidatePair {
                    local,
                    remote,
                    priority: pair_priority(controlling, local.priority, remote.priority) as u64,
                },
            )
        } else {
            prev
        }
    }
}

/// The pairs of the first `n` local candidates with all remote ones, local-major.
pub open spec fn pairs_of(controlling: bool, locals: Seq<IceCandidate>, remotes: Seq<IceCandidate>, n: int) -> Seq<
    CandidatePair,
>
    decreases n,
{
    if n <= 0 {
        Seq::empty()
    } else {
        pairs_of(controlling, locals, remotes, n - 1) + pairs_row(
            controlling,
            locals[n - 1],
            remotes,
            remotes.len() as int,
        )
    }
}

/// `t` with `x` placed after every element whose priority is at least `x`'s.
pub open spec fn insert_by_priority(t: Seq<CandidatePair>, x: CandidatePair) -> Seq<CandidatePair>
    decreases t.len(),
{
    if t.len() == 0 {
        seq![x]
    } else if t[0].priority < x.priority {
        seq![x] + t
    } else {
        seq![t[0]] + insert_by_priority(t.drop_first(), x)
    }
}

/// The stable sort of `s` by descending priority: pairs of equal priority keep their order.
pub open spec fn sort_by_priority(s: Seq<CandidatePair>) -> Seq<CandidatePair>
    decreases s.len(),
{
    if s.len() == 0 {
        s
    } else {
        insert_by_priority(sort_by_priority(s.drop_last()), s.last())
    }
}

/// Whether the priorities of `s` never increase.
pub open spec fn descending(s: Seq<CandidatePair>) -> bool {
    forall|i: int, j: int| 0 <= i < j < s.len() ==> s[i].priority >= s[j].priority
}

/// Inserting into a descending list keeps it descending and adds exactly the element.
proof fn lemma_insert_descending(t: Seq<CandidatePair>, x: CandidatePair)
    requires
        descending(t),
    ensures
        descending(insert_by_priority(t, x)),
        insert_by_priority(t, x).len() == t.len() + 1,
        insert_by_priority(t, x).to_multiset() == t.to_multiset().insert(x),
    decreases t.len(),
{
    broadcast use vstd::seq_lib::group_to_multiset_ensures;
    if t.len() == 0 {
        assert(insert_by_priority(t, x) =~= seq![x]);
        assert(t =~= Seq::<CandidatePair>::empty());
    } else if t[0].priority < x.priority {
        vstd::seq_lib::lemma_multiset_commutative(seq![x], t);
        assert(seq![x].to_multiset() =~= vstd::multiset::Multiset::<CandidatePair>::empty().insert(x)) by {
            assert(seq![x] =~= Seq::<CandidatePair>::empty().push(x));
        }
    } else {
        let rest = t.drop_first();
        assert forall|i: int, j: int| 0 <= i < j < rest.len() implies rest[i].priority >= rest[j].priority by {
            assert(rest[i] == t[i + 1] && rest[j] == t[j + 1]);
        }
        lemma_insert_descending(rest, x);
        let r = insert_by_priority(rest, x);
        let whole = seq![t[0]] + r;
        assert forall|i: int, j: int| 0 <= i < j < whole.len() implies whole[i].priority
            >= whole[j].priority by {
            if i == 0 {
                assert(r.to_multiset().count(r[j - 1]) > 0);
                assert(r[j - 1] == x || rest.to_multiset().count(r[j - 1]) > 0);
                if r[j - 1] != x {
                    let k = choose|k: int| 0 <= k < rest.len() && rest[k] == r[j - 1];
                    assert(t[k + 1] == rest[k]);
                }
            } else {
                assert(whole[i] == r[i - 1] && whole[j] == r[j - 1]);
            }
        }
        assert(t =~= seq![t[0]] + rest);
        vstd::seq_lib::lemma_multiset_commutative(seq![t[0]], r);
        vstd::seq_lib::lemma_multiset_commutative(seq![t[0]], rest);
    }
}

/// The stable sort by priority gives a descending list holding the same pairs.
pub proof fn lemma_sort_descending(s: Seq<CandidatePair>)
    ensures
        descending(sort_by_priority(s)),
        sort_by_priority(s).to_multiset() == s.to_multiset(),
    decreases s.len(),
{
    broadcast use vstd::seq_lib::group_to_multiset_ensures;
    if s.len() == 0 {
    } else {
        lemma_sort_descending(s.drop_last());
        lemma_insert_descending(sort_by_priority(s.drop_last()), s.last());
        assert(s =~= s.drop_last().push(s.last()));
    }
}

/// A copy of a candidate.
pub(crate) fn copy_candidate(c: &IceCandidate) -> (r: IceCandidate)
    ensures
        r == *c,
{
    IceCandidate {
        foundation: c.foundation.clone(),
        component_id: c.component_id,
        priority: c.priority,
        transport: c.transport.clone(),
        ip: c.ip.clone(),
        port: c.port,
        typ: c.typ.clone(),
        rel_addr: match &c.rel_addr {
            Some(a) => Some(a.clone()),
            None => None,
        },
        rel_port: c.rel_port,
        local_preference: c.local_preference,
    }
}

/// Places `x` in the descending list `pairs` after every pair of at least its priority.
fn insert_pair(pairs: &mut Vec<CandidatePair>, x: CandidatePair)
    ensures
        final(pairs)@ == insert_by_priority(old(pairs)@, x),
{
    let ghost t = pairs@;
    let mut k: usize = 0;
    assert(t.skip(0) =~= t);
    assert(t.take(0) + insert_by_priority(t, x) =~= insert_by_priority(t, x));
    while k < pairs.len() && pairs[k].priority >= x.priority
        invariant
            pairs@ == t,
            k <= t.len(),
            insert_by_priority(t, x) == t.take(k as int) + insert_by_priority(t.skip(k as int), x),
        decreases t.len() - k,
    {
        proof {
            let u = t.skip(k as int);
            assert(u[0] == t[k as int]);
            assert(u.drop_first() =~= t.skip(k + 1));
            assert(t.take(k as int) + seq![t[k as int]] =~= t.take(k + 1));
            assert(insert_by_priority(u, x) == seq![u[0]] + insert_by_priority(u.drop_first(), x));
            assert(t.take(k as int) + (seq![t[k as int]] + insert_by_priority(t.skip(k + 1), x))
                =~= t.take(k + 1) + insert_by_priority(t.skip(k + 1), x));
        }
        k += 1;
    }
    proof {
        let u = t.skip(k as int);
        if k == t.len() {
            assert(u =~= Seq::<CandidatePair>::empty());
        } else {
            assert(u[0] == t[k as int]);
        }
    }
    pairs.insert(k, x);
    assert(pairs@ =~= t.take(k as int) + insert_by_priority(t.skip(k as int), x));
}

impl IceAgent {
    /// An agent with the given credentials and role, no candidates, no selected pair and
    /// no peer credentials.
    pub fn new(ufrag: String, pwd: String, controlling: bool) -> (a: Self)
        ensures
            a.credentials.ufrag@ == ufrag@,
            a.credentials.pwd@ == pwd@,
            a.local_candidates@.len() == 0,
            a.remote_candidates@.len() == 0,
            a.controlling == controlling,
            a.selected_candidates is None,
            a.remote_credentials is None,
            a.foundation_counter == 0,
    {
        IceAgent {
            credentials: IceCredentials { ufrag, pwd },
            local_candidates: Vec::new(),
            remote_candidates: Vec::new(),
            controlling,
            selected_candidates: None,
            remote_credentials: None,
            foundation_counter: 0,
        }
    }

    /// Random credentials: an 8-character user fragment and a 24-character password of
    /// ASCII letters and digits.
    pub fn generate_credentials() -> (c: IceCredentials)
        ensures
            c.ufrag@.len() == 8,
            c.pwd@.len() == 24,
            forall|i: int| 0 <= i < 8 ==> is_alphanumeric_ascii(#[trigger] c.ufrag@[i]),
            forall|i: int| 0 <= i < 24 ==> is_alphanumeric_ascii(#[trigger] c.pwd@[i]),
    {
        let ufrag = random_alphanumeric(8);
        let pwd = random_alphanumeric(24);
        IceCredentials { ufrag, pwd }
    }

    /// Records the peer's credentials.
    pub fn set_remote_credentials(&mut self, ufrag: String, pwd: String)
        ensures
            final(self).remote_credentials matches Some(c) && c.ufrag@ == ufrag@ && c.pwd@ == pwd@,
            final(self).credentials == old(self).credentials,
            final(self).local_candidates@ == old(self).local_candidates@,
            final(self).remote_candidates@ == old(self).remote_candidates@,
            final(self).controlling == old(self).controlling,
            final(self).selected_candidates == old(self).selected_candidates,
            final(self).foundation_counter == old(self).foundation_counter,
    {
        self.remote_credentials = Some(IceCredentials { ufrag, pwd });
    }

    /// Forgets the peer: its candidates, its credentials and the selected pair.
    pub fn reset_for_new_connection(&mut self)
        ensures
            final(self).remote_candidates@.len() == 0,
            final(self).remote_credentials is None,
            final(self).selected_candidates is None,
            final(self).credentials == old(self).credentials,
            final(self).local_candidates@ == old(self).local_candidates@,
            final(self).controlling == old(self).controlling,
            final(self).foundation_counter == old(self).foundation_counter,
    {
        self.remote_candidates.clear();
        self.remote_credentials = None;
        self.selected_candidates = None;
    }

    /// A host candidate of component 1 for an address and port.
    pub fn gather_host_candidate(foundation: String, ip: String, port: u16, local_preference: u32) -> (c: IceCandidate)
        requires
            candidate_priority("host"@, 1, local_preference) <= u32::MAX,
        ensures
            c.foundation@ == foundation@,
            c.component_id == 1,
            c.priority == candidate_priority("host"@, 1, local_preference),
            c.transport@ == uppercase_of("UDP"@),
            c.ip@ == ip@,
            c.port == port,
            c.typ@ == "host"@,
            c.rel_addr is None,
            c.rel_port is None,
            c.local_preference == local_preference,
    {
        IceCandidate::host_candidate(foundation, 1, ip, port, local_preference)
    }

    /// Adds a local candidate at the end.
    pub fn add_local_candidate(&mut self, candidate: IceCandidate)
        ensures
            final(self).local_candidates@ == old(self).local_candidates@.push(candidate),
            final(self).remote_candidates@ == old(self).remote_candidates@,
            final(self).credentials == old(self).credentials,
            final(self).remote_credentials == old(self).remote_credentials,
            final(self).controlling == old(self).controlling,
            final(self).selected_candidates == old(self).selected_candidates,
            final(self).foundation_counter == old(self).foundation_counter,
    {
        self.local_candidates.push(candidate);
    }

    /// Adds a remote candidate at the end.
    pub fn add_remote_candidate(&mut self, candidate: IceCandidate)
        ensures
            final(self).remote_candidates@ == old(self).remote_candidates@.push(candidate),
            final(self).local_candidates@ == old(self).local_candidates@,
            final(self).credentials == old(self).credentials,
            final(self).remote_credentials == old(self).remote_credentials,
            final(self).controlling == old(self).controlling,
            final(self).selected_candidates == old(self).selected_candidates,
            final(self).foundation_counter == old(self).foundation_counter,
    {
        self.remote_candidates.push(candidate);
    }

    /// Replaces the remote candidates.
    pub fn replace_remote_candidates(&mut self, candidates: Vec<IceCandidate>)
        ensures
            final(self).remote_candidates@ == candidates@,
            final(self).local_candidates@ == old(self).local_candidates@,
            final(self).credentials == old(self).credentials,
            final(self).remote_credentials == old(self).remote_credentials,
            final(self).controlling == old(self).controlling,
            final(self).selected_candidates == old(self).selected_candidates,
            final(self).foundation_counter == old(self).foundation_counter,
    {
        self.remote_candidates = candidates;
    }

    /// Every pair of a local and a remote candidate of the same component, local-major,
    /// stably sorted by descending pair priority.
    pub fn candidate_pairs(&self) -> (pairs: Vec<CandidatePair>)
        ensures
            pairs@ == sort_by_priority(
                pairs_of(
                    self.controlling,
                    self.local_candidates@,
                    self.remote_candidates@,
                    self.local_candidates@.len() as int,
                ),
            ),
            descending(pairs@),
    {
        let ghost locals = self.local_candidates@;
        let ghost remotes = self.remote_candidates@;
        let mut pairs: Vec<CandidatePair> = Vec::new();
        let mut i: usize = 0;
        while i < self.local_candidates.len()
            invariant
                locals == self.local_candidates@,
                remotes == self.remote_candidates@,
                i <= locals.len(),
                pairs@ == sort_by_priority(pairs_of(self.controlling, locals, remotes, i as int)),
            decreases locals.len() - i,
        {
            let local = &self.local_candidates[i];
            let ghost before = pairs_of(self.controlling, locals, remotes, i as int);
            let mut j: usize = 0;
            while j < self.remote_candidates.len()
                invariant
                    locals == self.local_candidates@,
                    remotes == self.remote_candidates@,
                    i < locals.len(),
                    *local == locals[i as int],
                    j <= remotes.len(),
                    before == pairs_of(self.controlling, locals, remotes, i as int),
                    pairs@ == sort_by_priority(
                        before + pairs_row(self.controlling, *local, remotes, j as int),
                    ),
                decreases remotes.len() - j,
            {
                let remote = &self.remote_candidates[j];
                let ghost row = pairs_row(self.controlling, *local, remotes, j as int);
                if local.component_id == remote.component_id {
                    let priority = compute_pair_priority(self.controlling, local.priority, remote.priority);
                    let pair = CandidatePair {
                        local: copy_candidate(local),
                        remote: copy_candidate(remote),
                        priority,
                    };
                    insert_pair(&mut pairs, pair);
                    proof {
                        let s = before + row.push(pair);
                        assert(s.drop_last() =~= before + row);
                        assert(s.last() == pair);
                    }
                }
                j += 1;
            }
            assert(before + pairs_row(self.controlling, *local, remotes, remotes.len() as int)
                == pairs_of(self.controlling, locals, remotes, i + 1));
            i += 1;
        }
        proof {
            lemma_sort_descending(pairs_of(self.controlling, locals, remotes, locals.len() as int));
        }
        pairs
    }

    /// The next foundation: the count goes up by one (wrapping) and the foundation is the
    /// prefix, '-' and the count.
    fn next_foundation(&mut self, prefix: &str) -> (f: String)
        ensures
            final(self).foundation_counter == (if old(self).foundation_counter == u32::MAX {
                0
            } else {
                old(self).foundation_counter + 1
            }),
            f@ == prefix@ + "-"@ + decimal(final(self).foundation_counter as nat),
            final(self).credentials == old(self).credentials,
            final(self).local_candidates@ == old(self).local_candidates@,
            final(self).remote_candidates@ == old(self).remote_candidates@,
            final(self).remote_credentials == old(self).remote_credentials,
            final(self).controlling == old(self).controlling,
            final(self).selected_candidates == old(self).selected_candidates,
    {
        self.foundation_counter = self.foundation_counter.wrapping_add(1);
        let mut f = String::from_str(prefix);
        push_str(&mut f, "-");
        let d = u64_to_decimal(self.foundation_counter as u64);
        push_str(&mut f, d.as_str());
        f
    }

    /// The local preference of the candidate at `index`: 65535 minus the index (cut to 32
    /// bits), or 0 below that.
    fn local_preference_for_index(index: usize) -> (p: u32)
        ensures
            p == (if (index as u32) > 65535 {
                0
            } else {
                65535 - (index as u32)
            }),
    {
        let i = #[verifier::truncate] (index as u32);
        65_535u32.saturating_sub(i)
    }

    /// Adds a host candidate for an address and port that the caller has bound, as the
    /// `index`-th local candidate: it gets the next "host" foundation and the local
    /// preference of its index. Returns the index of the next one.
    pub fn add_host_candidate(&mut self, ip: String, port: u16, index: usize) -> (next: usize)
        ensures
            next == (if index == usize::MAX {
                index
            } else {
                (index + 1) as usize
            }),
            final(self).local_candidates@.len() == old(self).local_candidates@.len() + 1,
            final(self).local_candidates@.drop_last() == old(self).local_candidates@,
            ({
                let c = final(self).local_candidates@.last();
                let lp = if (index as u32) > 65535 {
                    0
                } else {
                    65535 - (index as u32)
                };
                &&& c.foundation@ == "host"@ + "-"@ + decimal(final(self).foundation_counter as nat)
                &&& c.ip@ == ip@
                &&& c.port == port
                &&& c.typ@ == "host"@
                &&& c.component_id == 1
                &&& c.local_preference == lp
                &&& c.priority == candidate_priority("host"@, 1, lp as u32)
            }),
            final(self).foundation_counter == (if old(self).foundation_counter == u32::MAX {
                0
            } else {
                old(self).foundation_counter + 1
            }),
            final(self).remote_candidates@ == old(self).remote_candidates@,
            final(self).credentials == old(self).credentials,
            final(self).remote_credentials == old(self).remote_credentials,
            final(self).controlling == old(self).controlling,
            final(self).selected_candidates == old(self).selected_candidates,
    {
        let foundation = self.next_foundation("host");
        let local_pref = IceAgent::local_preference_for_index(index);
        assert((local_pref << 8u32) <= 0xff_ff00) by (bit_vector)
            requires
                local_pref <= 0xffff,
        ;
        let c = IceAgent::gather_host_candidate(foundation, ip, port, local_pref);
        self.add_local_candidate(c);
        assert(self.local_candidates@.drop_last() =~= old(self).local_candidates@);
        index.saturating_add(1)
    }

    /// The local preference of the first host candidate on `ip`:`port`, or 65535.
    fn host_preference(&self, ip: &str, port: u16) -> (p: u32)
        ensures
            p == host_pref(self.local_candidates@, 0, ip@, port),
    {
        let mut k: usize = 0;
        while k < self.local_candidates.len()
            invariant
                k <= self.local_candidates@.len(),
                host_pref(self.local_candidates@, 0, ip@, port) == host_pref(
                    self.local_candidates@,
                    k as int,
                    ip@,
                    port,
                ),
            decreases self.local_candidates@.len() - k,
        {
            let c = &self.local_candidates[k];
            if c.port == port && str_eq(c.ip.as_str(), ip) && str_eq(c.typ.as_str(), "host") {
                return c.local_preference;
            }
            k += 1;
        }
        65535
    }

    /// The STUN server saw the local candidate `local_ip`:`local_port` as
    /// `mapped_ip`:`mapped_port`: a server-reflexive candidate of component 1 over UDP is
    /// added there, related to the local one, with the next "srflx" foundation and the
    /// local preference of the host candidate on that address (65535 without one).
    pub fn add_srflx_candidate(&mut self, local_ip: String, local_port: u16, mapped_ip: String, mapped_port: u16)
        requires
            candidate_priority(
                "srflx"@,
                1,
                host_pref(old(self).local_candidates@, 0, local_ip@, local_port),
            ) <= u32::MAX,
        ensures
            final(self).local_candidates@.len() == old(self).local_candidates@.len() + 1,
            final(self).local_candidates@.drop_last() == old(self).local_candidates@,
            ({
                let c = final(self).local_candidates@.last();
                let lp = host_pref(old(self).local_candidates@, 0, local_ip@, local_port);
                &&& c.foundation@ == "srflx"@ + "-"@ + decimal(final(self).foundation_counter as nat)
                &&& c.component_id == 1
                &&& c.transport@ == uppercase_of("UDP"@)
                &&& c.ip@ == mapped_ip@
                &&& c.port == mapped_port
                &&& c.typ@ == "srflx"@
                &&& opt_string(c.rel_addr) == Some(local_ip@)
                &&& c.rel_port == Some(local_port)
                &&& c.local_preference == lp
                &&& c.priority == candidate_priority("srflx"@, 1, lp)
            }),
            final(self).foundation_counter == (if old(self).foundation_counter == u32::MAX {
                0
            } else {
                old(self).foundation_counter + 1
            }),
            final(self).remote_candidates@ == old(self).remote_candidates@,
            final(self).credentials == old(self).credentials,
            final(self).remote_credentials == old(self).remote_credentials,
            final(self).controlling == old(self).controlling,
            final(self).selected_candidates == old(self).selected_candidates,
    {
        let local_pref = self.host_preference(local_ip.as_str(), local_port);
        let foundation = self.next_foundation("srflx");
        let c = IceCandidate::new(
            IceCandidateParams {
                foundation,
                component_id: 1,
                transport: "UDP",
                ip: mapped_ip,
                port: mapped_port,
                typ: "srflx",
                local_preference: local_pref,
                rel_addr: Some(local_ip),
                rel_port: Some(local_port),
            },
        );
        self.add_local_candidate(c);
        assert(self.local_candidates@.drop_last() =~= old(self).local_candidates@);
    }
}

} // verus!
