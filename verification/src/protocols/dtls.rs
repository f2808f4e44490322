//! A simplified DTLS handshake between two peers, which authenticates the peer by the
//! certificate fingerprint announced in SDP and derives the SRTP master secret.
//!
//! Every handshake message is the byte 0x16, a type byte and the message's name in ASCII,
//! followed by its data: the 32 random bytes in the hellos, and in a Certificate message a
//! 16-bit length and the DER certificate (or a zero length and the sender's fingerprint).
use crate::crypto::{hkdf_sha256_32, hkdf_sha256_expand_32, random_bytes, sha256, sha256_of};
use crate::protocols::dtls_utils::{fingerprint_text, format_fingerprint};
use crate::text::{lossy_text, push_str, str_eq, string_from_utf8_lossy, utf8_lossy};
use crate::wire::{be16, get_be16, lemma_be16_roundtrip, push_all, push_be16, read_be16};
use vstd::prelude::*;
use vstd::utf8::{decode_utf8, encode_utf8, valid_utf8};

verus! {

/// A moment of the monotonic clock (`std::time::Instant`), opaque to the proofs.
#[verifier::external_type_specification]
#[verifier::external_body]
pub struct ExInstant(std::time::Instant);

/// The current moment (`Instant::now`).
/// Trusted: nothing is stated of the moment returned.
#[verifier::external_body]
fn instant_now() -> std::time::Instant {
    std::time::Instant::now()
}

/// Whether more than `ms` milliseconds have passed since `t` (`Instant::elapsed` compared
/// with `Duration::from_millis`).
/// Trusted: nothing is stated of the answer, which depends on the clock.
#[verifier::external_body]
fn elapsed_more_than(t: &std::time::Instant, ms: u64) -> bool {
    t.elapsed() > std::time::Duration::from_millis(ms)
}

/// The side of the handshake an agent plays.
#[derive(Debug, Clone, Copy, PartialEq, Eq, Structural)]
pub enum DtlsRole {
    Client,
    Server,
}

/// The progress of a handshake.
#[derive(Debug, Clone, Copy, PartialEq, Eq, Structural)]
pub enum DtlsHandshakeState {
    Start,
    ClientHelloSent,
    ServerHelloReceived,
    ServerCertReceived,
    ServerHelloDoneReceived,
    ClientKeyExchangeSent,
    FinishedSent,
    FinishedReceived,
    Complete,
}

/// The name of a handshake state, as it appears in error messages.
pub open spec fn state_text(s: DtlsHandshakeState) -> Seq<char> {
    match s {
        DtlsHandshakeState::Start => "Start"@,
        DtlsHandshakeState::ClientHelloSent => "ClientHelloSent"@,
        DtlsHandshakeState::ServerHelloReceived => "ServerHelloReceived"@,
        DtlsHandshakeState::ServerCertReceived => "ServerCertReceived"@,
        DtlsHandshakeState::ServerHelloDoneReceived => "ServerHelloDoneReceived"@,
        DtlsHandshakeState::ClientKeyExchangeSent => "ClientKeyExchangeSent"@,
        DtlsHandshakeState::FinishedSent => "FinishedSent"@,
        DtlsHandshakeState::FinishedReceived => "FinishedReceived"@,
        DtlsHandshakeState::Complete => "Complete"@,
    }
}

/// The name of a handshake state.
fn state_name(s: DtlsHandshakeState) -> (r: &'static str)
    ensures
        r@ == state_text(s),
{
    match s {
        DtlsHandshakeState::Start => "Start",
        DtlsHandshakeState::ClientHelloSent => "ClientHelloSent",
        DtlsHandshakeState::ServerHelloReceived => "ServerHelloReceived",
        DtlsHandshakeState::ServerCertReceived => "ServerCertReceived",
        DtlsHandshakeState::ServerHelloDoneReceived => "ServerHelloDoneReceived",
        DtlsHandshakeState::ClientKeyExchangeSent => "ClientKeyExchangeSent",
        DtlsHandshakeState::FinishedSent => "FinishedSent",
        DtlsHandshakeState::FinishedReceived => "FinishedReceived",
        DtlsHandshakeState::Complete => "Complete",
    }
}

/// The ASCII bytes of "ClientHello".
pub open spec fn client_hello_label() -> Seq<u8> {
    seq![0x43u8, 0x6cu8, 0x69u8, 0x65u8, 0x6eu8, 0x74u8, 0x48u8, 0x65u8, 0x6cu8, 0x6cu8, 0x6fu8]
}

/// The ASCII bytes of "ServerHello".
pub open spec fn server_hello_label() -> Seq<u8> {
    seq![0x53u8, 0x65u8, 0x72u8, 0x76u8, 0x65u8, 0x72u8, 0x48u8, 0x65u8, 0x6cu8, 0x6cu8, 0x6fu8]
}

/// The ASCII bytes of "Certificate".
pub open spec fn certificate_label() -> Seq<u8> {
    seq![0x43u8, 0x65u8, 0x72u8, 0x74u8, 0x69u8, 0x66u8, 0x69u8, 0x63u8, 0x61u8, 0x74u8, 0x65u8]
}

/// The ASCII bytes of "ServerHelloDone".
pub open spec fn server_hello_done_label() -> Seq<u8> {
    server_hello_label() + seq![0x44u8, 0x6fu8, 0x6eu8, 0x65u8]
}

/// The ASCII bytes of "ClientKeyExchange".
pub open spec fn client_key_exchange_label() -> Seq<u8> {
    seq![
        0x43u8, 0x6cu8, 0x69u8, 0x65u8, 0x6eu8, 0x74u8, 0x4bu8, 0x65u8, 0x79u8,
        0x45u8, 0x78u8, 0x63u8, 0x68u8, 0x61u8, 0x6eu8, 0x67u8, 0x65u8,
    ]
}

/// The ASCII bytes of "Finished".
pub open spec fn finished_label() -> Seq<u8> {
    seq![0x46u8, 0x69u8, 0x6eu8, 0x69u8, 0x73u8, 0x68u8, 0x65u8, 0x64u8]
}

/// The ASCII bytes of "DTLS_SRTP_MASTER_SECRET", the HKDF info of the master secret.
pub open spec fn master_secret_label() -> Seq<u8> {
    seq![
        0x44u8, 0x54u8, 0x4cu8, 0x53u8, 0x5fu8, 0x53u8, 0x52u8, 0x54u8, 0x50u8, 0x5fu8, 0x4du8,
        0x41u8, 0x53u8, 0x54u8, 0x45u8, 0x52u8, 0x5fu8, 0x53u8, 0x45u8, 0x43u8, 0x52u8, 0x45u8,
        0x54u8,
    ]
}

/// A ClientHello carrying `client_random`.
pub open spec fn client_hello_msg(client_random: Seq<u8>) -> Seq<u8> {
    seq![0x16u8, 0x01u8] + client_hello_label() + client_random
}

/// A ServerHello carrying `server_random`.
pub open spec fn server_hello_msg(server_random: Seq<u8>) -> Seq<u8> {
    seq![0x16u8, 0x02u8] + server_hello_label() + server_random
}

/// The server's Certificate: the certificate with its length (its low 16 bits), or a zero
/// length and the server's fingerprint.
pub open spec fn server_cert_msg(cert: Option<Seq<u8>>, local_fingerprint: Seq<char>) -> Seq<u8> {
    seq![0x16u8, 0x0bu8] + certificate_label() + match cert {
        Some(c) => be16(c.len() as u16) + c,
        None => seq![0u8, 0u8] + encode_utf8(local_fingerprint),
    }
}

/// The client's Certificate: the certificate with its length, or a zero length alone.
pub open spec fn client_cert_msg(cert: Option<Seq<u8>>) -> Seq<u8> {
    seq![0x16u8, 0x0bu8] + certificate_label() + match cert {
        Some(c) => be16(c.len() as u16) + c,
        None => seq![0u8, 0u8],
    }
}

/// A ServerHelloDone.
pub open spec fn server_hello_done_msg() -> Seq<u8> {
    seq![0x16u8, 0x0eu8] + server_hello_done_label()
}

/// A ClientKeyExchange.
pub open spec fn client_key_exchange_msg() -> Seq<u8> {
    seq![0x16u8, 0x10u8] + client_key_exchange_label()
}

/// A Finished.
pub open spec fn finished_msg() -> Seq<u8> {
    seq![0x16u8, 0x14u8] + finished_label()
}

/// One side of a handshake.
pub struct DtlsAgent {
    pub role: DtlsRole,
    pub state: DtlsHandshakeState,
    pub local_fingerprint: String,
    pub remote_fingerprint: Option<String>,
    pub local_certificate: Option<Vec<u8>>,
    pub remote_certificate: Option<Vec<u8>>,
    pub fingerprint_verified: bool,
    pub master_secret: Vec<u8>,
    pub client_random: Vec<u8>,
    pub server_random: Vec<u8>,
    pub last_flight: Option<Vec<u8>>,
    pub last_flight_timestamp: Option<std::time::Instant>,
    pub retransmit_count: u32,
}

/// The text of an optional string.
pub open spec fn opt_text(o: Option<String>) -> Option<Seq<char>> {
    match o {
        Some(s) => Some(s@),
        None => None,
    }
}

/// The bytes of an optional byte vector.
pub open spec fn opt_bytes(o: Option<Vec<u8>>) -> Option<Seq<u8>> {
    match o {
        Some(v) => Some(v@),
        None => None,
    }
}

/// What a handshake message changes in an agent.
pub struct HandshakeView {
    pub state: DtlsHandshakeState,
    pub client_random: Seq<u8>,
    pub server_random: Seq<u8>,
    pub remote_certificate: Option<Seq<u8>>,
    pub fingerprint_verified: bool,
}

/// Whether the fingerprint of certificate `cert` is the expected one (always, when none is
/// expected).
pub open spec fn cert_matches(remote_fingerprint: Option<Seq<char>>, cert: Seq<u8>) -> bool {
    match remote_fingerprint {
        Some(e) => fingerprint_text(sha256_of(cert)) == e,
        None => true,
    }
}

/// The effect of a Certificate message `msg` (from its first byte on): an error when it is
/// shorter than 15 bytes or its certificate is cut short; with a zero length, the rest of
/// the message is the peer's fingerprint and is compared with the expected one; otherwise
/// the certificate is kept and its fingerprint compared. The result is whether the peer was
/// verified.
pub open spec fn cert_check(h: HandshakeView, remote_fingerprint: Option<Seq<char>>, msg: Seq<u8>) -> (
    HandshakeView,
    Result<bool, Seq<char>>,
) {
    if msg.len() < 15 {
        (h, Err("Certificate message too short"@))
    } else {
        let cert_len = get_be16(msg, 13) as int;
        if cert_len == 0 {
            let received = lossy_text(msg.subrange(15, msg.len() as int));
            let ok = match remote_fingerprint {
                Some(e) => received == e,
                None => true,
            };
            (HandshakeView { fingerprint_verified: ok, ..h }, Ok(ok))
        } else if msg.len() < 15 + cert_len {
            (h, Err("Datos del certificado truncados"@))
        } else {
            let cert = msg.subrange(15, 15 + cert_len);
            let ok = cert_matches(remote_fingerprint, cert);
            (HandshakeView { remote_certificate: Some(cert), fingerprint_verified: ok, ..h }, Ok(ok))
        }
    }
}

impl DtlsAgent {
    /// What a handshake message can change in this agent.
    pub open spec fn handshake(self) -> HandshakeView {
        HandshakeView {
            state: self.state,
            client_random: self.client_random@,
            server_random: self.server_random@,
            remote_certificate: opt_bytes(self.remote_certificate),
            fingerprint_verified: self.fingerprint_verified,
        }
    }

    /// Whether only the parts that a handshake message changes differ between the agents.
    pub open spec fn same_setup(self, other: DtlsAgent) -> bool {
        &&& self.role == other.role
        &&& self.local_fingerprint@ == other.local_fingerprint@
        &&& opt_text(self.remote_fingerprint) == opt_text(other.remote_fingerprint)
        &&& opt_bytes(self.local_certificate) == opt_bytes(other.local_certificate)
        &&& self.master_secret@ == other.master_secret@
        &&& opt_bytes(self.last_flight) == opt_bytes(other.last_flight)
        &&& self.last_flight_timestamp == other.last_flight_timestamp
        &&& self.retransmit_count == other.retransmit_count
    }

    /// A fresh agent of the given role.
    fn fresh(
        role: DtlsRole,
        local_fingerprint: String,
        remote_fingerprint: Option<String>,
        client_random: Vec<u8>,
        server_random: Vec<u8>,
    ) -> (a: Self)
        ensures
            a.role == role,
            a.state == DtlsHandshakeState::Start,
            a.local_fingerprint@ == local_fingerprint@,
            opt_text(a.remote_fingerprint) == opt_text(remote_fingerprint),
            a.local_certificate is None,
            a.remote_certificate is None,
            !a.fingerprint_verified,
            a.master_secret@.len() == 0,
            a.client_random@ == client_random@,
            a.server_random@ == server_random@,
            a.last_flight is None,
            a.last_flight_timestamp is None,
            a.retransmit_count == 0,
    {
        DtlsAgent {
            role,
            state: DtlsHandshakeState::Start,
            local_fingerprint,
            remote_fingerprint,
            local_certificate: None,
            remote_certificate: None,
            fingerprint_verified: false,
            master_secret: Vec::new(),
            client_random,
            server_random,
            last_flight: None,
            last_flight_timestamp: None,
            retransmit_count: 0,
        }
    }

    /// A client at the start of the handshake, with 32 fresh random bytes of its own.
    pub fn new_client(local_fingerprint: String, remote_fingerprint: Option<String>) -> (a: Self)
        ensures
            a.role == DtlsRole::Client,
            a.state == DtlsHandshakeState::Start,
            a.local_fingerprint@ == local_fingerprint@,
            opt_text(a.remote_fingerprint) == opt_text(remote_fingerprint),
            a.local_certificate is None,
            a.remote_certificate is None,
            !a.fingerprint_verified,
            a.master_secret@.len() == 0,
            a.client_random@.len() == 32,
            a.server_random@.len() == 0,
            a.last_flight is None,
            a.last_flight_timestamp is None,
            a.retransmit_count == 0,
    {
        let client_random = random_bytes(32);
        Self::fresh(DtlsRole::Client, local_fingerprint, remote_fingerprint, client_random, Vec::new())
    }

    /// A server at the start of the handshake, with 32 fresh random bytes of its own.
    pub fn new_server(local_fingerprint: String, remote_fingerprint: Option<String>) -> (a: Self)
        ensures
            a.role == DtlsRole::Server,
            a.state == DtlsHandshakeState::Start,
            a.local_fingerprint@ == local_fingerprint@,
            opt_text(a.remote_fingerprint) == opt_text(remote_fingerprint),
            a.local_certificate is None,
            a.remote_certificate is None,
            !a.fingerprint_verified,
            a.master_secret@.len() == 0,
            a.client_random@.len() == 0,
            a.server_random@.len() == 32,
            a.last_flight is None,
            a.last_flight_timestamp is None,
            a.retransmit_count == 0,
    {
        let server_random = random_bytes(32);
        Self::fresh(DtlsRole::Server, local_fingerprint, remote_fingerprint, Vec::new(), server_random)
    }

    /// Sets the local certificate (DER).
    pub fn set_local_certificate(&mut self, cert_der: Vec<u8>)
        ensures
            opt_bytes(final(self).local_certificate) == Some(cert_der@),
            final(self).handshake() == old(self).handshake(),
            final(self).role == old(self).role,
            final(self).local_fingerprint@ == old(self).local_fingerprint@,
            opt_text(final(self).remote_fingerprint) == opt_text(old(self).remote_fingerprint),
            final(self).master_secret@ == old(self).master_secret@,
            opt_bytes(final(self).last_flight) == opt_bytes(old(self).last_flight),
            final(self).last_flight_timestamp == old(self).last_flight_timestamp,
            final(self).retransmit_count == old(self).retransmit_count,
    {
        self.local_certificate = Some(cert_der);
    }

    /// The master secret derived so far (empty before derivation).
    pub fn get_master_secret(&self) -> (r: &[u8])
        ensures
            r@ == self.master_secret@,
    {
        self.master_secret.as_slice()
    }

    /// Whether the handshake is complete.
    pub fn is_complete(&self) -> (r: bool)
        ensures
            r == (self.state == DtlsHandshakeState::Complete),
    {
        self.state == DtlsHandshakeState::Complete
    }

    /// Whether the fingerprint of `cert_der` is the expected one.
    fn verify_remote_fingerprint(&self, cert_der: &[u8]) -> (r: bool)
        ensures
            r == cert_matches(opt_text(self.remote_fingerprint), cert_der@),
    {
        let digest = sha256(cert_der);
        let computed = format_fingerprint(&digest);
        match &self.remote_fingerprint {
            Some(expected) => str_eq(computed.as_str(), expected.as_str()),
            None => true,
        }
    }

    /// Reads a Certificate message and checks the peer's fingerprint; see `cert_check`.
    pub fn validate_certificate_message(&mut self, cert_msg: &[u8]) -> (r: Result<bool, String>)
        ensures
            final(self).handshake() == cert_check(
                old(self).handshake(),
                opt_text(old(self).remote_fingerprint),
                cert_msg@,
            ).0,
            match cert_check(old(self).handshake(), opt_text(old(self).remote_fingerprint), cert_msg@).1 {
                Ok(b) => r == Ok::<bool, String>(b),
                Err(e) => r matches Err(s) && s@ == e,
            },
            final(self).same_setup(*old(self)),
    {
        let len = cert_msg.len();
        if len < 15 {
            return Err(String::from_str("Certificate message too short"));
        }
        let cert_len = read_be16(cert_msg, 13) as usize;
        if cert_len == 0 {
            let received = string_from_utf8_lossy(&cert_msg[15..len]);
            let ok = match &self.remote_fingerprint {
                Some(expected) => str_eq(received.as_str(), expected.as_str()),
                None => true,
            };
            self.fingerprint_verified = ok;
            Ok(ok)
        } else {
            if len - 15 < cert_len {
                return Err(String::from_str("Datos del certificado truncados"));
            }
            let mut cert: Vec<u8> = Vec::new();
            push_all(&mut cert, &cert_msg[15..15 + cert_len]);
            let ok = self.verify_remote_fingerprint(cert.as_slice());
            self.remote_certificate = Some(cert);
            self.fingerprint_verified = ok;
            Ok(ok)
        }
    }

    /// Derives the 32-byte master secret: HKDF-SHA256 with a salt of 14 zero bytes, the
    /// client random followed by the server random as input keying material, and
    /// "DTLS_SRTP_MASTER_SECRET" as info. It is refused while the peer is unverified or a
    /// random is missing.
    pub fn compute_master_secret(&mut self) -> (r: Result<Vec<u8>, String>)
        ensures
            r is Ok <==> (old(self).fingerprint_verified && old(self).client_random@.len() > 0
                && old(self).server_random@.len() > 0),
            r matches Ok(m) ==> m@ == hkdf_sha256_32(
                Seq::new(14, |i: int| 0u8),
                old(self).client_random@ + old(self).server_random@,
                master_secret_label(),
            ) && final(self).master_secret@ == m@ && m@.len() == 32,
            r is Err ==> final(self).master_secret@ == old(self).master_secret@,
            final(self).handshake() == old(self).handshake(),
            final(self).role == old(self).role,
            final(self).local_fingerprint@ == old(self).local_fingerprint@,
            opt_text(final(self).remote_fingerprint) == opt_text(old(self).remote_fingerprint),
            opt_bytes(final(self).local_certificate) == opt_bytes(old(self).local_certificate),
            opt_bytes(final(self).last_flight) == opt_bytes(old(self).last_flight),
            final(self).last_flight_timestamp == old(self).last_flight_timestamp,
            final(self).retransmit_count == old(self).retransmit_count,
    {
        if !self.fingerprint_verified {
            let mut e = String::from_str("No se puede derivar master_secret: fingerprint no verificado (local: ");
            push_str(&mut e, self.local_fingerprint.as_str());
            push_str(&mut e, ", remoto: ");
            let shown = debug_option_string(&self.remote_fingerprint);
            push_str(&mut e, shown.as_str());
            push_str(&mut e, ")");
            return Err(e);
        }
        if self.client_random.len() == 0 || self.server_random.len() == 0 {
            return Err(
                String::from_str(
                    "No se pueden derivar claves: client_random o server_random vacíos (handshake incompleto)",
                ),
            );
        }
        let mut seed: Vec<u8> = Vec::new();
        push_all(&mut seed, self.client_random.as_slice());
        push_all(&mut seed, self.server_random.as_slice());
        let salt: [u8; 14] = [0; 14];
        let info: Vec<u8> = vec![
            0x44u8, 0x54u8, 0x4cu8, 0x53u8, 0x5fu8, 0x53u8, 0x52u8, 0x54u8, 0x50u8, 0x5fu8, 0x4du8,
            0x41u8, 0x53u8, 0x54u8, 0x45u8, 0x52u8, 0x5fu8, 0x53u8, 0x45u8, 0x43u8, 0x52u8, 0x45u8,
            0x54u8,
        ];
        assert(salt@ =~= Seq::new(14, |i: int| 0u8));
        assert(info@ =~= master_secret_label());
        let okm = hkdf_sha256_expand_32(&salt, seed.as_slice(), info.as_slice());
        let mut secret: Vec<u8> = Vec::new();
        push_all(&mut secret, &okm);
        let mut copy: Vec<u8> = Vec::new();
        push_all(&mut copy, &okm);
        self.master_secret = copy;
        Ok(secret)
    }

    /// A report of the peer's verification.
    pub fn get_validation_report(&self) -> (r: String)
        ensures
            r@ == (if !self.fingerprint_verified {
                "Fingerprint NOT verified (validation failed or not yet performed)"@
            } else {
                match (opt_text(self.remote_fingerprint), self.remote_certificate) {
                    (Some(e), Some(_)) => "✓ Fingerprint verified: "@ + e,
                    (Some(e), None) => "✓ Fingerprint verified (from message): "@ + e,
                    (None, _) => "Fingerprint verified (no expected fingerprint to check)"@,
                }
            }),
    {
        if !self.fingerprint_verified {
            return String::from_str("Fingerprint NOT verified (validation failed or not yet performed)");
        }
        match (&self.remote_fingerprint, &self.remote_certificate) {
            (Some(expected), Some(_)) => {
                let mut s = String::from_str("✓ Fingerprint verified: ");
                push_str(&mut s, expected.as_str());
                s
            },
            (Some(expected), None) => {
                let mut s = String::from_str("✓ Fingerprint verified (from message): ");
                push_str(&mut s, expected.as_str());
                s
            },
            (None, _) => String::from_str("Fingerprint verified (no expected fingerprint to check)"),
        }
    }
}

/// Where reading resumes after a Certificate message at `pos`: past its header, length
/// field and certificate, or past the header alone when the length field is cut off.
pub open spec fn cert_skip(buf: Seq<u8>, pos: int) -> int {
    if pos + 15 <= buf.len() {
        pos + 15 + get_be16(buf, pos + 13)
    } else {
        pos + 13
    }
}

/// How many bytes are left to read from `pos` on.
pub open spec fn left(buf: Seq<u8>, pos: int) -> int {
    if pos < buf.len() {
        buf.len() - pos
    } else {
        0
    }
}

/// The effect on a client of the server messages in `buf` from `pos` on, read one after
/// the other by their type byte (the second byte): ServerHello (45 bytes, taking the server
/// random when it is all there), Certificate (checked, see `cert_check`), ServerHelloDone
/// (16 bytes); any other byte is skipped. Reading stops when fewer than two bytes are left.
pub open spec fn client_scan(h: HandshakeView, rfp: Option<Seq<char>>, buf: Seq<u8>, pos: int) -> HandshakeView
    decreases left(buf, pos),
{
    if 0 <= pos && pos + 2 <= buf.len() {
        let t = buf[pos + 1];
        if t == 0x02 {
            let h1 = HandshakeView {
                server_random: if pos + 45 <= buf.len() {
                    buf.subrange(pos + 13, pos + 45)
                } else {
                    h.server_random
                },
                state: DtlsHandshakeState::ServerHelloReceived,
                ..h
            };
            client_scan(h1, rfp, buf, pos + 45)
        } else if t == 0x0b {
            let h1 = HandshakeView {
                state: DtlsHandshakeState::ServerCertReceived,
                ..cert_check(h, rfp, buf.subrange(pos, buf.len() as int)).0
            };
            client_scan(h1, rfp, buf, cert_skip(buf, pos))
        } else if t == 0x0e {
            client_scan(HandshakeView { state: DtlsHandshakeState::ServerHelloDoneReceived, ..h }, rfp, buf, pos + 16)
        } else {
            client_scan(h, rfp, buf, pos + 1)
        }
    } else {
        h
    }
}

/// What a client does with a packet, by state: at the start it sends its ClientHello;
/// after it, it reads the server's messages and, once ServerHelloDone is read, sends its
/// Certificate, ClientKeyExchange and Finished; after that, a packet of more than three
/// bytes completes the handshake.
pub open spec fn client_step(
    h: HandshakeView,
    rfp: Option<Seq<char>>,
    local_cert: Option<Seq<u8>>,
    buf: Seq<u8>,
) -> (HandshakeView, Result<Option<Seq<u8>>, Seq<char>>) {
    match h.state {
        DtlsHandshakeState::Start => (
            HandshakeView { state: DtlsHandshakeState::ClientHelloSent, ..h },
            Ok(Some(client_hello_msg(h.client_random))),
        ),
        DtlsHandshakeState::ClientHelloSent => {
            let h1 = client_scan(h, rfp, buf, 0);
            if h1.state == DtlsHandshakeState::ServerHelloDoneReceived {
                (
                    HandshakeView { state: DtlsHandshakeState::FinishedSent, ..h1 },
                    Ok(Some(client_cert_msg(local_cert) + client_key_exchange_msg() + finished_msg())),
                )
            } else if h1.state == DtlsHandshakeState::ServerHelloReceived || h1.state
                == DtlsHandshakeState::ServerCertReceived {
                (h1, Ok(None))
            } else {
                (h1, Err("Expected server messages (ServerHello, Certificate, ServerHelloDone)"@))
            }
        },
        DtlsHandshakeState::ClientKeyExchangeSent => (
            h,
            Err("Unexpected: ClientKeyExchangeSent state reached with packet reception"@),
        ),
        DtlsHandshakeState::FinishedSent => if buf.len() > 3 {
            (HandshakeView { state: DtlsHandshakeState::Complete, ..h }, Ok(None))
        } else {
            (h, Err("Expected Finished"@))
        },
        _ => (h, Err("Invalid state for client: "@ + state_text(h.state))),
    }
}

/// The effect on a server of the client messages in `buf` from `pos` on: Certificate
/// (checked), ClientKeyExchange (17 bytes, noted), Finished (9 bytes, noted); any other
/// byte is skipped. Also returns whether a ClientKeyExchange and a Finished were seen.
pub open spec fn server_scan(
    h: HandshakeView,
    rfp: Option<Seq<char>>,
    buf: Seq<u8>,
    pos: int,
    kx: bool,
    fin: bool,
) -> (HandshakeView, bool, bool)
    decreases left(buf, pos),
{
    if 0 <= pos && pos + 2 <= buf.len() {
        let t = buf[pos + 1];
        if t == 0x0b {
            let h1 = cert_check(h, rfp, buf.subrange(pos, buf.len() as int)).0;
            server_scan(h1, rfp, buf, cert_skip(buf, pos), kx, fin)
        } else if t == 0x10 {
            server_scan(HandshakeView { state: DtlsHandshakeState::ClientKeyExchangeSent, ..h }, rfp, buf, pos + 17, true, fin)
        } else if t == 0x14 {
            server_scan(HandshakeView { state: DtlsHandshakeState::FinishedReceived, ..h }, rfp, buf, pos + 9, kx, true)
        } else {
            server_scan(h, rfp, buf, pos + 1, kx, fin)
        }
    } else {
        (h, kx, fin)
    }
}

/// What a server does with a packet, by state: a ClientHello (more than five bytes, whose
/// client random is taken when all 45 bytes are there) is answered with ServerHello,
/// Certificate and ServerHelloDone; then the client's messages are read, and once both
/// ClientKeyExchange and Finished are seen the server sends Finished and is complete.
pub open spec fn server_step(
    h: HandshakeView,
    rfp: Option<Seq<char>>,
    local_cert: Option<Seq<u8>>,
    local_fingerprint: Seq<char>,
    buf: Seq<u8>,
) -> (HandshakeView, Result<Option<Seq<u8>>, Seq<char>>) {
    match h.state {
        DtlsHandshakeState::Start => if buf.len() > 5 {
            let h1 = HandshakeView {
                client_random: if buf.len() >= 45 {
                    buf.subrange(13, 45)
                } else {
                    h.client_random
                },
                state: DtlsHandshakeState::ClientHelloSent,
                ..h
            };
            (
                h1,
                Ok(
                    Some(
                        server_hello_msg(h1.server_random) + server_cert_msg(local_cert, local_fingerprint)
                            + server_hello_done_msg(),
                    ),
                ),
            )
        } else {
            (h, Err("Expected ClientHello"@))
        },
        DtlsHandshakeState::ClientHelloSent => {
            let (h1, kx, fin) = server_scan(h, rfp, buf, 0, false, false);
            if fin && kx {
                (HandshakeView { state: DtlsHandshakeState::Complete, ..h1 }, Ok(Some(finished_msg())))
            } else if kx {
                (h1, Ok(None))
            } else {
                (h1, Err("Expected ClientKeyExchange and/or Finished"@))
            }
        },
        DtlsHandshakeState::ClientKeyExchangeSent => if buf.len() > 3 {
            (HandshakeView { state: DtlsHandshakeState::Complete, ..h }, Ok(Some(finished_msg())))
        } else {
            (h, Err("Expected Finished"@))
        },
        _ => (h, Err("Invalid state for server: "@ + state_text(h.state))),
    }
}

/// What an agent does with a packet: an empty packet is ignored, except by a client at the
/// start, which then sends its ClientHello.
pub open spec fn dtls_step(a: DtlsAgent, buf: Seq<u8>) -> (HandshakeView, Result<Option<Seq<u8>>, Seq<char>>) {
    if buf.len() == 0 && !(a.role == DtlsRole::Client && a.state == DtlsHandshakeState::Start) {
        (a.handshake(), Ok(None))
    } else {
        match a.role {
            DtlsRole::Client => client_step(a.handshake(), opt_text(a.remote_fingerprint), opt_bytes(a.local_certificate), buf),
            DtlsRole::Server => server_step(
                a.handshake(),
                opt_text(a.remote_fingerprint),
                opt_bytes(a.local_certificate),
                a.local_fingerprint@,
                buf,
            ),
        }
    }
}

impl DtlsAgent {
    /// Appends 0x16, a type byte and a label.
    fn push_header(out: &mut Vec<u8>, t: u8, label: &[u8])
        ensures
            final(out)@ == old(out)@ + seq![0x16u8, t] + label@,
    {
        out.push(0x16);
        out.push(t);
        push_all(out, label);
        assert(out@ =~= old(out)@ + seq![0x16u8, t] + label@);
    }

    fn certificate_label_bytes() -> (v: Vec<u8>)
        ensures
            v@ == certificate_label(),
    {
        let v = vec![0x43u8, 0x65u8, 0x72u8, 0x74u8, 0x69u8, 0x66u8, 0x69u8, 0x63u8, 0x61u8, 0x74u8, 0x65u8];
        assert(v@ =~= certificate_label());
        v
    }

    fn server_hello_label_bytes() -> (v: Vec<u8>)
        ensures
            v@ == server_hello_label(),
    {
        let v = vec![0x53u8, 0x65u8, 0x72u8, 0x76u8, 0x65u8, 0x72u8, 0x48u8, 0x65u8, 0x6cu8, 0x6cu8, 0x6fu8];
        assert(v@ =~= server_hello_label());
        v
    }

    fn build_client_hello(&self) -> (m: Vec<u8>)
        ensures
            m@ == client_hello_msg(self.client_random@),
    {
        let mut m: Vec<u8> = Vec::new();
        let label = vec![0x43u8, 0x6cu8, 0x69u8, 0x65u8, 0x6eu8, 0x74u8, 0x48u8, 0x65u8, 0x6cu8, 0x6cu8, 0x6fu8];
        assert(label@ =~= client_hello_label());
        Self::push_header(&mut m, 0x01, label.as_slice());
        push_all(&mut m, self.client_random.as_slice());
        assert(m@ =~= client_hello_msg(self.client_random@));
        m
    }

    fn build_server_hello(&self) -> (m: Vec<u8>)
        ensures
            m@ == server_hello_msg(self.server_random@),
    {
        let mut m: Vec<u8> = Vec::new();
        let label = Self::server_hello_label_bytes();
        Self::push_header(&mut m, 0x02, label.as_slice());
        push_all(&mut m, self.server_random.as_slice());
        assert(m@ =~= server_hello_msg(self.server_random@));
        m
    }

    fn build_server_cert(&self) -> (m: Vec<u8>)
        ensures
            m@ == server_cert_msg(opt_bytes(self.local_certificate), self.local_fingerprint@),
    {
        let mut m: Vec<u8> = Vec::new();
        let label = Self::certificate_label_bytes();
        Self::push_header(&mut m, 0x0b, label.as_slice());
        match &self.local_certificate {
            Some(cert) => {
                push_be16(&mut m, cert.len() as u16);
                push_all(&mut m, cert.as_slice());
            },
            None => {
                m.push(0);
                m.push(0);
                push_all(&mut m, self.local_fingerprint.as_str().as_bytes());
            },
        }
        assert(m@ =~= server_cert_msg(opt_bytes(self.local_certificate), self.local_fingerprint@));
        m
    }

    fn build_client_certificate(&self) -> (m: Vec<u8>)
        ensures
            m@ == client_cert_msg(opt_bytes(self.local_certificate)),
    {
        let mut m: Vec<u8> = Vec::new();
        let label = Self::certificate_label_bytes();
        Self::push_header(&mut m, 0x0b, label.as_slice());
        match &self.local_certificate {
            Some(cert) => {
                push_be16(&mut m, cert.len() as u16);
                push_all(&mut m, cert.as_slice());
            },
            None => {
                m.push(0);
                m.push(0);
            },
        }
        assert(m@ =~= client_cert_msg(opt_bytes(self.local_certificate)));
        m
    }

    fn build_server_hello_done(&self) -> (m: Vec<u8>)
        ensures
            m@ == server_hello_done_msg(),
    {
        let mut m: Vec<u8> = Vec::new();
        let mut label = Self::server_hello_label_bytes();
        label.push(0x44);
        label.push(0x6f);
        label.push(0x6e);
        label.push(0x65);
        assert(label@ =~= server_hello_done_label());
        Self::push_header(&mut m, 0x0e, label.as_slice());
        m
    }

    fn build_client_key_exchange(&self) -> (m: Vec<u8>)
        ensures
            m@ == client_key_exchange_msg(),
    {
        let mut m: Vec<u8> = Vec::new();
        let label = vec![
            0x43u8, 0x6cu8, 0x69u8, 0x65u8, 0x6eu8, 0x74u8, 0x4bu8, 0x65u8, 0x79u8,
            0x45u8, 0x78u8, 0x63u8, 0x68u8, 0x61u8, 0x6eu8, 0x67u8, 0x65u8,
        ];
        assert(label@ =~= client_key_exchange_label());
        Self::push_header(&mut m, 0x10, label.as_slice());
        m
    }

    fn build_finished(&self) -> (m: Vec<u8>)
        ensures
            m@ == finished_msg(),
    {
        let mut m: Vec<u8> = Vec::new();
        let label = vec![0x46u8, 0x69u8, 0x6eu8, 0x69u8, 0x73u8, 0x68u8, 0x65u8, 0x64u8];
        assert(label@ =~= finished_label());
        Self::push_header(&mut m, 0x14, label.as_slice());
        m
    }

    /// Where reading resumes after a Certificate message at `pos`, stopping at the end.
    fn cert_skip_exec(buf: &[u8], pos: usize) -> (r: usize)
        requires
            pos + 2 <= buf@.len(),
        ensures
            r == (if cert_skip(buf@, pos as int) < buf@.len() {
                cert_skip(buf@, pos as int)
            } else {
                buf@.len() as int
            }),
    {
        let len = buf.len();
        let skip: usize = if len - pos >= 15 {
            15 + read_be16(buf, pos + 13) as usize
        } else {
            13
        };
        if len - pos > skip {
            pos + skip
        } else {
            len
        }
    }

    /// The agent as a client.
    fn process_as_client(&mut self, buf: &[u8]) -> (r: Result<Option<Vec<u8>>, String>)
        requires
            old(self).role == DtlsRole::Client,
        ensures
            final(self).handshake() == client_step(old(self).handshake(), opt_text(old(self).remote_fingerprint), opt_bytes(old(self).local_certificate), buf@).0,
            match client_step(old(self).handshake(), opt_text(old(self).remote_fingerprint), opt_bytes(old(self).local_certificate), buf@).1 {
                Ok(Some(m)) => r matches Ok(Some(v)) && v@ == m,
                Ok(None) => r matches Ok(None),
                Err(e) => r matches Err(s) && s@ == e,
            },
            final(self).same_setup(*old(self)),
    {
        match self.state {
            DtlsHandshakeState::Start => {
                self.state = DtlsHandshakeState::ClientHelloSent;
                let msg = self.build_client_hello();
                Ok(Some(msg))
            },
            DtlsHandshakeState::ClientHelloSent => {
                let len = buf.len();
                let mut pos: usize = 0;
                let ghost h0 = self.handshake();
                let ghost rfp = opt_text(self.remote_fingerprint);
                while pos < len && len - pos >= 2
                    invariant
                        len == buf@.len(),
                        pos <= len,
                        rfp == opt_text(self.remote_fingerprint),
                        client_scan(self.handshake(), rfp, buf@, pos as int) == client_scan(h0, rfp, buf@, 0),
                        self.same_setup(*old(self)),
                        self.role == DtlsRole::Client,
                    decreases len - pos,
                {
                    let t = buf[pos + 1];
                    let ghost hb = self.handshake();
                    let ghost p0 = pos as int;
                    if t == 0x02 {
                        if len - pos >= 45 {
                            let mut sr: Vec<u8> = Vec::new();
                            push_all(&mut sr, &buf[pos + 13..pos + 45]);
                            self.server_random = sr;
                        }
                        self.state = DtlsHandshakeState::ServerHelloReceived;
                        pos = if len - pos > 45 {
                            pos + 45
                        } else {
                            len
                        };
                        proof {
                            assert(client_scan(hb, rfp, buf@, p0) == client_scan(self.handshake(), rfp, buf@, p0 + 45));
                            if p0 + 45 >= len {
                                assert(client_scan(self.handshake(), rfp, buf@, p0 + 45) == self.handshake());
                                assert(client_scan(self.handshake(), rfp, buf@, pos as int) == self.handshake());
                            }
                        }
                    } else if t == 0x0b {
                        let _ = self.validate_certificate_message(&buf[pos..len]);
                        self.state = DtlsHandshakeState::ServerCertReceived;
                        pos = Self::cert_skip_exec(buf, pos);
                        proof {
                            let nx = cert_skip(buf@, p0);
                            assert(client_scan(hb, rfp, buf@, p0) == client_scan(self.handshake(), rfp, buf@, nx));
                            if nx >= len {
                                assert(client_scan(self.handshake(), rfp, buf@, nx) == self.handshake());
                                assert(client_scan(self.handshake(), rfp, buf@, pos as int) == self.handshake());
                            }
                        }
                    } else if t == 0x0e {
                        self.state = DtlsHandshakeState::ServerHelloDoneReceived;
                        pos = if len - pos > 16 {
                            pos + 16
                        } else {
                            len
                        };
                        proof {
                            assert(client_scan(hb, rfp, buf@, p0) == client_scan(self.handshake(), rfp, buf@, p0 + 16));
                            if p0 + 16 >= len {
                                assert(client_scan(self.handshake(), rfp, buf@, p0 + 16) == self.handshake());
                                assert(client_scan(self.handshake(), rfp, buf@, pos as int) == self.handshake());
                            }
                        }
                    } else {
                        pos = pos + 1;
                    }
                }
                assert(client_scan(self.handshake(), rfp, buf@, pos as int) == self.handshake());
                if self.state == DtlsHandshakeState::ServerHelloDoneReceived {
                    let mut response = self.build_client_certificate();
                    let kx = self.build_client_key_exchange();
                    push_all(&mut response, kx.as_slice());
                    let fin = self.build_finished();
                    push_all(&mut response, fin.as_slice());
                    self.state = DtlsHandshakeState::FinishedSent;
                    Ok(Some(response))
                } else if self.state == DtlsHandshakeState::ServerHelloReceived || self.state
                    == DtlsHandshakeState::ServerCertReceived {
                    Ok(None)
                } else {
                    Err(String::from_str("Expected server messages (ServerHello, Certificate, ServerHelloDone)"))
                }
            },
            DtlsHandshakeState::ClientKeyExchangeSent => {
                Err(String::from_str("Unexpected: ClientKeyExchangeSent state reached with packet reception"))
            },
            DtlsHandshakeState::FinishedSent => {
                if buf.len() > 3 {
                    self.state = DtlsHandshakeState::Complete;
                    Ok(None)
                } else {
                    Err(String::from_str("Expected Finished"))
                }
            },
            _ => {
                let mut e = String::from_str("Invalid state for client: ");
                push_str(&mut e, state_name(self.state));
                Err(e)
            },
        }
    }

    /// The agent as a server.
    fn process_as_server(&mut self, buf: &[u8]) -> (r: Result<Option<Vec<u8>>, String>)
        requires
            old(self).role == DtlsRole::Server,
        ensures
            final(self).handshake() == server_step(old(self).handshake(), opt_text(old(self).remote_fingerprint), opt_bytes(old(self).local_certificate), old(self).local_fingerprint@, buf@).0,
            match server_step(old(self).handshake(), opt_text(old(self).remote_fingerprint), opt_bytes(old(self).local_certificate), old(self).local_fingerprint@, buf@).1 {
                Ok(Some(m)) => r matches Ok(Some(v)) && v@ == m,
                Ok(None) => r matches Ok(None),
                Err(e) => r matches Err(s) && s@ == e,
            },
            final(self).same_setup(*old(self)),
    {
        match self.state {
            DtlsHandshakeState::Start => {
                if buf.len() > 5 {
                    if buf.len() >= 45 {
                        let mut cr: Vec<u8> = Vec::new();
                        push_all(&mut cr, &buf[13..45]);
                        self.client_random = cr;
                    }
                    self.state = DtlsHandshakeState::ClientHelloSent;
                    let mut response = self.build_server_hello();
                    let cert = self.build_server_cert();
                    push_all(&mut response, cert.as_slice());
                    let done = self.build_server_hello_done();
                    push_all(&mut response, done.as_slice());
                    Ok(Some(response))
                } else {
                    Err(String::from_str("Expected ClientHello"))
                }
            },
            DtlsHandshakeState::ClientHelloSent => {
                let len = buf.len();
                let mut pos: usize = 0;
                let mut found_key_exchange = false;
                let mut found_finished = false;
                let ghost h0 = self.handshake();
                let ghost rfp = opt_text(self.remote_fingerprint);
                while pos < len && len - pos >= 2
                    invariant
                        len == buf@.len(),
                        pos <= len,
                        rfp == opt_text(self.remote_fingerprint),
                        server_scan(self.handshake(), rfp, buf@, pos as int, found_key_exchange, found_finished)
                            == server_scan(h0, rfp, buf@, 0, false, false),
                        self.same_setup(*old(self)),
                        self.role == DtlsRole::Server,
                    decreases len - pos,
                {
                    let t = buf[pos + 1];
                    let ghost hb = self.handshake();
                    let ghost p0 = pos as int;
                    let ghost kx0 = found_key_exchange;
                    let ghost fin0 = found_finished;
                    if t == 0x0b {
                        let _ = self.validate_certificate_message(&buf[pos..len]);
                        pos = Self::cert_skip_exec(buf, pos);
                        proof {
                            let nx = cert_skip(buf@, p0);
                            assert(server_scan(hb, rfp, buf@, p0, kx0, fin0) == server_scan(self.handshake(), rfp, buf@, nx, kx0, fin0));
                            if nx >= len {
                                assert(server_scan(self.handshake(), rfp, buf@, nx, kx0, fin0) == (self.handshake(), kx0, fin0));
                                assert(server_scan(self.handshake(), rfp, buf@, pos as int, kx0, fin0) == (self.handshake(), kx0, fin0));
                            }
                        }
                    } else if t == 0x10 {
                        found_key_exchange = true;
                        self.state = DtlsHandshakeState::ClientKeyExchangeSent;
                        pos = if len - pos > 17 {
                            pos + 17
                        } else {
                            len
                        };
                        proof {
                            assert(server_scan(hb, rfp, buf@, p0, kx0, fin0) == server_scan(self.handshake(), rfp, buf@, p0 + 17, true, fin0));
                            if p0 + 17 >= len {
                                assert(server_scan(self.handshake(), rfp, buf@, p0 + 17, true, fin0) == (self.handshake(), true, fin0));
                                assert(server_scan(self.handshake(), rfp, buf@, pos as int, true, fin0) == (self.handshake(), true, fin0));
                            }
                        }
                    } else if t == 0x14 {
                        found_finished = true;
                        self.state = DtlsHandshakeState::FinishedReceived;
                        pos = if len - pos > 9 {
                            pos + 9
                        } else {
                            len
                        };
                        proof {
                            assert(server_scan(hb, rfp, buf@, p0, kx0, fin0) == server_scan(self.handshake(), rfp, buf@, p0 + 9, kx0, true));
                            if p0 + 9 >= len {
                                assert(server_scan(self.handshake(), rfp, buf@, p0 + 9, kx0, true) == (self.handshake(), kx0, true));
                                assert(server_scan(self.handshake(), rfp, buf@, pos as int, kx0, true) == (self.handshake(), kx0, true));
                            }
                        }
                    } else {
                        pos = pos + 1;
                    }
                }
                assert(server_scan(self.handshake(), rfp, buf@, pos as int, found_key_exchange, found_finished)
                    == (self.handshake(), found_key_exchange, found_finished));
                if found_finished && found_key_exchange {
                    let finished = self.build_finished();
                    self.state = DtlsHandshakeState::Complete;
                    Ok(Some(finished))
                } else if found_key_exchange {
                    Ok(None)
                } else {
                    Err(String::from_str("Expected ClientKeyExchange and/or Finished"))
                }
            },
            DtlsHandshakeState::ClientKeyExchangeSent => {
                if buf.len() > 3 {
                    self.state = DtlsHandshakeState::FinishedReceived;
                    let finished = self.build_finished();
                    self.state = DtlsHandshakeState::Complete;
                    Ok(Some(finished))
                } else {
                    Err(String::from_str("Expected Finished"))
                }
            },
            _ => {
                let mut e = String::from_str("Invalid state for server: ");
                push_str(&mut e, state_name(self.state));
                Err(e)
            },
        }
    }

    /// Takes a handshake packet (an empty one starts a client) and returns what to send
    /// back, if anything. A reply becomes the flight kept for retransmission, with a fresh
    /// timestamp and no retransmission yet; a packet that needs no reply clears the flight.
    pub fn process_packet(&mut self, buf: &[u8]) -> (r: Result<Option<Vec<u8>>, String>)
        ensures
            final(self).handshake() == dtls_step(*old(self), buf@).0,
            match dtls_step(*old(self), buf@).1 {
                Ok(Some(m)) => r matches Ok(Some(v)) && v@ == m,
                Ok(None) => r matches Ok(None),
                Err(e) => r matches Err(s) && s@ == e,
            },
            final(self).role == old(self).role,
            final(self).local_fingerprint@ == old(self).local_fingerprint@,
            opt_text(final(self).remote_fingerprint) == opt_text(old(self).remote_fingerprint),
            opt_bytes(final(self).local_certificate) == opt_bytes(old(self).local_certificate),
            final(self).master_secret@ == old(self).master_secret@,
            r matches Ok(Some(v)) ==> opt_bytes(final(self).last_flight) == Some(v@)
                && final(self).last_flight_timestamp is Some && final(self).retransmit_count == 0,
            r matches Ok(None) && buf@.len() > 0 ==> final(self).last_flight is None
                && final(self).last_flight_timestamp is None && final(self).retransmit_count == 0,
            (r is Err || (r matches Ok(None) && buf@.len() == 0)) ==> opt_bytes(final(self).last_flight) == opt_bytes(old(self).last_flight)
                && final(self).last_flight_timestamp == old(self).last_flight_timestamp
                && final(self).retransmit_count == old(self).retransmit_count,
    {
        if buf.len() == 0 && !(self.role == DtlsRole::Client && self.state == DtlsHandshakeState::Start) {
            return Ok(None);
        }
        let result = match self.role {
            DtlsRole::Client => self.process_as_client(buf),
            DtlsRole::Server => self.process_as_server(buf),
        };
        match &result {
            Ok(Some(response)) => {
                let mut flight: Vec<u8> = Vec::new();
                push_all(&mut flight, response.as_slice());
                self.last_flight = Some(flight);
                self.last_flight_timestamp = Some(instant_now());
                self.retransmit_count = 0;
            },
            Ok(None) => {
                if buf.len() > 0 {
                    self.last_flight = None;
                    self.last_flight_timestamp = None;
                    self.retransmit_count = 0;
                }
            },
            Err(_) => {},
        }
        result
    }

    /// The retransmission timeout after `count` retransmissions: 500 ms doubled each time,
    /// at most 4000 ms.
    fn retransmit_timeout_ms(count: u32) -> (ms: u64)
        ensures
            ms == (if count >= 3 {
                4000u64
            } else if count == 2 {
                2000u64
            } else if count == 1 {
                1000u64
            } else {
                500u64
            }),
    {
        if count >= 3 {
            4000
        } else if count == 2 {
            2000
        } else if count == 1 {
            1000
        } else {
            500
        }
    }

    /// The last flight again, when it has waited longer than the timeout and fewer than
    /// five retransmissions were made (the count then grows by one and the timestamp is
    /// renewed); nothing once the handshake is complete or no flight is kept.
    pub fn check_retransmission(&mut self) -> (r: Option<Vec<u8>>)
        ensures
            r matches Some(v) ==> old(self).last_flight matches Some(f) && v@ == f@
                && old(self).last_flight_timestamp is Some && old(self).state != DtlsHandshakeState::Complete
                && old(self).retransmit_count < 5 && final(self).retransmit_count == old(self).retransmit_count + 1
                && final(self).last_flight_timestamp is Some,
            r is None ==> final(self).retransmit_count == old(self).retransmit_count
                && final(self).last_flight_timestamp == old(self).last_flight_timestamp,
            (old(self).last_flight is None || old(self).last_flight_timestamp is None
                || old(self).state == DtlsHandshakeState::Complete || old(self).retransmit_count >= 5) ==> r is None,
            final(self).handshake() == old(self).handshake(),
            opt_bytes(final(self).last_flight) == opt_bytes(old(self).last_flight),
            final(self).role == old(self).role,
            final(self).local_fingerprint@ == old(self).local_fingerprint@,
            opt_text(final(self).remote_fingerprint) == opt_text(old(self).remote_fingerprint),
            opt_bytes(final(self).local_certificate) == opt_bytes(old(self).local_certificate),
            final(self).master_secret@ == old(self).master_secret@,
    {
        let expired = match (&self.last_flight, &self.last_flight_timestamp) {
            (Some(_), Some(ts)) => {
                if self.state == DtlsHandshakeState::Complete {
                    return None;
                }
                let timeout = Self::retransmit_timeout_ms(self.retransmit_count);
                elapsed_more_than(ts, timeout)
            },
            _ => {
                return None;
            },
        };
        self.resend_if_expired(expired)
    }

    /// What to do once the clock said whether the last flight's timeout passed
    /// (`expired`): the flight again when it did, a flight and its timestamp are kept, the
    /// handshake is not complete and fewer than five retransmissions were made; the count
    /// then grows by one and the timestamp is renewed. Otherwise nothing changes.
    pub fn resend_if_expired(&mut self, expired: bool) -> (r: Option<Vec<u8>>)
        ensures
            r is Some <==> (expired && old(self).last_flight is Some && old(self).last_flight_timestamp is Some
                && old(self).state != DtlsHandshakeState::Complete && old(self).retransmit_count < 5),
            r matches Some(v) ==> opt_bytes(old(self).last_flight) == Some(v@)
                && final(self).retransmit_count == old(self).retransmit_count + 1
                && final(self).last_flight_timestamp is Some,
            r is None ==> final(self).retransmit_count == old(self).retransmit_count
                && final(self).last_flight_timestamp == old(self).last_flight_timestamp,
            final(self).handshake() == old(self).handshake(),
            opt_bytes(final(self).last_flight) == opt_bytes(old(self).last_flight),
            final(self).role == old(self).role,
            final(self).local_fingerprint@ == old(self).local_fingerprint@,
            opt_text(final(self).remote_fingerprint) == opt_text(old(self).remote_fingerprint),
            opt_bytes(final(self).local_certificate) == opt_bytes(old(self).local_certificate),
            final(self).master_secret@ == old(self).master_secret@,
    {
        if !expired || self.last_flight_timestamp.is_none() || self.state == DtlsHandshakeState::Complete
            || self.retransmit_count >= 5 {
            return None;
        }
        let mut copy: Vec<u8> = Vec::new();
        match &self.last_flight {
            Some(f) => push_all(&mut copy, f.as_slice()),
            None => {
                return None;
            },
        }
        self.retransmit_count = self.retransmit_count + 1;
        self.last_flight_timestamp = Some(instant_now());
        Some(copy)
    }
}

/// How `{:?}` shows an optional string (`Some("...")` with the text escaped, or `None`).
pub uninterp spec fn debug_text_of_option(o: Option<Seq<char>>) -> Seq<char>;

/// The `Debug` text of an optional string (`format!("{:?}", o)`).
/// Trusted: the text is named `debug_text_of_option`; nothing else is stated.
#[verifier::external_body]
fn debug_option_string(o: &Option<String>) -> (s: String)
    ensures
        s@ == debug_text_of_option(opt_text(*o)),
{
    format!("{:?}", o)
}

/// The flight a step sends: its message, or nothing.
pub open spec fn flight(r: Result<Option<Seq<u8>>, Seq<char>>) -> Seq<u8> {
    match r {
        Ok(Some(m)) => m,
        _ => Seq::empty(),
    }
}

/// A client that sent its ClientHello reads the server's flight (ServerHello,
/// Certificate with a certificate, ServerHelloDone): it takes the server random and the
/// certificate, checks its fingerprint, and is ready to answer.
proof fn lemma_client_reads_server_flight(
    h: HandshakeView,
    rfp: Option<Seq<char>>,
    sr: Seq<u8>,
    cert: Seq<u8>,
    fp: Seq<char>,
)
    requires
        sr.len() == 32,
        0 < cert.len() < 0x10000,
    ensures
        client_scan(
            h,
            rfp,
            server_hello_msg(sr) + server_cert_msg(Some(cert), fp) + server_hello_done_msg(),
            0,
        ) == (HandshakeView {
            state: DtlsHandshakeState::ServerHelloDoneReceived,
            server_random: sr,
            remote_certificate: Some(cert),
            fingerprint_verified: cert_matches(rfp, cert),
            ..h
        }),
{
    let n = cert.len() as int;
    let a = server_hello_msg(sr);
    let b = server_cert_msg(Some(cert), fp);
    let c = server_hello_done_msg();
    let buf = a + b + c;
    assert(a.len() == 45);
    assert(b =~= seq![0x16u8, 0x0bu8] + certificate_label() + be16(n as u16) + cert);
    assert(b.len() == 15 + n);
    assert(c.len() == 17);
    assert(buf.len() == 77 + n);
    assert(buf[1] == 0x02u8);
    assert(buf.subrange(13, 45) =~= sr);
    let h1 = HandshakeView { server_random: sr, state: DtlsHandshakeState::ServerHelloReceived, ..h };
    assert(client_scan(h, rfp, buf, 0) == client_scan(h1, rfp, buf, 45));
    assert(buf[46] == 0x0bu8);
    let msg = buf.subrange(45, buf.len() as int);
    assert(msg.subrange(13, 15) =~= be16(n as u16));
    lemma_be16_roundtrip(n as u16, msg, 13);
    assert(buf.subrange(58, 60) =~= be16(n as u16));
    lemma_be16_roundtrip(n as u16, buf, 58);
    assert(msg.subrange(15, 15 + n) =~= cert);
    let h2 = HandshakeView {
        state: DtlsHandshakeState::ServerCertReceived,
        ..cert_check(h1, rfp, msg).0
    };
    assert(cert_skip(buf, 45) == 60 + n);
    assert(client_scan(h1, rfp, buf, 45) == client_scan(h2, rfp, buf, 60 + n));
    assert(buf[61 + n] == 0x0eu8);
    let h3 = HandshakeView { state: DtlsHandshakeState::ServerHelloDoneReceived, ..h2 };
    assert(client_scan(h2, rfp, buf, 60 + n) == client_scan(h3, rfp, buf, 76 + n));
    assert(client_scan(h3, rfp, buf, 76 + n) == h3);
}

/// A server that answered the ClientHello reads the client's flight (Certificate with a
/// certificate, ClientKeyExchange, Finished): it takes the certificate, checks its
/// fingerprint, and sees both the key exchange and the Finished.
proof fn lemma_server_reads_client_flight(h: HandshakeView, rfp: Option<Seq<char>>, cert: Seq<u8>)
    requires
        0 < cert.len() < 0x10000,
    ensures
        server_scan(
            h,
            rfp,
            client_cert_msg(Some(cert)) + client_key_exchange_msg() + finished_msg(),
            0,
            false,
            false,
        ) == (
            HandshakeView {
                state: DtlsHandshakeState::FinishedReceived,
                remote_certificate: Some(cert),
                fingerprint_verified: cert_matches(rfp, cert),
                ..h
            },
            true,
            true,
        ),
{
    let m = cert.len() as int;
    let a = client_cert_msg(Some(cert));
    let b = client_key_exchange_msg();
    let c = finished_msg();
    let buf = a + b + c;
    assert(a =~= seq![0x16u8, 0x0bu8] + certificate_label() + be16(m as u16) + cert);
    assert(a.len() == 15 + m);
    assert(b.len() == 19);
    assert(c.len() == 10);
    assert(buf.len() == 44 + m);
    assert(buf[1] == 0x0bu8);
    assert(buf.subrange(0, buf.len() as int) =~= buf);
    assert(buf.subrange(13, 15) =~= be16(m as u16));
    lemma_be16_roundtrip(m as u16, buf, 13);
    assert(buf.subrange(15, 15 + m) =~= cert);
    let h1 = cert_check(h, rfp, buf.subrange(0, buf.len() as int)).0;
    let q = 15 + m;
    assert(cert_skip(buf, 0) == q);
    assert(server_scan(h, rfp, buf, 0, false, false) == server_scan(h1, rfp, buf, q, false, false));
    assert(buf[q + 1] == 0x10u8);
    let h2 = HandshakeView { state: DtlsHandshakeState::ClientKeyExchangeSent, ..h1 };
    assert(server_scan(h1, rfp, buf, q, false, false) == server_scan(h2, rfp, buf, q + 17, true, false));
    assert(buf[q + 18] == 0x65u8);
    assert(server_scan(h2, rfp, buf, q + 17, true, false) == server_scan(h2, rfp, buf, q + 18, true, false));
    assert(buf[q + 19] == 0x16u8);
    assert(server_scan(h2, rfp, buf, q + 18, true, false) == server_scan(h2, rfp, buf, q + 19, true, false));
    assert(buf[q + 20] == 0x14u8);
    let h3 = HandshakeView { state: DtlsHandshakeState::FinishedReceived, ..h2 };
    assert(server_scan(h2, rfp, buf, q + 19, true, false) == server_scan(h3, rfp, buf, q + 28, true, true));
    assert(server_scan(h3, rfp, buf, q + 28, true, true) == (h3, true, true));
}

/// A client and a server that start fresh, each with a certificate (shorter than 64 KiB)
/// and 32 random bytes, and hand each other every flight the other sends, both complete
/// the handshake with the same two randoms, and so derive the same master secret; each
/// verified the other exactly when the other's certificate has the expected fingerprint
/// (or none was expected).
pub proof fn lemma_dtls_handshake(
    hc: HandshakeView,
    hs: HandshakeView,
    rfp_c: Option<Seq<char>>,
    rfp_s: Option<Seq<char>>,
    cert_c: Seq<u8>,
    cert_s: Seq<u8>,
    fp_s: Seq<char>,
)
    requires
        hc.state == DtlsHandshakeState::Start,
        hs.state == DtlsHandshakeState::Start,
        hc.client_random.len() == 32,
        hs.server_random.len() == 32,
        0 < cert_c.len() < 0x10000,
        0 < cert_s.len() < 0x10000,
    ensures
        ({
            let (hc1, o1) = client_step(hc, rfp_c, Some(cert_c), Seq::empty());
            let (hs1, o2) = server_step(hs, rfp_s, Some(cert_s), fp_s, flight(o1));
            let (hc2, o3) = client_step(hc1, rfp_c, Some(cert_c), flight(o2));
            let (hs2, o4) = server_step(hs1, rfp_s, Some(cert_s), fp_s, flight(o3));
            let (hc3, o5) = client_step(hc2, rfp_c, Some(cert_c), flight(o4));
            &&& o1 is Ok && o2 is Ok && o3 is Ok && o4 is Ok && o5 == Ok::<Option<Seq<u8>>, Seq<char>>(None)
            &&& hs2.state == DtlsHandshakeState::Complete
            &&& hc3.state == DtlsHandshakeState::Complete
            &&& hc3.client_random == hc.client_random && hs2.client_random == hc.client_random
            &&& hc3.server_random == hs.server_random && hs2.server_random == hs.server_random
            &&& hkdf_sha256_32(Seq::new(14, |i: int| 0u8), hc3.client_random + hc3.server_random, master_secret_label())
                == hkdf_sha256_32(Seq::new(14, |i: int| 0u8), hs2.client_random + hs2.server_random, master_secret_label())
            &&& hc3.fingerprint_verified == cert_matches(rfp_c, cert_s)
            &&& hs2.fingerprint_verified == cert_matches(rfp_s, cert_c)
        }),
{
    let (hc1, o1) = client_step(hc, rfp_c, Some(cert_c), Seq::empty());
    let ch = client_hello_msg(hc.client_random);
    assert(flight(o1) == ch);
    assert(ch.len() == 45);
    assert(ch.subrange(13, 45) =~= hc.client_random);
    let (hs1, o2) = server_step(hs, rfp_s, Some(cert_s), fp_s, ch);
    assert(hs1.client_random == hc.client_random);
    assert(hs1.server_random == hs.server_random);
    lemma_client_reads_server_flight(hc1, rfp_c, hs.server_random, cert_s, fp_s);
    let (hc2, o3) = client_step(hc1, rfp_c, Some(cert_c), flight(o2));
    lemma_server_reads_client_flight(hs1, rfp_s, cert_c);
    let (hs2, o4) = server_step(hs1, rfp_s, Some(cert_s), fp_s, flight(o3));
    assert(flight(o4) == finished_msg());
    assert(finished_msg().len() == 10);
}

} // verus!
