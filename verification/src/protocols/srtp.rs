//! Payload protection for RTP: the payload is sealed with AES-128-GCM while the RTP header
//! stays in clear, so that packets can still be routed and ordered.
//!
//! The key is the first 16 bytes of SHA-256("SRTP" || master secret || "encryption_key"),
//! and the nonce of a packet is its sequence number (big-endian) followed by ten zero bytes.
use crate::crypto::{aes128_gcm_decrypt, aes128_gcm_encrypt, aes128_gcm_open, aes128_gcm_seal, sha256, sha256_of, AES_GCM_P_MAX};
use crate::wire::{be16, push_all};
use vstd::prelude::*;

verus! {

/// The bytes of the text "SRTP".
pub open spec fn srtp_label() -> Seq<u8> {
    seq![0x53u8, 0x52u8, 0x54u8, 0x50u8]
}

/// The bytes of the text "encryption_key".
pub open spec fn srtp_key_label() -> Seq<u8> {
    seq![
        0x65u8, 0x6Eu8, 0x63u8, 0x72u8, 0x79u8, 0x70u8, 0x74u8,
        0x69u8, 0x6Fu8, 0x6Eu8, 0x5Fu8, 0x6Bu8, 0x65u8, 0x79u8,
    ]
}

/// The AES-128 key derived from a master secret.
pub open spec fn srtp_key_of(master_secret: Seq<u8>) -> Seq<u8> {
    sha256_of(srtp_label() + master_secret + srtp_key_label()).subrange(0, 16)
}

/// The nonce of the packet with sequence number `seq`.
pub open spec fn srtp_nonce(seq: u16) -> Seq<u8> {
    be16(seq) + Seq::new(10, |i: int| 0u8)
}

/// The key state of one protected RTP stream.
#[derive(Clone, Copy)]
pub struct SrtpContext {
    key: [u8; 16],
}

impl SrtpContext {
    /// The AES-128 key of this context.
    pub closed spec fn key(self) -> Seq<u8> {
        self.key@
    }

    /// A context whose key is derived from `master_secret`.
    pub fn new(master_secret: &[u8]) -> (c: Self)
        ensures
            c.key() == srtp_key_of(master_secret@),
    {
        SrtpContext { key: Self::derive_key(master_secret) }
    }

    /// The first 16 bytes of SHA-256("SRTP" || master secret || "encryption_key").
    fn derive_key(master_secret: &[u8]) -> (key: [u8; 16])
        ensures
            key@ == srtp_key_of(master_secret@),
    {
        let mut input: Vec<u8> = vec![0x53u8, 0x52u8, 0x54u8, 0x50u8];
        push_all(&mut input, master_secret);
        let label: Vec<u8> = vec![
            0x65u8, 0x6Eu8, 0x63u8, 0x72u8, 0x79u8, 0x70u8, 0x74u8,
            0x69u8, 0x6Fu8, 0x6Eu8, 0x5Fu8, 0x6Bu8, 0x65u8, 0x79u8,
        ];
        push_all(&mut input, label.as_slice());
        assert(input@ =~= srtp_label() + master_secret@ + srtp_key_label());
        let digest = sha256(input.as_slice());
        let mut key = [0u8; 16];
        let mut i: usize = 0;
        while i < 16
            invariant
                digest@ == sha256_of(input@),
                i <= 16,
                forall|j: int| 0 <= j < i ==> key@[j] == digest@[j],
            decreases 16 - i,
        {
            key[i] = digest[i];
            i += 1;
        }
        assert(key@ =~= digest@.subrange(0, 16));
        key
    }

    /// The nonce of the packet with sequence number `seq`.
    fn generate_nonce(seq: u16) -> (n: [u8; 12])
        ensures
            n@ == srtp_nonce(seq),
    {
        let n: [u8; 12] = [(seq >> 8) as u8, seq as u8, 0, 0, 0, 0, 0, 0, 0, 0, 0, 0];
        assert(n@ =~= srtp_nonce(seq));
        n
    }

    /// Seals `payload` of the packet with sequence number `seq`: the ciphertext followed by
    /// the 16-byte authentication tag. Decrypting the result with the same sequence number
    /// gives `payload` back.
    pub fn encrypt_payload(&self, payload: &[u8], seq: u16) -> (c: Vec<u8>)
        requires
            payload@.len() <= AES_GCM_P_MAX,
        ensures
            c@ == aes128_gcm_seal(self.key(), srtp_nonce(seq), payload@),
            c@.len() == payload@.len() + 16,
            aes128_gcm_open(self.key(), srtp_nonce(seq), c@) == Some(payload@),
    {
        let nonce = Self::generate_nonce(seq);
        aes128_gcm_encrypt(&self.key, &nonce, payload)
    }

    /// Opens a sealed payload of the packet with sequence number `seq`; an error when the
    /// authentication tag does not verify.
    pub fn decrypt_payload(&self, ciphertext: &[u8], seq: u16) -> (r: Result<Vec<u8>, String>)
        ensures
            r is Ok <==> aes128_gcm_open(self.key(), srtp_nonce(seq), ciphertext@) is Some,
            r matches Ok(p) ==> aes128_gcm_open(self.key(), srtp_nonce(seq), ciphertext@) == Some(
                p@,
            ),
    {
        let nonce = Self::generate_nonce(seq);
        match aes128_gcm_decrypt(&self.key, &nonce, ciphertext) {
            Some(p) => Ok(p),
            None => Err(String::from_str("Decryption failed: aead::Error")),
        }
    }
}

/// Protects an RTP packet: its 12-byte header stays in clear and its payload is sealed
/// with the sequence number `seq`; a packet shorter than a header goes out as it is.
pub fn encrypt_rtp_packet(rtp_packet: &[u8], seq: u16, srtp: &SrtpContext) -> (r: Vec<u8>)
    requires
        rtp_packet@.len() <= 12 + AES_GCM_P_MAX,
    ensures
        rtp_packet@.len() < 12 ==> r@ == rtp_packet@,
        rtp_packet@.len() >= 12 ==> r@ == rtp_packet@.take(12) + aes128_gcm_seal(
            srtp.key(),
            srtp_nonce(seq),
            rtp_packet@.skip(12),
        ),
{
    if rtp_packet.len() < 12 {
        let mut same: Vec<u8> = Vec::new();
        push_all(&mut same, rtp_packet);
        assert(same@ =~= rtp_packet@);
        return same;
    }
    let header = &rtp_packet[0..12];
    let payload = &rtp_packet[12..rtp_packet.len()];
    assert(payload@ =~= rtp_packet@.skip(12));
    let encrypted = srtp.encrypt_payload(payload, seq);
    let mut result: Vec<u8> = Vec::new();
    push_all(&mut result, header);
    assert(result@ =~= rtp_packet@.take(12));
    push_all(&mut result, encrypted.as_slice());
    result
}

/// The payload of a received packet in clear: opened with the stream's SRTP context when
/// there is one (none when it does not authenticate), and as it came otherwise.
pub fn decrypt_rtp_payload(srtp: Option<&SrtpContext>, encrypted_payload: &[u8], seq: u16) -> (r: Option<Vec<u8>>)
    ensures
        srtp is None ==> (r matches Some(p) && p@ == encrypted_payload@),
        srtp matches Some(c) ==> match aes128_gcm_open(c.key(), srtp_nonce(seq), encrypted_payload@) {
            Some(p) => r matches Some(q) && q@ == p,
            None => r is None,
        },
{
    match srtp {
        Some(c) => match c.decrypt_payload(encrypted_payload, seq) {
            Ok(p) => Some(p),
            Err(_) => None,
        },
        None => {
            let mut same: Vec<u8> = Vec::new();
            push_all(&mut same, encrypted_payload);
            assert(same@ =~= encrypted_payload@);
            Some(same)
        },
    }
}

} // verus!
