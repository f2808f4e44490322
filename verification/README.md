# roomrtc

Verified building blocks of a small WebRTC-style video call system: signaling server
and client protocol, SDP and ICE (STUN), DTLS-style handshake, SRTP, RTP/RTCP with H.264
(FU-A) and Opus payloads, a jitter buffer, data channels and file transfers.

- `src/` is the library, verified with Verus. Each public function states what it
  returns or changes; laws that relate several functions are public proof functions
  (`lemma_*`). Calls into the crates `sha2`, `hkdf`, `aes-gcm`, `rand`, `hex`, `rcgen`
  and `openh264` (decoding) go through small trusted wrappers whose contracts say what
  those crates do.
- `app/` is the signaling server program and the parts that need sockets, files,
  threads, clocks, floating point (among them the H.264 encoder and its colour
  conversion) or the SCTP stack (`sctp-proto`); they call the library for every decision.
- `tests/` runs the library on concrete inputs.
