//! The text of a session description with ICE credentials and candidates.
use crate::config::{texts, SdpConfig};
use crate::protocols::ice::IceCandidate;
use crate::text::{decimal, push_str, str_eq, str_is_empty, u64_to_decimal};
use vstd::prelude::*;

verus! {

/// One media section's settings.
pub struct MediaView {
    pub media_type: Seq<char>,
    pub protocol: Seq<char>,
    pub codecs: Seq<Seq<char>>,
    pub rtpmaps: Seq<Seq<char>>,
    pub fmtps: Seq<Seq<char>>,
}

/// The settings a description is built from.
pub struct SdpView {
    pub username: Seq<char>,
    pub session_id: u64,
    pub session_version: u64,
    pub nettype: Seq<char>,
    pub addrtype: Seq<char>,
    pub media: Seq<MediaView>,
}

/// The texts of a list of string slices.
pub open spec fn str_texts(v: Seq<&str>) -> Seq<Seq<char>> {
    v.map_values(|s: &str| s@)
}

/// The texts of `v` separated by single spaces.
pub open spec fn join_space(v: Seq<Seq<char>>) -> Seq<char>
    decreases v.len(),
{
    if v.len() == 0 {
        Seq::empty()
    } else if v.len() == 1 {
        v[0]
    } else {
        join_space(v.drop_last()) + " "@ + v.last()
    }
}

/// Whether a candidate belongs in the media section on `port`: a server-reflexive one when
/// its related port is `port`, any other when its own port is.
pub open spec fn candidate_relevant(c: IceCandidate, port: u16) -> bool {
    if c.typ@ == "srflx"@ {
        c.rel_port == Some(port)
    } else {
        c.port == port
    }
}

/// The `a=candidate` line of a candidate.
pub open spec fn candidate_text(c: IceCandidate) -> Seq<char> {
    "a=candidate:"@ + c.foundation@ + " "@ + decimal(c.component_id as nat) + " "@ + c.transport@
        + " "@ + decimal(c.priority as nat) + " "@ + c.ip@ + " "@ + decimal(c.port as nat)
        + " typ "@ + c.typ@ + match (c.rel_addr, c.rel_port) {
        (Some(a), Some(p)) => " raddr "@ + a@ + " rport "@ + decimal(p as nat),
        _ => Seq::empty(),
    } + "\r\n"@
}

/// The candidate lines of the candidates in `cs` that belong on `port`, in order.
pub open spec fn candidates_text(cs: Seq<IceCandidate>, port: u16) -> Seq<char>
    decreases cs.len(),
{
    if cs.len() == 0 {
        Seq::empty()
    } else {
        candidates_text(cs.drop_last(), port) + if candidate_relevant(cs.last(), port) {
            candidate_text(cs.last())
        } else {
            Seq::empty()
        }
    }
}

/// The `a=rtpmap` and `a=fmtp` lines of the first `n` entries, skipping empty ones.
pub open spec fn attr_lines(rtp: Seq<Seq<char>>, fmtp: Seq<Seq<char>>, n: int) -> Seq<char>
    decreases n,
{
    if n <= 0 {
        Seq::empty()
    } else {
        attr_lines(rtp, fmtp, n - 1) + (if rtp[n - 1].len() > 0 {
            "a=rtpmap:"@ + rtp[n - 1] + "\r\n"@
        } else {
            Seq::empty()
        }) + (if fmtp[n - 1].len() > 0 {
            "a=fmtp:"@ + fmtp[n - 1] + "\r\n"@
        } else {
            Seq::empty()
        })
    }
}

/// The smaller of two lengths.
pub open spec fn min_len(a: int, b: int) -> int {
    if a < b {
        a
    } else {
        b
    }
}

/// The media section number `i` on `port`.
pub open spec fn media_text(m: MediaView, i: nat, port: u16, cands: Seq<IceCandidate>) -> Seq<char> {
    media_line(m, port) + attr_lines(m.rtpmaps, m.fmtps, min_len(m.rtpmaps.len() as int, m.fmtps.len() as int))
        + candidates_text(cands, port) + media_tail(i)
}

/// The `m=` line of a media section on `port`.
pub open spec fn media_line(m: MediaView, port: u16) -> Seq<char> {
    "m="@ + m.media_type + " "@ + decimal(port as nat) + " "@ + m.protocol + " "@ + join_space(
        m.codecs,
    ) + "\r\n"@
}

/// The closing lines of media section `i`.
pub open spec fn media_tail(i: nat) -> Seq<char> {
    "a=rtcp-mux"@ + "\r\n"@ + "a=mid:"@ + decimal(i) + "\r\n"@
}

/// The port of media section `i`: the `i`-th given port, or 0 when there is none.
pub open spec fn media_port(ports: Seq<u16>, i: int) -> u16 {
    if i < ports.len() {
        ports[i]
    } else {
        0
    }
}

/// The first `k` media sections.
pub open spec fn media_texts(media: Seq<MediaView>, ports: Seq<u16>, cands: Seq<IceCandidate>, k: int) -> Seq<char>
    decreases k,
{
    if k <= 0 {
        Seq::empty()
    } else {
        media_texts(media, ports, cands, k - 1) + media_text(media[k - 1], (k - 1) as nat, media_port(ports, k - 1), cands)
    }
}

/// An optional text.
pub open spec fn opt_str(o: Option<&str>) -> Option<Seq<char>> {
    match o {
        Some(s) => Some(s@),
        None => None,
    }
}

/// The whole description: version, origin, session name, connection, timing, ICE
/// credentials, `a=ice-lite` when asked for, fingerprint and setup when given, then the
/// media sections.
pub open spec fn sdp_text(s: SdpView, p: SdpSessionParams) -> Seq<char> {
    sdp_head(s, p) + media_texts(s.media, p.ports@, p.candidates@, s.media.len() as int)
}

/// The session-level lines of a description.
pub open spec fn sdp_head(s: SdpView, p: SdpSessionParams) -> Seq<char> {
    sdp_origin(s, p) + sdp_timing(s, p) + sdp_ice(p) + sdp_security(p)
}

/// The version and origin lines.
pub open spec fn sdp_origin(s: SdpView, p: SdpSessionParams) -> Seq<char> {
    "v=0"@ + "\r\n"@ + "o="@ + s.username + " "@ + decimal(s.session_id as nat) + " "@ + decimal(
        s.session_version as nat,
    ) + " "@ + s.nettype + " "@ + s.addrtype + " "@ + p.ip_str@ + "\r\n"@
}

/// The session name, connection and timing lines.
pub open spec fn sdp_timing(s: SdpView, p: SdpSessionParams) -> Seq<char> {
    "s=-"@ + "\r\n"@ + "c="@ + s.nettype + " "@ + s.addrtype + " "@ + p.ip_str@ + "\r\n"@ + "t=0 0"@
        + "\r\n"@
}

/// The ICE credential lines, and `a=ice-lite` when asked for.
pub open spec fn sdp_ice(p: SdpSessionParams) -> Seq<char> {
    "a=ice-ufrag:"@ + p.ufrag@ + "\r\n"@ + "a=ice-pwd:"@ + p.pwd@ + "\r\n"@ + (if p.is_lite {
        "a=ice-lite"@ + "\r\n"@
    } else {
        Seq::empty()
    })
}

/// The fingerprint and setup lines, when given.
pub open spec fn sdp_security(p: SdpSessionParams) -> Seq<char> {
    let f = match opt_str(p.fingerprint) {
        Some(f) => "a=fingerprint:"@ + f + "\r\n"@,
        None => Seq::empty(),
    };
    let x = match opt_str(p.setup) {
        Some(x) => "a=setup:"@ + x + "\r\n"@,
        None => Seq::empty(),
    };
    f + x
}

/// Whether `part` occurs in `text`.
pub open spec fn occurs_in(part: Seq<char>, text: Seq<char>) -> bool {
    exists|a: Seq<char>, b: Seq<char>| text == #[trigger] (a + part + b)
}

proof fn lemma_occurs_extend(part: Seq<char>, text: Seq<char>, pre: Seq<char>, post: Seq<char>)
    requires
        occurs_in(part, text),
    ensures
        occurs_in(part, pre + text + post),
{
    let (a, b) = choose|a: Seq<char>, b: Seq<char>| text == #[trigger] (a + part + b);
    assert(pre + text + post =~= (pre + a) + part + (b + post));
}

/// The `a=candidate` lines of all the candidates `cs`, in order.
pub open spec fn candidate_lines(cs: Seq<IceCandidate>) -> Seq<char>
    decreases cs.len(),
{
    if cs.len() == 0 {
        Seq::empty()
    } else {
        candidate_lines(cs.drop_last()) + candidate_text(cs.last())
    }
}

/// The candidate lines of the media section on `port` are those of exactly the candidates
/// that are server-reflexive with related port `port`, or of another type with their own
/// port `port`, in the order given.
pub proof fn lemma_section_candidates_exact(cs: Seq<IceCandidate>, port: u16)
    ensures
        candidates_text(cs, port) == candidate_lines(
            cs.filter(
                |c: IceCandidate|
                    if c.typ@ == "srflx"@ {
                        c.rel_port == Some(port)
                    } else {
                        c.port == port
                    },
            ),
        ),
    decreases cs.len(),
{
    let f = |c: IceCandidate|
        if c.typ@ == "srflx"@ {
            c.rel_port == Some(port)
        } else {
            c.port == port
        };
    reveal(Seq::filter);
    if cs.len() > 0 {
        lemma_section_candidates_exact(cs.drop_last(), port);
        let sub = cs.drop_last().filter(f);
        assert(cs.filter(f) == if f(cs.last()) {
            sub.push(cs.last())
        } else {
            sub
        });
        if f(cs.last()) {
            assert(sub.push(cs.last()).drop_last() =~= sub);
            assert(candidate_lines(sub.push(cs.last())) == candidate_lines(sub) + candidate_text(cs.last()));
        } else {
            assert(candidates_text(cs, port) =~= candidates_text(cs.drop_last(), port));
        }
    } else {
        assert(cs.filter(f) =~= Seq::<IceCandidate>::empty());
    }
}

proof fn lemma_occurs_trans(x: Seq<char>, y: Seq<char>, z: Seq<char>)
    requires
        occurs_in(x, y),
        occurs_in(y, z),
    ensures
        occurs_in(x, z),
{
    let (a, b) = choose|a: Seq<char>, b: Seq<char>| z == #[trigger] (a + y + b);
    lemma_occurs_extend(x, y, a, b);
}

/// The line of a server-reflexive candidate starts with its foundation and ends with its
/// address, port, type, related address and related port.
proof fn lemma_srflx_line_fields(c: IceCandidate, port: u16)
    requires
        c.typ@ == "srflx"@,
        c.rel_addr is Some,
        c.rel_port == Some(port),
    ensures
        occurs_in("a=candidate:"@ + c.foundation@ + " "@, candidate_text(c)),
        occurs_in(
            " "@ + c.ip@ + " "@ + decimal(c.port as nat) + " typ srflx raddr "@ + c.rel_addr->0@ + " rport "@
                + decimal(port as nat) + "\r\n"@,
            candidate_text(c),
        ),
{
    let a = c.rel_addr->0;
    let line = candidate_text(c);
    let head = "a=candidate:"@ + c.foundation@ + " "@;
    let mid = decimal(c.component_id as nat) + " "@ + c.transport@ + " "@ + decimal(c.priority as nat);
    let tail = " "@ + c.ip@ + " "@ + decimal(c.port as nat) + " typ srflx raddr "@ + a@ + " rport "@
        + decimal(port as nat) + "\r\n"@;
    reveal_strlit(" typ ");
    reveal_strlit("srflx");
    reveal_strlit(" raddr ");
    reveal_strlit(" typ srflx raddr ");
    assert(" typ "@ + "srflx"@ + " raddr "@ =~= " typ srflx raddr "@);
    assert(line =~= head + mid + tail);
    assert(line =~= Seq::<char>::empty() + head + (mid + tail));
    assert(line =~= (head + mid) + tail + Seq::<char>::empty());
}

/// The candidate line of `cs[j]` is among the candidate lines on `port` when `cs[j]` is a
/// server-reflexive candidate whose related port is `port`, or another candidate whose own
/// port is `port`.
proof fn lemma_candidate_line_kept(cs: Seq<IceCandidate>, port: u16, j: int)
    requires
        0 <= j < cs.len(),
        (cs[j].typ@ == "srflx"@ && cs[j].rel_port == Some(port)) || (cs[j].typ@ != "srflx"@
            && cs[j].port == port),
    ensures
        occurs_in(candidate_text(cs[j]), candidates_text(cs, port)),
    decreases cs.len(),
{
    let line = candidate_text(cs[j]);
    let front = cs.drop_last();
    let last = if candidate_relevant(cs.last(), port) {
        candidate_text(cs.last())
    } else {
        Seq::<char>::empty()
    };
    assert(candidates_text(cs, port) == candidates_text(front, port) + last);
    if j == cs.len() - 1 {
        assert(candidates_text(cs, port) =~= candidates_text(front, port) + line + Seq::<char>::empty());
    } else {
        assert(front[j] == cs[j]);
        lemma_candidate_line_kept(front, port, j);
        lemma_occurs_extend(line, candidates_text(front, port), Seq::empty(), last);
        assert(Seq::<char>::empty() + candidates_text(front, port) + last =~= candidates_text(cs, port));
    }
}

/// A server-reflexive candidate whose related port is the port of a media section is
/// announced in that section, by its `a=candidate` line with its related address and port.
pub proof fn lemma_srflx_candidate_announced(m: MediaView, i: nat, port: u16, cands: Seq<IceCandidate>, j: int)
    requires
        0 <= j < cands.len(),
        cands[j].typ@ == "srflx"@,
        cands[j].rel_port == Some(port),
    ensures
        occurs_in(candidate_text(cands[j]), media_text(m, i, port, cands)),
{
    lemma_candidate_line_kept(cands, port, j);
    lemma_occurs_extend(
        candidate_text(cands[j]),
        candidates_text(cands, port),
        media_line(m, port) + attr_lines(m.rtpmaps, m.fmtps, min_len(m.rtpmaps.len() as int, m.fmtps.len() as int)),
        media_tail(i),
    );
}

/// A candidate that is not server-reflexive is announced in the media section on its own
/// port.
pub proof fn lemma_local_candidate_announced(m: MediaView, i: nat, cands: Seq<IceCandidate>, j: int)
    requires
        0 <= j < cands.len(),
        cands[j].typ@ != "srflx"@,
    ensures
        occurs_in(candidate_text(cands[j]), media_text(m, i, cands[j].port, cands)),
{
    let port = cands[j].port;
    lemma_candidate_line_kept(cands, port, j);
    lemma_occurs_extend(
        candidate_text(cands[j]),
        candidates_text(cands, port),
        media_line(m, port) + attr_lines(m.rtpmaps, m.fmtps, min_len(m.rtpmaps.len() as int, m.fmtps.len() as int)),
        media_tail(i),
    );
}

/// Media section `i` (numbered `i`, on the `i`-th port) is part of the first `k` sections.
proof fn lemma_section_kept(media: Seq<MediaView>, ports: Seq<u16>, cands: Seq<IceCandidate>, k: int, i: int)
    requires
        0 <= i < k <= media.len(),
    ensures
        occurs_in(media_text(media[i], i as nat, media_port(ports, i), cands), media_texts(media, ports, cands, k)),
    decreases k,
{
    let sec = media_text(media[i], i as nat, media_port(ports, i), cands);
    let last = media_text(media[k - 1], (k - 1) as nat, media_port(ports, k - 1), cands);
    if i == k - 1 {
        assert(media_texts(media, ports, cands, k) =~= media_texts(media, ports, cands, k - 1) + sec
            + Seq::<char>::empty());
    } else {
        lemma_section_kept(media, ports, cands, k - 1, i);
        lemma_occurs_extend(sec, media_texts(media, ports, cands, k - 1), Seq::empty(), last);
        assert(Seq::<char>::empty() + media_texts(media, ports, cands, k - 1) + last =~= media_texts(
            media,
            ports,
            cands,
            k,
        ));
    }
}

/// The description holds media section `i` on the `i`-th port, so a server-reflexive
/// candidate whose related port is that port is announced in it.
#[verifier::spinoff_prover]
pub proof fn lemma_description_announces_srflx(s: SdpView, p: SdpSessionParams, i: int, j: int)
    requires
        0 <= i < s.media.len(),
        i < p.ports@.len(),
        0 <= j < p.candidates@.len(),
        p.candidates@[j].typ@ == "srflx"@,
        p.candidates@[j].rel_port == Some(p.ports@[i]),
    ensures
        occurs_in(media_text(s.media[i], i as nat, p.ports@[i], p.candidates@), sdp_text(s, p)),
        occurs_in(candidate_text(p.candidates@[j]), media_text(s.media[i], i as nat, p.ports@[i], p.candidates@)),
        p.candidates@[j].rel_addr matches Some(a) ==> occurs_in(
            "a=candidate:"@ + p.candidates@[j].foundation@ + " "@,
            media_text(s.media[i], i as nat, p.ports@[i], p.candidates@),
        ) && occurs_in(
            " "@ + p.candidates@[j].ip@ + " "@ + decimal(p.candidates@[j].port as nat) + " typ srflx raddr "@ + a@
                + " rport "@ + decimal(p.ports@[i] as nat) + "\r\n"@,
            media_text(s.media[i], i as nat, p.ports@[i], p.candidates@),
        ),
{
    lemma_section_kept(s.media, p.ports@, p.candidates@, s.media.len() as int, i);
    let sec = media_text(s.media[i], i as nat, p.ports@[i], p.candidates@);
    lemma_occurs_extend(sec, media_texts(s.media, p.ports@, p.candidates@, s.media.len() as int), sdp_head(s, p), Seq::empty());
    assert(sdp_head(s, p) + media_texts(s.media, p.ports@, p.candidates@, s.media.len() as int) + Seq::<char>::empty()
        =~= sdp_text(s, p));
    lemma_srflx_candidate_announced(s.media[i], i as nat, p.ports@[i], p.candidates@, j);
    let c = p.candidates@[j];
    let sec2 = media_text(s.media[i], i as nat, p.ports@[i], p.candidates@);
    if let Some(a) = c.rel_addr {
        lemma_srflx_line_fields(c, p.ports@[i]);
        let head = "a=candidate:"@ + c.foundation@ + " "@;
        let tail = " "@ + c.ip@ + " "@ + decimal(c.port as nat) + " typ srflx raddr "@ + a@ + " rport "@
            + decimal(p.ports@[i] as nat) + "\r\n"@;
        lemma_occurs_trans(head, candidate_text(c), sec2);
        lemma_occurs_trans(tail, candidate_text(c), sec2);
    }
}

/// A session description builder.
pub struct Sdp<'a> {
    username: &'a str,
    session_id: u64,
    session_version: u64,
    nettype: &'a str,
    addrtype: &'a str,
    media_types: Vec<&'a str>,
    protocols: Vec<&'a str>,
    codecs: Vec<Vec<&'a str>>,
    rtpmaps: Vec<Vec<&'a str>>,
    fmtps: Vec<Vec<&'a str>>,
}

/// What a description is built with.
pub struct SdpSessionParams<'a> {
    pub ufrag: &'a str,
    pub pwd: &'a str,
    pub ip_str: &'a str,
    pub ports: &'a [u16],
    pub candidates: &'a [IceCandidate],
    pub is_lite: bool,
    pub fingerprint: Option<&'a str>,
    pub setup: Option<&'a str>,
}

/// The slices of a list of strings.
fn str_slices<'a>(v: &'a Vec<String>) -> (r: Vec<&'a str>)
    ensures
        str_texts(r@) == texts(v@),
{
    let mut r: Vec<&'a str> = Vec::new();
    let mut i: usize = 0;
    while i < v.len()
        invariant
            i <= v@.len(),
            r@.len() == i,
            str_texts(r@) == texts(v@.take(i as int)),
        decreases v@.len() - i,
    {
        let ghost before = r@;
        r.push(v[i].as_str());
        assert(r@[i as int]@ == v@[i as int]@);
        assert forall|j: int| 0 <= j < i + 1 implies str_texts(r@)[j] == texts(v@.take(i + 1))[j] by {
            if j < i {
                assert(r@[j] == before[j]);
                assert(str_texts(before)[j] == texts(v@.take(i as int))[j]);
            }
        }
        i += 1;
        assert(str_texts(r@) =~= texts(v@.take(i as int)));
    }
    assert(v@.take(i as int) =~= v@);
    r
}

/// The media settings of a configuration: audio, then video.
pub open spec fn config_media(c: SdpConfig) -> Seq<MediaView> {
    seq![
        MediaView {
            media_type: c.audio_type@,
            protocol: c.audio_protocol@,
            codecs: texts(c.audio_codecs@),
            rtpmaps: texts(c.audio_rtpmap@),
            fmtps: texts(c.audio_fmtp@),
        },
        MediaView {
            media_type: c.video_type@,
            protocol: c.video_protocol@,
            codecs: texts(c.video_codecs@),
            rtpmaps: texts(c.video_rtpmap@),
            fmtps: texts(c.video_fmtp@),
        },
    ]
}

impl<'a> Sdp<'a> {
    /// The settings this builder holds.
    pub closed spec fn model(self) -> SdpView {
        SdpView {
            username: self.username@,
            session_id: self.session_id,
            session_version: self.session_version,
            nettype: self.nettype@,
            addrtype: self.addrtype@,
            media: Seq::new(
                self.media_types@.len(),
                |i: int|
                    MediaView {
                        media_type: self.media_types@[i]@,
                        protocol: self.protocols@[i]@,
                        codecs: str_texts(self.codecs@[i]@),
                        rtpmaps: str_texts(self.rtpmaps@[i]@),
                        fmtps: str_texts(self.fmtps@[i]@),
                    },
            ),
        }
    }

    /// Every media section has its protocol, codecs, rtpmaps and fmtps.
    pub closed spec fn wf(self) -> bool {
        &&& self.protocols@.len() == self.media_types@.len()
        &&& self.codecs@.len() == self.media_types@.len()
        &&& self.rtpmaps@.len() == self.media_types@.len()
        &&& self.fmtps@.len() == self.media_types@.len()
    }

    /// A builder with the session settings of `config` and an audio and a video section.
    pub fn new(config: &'a SdpConfig) -> (s: Self)
        ensures
            s.wf(),
            s.model() == (SdpView {
                username: config.username@,
                session_id: config.session_id,
                session_version: config.session_version,
                nettype: config.nettype@,
                addrtype: config.addrtype@,
                media: config_media(*config),
            }),
    {
        let s = Sdp {
            username: config.username.as_str(),
            session_id: config.session_id,
            session_version: config.session_version,
            nettype: config.nettype.as_str(),
            addrtype: config.addrtype.as_str(),
            media_types: vec![config.audio_type.as_str(), config.video_type.as_str()],
            protocols: vec![config.audio_protocol.as_str(), config.video_protocol.as_str()],
            codecs: vec![str_slices(&config.audio_codecs), str_slices(&config.video_codecs)],
            rtpmaps: vec![str_slices(&config.audio_rtpmap), str_slices(&config.video_rtpmap)],
            fmtps: vec![str_slices(&config.audio_fmtp), str_slices(&config.video_fmtp)],
        };
        assert(s.model().media =~= config_media(*config));
        s
    }

    /// Appends the codecs separated by single spaces.
    fn push_joined(out: &mut String, v: &Vec<&str>)
        ensures
            final(out)@ == old(out)@ + join_space(str_texts(v@)),
    {
        let mut i: usize = 0;
        while i < v.len()
            invariant
                i <= v@.len(),
                out@ == old(out)@ + join_space(str_texts(v@.take(i as int))),
            decreases v@.len() - i,
        {
            if i > 0 {
                push_str(out, " ");
            }
            push_str(out, v[i]);
            proof {
                let t = str_texts(v@.take(i + 1));
                assert(t.drop_last() =~= str_texts(v@.take(i as int)));
                assert(t.last() == v@[i as int]@);
                if i == 0 {
                    assert(str_texts(v@.take(0)) =~= Seq::<Seq<char>>::empty());
                }
            }
            i += 1;
            assert(out@ =~= old(out)@ + join_space(str_texts(v@.take(i as int))));
        }
        assert(v@.take(i as int) =~= v@);
    }

    /// Appends the `a=rtpmap` and `a=fmtp` lines.
    fn push_attrs(out: &mut String, rtp: &Vec<&str>, fmtp: &Vec<&str>)
        ensures
            final(out)@ == old(out)@ + attr_lines(
                str_texts(rtp@),
                str_texts(fmtp@),
                min_len(rtp@.len() as int, fmtp@.len() as int),
            ),
    {
        let n = if rtp.len() < fmtp.len() {
            rtp.len()
        } else {
            fmtp.len()
        };
        let mut i: usize = 0;
        while i < n
            invariant
                i <= n <= rtp@.len(),
                n <= fmtp@.len(),
                n == min_len(rtp@.len() as int, fmtp@.len() as int),
                out@ == old(out)@ + attr_lines(str_texts(rtp@), str_texts(fmtp@), i as int),
            decreases n - i,
        {
            let r = rtp[i];
            let f = fmtp[i];
            let ghost before = out@;
            if !str_is_empty(r) {
                push_str(out, "a=rtpmap:");
                push_str(out, r);
                push_str(out, "\r\n");
            }
            let ghost mid = out@;
            if !str_is_empty(f) {
                push_str(out, "a=fmtp:");
                push_str(out, f);
                push_str(out, "\r\n");
            }
            proof {
                let rt = str_texts(rtp@);
                let ft = str_texts(fmtp@);
                assert(rt[i as int] == r@);
                assert(ft[i as int] == f@);
                let add_r = if rt[i as int].len() > 0 {
                    "a=rtpmap:"@ + rt[i as int] + "\r\n"@
                } else {
                    Seq::<char>::empty()
                };
                let add_f = if ft[i as int].len() > 0 {
                    "a=fmtp:"@ + ft[i as int] + "\r\n"@
                } else {
                    Seq::<char>::empty()
                };
                assert(mid =~= before + add_r);
                assert(out@ =~= mid + add_f);
                assert(attr_lines(rt, ft, i + 1) == attr_lines(rt, ft, i as int) + add_r + add_f);
                assert(out@ =~= old(out)@ + attr_lines(rt, ft, i + 1));
            }
            i += 1;
        }
    }

    /// Appends the candidate line of `c`.
    fn push_candidate(out: &mut String, c: &IceCandidate)
        ensures
            final(out)@ == old(out)@ + candidate_text(*c),
    {
        push_str(out, "a=candidate:");
        push_str(out, c.foundation.as_str());
        push_str(out, " ");
        let comp = u64_to_decimal(c.component_id as u64);
        push_str(out, comp.as_str());
        push_str(out, " ");
        push_str(out, c.transport.as_str());
        push_str(out, " ");
        let prio = u64_to_decimal(c.priority as u64);
        push_str(out, prio.as_str());
        push_str(out, " ");
        push_str(out, c.ip.as_str());
        push_str(out, " ");
        let port = u64_to_decimal(c.port as u64);
        push_str(out, port.as_str());
        push_str(out, " typ ");
        push_str(out, c.typ.as_str());
        let ghost before_rel = out@;
        match (&c.rel_addr, &c.rel_port) {
            (Some(a), Some(p)) => {
                push_str(out, " raddr ");
                push_str(out, a.as_str());
                push_str(out, " rport ");
                let rp = u64_to_decimal(*p as u64);
                push_str(out, rp.as_str());
            },
            _ => {},
        }
        push_str(out, "\r\n");
        assert(out@ =~= old(out)@ + candidate_text(*c));
    }

    /// Appends the lines of the candidates that belong on `port`.
    fn push_candidates(out: &mut String, cands: &[IceCandidate], port: u16)
        ensures
            final(out)@ == old(out)@ + candidates_text(cands@, port),
    {
        let mut i: usize = 0;
        while i < cands.len()
            invariant
                i <= cands@.len(),
                out@ == old(out)@ + candidates_text(cands@.take(i as int), port),
            decreases cands@.len() - i,
        {
            let c = &cands[i];
            let relevant = if str_eq(c.typ.as_str(), "srflx") {
                match c.rel_port {
                    Some(p) => p == port,
                    None => false,
                }
            } else {
                c.port == port
            };
            let ghost before = out@;
            if relevant {
                Self::push_candidate(out, c);
            }
            proof {
                let t = cands@.take(i + 1);
                assert(t.drop_last() =~= cands@.take(i as int));
                assert(t.last() == *c);
                assert(relevant == candidate_relevant(*c, port));
            }
            i += 1;
            assert(out@ =~= old(out)@ + candidates_text(cands@.take(i as int), port));
        }
        assert(cands@.take(i as int) =~= cands@);
    }

    /// Appends the version and origin lines.
    fn push_origin(&self, sdp: &mut String, params: &SdpSessionParams)
        ensures
            final(sdp)@ == old(sdp)@ + sdp_origin(self.model(), *params),
    {
        push_str(sdp, "v=0");
        push_str(sdp, "\r\n");
        push_str(sdp, "o=");
        push_str(sdp, self.username);
        push_str(sdp, " ");
        let sid = u64_to_decimal(self.session_id);
        push_str(sdp, sid.as_str());
        push_str(sdp, " ");
        let sver = u64_to_decimal(self.session_version);
        push_str(sdp, sver.as_str());
        push_str(sdp, " ");
        push_str(sdp, self.nettype);
        push_str(sdp, " ");
        push_str(sdp, self.addrtype);
        push_str(sdp, " ");
        push_str(sdp, params.ip_str);
        push_str(sdp, "\r\n");
        assert(sdp@ =~= old(sdp)@ + sdp_origin(self.model(), *params));
    }

    /// Appends the session name, connection and timing lines.
    fn push_timing(&self, sdp: &mut String, params: &SdpSessionParams)
        ensures
            final(sdp)@ == old(sdp)@ + sdp_timing(self.model(), *params),
    {
        push_str(sdp, "s=-");
        push_str(sdp, "\r\n");
        push_str(sdp, "c=");
        push_str(sdp, self.nettype);
        push_str(sdp, " ");
        push_str(sdp, self.addrtype);
        push_str(sdp, " ");
        push_str(sdp, params.ip_str);
        push_str(sdp, "\r\n");
        push_str(sdp, "t=0 0");
        push_str(sdp, "\r\n");
        assert(sdp@ =~= old(sdp)@ + sdp_timing(self.model(), *params));
    }

    /// Appends the ICE lines.
    fn push_ice(sdp: &mut String, params: &SdpSessionParams)
        ensures
            final(sdp)@ == old(sdp)@ + sdp_ice(*params),
    {
        push_str(sdp, "a=ice-ufrag:");
        push_str(sdp, params.ufrag);
        push_str(sdp, "\r\n");
        push_str(sdp, "a=ice-pwd:");
        push_str(sdp, params.pwd);
        push_str(sdp, "\r\n");
        if params.is_lite {
            push_str(sdp, "a=ice-lite");
            push_str(sdp, "\r\n");
        }
        assert(sdp@ =~= old(sdp)@ + sdp_ice(*params));
    }

    /// Appends the fingerprint and setup lines.
    fn push_security(sdp: &mut String, params: &SdpSessionParams)
        ensures
            final(sdp)@ == old(sdp)@ + sdp_security(*params),
    {
        match params.fingerprint {
            Some(fp) => {
                push_str(sdp, "a=fingerprint:");
                push_str(sdp, fp);
                push_str(sdp, "\r\n");
            },
            None => {},
        }
        let ghost mid = sdp@;
        match params.setup {
            Some(x) => {
                push_str(sdp, "a=setup:");
                push_str(sdp, x);
                push_str(sdp, "\r\n");
            },
            None => {},
        }
        assert(sdp@ =~= old(sdp)@ + sdp_security(*params));
    }

    /// Appends the session-level lines.
    fn push_head(&self, sdp: &mut String, params: &SdpSessionParams)
        ensures
            final(sdp)@ == old(sdp)@ + sdp_head(self.model(), *params),
    {
        self.push_origin(sdp, params);
        self.push_timing(sdp, params);
        Self::push_ice(sdp, params);
        Self::push_security(sdp, params);
        assert(sdp@ =~= old(sdp)@ + sdp_head(self.model(), *params));
    }

    /// Appends the `m=` line of media section `i` on `port`.
    fn push_media_line(&self, sdp: &mut String, i: usize, port: u16)
        requires
            self.wf(),
            i < self.media_types@.len(),
        ensures
            final(sdp)@ == old(sdp)@ + media_line(self.model().media[i as int], port),
    {
        push_str(sdp, "m=");
        push_str(sdp, self.media_types[i]);
        push_str(sdp, " ");
        let ps = u64_to_decimal(port as u64);
        push_str(sdp, ps.as_str());
        push_str(sdp, " ");
        push_str(sdp, self.protocols[i]);
        push_str(sdp, " ");
        Self::push_joined(sdp, &self.codecs[i]);
        push_str(sdp, "\r\n");
        assert(sdp@ =~= old(sdp)@ + media_line(self.model().media[i as int], port));
    }

    /// Appends the closing lines of media section `i`.
    fn push_media_tail(sdp: &mut String, i: usize)
        ensures
            final(sdp)@ == old(sdp)@ + media_tail(i as nat),
    {
        push_str(sdp, "a=rtcp-mux");
        push_str(sdp, "\r\n");
        push_str(sdp, "a=mid:");
        let mid = u64_to_decimal(i as u64);
        push_str(sdp, mid.as_str());
        push_str(sdp, "\r\n");
        assert(sdp@ =~= old(sdp)@ + media_tail(i as nat));
    }

    /// Appends media section `i` on `port`.
    fn push_media(&self, sdp: &mut String, i: usize, port: u16, cands: &[IceCandidate])
        requires
            self.wf(),
            i < self.media_types@.len(),
        ensures
            final(sdp)@ == old(sdp)@ + media_text(self.model().media[i as int], i as nat, port, cands@),
    {
        self.push_media_line(sdp, i, port);
        Self::push_attrs(sdp, &self.rtpmaps[i], &self.fmtps[i]);
        Self::push_candidates(sdp, cands, port);
        Self::push_media_tail(sdp, i);
        assert(sdp@ =~= old(sdp)@ + media_text(self.model().media[i as int], i as nat, port, cands@));
    }

    /// The description with the given credentials, address, ports and candidates. The
    /// ports are taken in the order of the media sections; a section without one gets 0.
    pub fn build_sdp_with_ice(&self, params: SdpSessionParams) -> (r: Result<String, String>)
        requires
            self.wf(),
        ensures
            r matches Ok(s) && s@ == sdp_text(self.model(), params),
    {
        let mut sdp = String::new();
        self.push_head(&mut sdp, &params);
        let ghost head = sdp@;
        let ghost m = self.model();
        let count = self.media_types.len();
        let mut i: usize = 0;
        assert(head =~= sdp_head(m, params));
        assert(sdp@ =~= head + media_texts(m.media, params.ports@, params.candidates@, 0));
        while i < count
            invariant
                count == self.media_types@.len(),
                self.wf(),
                m == self.model(),
                i <= count,
                sdp@ == head + media_texts(m.media, params.ports@, params.candidates@, i as int),
            decreases count - i,
        {
            let port: u16 = if i < params.ports.len() {
                params.ports[i]
            } else {
                0
            };
            let ghost before = sdp@;
            self.push_media(&mut sdp, i, port, params.candidates);
            proof {
                assert(port == media_port(params.ports@, i as int));
                assert(sdp@ =~= head + media_texts(m.media, params.ports@, params.candidates@, i + 1));
            }
            i += 1;
        }
        assert(m.media.len() == count);
        Ok(sdp)
    }
}

} // verus!
