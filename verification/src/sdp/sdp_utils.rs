//! Reading what the application needs from a session description.
use crate::config::SdpConfig;
use crate::protocols::dtls::DtlsRole;
use crate::protocols::ice::{IceAgent, IceCandidate};
use crate::sdp::sdp_core::{config_media, opt_str, sdp_text, Sdp, SdpSessionParams, SdpView};
use crate::utils::{ice_scan, parse_sdp_ice};
use crate::text::{has_infix, has_prefix, line_ranges, lines_of, parse_unsigned, parse_unsigned_range, range_contains, range_starts_with, str_chars, string_from_range, word_ranges, words_of};
use vstd::prelude::*;

verus! {

/// The address and port of an `a=candidate` line: its fifth and sixth words, when there
/// are at least six and the sixth is a 16-bit number.
pub open spec fn candidate_addr(line: Seq<char>) -> Option<(Seq<char>, u16)> {
    let w = words_of(line);
    if w.len() >= 6 {
        match parse_unsigned(w[5], 65535) {
            Some(p) => Some((w[4], p as u16)),
            None => None,
        }
    } else {
        None
    }
}

/// What has been read of a remote description: whether the current section is the video
/// section, the first video candidate address found, and the first fingerprint found.
pub struct RemoteScan {
    pub in_video: bool,
    pub ip_port: Option<(Seq<char>, u16)>,
    pub fingerprint: Option<Seq<char>>,
}

/// The reading of `lines`, one after the other: the first `a=fingerprint:` line gives the
/// fingerprint; an `m=video` line opens the video section and any other `m=` line closes
/// it; inside it, the first `a=candidate:` line with an address gives the address.
pub open spec fn remote_scan(lines: Seq<Seq<char>>) -> RemoteScan
    decreases lines.len(),
{
    if lines.len() == 0 {
        RemoteScan { in_video: false, ip_port: None, fingerprint: None }
    } else {
        let st = remote_scan(lines.drop_last());
        let line = lines.last();
        let fp = if has_prefix(line, "a=fingerprint:"@) && st.fingerprint is None {
            Some(line.subrange("a=fingerprint:"@.len() as int, line.len() as int))
        } else {
            st.fingerprint
        };
        if has_prefix(line, "m=video"@) {
            RemoteScan { in_video: true, ip_port: st.ip_port, fingerprint: fp }
        } else {
            let iv = if has_prefix(line, "m="@) {
                false
            } else {
                st.in_video
            };
            let ipp = if iv && has_prefix(line, "a=candidate:"@) && st.ip_port is None {
                candidate_addr(line)
            } else {
                st.ip_port
            };
            RemoteScan { in_video: iv, ip_port: ipp, fingerprint: fp }
        }
    }
}

/// The address, port and fingerprint a remote description gives, when it has a video
/// candidate.
pub open spec fn remote_sdp_info(sdp: Seq<char>) -> Option<(Seq<char>, u16, Option<Seq<char>>)> {
    let st = remote_scan(lines_of(sdp));
    match st.ip_port {
        Some((ip, port)) => Some((ip, port, st.fingerprint)),
        None => None,
    }
}

/// An optional string's text.
pub open spec fn opt_string_text(o: Option<String>) -> Option<Seq<char>> {
    match o {
        Some(s) => Some(s@),
        None => None,
    }
}

/// The address and port of the first candidate of the remote video section, and the
/// remote fingerprint if the description has one; `None` without a video candidate.
pub fn parse_remote_sdp(sdp: &str) -> (r: Option<(String, u16, Option<String>)>)
    ensures
        match remote_sdp_info(sdp@) {
            Some((ip, port, fp)) => r matches Some((i, p, f)) && i@ == ip && p == port
                && opt_string_text(f) == fp,
            None => r is None,
        },
{
    let cs = str_chars(sdp);
    let lines = line_ranges(&cs);
    let ghost ls = lines_of(sdp@);
    let mut in_video = false;
    let mut ip_port: Option<(String, u16)> = None;
    let mut fingerprint: Option<String> = None;
    let mut k: usize = 0;
    proof {
        reveal_strlit("a=fingerprint:");
        assert(ls.take(0) =~= Seq::<Seq<char>>::empty());
    }
    while k < lines.len()
        invariant
            k <= lines@.len() == ls.len(),
            cs@ == sdp@,
            ls == lines_of(sdp@),
            "a=fingerprint:"@.len() == 14,
            forall|x: int|
                0 <= x < lines@.len() ==> (#[trigger] lines@[x]).0 <= lines@[x].1 <= cs@.len()
                    && cs@.subrange(lines@[x].0 as int, lines@[x].1 as int) == ls[x],
            remote_scan(ls.take(k as int)).in_video == in_video,
            remote_scan(ls.take(k as int)).ip_port == (match ip_port {
                Some((i, p)) => Some((i@, p)),
                None => None,
            }),
            remote_scan(ls.take(k as int)).fingerprint == opt_string_text(fingerprint),
        decreases lines@.len() - k,
    {
        let (a, b) = lines[k];
        let ghost line = ls[k as int];
        proof {
            let t = ls.take(k + 1);
            assert(t.drop_last() =~= ls.take(k as int));
            assert(t.last() == line);
        }
        if fingerprint.is_none() && range_starts_with(&cs, a, b, "a=fingerprint:") {
            fingerprint = Some(string_from_range(&cs, a + 14, b));
            proof {
                assert(cs@.subrange(a + 14, b as int) =~= line.subrange(14, line.len() as int));
            }
        }
        if range_starts_with(&cs, a, b, "m=video") {
            in_video = true;
        } else {
            if range_starts_with(&cs, a, b, "m=") {
                in_video = false;
            }
            if in_video && ip_port.is_none() && range_starts_with(&cs, a, b, "a=candidate:") {
                let words = word_ranges(&cs, a, b);
                if words.len() >= 6 {
                    let (p0, p1) = words[5];
                    match parse_unsigned_range(&cs, p0, p1, 65535) {
                        Some(port) => {
                            let (i0, i1) = words[4];
                            ip_port = Some((string_from_range(&cs, i0, i1), port as u16));
                        },
                        None => {},
                    }
                }
            }
        }
        k += 1;
    }
    proof {
        assert(ls.take(k as int) =~= ls);
    }
    match ip_port {
        Some((ip, port)) => Some((ip, port, fingerprint)),
        None => None,
    }
}

/// The DTLS role decided by the first line that holds "a=setup:" together with "actpass"
/// (client) or "passive" (server); client when there is none.
pub open spec fn role_from_lines(lines: Seq<Seq<char>>) -> DtlsRole
    decreases lines.len(),
{
    if lines.len() == 0 {
        DtlsRole::Client
    } else {
        let l = lines[0];
        if has_infix(l, "a=setup:"@) && has_infix(l, "actpass"@) {
            DtlsRole::Client
        } else if has_infix(l, "a=setup:"@) && has_infix(l, "passive"@) {
            DtlsRole::Server
        } else {
            role_from_lines(lines.drop_first())
        }
    }
}

/// The DTLS role that the local description's `a=setup` attribute gives: client for
/// "actpass", server for "passive", client by default.
pub fn get_dtls_role(sdp: &str) -> (r: DtlsRole)
    ensures
        r == role_from_lines(lines_of(sdp@)),
{
    let cs = str_chars(sdp);
    let lines = line_ranges(&cs);
    let ghost ls = lines_of(sdp@);
    let mut k: usize = 0;
    proof {
        assert(ls.subrange(0, ls.len() as int) =~= ls);
    }
    while k < lines.len()
        invariant
            k <= lines@.len() == ls.len(),
            cs@ == sdp@,
            ls == lines_of(sdp@),
            forall|x: int|
                0 <= x < lines@.len() ==> (#[trigger] lines@[x]).0 <= lines@[x].1 <= cs@.len()
                    && cs@.subrange(lines@[x].0 as int, lines@[x].1 as int) == ls[x],
            role_from_lines(ls.subrange(k as int, ls.len() as int)) == role_from_lines(ls),
        decreases lines@.len() - k,
    {
        let (a, b) = lines[k];
        let ghost rest = ls.subrange(k as int, ls.len() as int);
        assert(rest[0] == ls[k as int]);
        assert(rest.drop_first() =~= ls.subrange(k + 1, ls.len() as int));
        if range_contains(&cs, a, b, "a=setup:") {
            if range_contains(&cs, a, b, "actpass") {
                return DtlsRole::Client;
            } else if range_contains(&cs, a, b, "passive") {
                return DtlsRole::Server;
            }
        }
        k += 1;
    }
    DtlsRole::Client
}

/// The settings a configuration gives a description.
pub open spec fn config_view(c: SdpConfig) -> SdpView {
    SdpView {
        username: c.username@,
        session_id: c.session_id,
        session_version: c.session_version,
        nettype: c.nettype@,
        addrtype: c.addrtype@,
        media: config_media(c),
    }
}

/// Whether `p` describes a session with these credentials, address, audio and video
/// ports, candidates, ICE-lite flag, fingerprint and setup role.
pub open spec fn session_is(
    p: SdpSessionParams,
    ufrag: Seq<char>,
    pwd: Seq<char>,
    ip: Seq<char>,
    audio_port: u16,
    video_port: u16,
    candidates: Seq<IceCandidate>,
    is_lite: bool,
    fingerprint: Seq<char>,
    setup: Seq<char>,
) -> bool {
    &&& p.ufrag@ == ufrag
    &&& p.pwd@ == pwd
    &&& p.ip_str@ == ip
    &&& p.ports@ == seq![audio_port, video_port]
    &&& p.candidates@ == candidates
    &&& p.is_lite == is_lite
    &&& opt_str(p.fingerprint) == Some(fingerprint)
    &&& opt_str(p.setup) == Some(setup)
}

/// The local offer: a full (not ICE-lite) description of the configured media with the
/// agent's credentials and local candidates, the audio and video ports, the fingerprint
/// and the "actpass" setup role.
pub fn generar_sdp_local<'a>(
    agent: &'a IceAgent,
    ip_str: &'a str,
    audio_port: u16,
    video_port: u16,
    fingerprint: &'a str,
    config: &'a SdpConfig,
) -> (r: Result<String, String>)
    ensures
        r matches Ok(s) && forall|p: SdpSessionParams<'a>|
            #[trigger] session_is(
                p,
                agent.credentials.ufrag@,
                agent.credentials.pwd@,
                ip_str@,
                audio_port,
                video_port,
                agent.local_candidates@,
                false,
                fingerprint@,
                "actpass"@,
            ) ==> s@ == sdp_text(config_view(*config), p),
{
    let ports = [audio_port, video_port];
    let params = SdpSessionParams {
        ufrag: agent.credentials.ufrag.as_str(),
        pwd: agent.credentials.pwd.as_str(),
        ip_str,
        ports: &ports,
        candidates: agent.local_candidates.as_slice(),
        is_lite: false,
        fingerprint: Some(fingerprint),
        setup: Some("actpass"),
    };
    assert(params.ports@ =~= seq![audio_port, video_port]);
    let sdp = Sdp::new(config);
    sdp.build_sdp_with_ice(params)
}

/// The answer to a remote offer: the offer's ICE credentials become the agent's remote
/// ones, and the description is the local one as an ICE-lite answer with the "passive"
/// setup role. Refused, leaving the agent as it is, when the offer lacks the user
/// fragment or the password.
pub fn generar_sdp_answer<'a>(
    remote_sdp: &str,
    agent: &'a mut IceAgent,
    ip_str: &'a str,
    audio_port: u16,
    video_port: u16,
    fingerprint: &'a str,
    config: &'a SdpConfig,
) -> (r: Result<String, String>)
    ensures
        ({
            let scan = ice_scan(lines_of(remote_sdp@), lines_of(remote_sdp@).len() as int);
            match (scan.0, scan.1) {
                (Some(u), Some(pw)) => {
                    &&& final(agent).remote_credentials matches Some(c) && c.ufrag@ == u
                        && c.pwd@ == pw
                    &&& r matches Ok(s) && forall|p: SdpSessionParams<'a>|
                        #[trigger] session_is(
                            p,
                            old(agent).credentials.ufrag@,
                            old(agent).credentials.pwd@,
                            ip_str@,
                            audio_port,
                            video_port,
                            old(agent).local_candidates@,
                            true,
                            fingerprint@,
                            "passive"@,
                        ) ==> s@ == sdp_text(config_view(*config), p)
                },
                _ => {
                    &&& r matches Err(e) && e@
                        == "No se encontraron credenciales ICE en el SDP remoto"@
                    &&& final(agent).remote_credentials == old(agent).remote_credentials
                },
            }
        }),
        final(agent).credentials == old(agent).credentials,
        final(agent).local_candidates@ == old(agent).local_candidates@,
        final(agent).remote_candidates@ == old(agent).remote_candidates@,
        final(agent).controlling == old(agent).controlling,
        final(agent).selected_candidates == old(agent).selected_candidates,
        final(agent).foundation_counter == old(agent).foundation_counter,
{
    let parsed = parse_sdp_ice(remote_sdp);
    let (ru, rp) = match (parsed.ice_ufrag, parsed.ice_pwd) {
        (Some(u), Some(p)) => (u, p),
        _ => {
            return Err(String::from_str("No se encontraron credenciales ICE en el SDP remoto"));
        },
    };
    agent.set_remote_credentials(ru, rp);
    let ports = [audio_port, video_port];
    let params = SdpSessionParams {
        ufrag: agent.credentials.ufrag.as_str(),
        pwd: agent.credentials.pwd.as_str(),
        ip_str,
        ports: &ports,
        candidates: agent.local_candidates.as_slice(),
        is_lite: true,
        fingerprint: Some(fingerprint),
        setup: Some("passive"),
    };
    assert(params.ports@ =~= seq![audio_port, video_port]);
    let sdp = Sdp::new(config);
    sdp.build_sdp_with_ice(params)
}

} // verus!
