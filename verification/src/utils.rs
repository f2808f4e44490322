//! Reading the ICE attributes of a remote session description.
use crate::protocols::ice::{
    copy_candidate, descending, opt_string, pairs_of, sort_by_priority, to_uppercase, uppercase_of,
    CandidatePair, IceAgent, IceCandidate,
};
use crate::ip_text::{ip_text_ok, ip_text_valid};
use crate::text::{
    has_prefix, line_ranges, lines_of, lowercase_of, parse_unsigned, parse_unsigned_range,
    range_starts_with, str_chars, str_eq, string_from_range, to_lowercase, trim_range, trim_ws,
    word_ranges, words_of,
};
use vstd::prelude::*;

verus! {

/// The ICE credentials and candidates found in a session description.
pub struct ParsedSdp {
    pub ice_ufrag: Option<String>,
    pub ice_pwd: Option<String>,
    pub candidates: Vec<IceCandidate>,
}

/// What follows the prefix `p` in `l`.
pub open spec fn after_prefix(l: Seq<char>, p: Seq<char>) -> Seq<char> {
    l.subrange(p.len() as int, l.len() as int)
}

/// Whether the words after `a=candidate:` make a candidate: a foundation, a 32-bit
/// component id, a transport that is UDP in upper case, a 32-bit priority, the text of
/// an IP address and a 16-bit port.
pub open spec fn candidate_words_ok(w: Seq<Seq<char>>) -> bool {
    &&& w.len() >= 6
    &&& parse_unsigned(w[1], 0xffff_ffff) is Some
    &&& parse_unsigned(w[3], 0xffff_ffff) is Some
    &&& parse_unsigned(w[5], 0xffff) is Some
    &&& uppercase_of(w[2]) == "UDP"@
    &&& ip_text_ok(w[4])
}

/// What the first `n` lines give, each trimmed: the last `a=ice-ufrag:` and `a=ice-pwd:`
/// values (trimmed), and the words of each `a=candidate:` line that makes a candidate.
pub open spec fn ice_scan(ls: Seq<Seq<char>>, n: int) -> (
    Option<Seq<char>>,
    Option<Seq<char>>,
    Seq<Seq<Seq<char>>>,
)
    decreases n,
{
    if n <= 0 {
        (None, None, Seq::empty())
    } else {
        let (u, p, c) = ice_scan(ls, n - 1);
        let l = trim_ws(ls[n - 1]);
        if has_prefix(l, "a=ice-ufrag:"@) {
            (Some(trim_ws(after_prefix(l, "a=ice-ufrag:"@))), p, c)
        } else if has_prefix(l, "a=ice-pwd:"@) {
            (u, Some(trim_ws(after_prefix(l, "a=ice-pwd:"@))), c)
        } else if has_prefix(l, "a=candidate:"@) {
            let w = words_of(after_prefix(l, "a=candidate:"@));
            if candidate_words_ok(w) {
                (u, p, c.push(w))
            } else {
                (u, p, c)
            }
        } else {
            (u, p, c)
        }
    }
}

/// Whether `c` is the candidate that the words `w` of a candidate line give: the type is
/// the word after the "typ" keyword, in lower case (empty when missing); it has no related
/// address and a local preference of 0.
pub open spec fn candidate_from_words(c: IceCandidate, w: Seq<Seq<char>>) -> bool {
    &&& c.foundation@ == w[0]
    &&& parse_unsigned(w[1], 0xffff_ffff) == Some(c.component_id as nat)
    &&& c.transport@ == uppercase_of(w[2])
    &&& parse_unsigned(w[3], 0xffff_ffff) == Some(c.priority as nat)
    &&& c.ip@ == w[4]
    &&& parse_unsigned(w[5], 0xffff) == Some(c.port as nat)
    &&& c.typ@ == lowercase_of(
        if w.len() > 7 {
            w[7]
        } else {
            Seq::empty()
        },
    )
    &&& c.rel_addr is None
    &&& c.rel_port is None
    &&& c.local_preference == 0
}

/// The candidate of the candidate line whose words lie at `ws` in `cs`, if the words make
/// one.
fn candidate_of_words(cs: &Vec<char>, ws: &Vec<(usize, usize)>, Ghost(w): Ghost<Seq<Seq<char>>>) -> (r: Option<IceCandidate>)
    requires
        ws@.len() == w.len(),
        forall|k: int|
            0 <= k < ws@.len() ==> (#[trigger] ws@[k]).0 <= ws@[k].1 <= cs@.len() && cs@.subrange(
                ws@[k].0 as int,
                ws@[k].1 as int,
            ) == w[k],
    ensures
        candidate_words_ok(w) <==> r is Some,
        r matches Some(c) ==> candidate_from_words(c, w),
{
    if ws.len() < 6 {
        return None;
    }
    let (f0, f1) = ws[0];
    let (c0, c1) = ws[1];
    let (t0, t1) = ws[2];
    let (p0, p1) = ws[3];
    let (i0, i1) = ws[4];
    let (o0, o1) = ws[5];
    let component = parse_unsigned_range(cs, c0, c1, 0xffff_ffff);
    let priority = parse_unsigned_range(cs, p0, p1, 0xffff_ffff);
    let port = parse_unsigned_range(cs, o0, o1, 0xffff);
    let transport_word = string_from_range(cs, t0, t1);
    let transport = to_uppercase(transport_word.as_str());
    match (component, priority, port) {
        (Some(component_id), Some(prio), Some(port)) => {
            if !str_eq(transport.as_str(), "UDP") {
                return None;
            }
            let ip = string_from_range(cs, i0, i1);
            if !ip_text_valid(ip.as_str()) {
                return None;
            }
            let typ_word = if ws.len() > 7 {
                let (y0, y1) = ws[7];
                string_from_range(cs, y0, y1)
            } else {
                String::new()
            };
            let typ = to_lowercase(typ_word.as_str());
            proof {
                if w.len() <= 7 {
                    assert(typ_word@ =~= Seq::<char>::empty());
                }
            }
            Some(
                IceCandidate {
                    foundation: string_from_range(cs, f0, f1),
                    component_id: component_id as u32,
                    priority: prio as u32,
                    transport,
                    ip,
                    port: port as u16,
                    typ,
                    rel_addr: None,
                    rel_port: None,
                    local_preference: 0,
                },
            )
        },
        _ => None,
    }
}

/// Reads the ICE user fragment, password and candidates of a session description, line by
/// line (see `ice_scan`); a candidate line whose address is not the text of an IP address
/// is left out.
pub fn parse_sdp_ice(text: &str) -> (r: ParsedSdp)
    ensures
        opt_string(r.ice_ufrag) == ice_scan(lines_of(text@), lines_of(text@).len() as int).0,
        opt_string(r.ice_pwd) == ice_scan(lines_of(text@), lines_of(text@).len() as int).1,
        r.candidates@.len() == ice_scan(lines_of(text@), lines_of(text@).len() as int).2.len(),
        forall|i: int|
            0 <= i < r.candidates@.len() ==> candidate_from_words(
                #[trigger] r.candidates@[i],
                ice_scan(lines_of(text@), lines_of(text@).len() as int).2[i],
            ),
{
    let cs = str_chars(text);
    let lines = line_ranges(&cs);
    let ghost ls = lines_of(text@);
    let ufrag_pat = str_chars("a=ice-ufrag:");
    let pwd_pat = str_chars("a=ice-pwd:");
    let cand_pat = str_chars("a=candidate:");
    let mut ice_ufrag: Option<String> = None;
    let mut ice_pwd: Option<String> = None;
    let mut candidates: Vec<IceCandidate> = Vec::new();
    let mut k: usize = 0;
    while k < lines.len()
        invariant
            k <= lines@.len() == ls.len(),
            cs@ == text@,
            ls == lines_of(text@),
            ufrag_pat@ == "a=ice-ufrag:"@,
            pwd_pat@ == "a=ice-pwd:"@,
            cand_pat@ == "a=candidate:"@,
            forall|x: int|
                0 <= x < lines@.len() ==> (#[trigger] lines@[x]).0 <= lines@[x].1 <= cs@.len()
                    && cs@.subrange(lines@[x].0 as int, lines@[x].1 as int) == ls[x],
            opt_string(ice_ufrag) == ice_scan(ls, k as int).0,
            opt_string(ice_pwd) == ice_scan(ls, k as int).1,
            candidates@.len() == ice_scan(ls, k as int).2.len(),
            forall|i: int|
                0 <= i < candidates@.len() ==> candidate_from_words(
                    #[trigger] candidates@[i],
                    ice_scan(ls, k as int).2[i],
                ),
        decreases lines@.len() - k,
    {
        let (a, b) = lines[k];
        let (ta, tb) = trim_range(&cs, a, b);
        let ghost l = trim_ws(ls[k as int]);
        assert(l == cs@.subrange(ta as int, tb as int));
        if range_starts_with(&cs, ta, tb, "a=ice-ufrag:") {
            let s = ta + ufrag_pat.len();
            assert(after_prefix(l, "a=ice-ufrag:"@) =~= cs@.subrange(s as int, tb as int));
            let (x, y) = trim_range(&cs, s, tb);
            ice_ufrag = Some(string_from_range(&cs, x, y));
        } else if range_starts_with(&cs, ta, tb, "a=ice-pwd:") {
            let s = ta + pwd_pat.len();
            assert(after_prefix(l, "a=ice-pwd:"@) =~= cs@.subrange(s as int, tb as int));
            let (x, y) = trim_range(&cs, s, tb);
            ice_pwd = Some(string_from_range(&cs, x, y));
        } else if range_starts_with(&cs, ta, tb, "a=candidate:") {
            let s = ta + cand_pat.len();
            assert(after_prefix(l, "a=candidate:"@) =~= cs@.subrange(s as int, tb as int));
            let ws = word_ranges(&cs, s, tb);
            let ghost w = words_of(cs@.subrange(s as int, tb as int));
            match candidate_of_words(&cs, &ws, Ghost(w)) {
                Some(c) => {
                    candidates.push(c);
                },
                None => {},
            }
        }
        k += 1;
    }
    ParsedSdp { ice_ufrag, ice_pwd, candidates }
}

/// Whether a candidate with address `ip` and port `port` is among `s`.
pub open spec fn has_endpoint(s: Seq<IceCandidate>, ip: Seq<char>, port: u16) -> bool {
    exists|j: int| 0 <= j < s.len() && (#[trigger] s[j]).ip@ == ip && s[j].port == port
}

/// The candidates worth checking, in their order: those of component 1 whose transport is
/// UDP (in upper case), each address and port taken once, at its first appearance.
pub open spec fn check_list(cs: Seq<IceCandidate>) -> Seq<IceCandidate>
    decreases cs.len(),
{
    if cs.len() == 0 {
        Seq::empty()
    } else {
        let prev = check_list(cs.drop_last());
        let c = cs.last();
        if c.component_id == 1 && uppercase_of(c.transport@) == "UDP"@ && !has_endpoint(
            prev,
            c.ip@,
            c.port,
        ) {
            prev.push(c)
        } else {
            prev
        }
    }
}

/// The peer's candidates to check, from those of its description (see `check_list`).
pub fn build_candidates_from_sdp(candidates: &[IceCandidate]) -> (list: Vec<IceCandidate>)
    ensures
        list@ == check_list(candidates@),
{
    let mut list: Vec<IceCandidate> = Vec::new();
    let mut i: usize = 0;
    while i < candidates.len()
        invariant
            i <= candidates@.len(),
            list@ == check_list(candidates@.take(i as int)),
        decreases candidates@.len() - i,
    {
        let c = &candidates[i];
        assert(candidates@.take(i + 1).drop_last() =~= candidates@.take(i as int));
        let mut seen = false;
        let mut j: usize = 0;
        while j < list.len()
            invariant
                j <= list@.len(),
                seen <==> exists|k: int| 0 <= k < j && (#[trigger] list@[k]).ip@ == c.ip@
                    && list@[k].port == c.port,
            decreases list@.len() - j,
        {
            if list[j].port == c.port && str_eq(list[j].ip.as_str(), c.ip.as_str()) {
                seen = true;
            }
            j += 1;
        }
        let upper = to_uppercase(c.transport.as_str());
        if c.component_id == 1 && str_eq(upper.as_str(), "UDP") && !seen {
            list.push(copy_candidate(c));
        }
        i += 1;
    }
    assert(candidates@.take(i as int) =~= candidates@);
    list
}

/// Readies `agent` for checks against the peer: it takes the peer's credentials when the
/// description gives both, and `remote_candidates` as the peer's candidates. Returns the
/// pairs to check, best first; the checks themselves go over the network.
pub fn ice_check_pairs(agent: &mut IceAgent, parsed: &ParsedSdp, remote_candidates: Vec<IceCandidate>) -> (pairs: Vec<CandidatePair>)
    ensures
        match (opt_string(parsed.ice_ufrag), opt_string(parsed.ice_pwd)) {
            (Some(u), Some(p)) => final(agent).remote_credentials matches Some(c) && c.ufrag@ == u
                && c.pwd@ == p,
            _ => final(agent).remote_credentials == old(agent).remote_credentials,
        },
        final(agent).remote_candidates@ == remote_candidates@,
        final(agent).local_candidates@ == old(agent).local_candidates@,
        final(agent).credentials == old(agent).credentials,
        final(agent).controlling == old(agent).controlling,
        final(agent).selected_candidates == old(agent).selected_candidates,
        final(agent).foundation_counter == old(agent).foundation_counter,
        pairs@ == sort_by_priority(
            pairs_of(
                old(agent).controlling,
                old(agent).local_candidates@,
                remote_candidates@,
                old(agent).local_candidates@.len() as int,
            ),
        ),
        descending(pairs@),
{
    match (&parsed.ice_ufrag, &parsed.ice_pwd) {
        (Some(u), Some(p)) => agent.set_remote_credentials(u.clone(), p.clone()),
        _ => {},
    }
    agent.replace_remote_candidates(remote_candidates);
    agent.candidate_pairs()
}

} // verus!
