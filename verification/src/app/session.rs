//! How a call's media receiver sets up its connection: ICE connectivity checks first,
//! then the DTLS handshake once ICE is complete, and media once both are. The receiver's
//! loop, its socket, its timers and the random transaction ids are the caller's; these
//! functions say what each event changes and what to send.
use crate::protocols::dtls::{
    client_hello_msg, dtls_step, opt_bytes, opt_text, DtlsAgent, DtlsHandshakeState, DtlsRole,
};
use crate::protocols::ice::{
    build_stun_binding_request, build_stun_success_response, opt_string,
    parse_stun_binding_request, parse_stun_success_response, stun_request_bytes,
    stun_request_parse, stun_success_bytes, stun_success_parse,
};
use crate::text::{push_char, push_str, str_eq};
use vstd::prelude::*;

verus! {

/// The progress of the ICE connectivity checks.
#[derive(Debug, Clone, Copy, PartialEq, Eq, Structural)]
pub enum IcePhase {
    NotStarted,
    InProgress,
    Complete,
    Failed,
}

/// The progress of the DTLS handshake.
#[derive(Debug, Clone, Copy, PartialEq, Eq, Structural)]
pub enum DtlsPhase {
    NotStarted,
    InProgress,
    Complete,
}

/// The connectivity check awaiting its answer: its transaction id and how many times it
/// was sent.
#[derive(Debug, Clone, Copy)]
pub struct IceCheck {
    pub txid: [u8; 12],
    pub attempt_count: u32,
}

/// The state of a connection being set up.
pub struct ConnectionState {
    pub ice_phase: IcePhase,
    pub current_check: Option<IceCheck>,
    pub dtls_phase: DtlsPhase,
    pub dtls_role: Option<DtlsRole>,
    pub agent: Option<DtlsAgent>,
    pub local_ufrag: Option<String>,
    pub remote_ufrag: Option<String>,
}

/// What a STUN packet from the peer calls for.
pub enum StunReply {
    /// It answers the pending check: ICE is complete. Media starts when DTLS already is.
    Answered { start_sender: bool },
    /// It is a check of the peer: send it `response`. ICE completes here (`completed`)
    /// when it had not started; media starts then when DTLS already is complete.
    Respond { response: Vec<u8>, completed: bool, start_sender: bool },
    /// It is a check of the peer whose USERNAME is not the one expected: dropped.
    Refused,
    /// Neither.
    Ignored,
}

/// What happened when the check awaiting an answer timed out.
#[derive(Debug, Clone, Copy, PartialEq, Eq, Structural)]
pub enum CheckTimeout {
    /// No check was pending.
    NoCheck,
    /// Send a new check.
    Retry,
    /// ICE failed after five sendings.
    GiveUp,
}

/// What a DTLS packet from the peer led to.
pub struct DtlsProgress {
    /// What to send back, or why the packet was refused.
    pub reply: Result<Option<Vec<u8>>, String>,
    /// When the handshake is complete after the packet: the master secret for SRTP, or
    /// why it could not be derived.
    pub secret: Option<Result<Vec<u8>, String>>,
    /// Whether media sending starts: the secret was derived and ICE is complete.
    pub start_sender: bool,
}

/// The USERNAME of our checks: our fragment, ':', the peer's; none unless both are known.
pub open spec fn check_username(local: Option<Seq<char>>, remote: Option<Seq<char>>) -> Option<Seq<char>> {
    match (local, remote) {
        (Some(l), Some(r)) => Some(l + seq![':'] + r),
        _ => None,
    }
}

/// Whether a check of the peer is let through: its USERNAME must be the peer's fragment,
/// ':', ours, when both fragments and the USERNAME are known.
pub open spec fn check_allowed(local: Option<Seq<char>>, remote: Option<Seq<char>>, user: Option<Seq<char>>) -> bool {
    match (local, remote, user) {
        (Some(l), Some(r), Some(u)) => u == r + seq![':'] + l,
        _ => true,
    }
}

/// Whether the packet answers the pending check.
pub open spec fn answers_check(check: Option<IceCheck>, buf: Seq<u8>) -> bool {
    match check {
        Some(c) => stun_success_parse(buf, c.txid@) is Some,
        None => false,
    }
}

/// The bytes or text of a handshake step's result.
pub open spec fn reply_view(r: Result<Option<Vec<u8>>, String>) -> Result<Option<Seq<u8>>, Seq<char>> {
    match r {
        Ok(Some(v)) => Ok(Some(v@)),
        Ok(None) => Ok(None),
        Err(e) => Err(e@),
    }
}

/// `a`, ':' and `b`.
fn joined(a: &str, b: &str) -> (s: String)
    ensures
        s@ == a@ + seq![':'] + b@,
{
    let mut s = String::new();
    push_str(&mut s, a);
    push_char(&mut s, ':');
    push_str(&mut s, b);
    assert(s@ =~= a@ + seq![':'] + b@);
    s
}

impl ConnectionState {
    /// Nothing started; the DTLS role (from the descriptions) may already be known.
    pub fn new(local_ufrag: Option<String>, remote_ufrag: Option<String>, dtls_role: Option<DtlsRole>) -> (s: Self)
        ensures
            s.ice_phase == IcePhase::NotStarted,
            s.current_check is None,
            s.dtls_phase == DtlsPhase::NotStarted,
            s.dtls_role == dtls_role,
            s.agent is None,
            opt_string(s.local_ufrag) == opt_string(local_ufrag),
            opt_string(s.remote_ufrag) == opt_string(remote_ufrag),
    {
        ConnectionState {
            ice_phase: IcePhase::NotStarted,
            current_check: None,
            dtls_phase: DtlsPhase::NotStarted,
            dtls_role,
            agent: None,
            local_ufrag,
            remote_ufrag,
        }
    }

    /// The peer's address is known: checks begin.
    pub fn initialize_ice(&mut self)
        ensures
            final(self).ice_phase == IcePhase::InProgress,
            final(self).current_check == old(self).current_check,
            final(self).dtls_phase == old(self).dtls_phase,
            final(self).dtls_role == old(self).dtls_role,
            final(self).agent == old(self).agent,
            final(self).local_ufrag == old(self).local_ufrag,
            final(self).remote_ufrag == old(self).remote_ufrag,
    {
        self.ice_phase = IcePhase::InProgress;
    }

    /// Sends a new check with transaction id `txid`: it becomes the pending check, sent
    /// once, and the returned Binding Request carries our USERNAME when both fragments are
    /// known.
    pub fn send_next_ice_check(&mut self, txid: [u8; 12]) -> (req: Vec<u8>)
        ensures
            req@ == stun_request_bytes(
                txid@,
                check_username(opt_string(old(self).local_ufrag), opt_string(old(self).remote_ufrag)),
            ),
            final(self).current_check == Some(IceCheck { txid, attempt_count: 1 }),
            final(self).ice_phase == old(self).ice_phase,
            final(self).dtls_phase == old(self).dtls_phase,
            final(self).dtls_role == old(self).dtls_role,
            final(self).agent == old(self).agent,
            final(self).local_ufrag == old(self).local_ufrag,
            final(self).remote_ufrag == old(self).remote_ufrag,
    {
        let req = match (&self.local_ufrag, &self.remote_ufrag) {
            (Some(l), Some(r)) => {
                let name = joined(l.as_str(), r.as_str());
                build_stun_binding_request(&txid, Some(name.as_str()))
            },
            _ => build_stun_binding_request(&txid, None),
        };
        self.current_check = Some(IceCheck { txid, attempt_count: 1 });
        req
    }

    /// A check could not be sent (the peer's address is not valid, or sending failed):
    /// ICE has failed.
    pub fn fail_ice(&mut self)
        ensures
            final(self).ice_phase == IcePhase::Failed,
            final(self).current_check == old(self).current_check,
            final(self).dtls_phase == old(self).dtls_phase,
            final(self).dtls_role == old(self).dtls_role,
            final(self).agent == old(self).agent,
            final(self).local_ufrag == old(self).local_ufrag,
            final(self).remote_ufrag == old(self).remote_ufrag,
    {
        self.ice_phase = IcePhase::Failed;
    }

    /// The pending check got no answer in time: it is sent again while it was sent fewer
    /// than five times; otherwise ICE fails and the check is dropped.
    pub fn check_ice_timeouts(&mut self) -> (r: CheckTimeout)
        ensures
            r == (match old(self).current_check {
                None => CheckTimeout::NoCheck,
                Some(c) => if c.attempt_count < 5 {
                    CheckTimeout::Retry
                } else {
                    CheckTimeout::GiveUp
                },
            }),
            r == CheckTimeout::GiveUp ==> final(self).ice_phase == IcePhase::Failed
                && final(self).current_check is None,
            r != CheckTimeout::GiveUp ==> final(self).ice_phase == old(self).ice_phase
                && final(self).current_check == old(self).current_check,
            final(self).dtls_phase == old(self).dtls_phase,
            final(self).dtls_role == old(self).dtls_role,
            final(self).agent == old(self).agent,
            final(self).local_ufrag == old(self).local_ufrag,
            final(self).remote_ufrag == old(self).remote_ufrag,
    {
        match self.current_check {
            None => CheckTimeout::NoCheck,
            Some(c) => {
                if c.attempt_count < 5 {
                    CheckTimeout::Retry
                } else {
                    self.ice_phase = IcePhase::Failed;
                    self.current_check = None;
                    CheckTimeout::GiveUp
                }
            },
        }
    }

    /// A STUN packet from the peer at `src_ip`:`src_port`. An answer to the pending check
    /// completes ICE and clears the check. A check of the peer with the expected USERNAME
    /// is answered with a Binding Success carrying the peer's address, and completes ICE
    /// when it had not started. Media starts with ICE when DTLS is already complete.
    pub fn handle_stun(&mut self, buf: &[u8], src_ip: [u8; 4], src_port: u16) -> (r: StunReply)
        ensures
            final(self).dtls_phase == old(self).dtls_phase,
            final(self).dtls_role == old(self).dtls_role,
            final(self).agent == old(self).agent,
            final(self).local_ufrag == old(self).local_ufrag,
            final(self).remote_ufrag == old(self).remote_ufrag,
            (r matches StunReply::Answered { start_sender } && start_sender) || (r matches StunReply::Respond {
                start_sender,
                ..
            } && start_sender) ==> final(self).ice_phase == IcePhase::Complete && final(self).dtls_phase
                == DtlsPhase::Complete,
            ({
                let dtls_done = old(self).dtls_phase == DtlsPhase::Complete && old(self).agent is Some;
                if answers_check(old(self).current_check, buf@) {
                    &&& r matches StunReply::Answered { start_sender } && start_sender == dtls_done
                    &&& final(self).ice_phase == IcePhase::Complete
                    &&& final(self).current_check is None
                } else {
                    &&& final(self).current_check == old(self).current_check
                    &&& match stun_request_parse(buf@) {
                        Some((txid, user)) => if check_allowed(
                            opt_string(old(self).local_ufrag),
                            opt_string(old(self).remote_ufrag),
                            user,
                        ) {
                            let completes = old(self).ice_phase == IcePhase::NotStarted;
                            &&& r matches StunReply::Respond { response, completed, start_sender }
                                && response@ == stun_success_bytes(txid, src_ip@, src_port)
                                && completed == completes && start_sender == (completes && dtls_done)
                            &&& final(self).ice_phase == (if completes {
                                IcePhase::Complete
                            } else {
                                old(self).ice_phase
                            })
                        } else {
                            r is Refused && final(self).ice_phase == old(self).ice_phase
                        },
                        None => r is Ignored && final(self).ice_phase == old(self).ice_phase,
                    }
                }
            }),
    {
        let answered = match &self.current_check {
            Some(check) => parse_stun_success_response(buf, &check.txid).is_some(),
            None => false,
        };
        let dtls_done = self.dtls_phase == DtlsPhase::Complete && self.agent.is_some();
        if answered {
            self.ice_phase = IcePhase::Complete;
            self.current_check = None;
            return StunReply::Answered { start_sender: dtls_done };
        }
        match parse_stun_binding_request(buf) {
            Some(req) => {
                let allowed = match (&self.local_ufrag, &self.remote_ufrag, &req.username) {
                    (Some(l), Some(rm), Some(u)) => {
                        let expected = joined(rm.as_str(), l.as_str());
                        str_eq(u.as_str(), expected.as_str())
                    },
                    _ => true,
                };
                if allowed {
                    let response = build_stun_success_response(&req.txid, src_ip, src_port);
                    let completes = self.ice_phase == IcePhase::NotStarted;
                    if completes {
                        self.ice_phase = IcePhase::Complete;
                    }
                    StunReply::Respond { response, completed: completes, start_sender: completes && dtls_done }
                } else {
                    StunReply::Refused
                }
            },
            None => StunReply::Ignored,
        }
    }

    /// The role in which the handshake is to start now: ICE is complete, DTLS has not
    /// started, and the role is known.
    pub fn dtls_due(&self) -> (r: Option<DtlsRole>)
        ensures
            r == (if self.ice_phase == IcePhase::Complete && self.dtls_phase == DtlsPhase::NotStarted {
                self.dtls_role
            } else {
                None
            }),
    {
        if self.ice_phase == IcePhase::Complete && self.dtls_phase == DtlsPhase::NotStarted {
            self.dtls_role
        } else {
            None
        }
    }

    /// Starts the handshake in `role` with a fresh agent, which gets the local certificate
    /// when it is not empty. A client sends its ClientHello at once: that is the result; a
    /// server waits.
    pub fn initialize_dtls(
        &mut self,
        role: DtlsRole,
        local_fingerprint: String,
        remote_fingerprint: Option<String>,
        local_certificate: Vec<u8>,
    ) -> (r: Result<Option<Vec<u8>>, String>)
        ensures
            final(self).dtls_phase == DtlsPhase::InProgress,
            final(self).agent matches Some(a) && {
                &&& a.role == role
                &&& a.local_fingerprint@ == local_fingerprint@
                &&& opt_text(a.remote_fingerprint) == opt_text(remote_fingerprint)
                &&& opt_bytes(a.local_certificate) == (if local_certificate@.len() > 0 {
                    Some(local_certificate@)
                } else {
                    None
                })
                &&& a.remote_certificate is None
                &&& !a.fingerprint_verified
                &&& a.master_secret@.len() == 0
                &&& role == DtlsRole::Client ==> {
                    &&& a.state == DtlsHandshakeState::ClientHelloSent
                    &&& a.client_random@.len() == 32
                    &&& a.server_random@.len() == 0
                    &&& r matches Ok(Some(hello)) && hello@ == client_hello_msg(a.client_random@)
                }
                &&& role == DtlsRole::Server ==> {
                    &&& a.state == DtlsHandshakeState::Start
                    &&& a.client_random@.len() == 0
                    &&& a.server_random@.len() == 32
                    &&& r matches Ok(None)
                }
            },
            final(self).ice_phase == old(self).ice_phase,
            final(self).current_check == old(self).current_check,
            final(self).dtls_role == old(self).dtls_role,
            final(self).local_ufrag == old(self).local_ufrag,
            final(self).remote_ufrag == old(self).remote_ufrag,
    {
        let mut agent = match role {
            DtlsRole::Client => DtlsAgent::new_client(local_fingerprint, remote_fingerprint),
            DtlsRole::Server => DtlsAgent::new_server(local_fingerprint, remote_fingerprint),
        };
        if local_certificate.len() > 0 {
            agent.set_local_certificate(local_certificate);
        }
        let hello = match role {
            DtlsRole::Client => agent.process_packet(&[]),
            DtlsRole::Server => Ok(None),
        };
        self.agent = Some(agent);
        self.dtls_phase = DtlsPhase::InProgress;
        hello
    }

    /// A DTLS packet from the peer, while the handshake is in progress: the agent takes it
    /// and says what to send back. When the handshake is then complete, DTLS is complete
    /// and the master secret is derived; media starts when it was and ICE is complete.
    /// Without an agent nothing happens.
    pub fn handle_dtls(&mut self, buf: &[u8]) -> (r: Option<DtlsProgress>)
        ensures
            old(self).agent is None <==> r is None,
            r matches Some(p) && p.start_sender ==> final(self).ice_phase == IcePhase::Complete
                && final(self).dtls_phase == DtlsPhase::Complete,
            old(self).agent is None ==> final(self).agent is None && final(self).dtls_phase
                == old(self).dtls_phase,
            old(self).agent matches Some(a0) ==> {
                let step = dtls_step(a0, buf@);
                &&& r matches Some(p) && final(self).agent matches Some(a) && {
                    &&& reply_view(p.reply) == step.1
                    &&& a.handshake().state == step.0.state
                    &&& a.role == a0.role
                    &&& a.local_fingerprint@ == a0.local_fingerprint@
                    &&& opt_text(a.remote_fingerprint) == opt_text(a0.remote_fingerprint)
                    &&& opt_bytes(a.local_certificate) == opt_bytes(a0.local_certificate)
                    &&& if step.0.state == DtlsHandshakeState::Complete {
                        let derivable = step.0.fingerprint_verified && step.0.client_random.len() > 0
                            && step.0.server_random.len() > 0;
                        &&& final(self).dtls_phase == DtlsPhase::Complete
                        &&& p.secret matches Some(s) && (s is Ok <==> derivable)
                        &&& p.secret matches Some(Ok(m)) ==> m@ == a.master_secret@
                        &&& p.start_sender == (derivable && old(self).ice_phase == IcePhase::Complete)
                    } else {
                        &&& final(self).dtls_phase == old(self).dtls_phase
                        &&& p.secret is None
                        &&& !p.start_sender
                    }
                }
            },
            final(self).ice_phase == old(self).ice_phase,
            final(self).current_check == old(self).current_check,
            final(self).dtls_role == old(self).dtls_role,
            final(self).local_ufrag == old(self).local_ufrag,
            final(self).remote_ufrag == old(self).remote_ufrag,
    {
        match self.agent.take() {
            None => None,
            Some(mut agent) => {
                let reply = agent.process_packet(buf);
                let mut secret = None;
                let mut start_sender = false;
                if agent.is_complete() {
                    self.dtls_phase = DtlsPhase::Complete;
                    let s = agent.compute_master_secret();
                    start_sender = s.is_ok() && self.ice_phase == IcePhase::Complete;
                    secret = Some(s);
                }
                self.agent = Some(agent);
                Some(DtlsProgress { reply, secret, start_sender })
            },
        }
    }
}

} // verus!
