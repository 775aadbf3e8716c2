//! The SOCKS5 client handshake, as framing rules and a state machine.
//!
//! The destination is always sent as a domain name, so the proxy on the
//! other side resolves it. The host owns the socket: it dials, sends the
//! bytes [`Socks5Session::step`] hands out, reads the exact counts asked
//! for, and feeds the bytes back as events. Every byte of every frame, and
//! every transition of the handshake, is stated here.

use vstd::prelude::*;
use vstd::string::StringSliceAdditionalSpecFns;

use crate::ip::IpAddr;

verus! {

/// Where the chained SOCKS5 proxy listens.
#[derive(Debug, Clone, Copy, PartialEq, Eq, Structural)]
pub struct SocketAddress {
    pub ip: IpAddr,
    pub port: u16,
}

/// The chained proxy: its address and optional credentials.
#[derive(Debug, Clone)]
pub struct Socks5Config {
    pub addr: SocketAddress,
    pub username: Option<String>,
    pub password: Option<String>,
}

/// Everything that can end the handshake early.
#[derive(Debug, Clone, Copy, PartialEq, Eq, Structural)]
pub enum Socks5Error {
    /// The proxy could not be reached.
    Dial,
    /// A read or write on the proxy connection did not finish in time.
    Timeout,
    /// A read or write on the proxy connection failed or came up short.
    Truncated,
    /// A reply did not carry protocol version five.
    BadVersion,
    /// The proxy would not take the one offered authentication method.
    AuthMethodUnsupported,
    /// A credential is longer than its one-byte length field allows.
    CredTooLong,
    /// The proxy refused the credentials.
    AuthFailed,
    /// The host name is longer than its one-byte length field allows.
    HostTooLong,
    /// Reply code 1: general server failure.
    GeneralFailure,
    /// Reply code 2: the connection is not allowed by the rule set.
    RuleViolation,
    /// Reply code 3: network unreachable.
    NetworkUnreachable,
    /// Reply code 4: host unreachable.
    HostUnreachable,
    /// Reply code 5: connection refused.
    ConnectionRefused,
    /// Reply code 6: TTL expired.
    TtlExpired,
    /// Reply code 7: command not supported.
    CommandNotSupported,
    /// Reply code 8: address type not supported.
    AddressTypeNotSupported,
    /// A reply code this client does not know.
    UnknownReply(u8),
    /// A bound-address type this client does not know.
    UnsupportedBoundAddress(u8),
}

/// The greeting frame: version five, one offered method.
pub open spec fn spec_greeting(method: u8) -> Seq<u8> {
    seq![5u8, 1u8, method]
}

/// The username/password frame of the subnegotiation.
pub open spec fn spec_auth_request(user: Seq<u8>, pass: Seq<u8>) -> Seq<u8> {
    seq![1u8, user.len() as u8] + user + seq![pass.len() as u8] + pass
}

/// The connect frame: version five, command connect, domain-name
/// destination, then the port in network order.
pub open spec fn spec_connect_request(host: Seq<u8>, port: u16) -> Seq<u8> {
    seq![5u8, 1u8, 0u8, 3u8, host.len() as u8] + host + seq![(port / 256) as u8, (port % 256) as u8]
}

/// Builds the greeting frame.
pub fn build_greeting(method: u8) -> (v: Vec<u8>)
    ensures
        v@ == spec_greeting(method),
{
    let mut v: Vec<u8> = Vec::new();
    v.push(5);
    v.push(1);
    v.push(method);
    proof {
        assert(v@ =~= spec_greeting(method));
    }
    v
}

/// Builds the credential frame; refused when either credential exceeds 255
/// bytes.
pub fn build_auth_request(username: &str, password: &str) -> (r: Result<Vec<u8>, Socks5Error>)
    ensures
        r matches Ok(v) ==> v@ == spec_auth_request(username.spec_bytes(), password.spec_bytes()),
        r is Ok <==> username.spec_bytes().len() <= 255 && password.spec_bytes().len() <= 255,
        r matches Err(e) ==> e == Socks5Error::CredTooLong,
{
    let ub = username.as_bytes();
    let pb = password.as_bytes();
    if ub.len() > 255 || pb.len() > 255 {
        return Err(Socks5Error::CredTooLong);
    }
    let mut v: Vec<u8> = Vec::new();
    v.push(1);
    v.push(ub.len() as u8);
    let mut i: usize = 0;
    let un = ub.len();
    while i < un
        invariant
            i <= un,
            un == ub@.len(),
            v@ == seq![1u8, un as u8] + ub@.subrange(0, i as int),
        decreases un - i,
    {
        v.push(ub[i]);
        proof {
            assert(v@ =~= seq![1u8, un as u8] + ub@.subrange(0, i as int + 1));
        }
        i = i + 1;
    }
    proof {
        assert(ub@.subrange(0, un as int) =~= ub@);
    }
    v.push(pb.len() as u8);
    let pn = pb.len();
    let mut j: usize = 0;
    while j < pn
        invariant
            j <= pn,
            pn == pb@.len(),
            un == ub@.len(),
            v@ == seq![1u8, un as u8] + ub@ + seq![pn as u8] + pb@.subrange(0, j as int),
        decreases pn - j,
    {
        v.push(pb[j]);
        proof {
            assert(v@ =~= seq![1u8, un as u8] + ub@ + seq![pn as u8] + pb@.subrange(
                0,
                j as int + 1,
            ));
        }
        j = j + 1;
    }
    proof {
        assert(pb@.subrange(0, pn as int) =~= pb@);
        assert(v@ =~= spec_auth_request(ub@, pb@));
    }
    Ok(v)
}

/// Builds the connect frame; refused when the host name exceeds 255 bytes.
pub fn build_connect_request(host: &str, port: u16) -> (r: Result<Vec<u8>, Socks5Error>)
    ensures
        r matches Ok(v) ==> v@ == spec_connect_request(host.spec_bytes(), port),
        r is Ok <==> host.spec_bytes().len() <= 255,
        r matches Err(e) ==> e == Socks5Error::HostTooLong,
{
    let hb = host.as_bytes();
    if hb.len() > 255 {
        return Err(Socks5Error::HostTooLong);
    }
    let hn = hb.len();
    let mut v: Vec<u8> = Vec::new();
    v.push(5);
    v.push(1);
    v.push(0);
    v.push(3);
    v.push(hn as u8);
    let mut i: usize = 0;
    while i < hn
        invariant
            i <= hn,
            hn == hb@.len(),
            v@ == seq![5u8, 1u8, 0u8, 3u8, hn as u8] + hb@.subrange(0, i as int),
        decreases hn - i,
    {
        v.push(hb[i]);
        proof {
            assert(v@ =~= seq![5u8, 1u8, 0u8, 3u8, hn as u8] + hb@.subrange(0, i as int + 1));
        }
        i = i + 1;
    }
    proof {
        assert(hb@.subrange(0, hn as int) =~= hb@);
    }
    v.push((port / 256) as u8);
    v.push((port % 256) as u8);
    proof {
        assert(v@ =~= spec_connect_request(hb@, port));
    }
    Ok(v)
}

/// The error a connect reply code stands for, for codes other than zero.
pub open spec fn spec_reply_error(code: u8) -> Socks5Error {
    if code == 1 {
        Socks5Error::GeneralFailure
    } else if code == 2 {
        Socks5Error::RuleViolation
    } else if code == 3 {
        Socks5Error::NetworkUnreachable
    } else if code == 4 {
        Socks5Error::HostUnreachable
    } else if code == 5 {
        Socks5Error::ConnectionRefused
    } else if code == 6 {
        Socks5Error::TtlExpired
    } else if code == 7 {
        Socks5Error::CommandNotSupported
    } else if code == 8 {
        Socks5Error::AddressTypeNotSupported
    } else {
        Socks5Error::UnknownReply(code)
    }
}

/// Maps a non-zero connect reply code to its error.
pub fn reply_error(code: u8) -> (e: Socks5Error)
    requires
        code != 0,
    ensures
        e == spec_reply_error(code),
{
    if code == 1 {
        Socks5Error::GeneralFailure
    } else if code == 2 {
        Socks5Error::RuleViolation
    } else if code == 3 {
        Socks5Error::NetworkUnreachable
    } else if code == 4 {
        Socks5Error::HostUnreachable
    } else if code == 5 {
        Socks5Error::ConnectionRefused
    } else if code == 6 {
        Socks5Error::TtlExpired
    } else if code == 7 {
        Socks5Error::CommandNotSupported
    } else if code == 8 {
        Socks5Error::AddressTypeNotSupported
    } else {
        Socks5Error::UnknownReply(code)
    }
}

/// Where the handshake stands.
#[derive(Debug, Clone, Copy, PartialEq, Eq, Structural)]
pub enum Socks5State {
    /// Connected to the proxy; the greeting has not been sent.
    Greet,
    /// The greeting went out; two bytes of method selection are due.
    WaitMethodSel,
    /// The credentials went out; two bytes of auth reply are due.
    WaitAuthReply,
    /// The connect request went out; four bytes of reply header are due.
    WaitReplyHeader,
    /// A bound address of this many bytes is due.
    WaitBound(usize),
    /// One byte of bound domain length is due.
    WaitDomainLen,
    /// The tunnel stands; the stream is ready for payload bytes.
    Finished,
    /// The handshake failed.
    Failed,
}

/// What the host must do next.
pub enum Socks5Action {
    /// Send these bytes, then read exactly this many.
    SendThenRead(Vec<u8>, usize),
    /// Read exactly this many bytes.
    Read(usize),
    /// The handshake is complete; hand the stream to the splice.
    Done,
    /// Give up with this error.
    Fail(Socks5Error),
}

/// What the host observed.
pub enum Socks5Event {
    /// The connection to the proxy stands; nothing read yet.
    Started,
    /// Exactly the requested bytes arrived.
    Received(Vec<u8>),
    /// The read or write failed, timed out, or came up short.
    Failed(Socks5Error),
}

/// The ghost mirror of an action.
pub enum SpecSocks5Action {
    SendThenRead(Seq<u8>, int),
    Read(int),
    Done,
    Fail(Socks5Error),
}

/// The ghost value of an action.
pub open spec fn action_view(a: Socks5Action) -> SpecSocks5Action {
    match a {
        Socks5Action::SendThenRead(v, n) => SpecSocks5Action::SendThenRead(v@, n as int),
        Socks5Action::Read(n) => SpecSocks5Action::Read(n as int),
        Socks5Action::Done => SpecSocks5Action::Done,
        Socks5Action::Fail(e) => SpecSocks5Action::Fail(e),
    }
}

/// One SOCKS5 handshake for one destination.
pub struct Socks5Session {
    state: Socks5State,
    host: String,
    port: u16,
    username: Option<String>,
    password: Option<String>,
}

impl Socks5Session {
    /// Where the handshake stands.
    pub closed spec fn spec_state(self) -> Socks5State {
        self.state
    }

    /// The destination host's bytes.
    pub closed spec fn spec_host(self) -> Seq<u8> {
        vstd::utf8::encode_utf8(self.host@)
    }

    /// The destination port.
    pub closed spec fn spec_port(self) -> u16 {
        self.port
    }

    /// Whether credentials will be offered: only when both are set.
    pub closed spec fn spec_uses_auth(self) -> bool {
        self.username is Some && self.password is Some
    }

    /// The one method the greeting offers.
    pub closed spec fn spec_method(self) -> u8 {
        if self.spec_uses_auth() {
            2u8
        } else {
            0u8
        }
    }

    /// The credential bytes, when both are set.
    pub closed spec fn spec_user(self) -> Seq<u8> {
        vstd::utf8::encode_utf8(self.username.unwrap()@)
    }

    /// The password bytes, when both are set.
    pub closed spec fn spec_pass(self) -> Seq<u8> {
        vstd::utf8::encode_utf8(self.password.unwrap()@)
    }

    /// How many bytes the session expects from the host in its current
    /// state; zero where it expects the `Started` event.
    pub open spec fn expected_read(self) -> int {
        match self.spec_state() {
            Socks5State::Greet => 0,
            Socks5State::WaitMethodSel => 2,
            Socks5State::WaitAuthReply => 2,
            Socks5State::WaitReplyHeader => 4,
            Socks5State::WaitBound(n) => n as int,
            Socks5State::WaitDomainLen => 1,
            Socks5State::Finished => 0,
            Socks5State::Failed => 0,
        }
    }

    /// Whether an event fits the current state.
    pub open spec fn event_fits(self, ev: Socks5Event) -> bool {
        match ev {
            Socks5Event::Started => self.spec_state() is Greet,
            Socks5Event::Received(v) => !(self.spec_state() is Greet) && v@.len()
                == self.expected_read(),
            Socks5Event::Failed(e) => true,
        }
    }

    /// The connect frame this session sends, or the error when the host
    /// name does not fit.
    pub open spec fn spec_connect_step(self) -> (Socks5State, SpecSocks5Action) {
        if self.spec_host().len() <= 255 {
            (
                Socks5State::WaitReplyHeader,
                SpecSocks5Action::SendThenRead(
                    spec_connect_request(self.spec_host(), self.spec_port()),
                    4,
                ),
            )
        } else {
            (Socks5State::Failed, SpecSocks5Action::Fail(Socks5Error::HostTooLong))
        }
    }

    /// The transition table of the handshake: what each event does in each
    /// state.
    pub open spec fn spec_step(self, ev: Socks5Event) -> (Socks5State, SpecSocks5Action) {
        match ev {
            Socks5Event::Failed(e) => (Socks5State::Failed, SpecSocks5Action::Fail(e)),
            Socks5Event::Started => (
                Socks5State::WaitMethodSel,
                SpecSocks5Action::SendThenRead(spec_greeting(self.spec_method()), 2),
            ),
            Socks5Event::Received(v) => match self.spec_state() {
                Socks5State::WaitMethodSel => {
                    if v@[0] != 5 {
                        (Socks5State::Failed, SpecSocks5Action::Fail(Socks5Error::BadVersion))
                    } else if v@[1] != self.spec_method() {
                        (
                            Socks5State::Failed,
                            SpecSocks5Action::Fail(Socks5Error::AuthMethodUnsupported),
                        )
                    } else if self.spec_uses_auth() {
                        if self.spec_user().len() <= 255 && self.spec_pass().len() <= 255 {
                            (
                                Socks5State::WaitAuthReply,
                                SpecSocks5Action::SendThenRead(
                                    spec_auth_request(self.spec_user(), self.spec_pass()),
                                    2,
                                ),
                            )
                        } else {
                            (
                                Socks5State::Failed,
                                SpecSocks5Action::Fail(Socks5Error::CredTooLong),
                            )
                        }
                    } else {
                        self.spec_connect_step()
                    }
                },
                Socks5State::WaitAuthReply => {
                    if v@[1] != 0 {
                        (Socks5State::Failed, SpecSocks5Action::Fail(Socks5Error::AuthFailed))
                    } else {
                        self.spec_connect_step()
                    }
                },
                Socks5State::WaitReplyHeader => {
                    if v@[0] != 5 {
                        (Socks5State::Failed, SpecSocks5Action::Fail(Socks5Error::BadVersion))
                    } else if v@[1] != 0 {
                        (Socks5State::Failed, SpecSocks5Action::Fail(spec_reply_error(v@[1])))
                    } else if v@[3] == 1 {
                        (Socks5State::WaitBound(6usize), SpecSocks5Action::Read(6))
                    } else if v@[3] == 4 {
                        (Socks5State::WaitBound(18usize), SpecSocks5Action::Read(18))
                    } else if v@[3] == 3 {
                        (Socks5State::WaitDomainLen, SpecSocks5Action::Read(1))
                    } else {
                        (
                            Socks5State::Failed,
                            SpecSocks5Action::Fail(
                                Socks5Error::UnsupportedBoundAddress(v@[3]),
                            ),
                        )
                    }
                },
                Socks5State::WaitDomainLen => (
                    Socks5State::WaitBound((v@[0] + 2) as usize),
                    SpecSocks5Action::Read(v@[0] + 2),
                ),
                Socks5State::WaitBound(n) => (Socks5State::Finished, SpecSocks5Action::Done),
                _ => (Socks5State::Failed, SpecSocks5Action::Fail(Socks5Error::Truncated)),
            },
        }
    }

    /// A fresh handshake for `host:port`, not yet started.
    pub fn new(host: String, port: u16, username: Option<String>, password: Option<String>) -> (s:
        Socks5Session)
        ensures
            s.spec_state() == Socks5State::Greet,
            s.spec_host() == vstd::utf8::encode_utf8(host@),
            s.spec_port() == port,
            s.spec_uses_auth() == (username is Some && password is Some),
            username matches Some(u) ==> (password is Some ==> s.spec_user()
                == vstd::utf8::encode_utf8(u@)),
            password matches Some(p) ==> (username is Some ==> s.spec_pass()
                == vstd::utf8::encode_utf8(p@)),
    {
        Socks5Session { state: Socks5State::Greet, host, port, username, password }
    }

    /// A handshake for the destination of `cfg`, taking its credentials.
    pub fn for_config(host: String, port: u16, cfg: &Socks5Config) -> (s: Socks5Session)
        ensures
            s.spec_state() == Socks5State::Greet,
            s.spec_host() == vstd::utf8::encode_utf8(host@),
            s.spec_port() == port,
            s.spec_uses_auth() == (cfg.username is Some && cfg.password is Some),
    {
        let username = match &cfg.username {
            Some(u) => Some(u.clone()),
            None => None,
        };
        let password = match &cfg.password {
            Some(p) => Some(p.clone()),
            None => None,
        };
        Socks5Session::new(host, port, username, password)
    }

    /// Feeds one event in and says what to do next, exactly as
    /// [`Socks5Session::spec_step`] lays it out.
    pub fn step(&mut self, ev: Socks5Event) -> (a: Socks5Action)
        requires
            !(old(self).spec_state() is Finished),
            !(old(self).spec_state() is Failed),
            old(self).event_fits(ev),
        ensures
            final(self).spec_state() == old(self).spec_step(ev).0,
            action_view(a) == old(self).spec_step(ev).1,
            final(self).spec_host() == old(self).spec_host(),
            final(self).spec_port() == old(self).spec_port(),
            final(self).spec_uses_auth() == old(self).spec_uses_auth(),
    {
        match ev {
            Socks5Event::Failed(e) => {
                self.state = Socks5State::Failed;
                Socks5Action::Fail(e)
            },
            Socks5Event::Started => {
                let method: u8 = if self.username.is_some() && self.password.is_some() {
                    2
                } else {
                    0
                };
                self.state = Socks5State::WaitMethodSel;
                Socks5Action::SendThenRead(build_greeting(method), 2)
            },
            Socks5Event::Received(v) => {
                match self.state {
                    Socks5State::WaitMethodSel => {
                        let method: u8 = if self.username.is_some() && self.password.is_some() {
                            2
                        } else {
                            0
                        };
                        if v[0] != 5 {
                            self.state = Socks5State::Failed;
                            Socks5Action::Fail(Socks5Error::BadVersion)
                        } else if v[1] != method {
                            self.state = Socks5State::Failed;
                            Socks5Action::Fail(Socks5Error::AuthMethodUnsupported)
                        } else if method == 2 {
                            let user = self.username.as_ref().unwrap().as_str();
                            let pass = self.password.as_ref().unwrap().as_str();
                            match build_auth_request(user, pass) {
                                Ok(frame) => {
                                    self.state = Socks5State::WaitAuthReply;
                                    Socks5Action::SendThenRead(frame, 2)
                                },
                                Err(e) => {
                                    self.state = Socks5State::Failed;
                                    Socks5Action::Fail(e)
                                },
                            }
                        } else {
                            self.connect_step()
                        }
                    },
                    Socks5State::WaitAuthReply => {
                        if v[1] != 0 {
                            self.state = Socks5State::Failed;
                            Socks5Action::Fail(Socks5Error::AuthFailed)
                        } else {
                            self.connect_step()
                        }
                    },
                    Socks5State::WaitReplyHeader => {
                        if v[0] != 5 {
                            self.state = Socks5State::Failed;
                            Socks5Action::Fail(Socks5Error::BadVersion)
                        } else if v[1] != 0 {
                            let e = reply_error(v[1]);
                            self.state = Socks5State::Failed;
                            Socks5Action::Fail(e)
                        } else if v[3] == 1 {
                            self.state = Socks5State::WaitBound(6);
                            Socks5Action::Read(6)
                        } else if v[3] == 4 {
                            self.state = Socks5State::WaitBound(18);
                            Socks5Action::Read(18)
                        } else if v[3] == 3 {
                            self.state = Socks5State::WaitDomainLen;
                            Socks5Action::Read(1)
                        } else {
                            self.state = Socks5State::Failed;
                            Socks5Action::Fail(Socks5Error::UnsupportedBoundAddress(v[3]))
                        }
                    },
                    Socks5State::WaitDomainLen => {
                        let need = (v[0] as usize) + 2;
                        self.state = Socks5State::WaitBound(need);
                        Socks5Action::Read(need)
                    },
                    Socks5State::WaitBound(_) => {
                        self.state = Socks5State::Finished;
                        Socks5Action::Done
                    },
                    _ => {
                        self.state = Socks5State::Failed;
                        Socks5Action::Fail(Socks5Error::Truncated)
                    },
                }
            },
        }
    }

    /// Builds and hands out the connect frame.
    fn connect_step(&mut self) -> (a: Socks5Action)
        ensures
            final(self).spec_state() == old(self).spec_connect_step().0,
            action_view(a) == old(self).spec_connect_step().1,
            final(self).spec_host() == old(self).spec_host(),
            final(self).spec_port() == old(self).spec_port(),
            final(self).spec_uses_auth() == old(self).spec_uses_auth(),
    {
        match build_connect_request(self.host.as_str(), self.port) {
            Ok(frame) => {
                self.state = Socks5State::WaitReplyHeader;
                Socks5Action::SendThenRead(frame, 4)
            },
            Err(e) => {
                self.state = Socks5State::Failed;
                Socks5Action::Fail(e)
            },
        }
    }
}

} // verus!
