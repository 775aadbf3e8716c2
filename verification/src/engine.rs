//! The decisions of the accept loop and of each connection.
//!
//! The host owns the listener, the sockets and the clock; everything it
//! must decide is computed here. [`plan_connection`] weighs the first
//! bytes of a connection: refuse by source address, refuse for want of a
//! server name, or connect — directly or through the chained proxy.
//! [`EngineState`] is the accept loop itself: accepting until the shutdown
//! signal, then draining with a bounded number of one-second polls, never
//! accepting again.

use vstd::prelude::*;
use vstd::utf8::decode_utf8;
use vstd::utf8::valid_utf8;

use crate::domain::DomainMatcher;
use crate::ip::IpAddr;
use crate::ip_matcher::IpMatcher;
use crate::ip_traffic::IpTrafficTracker;
use crate::metrics::Metrics;
use crate::socks5::Socks5Config;
use crate::socks5::Socks5Error;
use crate::socks5::SocketAddress;
use crate::text::lower_of;
use crate::tls::parse_sni;
use crate::tls::spec_parse_sni;
use crate::tuning::logical_cores;
use crate::tuning::max_connections_for;

verus! {

/// How an authorized connection leaves the proxy, or that it does not.
#[derive(Debug, Clone, Copy, PartialEq, Eq, Structural)]
pub enum Route {
    Direct,
    Socks5,
    Rejected,
}

/// The server name the first record carries, decoded, if it parses.
pub open spec fn spec_sni_of(data: Seq<u8>) -> Option<Seq<char>> {
    match spec_parse_sni(data) {
        Some(name) => if valid_utf8(name) {
            Some(decode_utf8(name))
        } else {
            None
        },
        None => None,
    }
}

/// The route of a lowercased name: the SOCKS5 whitelist is consulted
/// first, then the direct one; a name on neither is refused.
pub open spec fn spec_route(
    direct: DomainMatcher,
    socks5: Option<DomainMatcher>,
    l: Seq<char>,
) -> Route {
    match socks5 {
        Some(sm) => if sm.matches_lowered(l) {
            Route::Socks5
        } else if direct.matches_lowered(l) {
            Route::Direct
        } else {
            Route::Rejected
        },
        None => if direct.matches_lowered(l) {
            Route::Direct
        } else {
            Route::Rejected
        },
    }
}

/// What to do with one connection, judged from its opening bytes.
pub enum ConnectionPlan {
    /// The source address is not whitelisted: close, count a rejection.
    RejectIp,
    /// No server name could be read from the bytes: close, count a parse
    /// error and a failure.
    RejectSni,
    /// Tunnel to this name through the chained SOCKS5 proxy.
    Socks5(String),
    /// Connect directly to this name on port 443.
    Direct(String),
    /// The name is on no whitelist: close, count a rejection.
    RejectDomain,
}

/// Decides what to do with a connection from `peer` whose first read was
/// `hello`: the source check, the server-name extraction and the
/// whitelist classification, in that order.
pub fn plan_connection(
    ip_matcher: &Option<IpMatcher>,
    peer: IpAddr,
    hello: &[u8],
    direct: &DomainMatcher,
    socks5: &Option<DomainMatcher>,
) -> (p: ConnectionPlan)
    ensures
        (ip_matcher matches Some(im) && !im.spec_matches(peer)) ==> p is RejectIp,
        (ip_matcher is None || (ip_matcher matches Some(im) && im.spec_matches(peer))) ==> match
            spec_sni_of(hello@) {
            None => p is RejectSni,
            Some(name) => match spec_route(*direct, *socks5, lower_of(name)) {
                Route::Socks5 => p matches ConnectionPlan::Socks5(s) && s@ == name,
                Route::Direct => p matches ConnectionPlan::Direct(s) && s@ == name,
                Route::Rejected => p is RejectDomain,
            },
        },
{
    match ip_matcher {
        Some(im) => {
            if !im.matches(peer) {
                return ConnectionPlan::RejectIp;
            }
        },
        None => {},
    }
    let sni = match parse_sni(hello) {
        Some(s) => s,
        None => {
            return ConnectionPlan::RejectSni;
        },
    };
    match socks5 {
        Some(sm) => {
            if sm.matches(sni.as_str()) {
                ConnectionPlan::Socks5(sni)
            } else if direct.matches(sni.as_str()) {
                ConnectionPlan::Direct(sni)
            } else {
                ConnectionPlan::RejectDomain
            }
        },
        None => {
            if direct.matches(sni.as_str()) {
                ConnectionPlan::Direct(sni)
            } else {
                ConnectionPlan::RejectDomain
            }
        },
    }
}

/// Counts a classified route: exactly one of the direct, SOCKS5 or
/// rejection counters moves.
pub fn account_route(m: &mut Metrics, route: Route)
    requires
        old(m).direct_requests < u64::MAX,
        old(m).socks5_requests < u64::MAX,
        old(m).rejected_requests < u64::MAX,
    ensures
        route is Direct ==> *final(m) == (Metrics {
            direct_requests: (old(m).direct_requests + 1) as u64,
            ..*old(m)
        }),
        route is Socks5 ==> *final(m) == (Metrics {
            socks5_requests: (old(m).socks5_requests + 1) as u64,
            ..*old(m)
        }),
        route is Rejected ==> *final(m) == (Metrics {
            rejected_requests: (old(m).rejected_requests + 1) as u64,
            ..*old(m)
        }),
{
    match route {
        Route::Direct => m.inc_direct_requests(),
        Route::Socks5 => m.inc_socks5_requests(),
        Route::Rejected => m.inc_rejected_requests(),
    }
}

/// Why a connection could not be completed.
#[derive(Debug, Clone, Copy, PartialEq, Eq, Structural)]
pub enum ConnectFailure {
    /// The first read did not finish in time.
    ReadTimeout,
    /// The first read failed.
    ReadFailed,
    /// The first record carried no readable server name.
    SniParse,
    /// Resolution failed or returned nothing.
    DnsFailed,
    /// The direct upstream dial timed out.
    DialTimeout,
    /// The direct upstream dial failed.
    DialFailed,
    /// The SOCKS5 handshake failed.
    Socks5(Socks5Error),
}

/// Counts a failed connection: the failure counter moves once, and the
/// cause's own counter moves with it.
pub fn account_failure(m: &mut Metrics, failure: ConnectFailure)
    requires
        old(m).failed_connections < u64::MAX,
        old(m).connection_timeouts < u64::MAX,
        old(m).sni_parse_errors < u64::MAX,
        old(m).socks5_errors < u64::MAX,
    ensures
        failure is ReadTimeout || failure is DialTimeout ==> *final(m) == (Metrics {
            failed_connections: (old(m).failed_connections + 1) as u64,
            connection_timeouts: (old(m).connection_timeouts + 1) as u64,
            ..*old(m)
        }),
        failure is ReadFailed || failure is DnsFailed || failure is DialFailed ==> *final(m) == (
        Metrics {
            failed_connections: (old(m).failed_connections + 1) as u64,
            ..*old(m)
        }),
        failure is SniParse ==> *final(m) == (Metrics {
            failed_connections: (old(m).failed_connections + 1) as u64,
            sni_parse_errors: (old(m).sni_parse_errors + 1) as u64,
            ..*old(m)
        }),
        failure matches ConnectFailure::Socks5(_) ==> *final(m) == (Metrics {
            failed_connections: (old(m).failed_connections + 1) as u64,
            socks5_errors: (old(m).socks5_errors + 1) as u64,
            ..*old(m)
        }),
{
    match failure {
        ConnectFailure::ReadTimeout => {
            m.inc_connection_timeouts();
            m.inc_failed_connections();
        },
        ConnectFailure::ReadFailed => {
            m.inc_failed_connections();
        },
        ConnectFailure::SniParse => {
            m.inc_sni_parse_errors();
            m.inc_failed_connections();
        },
        ConnectFailure::DnsFailed => {
            m.inc_failed_connections();
        },
        ConnectFailure::DialTimeout => {
            m.inc_connection_timeouts();
            m.inc_failed_connections();
        },
        ConnectFailure::DialFailed => {
            m.inc_failed_connections();
        },
        ConnectFailure::Socks5(_) => {
            m.inc_socks5_errors();
            m.inc_failed_connections();
        },
    }
}

/// Commits a finished transfer: the global byte counters and, when the
/// source is tracked, its per-address counters.
pub fn commit_transfer(
    m: &mut Metrics,
    tracker: &mut IpTrafficTracker,
    peer: IpAddr,
    bytes_in: u64,
    bytes_out: u64,
)
    requires
        old(m).bytes_received + bytes_in <= u64::MAX,
        old(m).bytes_sent + bytes_out <= u64::MAX,
        old(tracker).wf(),
    ensures
        *final(m) == (Metrics {
            bytes_received: (old(m).bytes_received + bytes_in) as u64,
            bytes_sent: (old(m).bytes_sent + bytes_out) as u64,
            ..*old(m)
        }),
        final(tracker).wf(),
        final(tracker).cap() == old(tracker).cap(),
        final(tracker).spec_enabled() == old(tracker).spec_enabled(),
        old(tracker).spec_enabled() ==> final(tracker).entries() == crate::ip_traffic::apply_traffic_op(
            crate::ip_traffic::apply_traffic_op(
                old(tracker).entries(),
                old(tracker).cap(),
                peer,
                crate::ip_traffic::TrafficOp::Received(bytes_in),
            ),
            old(tracker).cap(),
            peer,
            crate::ip_traffic::TrafficOp::Sent(bytes_out),
        ),
        !old(tracker).spec_enabled() ==> final(tracker).entries() == old(tracker).entries(),
{
    m.add_bytes_received(bytes_in);
    m.add_bytes_sent(bytes_out);
    tracker.record_received(peer, bytes_in);
    tracker.record_sent(peer, bytes_out);
}

/// How many one-second drain polls the engine grants after the shutdown
/// signal.
pub const DRAIN_POLLS: u32 = 30;

/// Where the accept loop stands.
#[derive(Debug, Clone, Copy, PartialEq, Eq, Structural)]
pub enum EngineState {
    /// Accepting connections.
    Accepting,
    /// The signal came; this many drain polls are left.
    Draining(u32),
    /// The loop is over; true when every connection had closed.
    Stopped(bool),
}

/// What the accept loop observed.
#[derive(Debug, Clone, Copy, PartialEq, Eq, Structural)]
pub enum EngineEvent {
    /// The listener handed over a connection.
    Accepted,
    /// The listener returned an error.
    AcceptFailed,
    /// The shutdown signal arrived.
    Shutdown,
    /// A drain poll saw this many connections still active.
    DrainTick(usize),
}

/// What the host must do next.
#[derive(Debug, Clone, Copy, PartialEq, Eq, Structural)]
pub enum EngineAction {
    /// Spawn a handler for the accepted connection, then wait again.
    HandleConnection,
    /// Sleep briefly, then accept again.
    SleepRetry,
    /// Wait one second, then report the active count.
    WaitTick,
    /// Return cleanly: everything drained.
    FinishClean,
    /// Return on the drain deadline with connections still open.
    FinishTimedOut,
}

/// Whether an event can occur in a state: the listener is only read while
/// accepting, and polls only happen while draining.
pub open spec fn engine_event_fits(s: EngineState, ev: EngineEvent) -> bool {
    match ev {
        EngineEvent::Accepted => s is Accepting,
        EngineEvent::AcceptFailed => s is Accepting,
        EngineEvent::Shutdown => s is Accepting,
        EngineEvent::DrainTick(_) => s is Draining,
    }
}

/// The transition table of the accept loop.
pub open spec fn spec_engine_step(s: EngineState, ev: EngineEvent) -> (EngineState, EngineAction) {
    match ev {
        EngineEvent::Accepted => (EngineState::Accepting, EngineAction::HandleConnection),
        EngineEvent::AcceptFailed => (EngineState::Accepting, EngineAction::SleepRetry),
        EngineEvent::Shutdown => (EngineState::Draining(DRAIN_POLLS), EngineAction::WaitTick),
        EngineEvent::DrainTick(active) => match s {
            EngineState::Draining(k) => {
                if active == 0 {
                    (EngineState::Stopped(true), EngineAction::FinishClean)
                } else if k <= 1 {
                    (EngineState::Stopped(false), EngineAction::FinishTimedOut)
                } else {
                    (EngineState::Draining((k - 1) as u32), EngineAction::WaitTick)
                }
            },
            _ => (s, EngineAction::WaitTick),
        },
    }
}

/// Feeds one observation into the accept loop and says what to do next.
pub fn engine_step(s: EngineState, ev: EngineEvent) -> (r: (EngineState, EngineAction))
    requires
        engine_event_fits(s, ev),
    ensures
        r == spec_engine_step(s, ev),
{
    match ev {
        EngineEvent::Accepted => (EngineState::Accepting, EngineAction::HandleConnection),
        EngineEvent::AcceptFailed => (EngineState::Accepting, EngineAction::SleepRetry),
        EngineEvent::Shutdown => (EngineState::Draining(DRAIN_POLLS), EngineAction::WaitTick),
        EngineEvent::DrainTick(active) => match s {
            EngineState::Draining(k) => {
                if active == 0 {
                    (EngineState::Stopped(true), EngineAction::FinishClean)
                } else if k <= 1 {
                    (EngineState::Stopped(false), EngineAction::FinishTimedOut)
                } else {
                    (EngineState::Draining(k - 1), EngineAction::WaitTick)
                }
            },
            _ => (s, EngineAction::WaitTick),
        },
    }
}

/// Once the shutdown signal is in, the engine never asks for another
/// connection to be handled, and never accepts again.
pub proof fn lemma_no_accept_after_shutdown(s: EngineState, ev: EngineEvent)
    requires
        s is Draining || s is Stopped,
        engine_event_fits(s, ev),
    ensures
        !(spec_engine_step(s, ev).1 is HandleConnection),
        spec_engine_step(s, ev).0 is Draining || spec_engine_step(s, ev).0 is Stopped,
{
}

/// The engine state after a run of observations.
pub open spec fn apply_engine_events(s: EngineState, evs: Seq<EngineEvent>) -> EngineState
    decreases evs.len(),
{
    if evs.len() == 0 {
        s
    } else {
        spec_engine_step(apply_engine_events(s, evs.drop_last()), evs.last()).0
    }
}

/// The drain phase is bounded: from the signal, any run of polls that all
/// still see active connections stops the engine after at most
/// [`DRAIN_POLLS`] of them; a poll that sees none stops it at once. Either
/// way the loop returns.
pub proof fn lemma_drain_bounded(k: u32, evs: Seq<EngineEvent>)
    requires
        1 <= k <= DRAIN_POLLS,
        evs.len() >= k,
        forall|i: int| 0 <= i < evs.len() ==> (#[trigger] evs[i]) is DrainTick,
    ensures
        apply_engine_events(EngineState::Draining(k), evs) is Stopped,
{
    lemma_drain_counts_down(k, evs);
}

/// While draining, each poll either stops the engine or lowers the
/// polls-left count by one.
proof fn lemma_drain_counts_down(k: u32, evs: Seq<EngineEvent>)
    requires
        k >= 1,
        forall|i: int| 0 <= i < evs.len() ==> (#[trigger] evs[i]) is DrainTick,
    ensures
        ({
            let s = apply_engine_events(EngineState::Draining(k), evs);
            s is Stopped || (s matches EngineState::Draining(j) && 1 <= j && j as int <= k
                - evs.len())
        }),
    decreases evs.len(),
{
    if evs.len() > 0 {
        let pre = evs.drop_last();
        assert(forall|i: int| 0 <= i < pre.len() ==> (#[trigger] pre[i]) is DrainTick);
        lemma_drain_counts_down(k, pre);
        let mid = apply_engine_events(EngineState::Draining(k), pre);
        if mid is Stopped {
            lemma_stopped_stays(mid, evs.last());
        }
    }
}

/// A stopped engine stays stopped under drain polls.
proof fn lemma_stopped_stays(s: EngineState, ev: EngineEvent)
    requires
        s is Stopped,
        ev is DrainTick,
    ensures
        spec_engine_step(s, ev).0 == s,
{
}

/// The proxy's configuration and shared pieces, assembled by the host and
/// handed to the accept loop.
pub struct SniProxy {
    listen_addr: SocketAddress,
    direct_matcher: DomainMatcher,
    socks5_matcher: Option<DomainMatcher>,
    ip_matcher: Option<IpMatcher>,
    max_connections: usize,
    socks5_config: Option<Socks5Config>,
    metrics: Metrics,
    ip_traffic_tracker: IpTrafficTracker,
}

impl SniProxy {
    pub closed spec fn spec_listen_addr(self) -> SocketAddress {
        self.listen_addr
    }

    pub closed spec fn spec_direct_matcher(self) -> DomainMatcher {
        self.direct_matcher
    }

    pub closed spec fn spec_socks5_matcher(self) -> Option<DomainMatcher> {
        self.socks5_matcher
    }

    pub closed spec fn spec_ip_matcher(self) -> Option<IpMatcher> {
        self.ip_matcher
    }

    pub closed spec fn spec_max_connections(self) -> int {
        self.max_connections as int
    }

    pub closed spec fn spec_socks5_config(self) -> Option<Socks5Config> {
        self.socks5_config
    }

    pub closed spec fn spec_metrics(self) -> Metrics {
        self.metrics
    }

    pub closed spec fn spec_tracker(self) -> IpTrafficTracker {
        self.ip_traffic_tracker
    }

    /// A proxy with one direct whitelist: fresh counters, tracking off,
    /// concurrency sized to the machine.
    pub fn new(listen_addr: SocketAddress, direct_whitelist: Vec<String>) -> (p: SniProxy)
        ensures
            p.spec_listen_addr() == listen_addr,
            p.spec_direct_matcher().built_from(direct_whitelist.deep_view()),
            p.spec_socks5_matcher() is None,
            p.spec_ip_matcher() is None,
            500 <= p.spec_max_connections() <= 10000,
            p.spec_socks5_config() is None,
            p.spec_metrics() == Metrics::spec_zero(),
            !p.spec_tracker().spec_enabled(),
            p.spec_tracker().wf(),
    {
        let cores = logical_cores();
        SniProxy {
            listen_addr,
            direct_matcher: DomainMatcher::new(direct_whitelist),
            socks5_matcher: None,
            ip_matcher: None,
            max_connections: max_connections_for(cores),
            socks5_config: None,
            metrics: Metrics::new(),
            ip_traffic_tracker: IpTrafficTracker::disabled(),
        }
    }

    /// A proxy with both whitelists; an empty SOCKS5 list means none.
    pub fn new_with_dual_whitelist(
        listen_addr: SocketAddress,
        direct_whitelist: Vec<String>,
        socks5_whitelist: Vec<String>,
    ) -> (p: SniProxy)
        ensures
            p.spec_listen_addr() == listen_addr,
            p.spec_direct_matcher().built_from(direct_whitelist.deep_view()),
            socks5_whitelist@.len() == 0 ==> p.spec_socks5_matcher() is None,
            socks5_whitelist@.len() > 0 ==> (p.spec_socks5_matcher() matches Some(m)
                && m.built_from(socks5_whitelist.deep_view())),
            p.spec_ip_matcher() is None,
            500 <= p.spec_max_connections() <= 10000,
            p.spec_socks5_config() is None,
            p.spec_metrics() == Metrics::spec_zero(),
            !p.spec_tracker().spec_enabled(),
            p.spec_tracker().wf(),
    {
        let cores = logical_cores();
        let socks5_matcher = if socks5_whitelist.len() == 0 {
            None
        } else {
            Some(DomainMatcher::new(socks5_whitelist))
        };
        SniProxy {
            listen_addr,
            direct_matcher: DomainMatcher::new(direct_whitelist),
            socks5_matcher,
            ip_matcher: None,
            max_connections: max_connections_for(cores),
            socks5_config: None,
            metrics: Metrics::new(),
            ip_traffic_tracker: IpTrafficTracker::disabled(),
        }
    }

    /// Adds the source-address whitelist; an empty one leaves the check
    /// off.
    pub fn with_ip_whitelist(self, ip_whitelist: Vec<String>) -> (p: SniProxy)
        ensures
            ({
                let ds = ip_whitelist.deep_view();
                let empty = crate::ip_matcher::spec_exact_ips(ds).len() == 0
                    && crate::ip_matcher::spec_v4nets(ds).len() == 0
                    && crate::ip_matcher::spec_v6nets(ds).len() == 0;
                let m = p.spec_ip_matcher();
                &&& (empty ==> m == self.spec_ip_matcher())
                &&& (!empty ==> (m matches Some(im) && im.built_from(ds)))
                &&& p.spec_listen_addr() == self.spec_listen_addr()
                &&& p.spec_direct_matcher() == self.spec_direct_matcher()
                &&& p.spec_socks5_matcher() == self.spec_socks5_matcher()
                &&& p.spec_max_connections() == self.spec_max_connections()
                &&& p.spec_socks5_config() == self.spec_socks5_config()
                &&& p.spec_metrics() == self.spec_metrics()
                &&& p.spec_tracker() == self.spec_tracker()
            }),
    {
        let matcher = IpMatcher::new(ip_whitelist);
        let mut this = self;
        if !matcher.is_empty() {
            this.ip_matcher = Some(matcher);
        }
        this
    }

    /// Overrides the concurrency bound.
    pub fn with_max_connections(self, max_connections: usize) -> (p: SniProxy)
        ensures
            p.spec_max_connections() == max_connections,
            p.spec_listen_addr() == self.spec_listen_addr(),
            p.spec_direct_matcher() == self.spec_direct_matcher(),
            p.spec_socks5_matcher() == self.spec_socks5_matcher(),
            p.spec_ip_matcher() == self.spec_ip_matcher(),
            p.spec_socks5_config() == self.spec_socks5_config(),
            p.spec_metrics() == self.spec_metrics(),
            p.spec_tracker() == self.spec_tracker(),
    {
        let mut this = self;
        this.max_connections = max_connections;
        this
    }

    /// Sets the chained SOCKS5 proxy.
    pub fn with_socks5(self, socks5_config: Socks5Config) -> (p: SniProxy)
        ensures
            p.spec_socks5_config() == Some(socks5_config),
            p.spec_listen_addr() == self.spec_listen_addr(),
            p.spec_direct_matcher() == self.spec_direct_matcher(),
            p.spec_socks5_matcher() == self.spec_socks5_matcher(),
            p.spec_ip_matcher() == self.spec_ip_matcher(),
            p.spec_max_connections() == self.spec_max_connections(),
            p.spec_metrics() == self.spec_metrics(),
            p.spec_tracker() == self.spec_tracker(),
    {
        let mut this = self;
        this.socks5_config = Some(socks5_config);
        this
    }

    /// Turns on per-address traffic tracking.
    pub fn with_ip_traffic_tracking(
        self,
        max_tracked_ips: usize,
        output_file: Option<String>,
        persistence_file: Option<String>,
    ) -> (p: SniProxy)
        requires
            max_tracked_ips >= 1,
        ensures
            p.spec_tracker().wf(),
            p.spec_tracker().spec_enabled(),
            p.spec_tracker().cap() == max_tracked_ips,
            p.spec_tracker().entries() == Seq::<
                (IpAddr, crate::ip_traffic::IpTrafficStats),
            >::empty(),
            p.spec_listen_addr() == self.spec_listen_addr(),
            p.spec_direct_matcher() == self.spec_direct_matcher(),
            p.spec_socks5_matcher() == self.spec_socks5_matcher(),
            p.spec_ip_matcher() == self.spec_ip_matcher(),
            p.spec_max_connections() == self.spec_max_connections(),
            p.spec_socks5_config() == self.spec_socks5_config(),
            p.spec_metrics() == self.spec_metrics(),
    {
        let mut this = self;
        this.ip_traffic_tracker = IpTrafficTracker::new(
            max_tracked_ips,
            output_file,
            persistence_file,
        );
        this
    }

    /// The counters.
    pub fn metrics(&self) -> (m: &Metrics)
        ensures
            m == self.spec_metrics(),
    {
        &self.metrics
    }

    /// Splits the proxy into the pieces the host's accept loop owns.
    pub fn into_parts(self) -> (r: (
        SocketAddress,
        DomainMatcher,
        Option<DomainMatcher>,
        Option<IpMatcher>,
        usize,
        Option<Socks5Config>,
        Metrics,
        IpTrafficTracker,
    ))
        ensures
            r.0 == self.spec_listen_addr(),
            r.1 == self.spec_direct_matcher(),
            r.2 == self.spec_socks5_matcher(),
            r.3 == self.spec_ip_matcher(),
            r.4 as int == self.spec_max_connections(),
            r.5 == self.spec_socks5_config(),
            r.6 == self.spec_metrics(),
            r.7 == self.spec_tracker(),
    {
        let SniProxy {
            listen_addr,
            direct_matcher,
            socks5_matcher,
            ip_matcher,
            max_connections,
            socks5_config,
            metrics,
            ip_traffic_tracker,
        } = self;
        (
            listen_addr,
            direct_matcher,
            socks5_matcher,
            ip_matcher,
            max_connections,
            socks5_config,
            metrics,
            ip_traffic_tracker,
        )
    }
}

} // verus!
