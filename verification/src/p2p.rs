//! The peer-to-peer network function: it watches TCP traffic for BitTorrent
//! connections to or from one monitored host, starts the configured torrent
//! workload on the first such packet, and asks for a latency report once the
//! measurement period is over.
use vstd::prelude::*;
use vstd::string::StrSliceExecFns;

verus! {

/// The monitored host (10.200.111.76), as the IPv4 header carries it.
pub const MATCH_IP: u32 = 180907852;

/// IP protocol number of TCP.
pub const PROTO_TCP: u8 = 6;

/// Length of the measurement period, in seconds.
pub const APP_MEASURE_TIME: u64 = 600;

/// The TCP ports used by BitTorrent peers and trackers.
pub open spec fn is_bittorrent_port(port: u16) -> bool {
    (6882 <= port && port <= 6889) || port == 6969
}

/// The ports of [`is_bittorrent_port`], in the order the function lists them.
pub fn bittorrent_ports() -> (ports: Vec<u16>)
    ensures
        ports@ == seq![6882u16, 6883, 6884, 6885, 6886, 6887, 6888, 6889, 6969],
        forall|p: u16| ports@.contains(p) <==> is_bittorrent_port(p),
{
    let ports = vec![6882, 6883, 6884, 6885, 6886, 6887, 6888, 6889, 6969];
    assert forall|p: u16| ports@.contains(p) <==> is_bittorrent_port(p) by {
        if is_bittorrent_port(p) {
            if p == 6969 {
                assert(ports@[8] == p);
            } else {
                assert(ports@[p - 6882] == p);
            }
        }
    }
    ports
}

/// Whether `ports` holds `port`.
fn contains_port(ports: &Vec<u16>, port: u16) -> (res: bool)
    ensures
        res == ports@.contains(port),
{
    let mut i: usize = 0;
    while i < ports.len()
        invariant
            i <= ports.len(),
            forall|j: int| 0 <= j < i ==> ports@[j] != port,
        decreases ports.len() - i,
    {
        if ports[i] == port {
            return true;
        }
        i = i + 1;
    }
    false
}

/// Whether a packet belongs to a BitTorrent connection of the monitored host.
pub open spec fn spec_is_p2p_packet(src_ip: u32, dst_ip: u32, proto: u8, src_port: u16, dst_port: u16) -> bool {
    proto == PROTO_TCP && ((src_ip == MATCH_IP && is_bittorrent_port(dst_port)) || (dst_ip
        == MATCH_IP && is_bittorrent_port(src_port)))
}

/// Whether a packet is a TCP packet sent by the monitored host to a BitTorrent
/// port, or received by it from one.
pub fn is_p2p_packet(src_ip: u32, dst_ip: u32, proto: u8, src_port: u16, dst_port: u16) -> (res: bool)
    ensures
        res == spec_is_p2p_packet(src_ip, dst_ip, proto, src_port, dst_port),
{
    let match_port = bittorrent_ports();
    let mut matched = false;
    if proto == PROTO_TCP {
        if src_ip == MATCH_IP && contains_port(&match_port, dst_port) {
            matched = true;
        } else if dst_ip == MATCH_IP && contains_port(&match_port, src_port) {
            matched = true;
        }
    }
    matched
}

/// The classification does not depend on the direction of the packet.
pub proof fn lemma_p2p_match_symmetric(src_ip: u32, dst_ip: u32, proto: u8, src_port: u16, dst_port: u16)
    ensures
        spec_is_p2p_packet(src_ip, dst_ip, proto, src_port, dst_port) == spec_is_p2p_packet(
            dst_ip,
            src_ip,
            proto,
            dst_port,
            src_port,
        ),
{
}

/// Whether two strings hold the same characters.
pub fn str_equal(a: &str, b: &str) -> (res: bool)
    ensures
        res == (a@ == b@),
{
    let n: usize = a.unicode_len();
    if n != b.unicode_len() {
        return false;
    }
    let mut i: usize = 0;
    while i < n
        invariant
            n == a@.len() == b@.len(),
            i <= n,
            forall|j: int| 0 <= j < i ==> a@[j] == b@[j],
        decreases n - i,
    {
        if a.get_char(i) != b.get_char(i) {
            return false;
        }
        i = i + 1;
    }
    assert(a@ =~= b@);
    true
}

/// The workloads the function can start.
#[derive(Clone, Copy, Debug, PartialEq, Eq)]
pub enum P2pWorkload {
    /// Torrents run by a controlled BitTorrent client.
    Controlled,
    /// Torrents added and run over the Transmission RPC interface.
    Transmission,
    /// The configured type names no known workload.
    Unknown,
}

pub open spec fn spec_workload_kind(p2p_type: Seq<char>) -> P2pWorkload {
    if p2p_type == "app_p2p-controlled"@ {
        P2pWorkload::Controlled
    } else if p2p_type == "app_p2p"@ || p2p_type == "app_p2p-ext"@ {
        P2pWorkload::Transmission
    } else {
        P2pWorkload::Unknown
    }
}

/// The workload that a configured P2P type names.
pub fn workload_kind(p2p_type: &str) -> (res: P2pWorkload)
    ensures
        res == spec_workload_kind(p2p_type@),
{
    if str_equal(p2p_type, "app_p2p-controlled") {
        P2pWorkload::Controlled
    } else if str_equal(p2p_type, "app_p2p") || str_equal(p2p_type, "app_p2p-ext") {
        P2pWorkload::Transmission
    } else {
        P2pWorkload::Unknown
    }
}

/// The state of the per-packet monitor.
pub struct P2pMonitor {
    /// Packets seen so far.
    pub pkt_count: usize,
    /// The workload is still to be started.
    pub workload_pending: bool,
    /// The latency report is still to be made.
    pub metrics_pending: bool,
    /// The workload named by the configuration.
    pub workload: P2pWorkload,
}

/// What to do after a packet.
pub struct P2pStep {
    /// Start this workload.
    pub start_workload: Option<P2pWorkload>,
    /// Make the latency report, over this many packets.
    pub report: Option<usize>,
}

impl P2pMonitor {
    /// A monitor for the configured P2P type, with nothing started yet.
    pub fn new(p2p_type: &str) -> (m: P2pMonitor)
        ensures
            m.pkt_count == 0,
            m.workload_pending,
            m.metrics_pending,
            m.workload == spec_workload_kind(p2p_type@),
    {
        P2pMonitor {
            pkt_count: 0,
            workload_pending: true,
            metrics_pending: true,
            workload: workload_kind(p2p_type),
        }
    }

    /// Handles one TCP packet, `elapsed_secs` seconds after the pipeline was
    /// set up: the first packet of a monitored BitTorrent connection starts the
    /// workload (once); the first packet once the measurement period is over
    /// asks for the report (once).
    pub fn on_packet(
        &mut self,
        src_ip: u32,
        dst_ip: u32,
        proto: u8,
        src_port: u16,
        dst_port: u16,
        elapsed_secs: u64,
    ) -> (step: P2pStep)
        requires
            old(self).pkt_count < usize::MAX,
        ensures
            (*final(self), step.start_workload, step.report) == spec_on_packet(
                *old(self),
                (src_ip, dst_ip, proto, src_port, dst_port, elapsed_secs),
            ),
    {
        let matched = is_p2p_packet(src_ip, dst_ip, proto, src_port, dst_port);
        let mut start_workload = None;
        if matched {
            if self.workload_pending {
                start_workload = Some(self.workload);
                self.workload_pending = false;
            }
        }
        self.pkt_count = self.pkt_count + 1;
        let mut report = None;
        if elapsed_secs >= APP_MEASURE_TIME && self.metrics_pending {
            report = Some(self.pkt_count);
            self.metrics_pending = false;
        }
        P2pStep { start_workload, report }
    }
}

/// One packet as the monitor sees it: source and destination address, IP
/// protocol, source and destination port, and the seconds elapsed since setup.
pub type P2pEvent = (u32, u32, u8, u16, u16, u64);

/// The monitor after a packet, the workload it starts, and the report it asks for.
pub open spec fn spec_on_packet(m: P2pMonitor, e: P2pEvent) -> (P2pMonitor, Option<P2pWorkload>, Option<usize>) {
    let matched = spec_is_p2p_packet(e.0, e.1, e.2, e.3, e.4);
    let start = matched && m.workload_pending;
    let count: usize = (m.pkt_count + 1) as usize;
    let due = e.5 >= APP_MEASURE_TIME && m.metrics_pending;
    (
        P2pMonitor {
            pkt_count: count,
            workload_pending: m.workload_pending && !matched,
            metrics_pending: m.metrics_pending && !due,
            workload: m.workload,
        },
        if start { Some(m.workload) } else { None },
        if due { Some(count) } else { None },
    )
}

/// The monitor after a run of packets.
pub open spec fn run_monitor(m: P2pMonitor, events: Seq<P2pEvent>) -> P2pMonitor
    decreases events.len(),
{
    if events.len() == 0 {
        m
    } else {
        spec_on_packet(run_monitor(m, events.drop_last()), events.last()).0
    }
}

/// How many times a run of packets starts the workload.
pub open spec fn workload_starts(m: P2pMonitor, events: Seq<P2pEvent>) -> nat
    decreases events.len(),
{
    if events.len() == 0 {
        0
    } else {
        let before = run_monitor(m, events.drop_last());
        workload_starts(m, events.drop_last()) + if spec_on_packet(before, events.last()).1 is Some {
            1nat
        } else {
            0nat
        }
    }
}

/// How many times a run of packets asks for the report.
pub open spec fn report_requests(m: P2pMonitor, events: Seq<P2pEvent>) -> nat
    decreases events.len(),
{
    if events.len() == 0 {
        0
    } else {
        let before = run_monitor(m, events.drop_last());
        report_requests(m, events.drop_last()) + if spec_on_packet(before, events.last()).2 is Some {
            1nat
        } else {
            0nat
        }
    }
}

/// Whatever the packets, a monitor starts the workload at most once and asks
/// for the report at most once; once it has done either, it no longer waits to.
pub proof fn lemma_p2p_actions_at_most_once(m: P2pMonitor, events: Seq<P2pEvent>)
    ensures
        workload_starts(m, events) <= 1,
        report_requests(m, events) <= 1,
        workload_starts(m, events) == 1 ==> !run_monitor(m, events).workload_pending,
        report_requests(m, events) == 1 ==> !run_monitor(m, events).metrics_pending,
        !m.workload_pending ==> workload_starts(m, events) == 0,
        !m.metrics_pending ==> report_requests(m, events) == 0,
        !m.workload_pending ==> !run_monitor(m, events).workload_pending,
        !m.metrics_pending ==> !run_monitor(m, events).metrics_pending,
    decreases events.len(),
{
    if events.len() > 0 {
        lemma_p2p_actions_at_most_once(m, events.drop_last());
    }
}

/// After the first `k` packets of a run, the monitor still waits to start the
/// workload exactly when it waited at the outset and none of those packets
/// matched; the workload it names does not change.
pub proof fn lemma_pending_after_prefix(m: P2pMonitor, events: Seq<P2pEvent>, k: int)
    requires
        0 <= k <= events.len(),
    ensures
        run_monitor(m, events.take(k)).workload_pending == (m.workload_pending && forall|j: int|
            0 <= j < k ==> !spec_is_p2p_packet(
                #[trigger] events[j].0,
                events[j].1,
                events[j].2,
                events[j].3,
                events[j].4,
            )),
        run_monitor(m, events.take(k)).workload == m.workload,
    decreases k,
{
    if k > 0 {
        lemma_pending_after_prefix(m, events, k - 1);
        assert(events.take(k).drop_last() =~= events.take(k - 1));
        assert(events.take(k).last() == events[k - 1]);
    } else {
        assert(events.take(0) =~= Seq::<P2pEvent>::empty());
    }
}

/// The workload starts at the first matching packet of a run, and at no other:
/// the `k`-th packet starts it exactly when the monitor waited to start it at
/// the outset, that packet matches, and none before it did.
pub proof fn lemma_p2p_starts_at_first_match(m: P2pMonitor, events: Seq<P2pEvent>, k: int)
    requires
        0 <= k < events.len(),
    ensures
        spec_on_packet(run_monitor(m, events.take(k)), events[k]).1 == if m.workload_pending
            && spec_is_p2p_packet(events[k].0, events[k].1, events[k].2, events[k].3, events[k].4)
            && forall|j: int|
            0 <= j < k ==> !spec_is_p2p_packet(
                #[trigger] events[j].0,
                events[j].1,
                events[j].2,
                events[j].3,
                events[j].4,
            ) {
            Some(m.workload)
        } else {
            None
        },
{
    lemma_pending_after_prefix(m, events, k);
}

} // verus!
