//! The TLS validator network function: it follows TCP flows, gathers the
//! in-order payload of the TLS handshakes it sees per flow, and when the
//! traffic moves on to another flow it examines the payload gathered for the
//! previous one and pulls out the server's certificate chain.
//!
//! Each flow that is followed owns a reorder buffer, which the caller keeps.
//! Processing one TCP segment takes these steps:
//!
//! 1. [`TlsValidator::begin_segment`] says what to do with the flow's buffer
//!    (add the data to the existing buffer, or open a new one);
//! 2. [`TlsValidator::after_insert`] takes what the buffer answered and says
//!    whether to read the in-order bytes out of it (or to reset it);
//! 3. [`TlsValidator::absorb_payload`] takes each chunk read out of the buffer;
//! 4. [`TlsValidator::end_segment`] analyses the flow and says what became of it.
use crate::tls::{
    extract_certificates, flight_certificates, flight_walkable, has_record, is_serverhello,
    read_tls_record, spec_is_serverhello, CertificateNotExtractedError, CONTENT_TYPE_HANDSHAKE,
};
use std::collections::{HashMap, HashSet};
use vstd::prelude::*;

verus! {

broadcast use {
    vstd::std_specs::hash::group_hash_axioms,
};

/// Size of the reorder buffer of a flow, in bytes.
pub const BUFFER_SIZE: usize = 16384;

/// Size of the chunks read out of a reorder buffer, in bytes.
pub const READ_SIZE: usize = 4096;

/// The five-tuple that identifies a flow.
#[derive(Clone, Copy, Debug, PartialEq, Eq, Structural)]
pub struct Flow {
    pub src_ip: u32,
    pub dst_ip: u32,
    pub src_port: u16,
    pub dst_port: u16,
    pub proto: u8,
}

impl Flow {
    /// The flow that stands for "no flow seen yet".
    pub fn empty() -> (f: Flow)
        ensures
            f == (Flow { src_ip: 0, dst_ip: 0, src_port: 0, dst_port: 0, proto: 0 }),
    {
        Flow { src_ip: 0, dst_ip: 0, src_port: 0, dst_port: 0, proto: 0 }
    }

    /// The five fields packed into one integer.
    pub open spec fn spec_key(self) -> u128 {
        ((self.src_ip as u128) << 72u128) | ((self.dst_ip as u128) << 40u128) | ((
        self.src_port as u128) << 24u128) | ((self.dst_port as u128) << 8u128) | (self.proto as u128)
    }

    /// The five fields packed into one integer, by which flows are looked up.
    pub fn key(&self) -> (k: u128)
        ensures
            k == self.spec_key(),
    {
        ((self.src_ip as u128) << 72u128) | ((self.dst_ip as u128) << 40u128) | ((
        self.src_port as u128) << 24u128) | ((self.dst_port as u128) << 8u128) | (self.proto as u128)
    }
}

/// Two flows with the same key are the same flow.
pub proof fn lemma_flow_key_injective(a: Flow, b: Flow)
    requires
        a.spec_key() == b.spec_key(),
    ensures
        a == b,
{
    let (s1, d1, sp1, dp1, p1) = (a.src_ip, a.dst_ip, a.src_port, a.dst_port, a.proto);
    let (s2, d2, sp2, dp2, p2) = (b.src_ip, b.dst_ip, b.src_port, b.dst_port, b.proto);
    assert(((s1 as u128) << 72u128) | ((d1 as u128) << 40u128) | ((sp1 as u128) << 24u128) | ((
    dp1 as u128) << 8u128) | (p1 as u128) == ((s2 as u128) << 72u128) | ((d2 as u128) << 40u128)
        | ((sp2 as u128) << 24u128) | ((dp2 as u128) << 8u128) | (p2 as u128) ==> s1 == s2 && d1
        == d2 && sp1 == sp2 && dp1 == dp2 && p1 == p2) by (bit_vector);
}

/// One TCP segment as the validator sees it.
pub struct TcpSegment {
    pub flow: Flow,
    pub seq: u32,
    pub syn: bool,
    pub fin: bool,
    pub rst: bool,
    pub payload: Vec<u8>,
}

/// What kind of TLS record a segment's payload starts with.
#[derive(Clone, Copy, Debug, PartialEq, Eq, Structural)]
pub enum RecordKind {
    /// A complete record carrying handshake messages.
    Handshake,
    /// A complete record of another content type.
    Other,
    /// No complete record.
    Absent,
}

pub open spec fn record_kind(p: Seq<u8>) -> RecordKind {
    if has_record(p) {
        if p[0] == CONTENT_TYPE_HANDSHAKE {
            RecordKind::Handshake
        } else {
            RecordKind::Other
        }
    } else {
        RecordKind::Absent
    }
}

/// Tells what kind of TLS record `payload` starts with.
pub fn classify_record(payload: &[u8]) -> (k: RecordKind)
    ensures
        k == record_kind(payload@),
{
    match read_tls_record(payload) {
        Some(r) => if r.content_type == CONTENT_TYPE_HANDSHAKE {
            RecordKind::Handshake
        } else {
            RecordKind::Other
        },
        None => RecordKind::Absent,
    }
}

/// What to do with the reorder buffer of the segment's flow.
#[derive(Clone, Copy, Debug, PartialEq, Eq)]
pub enum BufferAction {
    /// The flow has a buffer: add the segment's payload at `seq`.
    AddData { seq: u32 },
    /// The flow has none: open one and start it at `seq` with the payload.
    Open { seq: u32 },
}

/// What the reorder buffer answered.
#[derive(Clone, Copy, Debug, PartialEq, Eq)]
pub enum InsertOutcome {
    /// The data went in; `available` bytes can now be read in order.
    Inserted { available: usize },
    /// The buffer was full; `written` bytes of the data went in.
    OutOfMemory { written: usize },
    /// No buffer could be opened for the flow.
    NoBuffer,
}

/// What to do next with the flow's buffer.
#[derive(Clone, Copy, Debug, PartialEq, Eq)]
pub enum FollowUp {
    /// Read `available` bytes out of it, handing each chunk to `absorb_payload`.
    Read { available: usize },
    /// Reset it and start it again at `seq` with the segment's payload.
    ResetAndSeq { seq: u32 },
    /// Nothing.
    Nothing,
}

/// What was found in the payload gathered for a flow that the traffic left.
pub enum HandshakeFinding {
    /// The payload does not start with a ServerHello.
    NotServerHello,
    /// It starts with a ServerHello, but the flight runs out of frames before
    /// its fourth (the walk of `parse_tls_frame` could not be made).
    Truncated,
    /// The certificate chain of the flight, or the error when the second
    /// frame is not a Certificate message.
    Chain(Result<Vec<Vec<u8>>, CertificateNotExtractedError>),
}

/// What became of the segment's flow.
pub enum SegmentReport {
    /// The flow was not followed before this segment.
    New,
    /// The segment reset the flow, which is no longer followed.
    Reset,
    /// The segment finished the flow, which is no longer followed; its
    /// gathered payload, if any, is handed back.
    Finished(Option<Vec<u8>>),
    /// The segment belongs to the same flow as the one before.
    SameFlow,
    /// The traffic moved on from the previous flow: what was found in the
    /// payload gathered for it (if any was); the segment's own flow is no
    /// longer followed.
    FlowSwitched(Option<HandshakeFinding>),
}

/// The validator's state: the flows it follows, the payload gathered per
/// flow, and the flow of the previous segment.
pub struct TlsValidator {
    followed: HashSet<u128>,
    payload_cache: HashMap<u128, Vec<u8>>,
    prev_flow: Flow,
}

/// Mathematical view of the validator's state.
pub struct ValidatorView {
    /// Keys of the flows that own a reorder buffer.
    pub followed: Set<u128>,
    /// Payload gathered per flow key.
    pub cache: Map<u128, Seq<u8>>,
    /// The flow of the previous segment.
    pub prev: Flow,
}

impl View for TlsValidator {
    type V = ValidatorView;

    closed spec fn view(&self) -> ValidatorView {
        ValidatorView {
            followed: self.followed@,
            cache: self.payload_cache@.map_values(|v: Vec<u8>| v@),
            prev: self.prev_flow,
        }
    }
}

/// The sequence number at which a new flow's buffer starts: one past the
/// segment's own for a SYN (wrapping round).
pub open spec fn start_seq(seq: u32, syn: bool) -> u32 {
    if syn {
        if seq == u32::MAX {
            0
        } else {
            (seq + 1) as u32
        }
    } else {
        seq
    }
}

/// What to do with the buffer of the segment's flow, in the state `v`.
pub open spec fn spec_buffer_action(v: ValidatorView, seg: TcpSegment) -> BufferAction {
    if v.followed.contains(seg.flow.spec_key()) {
        BufferAction::AddData { seq: seg.seq }
    } else {
        BufferAction::Open { seq: start_seq(seg.seq, seg.syn) }
    }
}

/// The group of the validator's pipeline that a packet of this IP protocol
/// goes to: 0 (the TLS path) for TCP, 1 (passed on untouched) for any other.
pub fn validator_group(protocol: u8) -> (g: usize)
    ensures
        g == if protocol == 6 { 0usize } else { 1usize },
{
    if protocol == 6 {
        0
    } else {
        1
    }
}

/// Whether the read loop over a flow's buffer goes on: while fewer than
/// `to_read` bytes were read.
pub fn must_read(to_read: usize, so_far: usize) -> (res: bool)
    ensures
        res == (to_read > so_far),
{
    to_read > so_far
}

/// What follows the insertion of a segment into the buffer of a followed flow.
pub open spec fn occupied_follow_up(kind: RecordKind, outcome: InsertOutcome, seq: u32) -> FollowUp {
    if kind == RecordKind::Other {
        FollowUp::Nothing
    } else {
        match outcome {
            InsertOutcome::Inserted { available } => FollowUp::Read { available },
            InsertOutcome::OutOfMemory { written } => if written == 0 {
                FollowUp::ResetAndSeq { seq }
            } else {
                FollowUp::Nothing
            },
            InsertOutcome::NoBuffer => FollowUp::Nothing,
        }
    }
}

/// For a flow that is already followed, the in-order bytes are read after
/// every successful insertion of a segment whose payload starts with a
/// complete handshake record, or with no complete record at all (the rest of
/// a flight); only a complete record of another content type is left unread.
pub proof fn lemma_followed_flow_reads(p: Seq<u8>, outcome: InsertOutcome, seq: u32)
    ensures
        (match outcome {
            InsertOutcome::Inserted { available } => (has_record(p) ==> p[0] == CONTENT_TYPE_HANDSHAKE)
                ==> occupied_follow_up(record_kind(p), outcome, seq) == (FollowUp::Read { available }),
            _ => true,
        }),
        (outcome is Inserted && has_record(p) && p[0] != CONTENT_TYPE_HANDSHAKE) ==> occupied_follow_up(
            record_kind(p),
            outcome,
            seq,
        ) is Nothing,
        (outcome is Inserted && occupied_follow_up(record_kind(p), outcome, seq) is Nothing) ==> (
        has_record(p) && p[0] != CONTENT_TYPE_HANDSHAKE),
{
}

/// What follows the opening of a buffer for a new flow.
pub open spec fn vacant_follow_up(kind: RecordKind, outcome: InsertOutcome) -> FollowUp {
    match outcome {
        InsertOutcome::Inserted { available } => if kind == RecordKind::Handshake {
            FollowUp::Read { available }
        } else {
            FollowUp::Nothing
        },
        _ => FollowUp::Nothing,
    }
}

/// The payload gathered for `k`, empty when none was.
pub open spec fn gathered(cache: Map<u128, Seq<u8>>, k: u128) -> Seq<u8> {
    if cache.contains_key(k) {
        cache[k]
    } else {
        Seq::empty()
    }
}

/// Whether `f` is what the payload `p` of a flow the traffic left holds.
pub open spec fn finding_matches(p: Seq<u8>, f: HandshakeFinding) -> bool {
    if !spec_is_serverhello(p) {
        f is NotServerHello
    } else if !flight_walkable(p) {
        f is Truncated
    } else {
        match f {
            HandshakeFinding::Chain(Ok(c)) => flight_certificates(p) == Some(c.deep_view()),
            HandshakeFinding::Chain(Err(_)) => flight_certificates(p) is None,
            _ => false,
        }
    }
}

impl TlsValidator {
    /// A validator that follows no flow.
    pub fn new() -> (v: TlsValidator)
        ensures
            v@.followed == Set::<u128>::empty(),
            v@.cache == Map::<u128, Seq<u8>>::empty(),
            v@.prev == (Flow { src_ip: 0, dst_ip: 0, src_port: 0, dst_port: 0, proto: 0 }),
    {
        let v = TlsValidator {
            followed: HashSet::new(),
            payload_cache: HashMap::new(),
            prev_flow: Flow::empty(),
        };
        assert(v@.cache =~= Map::<u128, Seq<u8>>::empty());
        v
    }

    /// Whether the flow owns a reorder buffer.
    pub fn is_followed(&self, flow: &Flow) -> (res: bool)
        ensures
            res == self@.followed.contains(flow.spec_key()),
    {
        let k: u128 = flow.key();
        self.followed.contains(&k)
    }

    /// The payload gathered so far for the flow.
    pub fn gathered_payload(&self, flow: &Flow) -> (res: Option<Vec<u8>>)
        ensures
            match res {
                Some(p) => self@.cache.contains_key(flow.spec_key()) && p@ == self@.cache[flow.spec_key()],
                None => !self@.cache.contains_key(flow.spec_key()),
            },
    {
        let k: u128 = flow.key();
        match self.payload_cache.get(&k) {
            Some(p) => Some(p.clone()),
            None => None,
        }
    }

    /// First step for a segment: for a followed flow, add the data to its
    /// buffer; for a new flow, open a buffer (starting one past the sequence
    /// number of a SYN), after dropping the payload gathered for the previous
    /// flow when the traffic moved on from it.
    pub fn begin_segment(&mut self, seg: &TcpSegment) -> (act: BufferAction)
        ensures
            act == spec_buffer_action(old(self)@, *seg),
            act == spec_buffer_action(final(self)@, *seg),
            old(self)@.followed.contains(seg.flow.spec_key()) ==> {
                &&& act == BufferAction::AddData { seq: seg.seq }
                &&& final(self)@ == old(self)@
            },
            !old(self)@.followed.contains(seg.flow.spec_key()) ==> {
                &&& act == BufferAction::Open { seq: start_seq(seg.seq, seg.syn) }
                &&& final(self)@.followed == old(self)@.followed
                &&& final(self)@.prev == old(self)@.prev
                &&& final(self)@.cache == if seg.flow != old(self)@.prev {
                    old(self)@.cache.remove(old(self)@.prev.spec_key())
                } else {
                    old(self)@.cache
                }
            },
    {
        let k: u128 = seg.flow.key();
        if self.followed.contains(&k) {
            return BufferAction::AddData { seq: seg.seq };
        }
        if seg.flow != self.prev_flow {
            let prev_key: u128 = self.prev_flow.key();
            let ghost before = self.payload_cache@;
            let _evicted = self.payload_cache.remove(&prev_key);
            assert(self@.cache =~= before.map_values(|v: Vec<u8>| v@).remove(prev_key));
        }
        let seq: u32 = if seg.syn {
            seg.seq.wrapping_add(1)
        } else {
            seg.seq
        };
        BufferAction::Open { seq }
    }

    /// Second step: given what the buffer answered, what to do next with it.
    /// A new flow is followed from here on once its buffer could be opened.
    pub fn after_insert(&mut self, seg: &TcpSegment, act: BufferAction, outcome: InsertOutcome) -> (next: FollowUp)
        requires
            act == spec_buffer_action(old(self)@, *seg),
        ensures
            act is AddData ==> {
                &&& next == occupied_follow_up(record_kind(seg.payload@), outcome, seg.seq)
                &&& final(self)@ == old(self)@
            },
            (match outcome {
                InsertOutcome::Inserted { available } => (act is AddData && (has_record(seg.payload@)
                    ==> seg.payload@[0] == CONTENT_TYPE_HANDSHAKE)) ==> next == (FollowUp::Read {
                    available,
                }),
                _ => true,
            }),
            (act is AddData && has_record(seg.payload@) && seg.payload@[0] != CONTENT_TYPE_HANDSHAKE)
                ==> next is Nothing,
            (act is AddData && outcome == (InsertOutcome::OutOfMemory { written: 0 }) && (has_record(
                seg.payload@,
            ) ==> seg.payload@[0] == CONTENT_TYPE_HANDSHAKE)) ==> next == (FollowUp::ResetAndSeq {
                seq: seg.seq,
            }),
            (match outcome {
                InsertOutcome::Inserted { available } => (act is Open && has_record(seg.payload@)
                    && seg.payload@[0] == CONTENT_TYPE_HANDSHAKE) ==> next == (FollowUp::Read {
                    available,
                }),
                _ => true,
            }),
            (act is Open && !(outcome is Inserted && has_record(seg.payload@) && seg.payload@[0]
                == CONTENT_TYPE_HANDSHAKE)) ==> next is Nothing,
            act is Open ==> {
                &&& next == vacant_follow_up(record_kind(seg.payload@), outcome)
                &&& final(self)@.cache == old(self)@.cache
                &&& final(self)@.prev == old(self)@.prev
                &&& final(self)@.followed == if outcome is NoBuffer {
                    old(self)@.followed
                } else {
                    old(self)@.followed.insert(seg.flow.spec_key())
                }
            },
    {
        proof {
            lemma_followed_flow_reads(seg.payload@, outcome, seg.seq);
        }
        let kind = classify_record(seg.payload.as_slice());
        match act {
            BufferAction::AddData { .. } => {
                if kind == RecordKind::Other {
                    return FollowUp::Nothing;
                }
                match outcome {
                    InsertOutcome::Inserted { available } => FollowUp::Read { available },
                    InsertOutcome::OutOfMemory { written } => if written == 0 {
                        FollowUp::ResetAndSeq { seq: seg.seq }
                    } else {
                        FollowUp::Nothing
                    },
                    InsertOutcome::NoBuffer => FollowUp::Nothing,
                }
            },
            BufferAction::Open { .. } => {
                match outcome {
                    InsertOutcome::NoBuffer => FollowUp::Nothing,
                    InsertOutcome::Inserted { available } => {
                        let k: u128 = seg.flow.key();
                        self.followed.insert(k);
                        if kind == RecordKind::Handshake {
                            FollowUp::Read { available }
                        } else {
                            FollowUp::Nothing
                        }
                    },
                    InsertOutcome::OutOfMemory { .. } => {
                        let k: u128 = seg.flow.key();
                        self.followed.insert(k);
                        FollowUp::Nothing
                    },
                }
            },
        }
    }

    /// Third step, once per chunk read out of the flow's buffer: the chunk is
    /// appended to the payload gathered for the flow; returns the number of
    /// bytes read so far (`so_far` before this chunk).
    pub fn absorb_payload(&mut self, flow: &Flow, so_far: usize, data: &[u8]) -> (read: usize)
        requires
            so_far + data@.len() <= usize::MAX,
        ensures
            read == so_far + data@.len(),
            final(self)@.followed == old(self)@.followed,
            final(self)@.prev == old(self)@.prev,
            final(self)@.cache == old(self)@.cache.insert(
                flow.spec_key(),
                gathered(old(self)@.cache, flow.spec_key()) + data@,
            ),
    {
        let k: u128 = flow.key();
        let ghost before = self.payload_cache@;
        let ghost g = gathered(before.map_values(|v: Vec<u8>| v@), k);
        let mut payload = match self.payload_cache.remove(&k) {
            Some(p) => {
                assert(before.map_values(|v: Vec<u8>| v@)[k] == before[k]@);
                p
            },
            None => Vec::new(),
        };
        assert(payload@ == g);
        payload.extend_from_slice(data);
        let ghost pv = payload@;
        assert(pv == g + data@);
        self.payload_cache.insert(k, payload);
        assert(self.payload_cache@.dom() =~= before.dom().insert(k));
        assert(self@.cache =~= before.map_values(|v: Vec<u8>| v@).insert(k, pv));
        so_far + data.len()
    }

    /// Examines the payload gathered for a flow the traffic left.
    fn examine(payload: &Vec<u8>) -> (f: HandshakeFinding)
        ensures
            finding_matches(payload@, f),
    {
        if is_serverhello(payload.as_slice()) {
            match extract_certificates(payload.as_slice()) {
                Some(chain) => HandshakeFinding::Chain(chain),
                None => HandshakeFinding::Truncated,
            }
        } else {
            HandshakeFinding::NotServerHello
        }
    }

    /// Last step: analyses the flow of a segment that went to an existing
    /// buffer. A reset stops following the flow; a FIN stops following it and
    /// hands back its gathered payload; a segment of another flow than the
    /// previous one examines the payload gathered for the previous flow and
    /// stops following the segment's own flow. The segment's flow becomes the
    /// previous flow.
    pub fn end_segment(&mut self, seg: &TcpSegment, act: BufferAction) -> (report: SegmentReport)
        requires
            act is AddData ==> old(self)@.followed.contains(seg.flow.spec_key()),
        ensures
            final(self)@.prev == seg.flow,
            act is Open ==> {
                &&& report is New
                &&& final(self)@.followed == old(self)@.followed
                &&& final(self)@.cache == old(self)@.cache
            },
            act is AddData && seg.rst ==> {
                &&& report is Reset
                &&& final(self)@.followed == old(self)@.followed.remove(seg.flow.spec_key())
                &&& final(self)@.cache == old(self)@.cache
            },
            act is AddData && !seg.rst && seg.fin ==> {
                &&& final(self)@.followed == old(self)@.followed.remove(seg.flow.spec_key())
                &&& final(self)@.cache == old(self)@.cache.remove(seg.flow.spec_key())
                &&& report matches SegmentReport::Finished(p) && match p {
                    Some(p) => old(self)@.cache.contains_key(seg.flow.spec_key())
                        && p@ == old(self)@.cache[seg.flow.spec_key()],
                    None => !old(self)@.cache.contains_key(seg.flow.spec_key()),
                }
            },
            act is AddData && !seg.rst && !seg.fin && seg.flow == old(self)@.prev ==> {
                &&& report is SameFlow
                &&& final(self)@.followed == old(self)@.followed
                &&& final(self)@.cache == old(self)@.cache
            },
            act is AddData && !seg.rst && !seg.fin && seg.flow != old(self)@.prev ==> {
                &&& final(self)@.followed == old(self)@.followed.remove(seg.flow.spec_key())
                &&& final(self)@.cache == old(self)@.cache.remove(old(self)@.prev.spec_key())
                &&& report matches SegmentReport::FlowSwitched(f) && match f {
                    Some(f) => old(self)@.cache.contains_key(old(self)@.prev.spec_key())
                        && finding_matches(old(self)@.cache[old(self)@.prev.spec_key()], f),
                    None => !old(self)@.cache.contains_key(old(self)@.prev.spec_key()),
                }
            },
    {
        let k: u128 = seg.flow.key();
        let ghost before = self.payload_cache@;
        let report = match act {
            BufferAction::Open { .. } => SegmentReport::New,
            BufferAction::AddData { .. } => {
                if seg.rst {
                    self.followed.remove(&k);
                    SegmentReport::Reset
                } else if seg.fin {
                    let payload = self.payload_cache.remove(&k);
                    self.followed.remove(&k);
                    assert(self@.cache =~= before.map_values(|v: Vec<u8>| v@).remove(k));
                    SegmentReport::Finished(payload)
                } else if seg.flow == self.prev_flow {
                    SegmentReport::SameFlow
                } else {
                    let prev_key: u128 = self.prev_flow.key();
                    let finding = match self.payload_cache.remove(&prev_key) {
                        Some(payload) => Some(Self::examine(&payload)),
                        None => None,
                    };
                    self.followed.remove(&k);
                    assert(self@.cache =~= before.map_values(|v: Vec<u8>| v@).remove(prev_key));
                    SegmentReport::FlowSwitched(finding)
                }
            },
        };
        self.prev_flow = seg.flow;
        report
    }
}

/// Absorbing two chunks one after the other gathers their concatenation after
/// what was gathered before.
pub proof fn lemma_absorb_concatenates(cache: Map<u128, Seq<u8>>, k: u128, d1: Seq<u8>, d2: Seq<u8>)
    ensures
        gathered(cache.insert(k, gathered(cache, k) + d1), k) + d2 == gathered(cache, k) + (d1
            + d2),
{
    assert(gathered(cache, k) + d1 + d2 =~= gathered(cache, k) + (d1 + d2));
}

} // verus!
