use netbricks_nf::tls::Handshake;
use netbricks_nf::validator::{
    classify_record, must_read, validator_group, BufferAction, FollowUp, Flow, HandshakeFinding, InsertOutcome, RecordKind,
    SegmentReport, TcpSegment, TlsValidator,
};

fn flow(src_port: u16) -> Flow {
    Flow { src_ip: 0x0a000001, dst_ip: 0x0a000002, src_port, dst_port: 443, proto: 6 }
}

fn seg(f: Flow, seq: u32, payload: Vec<u8>) -> TcpSegment {
    TcpSegment { flow: f, seq, syn: false, fin: false, rst: false, payload }
}

fn record(typ: u8, body: &[u8]) -> Vec<u8> {
    let mut r = vec![typ, 0x03, 0x03, (body.len() >> 8) as u8, body.len() as u8];
    r.extend_from_slice(body);
    r
}

fn hs(typ: u8, body: &[u8]) -> Vec<u8> {
    let n = body.len();
    let mut h = vec![typ, (n >> 16) as u8, (n >> 8) as u8, n as u8];
    h.extend_from_slice(body);
    record(0x16, &h)
}

fn flight() -> Vec<u8> {
    let mut sh = vec![0x03, 0x03];
    sh.extend([9u8; 32]);
    sh.extend_from_slice(&[0x00, 0x00, 0x2f, 0x00]);
    let mut f = hs(0x02, &sh);
    f.extend(hs(0x0b, &[0, 0, 5, 0, 0, 2, 0xde, 0xad]));
    f.extend(hs(0x0c, &[1]));
    f.extend(hs(0x0e, &[]));
    f
}

#[test]
fn flow_keys_differ_for_different_flows() {
    assert_ne!(flow(1).key(), flow(2).key());
    assert_eq!(flow(1).key(), flow(1).key());
    let f = Flow { src_ip: 1, dst_ip: 2, src_port: 3, dst_port: 4, proto: 5 };
    assert_eq!(f.key(), (1u128 << 72) | (2u128 << 40) | (3u128 << 24) | (4u128 << 8) | 5);
    assert_eq!(Flow::empty().key(), 0);
}

#[test]
fn classify_record_kinds() {
    assert_eq!(classify_record(&hs(0x0e, &[])), RecordKind::Handshake);
    assert_eq!(classify_record(&record(0x17, &[1, 2])), RecordKind::Other);
    assert_eq!(classify_record(&[0x16, 0x03]), RecordKind::Absent);
}

#[test]
fn new_flow_opens_a_buffer_one_past_a_syn() {
    let mut v = TlsValidator::new();
    let mut s = seg(flow(1), 100, vec![]);
    s.syn = true;
    let act = v.begin_segment(&s);
    assert_eq!(act, BufferAction::Open { seq: 101 });
    s.seq = u32::MAX;
    let mut w = TlsValidator::new();
    assert_eq!(w.begin_segment(&s), BufferAction::Open { seq: 0 });
    s.syn = false;
    assert_eq!(w.begin_segment(&s), BufferAction::Open { seq: u32::MAX });
}

#[test]
fn opening_a_buffer_follows_the_flow() {
    let mut v = TlsValidator::new();
    let s = seg(flow(1), 1, hs(0x0e, &[]));
    let act = v.begin_segment(&s);
    let next = v.after_insert(&s, act, InsertOutcome::Inserted { available: 9 });
    assert_eq!(next, FollowUp::Read { available: 9 });
    assert!(v.is_followed(&flow(1)));
    assert!(matches!(v.end_segment(&s, act), SegmentReport::New));
    // A second segment of the same flow goes to its buffer.
    assert_eq!(v.begin_segment(&s), BufferAction::AddData { seq: 1 });
}

#[test]
fn failed_allocation_leaves_the_flow_unfollowed() {
    let mut v = TlsValidator::new();
    let s = seg(flow(1), 1, hs(0x0e, &[]));
    let act = v.begin_segment(&s);
    assert_eq!(v.after_insert(&s, act, InsertOutcome::NoBuffer), FollowUp::Nothing);
    assert!(!v.is_followed(&flow(1)));
}

#[test]
fn non_handshake_new_flow_is_not_read() {
    let mut v = TlsValidator::new();
    let s = seg(flow(1), 1, record(0x17, &[1]));
    let act = v.begin_segment(&s);
    assert_eq!(v.after_insert(&s, act, InsertOutcome::Inserted { available: 6 }), FollowUp::Nothing);
    assert!(v.is_followed(&flow(1)));
}

#[test]
fn followed_flow_follow_ups() {
    let mut v = TlsValidator::new();
    let s = seg(flow(1), 5, vec![1, 2, 3]);
    let act = v.begin_segment(&s);
    v.after_insert(&s, act, InsertOutcome::Inserted { available: 0 });
    let act = v.begin_segment(&s);
    assert_eq!(act, BufferAction::AddData { seq: 5 });
    assert_eq!(v.after_insert(&s, act, InsertOutcome::Inserted { available: 3 }), FollowUp::Read { available: 3 });
    assert_eq!(v.after_insert(&s, act, InsertOutcome::OutOfMemory { written: 0 }), FollowUp::ResetAndSeq { seq: 5 });
    assert_eq!(v.after_insert(&s, act, InsertOutcome::OutOfMemory { written: 2 }), FollowUp::Nothing);
    let other = seg(flow(1), 5, record(0x17, &[1]));
    assert_eq!(v.after_insert(&other, act, InsertOutcome::Inserted { available: 3 }), FollowUp::Nothing);
}

#[test]
fn absorbed_chunks_concatenate() {
    let mut v = TlsValidator::new();
    assert!(v.gathered_payload(&flow(1)).is_none());
    assert_eq!(v.absorb_payload(&flow(1), 0, &[1, 2]), 2);
    assert_eq!(v.absorb_payload(&flow(1), 2, &[3]), 3);
    v.absorb_payload(&flow(2), 0, &[]);
    assert_eq!(v.gathered_payload(&flow(1)).unwrap(), vec![1, 2, 3]);
    assert_eq!(v.gathered_payload(&flow(2)).unwrap(), Vec::<u8>::new());
}

fn followed(v: &mut TlsValidator, f: Flow) {
    let s = seg(f, 0, vec![]);
    let act = v.begin_segment(&s);
    v.after_insert(&s, act, InsertOutcome::Inserted { available: 0 });
    v.end_segment(&s, act);
}

#[test]
fn reset_stops_following() {
    let mut v = TlsValidator::new();
    followed(&mut v, flow(1));
    let mut s = seg(flow(1), 0, vec![]);
    s.rst = true;
    let act = v.begin_segment(&s);
    assert!(matches!(v.end_segment(&s, act), SegmentReport::Reset));
    assert!(!v.is_followed(&flow(1)));
}

#[test]
fn fin_hands_back_the_payload() {
    let mut v = TlsValidator::new();
    followed(&mut v, flow(1));
    v.absorb_payload(&flow(1), 0, &[4, 5]);
    let mut s = seg(flow(1), 0, vec![]);
    s.fin = true;
    let act = v.begin_segment(&s);
    match v.end_segment(&s, act) {
        SegmentReport::Finished(Some(p)) => assert_eq!(p, vec![4, 5]),
        _ => panic!("expected the gathered payload"),
    }
    assert!(!v.is_followed(&flow(1)));
    assert!(v.gathered_payload(&flow(1)).is_none());
}

#[test]
fn same_flow_changes_nothing() {
    let mut v = TlsValidator::new();
    followed(&mut v, flow(1));
    let s = seg(flow(1), 0, vec![]);
    let act = v.begin_segment(&s);
    assert!(matches!(v.end_segment(&s, act), SegmentReport::SameFlow));
    assert!(v.is_followed(&flow(1)));
}

#[test]
fn switching_flows_extracts_the_previous_chain() {
    let mut v = TlsValidator::new();
    followed(&mut v, flow(2));
    followed(&mut v, flow(1));
    v.absorb_payload(&flow(1), 0, &flight());
    // A segment of the followed flow 2 comes after one of flow 1.
    let s = seg(flow(2), 0, vec![]);
    let act = v.begin_segment(&s);
    assert_eq!(act, BufferAction::AddData { seq: 0 });
    match v.end_segment(&s, act) {
        SegmentReport::FlowSwitched(Some(HandshakeFinding::Chain(Ok(c)))) => {
            assert_eq!(c, vec![vec![0xde, 0xad]])
        }
        _ => panic!("expected the certificate chain"),
    }
    assert!(v.gathered_payload(&flow(1)).is_none());
    assert!(!v.is_followed(&flow(2)));
}

#[test]
fn switching_flows_reports_other_payloads() {
    let mut v = TlsValidator::new();
    followed(&mut v, flow(2));
    followed(&mut v, flow(1));
    v.absorb_payload(&flow(1), 0, &hs(0x0e, &[]));
    let s = seg(flow(2), 0, vec![]);
    let act = v.begin_segment(&s);
    assert!(matches!(v.end_segment(&s, act), SegmentReport::FlowSwitched(Some(HandshakeFinding::NotServerHello))));

    let mut w = TlsValidator::new();
    followed(&mut w, flow(2));
    followed(&mut w, flow(1));
    let act = w.begin_segment(&s);
    assert!(matches!(w.end_segment(&s, act), SegmentReport::FlowSwitched(None)));

    let mut x = TlsValidator::new();
    followed(&mut x, flow(2));
    followed(&mut x, flow(1));
    let truncated = flight();
    x.absorb_payload(&flow(1), 0, &truncated[..truncated.len() - 9]);
    let act = x.begin_segment(&s);
    assert!(matches!(x.end_segment(&s, act), SegmentReport::FlowSwitched(Some(HandshakeFinding::Truncated))));
}

#[test]
fn new_flow_drops_the_previous_flows_payload() {
    let mut v = TlsValidator::new();
    followed(&mut v, flow(1));
    v.absorb_payload(&flow(1), 0, &[1]);
    let s = seg(flow(3), 0, vec![]);
    assert!(matches!(v.begin_segment(&s), BufferAction::Open { .. }));
    assert!(v.gathered_payload(&flow(1)).is_none());
}

#[test]
fn handshake_view_of_certificate() {
    let h = Handshake::Certificate(vec![vec![1]]);
    assert!(matches!(h, Handshake::Certificate(_)));
}

#[test]
fn read_loop_and_groups() {
    assert!(must_read(3, 2));
    assert!(!must_read(3, 3));
    assert!(!must_read(0, 0));
    assert_eq!(validator_group(6), 0);
    assert_eq!(validator_group(17), 1);
}
