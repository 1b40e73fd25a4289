use netbricks_nf::batch::{Batch, FilterBatch, Packet, PacketBatch, ReplaceBatch};
use netbricks_nf::headers::{EndOffset, NullHeader};
use netbricks_nf::sctp::{
    accept_ready, handler_for, Handler, ScheduleAction, SctpControlAgent, SctpControlServer, HUP,
    READ, WRITE,
};
use netbricks_nf::shared_vec::{round_to_pages, SharedVec, PAGE_SIZE};

fn pkt(data: Vec<u8>, header_offset: usize) -> Packet {
    Packet { data, header_offset }
}

#[test]
fn null_header_is_empty() {
    let h = NullHeader;
    assert_eq!(h.offset(), 0);
    assert_eq!(NullHeader::size(), 0);
    assert_eq!(h.payload_size(77), 77);
    assert!(h.check_correct(&NullHeader));
    assert_eq!(h.to_string(), "null");
}

#[test]
fn filter_keeps_accepted_packets_in_order() {
    let batch = PacketBatch::new(
        32,
        vec![pkt(vec![1], 0), pkt(vec![2], 0), pkt(vec![3], 0), pkt(vec![4], 0)],
    );
    let mut f = FilterBatch::new(batch, |p: &Packet| p.data[0] % 2 == 0);
    assert_eq!(f.capacity(), 32);
    f.act();
    let kept: Vec<u8> = f.get_packet_batch().packets.iter().map(|p| p.data[0]).collect();
    assert_eq!(kept, vec![2, 4]);
    f.act();
    assert_eq!(f.get_packet_batch().len(), 2);
}

#[test]
fn filter_rejecting_all_empties_the_batch() {
    let batch = PacketBatch::new(8, vec![pkt(vec![1], 0), pkt(vec![3], 0)]);
    let mut f = FilterBatch::new(batch, |_: &Packet| false);
    f.act();
    assert_eq!(f.get_packet_batch().len(), 0);
}

#[test]
fn drop_packets_checks_positions() {
    let mut b = PacketBatch::new(8, vec![pkt(vec![0], 0), pkt(vec![1], 0), pkt(vec![2], 0)]);
    assert_eq!(b.drop_packets(&[2, 1]), None);
    assert_eq!(b.drop_packets(&[0, 3]), None);
    assert_eq!(b.drop_packets(&[1, 1]), None);
    assert_eq!(b.len(), 3);
    assert_eq!(b.drop_packets(&[]), Some(0));
    assert_eq!(b.drop_packets(&[0, 2]), Some(2));
    assert_eq!(b.packets[0].data, vec![1]);
    b.clear_packets();
    assert_eq!(b.len(), 0);
}

#[test]
fn filter_batch_delegates_to_its_batch() {
    let batch = PacketBatch::new(5, vec![pkt(vec![0], 0), pkt(vec![1], 0)]);
    let mut f = FilterBatch::new(batch, |_: &Packet| true);
    assert_eq!(f.capacity(), 5);
    assert_eq!(f.drop_packets(&[0]), Some(1));
    assert_eq!(f.get_packet_batch().packets[0].data, vec![1]);
    f.clear_packets();
    assert_eq!(f.get_packet_batch().len(), 0);
}

#[test]
fn replace_overwrites_each_header() {
    let batch = PacketBatch::new(4, vec![pkt(vec![0, 0, 0, 0, 9], 1), pkt(vec![5, 5, 5], 0)]);
    let mut r = ReplaceBatch::new(batch, vec![7, 8]);
    assert_eq!(r.capacity(), 4);
    r.act();
    assert_eq!(r.get_packet_batch().packets[0].data, vec![0, 7, 8, 0, 9]);
    assert_eq!(r.get_packet_batch().packets[1].data, vec![7, 8, 5]);
    assert_eq!(r.get_packet_batch().packets[0].header_offset, 1);
}

#[test]
fn pages_round_up() {
    assert_eq!(round_to_pages(0), 0);
    assert_eq!(round_to_pages(1), PAGE_SIZE);
    assert_eq!(round_to_pages(4096), 4096);
    assert_eq!(round_to_pages(4097), 8192);
}

#[test]
fn shared_vec_tracks_writes() {
    let mut v: SharedVec<u32> = SharedVec::new_with_capacity(10);
    assert_eq!(v.shared_size(), 4096);
    assert!(!v.is_modified());
    v.push(1);
    v.push(2);
    v.push(3);
    assert_eq!(*v.index(1), 2);
    assert!(!v.is_modified());
    *v.index_mut(1) = 20;
    assert!(v.is_modified());
    assert_eq!(v.borrow(), &[1, 20, 3]);
    assert_eq!(v.index_range(1, 3), &[20, 3]);
    assert_eq!(v.index_to(1), &[1]);
    assert_eq!(v.index_from(2), &[3]);
    assert_eq!(v.len(), 3);
}

struct Agent {
    keep: bool,
    calls: Vec<&'static str>,
}

impl SctpControlAgent for Agent {
    fn handled(_before: Self, _handler: Handler, _after: Self, _keep: bool) -> bool {
        true
    }
    fn handle_read_ready(&mut self) -> bool {
        self.calls.push("read");
        self.keep
    }
    fn handle_write_ready(&mut self) -> bool {
        self.calls.push("write");
        self.keep
    }
    fn handle_hup(&mut self) -> bool {
        self.calls.push("hup");
        false
    }
}

#[test]
fn readiness_dispatch_order() {
    assert_eq!(handler_for(READ | WRITE | HUP), Handler::Read);
    assert_eq!(handler_for(WRITE | HUP), Handler::Write);
    assert_eq!(handler_for(HUP), Handler::Hup);
    assert_eq!(handler_for(0), Handler::Keep);
    assert!(accept_ready(READ));
    assert!(!accept_ready(WRITE));
}

#[test]
fn control_server_tokens_and_dispatch() {
    let mut s: SctpControlServer<Agent> = SctpControlServer::new();
    assert_eq!(s.listener_token(), 0);
    assert_eq!(s.schedule(Some((0, READ))), ScheduleAction::Accept { available: READ });
    let t1 = s.add_connection(Agent { keep: true, calls: vec![] });
    let t2 = s.add_connection(Agent { keep: false, calls: vec![] });
    assert_eq!((t1, t2), (1, 2));
    assert_eq!(s.next_token(), 3);
    assert_eq!(s.schedule(Some((t1, READ))), ScheduleAction::Dispatched { token: t1 });
    assert!(s.has_connection(t1));
    assert_eq!(s.schedule(Some((t2, WRITE))), ScheduleAction::Dispatched { token: t2 });
    assert!(!s.has_connection(t2));
    s.handle_data(t1, 0);
    assert!(s.has_connection(t1));
    s.handle_data(99, READ);
    assert_eq!(s.num_connections(), 1);
    s.handle_data(t1, HUP);
    assert!(!s.has_connection(t1));
    assert_eq!(s.schedule(None), ScheduleAction::Idle);
}

#[test]
fn operators_chain() {
    let batch = PacketBatch::new(
        16,
        vec![pkt(vec![1, 0, 0], 1), pkt(vec![2, 0, 0], 1), pkt(vec![4, 0, 0], 0)],
    );
    let filter = FilterBatch::new(batch, |p: &Packet| p.data[0] != 2);
    let mut replace = ReplaceBatch::new(filter, vec![9, 9]);
    assert_eq!(replace.capacity(), 16);
    replace.act();
    assert_eq!(replace.len(), 2);
    assert_eq!(replace.packet(0).data, vec![1, 9, 9]);
    assert_eq!(replace.packet(1).data, vec![9, 9, 0]);
    replace.done();
    assert_eq!(replace.get_packet_batch().get_packet_batch().packets.len(), 2);
    assert_eq!(replace.drop_packets(&[1]), Some(1));
    assert_eq!(replace.len(), 1);
}
