use netbricks_nf::p2p::{
    bittorrent_ports, is_p2p_packet, str_equal, workload_kind, P2pMonitor, P2pWorkload, MATCH_IP,
};

#[test]
fn ports_are_the_bittorrent_ones() {
    assert_eq!(bittorrent_ports(), vec![6882, 6883, 6884, 6885, 6886, 6887, 6888, 6889, 6969]);
}

#[test]
fn match_ip_is_the_monitored_host() {
    assert_eq!(MATCH_IP, u32::from_be_bytes([10, 200, 111, 76]));
}

#[test]
fn p2p_packets_in_both_directions() {
    assert!(is_p2p_packet(MATCH_IP, 1, 6, 40000, 6881 + 1));
    assert!(is_p2p_packet(1, MATCH_IP, 6, 6969, 40000));
    assert!(!is_p2p_packet(MATCH_IP, 1, 17, 40000, 6882));
    assert!(!is_p2p_packet(MATCH_IP, 1, 6, 6882, 40000));
    assert!(!is_p2p_packet(2, 1, 6, 6882, 6882));
    assert!(!is_p2p_packet(MATCH_IP, 1, 6, 40000, 6890));
}

#[test]
fn p2p_match_is_symmetric() {
    for &(s, d, sp, dp) in &[(MATCH_IP, 7, 1000, 6883), (7, MATCH_IP, 6884, 1000), (7, 8, 6882, 6882)] {
        assert_eq!(is_p2p_packet(s, d, 6, sp, dp), is_p2p_packet(d, s, 6, dp, sp));
    }
}

#[test]
fn workload_kinds() {
    assert_eq!(workload_kind("app_p2p-controlled"), P2pWorkload::Controlled);
    assert_eq!(workload_kind("app_p2p"), P2pWorkload::Transmission);
    assert_eq!(workload_kind("app_p2p-ext"), P2pWorkload::Transmission);
    assert_eq!(workload_kind("app_p2p-"), P2pWorkload::Unknown);
    assert_eq!(workload_kind(""), P2pWorkload::Unknown);
    assert!(str_equal("abc", "abc"));
    assert!(!str_equal("abc", "abd"));
    assert!(!str_equal("ab", "abc"));
}

#[test]
fn workload_starts_once_and_report_comes_once() {
    let mut m = P2pMonitor::new("app_p2p");
    let step = m.on_packet(1, 2, 6, 1, 2, 0);
    assert_eq!(step.start_workload, None);
    assert_eq!(step.report, None);
    let step = m.on_packet(MATCH_IP, 2, 6, 1, 6882, 10);
    assert_eq!(step.start_workload, Some(P2pWorkload::Transmission));
    let step = m.on_packet(MATCH_IP, 2, 6, 1, 6882, 20);
    assert_eq!(step.start_workload, None);
    let step = m.on_packet(1, 2, 6, 1, 2, 600);
    assert_eq!(step.report, Some(4));
    let step = m.on_packet(1, 2, 6, 1, 2, 700);
    assert_eq!(step.report, None);
    assert_eq!(m.pkt_count, 5);
}
