use netbricks_nf::rdr::{
    rdr_retrieve_users, rdr_select_work, rdr_visit_decision, tab_step, tally_browsing, BrowseResult,
    TabAction, VisitDecision,
};
use netbricks_nf::json::{decimal_chars, json_member, parse_json, Json};
use netbricks_nf::workload::{
    rdr_load_workload, second_workload, sort_visits, try_rdr_load_workload, visit_less,
};

#[test]
fn users_per_setup() {
    let expected = [(1, 2), (2, 4), (3, 8), (4, 12), (5, 16), (6, 20)];
    for (setup, users) in expected {
        assert_eq!(rdr_retrieve_users(setup), Some(users));
    }
    assert_eq!(rdr_retrieve_users(0), None);
    assert_eq!(rdr_retrieve_users(7), None);
}

#[test]
fn visit_decisions() {
    assert_eq!(rdr_visit_decision(750, 0), VisitDecision::Stop);
    assert_eq!(rdr_visit_decision(749, 748), VisitDecision::Wait);
    assert_eq!(rdr_visit_decision(749, 749), VisitDecision::Browse);
    assert_eq!(rdr_visit_decision(0, 0), VisitDecision::Browse);
}

#[test]
fn selects_work_of_rdr_users() {
    let work = vec![(1, "a.com".to_string(), 3), (2, "b.com".to_string(), 9), (3, "c.com".to_string(), 3)];
    assert_eq!(rdr_select_work(&vec![3], &work), vec![0, 2]);
    assert_eq!(rdr_select_work(&vec![], &work), Vec::<usize>::new());
}

#[test]
fn tallies_visits() {
    let results = vec![
        BrowseResult::Done { code: 1, elapsed_millis: 10 },
        BrowseResult::Done { code: 3, elapsed_millis: 5 },
        BrowseResult::Failed,
        BrowseResult::Done { code: 2, elapsed_millis: 1 },
        BrowseResult::Done { code: 9, elapsed_millis: 100 },
    ];
    assert_eq!(tally_browsing(&results), Some((1, 2, 1, 0, 3, 16)));
    assert_eq!(tally_browsing(&vec![]), None);
    assert_eq!(tally_browsing(&vec![BrowseResult::Done { code: 0, elapsed_millis: 1 }]), None);
    assert_eq!(tally_browsing(&vec![BrowseResult::Failed]), Some((0, 1, 0, 0, 0, 0)));
}

#[test]
fn visits_order_by_milli_then_site_then_user() {
    let a = (5, "b.com".to_string(), 1);
    let b = (6, "a.com".to_string(), 0);
    let c = (5, "a.com".to_string(), 2);
    let d = (5, "a.com".to_string(), 3);
    assert!(visit_less(&a, &b));
    assert!(visit_less(&c, &a));
    assert!(visit_less(&c, &d));
    assert!(!visit_less(&d, &c));
    assert!(!visit_less(&a, &a));
    assert!(visit_less(&(1, "ab".to_string(), 0), &(1, "abc".to_string(), 0)));
}

#[test]
fn sorts_visits() {
    let v = vec![
        (9, "z.com".to_string(), 0),
        (1, "b.com".to_string(), 2),
        (1, "a.com".to_string(), 5),
        (1, "a.com".to_string(), 4),
    ];
    let mut expected = v.clone();
    expected.sort();
    assert_eq!(sort_visits(v), expected);
    assert_eq!(sort_visits(vec![]), vec![]);
}

#[test]
fn parses_json_documents() {
    match parse_json(br#"{"1": [300, "a.com"], "x": null, "n": -3, "t": true}"#) {
        Some(Json::Object(members)) => {
            assert_eq!(members.len(), 4);
            let doc = Json::Object(members);
            let one = json_member(&doc, &decimal_chars(1));
            match one {
                Some(Json::Array(a)) => {
                    assert!(matches!(a[0], Json::Number(Some(300))));
                    assert!(matches!(&a[1], Json::Str(s) if s == "a.com"));
                }
                _ => panic!("expected the member named 1"),
            }
        }
        _ => panic!("expected an object"),
    }
    assert!(matches!(parse_json(b"-3"), Some(Json::Number(None))));
    assert!(parse_json(b"{").is_none());
    assert!(parse_json(b"").is_none());
}

#[test]
fn decimal_names() {
    assert_eq!(decimal_chars(0), vec!['0']);
    assert_eq!(decimal_chars(266), vec!['2', '6', '6']);
}

#[test]
fn second_workload_skips_broken_and_absent() {
    let second = parse_json(
        br#"{"0": [300, "facebook.com"], "2": ["not a number", "broken.example"], "3": [39, "bing.com"], "7": [1, "late.com"]}"#,
    )
    .unwrap();
    let broken = vec!["broken.example".to_string()];
    assert_eq!(
        second_workload(&second, 4, &broken).unwrap(),
        vec![(39, "bing.com".to_string(), 3), (300, "facebook.com".to_string(), 0)]
    );
}

#[test]
fn unreadable_records_fail() {
    let broken = vec![];
    for doc in [r#"{"0": [1]}"#, r#"{"0": "x"}"#, r#"{"0": [1, 2]}"#, r#"{"0": [-1, "a.com"]}"#] {
        let second = parse_json(doc.as_bytes()).unwrap();
        assert!(second_workload(&second, 1, &broken).is_none());
    }
}

#[test]
fn builds_the_session_workload() {
    let session = br#"{"0": {"0": [7, "x.org"], "1": [3, "y.org"]}, "2": {}, "9": {"0": [1, "z.org"]}}"#;
    let w = rdr_load_workload(session, 3, 2, &vec![]);
    assert_eq!(try_rdr_load_workload(session, 3, 2, &vec![]).unwrap(), w);
    assert_eq!(w.len(), 2);
    assert_eq!(w[&0], vec![(3, "y.org".to_string(), 1), (7, "x.org".to_string(), 0)]);
    assert!(!w.contains_key(&1));
    assert_eq!(w[&2], vec![]);
    assert!(try_rdr_load_workload(b"not json", 3, 2, &vec![]).is_none());
    assert!(try_rdr_load_workload(br#"{"1": {"1": [1]}}"#, 3, 2, &vec![]).is_none());
    assert!(rdr_load_workload(br#"[1, 2]"#, 3, 2, &vec![]).is_empty());
}

#[test]
fn tab_attempts() {
    assert_eq!(tab_step(1, true), TabAction::Navigate);
    assert_eq!(tab_step(1, false), TabAction::RetryAfterPause);
    assert_eq!(tab_step(2, true), TabAction::Navigate);
    assert_eq!(tab_step(2, false), TabAction::GiveUp);
}
