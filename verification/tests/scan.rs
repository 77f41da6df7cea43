use pairqr::scan::{scan_open_ports, scan_plan, Scan};

#[test]
fn test_scan_open_ports_finds_mock_adb() {
    for port in [30010u16, 31000] {
        let ends: Vec<(u16, bool)> =
            scan_plan(true, None).into_iter().map(|p| (p, p == port)).collect();
        let found = scan_open_ports(true, &ends);
        assert_eq!(found, vec![port]);
    }
}

#[test]
fn plan_covers_the_range() {
    let plan = scan_plan(true, None);
    assert_eq!(plan.len(), 35536);
    assert_eq!(plan[0], 30000);
    assert_eq!(plan[35535], 65535);
    assert!(plan.windows(2).all(|w| w[1] == w[0] + 1));
}

#[test]
fn plan_leaves_out_the_excluded_port() {
    let plan = scan_plan(true, Some(37001));
    assert_eq!(plan.len(), 35535);
    assert!(!plan.contains(&37001));
    assert!(plan.contains(&37000) && plan.contains(&37002));
    assert_eq!(scan_plan(true, Some(80)).len(), 35536);
    assert_eq!(scan_plan(true, Some(65535)).last(), Some(&65534));
}

#[test]
fn unknown_target_is_not_scanned() {
    assert!(scan_plan(false, None).is_empty());
    assert!(scan_open_ports(false, &[(40000, true)]).is_empty());
}

#[test]
fn first_match_wins() {
    let ends = [(40000, false), (40002, true), (40001, true)];
    assert_eq!(scan_open_ports(true, &ends), vec![40002]);
    assert!(scan_open_ports(true, &ends[..1]).is_empty());
}

#[test]
fn scan_stops_after_a_match() {
    let mut scan = Scan::new();
    assert!(scan.admits());
    scan.report(40000, false);
    assert!(scan.admits());
    assert!(scan.open_ports().is_empty());
    scan.report(40001, true);
    assert!(!scan.admits());
    scan.report(40002, true);
    scan.report(40003, false);
    assert!(!scan.admits());
    assert_eq!(scan.open_ports(), vec![40001]);
}

#[test]
fn scan_without_an_answer_is_empty() {
    let ends: Vec<(u16, bool)> = scan_plan(true, Some(40000)).into_iter().map(|p| (p, false)).collect();
    assert!(scan_open_ports(true, &ends).is_empty());
}
