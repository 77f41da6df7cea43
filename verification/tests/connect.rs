use pairqr::adb::CommandRun;
use pairqr::address::HostAddr;
use pairqr::connect::{ConnectAction, ConnectEvent, ConnectStage, Connecting};
use pairqr::device::{BrowseEvent, Device, Service};

const SECOND: u64 = 1_000_000_000;

fn start(has_connect: bool, has_legacy: bool) -> Connecting {
    let device = Device {
        ip: "10.0.0.2".to_string(),
        port: 37001,
        guid: Some("adb-G1".to_string()),
    };
    Connecting::new(vec!["10.0.0.2:1".to_string()], device, has_connect, has_legacy)
}

fn printed(stdout: &str) -> ConnectEvent {
    ConnectEvent::Ran(CommandRun::Finished {
        stdout: stdout.as_bytes().to_vec(),
        stderr: Vec::new(),
    })
}

fn polled(now: u64) -> ConnectEvent {
    ConnectEvent::Polled { running: true, now }
}

fn quiet() -> ConnectEvent {
    ConnectEvent::Browse(BrowseEvent::TimedOut)
}

fn announced(fullname: &str, ip: &str) -> ConnectEvent {
    ConnectEvent::Browse(BrowseEvent::Resolved(Service {
        fullname: fullname.to_string(),
        hostname: "h.local.".to_string(),
        port: 5555,
        addresses: vec![HostAddr::new(false, ip)],
    }))
}

fn args(c: &Connecting) -> Vec<String> {
    match c.pending() {
        ConnectAction::Run(args) => args,
        _ => panic!("adb should be run"),
    }
}

#[test]
fn adb_may_connect_on_its_own() {
    let mut c = start(true, true);
    assert!(matches!(c.pending(), ConnectAction::Poll));
    c.step(&polled(0));
    assert_eq!(args(&c), vec!["devices"]);
    let lines = c.step(&printed("List\n10.0.0.2:1\tdevice\n10.0.0.2:5555\tdevice\n"));
    assert_eq!(lines, vec!["[+] Auto-connected by ADB: 10.0.0.2:5555"]);
    assert!(c.connected);
    assert!(matches!(c.pending(), ConnectAction::Stop));
}

#[test]
fn earlier_serials_do_not_count() {
    let mut c = start(true, true);
    c.step(&polled(0));
    assert!(c.step(&printed("List\n10.0.0.2:1\tdevice\nother\tdevice\n")).is_empty());
    assert!(!c.connected);
    assert!(matches!(c.pending(), ConnectAction::Receive { legacy: false }));
}

#[test]
fn announced_service_is_joined() {
    let mut c = start(true, true);
    c.step(&polled(0));
    c.step(&printed("List\n"));
    assert!(c.step(&announced("stranger", "10.0.0.9")).is_empty());
    assert!(matches!(c.pending(), ConnectAction::Receive { legacy: false }));
    let lines = c.step(&announced("G1._adb-tls-connect._tcp.local.", "10.0.0.2"));
    assert_eq!(
        lines,
        vec!["[+] Connect service found matching target (mDNS): 10.0.0.2:5555"]
    );
    assert_eq!(args(&c), vec!["connect", "10.0.0.2:5555"]);
    assert_eq!(c.step(&printed("failed to connect")), vec!["    adb: failed to connect"]);
    assert!(matches!(c.pending(), ConnectAction::Receive { legacy: false }));
    c.step(&announced("other", "10.0.0.2"));
    let lines = c.step(&printed("connected to 10.0.0.2:5555\n"));
    assert_eq!(lines, vec!["    adb: connected to 10.0.0.2:5555", "[+] Connected!"]);
    assert!(c.connected);
    assert!(matches!(c.stage, ConnectStage::Done));
}

#[test]
fn service_without_an_address_is_not_joined() {
    let mut c = start(true, false);
    c.step(&polled(0));
    c.step(&printed("List\n"));
    let event = ConnectEvent::Browse(BrowseEvent::Resolved(Service {
        fullname: "G1".to_string(),
        hostname: String::new(),
        port: 1,
        addresses: Vec::new(),
    }));
    assert!(c.step(&event).is_empty());
    assert!(matches!(c.pending(), ConnectAction::Receive { legacy: false }));
    assert!(c.step(&ConnectEvent::Browse(BrowseEvent::Other)).is_empty());
    assert!(c.step(&ConnectEvent::Browse(BrowseEvent::Removed("G1".to_string()))).is_empty());
    assert!(matches!(c.pending(), ConnectAction::Receive { legacy: false }));
}

#[test]
fn browsing_goes_from_one_type_to_the_other() {
    let mut c = start(true, true);
    c.step(&polled(0));
    c.step(&printed("List\n"));
    c.step(&quiet());
    assert!(matches!(c.pending(), ConnectAction::Receive { legacy: true }));
    c.step(&announced("G1", "10.0.0.2"));
    c.step(&printed(""));
    assert!(matches!(c.pending(), ConnectAction::Receive { legacy: true }));
    c.step(&ConnectEvent::Browse(BrowseEvent::Disconnected));
    assert!(matches!(c.pending(), ConnectAction::ReadClock));

    let mut c = start(false, true);
    c.step(&polled(0));
    c.step(&printed("List\n"));
    assert!(matches!(c.pending(), ConnectAction::Receive { legacy: true }));

    let mut c = start(false, false);
    c.step(&polled(0));
    c.step(&printed("List\n"));
    assert!(matches!(c.pending(), ConnectAction::ReadClock));

    let mut c = start(true, false);
    c.step(&polled(0));
    c.step(&printed("List\n"));
    c.step(&quiet());
    assert!(matches!(c.pending(), ConnectAction::ReadClock));
}

/// Plays a round in which nothing is found, up to the reading of the clock, and
/// tells whether a scan follows.
fn round(c: &mut Connecting, now: u64) -> bool {
    c.step(&polled(now));
    c.step(&printed("List\n"));
    c.step(&ConnectEvent::Clock(now));
    let scans = matches!(c.pending(), ConnectAction::Scan { .. });
    if scans {
        c.step(&ConnectEvent::Ports(Vec::new()));
    }
    assert!(matches!(c.pending(), ConnectAction::Rest));
    c.step(&ConnectEvent::Rested);
    scans
}

#[test]
fn scans_keep_their_distance() {
    let mut c = start(false, false);
    let mut times = Vec::new();
    for now in (0..14 * SECOND).step_by(500_000_000) {
        if round(&mut c, now) {
            times.push(now);
        }
    }
    assert_eq!(times, vec![2 * SECOND, 5 * SECOND, 8 * SECOND, 11 * SECOND]);
}

#[test]
fn scan_bounds_are_exact() {
    let mut c = start(false, false);
    assert!(!round(&mut c, 2 * SECOND - 1));
    assert!(round(&mut c, 2 * SECOND));
    assert!(!round(&mut c, 5 * SECOND - 1));
    assert!(!round(&mut c, SECOND));
    assert!(round(&mut c, 5 * SECOND));
}

#[test]
fn scanned_ports_are_dialled() {
    let mut c = start(false, false);
    c.step(&polled(3 * SECOND));
    c.step(&printed("List\n"));
    let lines = c.step(&ConnectEvent::Clock(3 * SECOND));
    assert_eq!(lines, vec!["[*] Scanning active wireless debugging ports on 10.0.0.2..."]);
    match c.pending() {
        ConnectAction::Scan { ip, exclude_port } => {
            assert_eq!(ip, "10.0.0.2");
            assert_eq!(exclude_port, 37001);
        }
        _ => panic!("the device should be scanned"),
    }
    let lines = c.step(&ConnectEvent::Ports(vec![40001, 40002]));
    assert_eq!(
        lines,
        vec![
            "[*] Discovered active ADB wireless debugging port: 10.0.0.2:40001",
            "[*] Connecting to 10.0.0.2:40001...",
        ]
    );
    assert_eq!(args(&c), vec!["connect", "10.0.0.2:40001"]);
    let lines = c.step(&printed("failed"));
    assert_eq!(
        lines,
        vec![
            "    adb: failed",
            "[*] Discovered active ADB wireless debugging port: 10.0.0.2:40002",
            "[*] Connecting to 10.0.0.2:40002...",
        ]
    );
    assert_eq!(args(&c), vec!["connect", "10.0.0.2:40002"]);
    let mut d = start(false, false);
    d.stage = ConnectStage::Dialing { ports: vec![40002], at: 0 };
    d.step(&ConnectEvent::Ran(CommandRun::Failed { reason: "x".to_string() }));
    assert!(matches!(d.pending(), ConnectAction::Rest));
    c.step(&printed("already connected to 10.0.0.2:40002"));
    assert!(c.connected);
}

#[test]
fn empty_scan_is_reported() {
    let mut c = start(false, false);
    c.step(&polled(3 * SECOND));
    c.step(&printed("List\n"));
    c.step(&ConnectEvent::Clock(3 * SECOND));
    let lines = c.step(&ConnectEvent::Ports(Vec::new()));
    assert_eq!(
        lines,
        vec!["[-] No active ADB connect ports found on 10.0.0.2 yet, retrying..."]
    );
}

#[test]
fn time_and_user_end_the_rounds() {
    let mut c = start(false, false);
    c.step(&polled(15 * SECOND - 1));
    assert!(matches!(c.stage, ConnectStage::Listing));
    let mut c = start(false, false);
    c.step(&polled(15 * SECOND));
    assert!(matches!(c.pending(), ConnectAction::Stop));
    assert!(!c.connected);
    let mut c = start(false, false);
    c.step(&ConnectEvent::Polled { running: false, now: 0 });
    assert!(matches!(c.pending(), ConnectAction::Stop));
    assert!(c.step(&polled(0)).is_empty());
    assert!(matches!(c.pending(), ConnectAction::Stop));
}
