use pairqr::adb::CommandRun;
use pairqr::address::HostAddr;
use pairqr::device::{BrowseEvent, Service};
use pairqr::pairing::{Pairing, PairingAction, PairingEvent, PairingStage};

fn service(fullname: &str, addresses: Vec<HostAddr>) -> Service {
    Service {
        fullname: fullname.to_string(),
        hostname: "android.local.".to_string(),
        port: 37001,
        addresses,
    }
}

fn resolved(fullname: &str, addresses: Vec<HostAddr>) -> PairingEvent {
    PairingEvent::Browse(BrowseEvent::Resolved(service(fullname, addresses)))
}

fn printed(stdout: &str) -> PairingEvent {
    PairingEvent::Ran(CommandRun::Finished {
        stdout: stdout.as_bytes().to_vec(),
        stderr: Vec::new(),
    })
}

fn receiving() -> Pairing {
    let mut p = Pairing::new("studio-abc", "pw");
    assert!(matches!(p.pending(), PairingAction::CheckRunning));
    assert!(p.step(&PairingEvent::Running(true)).is_empty());
    assert!(matches!(p.pending(), PairingAction::Receive));
    p
}

#[test]
fn device_is_paired() {
    let mut p = receiving();
    let lines = p.step(&resolved(
        "studio-abc._adb-tls-pairing._tcp.local.",
        vec![HostAddr::new(false, "10.0.0.2")],
    ));
    assert_eq!(
        lines,
        vec![
            "\n[+] Device found: studio-abc._adb-tls-pairing._tcp.local.",
            "    Server: android.local.",
            "    Port: 37001",
            "\n[*] Running: adb pair 10.0.0.2:37001 ******",
        ]
    );
    match p.pending() {
        PairingAction::Run(args) => assert_eq!(args, vec!["pair", "10.0.0.2:37001", "pw"]),
        _ => panic!("adb should be run"),
    }
    let lines = p.step(&printed("Successfully paired to 10.0.0.2:37001 [guid=adb-G]"));
    assert_eq!(lines[1], "[+] Pairing successful!");
    assert!(matches!(p.pending(), PairingAction::CheckRunning));
    assert!(p.step(&PairingEvent::Running(true)).is_empty());
    assert!(matches!(p.pending(), PairingAction::CheckRunning));
    let lines = p.step(&PairingEvent::Running(true));
    assert_eq!(lines, vec!["\n[*] Looking for device connect service..."]);
    assert!(matches!(p.pending(), PairingAction::Stop));
    assert!(matches!(p.stage, PairingStage::Paired));
    let device = p.device.unwrap();
    assert_eq!(device.ip, "10.0.0.2");
    assert_eq!(device.port, 37001);
    assert_eq!(device.guid, Some("adb-G".to_string()));
}

#[test]
fn foreign_services_are_ignored() {
    let mut p = receiving();
    let lines = p.step(&resolved("adb-XYZ._adb-tls-pairing._tcp.local.", vec![HostAddr::new(false, "10.0.0.3")]));
    assert!(lines.is_empty());
    assert!(matches!(p.stage, PairingStage::Polling));
    assert!(p.device.is_none());
}

#[test]
fn service_without_an_address_is_only_reported() {
    let mut p = receiving();
    let lines = p.step(&resolved("studio-abc.x", vec![]));
    assert_eq!(lines, vec!["\n[+] Device found: studio-abc.x"]);
    assert!(matches!(p.stage, PairingStage::Polling));
}

#[test]
fn removals_are_reported_if_ours() {
    let mut p = receiving();
    let lines = p.step(&PairingEvent::Browse(BrowseEvent::Removed("studio-abc.x".to_string())));
    assert_eq!(lines, vec!["\n[!] Service removed: studio-abc.x"]);
    let mut p = receiving();
    assert!(p.step(&PairingEvent::Browse(BrowseEvent::Removed("other".to_string()))).is_empty());
}

#[test]
fn failed_pairing_is_waited_out() {
    let mut p = receiving();
    p.step(&resolved("studio-abc.x", vec![HostAddr::new(true, "fe80::1")]));
    match p.pending() {
        PairingAction::Run(args) => assert_eq!(args[1], "[fe80::1]:37001"),
        _ => panic!("adb should be run"),
    }
    let failed = PairingEvent::Ran(CommandRun::Failed { reason: "gone".to_string() });
    assert_eq!(p.step(&failed), vec!["[-] Failed to run adb: gone"]);
    assert!(p.device.is_none());
    p.step(&PairingEvent::Running(true));
    assert!(matches!(p.pending(), PairingAction::Receive));
    p.step(&PairingEvent::Browse(BrowseEvent::TimedOut));
    assert!(matches!(p.stage, PairingStage::Polling));
    p.step(&PairingEvent::Running(true));
    p.step(&PairingEvent::Browse(BrowseEvent::Other));
    assert!(matches!(p.stage, PairingStage::Polling));
}

#[test]
fn user_can_cancel() {
    let mut p = Pairing::new("studio-abc", "pw");
    p.step(&PairingEvent::Running(false));
    assert!(matches!(p.stage, PairingStage::Leaving));
    assert_eq!(p.step(&PairingEvent::Running(false)), vec!["\n\n[*] Cancelled by user"]);
    assert!(matches!(p.stage, PairingStage::Cancelled));
    assert!(p.step(&PairingEvent::Running(true)).is_empty());
    assert!(matches!(p.stage, PairingStage::Cancelled));
}

#[test]
fn end_of_browsing_leaves_unpaired() {
    let mut p = receiving();
    p.step(&PairingEvent::Browse(BrowseEvent::Disconnected));
    assert!(matches!(p.stage, PairingStage::Leaving));
    assert!(p.step(&PairingEvent::Running(true)).is_empty());
    assert!(matches!(p.stage, PairingStage::Unpaired));
    assert!(matches!(p.pending(), PairingAction::Stop));
}

#[test]
fn events_out_of_turn_change_nothing() {
    let mut p = receiving();
    assert!(p.step(&PairingEvent::Running(false)).is_empty());
    assert!(matches!(p.stage, PairingStage::Receiving));
    assert!(p.step(&printed("Successfully paired")).is_empty());
    assert!(p.device.is_none());
}

#[test]
fn password_is_not_shown() {
    let mut lines = Vec::new();
    let mut p = Pairing::new("studio-abc", "s3cr3t");
    lines.extend(p.step(&PairingEvent::Running(true)));
    lines.extend(p.step(&resolved("studio-abc.x", vec![HostAddr::new(false, "10.0.0.2")])));
    lines.extend(p.step(&printed("Successfully paired")));
    lines.extend(p.step(&PairingEvent::Running(true)));
    lines.extend(p.step(&PairingEvent::Running(true)));
    assert_eq!(lines.len(), 7);
    assert!(lines.iter().all(|l| !l.contains("s3cr3t")));
}
