use pairqr::address::HostAddr;
use pairqr::device::{
    Device, Service, CONNECT_SERVICE, CONNECT_SERVICE_LEGACY, PAIRING_SERVICE,
};

fn device(guid: Option<&str>) -> Device {
    Device { ip: "10.0.0.2".to_string(), port: 37001, guid: guid.map(|g| g.to_string()) }
}

fn service(fullname: &str, hostname: &str, ip: &str) -> Service {
    Service {
        fullname: fullname.to_string(),
        hostname: hostname.to_string(),
        port: 5555,
        addresses: vec![HostAddr::new(false, ip)],
    }
}

fn strings(list: &[&str]) -> Vec<String> {
    list.iter().map(|s| s.to_string()).collect()
}

#[test]
fn service_types_are_those_of_adb() {
    assert_eq!(PAIRING_SERVICE, "_adb-tls-pairing._tcp.local.");
    assert_eq!(CONNECT_SERVICE, "_adb-tls-connect._tcp.local.");
    assert_eq!(CONNECT_SERVICE_LEGACY, "_adb._tcp.local.");
}

#[test]
fn serials_match_by_address_or_guid() {
    let d = device(Some("adb-XYZ-1"));
    assert!(d.owns_serial("10.0.0.2:5555"));
    assert!(d.owns_serial("adb-XYZ-1._adb-tls-connect._tcp"));
    assert!(d.owns_serial("XYZ-1"));
    assert!(!d.owns_serial("emulator-5554"));
    assert!(!device(None).owns_serial("XYZ-1"));
    assert!(device(None).owns_serial("10.0.0.21:5555"));
}

#[test]
fn empty_guid_matches_everything() {
    assert!(device(Some("")).owns_serial("emulator-5554"));
    assert!(device(Some("adb-")).owns_serial("emulator-5554"));
}

#[test]
fn services_match_by_name_host_or_address() {
    let d = device(Some("adb-XYZ-1"));
    assert!(d.owns_service(&service("adb-XYZ-1._adb._tcp.local.", "h", "10.0.0.9")));
    assert!(d.owns_service(&service("other", "XYZ-1.local.", "10.0.0.9")));
    assert!(d.owns_service(&service("other", "h", "10.0.0.2")));
    assert!(!d.owns_service(&service("other", "h", "10.0.0.9")));
    let six = Device { ip: "[fe80::1]".to_string(), port: 1, guid: None };
    assert!(six.owns_service(&service("other", "h", "fe80::1")));
}

#[test]
fn only_new_serials_are_found() {
    let d = device(Some("XYZ"));
    let initial = strings(&["10.0.0.2:1"]);
    assert_eq!(d.find_new_serial(&initial, &strings(&["10.0.0.2:1", "emulator-5554"])), None);
    assert_eq!(
        d.find_new_serial(&initial, &strings(&["10.0.0.2:1", "10.0.0.2:2", "XYZ"])),
        Some("10.0.0.2:2".to_string())
    );
    assert_eq!(d.find_new_serial(&[], &strings(&["10.0.0.2:1"])), Some("10.0.0.2:1".to_string()));
    assert_eq!(d.find_new_serial(&initial, &[]), None);
}
