use pairqr::address::{endpoint_text, get_preferred_ip, includes_ip, HostAddr};

#[test]
fn test_get_preferred_ip_prefers_ipv4() {
    let addrs = [HostAddr::new(true, "fe80::1"), HostAddr::new(false, "192.168.1.50")];
    let preferred = get_preferred_ip(&addrs);
    assert_eq!(preferred, Some("192.168.1.50".to_string()));

    let addrs = [HostAddr::new(false, "192.168.1.50"), HostAddr::new(true, "fe80::1")];
    let preferred = get_preferred_ip(&addrs);
    assert_eq!(preferred, Some("192.168.1.50".to_string()));
}

#[test]
fn test_get_preferred_ip_formats_ipv6() {
    let addrs = [HostAddr::new(true, "2001:db8::1")];
    let preferred = get_preferred_ip(&addrs);
    assert_eq!(preferred, Some("[2001:db8::1]".to_string()));
}

#[test]
fn test_get_preferred_ip_empty() {
    let addrs: [HostAddr; 0] = [];
    assert_eq!(get_preferred_ip(&addrs), None);
}

#[test]
fn first_of_several_is_preferred() {
    let addrs = [
        HostAddr::new(true, "fe80::1"),
        HostAddr::new(false, "10.0.0.2"),
        HostAddr::new(false, "10.0.0.1"),
    ];
    assert_eq!(get_preferred_ip(&addrs), Some("10.0.0.2".to_string()));
    let addrs = [HostAddr::new(true, "fe80::2"), HostAddr::new(true, "fe80::1")];
    assert_eq!(get_preferred_ip(&addrs), Some("[fe80::2]".to_string()));
}

#[test]
fn preferred_address_is_included() {
    let addrs = [HostAddr::new(true, "fe80::1")];
    let ip = get_preferred_ip(&addrs).unwrap();
    assert!(includes_ip(&addrs, &ip));
    assert!(includes_ip(&addrs, "fe80::1"));
    assert!(!includes_ip(&addrs, "fe80::"));
    assert!(!includes_ip(&[], "fe80::1"));
}

#[test]
fn endpoints_are_written_with_a_colon() {
    assert_eq!(endpoint_text("192.168.1.50", 44061), "192.168.1.50:44061");
    assert_eq!(endpoint_text("[fe80::1]", 0), "[fe80::1]:0");
    assert_ne!(endpoint_text("a:1", 2), endpoint_text("a", 12));
}
