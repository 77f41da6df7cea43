use pairqr::manual::{closing, enter_port, prompt, read_entry, Entry};

#[test]
fn entries_are_told_apart() {
    assert!(matches!(read_entry("\n"), Entry::Skipped));
    assert!(matches!(read_entry(""), Entry::Skipped));
    assert!(matches!(read_entry(" 44061\r\n"), Entry::Port(44061)));
    assert!(matches!(read_entry("+44061"), Entry::Port(44061)));
    assert!(matches!(read_entry("123456"), Entry::PairingCode));
    assert!(matches!(read_entry("012345"), Entry::Port(12345)));
    assert!(matches!(read_entry("65536"), Entry::Invalid));
    assert!(matches!(read_entry("12345a"), Entry::Invalid));
    assert!(matches!(read_entry("1234567"), Entry::Invalid));
}

#[test]
fn every_port_can_be_typed() {
    for port in [0u16, 1, 9, 10, 30000, 65535] {
        match read_entry(&format!("\t{} \n", port)) {
            Entry::Port(p) => assert_eq!(p, port),
            _ => panic!("a port was typed"),
        }
    }
}

#[test]
fn typed_port_is_connected_to() {
    let step = enter_port("10.0.0.2", "44061\n");
    assert_eq!(step.lines, vec!["[*] Connecting to 10.0.0.2:44061..."]);
    assert_eq!(step.args, Some(vec!["connect".to_string(), "10.0.0.2:44061".to_string()]));
}

#[test]
fn other_entries_are_reported() {
    let step = enter_port("10.0.0.2", "123456\n");
    assert_eq!(
        step.lines,
        vec!["    Note: '123456' is a 6-digit pairing code. Port numbers are 5 digits from 'IP address & Port' (e.g. 44061)."]
    );
    assert_eq!(step.args, None);
    let step = enter_port("10.0.0.2", "port\n");
    assert_eq!(step.lines, vec!["    Invalid port number"]);
    assert_eq!(step.args, None);
    let step = enter_port("10.0.0.2", " \n");
    assert!(step.lines.is_empty());
    assert_eq!(step.args, None);
}

#[test]
fn prompt_names_the_device() {
    assert_eq!(
        prompt("10.0.0.2"),
        vec![
            "[-] Could not auto-discover connect service for 10.0.0.2.",
            "    Your device IP is: 10.0.0.2",
            "",
            "    On your device, go to Wireless Debugging settings",
            "    and look for the port number under 'IP address & Port' (e.g., 44061).",
            "",
            "    Enter the port number (or press Enter to skip): ",
        ]
    );
}

#[test]
fn closing_hints_where_not_connected() {
    assert_eq!(closing(false), vec!["[-] Not connected. Run manually: adb connect <ip>:<port>"]);
    assert!(closing(true).is_empty());
}
