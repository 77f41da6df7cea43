use pairqr::adb::{
    accepts, accepts_for_user, adb_connect, adb_connect_for_user, adb_pair, connect_args,
    devices_args, find_guid, get_connected_device_serials, output_text, pair_args, pairing_announcement,
    read_device_list, read_pair_output, show_devices_args, CommandRun,
};

fn printed(stdout: &str, stderr: &str) -> CommandRun {
    CommandRun::Finished { stdout: stdout.as_bytes().to_vec(), stderr: stderr.as_bytes().to_vec() }
}

fn not_run() -> CommandRun {
    CommandRun::Failed { reason: "No such file or directory (os error 2)".to_string() }
}

#[test]
fn commands_have_their_arguments() {
    assert_eq!(pair_args("10.0.0.2", 37001, "s3cr!t"), vec!["pair", "10.0.0.2:37001", "s3cr!t"]);
    assert_eq!(connect_args("10.0.0.2:5555"), vec!["connect", "10.0.0.2:5555"]);
    assert_eq!(devices_args(), vec!["devices"]);
    assert_eq!(show_devices_args(), vec!["devices", "-l"]);
}

#[test]
fn announcement_hides_the_password() {
    assert_eq!(
        pairing_announcement("10.0.0.2", 37001),
        "\n[*] Running: adb pair 10.0.0.2:37001 ******"
    );
}

#[test]
fn pairing_success_gives_the_guid() {
    let run = printed("Successfully paired to 10.0.0.2:37001 [guid=adb-ABC-x1]\n", "");
    let reply = adb_pair(&run);
    assert!(reply.success);
    assert_eq!(reply.guid, Some("adb-ABC-x1".to_string()));
    assert_eq!(
        reply.lines,
        vec![
            "    adb: Successfully paired to 10.0.0.2:37001 [guid=adb-ABC-x1]",
            "[+] Pairing successful!",
        ]
    );
}

#[test]
fn pairing_success_without_a_guid() {
    let reply = read_pair_output("Successfully paired", " ");
    assert!(reply.success);
    assert_eq!(reply.guid, None);
}

#[test]
fn pairing_refused() {
    let reply = adb_pair(&printed("Failed: Wrong password [guid=x]\n", "error: protocol fault\n"));
    assert!(!reply.success);
    assert_eq!(reply.guid, None);
    assert_eq!(
        reply.lines,
        vec![
            "    adb: Failed: Wrong password [guid=x]",
            "    adb err: error: protocol fault",
            "[-] Pairing may have failed",
        ]
    );
}

#[test]
fn pairing_without_adb() {
    let reply = adb_pair(&not_run());
    assert!(!reply.success);
    assert_eq!(reply.guid, None);
    assert_eq!(
        reply.lines,
        vec!["[-] Failed to run adb: No such file or directory (os error 2)"]
    );
}

#[test]
fn guid_ends_at_the_bracket_or_the_next_mark() {
    assert_eq!(find_guid("[guid=a]b]"), Some("a".to_string()));
    assert_eq!(find_guid("x[guid=a"), Some("a".to_string()));
    assert_eq!(find_guid("[guid=a[guid=b]"), Some("a".to_string()));
    assert_eq!(find_guid("[[guid=]"), Some("".to_string()));
    assert_eq!(find_guid("[fe80::1]:1 [guid=g]"), Some("g".to_string()));
    assert_eq!(find_guid("guid=a]"), None);
}

#[test]
fn broken_bytes_are_read_lossily() {
    let mut stdout = b"Successfully paired to ".to_vec();
    stdout.push(0xff);
    stdout.extend_from_slice(b" [guid=\xc3\xa9]");
    let reply = adb_pair(&CommandRun::Finished { stdout, stderr: Vec::new() });
    assert!(reply.success);
    assert_eq!(reply.guid, Some("\u{e9}".to_string()));
    assert_eq!(reply.lines[0], "    adb: Successfully paired to \u{fffd} [guid=\u{e9}]");
}

#[test]
fn ready_devices_are_listed() {
    let text = "List of devices attached\nemulator-5554\tdevice\r\n10.0.0.2:5555   device product:x\nR58\tunauthorized\n\nX offline\nlonely\n";
    assert_eq!(read_device_list(text), vec!["emulator-5554", "10.0.0.2:5555"]);
    assert_eq!(
        get_connected_device_serials(&printed(text, "ignored\ts device")),
        vec!["emulator-5554", "10.0.0.2:5555"]
    );
}

#[test]
fn heading_is_no_device() {
    assert!(read_device_list("heading device\n").is_empty());
    assert!(read_device_list("").is_empty());
    assert!(get_connected_device_serials(&not_run()).is_empty());
}

#[test]
fn connection_answers() {
    for (text, found, asked) in [
        ("connected to 10.0.0.2:5555", true, true),
        ("already connected to 10.0.0.2:5555", true, true),
        ("failed to connect to 10.0.0.2:5555", false, false),
        ("connected to x, then failed", false, true),
        ("already there", false, true),
        ("connected", false, true),
        ("", false, false),
    ] {
        assert_eq!(accepts(text), found);
        assert_eq!(accepts_for_user(text), asked);
        assert!(!accepts(text) || accepts_for_user(text));
    }
}

#[test]
fn connection_reports() {
    let reply = adb_connect(&printed(" connected to 10.0.0.2:5555\n", ""));
    assert!(reply.connected);
    assert_eq!(reply.lines, vec!["    adb: connected to 10.0.0.2:5555", "[+] Connected!"]);
    let reply = adb_connect(&printed("failed to authenticate\n", ""));
    assert!(!reply.connected);
    assert_eq!(reply.lines, vec!["    adb: failed to authenticate"]);
    let reply = adb_connect(&printed("", ""));
    assert_eq!(reply.lines, vec!["    adb: "]);
    let reply = adb_connect_for_user(&printed("already", ""));
    assert!(reply.connected);
    assert_eq!(reply.lines, vec!["    adb: already", "[+] Connected!"]);
    assert!(adb_connect(&not_run()).lines.is_empty());
    assert!(!adb_connect(&not_run()).connected);
    assert!(!adb_connect_for_user(&not_run()).connected);
}

#[test]
fn output_is_decoded() {
    assert_eq!(output_text("d\u{e9}j\u{e0}".as_bytes()), "d\u{e9}j\u{e0}");
    assert_eq!(output_text(b"a\xffb"), "a\u{fffd}b");
}
