use pairqr::probe::{is_adb_answer, is_adb_port, Probe, ProbeEvent, ADB_CNXN_PACKET};
use std::time::Duration;
use tokio::io::{duplex, AsyncReadExt, AsyncWriteExt, DuplexStream};
use tokio::time::timeout;

/// Probes a server at the other end of `stream`, or a closed port where there is
/// none, step by step as [`Probe`] asks for it.
async fn probe_stream(mut stream: Option<DuplexStream>, limit: Duration) -> bool {
    let mut probe = Probe::Connecting;
    loop {
        let event = match probe {
            Probe::Connecting => ProbeEvent::Connected(stream.is_some()),
            Probe::Sending => {
                let s = stream.as_mut().unwrap();
                let sent = timeout(limit, s.write_all(&ADB_CNXN_PACKET)).await;
                ProbeEvent::Sent { timed_out: sent.is_err() }
            }
            Probe::Reading => {
                let s = stream.as_mut().unwrap();
                let mut buf = [0u8; 4];
                match timeout(limit, s.read_exact(&mut buf)).await {
                    Ok(Ok(_)) => ProbeEvent::Received(Some(buf)),
                    _ => ProbeEvent::Received(None),
                }
            }
            Probe::Finished(found) => return found,
        };
        probe = probe.step(event);
    }
}

/// Probes a server that reads the greeting, or not, and then answers.
fn probe_server(reads: bool, answer: &'static [u8], limit: Duration) -> bool {
    let runtime = tokio::runtime::Builder::new_current_thread().enable_all().build().unwrap();
    runtime.block_on(async {
        let (client, mut server) = duplex(64);
        tokio::spawn(async move {
            let mut buf = [0u8; 31];
            if reads {
                let _ = server.read(&mut buf).await;
            }
            let _ = server.write_all(answer).await;
        });
        probe_stream(Some(client), limit).await
    })
}

#[test]
fn test_is_adb_port_stls_handshake() {
    assert!(probe_server(true, b"STLS\x01\x00\x00\x00", Duration::from_millis(500)));
}

#[test]
fn test_is_adb_port_auth_handshake() {
    assert!(probe_server(true, b"AUTH\x01\x00\x00\x00", Duration::from_millis(500)));
}

#[test]
fn test_is_adb_port_rejects_non_adb() {
    assert!(!probe_server(
        false,
        b"HTTP/1.1 400 Bad Request\r\n\r\n",
        Duration::from_millis(500)
    ));
}

#[test]
fn test_is_adb_port_closed_port() {
    let runtime = tokio::runtime::Builder::new_current_thread().enable_all().build().unwrap();
    assert!(!runtime.block_on(probe_stream(None, Duration::from_millis(300))));
}

#[test]
fn short_answers_are_no_daemon() {
    assert!(!probe_server(true, b"STL", Duration::from_millis(500)));
}

#[test]
fn daemon_answers_are_told_from_others() {
    assert!(is_adb_answer(*b"STLS"));
    assert!(is_adb_answer(*b"AUTH"));
    assert!(is_adb_answer(*b"CNXN"));
    assert!(!is_adb_answer(*b"HTTP"));
    assert!(!is_adb_answer(*b"STLs"));
    assert!(!is_adb_answer([0, 0, 0, 0]));
}

#[test]
fn whole_probes_are_decided() {
    assert!(is_adb_port(true, false, Some(*b"STLS")));
    assert!(!is_adb_port(true, false, Some(*b"HTTP")));
    assert!(!is_adb_port(true, false, None));
    assert!(!is_adb_port(true, true, Some(*b"STLS")));
    assert!(!is_adb_port(false, false, Some(*b"STLS")));
}

#[test]
fn probe_ignores_events_out_of_turn() {
    let probe = Probe::Connecting.step(ProbeEvent::Received(Some(*b"STLS")));
    assert!(matches!(probe, Probe::Connecting));
    let probe = Probe::Finished(false).step(ProbeEvent::Connected(true));
    assert!(matches!(probe, Probe::Finished(false)));
}

#[test]
fn greeting_is_the_cnxn_packet() {
    let expected = b"CNXN\x00\x00\x00\x01\x00\x10\x00\x00\x07\x00\x00\x00\x32\x02\x00\x00\xbc\xb1\xa7\xb1host::\x00";
    assert_eq!(&ADB_CNXN_PACKET, expected);
    let sum: u32 = ADB_CNXN_PACKET[24..].iter().map(|b| *b as u32).sum();
    assert_eq!(sum, 0x232);
}
