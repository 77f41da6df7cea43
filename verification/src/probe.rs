//! Telling an adb daemon from other servers by its answer to a greeting.

use vstd::prelude::*;

verus! {

/// The greeting: a 24-byte CNXN header and the banner `host::` with a final NUL.
pub const ADB_CNXN_PACKET: [u8; 31] = [
    67, 78, 88, 78,
    0, 0, 0, 1,
    0, 16, 0, 0,
    7, 0, 0, 0,
    50, 2, 0, 0,
    188, 177, 167, 177,
    104, 111, 115, 116, 58, 58, 0,
];

/// Milliseconds that each step of a probe may take.
pub const STEP_LIMIT_MS: u64 = 300;

/// The four bytes at `at` as a little-endian number.
pub open spec fn le32(bytes: Seq<u8>, at: int) -> nat {
    (bytes[at] + 0x100 * bytes[at + 1] + 0x10000 * bytes[at + 2] + 0x1000000 * bytes[at + 3]) as nat
}

/// The sum of some bytes.
pub open spec fn byte_sum(bytes: Seq<u8>) -> nat
    decreases bytes.len(),
{
    if bytes.len() == 0 {
        0
    } else {
        byte_sum(bytes.drop_last()) + bytes.last() as nat
    }
}

/// The first four bytes of a daemon's answer: `STLS`, `AUTH` or `CNXN`.
pub open spec fn adb_answer(bytes: Seq<u8>) -> bool {
    ||| bytes == seq![83u8, 84, 76, 83]
    ||| bytes == seq![65u8, 85, 84, 72]
    ||| bytes == seq![67u8, 78, 88, 78]
}

/// Whether four bytes are the start of a daemon's answer.
pub fn is_adb_answer(bytes: [u8; 4]) -> (r: bool)
    ensures
        r == adb_answer(bytes@),
{
    let stls: bool = bytes[0] == 83 && bytes[1] == 84 && bytes[2] == 76 && bytes[3] == 83;
    let auth: bool = bytes[0] == 65 && bytes[1] == 85 && bytes[2] == 84 && bytes[3] == 72;
    let cnxn: bool = bytes[0] == 67 && bytes[1] == 78 && bytes[2] == 88 && bytes[3] == 78;
    assert(stls ==> bytes@ =~= seq![83u8, 84, 76, 83]);
    assert(auth ==> bytes@ =~= seq![65u8, 85, 84, 72]);
    assert(cnxn ==> bytes@ =~= seq![67u8, 78, 88, 78]);
    stls || auth || cnxn
}

/// How far a probe has come.
#[derive(Clone, Copy)]
pub enum Probe {
    /// To open a connection.
    Connecting,
    /// To send [`ADB_CNXN_PACKET`].
    Sending,
    /// To read four bytes.
    Reading,
    /// Nothing is left to do; whether the port is a daemon's.
    Finished(bool),
}

/// What a step of a probe met with.
#[derive(Clone, Copy)]
pub enum ProbeEvent {
    /// Whether the connection was opened in time.
    Connected(bool),
    /// Whether the time to send ran out; a sending that fails before it does is
    /// not told apart from one that succeeds.
    Sent { timed_out: bool },
    /// The four bytes read, if they came in time.
    Received(Option<[u8; 4]>),
}

/// Where a probe stands after an event. An event that it is not waiting for
/// changes nothing.
pub open spec fn probe_next(probe: Probe, event: ProbeEvent) -> Probe {
    match (probe, event) {
        (Probe::Connecting, ProbeEvent::Connected(true)) => Probe::Sending,
        (Probe::Connecting, ProbeEvent::Connected(false)) => Probe::Finished(false),
        (Probe::Sending, ProbeEvent::Sent { timed_out: true }) => Probe::Finished(false),
        (Probe::Sending, ProbeEvent::Sent { timed_out: false }) => Probe::Reading,
        (Probe::Reading, ProbeEvent::Received(Some(bytes))) => Probe::Finished(adb_answer(bytes@)),
        (Probe::Reading, ProbeEvent::Received(None)) => Probe::Finished(false),
        _ => probe,
    }
}

/// Where a probe stands after a row of events.
pub open spec fn probe_after(probe: Probe, events: Seq<ProbeEvent>) -> Probe
    decreases events.len(),
{
    if events.len() == 0 {
        probe
    } else {
        probe_next(probe_after(probe, events.drop_last()), events.last())
    }
}

impl Probe {
    /// Where the probe stands after an event.
    pub fn step(self, event: ProbeEvent) -> (r: Probe)
        ensures
            r == probe_next(self, event),
    {
        match (self, event) {
            (Probe::Connecting, ProbeEvent::Connected(true)) => Probe::Sending,
            (Probe::Connecting, ProbeEvent::Connected(false)) => Probe::Finished(false),
            (Probe::Sending, ProbeEvent::Sent { timed_out: true }) => Probe::Finished(false),
            (Probe::Sending, ProbeEvent::Sent { timed_out: false }) => Probe::Reading,
            (Probe::Reading, ProbeEvent::Received(Some(bytes))) => Probe::Finished(
                is_adb_answer(bytes),
            ),
            (Probe::Reading, ProbeEvent::Received(None)) => Probe::Finished(false),
            _ => self,
        }
    }
}

/// Whether a port is an adb daemon's, by what a whole probe of it met with.
pub open spec fn adb_port(connected: bool, send_timed_out: bool, answer: Option<[u8; 4]>) -> bool {
    connected && !send_timed_out && (answer matches Some(bytes) && adb_answer(bytes@))
}

/// Whether a port is an adb daemon's, by what a whole probe of it met with: the
/// connection, the sending, and the first four bytes of the answer.
pub fn is_adb_port(connected: bool, send_timed_out: bool, answer: Option<[u8; 4]>) -> (r: bool)
    ensures
        r == adb_port(connected, send_timed_out, answer),
{
    let probe: Probe = Probe::Connecting.step(ProbeEvent::Connected(connected)).step(
        ProbeEvent::Sent { timed_out: send_timed_out },
    ).step(ProbeEvent::Received(answer));
    match probe {
        Probe::Finished(found) => found,
        _ => false,
    }
}

/// A probe that has seen its events in turn has told whether the port is a
/// daemon's.
pub proof fn probe_decides(connected: bool, send_timed_out: bool, answer: Option<[u8; 4]>)
    ensures
        probe_after(
            Probe::Connecting,
            seq![
                ProbeEvent::Connected(connected),
                ProbeEvent::Sent { timed_out: send_timed_out },
                ProbeEvent::Received(answer),
            ],
        ) == Probe::Finished(adb_port(connected, send_timed_out, answer)),
{
    let a = ProbeEvent::Connected(connected);
    let b = ProbeEvent::Sent { timed_out: send_timed_out };
    let c = ProbeEvent::Received(answer);
    assert(seq![a, b, c].drop_last() =~= seq![a, b]);
    assert(seq![a, b].drop_last() =~= seq![a]);
    assert(seq![a].drop_last() =~= seq![]);
    reveal_with_fuel(probe_after, 4);
}

/// What a probe has told does not change.
pub proof fn probe_stays_decided(found: bool, events: Seq<ProbeEvent>)
    ensures
        probe_after(Probe::Finished(found), events) == Probe::Finished(found),
    decreases events.len(),
{
    if events.len() > 0 {
        probe_stays_decided(found, events.drop_last());
    }
}

/// A probe finds a daemon only by four bytes that it received.
pub proof fn probe_finds_only_by_answer(events: Seq<ProbeEvent>)
    ensures
        probe_after(Probe::Connecting, events) == Probe::Finished(true) ==> exists|i: int|
            0 <= i < events.len() && (#[trigger] events[i] matches ProbeEvent::Received(
                Some(bytes),
            ) && adb_answer(bytes@)),
    decreases events.len(),
{
    if events.len() > 0 {
        let init = events.drop_last();
        probe_finds_only_by_answer(init);
        if probe_after(Probe::Connecting, events) == Probe::Finished(true) {
            if probe_after(Probe::Connecting, init) == Probe::Finished(true) {
                let i = choose|i: int|
                    0 <= i < init.len() && (#[trigger] init[i] matches ProbeEvent::Received(
                        Some(bytes),
                    ) && adb_answer(bytes@));
                assert(events[i] == init[i]);
            } else {
                assert(events[events.len() - 1] == events.last());
            }
        }
    }
}

/// The greeting is a well-formed CNXN message: its command is `CNXN`, its data
/// length, checksum and magic fit the banner and the command, and it announces
/// protocol version 0x01000000 and payloads of up to 4096 bytes.
pub proof fn greeting_is_well_formed()
    ensures
        ADB_CNXN_PACKET@.take(4) == seq![67u8, 78, 88, 78],
        le32(ADB_CNXN_PACKET@, 4) == 0x01000000,
        le32(ADB_CNXN_PACKET@, 8) == 4096,
        le32(ADB_CNXN_PACKET@, 12) == ADB_CNXN_PACKET@.skip(24).len(),
        le32(ADB_CNXN_PACKET@, 16) == byte_sum(ADB_CNXN_PACKET@.skip(24)),
        le32(ADB_CNXN_PACKET@, 20) == 0xffff_ffff - le32(ADB_CNXN_PACKET@, 0),
        ADB_CNXN_PACKET@.skip(24) == seq![104u8, 111, 115, 116, 58, 58, 0],
{
    let p = ADB_CNXN_PACKET@;
    let banner = seq![104u8, 111, 115, 116, 58, 58, 0];
    assert(p.take(4) =~= seq![67u8, 78, 88, 78]);
    assert(p.skip(24) =~= banner);
    reveal_with_fuel(byte_sum, 8);
    assert(banner.drop_last() =~= seq![104u8, 111, 115, 116, 58, 58]);
    assert(byte_sum(banner) == 562);
}

/// A probe whose connection opened and whose sending did not time out finds a
/// daemon exactly where the four bytes received spell `STLS`, `AUTH` or `CNXN`.
pub proof fn daemon_is_known_by_four_bytes(b: [u8; 4])
    ensures
        ({
            let known = {
                ||| b[0] == 83 && b[1] == 84 && b[2] == 76 && b[3] == 83
                ||| b[0] == 65 && b[1] == 85 && b[2] == 84 && b[3] == 72
                ||| b[0] == 67 && b[1] == 78 && b[2] == 88 && b[3] == 78
            };
            &&& adb_answer(b@) == known
            &&& adb_port(true, false, Some(b)) == known
            &&& probe_next(Probe::Reading, ProbeEvent::Received(Some(b))) == Probe::Finished(known)
        }),
{
    let s = seq![83u8, 84, 76, 83];
    let a = seq![65u8, 85, 84, 72];
    let c = seq![67u8, 78, 88, 78];
    assert(b@ =~= seq![b@[0], b@[1], b@[2], b@[3]]);
    if b@ == s {
        assert(b@[0] == s[0] && b@[1] == s[1] && b@[2] == s[2] && b@[3] == s[3]);
    }
    if b@ == a {
        assert(b@[0] == a[0] && b@[1] == a[1] && b@[2] == a[2] && b@[3] == a[3]);
    }
    if b@ == c {
        assert(b@[0] == c[0] && b@[1] == c[1] && b@[2] == c[2] && b@[3] == c[3]);
    }
}

/// A port is no daemon's where the connection did not open, the sending timed out
/// or no answer came.
pub proof fn silent_port_is_no_daemon(connected: bool, send_timed_out: bool, answer: Option<[u8; 4]>)
    requires
        !connected || send_timed_out || answer is None,
    ensures
        !adb_port(connected, send_timed_out, answer),
{
}

/// A probe goes on only by what it waits for: from connecting to sending where the
/// connection opened, from sending to reading unless the time ran out, and from
/// reading to its end with the answer. It ends without a daemon where the connection
/// did not open, the time to send ran out, or no answer came. Each step may take 300
/// milliseconds.
pub proof fn probe_goes_on_in_turn(probe: Probe, event: ProbeEvent)
    ensures
        STEP_LIMIT_MS == 300,
        ({
            let then = probe_next(probe, event);
            &&& then is Connecting <==> probe is Connecting && !(event is Connected)
            &&& then is Sending <==> (probe is Sending && !(event is Sent)) || (probe is Connecting
                && event == ProbeEvent::Connected(true))
            &&& then is Reading <==> (probe is Reading && !(event is Received)) || (probe is Sending
                && event == (ProbeEvent::Sent { timed_out: false }))
            &&& !(probe is Finished) && then == Probe::Finished(true) ==> probe is Reading && (
            event matches ProbeEvent::Received(Some(_)))
            &&& event == ProbeEvent::Received(None) && probe is Reading ==> then == Probe::Finished(
                false,
            )
            &&& probe is Finished ==> then == probe
        }),
{
}

} // verus!
