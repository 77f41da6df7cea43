//! Connecting to the device that was paired: round by round, by what adb has
//! connected to on its own, by what the device announces, and by scanning it.

use crate::adb::{adb_connect, connect_args, connect_outcome, devices_args, CommandRun};
use crate::adb::{get_connected_device_serials, listed_serials, ConnectReply};
use crate::address::{endpoint, endpoint_text, get_preferred_ip, preferred};
use crate::address::preferred_is_v4_first;
use crate::device::{new_serial, new_serial_is_new, serial_matches, service_matches};
use crate::device::{BrowseEvent, Device, DeviceView, Service};
use crate::text::{joined, joined3, texts};
use vstd::prelude::*;

verus! {

/// Nanoseconds after which no new round begins.
pub const TIME_LIMIT: u64 = 15_000_000_000;

/// Nanoseconds before which the device is not scanned.
pub const SCAN_DELAY: u64 = 2_000_000_000;

/// Nanoseconds from one scan to the next, at least.
pub const SCAN_INTERVAL: u64 = 3_000_000_000;

/// Milliseconds to wait for an announcement.
pub const RECEIVE_WAIT_MS: u64 = 50;

/// Milliseconds to rest between rounds.
pub const REST_MS: u64 = 150;

/// Where the connecting stands.
pub enum ConnectStage {
    /// To see whether to begin a round.
    Polling,
    /// To have adb list its devices.
    Listing,
    /// To wait for an announcement, of the older service type or of the other.
    Browsing { legacy: bool },
    /// To have adb connect to an endpoint that was announced.
    Joining { legacy: bool, addr: String },
    /// To read the clock, and see whether to scan.
    Timing,
    /// To scan the device.
    Scanning,
    /// To have adb connect to one of the ports that a scan found.
    Dialing { ports: Vec<u16>, at: usize },
    /// To rest before the next round.
    Resting,
    /// Ended.
    Done,
}

/// The content of a [`ConnectStage`].
pub enum ConnectStageView {
    Polling,
    Listing,
    Browsing { legacy: bool },
    Joining { legacy: bool, addr: Seq<char> },
    Timing,
    Scanning,
    Dialing { ports: Seq<u16>, at: int },
    Resting,
    Done,
}

impl View for ConnectStage {
    type V = ConnectStageView;

    open spec fn view(&self) -> ConnectStageView {
        match self {
            ConnectStage::Polling => ConnectStageView::Polling,
            ConnectStage::Listing => ConnectStageView::Listing,
            ConnectStage::Browsing { legacy } => ConnectStageView::Browsing { legacy: *legacy },
            ConnectStage::Joining { legacy, addr } => ConnectStageView::Joining {
                legacy: *legacy,
                addr: addr@,
            },
            ConnectStage::Timing => ConnectStageView::Timing,
            ConnectStage::Scanning => ConnectStageView::Scanning,
            ConnectStage::Dialing { ports, at } => ConnectStageView::Dialing {
                ports: ports@,
                at: *at as int,
            },
            ConnectStage::Resting => ConnectStageView::Resting,
            ConnectStage::Done => ConnectStageView::Done,
        }
    }
}

/// The connecting: the serials that adb listed before the pairing, the paired
/// device, which service types can be browsed, when the device was last scanned,
/// and how it stands. Times are in nanoseconds since the connecting began.
pub struct Connecting {
    pub initial: Vec<String>,
    pub device: Device,
    pub has_connect: bool,
    pub has_legacy: bool,
    pub last_scan: Option<u64>,
    pub connected: bool,
    pub stage: ConnectStage,
}

/// The content of a [`Connecting`].
pub struct ConnectingView {
    pub initial: Seq<Seq<char>>,
    pub device: DeviceView,
    pub has_connect: bool,
    pub has_legacy: bool,
    pub last_scan: Option<u64>,
    pub connected: bool,
    pub stage: ConnectStageView,
}

impl View for Connecting {
    type V = ConnectingView;

    open spec fn view(&self) -> ConnectingView {
        ConnectingView {
            initial: texts(self.initial@),
            device: self.device@,
            has_connect: self.has_connect,
            has_legacy: self.has_legacy,
            last_scan: self.last_scan,
            connected: self.connected,
            stage: self.stage@,
        }
    }
}

/// What the surroundings report.
pub enum ConnectEvent {
    /// Whether the user has left the program running, and the time.
    Polled { running: bool, now: u64 },
    /// How running adb ended.
    Ran(CommandRun),
    /// What browsing brought.
    Browse(BrowseEvent),
    /// The time.
    Clock(u64),
    /// What a scan found.
    Ports(Vec<u16>),
    /// The rest is over.
    Rested,
}

/// What to do before the next event can be given.
pub enum ConnectAction {
    /// See whether the user has cancelled, and read the clock.
    Poll,
    /// Run adb with these arguments.
    Run(Vec<String>),
    /// Wait for an announcement of the older service type, or of the other.
    Receive { legacy: bool },
    /// Read the clock.
    ReadClock,
    /// Scan the device at this address, but for the port that it was paired at.
    Scan { ip: String, exclude_port: u16 },
    /// Rest.
    Rest,
    /// Nothing; the connecting has ended.
    Stop,
}

/// A scan is due: none has been made yet, or the last one began long enough ago.
pub open spec fn scan_due(last_scan: Option<u64>, now: u64) -> bool {
    match last_scan {
        Some(then) => now >= then && now - then >= SCAN_INTERVAL,
        None => true,
    }
}

/// The lines that announce a connection to a port that a scan found.
pub open spec fn dial_lines(ip: Seq<char>, port: u16) -> Seq<Seq<char>> {
    let addr = endpoint(ip, port);
    seq![
        "[*] Discovered active ADB wireless debugging port: "@ + addr,
        "[*] Connecting to "@ + addr + "..."@,
    ]
}

impl ConnectingView {
    /// A connection ends the connecting, and a port is dialled only if it is
    /// there.
    pub open spec fn well_formed(self) -> bool {
        &&& self.connected ==> self.stage is Done
        &&& self.stage matches ConnectStageView::Dialing { ports, at } ==> 0 <= at < ports.len()
    }

    /// The connecting at its start.
    pub open spec fn start(
        initial: Seq<Seq<char>>,
        device: DeviceView,
        has_connect: bool,
        has_legacy: bool,
    ) -> ConnectingView {
        ConnectingView {
            initial,
            device,
            has_connect,
            has_legacy,
            last_scan: None,
            connected: false,
            stage: ConnectStageView::Polling,
        }
    }

    /// The same connecting at another stage.
    pub open spec fn at(self, stage: ConnectStageView) -> ConnectingView {
        ConnectingView { stage, ..self }
    }

    /// The same connecting, ended with a connection.
    pub open spec fn joined(self) -> ConnectingView {
        ConnectingView { connected: true, stage: ConnectStageView::Done, ..self }
    }

    /// What follows the announcements of the newer service type.
    pub open spec fn past_connect(self) -> ConnectStageView {
        if self.has_legacy {
            ConnectStageView::Browsing { legacy: true }
        } else {
            ConnectStageView::Timing
        }
    }

    /// What follows adb's list of devices.
    pub open spec fn past_listing(self) -> ConnectStageView {
        if self.has_connect {
            ConnectStageView::Browsing { legacy: false }
        } else {
            self.past_connect()
        }
    }

    /// What browsing brought, taken in.
    pub open spec fn next_browsed(self, legacy: bool, event: BrowseEvent) -> (
        ConnectingView,
        Seq<Seq<char>>,
    ) {
        match event {
            BrowseEvent::Resolved(service) => match preferred(service.addresses@) {
                Some(ip) if service_matches(self.device, service) => {
                    let addr = endpoint(ip, service.port);
                    (
                        self.at(ConnectStageView::Joining { legacy, addr }),
                        seq!["[+] Connect service found matching target (mDNS): "@ + addr],
                    )
                },
                _ => (self, seq![]),
            },
            BrowseEvent::Removed(_) => (self, seq![]),
            BrowseEvent::Other => (self, seq![]),
            BrowseEvent::TimedOut | BrowseEvent::Disconnected => (
                self.at(
                    if legacy {
                        ConnectStageView::Timing
                    } else {
                        self.past_connect()
                    },
                ),
                seq![],
            ),
        }
    }

    /// The connecting after an event, and the lines that report it. An event that
    /// is not waited for changes nothing.
    pub open spec fn next(self, event: ConnectEvent) -> (ConnectingView, Seq<Seq<char>>) {
        match (self.stage, event) {
            (ConnectStageView::Polling, ConnectEvent::Polled { running, now }) => (
                self.at(
                    if running && now < TIME_LIMIT {
                        ConnectStageView::Listing
                    } else {
                        ConnectStageView::Done
                    },
                ),
                seq![],
            ),
            (ConnectStageView::Listing, ConnectEvent::Ran(run)) => match new_serial(
                self.device,
                self.initial,
                listed_serials(run),
            ) {
                Some(serial) => (self.joined(), seq!["[+] Auto-connected by ADB: "@ + serial]),
                None => (self.at(self.past_listing()), seq![]),
            },
            (ConnectStageView::Browsing { legacy }, ConnectEvent::Browse(browsed)) => {
                self.next_browsed(legacy, browsed)
            },
            (ConnectStageView::Joining { legacy, addr }, ConnectEvent::Ran(run)) => {
                let (ok, lines) = connect_outcome(run);
                if ok {
                    (self.joined(), lines)
                } else {
                    (self.at(ConnectStageView::Browsing { legacy }), lines)
                }
            },
            (ConnectStageView::Timing, ConnectEvent::Clock(now)) => {
                if now >= SCAN_DELAY && scan_due(self.last_scan, now) {
                    (
                        ConnectingView {
                            last_scan: Some(now),
                            stage: ConnectStageView::Scanning,
                            ..self
                        },
                        seq![
                            "[*] Scanning active wireless debugging ports on "@ + self.device.ip
                                + "..."@,
                        ],
                    )
                } else {
                    (self.at(ConnectStageView::Resting), seq![])
                }
            },
            (ConnectStageView::Scanning, ConnectEvent::Ports(ports)) => {
                if ports@.len() == 0 {
                    (
                        self.at(ConnectStageView::Resting),
                        seq![
                            "[-] No active ADB connect ports found on "@ + self.device.ip
                                + " yet, retrying..."@,
                        ],
                    )
                } else {
                    (
                        self.at(ConnectStageView::Dialing { ports: ports@, at: 0 }),
                        dial_lines(self.device.ip, ports@[0]),
                    )
                }
            },
            (ConnectStageView::Dialing { ports, at }, ConnectEvent::Ran(run)) => {
                let (ok, lines) = connect_outcome(run);
                if ok {
                    (self.joined(), lines)
                } else if at + 1 < ports.len() {
                    (
                        self.at(ConnectStageView::Dialing { ports, at: at + 1 }),
                        lines + dial_lines(self.device.ip, ports[at + 1]),
                    )
                } else {
                    (self.at(ConnectStageView::Resting), lines)
                }
            },
            (ConnectStageView::Resting, ConnectEvent::Rested) => (
                self.at(ConnectStageView::Polling),
                seq![],
            ),
            _ => (self, seq![]),
        }
    }

    /// The connecting after a row of events.
    pub open spec fn after(self, events: Seq<ConnectEvent>) -> ConnectingView
        decreases events.len(),
    {
        if events.len() == 0 {
            self
        } else {
            self.after(events.drop_last()).next(events.last()).0
        }
    }

    /// `action` is what has to be done at this stage.
    pub open spec fn calls_for(self, action: ConnectAction) -> bool {
        match self.stage {
            ConnectStageView::Polling => action is Poll,
            ConnectStageView::Listing => action matches ConnectAction::Run(args) && texts(args@)
                == seq!["devices"@],
            ConnectStageView::Browsing { legacy } => action == (ConnectAction::Receive { legacy }),
            ConnectStageView::Joining { addr, .. } => action matches ConnectAction::Run(args)
                && texts(args@) == seq!["connect"@, addr],
            ConnectStageView::Timing => action is ReadClock,
            ConnectStageView::Scanning => action matches ConnectAction::Scan { ip, exclude_port }
                && ip@ == self.device.ip && exclude_port == self.device.port,
            ConnectStageView::Dialing { ports, at } => action matches ConnectAction::Run(args)
                && texts(args@) == seq!["connect"@, endpoint(self.device.ip, ports[at])],
            ConnectStageView::Resting => action is Rest,
            ConnectStageView::Done => action is Stop,
        }
    }
}

impl Connecting {
    /// The connecting at its start.
    pub fn new(
        initial: Vec<String>,
        device: Device,
        has_connect: bool,
        has_legacy: bool,
    ) -> (r: Connecting)
        ensures
            r@ == ConnectingView::start(texts(initial@), device@, has_connect, has_legacy),
            r@.well_formed(),
    {
        Connecting {
            initial,
            device,
            has_connect,
            has_legacy,
            last_scan: None,
            connected: false,
            stage: ConnectStage::Polling,
        }
    }

    /// What to do before the next event can be given.
    pub fn pending(&self) -> (r: ConnectAction)
        requires
            self@.well_formed(),
        ensures
            self@.calls_for(r),
    {
        match &self.stage {
            ConnectStage::Polling => ConnectAction::Poll,
            ConnectStage::Listing => ConnectAction::Run(devices_args()),
            ConnectStage::Browsing { legacy } => ConnectAction::Receive { legacy: *legacy },
            ConnectStage::Joining { addr, .. } => ConnectAction::Run(connect_args(addr.as_str())),
            ConnectStage::Timing => ConnectAction::ReadClock,
            ConnectStage::Scanning => ConnectAction::Scan {
                ip: self.device.ip.clone(),
                exclude_port: self.device.port,
            },
            ConnectStage::Dialing { ports, at } => {
                let addr: String = endpoint_text(self.device.ip.as_str(), ports[*at]);
                ConnectAction::Run(connect_args(addr.as_str()))
            },
            ConnectStage::Resting => ConnectAction::Rest,
            ConnectStage::Done => ConnectAction::Stop,
        }
    }

    fn stage_past_connect(&self) -> (r: ConnectStage)
        ensures
            r@ == self@.past_connect(),
    {
        if self.has_legacy {
            ConnectStage::Browsing { legacy: true }
        } else {
            ConnectStage::Timing
        }
    }

    fn stage_past_listing(&self) -> (r: ConnectStage)
        ensures
            r@ == self@.past_listing(),
    {
        if self.has_connect {
            ConnectStage::Browsing { legacy: false }
        } else {
            self.stage_past_connect()
        }
    }

    fn push_dial_lines(&self, lines: &mut Vec<String>, port: u16)
        ensures
            texts(final(lines)@) == texts(old(lines)@) + dial_lines(self@.device.ip, port),
    {
        let addr: String = endpoint_text(self.device.ip.as_str(), port);
        lines.push(
            joined("[*] Discovered active ADB wireless debugging port: ", addr.as_str()),
        );
        lines.push(joined3("[*] Connecting to ", addr.as_str(), "..."));
        assert(texts(lines@) =~= texts(old(lines)@) + dial_lines(self@.device.ip, port));
    }

    /// Takes an event in, and gives the lines that report it.
    pub fn step(&mut self, event: &ConnectEvent) -> (lines: Vec<String>)
        requires
            old(self)@.well_formed(),
        ensures
            (final(self)@, texts(lines@)) == old(self)@.next(*event),
            final(self)@.well_formed(),
    {
        let mut lines: Vec<String> = Vec::new();
        assert(texts(lines@) =~= seq![]);
        match (&self.stage, event) {
            (ConnectStage::Polling, ConnectEvent::Polled { running, now }) => {
                if *running && *now < TIME_LIMIT {
                    self.stage = ConnectStage::Listing;
                } else {
                    self.stage = ConnectStage::Done;
                }
            },
            (ConnectStage::Listing, ConnectEvent::Ran(run)) => {
                lines = self.listed(run);
            },
            (ConnectStage::Browsing { legacy }, ConnectEvent::Browse(browsed)) => {
                let legacy: bool = *legacy;
                lines = self.browsed(legacy, browsed);
            },
            (ConnectStage::Joining { legacy, .. }, ConnectEvent::Ran(run)) => {
                let legacy: bool = *legacy;
                let reply: ConnectReply = adb_connect(run);
                if reply.connected {
                    self.connected = true;
                    self.stage = ConnectStage::Done;
                } else {
                    self.stage = ConnectStage::Browsing { legacy };
                }
                lines = reply.lines;
            },
            (ConnectStage::Timing, ConnectEvent::Clock(now)) => {
                let due: bool = match self.last_scan {
                    Some(then) => *now >= then && *now - then >= SCAN_INTERVAL,
                    None => true,
                };
                if *now >= SCAN_DELAY && due {
                    self.last_scan = Some(*now);
                    self.stage = ConnectStage::Scanning;
                    lines.push(
                        joined3(
                            "[*] Scanning active wireless debugging ports on ",
                            self.device.ip.as_str(),
                            "...",
                        ),
                    );
                    assert(texts(lines@) =~= seq![
                        "[*] Scanning active wireless debugging ports on "@ + self@.device.ip
                            + "..."@,
                    ]);
                } else {
                    self.stage = ConnectStage::Resting;
                }
            },
            (ConnectStage::Scanning, ConnectEvent::Ports(ports)) => {
                lines = self.scanned(ports);
            },
            (ConnectStage::Dialing { .. }, ConnectEvent::Ran(run)) => {
                lines = self.dialled(run);
            },
            (ConnectStage::Resting, ConnectEvent::Rested) => {
                self.stage = ConnectStage::Polling;
            },
            _ => {},
        }
        lines
    }

    fn listed(&mut self, run: &CommandRun) -> (lines: Vec<String>)
        requires
            old(self)@.well_formed(),
            old(self)@.stage is Listing,
        ensures
            (final(self)@, texts(lines@)) == old(self)@.next(ConnectEvent::Ran(*run)),
            final(self)@.well_formed(),
    {
        let mut lines: Vec<String> = Vec::new();
        assert(texts(lines@) =~= seq![]);
        let serials: Vec<String> = get_connected_device_serials(run);
        match self.device.find_new_serial(self.initial.as_slice(), serials.as_slice()) {
            Some(serial) => {
                lines.push(joined("[+] Auto-connected by ADB: ", serial.as_str()));
                assert(texts(lines@) =~= seq!["[+] Auto-connected by ADB: "@ + serial@]);
                self.connected = true;
                self.stage = ConnectStage::Done;
            },
            None => {
                let stage: ConnectStage = self.stage_past_listing();
                self.stage = stage;
            },
        }
        lines
    }

    fn browsed(&mut self, legacy: bool, event: &BrowseEvent) -> (lines: Vec<String>)
        requires
            old(self)@.well_formed(),
            old(self)@.stage == (ConnectStageView::Browsing { legacy }),
        ensures
            (final(self)@, texts(lines@)) == old(self)@.next_browsed(legacy, *event),
            final(self)@.well_formed(),
    {
        let mut lines: Vec<String> = Vec::new();
        assert(texts(lines@) =~= seq![]);
        match event {
            BrowseEvent::Resolved(service) => {
                if self.device.owns_service(service) {
                    if let Some(ip) = get_preferred_ip(service.addresses.as_slice()) {
                        let addr: String = endpoint_text(ip.as_str(), service.port);
                        lines.push(
                            joined(
                                "[+] Connect service found matching target (mDNS): ",
                                addr.as_str(),
                            ),
                        );
                        assert(texts(lines@) =~= seq![
                            "[+] Connect service found matching target (mDNS): "@ + addr@,
                        ]);
                        self.stage = ConnectStage::Joining { legacy, addr };
                    }
                }
            },
            BrowseEvent::Removed(_) => {},
            BrowseEvent::Other => {},
            BrowseEvent::TimedOut | BrowseEvent::Disconnected => {
                let stage: ConnectStage = if legacy {
                    ConnectStage::Timing
                } else {
                    self.stage_past_connect()
                };
                self.stage = stage;
            },
        }
        lines
    }

    fn scanned(&mut self, ports: &Vec<u16>) -> (lines: Vec<String>)
        requires
            old(self)@.well_formed(),
            old(self)@.stage is Scanning,
        ensures
            (final(self)@, texts(lines@)) == old(self)@.next(ConnectEvent::Ports(*ports)),
            final(self)@.well_formed(),
    {
        let mut lines: Vec<String> = Vec::new();
        assert(texts(lines@) =~= seq![]);
        if ports.len() == 0 {
            lines.push(
                joined3(
                    "[-] No active ADB connect ports found on ",
                    self.device.ip.as_str(),
                    " yet, retrying...",
                ),
            );
            assert(texts(lines@) =~= seq![
                "[-] No active ADB connect ports found on "@ + self@.device.ip
                    + " yet, retrying..."@,
            ]);
            self.stage = ConnectStage::Resting;
        } else {
            self.push_dial_lines(&mut lines, ports[0]);
            assert(texts(lines@) =~= dial_lines(self@.device.ip, ports@[0]));
            let copy: Vec<u16> = ports.clone();
            assert(copy@ =~= ports@);
            self.stage = ConnectStage::Dialing { ports: copy, at: 0 };
        }
        lines
    }

    fn dialled(&mut self, run: &CommandRun) -> (lines: Vec<String>)
        requires
            old(self)@.well_formed(),
            old(self)@.stage is Dialing,
        ensures
            (final(self)@, texts(lines@)) == old(self)@.next(ConnectEvent::Ran(*run)),
            final(self)@.well_formed(),
    {
        let reply: ConnectReply = adb_connect(run);
        let mut lines: Vec<String> = reply.lines;
        let mut stage: ConnectStage = ConnectStage::Resting;
        if reply.connected {
            self.connected = true;
            stage = ConnectStage::Done;
        } else if let ConnectStage::Dialing { ports, at } = &self.stage {
            if *at < ports.len() - 1 {
                let next: usize = *at + 1;
                self.push_dial_lines(&mut lines, ports[next]);
                let copy: Vec<u16> = ports.clone();
                assert(copy@ =~= ports@);
                stage = ConnectStage::Dialing { ports: copy, at: next };
            }
        }
        self.stage = stage;
        lines
    }
}

/// `event` announces a service of the device at the endpoint `addr`.
pub open spec fn announces(event: ConnectEvent, device: DeviceView, addr: Seq<char>) -> bool {
    event matches ConnectEvent::Browse(BrowseEvent::Resolved(service)) && service_matches(
        device,
        service,
    ) && (preferred(service.addresses@) matches Some(ip) && addr == endpoint(ip, service.port))
}

/// `event` is adb's word that a connection stands: its answer to a connection, or
/// a list with a new serial that is the device's.
pub open spec fn attests(event: ConnectEvent, start: ConnectingView) -> bool {
    event matches ConnectEvent::Ran(run) && (connect_outcome(run).0 || new_serial(
        start.device,
        start.initial,
        listed_serials(run),
    ) is Some)
}

/// `event` is the end of a scan that found `ports`.
pub open spec fn finds(event: ConnectEvent, ports: Seq<u16>) -> bool {
    event matches ConnectEvent::Ports(found) && found@ == ports
}

/// Whatever happens, adb is asked to connect only to an endpoint that a service
/// of the paired device announced, or to a port that a scan of its address found;
/// and the device counts as connected only on adb's word.
pub proof fn connection_is_earned(start: ConnectingView, events: Seq<ConnectEvent>)
    requires
        start.well_formed(),
        start.stage is Polling,
    ensures
        ({
            let now = start.after(events);
            &&& now.initial == start.initial
            &&& now.device == start.device
            &&& now.well_formed()
            &&& now.stage matches ConnectStageView::Joining { addr, .. } ==> exists|i: int|
                0 <= i < events.len() && announces(#[trigger] events[i], start.device, addr)
            &&& now.stage matches ConnectStageView::Dialing { ports, .. } ==> exists|i: int|
                0 <= i < events.len() && finds(#[trigger] events[i], ports)
            &&& now.connected ==> exists|i: int|
                0 <= i < events.len() && attests(#[trigger] events[i], start)
        }),
    decreases events.len(),
{
    if events.len() > 0 {
        let init = events.drop_last();
        let last = events.last();
        connection_is_earned(start, init);
        let before = start.after(init);
        let now = start.after(events);
        let n = init.len() as int;
        assert(events[n] == last);
        assert forall|i: int| 0 <= i < n implies events[i] == init[i] by {}
        if before.connected {
            let i = choose|i: int| 0 <= i < init.len() && attests(#[trigger] init[i], start);
            assert(attests(events[i], start));
        } else if now.connected {
            assert(attests(events[n], start));
        }
        if let ConnectStageView::Joining { addr, .. } = now.stage {
            if now.stage == before.stage {
                let i = choose|i: int|
                    0 <= i < init.len() && announces(#[trigger] init[i], start.device, addr);
                assert(announces(events[i], start.device, addr));
            } else {
                assert(announces(events[n], start.device, addr));
            }
        }
        if let ConnectStageView::Dialing { ports, .. } = now.stage {
            if let ConnectStageView::Dialing { ports: earlier, .. } = before.stage {
                let i = choose|i: int| 0 <= i < init.len() && finds(#[trigger] init[i], earlier);
                assert(finds(events[i], ports));
            } else {
                assert(finds(events[n], ports));
            }
        }
    }
}

/// The times at which scans began, in turn.
pub open spec fn scan_times(start: ConnectingView, events: Seq<ConnectEvent>) -> Seq<u64>
    decreases events.len(),
{
    if events.len() == 0 {
        seq![]
    } else {
        let earlier = scan_times(start, events.drop_last());
        let before = start.after(events.drop_last());
        match (before.next(events.last()).0.stage, events.last()) {
            (ConnectStageView::Scanning, ConnectEvent::Clock(now)) if before.stage is Timing => {
                earlier.push(now)
            },
            _ => earlier,
        }
    }
}

/// The device is not scanned before its time, and from the beginning of one scan
/// to the beginning of any later one there passes at least the interval.
pub proof fn scans_are_spaced(start: ConnectingView, events: Seq<ConnectEvent>)
    requires
        start.stage is Polling,
        start.last_scan is None,
    ensures
        ({
            let times = scan_times(start, events);
            &&& forall|i: int| 0 <= i < times.len() ==> #[trigger] times[i] >= SCAN_DELAY
            &&& forall|i: int, j: int|
                0 <= i < j < times.len() ==> times[j] >= times[i] + SCAN_INTERVAL
            &&& start.after(events).last_scan == if times.len() > 0 {
                Some(times.last())
            } else {
                None
            }
        }),
    decreases events.len(),
{
    if events.len() > 0 {
        let init = events.drop_last();
        scans_are_spaced(start, init);
        let earlier = scan_times(start, init);
        let times = scan_times(start, events);
        if times != earlier {
            let now = times.last();
            assert(times == earlier.push(now));
            assert forall|i: int, j: int| 0 <= i < j < times.len() implies times[j] >= times[i]
                + SCAN_INTERVAL by {
                if j == times.len() - 1 {
                    assert(earlier.last() == earlier[earlier.len() - 1]);
                }
            }
        }
    }
}

/// A round begins only while the program is left running and the time limit is
/// not reached; where it does not begin, the connecting ends.
pub proof fn rounds_end_in_time(connecting: ConnectingView, running: bool, now: u64)
    requires
        connecting.stage is Polling,
    ensures
        ({
            let then = connecting.next(ConnectEvent::Polled { running, now }).0;
            &&& then.stage is Listing <==> running && now < TIME_LIMIT
            &&& then.stage is Done <==> !running || now >= TIME_LIMIT
            &&& then.connected == connecting.connected
        }),
{
}

/// A serial that adb listed before the pairing is never taken for the device.
pub proof fn earlier_serials_do_not_connect(connecting: ConnectingView, run: CommandRun)
    requires
        connecting.stage is Listing,
        !connecting.connected,
        forall|i: int|
            0 <= i < listed_serials(run).len() ==> connecting.initial.contains(
                #[trigger] listed_serials(run)[i],
            ),
    ensures
        !connecting.next(ConnectEvent::Ran(run)).0.connected,
{
    new_serial_is_new(connecting.device, connecting.initial, listed_serials(run));
    if let Some(s) = new_serial(connecting.device, connecting.initial, listed_serials(run)) {
        let i = choose|i: int|
            0 <= i < listed_serials(run).len() && listed_serials(run)[i] == s;
        assert(connecting.initial.contains(listed_serials(run)[i]));
    }
}

/// Once the connecting has ended it stays as it ended.
pub proof fn ended_connecting_stays(connecting: ConnectingView, events: Seq<ConnectEvent>)
    requires
        connecting.stage is Done,
    ensures
        connecting.after(events) == connecting,
    decreases events.len(),
{
    if events.len() > 0 {
        ended_connecting_stays(connecting, events.drop_last());
    }
}

/// A scan begins wherever it is asked about in its time: from the delay on, and
/// the interval after the last one.
pub proof fn due_scans_begin(connecting: ConnectingView, now: u64)
    requires
        connecting.stage is Timing,
    ensures
        ({
            let then = connecting.next(ConnectEvent::Clock(now)).0;
            &&& then.stage is Scanning <==> now >= SCAN_DELAY && scan_due(connecting.last_scan, now)
            &&& !(then.stage is Scanning) ==> then.stage is Resting && then.last_scan
                == connecting.last_scan
        }),
{
}

/// A device that announces itself gets connected: once a service of it with an
/// address is resolved and adb accepts the connection, the connecting has ended
/// with one.
pub proof fn announced_device_is_connected(
    connecting: ConnectingView,
    service: Service,
    run: CommandRun,
)
    requires
        connecting.stage is Browsing,
        service_matches(connecting.device, service),
        service.addresses@.len() > 0,
        connect_outcome(run).0,
    ensures
        connecting.after(
            seq![
                ConnectEvent::Browse(BrowseEvent::Resolved(service)),
                ConnectEvent::Ran(run),
            ],
        ) == connecting.joined(),
{
    preferred_is_v4_first(service.addresses@);
    let a = ConnectEvent::Browse(BrowseEvent::Resolved(service));
    let b = ConnectEvent::Ran(run);
    assert(seq![a, b].drop_last() =~= seq![a]);
    assert(seq![a].drop_last() =~= seq![]);
    reveal_with_fuel(ConnectingView::after, 3);
}

/// A port that a scan found gets connected to: once adb accepts the connection to
/// the first one, the connecting has ended with it.
pub proof fn scanned_device_is_connected(
    connecting: ConnectingView,
    ports: Vec<u16>,
    run: CommandRun,
)
    requires
        connecting.stage is Scanning,
        ports@.len() > 0,
        connect_outcome(run).0,
    ensures
        connecting.after(seq![ConnectEvent::Ports(ports), ConnectEvent::Ran(run)])
            == connecting.joined(),
{
    let a = ConnectEvent::Ports(ports);
    let b = ConnectEvent::Ran(run);
    assert(seq![a, b].drop_last() =~= seq![a]);
    assert(seq![a].drop_last() =~= seq![]);
    reveal_with_fuel(ConnectingView::after, 3);
}

/// The connecting ends only by a connection, or at a poll where the program is not
/// left running or 15 seconds have passed. So a connection that adb does not accept
/// leads on: from a port of a scan to the next one, and from the last to a rest.
pub proof fn connecting_ends_by_connection_or_poll(connecting: ConnectingView, event: ConnectEvent)
    ensures
        ({
            let then = connecting.next(event).0;
            &&& then.stage is Done && !(connecting.stage is Done) ==> {
                ||| then.connected
                ||| connecting.stage is Polling && (event matches ConnectEvent::Polled {
                    running,
                    now,
                } && (!running || now >= 15_000_000_000))
            }
            &&& connecting.stage matches ConnectStageView::Dialing { ports, at } ==> (
            event matches ConnectEvent::Ran(run) && !connect_outcome(run).0 ==> then.stage == if at
                + 1 < ports.len() {
                ConnectStageView::Dialing { ports, at: at + 1 }
            } else {
                ConnectStageView::Resting
            })
        }),
{
}

/// A connection comes about exactly where adb lists a serial that was not there
/// initially and is the device's, or accepts a connection that it was asked for; it
/// ends the connecting. Nothing else is changed but the stage and the time of the
/// last scan.
pub proof fn connection_comes_from_adb(connecting: ConnectingView, event: ConnectEvent)
    ensures
        ({
            let then = connecting.next(event).0;
            let was = connecting.stage;
            &&& then.connected <==> {
                ||| connecting.connected
                ||| was is Listing && (event matches ConnectEvent::Ran(run) && exists|i: int|
                    0 <= i < listed_serials(run).len() && !connecting.initial.contains(
                        #[trigger] listed_serials(run)[i],
                    ) && serial_matches(connecting.device, listed_serials(run)[i]))
                ||| (was is Joining || was is Dialing) && (event matches ConnectEvent::Ran(run)
                    && connect_outcome(run).0)
            }
            &&& then.connected && !connecting.connected ==> then.stage is Done
            &&& then.initial == connecting.initial
            &&& then.device == connecting.device
            &&& then.has_connect == connecting.has_connect
            &&& then.has_legacy == connecting.has_legacy
            &&& then.last_scan != connecting.last_scan ==> event == ConnectEvent::Clock(
                then.last_scan->0,
            ) && then.last_scan is Some && was is Timing && then.stage is Scanning
        }),
{
    if let ConnectEvent::Ran(run) = event {
        new_serial_is_new(connecting.device, connecting.initial, listed_serials(run));
        if let Some(s) = new_serial(connecting.device, connecting.initial, listed_serials(run)) {
            let i = choose|i: int|
                0 <= i < listed_serials(run).len() && listed_serials(run)[i] == s;
            assert(!connecting.initial.contains(listed_serials(run)[i]));
        }
    }
}

/// A serial in adb's list is new and the device's.
pub open spec fn lists_device(connecting: ConnectingView, run: CommandRun) -> bool {
    exists|i: int|
        0 <= i < listed_serials(run).len() && !connecting.initial.contains(
            #[trigger] listed_serials(run)[i],
        ) && serial_matches(connecting.device, listed_serials(run)[i])
}

/// A round goes through its parts in turn: a poll, adb's list, the announcements of
/// the newer service type and then of the older one, where they can be browsed, the
/// clock, perhaps a scan and the ports that it found, and a rest. Announcements are
/// taken in until none comes in time; one that leads to no connection leads back to
/// them. An event that is not waited for moves nothing.
pub proof fn round_goes_in_turn(connecting: ConnectingView, event: ConnectEvent)
    ensures
        ({
            let then = connecting.next(event).0;
            let was = connecting.stage;
            let newer = ConnectStageView::Browsing { legacy: false };
            let older = ConnectStageView::Browsing { legacy: true };
            let unlisted = was is Listing && (event matches ConnectEvent::Ran(run) && !lists_device(
                connecting,
                run,
            ));
            let refused = event matches ConnectEvent::Ran(run) && !connect_outcome(run).0;
            let over = event == ConnectEvent::Browse(BrowseEvent::TimedOut) || event
                == ConnectEvent::Browse(BrowseEvent::Disconnected);
            let joins = was is Browsing && (event matches ConnectEvent::Browse(
                BrowseEvent::Resolved(service),
            ) && service_matches(connecting.device, service) && service.addresses@.len() > 0);
            &&& then.stage is Polling <==> {
                ||| was is Polling && !(event is Polled)
                ||| was is Resting && event is Rested
            }
            &&& then.stage is Listing <==> {
                ||| was is Listing && !(event is Ran)
                ||| was is Polling && (event matches ConnectEvent::Polled { running, now }
                    && running && now < 15_000_000_000)
            }
            &&& then.stage == newer <==> {
                ||| was == newer && !over && !joins
                ||| unlisted && connecting.has_connect
                ||| was is Joining && !was->Joining_legacy && refused
            }
            &&& then.stage == older <==> {
                ||| was == older && !over && !joins
                ||| unlisted && !connecting.has_connect && connecting.has_legacy
                ||| was == newer && over && connecting.has_legacy
                ||| was is Joining && was->Joining_legacy && refused
            }
            &&& then.stage is Joining <==> joins || (was is Joining && !(event is Ran))
            &&& then.stage is Timing <==> {
                ||| was is Timing && !(event is Clock)
                ||| unlisted && !connecting.has_connect && !connecting.has_legacy
                ||| was == newer && over && !connecting.has_legacy
                ||| was == older && over
            }
            &&& then.stage is Dialing <==> {
                ||| was is Dialing && !(event is Ran)
                ||| was is Scanning && (event matches ConnectEvent::Ports(ports) && ports@.len()
                    > 0)
                ||| was is Dialing && refused && was->Dialing_at + 1 < was->Dialing_ports.len()
            }
        }),
{
    preferred_in_event(event);
    if let ConnectEvent::Ran(run) = event {
        new_serial_is_new(connecting.device, connecting.initial, listed_serials(run));
        if let Some(s) = new_serial(connecting.device, connecting.initial, listed_serials(run)) {
            let i = choose|i: int|
                0 <= i < listed_serials(run).len() && listed_serials(run)[i] == s;
            assert(!connecting.initial.contains(listed_serials(run)[i]));
            assert(lists_device(connecting, run));
        }
    }
}

proof fn preferred_in_event(event: ConnectEvent)
    ensures
        event matches ConnectEvent::Browse(BrowseEvent::Resolved(service)) ==> (preferred(
            service.addresses@,
        ) is Some <==> service.addresses@.len() > 0),
{
    if let ConnectEvent::Browse(BrowseEvent::Resolved(service)) = event {
        preferred_is_v4_first(service.addresses@);
    }
}

/// An announcement that is joined keeps its service type, and is joined at the
/// service's preferred address and port; it is reported with that endpoint.
pub proof fn announced_endpoint_is_joined(
    connecting: ConnectingView,
    legacy: bool,
    service: Service,
)
    requires
        connecting.stage == (ConnectStageView::Browsing { legacy }),
    ensures
        ({
            let (then, lines) = connecting.next(
                ConnectEvent::Browse(BrowseEvent::Resolved(service)),
            );
            match then.stage {
                ConnectStageView::Joining { legacy: kept, addr } => {
                    &&& kept == legacy
                    &&& preferred(service.addresses@) matches Some(ip)
                    &&& addr == endpoint(ip, service.port)
                    &&& lines.len() == 1
                    &&& lines[0] == "[+] Connect service found matching target (mDNS): "@ + addr
                },
                _ => then == connecting && lines.len() == 0,
            }
        }),
{
}

/// A scan begins exactly where the clock, when it is read, shows at least 2 seconds
/// and at least 3 more than when the last scan began, if there was one. It is noted
/// with that time and reported; else the round comes to its rest without a line.
pub proof fn scan_begins_by_the_clock(connecting: ConnectingView, now: u64)
    requires
        connecting.stage is Timing,
    ensures
        ({
            let (then, lines) = connecting.next(ConnectEvent::Clock(now));
            let due = now >= 2_000_000_000 && (connecting.last_scan matches Some(last) ==> now
                >= last + 3_000_000_000);
            &&& then.stage is Scanning <==> due
            &&& then.stage is Resting <==> !due
            &&& due ==> then.last_scan == Some(now) && lines.len() == 1 && lines[0]
                == "[*] Scanning active wireless debugging ports on "@ + connecting.device.ip
                + "..."@
            &&& !due ==> then.last_scan == connecting.last_scan && lines.len() == 0
        }),
{
}

/// What a scan found is dialled port by port from the first, each one announced
/// with its endpoint; where it found nothing, that is reported and the round comes
/// to its rest.
pub proof fn found_ports_are_dialled(connecting: ConnectingView, found: Vec<u16>)
    requires
        connecting.stage is Scanning,
    ensures
        ({
            let (then, lines) = connecting.next(ConnectEvent::Ports(found));
            let ip = connecting.device.ip;
            &&& found@.len() == 0 ==> {
                &&& then.stage is Resting
                &&& lines.len() == 1
                &&& lines[0] == "[-] No active ADB connect ports found on "@ + ip
                    + " yet, retrying..."@
            }
            &&& found@.len() > 0 ==> {
                &&& then.stage matches ConnectStageView::Dialing { ports, at }
                &&& ports == found@
                &&& at == 0
                &&& lines.len() == 2
                &&& lines[0] == "[*] Discovered active ADB wireless debugging port: "@ + endpoint(
                    ip,
                    found@[0],
                )
                &&& lines[1] == "[*] Connecting to "@ + endpoint(ip, found@[0]) + "..."@
            }
        }),
{
}

/// After a port that did not connect the next one of the same scan is dialled; what
/// adb printed is reported before it is announced.
pub proof fn next_port_is_dialled(connecting: ConnectingView, run: CommandRun)
    requires
        connecting.stage is Dialing,
    ensures
        ({
            let (then, lines) = connecting.next(ConnectEvent::Ran(run));
            let was = connecting.stage;
            let said = connect_outcome(run).1;
            let ip = connecting.device.ip;
            let n = said.len() as int;
            &&& lines.len() >= n
            &&& lines.take(n) == said
            &&& then.stage matches ConnectStageView::Dialing { ports, at } ==> {
                &&& ports == was->Dialing_ports
                &&& at == was->Dialing_at + 1
                &&& lines.len() == n + 2
                &&& lines[n] == "[*] Discovered active ADB wireless debugging port: "@ + endpoint(
                    ip,
                    ports[at],
                )
                &&& lines[n + 1] == "[*] Connecting to "@ + endpoint(ip, ports[at]) + "..."@
            }
            &&& !(then.stage is Dialing) ==> lines == said
        }),
{
    let (then, lines) = connecting.next(ConnectEvent::Ran(run));
    let said = connect_outcome(run).1;
    assert(lines.take(said.len() as int) =~= said);
}

/// A new serial is reported by name, adb's answer to a joined announcement as it
/// is; polls, rests, announcements of others and unexpected events lead to no line.
pub proof fn round_is_reported(connecting: ConnectingView, event: ConnectEvent)
    ensures
        ({
            let (then, lines) = connecting.next(event);
            let was = connecting.stage;
            &&& was is Listing ==> (event matches ConnectEvent::Ran(run) ==> (match new_serial(
                connecting.device,
                connecting.initial,
                listed_serials(run),
            ) {
                Some(serial) => lines.len() == 1 && lines[0] == "[+] Auto-connected by ADB: "@
                    + serial,
                None => lines.len() == 0,
            }))
            &&& was is Joining ==> (event matches ConnectEvent::Ran(run) ==> lines
                == connect_outcome(run).1)
            &&& lines.len() > 0 ==> {
                ||| was is Listing && event is Ran && then.connected
                ||| was is Browsing && then.stage is Joining
                ||| (was is Joining || was is Dialing) && event is Ran
                ||| was is Timing && then.stage is Scanning
                ||| was is Scanning && event is Ports
            }
        }),
{
}

/// What is done at each stage. adb is run with the word `devices` for its list, and
/// with the word `connect` and an endpoint for an announcement or a port of a scan;
/// the device is scanned at its address but for the port that it was paired at.
pub proof fn connecting_acts_by_stage(connecting: ConnectingView, action: ConnectAction)
    requires
        connecting.calls_for(action),
    ensures
        action is Poll <==> connecting.stage is Polling,
        action is ReadClock <==> connecting.stage is Timing,
        action is Rest <==> connecting.stage is Resting,
        action is Stop <==> connecting.stage is Done,
        action is Receive <==> connecting.stage is Browsing,
        action is Scan <==> connecting.stage is Scanning,
        connecting.stage matches ConnectStageView::Browsing { legacy } ==> action->Receive_legacy
            == legacy,
        connecting.stage is Scanning ==> {
            &&& action matches ConnectAction::Scan { ip, exclude_port }
            &&& ip@ == connecting.device.ip
            &&& exclude_port == connecting.device.port
        },
        connecting.stage is Listing ==> {
            &&& action matches ConnectAction::Run(args)
            &&& args@.len() == 1
            &&& args@[0]@ == seq!['d', 'e', 'v', 'i', 'c', 'e', 's']
        },
        connecting.stage matches ConnectStageView::Joining { addr, .. } ==> {
            &&& action matches ConnectAction::Run(args)
            &&& args@.len() == 2
            &&& args@[0]@ == seq!['c', 'o', 'n', 'n', 'e', 'c', 't']
            &&& args@[1]@ == addr
        },
        connecting.stage matches ConnectStageView::Dialing { ports, at } ==> {
            &&& action matches ConnectAction::Run(args)
            &&& args@.len() == 2
            &&& args@[0]@ == seq!['c', 'o', 'n', 'n', 'e', 'c', 't']
            &&& args@[1]@ == endpoint(connecting.device.ip, ports[at])
        },
{
    assert("devices"@ =~= seq!['d', 'e', 'v', 'i', 'c', 'e', 's']) by {
        reveal_strlit("devices");
    }
    assert("connect"@ =~= seq!['c', 'o', 'n', 'n', 'e', 'c', 't']) by {
        reveal_strlit("connect");
    }
    if let ConnectAction::Run(args) = action {
        let words = texts(args@);
        assert(words.len() == args@.len());
        assert(args@.len() > 0 ==> args@[0]@ == words[0]);
        assert(args@.len() > 1 ==> args@[1]@ == words[1]);
    }
}

/// The connecting starts with a poll, unconnected and without a scan; its limits
/// are 15 seconds in all, 2 seconds to the first scan and 3 from one scan to the
/// next, and it waits 50 milliseconds for an announcement and rests 150.
pub proof fn connecting_starts_polling(
    initial: Seq<Seq<char>>,
    device: DeviceView,
    has_connect: bool,
    has_legacy: bool,
)
    ensures
        ({
            let start = ConnectingView::start(initial, device, has_connect, has_legacy);
            &&& start.initial == initial
            &&& start.device == device
            &&& start.has_connect == has_connect
            &&& start.has_legacy == has_legacy
            &&& start.last_scan is None
            &&& !start.connected
            &&& start.stage is Polling
        }),
        TIME_LIMIT == 15 * 1_000_000_000,
        SCAN_DELAY == 2 * 1_000_000_000,
        SCAN_INTERVAL == 3 * 1_000_000_000,
        RECEIVE_WAIT_MS == 50,
        REST_MS == 150,
{
}

/// A stage is left only by the event that it waits for: at any other event the
/// connecting stays what it is and nothing is reported.
pub proof fn unexpected_event_is_ignored(connecting: ConnectingView, event: ConnectEvent)
    requires
        match connecting.stage {
            ConnectStageView::Polling => !(event is Polled),
            ConnectStageView::Listing => !(event is Ran),
            ConnectStageView::Browsing { .. } => !(event is Browse),
            ConnectStageView::Joining { .. } => !(event is Ran),
            ConnectStageView::Timing => !(event is Clock),
            ConnectStageView::Scanning => !(event is Ports),
            ConnectStageView::Dialing { .. } => !(event is Ran),
            ConnectStageView::Resting => !(event is Rested),
            ConnectStageView::Done => true,
        },
    ensures
        connecting.next(event).0 == connecting,
        connecting.next(event).1.len() == 0,
{
}

/// A rest comes exactly where no scan is due, where a scan found nothing, or where
/// the last port of a scan did not connect.
pub proof fn rest_comes_last(connecting: ConnectingView, event: ConnectEvent)
    ensures
        ({
            let was = connecting.stage;
            connecting.next(event).0.stage is Resting <==> {
                ||| was is Resting && !(event is Rested)
                ||| was is Timing && (event matches ConnectEvent::Clock(now) && (now
                    < 2_000_000_000 || (connecting.last_scan matches Some(last) && now < last
                    + 3_000_000_000)))
                ||| was is Scanning && (event matches ConnectEvent::Ports(ports) && ports@.len()
                    == 0)
                ||| was is Dialing && was->Dialing_at + 1 >= was->Dialing_ports.len() && (
                event matches ConnectEvent::Ran(run) && !connect_outcome(run).0)
            }
        }),
{
}

/// Whatever happens, a connection has ended the connecting, and a port is dialled
/// only if a scan found it.
pub proof fn connected_end_is_final(start: ConnectingView, events: Seq<ConnectEvent>)
    requires
        start.stage is Polling,
        !start.connected,
    ensures
        ({
            let now = start.after(events);
            &&& now.connected ==> now.stage is Done
            &&& now.stage matches ConnectStageView::Dialing { ports, at } ==> 0 <= at < ports.len()
        }),
{
    connection_is_earned(start, events);
}

} // verus!
