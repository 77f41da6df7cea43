//! Waiting for the device that scanned the QR code, and pairing with it.

use crate::adb::{adb_pair, pair_args, pair_outcome, pairing_announcement, pairing_line};
use crate::adb::{CommandRun, PairReply};
use crate::address::{endpoint, get_preferred_ip, preferred, preferred_is_v4_first};
use crate::device::{BrowseEvent, Device, DeviceView, Service};
use crate::text::{contains, decimal, joined, occurrence_parts_text, occurs_in, port_text, texts};
use vstd::prelude::*;

verus! {

/// Milliseconds to wait for an event of the browsing.
pub const RECEIVE_WAIT_MS: u64 = 100;

/// Where the waiting stands.
pub enum PairingStage {
    /// To see whether the user has cancelled, and go on if not.
    Polling,
    /// To wait for an event of the browsing.
    Receiving,
    /// To have adb pair with the device at that address and port.
    Asking { ip: String, port: u16 },
    /// To see once more whether the user has cancelled, and end.
    Leaving,
    /// Ended by the user.
    Cancelled,
    /// Ended with no device paired.
    Unpaired,
    /// Ended with a device paired.
    Paired,
}

/// The content of a [`PairingStage`].
pub enum PairingStageView {
    Polling,
    Receiving,
    Asking { ip: Seq<char>, port: u16 },
    Leaving,
    Cancelled,
    Unpaired,
    Paired,
}

impl View for PairingStage {
    type V = PairingStageView;

    open spec fn view(&self) -> PairingStageView {
        match self {
            PairingStage::Polling => PairingStageView::Polling,
            PairingStage::Receiving => PairingStageView::Receiving,
            PairingStage::Asking { ip, port } => PairingStageView::Asking { ip: ip@, port: *port },
            PairingStage::Leaving => PairingStageView::Leaving,
            PairingStage::Cancelled => PairingStageView::Cancelled,
            PairingStage::Unpaired => PairingStageView::Unpaired,
            PairingStage::Paired => PairingStageView::Paired,
        }
    }
}

/// The waiting for a device: the credentials offered, the stage, and the device
/// once it is paired.
pub struct Pairing {
    pub name: String,
    pub password: String,
    pub stage: PairingStage,
    pub device: Option<Device>,
}

/// The content of a [`Pairing`].
pub struct PairingView {
    pub name: Seq<char>,
    pub password: Seq<char>,
    pub stage: PairingStageView,
    pub device: Option<DeviceView>,
}

impl View for Pairing {
    type V = PairingView;

    open spec fn view(&self) -> PairingView {
        PairingView {
            name: self.name@,
            password: self.password@,
            stage: self.stage@,
            device: match self.device {
                Some(d) => Some(d@),
                None => None,
            },
        }
    }
}

/// What the surroundings report.
pub enum PairingEvent {
    /// Whether the user has left the program running.
    Running(bool),
    /// What browsing for [`crate::device::PAIRING_SERVICE`] brought.
    Browse(BrowseEvent),
    /// How running adb ended.
    Ran(CommandRun),
}

/// What to do before the next event can be given.
pub enum PairingAction {
    /// See whether the user has cancelled.
    CheckRunning,
    /// Wait for an event of the browsing.
    Receive,
    /// Run adb with these arguments.
    Run(Vec<String>),
    /// Nothing; the waiting has ended.
    Stop,
}

/// A service is the one that the QR code asked for.
pub open spec fn is_ours(name: Seq<char>, service: Service) -> bool {
    occurs_in(service.fullname@, name)
}

/// The lines that report a service that is ours.
pub open spec fn found_lines(service: Service) -> Seq<Seq<char>> {
    let found = "\n[+] Device found: "@ + service.fullname@;
    match preferred(service.addresses@) {
        Some(ip) => seq![
            found,
            "    Server: "@ + service.hostname@,
            "    Port: "@ + decimal(service.port as nat),
            pairing_line(ip, service.port),
        ],
        None => seq![found],
    }
}

impl PairingView {
    /// No device is paired while one is being looked for, and one is paired
    /// where the waiting ended so.
    pub open spec fn well_formed(self) -> bool {
        &&& (self.stage is Receiving || self.stage is Asking || self.stage is Unpaired) ==> self.device is None
        &&& self.stage is Paired ==> self.device is Some
    }

    /// The waiting at its start.
    pub open spec fn start(name: Seq<char>, password: Seq<char>) -> PairingView {
        PairingView { name, password, stage: PairingStageView::Polling, device: None }
    }

    /// The same waiting at another stage.
    pub open spec fn at(self, stage: PairingStageView) -> PairingView {
        PairingView { stage, ..self }
    }

    /// The waiting after an event, and the lines that report it. An event that
    /// is not waited for changes nothing.
    pub open spec fn next(self, event: PairingEvent) -> (PairingView, Seq<Seq<char>>) {
        match (self.stage, event) {
            (PairingStageView::Polling, PairingEvent::Running(running)) => {
                if running && self.device is None {
                    (self.at(PairingStageView::Receiving), seq![])
                } else {
                    (self.at(PairingStageView::Leaving), seq![])
                }
            },
            (PairingStageView::Receiving, PairingEvent::Browse(browsed)) => match browsed {
                BrowseEvent::Resolved(service) => {
                    if !is_ours(self.name, service) {
                        (self.at(PairingStageView::Polling), seq![])
                    } else {
                        match preferred(service.addresses@) {
                            Some(ip) => (
                                self.at(PairingStageView::Asking { ip, port: service.port }),
                                found_lines(service),
                            ),
                            None => (self.at(PairingStageView::Polling), found_lines(service)),
                        }
                    }
                },
                BrowseEvent::Removed(gone) => (
                    self.at(PairingStageView::Polling),
                    if occurs_in(gone@, self.name) {
                        seq!["\n[!] Service removed: "@ + gone@]
                    } else {
                        seq![]
                    },
                ),
                BrowseEvent::Other => (self.at(PairingStageView::Polling), seq![]),
                BrowseEvent::TimedOut => (self.at(PairingStageView::Polling), seq![]),
                BrowseEvent::Disconnected => (self.at(PairingStageView::Leaving), seq![]),
            },
            (PairingStageView::Asking { ip, port }, PairingEvent::Ran(run)) => {
                let (success, guid, lines) = pair_outcome(run);
                (
                    PairingView {
                        stage: PairingStageView::Polling,
                        device: if success {
                            Some(DeviceView { ip, port, guid })
                        } else {
                            self.device
                        },
                        ..self
                    },
                    lines,
                )
            },
            (PairingStageView::Leaving, PairingEvent::Running(running)) => {
                if !running {
                    (self.at(PairingStageView::Cancelled), seq!["\n\n[*] Cancelled by user"@])
                } else if self.device is Some {
                    (
                        self.at(PairingStageView::Paired),
                        seq!["\n[*] Looking for device connect service..."@],
                    )
                } else {
                    (self.at(PairingStageView::Unpaired), seq![])
                }
            },
            _ => (self, seq![]),
        }
    }

    /// The waiting after a row of events.
    pub open spec fn after(self, events: Seq<PairingEvent>) -> PairingView
        decreases events.len(),
    {
        if events.len() == 0 {
            self
        } else {
            self.after(events.drop_last()).next(events.last()).0
        }
    }

    /// `action` is what has to be done at this stage.
    pub open spec fn calls_for(self, action: PairingAction) -> bool {
        match self.stage {
            PairingStageView::Polling | PairingStageView::Leaving => action is CheckRunning,
            PairingStageView::Receiving => action is Receive,
            PairingStageView::Asking { ip, port } => action matches PairingAction::Run(args)
                && texts(args@) == seq!["pair"@, endpoint(ip, port), self.password],
            PairingStageView::Cancelled | PairingStageView::Unpaired | PairingStageView::Paired => action is Stop,
        }
    }
}

impl Pairing {
    /// The waiting at its start, with the given credentials on offer.
    pub fn new(name: &str, password: &str) -> (r: Pairing)
        ensures
            r@ == PairingView::start(name@, password@),
            r@.well_formed(),
    {
        Pairing {
            name: name.to_string(),
            password: password.to_string(),
            stage: PairingStage::Polling,
            device: None,
        }
    }

    /// What to do before the next event can be given.
    pub fn pending(&self) -> (r: PairingAction)
        ensures
            self@.calls_for(r),
    {
        match &self.stage {
            PairingStage::Polling | PairingStage::Leaving => PairingAction::CheckRunning,
            PairingStage::Receiving => PairingAction::Receive,
            PairingStage::Asking { ip, port } => PairingAction::Run(
                pair_args(ip.as_str(), *port, self.password.as_str()),
            ),
            PairingStage::Cancelled | PairingStage::Unpaired | PairingStage::Paired => PairingAction::Stop,
        }
    }

    /// Takes an event in, and gives the lines that report it.
    pub fn step(&mut self, event: &PairingEvent) -> (lines: Vec<String>)
        requires
            old(self)@.well_formed(),
        ensures
            (final(self)@, texts(lines@)) == old(self)@.next(*event),
            final(self)@.well_formed(),
    {
        let mut lines: Vec<String> = Vec::new();
        assert(texts(lines@) =~= seq![]);
        match (&self.stage, event) {
            (PairingStage::Polling, PairingEvent::Running(running)) => {
                if *running && self.device.is_none() {
                    self.stage = PairingStage::Receiving;
                } else {
                    self.stage = PairingStage::Leaving;
                }
            },
            (PairingStage::Receiving, PairingEvent::Browse(browsed)) => {
                lines = self.browsed(browsed);
            },
            (PairingStage::Asking { ip, port }, PairingEvent::Ran(run)) => {
                let reply: PairReply = adb_pair(run);
                if reply.success {
                    let device: Device = Device { ip: ip.clone(), port: *port, guid: reply.guid };
                    self.device = Some(device);
                }
                self.stage = PairingStage::Polling;
                lines = reply.lines;
            },
            (PairingStage::Leaving, PairingEvent::Running(running)) => {
                if !*running {
                    self.stage = PairingStage::Cancelled;
                    lines.push("\n\n[*] Cancelled by user".to_string());
                    assert(texts(lines@) =~= seq!["\n\n[*] Cancelled by user"@]);
                } else if self.device.is_some() {
                    self.stage = PairingStage::Paired;
                    lines.push("\n[*] Looking for device connect service...".to_string());
                    assert(texts(lines@) =~= seq!["\n[*] Looking for device connect service..."@]);
                } else {
                    self.stage = PairingStage::Unpaired;
                }
            },
            _ => {},
        }
        lines
    }

    fn browsed(&mut self, event: &BrowseEvent) -> (lines: Vec<String>)
        requires
            old(self)@.well_formed(),
            old(self)@.stage is Receiving,
        ensures
            (final(self)@, texts(lines@)) == old(self)@.next(PairingEvent::Browse(*event)),
            final(self)@.well_formed(),
    {
        let mut lines: Vec<String> = Vec::new();
        assert(texts(lines@) =~= seq![]);
        self.stage = PairingStage::Polling;
        match event {
            BrowseEvent::Resolved(service) => {
                if contains(service.fullname.as_str(), self.name.as_str()) {
                    lines.push(joined("\n[+] Device found: ", service.fullname.as_str()));
                    if let Some(ip) = get_preferred_ip(service.addresses.as_slice()) {
                        let port: u16 = service.port;
                        lines.push(joined("    Server: ", service.hostname.as_str()));
                        lines.push(joined("    Port: ", port_text(port).as_str()));
                        lines.push(pairing_announcement(ip.as_str(), port));
                        self.stage = PairingStage::Asking { ip, port };
                    }
                    assert(texts(lines@) =~= found_lines(*service));
                }
            },
            BrowseEvent::Removed(gone) => {
                if contains(gone.as_str(), self.name.as_str()) {
                    lines.push(joined("\n[!] Service removed: ", gone.as_str()));
                    assert(texts(lines@) =~= seq!["\n[!] Service removed: "@ + gone@]);
                }
            },
            BrowseEvent::Other => {},
            BrowseEvent::TimedOut => {},
            BrowseEvent::Disconnected => {
                self.stage = PairingStage::Leaving;
            },
        }
        lines
    }
}

/// `event` resolves a service that is ours and is to be paired with at the given
/// address and port.
pub open spec fn offers(event: PairingEvent, name: Seq<char>, ip: Seq<char>, port: u16) -> bool {
    event matches PairingEvent::Browse(BrowseEvent::Resolved(service)) && is_ours(name, service)
        && preferred(service.addresses@) == Some(ip) && service.port == port
}

/// `event` is adb's answer that a pairing went through with a device of the given
/// identifier.
pub open spec fn confirms(event: PairingEvent, guid: Option<Seq<char>>) -> bool {
    event matches PairingEvent::Ran(run) && pair_outcome(run).0 && pair_outcome(run).1 == guid
}

/// Some event among `events` is an offer.
pub open spec fn offered(
    events: Seq<PairingEvent>,
    name: Seq<char>,
    ip: Seq<char>,
    port: u16,
) -> bool {
    exists|i: int| 0 <= i < events.len() && offers(#[trigger] events[i], name, ip, port)
}

/// Some event among `events` is an offer, and a later one confirms it.
pub open spec fn earned(
    events: Seq<PairingEvent>,
    name: Seq<char>,
    device: DeviceView,
) -> bool {
    exists|i: int, j: int|
        0 <= i < j < events.len() && offers(#[trigger] events[i], name, device.ip, device.port)
            && confirms(#[trigger] events[j], device.guid)
}

/// Whatever happens, adb is asked to pair only with a device whose service
/// carries the name in the QR code, at the address and port that the service
/// gave; and a device counts as paired only when adb has confirmed it after that.
pub proof fn pairing_is_earned(name: Seq<char>, password: Seq<char>, events: Seq<PairingEvent>)
    ensures
        ({
            let now = PairingView::start(name, password).after(events);
            &&& now.name == name
            &&& now.password == password
            &&& now.well_formed()
            &&& now.stage matches PairingStageView::Asking { ip, port } ==> offered(
                events,
                name,
                ip,
                port,
            )
            &&& now.device matches Some(device) ==> earned(events, name, device)
        }),
    decreases events.len(),
{
    if events.len() > 0 {
        let init = events.drop_last();
        let last = events.last();
        pairing_is_earned(name, password, init);
        let before = PairingView::start(name, password).after(init);
        let now = PairingView::start(name, password).after(events);
        let n = init.len() as int;
        assert(events[n] == last);
        assert forall|i: int| 0 <= i < n implies events[i] == init[i] by {}
        if let PairingStageView::Asking { ip, port } = before.stage {
            let i = choose|i: int| 0 <= i < init.len() && offers(#[trigger] init[i], name, ip, port);
            assert(offers(events[i], name, ip, port));
            if let PairingEvent::Ran(run) = last {
                let (success, guid, lines) = pair_outcome(run);
                if success {
                    assert(confirms(events[n], guid));
                    assert(earned(events, name, DeviceView { ip, port, guid }));
                }
            }
        }
        if let Some(device) = before.device {
            let (i, j) = choose|i: int, j: int|
                0 <= i < j < init.len() && offers(#[trigger] init[i], name, device.ip, device.port)
                    && confirms(#[trigger] init[j], device.guid);
            assert(offers(events[i], name, device.ip, device.port));
            assert(confirms(events[j], device.guid));
            assert(earned(events, name, device));
        }
        if let PairingStageView::Asking { ip, port } = now.stage {
            if !(before.stage is Asking) {
                assert(offers(events[n], name, ip, port));
            }
            assert(offered(events, name, ip, port));
        }
    }
}

/// A device that answers to the QR code gets paired: once its service is resolved
/// and adb confirms the pairing, and unless the user cancels, the waiting ends
/// with that device.
pub proof fn answering_device_is_paired(pairing: PairingView, service: Service, run: CommandRun)
    requires
        pairing.well_formed(),
        pairing.stage is Receiving,
        is_ours(pairing.name, service),
        service.addresses@.len() > 0,
        pair_outcome(run).0,
    ensures
        ({
            let ended = pairing.after(
                seq![
                    PairingEvent::Browse(BrowseEvent::Resolved(service)),
                    PairingEvent::Ran(run),
                    PairingEvent::Running(true),
                    PairingEvent::Running(true),
                ],
            );
            &&& ended.stage is Paired
            &&& ended.device == Some(
                DeviceView {
                    ip: preferred(service.addresses@)->0,
                    port: service.port,
                    guid: pair_outcome(run).1,
                },
            )
        }),
{
    preferred_is_v4_first(service.addresses@);
    let a = PairingEvent::Browse(BrowseEvent::Resolved(service));
    let b = PairingEvent::Ran(run);
    let c = PairingEvent::Running(true);
    assert(seq![a, b, c, c].drop_last() =~= seq![a, b, c]);
    assert(seq![a, b, c].drop_last() =~= seq![a, b]);
    assert(seq![a, b].drop_last() =~= seq![a]);
    assert(seq![a].drop_last() =~= seq![]);
    reveal_with_fuel(PairingView::after, 5);
}

/// A service that does not carry the name in the QR code leads to no pairing and
/// to no line.
pub proof fn foreign_service_is_ignored(pairing: PairingView, service: Service)
    requires
        !is_ours(pairing.name, service),
    ensures
        ({
            let (now, lines) = pairing.next(PairingEvent::Browse(BrowseEvent::Resolved(service)));
            &&& now.device == pairing.device
            &&& now.stage is Asking ==> now == pairing
            &&& lines.len() == 0
        }),
{
}

/// The password shows in no line: with another password every event gives the
/// same lines.
pub proof fn password_is_not_shown(pairing: PairingView, other: Seq<char>, event: PairingEvent)
    ensures
        pairing.next(event).1 == (PairingView { password: other, ..pairing }).next(event).1,
{
}

/// Once the waiting has ended it stays as it ended.
pub proof fn ended_pairing_stays(pairing: PairingView, events: Seq<PairingEvent>)
    requires
        pairing.stage is Cancelled || pairing.stage is Unpaired || pairing.stage is Paired,
    ensures
        pairing.after(events) == pairing,
    decreases events.len(),
{
    if events.len() > 0 {
        ended_pairing_stays(pairing, events.drop_last());
    }
}

/// A pairing is asked for exactly where the full name of a resolved service holds
/// the session's own name and the service has an address: the preferred one, at the
/// service's port. A service without the name leads to no line.
pub proof fn only_named_service_is_asked(pairing: PairingView, service: Service)
    requires
        pairing.stage is Receiving,
    ensures
        ({
            let (then, lines) = pairing.next(PairingEvent::Browse(BrowseEvent::Resolved(service)));
            let named = exists|k: int|
                0 <= k <= service.fullname@.len() - pairing.name.len()
                    && #[trigger] service.fullname@.subrange(k, k + pairing.name.len())
                    == pairing.name;
            &&& then.stage is Asking <==> named && service.addresses@.len() > 0
            &&& then.stage matches PairingStageView::Asking { ip, port } ==> Some(ip) == preferred(
                service.addresses@,
            ) && port == service.port
            &&& !(then.stage is Asking) ==> then.stage is Polling
            &&& !named ==> lines.len() == 0
            &&& named ==> lines.len() == (if service.addresses@.len() > 0 {
                4int
            } else {
                1
            }) && lines[0] == "\n[+] Device found: "@ + service.fullname@
            &&& then.stage matches PairingStageView::Asking { ip, port } ==> {
                &&& lines[1] == "    Server: "@ + service.hostname@
                &&& lines[2] == "    Port: "@ + decimal(service.port as nat)
                &&& lines[3] == "\n[*] Running: adb pair "@ + endpoint(ip, port) + " ******"@
            }
        }),
{
    occurrence_parts_text(service.fullname@, pairing.name);
    preferred_is_v4_first(service.addresses@);
}

/// A removed service is reported exactly where its name holds the session's own,
/// and the waiting goes on either way.
pub proof fn removed_service_is_reported(pairing: PairingView, gone: String)
    requires
        pairing.stage is Receiving,
    ensures
        ({
            let (then, lines) = pairing.next(PairingEvent::Browse(BrowseEvent::Removed(gone)));
            let named = exists|k: int|
                0 <= k <= gone@.len() - pairing.name.len() && #[trigger] gone@.subrange(
                    k,
                    k + pairing.name.len(),
                ) == pairing.name;
            &&& then.stage is Polling
            &&& lines.len() == if named {
                1int
            } else {
                0
            }
            &&& named ==> lines[0] == "\n[!] Service removed: "@ + gone@
        }),
{
    occurrence_parts_text(gone@, pairing.name);
}

/// The waiting moves so: it waits for an event while the program is left running
/// and no device is paired; it leaves where the program is not, where a device is
/// paired, or where the browsing has ended; and from there it ends cancelled where
/// the program is not left running, else paired or unpaired as a device is or is
/// not. An event that is not waited for moves nothing.
pub proof fn waiting_moves_in_turn(pairing: PairingView, event: PairingEvent)
    ensures
        ({
            let then = pairing.next(event).0;
            let was = pairing.stage;
            &&& then.name == pairing.name
            &&& then.password == pairing.password
            &&& then.stage is Receiving <==> {
                ||| was is Receiving && !(event is Browse)
                ||| was is Polling && event == PairingEvent::Running(true) && pairing.device is None
            }
            &&& then.stage is Asking <==> {
                ||| was is Asking && !(event is Ran)
                ||| was is Receiving && (event matches PairingEvent::Browse(
                    BrowseEvent::Resolved(service),
                ) && service.addresses@.len() > 0 && exists|k: int|
                    0 <= k <= service.fullname@.len() - pairing.name.len()
                        && #[trigger] service.fullname@.subrange(k, k + pairing.name.len())
                        == pairing.name)
            }
            &&& was is Asking && !(event is Ran) ==> then == pairing
            &&& then.stage is Leaving <==> {
                ||| was is Leaving && !(event is Running)
                ||| was is Polling && event == PairingEvent::Running(false)
                ||| was is Polling && event == PairingEvent::Running(true) && pairing.device is Some
                ||| was is Receiving && event == PairingEvent::Browse(BrowseEvent::Disconnected)
            }
            &&& then.stage is Cancelled <==> {
                ||| was is Cancelled
                ||| was is Leaving && event == PairingEvent::Running(false)
            }
            &&& then.stage is Paired <==> {
                ||| was is Paired
                ||| was is Leaving && event == PairingEvent::Running(true) && pairing.device is Some
            }
            &&& then.stage is Unpaired <==> {
                ||| was is Unpaired
                ||| was is Leaving && event == PairingEvent::Running(true) && pairing.device is None
            }
        }),
{
    if let PairingEvent::Browse(BrowseEvent::Resolved(service)) = event {
        if pairing.stage is Receiving {
            only_named_service_is_asked(pairing, service);
        }
    }
}

/// A device is taken exactly where adb answers to an asked pairing with success:
/// the address and the port asked for, and the identifier that adb gave. After any
/// answer the waiting goes on to its next poll.
pub proof fn device_is_taken_on_success(pairing: PairingView, event: PairingEvent)
    ensures
        ({
            let (then, lines) = pairing.next(event);
            match (pairing.stage, event) {
                (PairingStageView::Asking { ip, port }, PairingEvent::Ran(run)) => {
                    &&& then.stage is Polling
                    &&& lines == pair_outcome(run).2
                    &&& pair_outcome(run).0 ==> {
                        &&& then.device matches Some(device)
                        &&& device.ip == ip
                        &&& device.port == port
                        &&& device.guid == pair_outcome(run).1
                    }
                    &&& !pair_outcome(run).0 ==> then.device == pairing.device
                },
                _ => then.device == pairing.device,
            }
        }),
{
}

/// Beside what is found, removed and answered, the waiting reports its end: that
/// the user cancelled it, or that the paired device is looked for.
pub proof fn end_of_waiting_is_reported(pairing: PairingView, event: PairingEvent)
    ensures
        ({
            let (then, lines) = pairing.next(event);
            let was = pairing.stage;
            &&& !(was is Cancelled) && then.stage is Cancelled ==> lines.len() == 1 && lines[0]
                == "\n\n[*] Cancelled by user"@
            &&& !(was is Paired) && then.stage is Paired ==> lines.len() == 1 && lines[0]
                == "\n[*] Looking for device connect service..."@
            &&& lines.len() > 0 ==> {
                ||| !(was is Cancelled) && then.stage is Cancelled
                ||| !(was is Paired) && then.stage is Paired
                ||| was is Asking && event is Ran
                ||| was is Receiving && (event matches PairingEvent::Browse(browsed) && (
                browsed is Resolved || browsed is Removed))
            }
        }),
{
}

/// What is done at each stage: the program's running is looked at while polling
/// and leaving, an event is waited for while receiving, and while asking adb is run
/// with the word `pair`, the endpoint and the session's password. At the end nothing
/// is done.
pub proof fn waiting_acts_by_stage(pairing: PairingView, action: PairingAction)
    requires
        pairing.calls_for(action),
    ensures
        action is CheckRunning <==> pairing.stage is Polling || pairing.stage is Leaving,
        action is Receive <==> pairing.stage is Receiving,
        action is Run <==> pairing.stage is Asking,
        action is Stop <==> pairing.stage is Cancelled || pairing.stage is Unpaired
            || pairing.stage is Paired,
        pairing.stage matches PairingStageView::Asking { ip, port } ==> {
            &&& action matches PairingAction::Run(args)
            &&& args@.len() == 3
            &&& args@[0]@ == seq!['p', 'a', 'i', 'r']
            &&& args@[1]@ == endpoint(ip, port)
            &&& args@[2]@ == pairing.password
        },
{
    if let PairingStageView::Asking { ip, port } = pairing.stage {
        if let PairingAction::Run(args) = action {
            reveal_strlit("pair");
            assert("pair"@ =~= seq!['p', 'a', 'i', 'r']);
            let expected = seq!["pair"@, endpoint(ip, port), pairing.password];
            assert(texts(args@).len() == expected.len());
            assert(args@[0]@ == texts(args@)[0]);
            assert(args@[1]@ == texts(args@)[1]);
            assert(args@[2]@ == texts(args@)[2]);
        }
    }
}

/// The waiting starts with a poll, the given credentials and no device.
pub proof fn waiting_starts_polling(name: Seq<char>, password: Seq<char>)
    ensures
        ({
            let start = PairingView::start(name, password);
            &&& start.name == name
            &&& start.password == password
            &&& start.stage is Polling
            &&& start.device is None
            &&& start.after(Seq::empty()) == start
        }),
        RECEIVE_WAIT_MS == 100,
{
}

/// A stage is left only by the event that it waits for: at any other event the
/// waiting stays what it is and nothing is reported.
pub proof fn unexpected_event_is_ignored(pairing: PairingView, event: PairingEvent)
    requires
        match pairing.stage {
            PairingStageView::Polling | PairingStageView::Leaving => !(event is Running),
            PairingStageView::Receiving => !(event is Browse),
            PairingStageView::Asking { .. } => !(event is Ran),
            PairingStageView::Cancelled | PairingStageView::Unpaired
            | PairingStageView::Paired => true,
        },
    ensures
        pairing.next(event).0 == pairing,
        pairing.next(event).1.len() == 0,
{
}

/// Whatever happens, no device is paired while one is waited for or asked, and one
/// is where the waiting ended so.
pub proof fn paired_end_has_device(name: Seq<char>, password: Seq<char>, events: Seq<PairingEvent>)
    ensures
        ({
            let now = PairingView::start(name, password).after(events);
            &&& now.stage is Paired ==> now.device is Some
            &&& now.stage is Receiving || now.stage is Asking || now.stage is Unpaired
                ==> now.device is None
        }),
{
    pairing_is_earned(name, password, events);
}

} // verus!
