//! Scanning a host for the port of an adb daemon.

use vstd::prelude::*;

verus! {

/// The lowest port that is scanned; the highest is the highest there is.
pub const FIRST_PORT: u16 = 30000;

/// Probes that are under way at once, at most.
pub const MAX_PROBES: usize = 500;

/// A port that a scan tries.
pub open spec fn scanned(exclude_port: Option<u16>, port: u16) -> bool {
    FIRST_PORT <= port && exclude_port != Some(port)
}

/// The numbers rise from left to right.
pub open spec fn rising(ports: Seq<u16>) -> bool {
    forall|i: int, j: int| 0 <= i < j < ports.len() ==> ports[i] < ports[j]
}

/// The ports to try, in the order in which to begin with them: every port from
/// [`FIRST_PORT`] up but the excluded one, or none where the target is no
/// address that can be tried.
pub fn scan_plan(target_known: bool, exclude_port: Option<u16>) -> (r: Vec<u16>)
    ensures
        rising(r@),
        forall|port: u16| #[trigger]
            r@.contains(port) <==> target_known && scanned(exclude_port, port),
{
    let mut r: Vec<u16> = Vec::new();
    if !target_known {
        return r;
    }
    let mut next: u32 = FIRST_PORT as u32;
    while next <= 65535
        invariant
            30000 <= next <= 65536,
            rising(r@),
            forall|i: int| 0 <= i < r@.len() ==> #[trigger] r@[i] < next,
            forall|port: u16|
                r@.contains(port) <==> scanned(exclude_port, port) && port < next,
        decreases 65536 - next,
    {
        let port: u16 = next as u16;
        let excluded: bool = match exclude_port {
            Some(p) => p == port,
            None => false,
        };
        let ghost before = r@;
        if !excluded {
            r.push(port);
            assert(r@.last() == port);
            assert forall|p: u16| r@.contains(p) <==> before.contains(p) || p == port by {
                if before.contains(p) {
                    let i = choose|i: int| 0 <= i < before.len() && before[i] == p;
                    assert(r@[i] == p);
                }
                if r@.contains(p) && p != port {
                    let i = choose|i: int| 0 <= i < r@.len() && r@[i] == p;
                    assert(before[i] == p);
                }
                if p == port {
                    assert(r@[r@.len() - 1] == p);
                }
            }
        }
        next = next + 1;
    }
    r
}

/// A scan under way: whether it has been called off, and the daemon's port that
/// was found first.
pub struct Scan {
    pub cancelled: bool,
    pub found: Option<u16>,
}

/// The end of a probe: the port, and whether a daemon answered there.
pub type ProbeEnd = (u16, bool);

impl Scan {
    /// A scan is called off exactly when a port has been found.
    pub open spec fn well_formed(self) -> bool {
        self.cancelled <==> self.found is Some
    }

    /// The scan before any probe.
    pub open spec fn start() -> Scan {
        Scan { cancelled: false, found: None }
    }

    /// The scan after one more probe has ended.
    pub open spec fn after(self, end: ProbeEnd) -> Scan {
        if end.1 {
            Scan {
                cancelled: true,
                found: match self.found {
                    Some(port) => Some(port),
                    None => Some(end.0),
                },
            }
        } else {
            self
        }
    }

    /// The scan after a row of probes has ended, in that order.
    pub open spec fn after_all(self, ends: Seq<ProbeEnd>) -> Scan
        decreases ends.len(),
    {
        if ends.len() == 0 {
            self
        } else {
            self.after_all(ends.drop_last()).after(ends.last())
        }
    }

    /// The ports that the scan hands out.
    pub open spec fn ports(self) -> Seq<u16> {
        match self.found {
            Some(port) => seq![port],
            None => seq![],
        }
    }

    /// A scan before any probe.
    pub fn new() -> (r: Scan)
        ensures
            r == Scan::start(),
            r.well_formed(),
    {
        Scan { cancelled: false, found: None }
    }

    /// Whether a probe may still begin. Each asks before it waits for its turn,
    /// and again when its turn comes.
    pub fn admits(&self) -> (r: bool)
        ensures
            r == !self.cancelled,
    {
        !self.cancelled
    }

    /// Takes note of a probe that has ended.
    pub fn report(&mut self, port: u16, is_adb: bool)
        requires
            old(self).well_formed(),
        ensures
            *final(self) == old(self).after((port, is_adb)),
            final(self).well_formed(),
    {
        if is_adb {
            self.cancelled = true;
            if self.found.is_none() {
                self.found = Some(port);
            }
        }
    }

    /// The port that was found, if one was.
    pub fn open_ports(&self) -> (r: Vec<u16>)
        ensures
            r@ == self.ports(),
    {
        let mut r: Vec<u16> = Vec::new();
        if let Some(port) = self.found {
            r.push(port);
        }
        assert(r@ =~= self.ports());
        r
    }
}

/// The ports that a whole scan hands out, given its probes in the order in
/// which they ended; none where the target is no address that can be tried.
pub fn scan_open_ports(target_known: bool, ends: &[ProbeEnd]) -> (r: Vec<u16>)
    ensures
        r@ == if target_known {
            Scan::start().after_all(ends@).ports()
        } else {
            seq![]
        },
{
    let mut scan: Scan = Scan::new();
    if target_known {
        let mut i: usize = 0;
        assert(ends@.take(0) =~= seq![]);
        while i < ends.len()
            invariant
                i <= ends@.len(),
                scan.well_formed(),
                scan == Scan::start().after_all(ends@.take(i as int)),
            decreases ends@.len() - i,
        {
            let end: ProbeEnd = ends[i];
            scan.report(end.0, end.1);
            assert(ends@.take(i + 1).drop_last() =~= ends@.take(i as int));
            i = i + 1;
        }
        assert(ends@.take(i as int) =~= ends@);
    }
    scan.open_ports()
}

/// A scan hands out the first port at which a daemon answered, and only that.
pub proof fn scan_gives_first_match(ends: Seq<ProbeEnd>, first: int)
    requires
        0 <= first < ends.len(),
        ends[first].1,
        forall|i: int| 0 <= i < first ==> !(#[trigger] ends[i]).1,
    ensures
        Scan::start().after_all(ends).ports() == seq![ends[first].0],
    decreases ends.len(),
{
    let init = ends.drop_last();
    if first < ends.len() - 1 {
        scan_gives_first_match(init, first);
        lemma_ports(Scan::start().after_all(init), ends[first].0);
    } else {
        scan_gives_nothing_unmatched(init);
        assert(Scan::start().after_all(init).found is None) by {
            if Scan::start().after_all(init).found is Some {
                assert(Scan::start().after_all(init).ports().len() == 1);
            }
        }
    }
}

proof fn lemma_ports(scan: Scan, port: u16)
    requires
        scan.ports() == seq![port],
    ensures
        scan.found == Some(port),
{
    assert(seq![port][0] == port);
    assert(scan.ports().len() == 1);
    assert(scan.ports()[0] == port);
}

/// Where no daemon answered, a scan hands out nothing and is never called off.
pub proof fn scan_gives_nothing_unmatched(ends: Seq<ProbeEnd>)
    requires
        forall|i: int| 0 <= i < ends.len() ==> !(#[trigger] ends[i]).1,
    ensures
        Scan::start().after_all(ends) == Scan::start(),
        Scan::start().after_all(ends).ports() == Seq::<u16>::empty(),
    decreases ends.len(),
{
    if ends.len() > 0 {
        scan_gives_nothing_unmatched(ends.drop_last());
        assert(!ends[ends.len() - 1].1);
    }
}

/// From the first match on no probe begins any more, and the port that is handed
/// out stays the same.
pub proof fn scan_stops_at_match(scan: Scan, ends: Seq<ProbeEnd>)
    requires
        scan.well_formed(),
        scan.found is Some,
    ensures
        scan.after_all(ends) == scan,
    decreases ends.len(),
{
    if ends.len() > 0 {
        scan_stops_at_match(scan, ends.drop_last());
    }
}

/// A scan of planned ports hands out a planned port: never the excluded one, and
/// none below the scanned range.
pub proof fn scan_stays_in_plan(exclude_port: Option<u16>, ends: Seq<ProbeEnd>)
    requires
        forall|i: int| 0 <= i < ends.len() ==> scanned(exclude_port, (#[trigger] ends[i]).0),
    ensures
        forall|port: u16|
            Scan::start().after_all(ends).ports().contains(port) ==> scanned(exclude_port, port),
        Scan::start().after_all(ends).ports().len() <= 1,
    decreases ends.len(),
{
    let scan = Scan::start().after_all(ends);
    if ends.len() > 0 {
        let init = ends.drop_last();
        scan_stays_in_plan(exclude_port, init);
        let before = Scan::start().after_all(init);
        assert(scanned(exclude_port, ends[ends.len() - 1].0));
        if let Some(port) = before.found {
            assert(before.ports()[0] == port);
            assert(before.ports().contains(port));
        }
    }
    assert forall|port: u16| scan.ports().contains(port) implies scanned(exclude_port, port) by {
        assert(scan.found == Some(port));
    }
}

/// A scan hands out nothing exactly where no probe of it met a daemon.
pub proof fn scan_is_empty_without_match(ends: Seq<ProbeEnd>)
    ensures
        Scan::start().after_all(ends).ports().len() == 0 <==> forall|i: int|
            0 <= i < ends.len() ==> !(#[trigger] ends[i]).1,
        Scan::start().after_all(ends).cancelled <==> exists|i: int|
            0 <= i < ends.len() && (#[trigger] ends[i]).1,
    decreases ends.len(),
{
    if ends.len() > 0 {
        let init = ends.drop_last();
        scan_is_empty_without_match(init);
        assert(ends[ends.len() - 1] == ends.last());
        assert forall|i: int| 0 <= i < init.len() implies init[i] == ends[i] by {}
        if exists|i: int| 0 <= i < init.len() && (#[trigger] init[i]).1 {
            let i = choose|i: int| 0 <= i < init.len() && (#[trigger] init[i]).1;
            assert(ends[i].1);
        }
    }
}

/// A whole scan of the ports of `plan` hands out nothing exactly where none of
/// them answers as a daemon: `answers` tells which do, every probe is of a planned
/// port and ends accordingly, and no planned port goes without a probe unless the
/// scan was called off.
pub proof fn whole_scan_is_empty_without_answer(
    plan: Seq<u16>,
    answers: spec_fn(u16) -> bool,
    ends: Seq<ProbeEnd>,
)
    requires
        forall|i: int|
            0 <= i < ends.len() ==> plan.contains((#[trigger] ends[i]).0) && ends[i].1 == answers(
                ends[i].0,
            ),
        Scan::start().after_all(ends).cancelled || forall|port: u16| #[trigger]
            plan.contains(port) ==> exists|i: int|
                0 <= i < ends.len() && (#[trigger] ends[i]).0 == port,
    ensures
        Scan::start().after_all(ends).ports().len() == 0 <==> forall|port: u16| #[trigger]
            plan.contains(port) ==> !answers(port),
{
    scan_is_empty_without_match(ends);
    if Scan::start().after_all(ends).ports().len() == 0 {
        assert forall|port: u16| #[trigger] plan.contains(port) implies !answers(port) by {
            let i = choose|i: int| 0 <= i < ends.len() && (#[trigger] ends[i]).0 == port;
            assert(!ends[i].1);
        }
    }
}

/// The ports that are scanned are those from 30000 to 65535 but the excluded one,
/// at most 500 of them at once.
pub proof fn scanned_ports_by_number(exclude_port: Option<u16>, port: u16)
    ensures
        MAX_PROBES == 500,
        scanned(exclude_port, port) <==> 30000 <= port <= 65535 && !(exclude_port matches Some(
            excluded,
        ) && excluded == port),
{
}

/// Ports in rising order differ from one another, and each is above the one before.
pub proof fn rising_ports_differ(ports: Seq<u16>)
    ensures
        rising(ports) <==> forall|i: int, j: int|
            0 <= i < ports.len() && 0 <= j < ports.len() ==> (i < j <==> #[trigger] ports[i]
                < #[trigger] ports[j]),
{
    if rising(ports) {
        assert forall|i: int, j: int| 0 <= i < ports.len() && 0 <= j < ports.len() implies (i < j
            <==> #[trigger] ports[i] < #[trigger] ports[j]) by {
            if i > j {
                assert(ports[j] < ports[i]);
            }
        }
    }
}

/// A probe that ends adds a port exactly where it met a daemon and no earlier one
/// did; a scan goes on exactly until then.
pub proof fn scan_takes_first_daemon(scan: Scan, end: ProbeEnd)
    ensures
        ({
            let then = scan.after(end);
            &&& end.1 ==> then.cancelled && then.found is Some
            &&& !end.1 ==> then == scan
            &&& scan.found is Some ==> then.found == scan.found
            &&& scan.found is None && end.1 ==> then.found == Some(end.0) && then.ports() == seq![
                end.0,
            ]
            &&& !Scan::start().cancelled
            &&& Scan::start().ports().len() == 0
            &&& scan.ports().len() <= 1
            &&& forall|port: u16| scan.ports().contains(port) <==> scan.found == Some(port)
        }),
{
    assert forall|port: u16| scan.ports().contains(port) <==> scan.found == Some(port) by {
        if scan.found == Some(port) {
            assert(scan.ports()[0] == port);
        }
    }
}

} // verus!
