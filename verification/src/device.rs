//! Services on the local network, and recognising the paired device among them.

use crate::address::{included_as_written, includes, includes_ip, preferred};
use crate::address::{preferred_is_included, HostAddr};
use crate::text::{beginning_parts_text, begins_with, contains, occurrence_is_transitive};
use crate::text::{occurrence_parts_text, occurs_in, optional_text, same_text, starts_with};
use crate::text::{strip_prefixes, stripped_text_occurs, stripping_takes_copies, texts};
use crate::text::without_prefixes;
use vstd::prelude::*;

verus! {

/// Service type under which a device offers to pair.
pub const PAIRING_SERVICE: &'static str = "_adb-tls-pairing._tcp.local.";

/// Service type under which a paired device takes connections.
pub const CONNECT_SERVICE: &'static str = "_adb-tls-connect._tcp.local.";

/// Service type under which an older device takes connections.
pub const CONNECT_SERVICE_LEGACY: &'static str = "_adb._tcp.local.";

/// A service instance that was resolved.
pub struct Service {
    pub fullname: String,
    pub hostname: String,
    pub port: u16,
    pub addresses: Vec<HostAddr>,
}

/// What browsing for services brought.
pub enum BrowseEvent {
    /// A service was resolved.
    Resolved(Service),
    /// The service of that name is gone.
    Removed(String),
    /// Something else, of no interest here.
    Other,
    /// Nothing, for as long as was waited.
    TimedOut,
    /// Nothing, and nothing will come.
    Disconnected,
}

/// A device that was paired: the address and port that it was paired at, and its
/// identifier where adb gave one.
pub struct Device {
    pub ip: String,
    pub port: u16,
    pub guid: Option<String>,
}

/// The content of a [`Device`].
pub struct DeviceView {
    pub ip: Seq<char>,
    pub port: u16,
    pub guid: Option<Seq<char>>,
}

impl View for Device {
    type V = DeviceView;

    open spec fn view(&self) -> DeviceView {
        DeviceView { ip: self.ip@, port: self.port, guid: optional_text(self.guid) }
    }
}

/// The identifier without the `adb-` that it may begin with.
pub open spec fn clean_guid(guid: Seq<char>) -> Seq<char> {
    without_prefixes(guid, "adb-"@)
}

/// The identifier stands in `text`, as it is or without `adb-`.
pub open spec fn guid_occurs(guid: Option<Seq<char>>, text: Seq<char>) -> bool {
    match guid {
        Some(g) => occurs_in(text, g) || occurs_in(text, clean_guid(g)),
        None => false,
    }
}

/// A serial in adb's device list is the paired device's: it begins with its
/// address or holds its identifier.
pub open spec fn serial_matches(device: DeviceView, serial: Seq<char>) -> bool {
    begins_with(serial, device.ip) || guid_occurs(device.guid, serial)
}

/// A service is the paired device's: its name or host holds the identifier, or
/// the address is among its addresses.
pub open spec fn service_matches(device: DeviceView, service: Service) -> bool {
    ||| guid_occurs(device.guid, service.fullname@)
    ||| guid_occurs(device.guid, service.hostname@)
    ||| includes(service.addresses@, device.ip)
}

/// The first serial that was not there initially and is the device's.
pub open spec fn new_serial(
    device: DeviceView,
    initial: Seq<Seq<char>>,
    serials: Seq<Seq<char>>,
) -> Option<Seq<char>>
    decreases serials.len(),
{
    if serials.len() == 0 {
        None
    } else if !initial.contains(serials[0]) && serial_matches(device, serials[0]) {
        Some(serials[0])
    } else {
        new_serial(device, initial, serials.drop_first())
    }
}

/// Whether the identifier stands in `text`, as it is or without `adb-`.
fn guid_in_text(guid: &Option<String>, text: &str) -> (r: bool)
    ensures
        r == guid_occurs(optional_text(*guid), text@),
{
    match guid {
        Some(g) => {
            let clean: String = strip_prefixes(g.as_str(), "adb-");
            contains(text, g.as_str()) || contains(text, clean.as_str())
        },
        None => false,
    }
}

fn lists(serials: &[String], serial: &str) -> (r: bool)
    ensures
        r == texts(serials@).contains(serial@),
{
    let mut i: usize = 0;
    while i < serials.len()
        invariant
            i <= serials@.len(),
            forall|j: int| 0 <= j < i ==> #[trigger] texts(serials@)[j] != serial@,
        decreases serials@.len() - i,
    {
        if same_text(serials[i].as_str(), serial) {
            assert(texts(serials@)[i as int] == serial@);
            return true;
        }
        i = i + 1;
    }
    false
}

impl Device {
    /// Whether a serial in adb's device list is this device's.
    pub fn owns_serial(&self, serial: &str) -> (r: bool)
        ensures
            r == serial_matches(self@, serial@),
    {
        starts_with(serial, self.ip.as_str()) || guid_in_text(&self.guid, serial)
    }

    /// Whether a service is this device's.
    pub fn owns_service(&self, service: &Service) -> (r: bool)
        ensures
            r == service_matches(self@, *service),
    {
        guid_in_text(&self.guid, service.fullname.as_str()) || guid_in_text(
            &self.guid,
            service.hostname.as_str(),
        ) || includes_ip(service.addresses.as_slice(), self.ip.as_str())
    }

    /// The first of `serials` that was not there initially and is this device's.
    pub fn find_new_serial(&self, initial: &[String], serials: &[String]) -> (r: Option<String>)
        ensures
            optional_text(r) == new_serial(self@, texts(initial@), texts(serials@)),
    {
        let mut i: usize = 0;
        assert(texts(serials@).skip(0) =~= texts(serials@));
        while i < serials.len()
            invariant
                i <= serials@.len(),
                new_serial(self@, texts(initial@), texts(serials@)) == new_serial(
                    self@,
                    texts(initial@),
                    texts(serials@).skip(i as int),
                ),
            decreases serials@.len() - i,
        {
            let serial: &str = serials[i].as_str();
            assert(texts(serials@).skip(i as int)[0] == serial@);
            assert(texts(serials@).skip(i as int).drop_first() =~= texts(serials@).skip(i + 1));
            if !lists(initial, serial) && self.owns_serial(serial) {
                return Some(serials[i].clone());
            }
            i = i + 1;
        }
        None
    }
}

/// The identifier without `adb-` is all that matters: what holds the whole
/// identifier holds that part of it.
pub proof fn clean_guid_suffices(guid: Seq<char>, text: Seq<char>)
    ensures
        guid_occurs(Some(guid), text) <==> occurs_in(text, clean_guid(guid)),
{
    if occurs_in(text, guid) {
        stripped_text_occurs(guid, "adb-"@);
        occurrence_is_transitive(text, guid, clean_guid(guid));
    }
}

/// A service that announces the address at which the device was paired, as the
/// one to use, is the device's.
pub proof fn paired_address_is_recognised(device: DeviceView, service: Service)
    requires
        preferred(service.addresses@) == Some(device.ip),
    ensures
        service_matches(device, service),
{
    preferred_is_included(service.addresses@);
}

/// A serial is taken for the device's only if it is listed now, was not listed
/// initially, and matches; one is taken wherever there is such a serial.
pub proof fn new_serial_is_new(
    device: DeviceView,
    initial: Seq<Seq<char>>,
    serials: Seq<Seq<char>>,
)
    ensures
        new_serial(device, initial, serials) matches Some(s) ==> serials.contains(s)
            && !initial.contains(s) && serial_matches(device, s),
        new_serial(device, initial, serials) is None ==> forall|i: int|
            0 <= i < serials.len() ==> initial.contains(#[trigger] serials[i]) || !serial_matches(
                device,
                serials[i],
            ),
    decreases serials.len(),
{
    if serials.len() > 0 {
        let rest = serials.drop_first();
        new_serial_is_new(device, initial, rest);
        if !initial.contains(serials[0]) && serial_matches(device, serials[0]) {
            assert(serials.contains(serials[0]));
        } else {
            match new_serial(device, initial, rest) {
                Some(s) => {
                    let i = choose|i: int| 0 <= i < rest.len() && rest[i] == s;
                    assert(serials[i + 1] == s);
                },
                None => {
                    assert forall|i: int| 0 <= i < serials.len() implies initial.contains(
                        #[trigger] serials[i],
                    ) || !serial_matches(device, serials[i]) by {
                        if i > 0 {
                            assert(rest[i - 1] == serials[i]);
                        }
                    }
                },
            }
        }
    }
}

/// The identifier without `adb-` in front: it is the end of the identifier, whole
/// copies of `adb-` precede it, and it does not begin with another.
pub proof fn clean_guid_by_characters(guid: Seq<char>)
    ensures
        ({
            let clean = clean_guid(guid);
            let cut = guid.len() - clean.len();
            let mark = seq!['a', 'd', 'b', '-'];
            &&& 0 <= cut
            &&& cut % 4 == 0
            &&& clean == guid.skip(cut)
            &&& forall|i: int| 0 <= i < cut ==> #[trigger] guid[i] == mark[i % 4]
            &&& !(clean.len() >= 4 && clean.take(4) == mark)
        }),
{
    reveal_strlit("adb-");
    let mark = seq!['a', 'd', 'b', '-'];
    assert("adb-"@ =~= mark);
    stripping_takes_copies(guid, "adb-"@);
    let clean = clean_guid(guid);
    if clean.len() >= 4 && clean.take(4) == mark {
        assert(clean =~= mark + clean.skip(4));
    }
}

/// A serial is the device's exactly where it is the device's address and some
/// more, or holds the device's identifier without `adb-`.
pub proof fn serial_matches_by_characters(device: DeviceView, serial: Seq<char>)
    ensures
        serial_matches(device, serial) <==> {
            ||| exists|rest: Seq<char>| serial == #[trigger] (device.ip + rest)
            ||| device.guid matches Some(guid) && exists|k: int|
                0 <= k <= serial.len() - clean_guid(guid).len() && #[trigger] serial.subrange(
                    k,
                    k + clean_guid(guid).len(),
                ) == clean_guid(guid)
        },
{
    beginning_parts_text(serial, device.ip);
    if let Some(guid) = device.guid {
        clean_guid_suffices(guid, serial);
        occurrence_parts_text(serial, clean_guid(guid));
    }
}

/// A service is the device's exactly where its full name or its host name holds
/// the device's identifier without `adb-`, or the device's address is written among
/// its addresses, in brackets or not.
pub proof fn service_matches_by_characters(device: DeviceView, service: Service)
    ensures
        service_matches(device, service) <==> {
            ||| device.guid matches Some(guid) && exists|k: int|
                0 <= k <= service.fullname@.len() - clean_guid(guid).len()
                    && #[trigger] service.fullname@.subrange(k, k + clean_guid(guid).len())
                    == clean_guid(guid)
            ||| device.guid matches Some(guid) && exists|k: int|
                0 <= k <= service.hostname@.len() - clean_guid(guid).len()
                    && #[trigger] service.hostname@.subrange(k, k + clean_guid(guid).len())
                    == clean_guid(guid)
            ||| exists|i: int|
                0 <= i < service.addresses@.len() && (device.ip == (
                #[trigger] service.addresses@[i]).text@ || device.ip == seq!['[']
                    + service.addresses@[i].text@ + seq![']'])
        },
{
    included_as_written(service.addresses@, device.ip);
    if let Some(guid) = device.guid {
        clean_guid_suffices(guid, service.fullname@);
        clean_guid_suffices(guid, service.hostname@);
        occurrence_parts_text(service.fullname@, clean_guid(guid));
        occurrence_parts_text(service.hostname@, clean_guid(guid));
    }
}

/// The serial that is taken is the leftmost one that was not there initially and
/// is the device's.
pub proof fn new_serial_is_leftmost(
    device: DeviceView,
    initial: Seq<Seq<char>>,
    serials: Seq<Seq<char>>,
    serial: Seq<char>,
)
    ensures
        new_serial(device, initial, serials) == Some(serial) <==> exists|i: int|
            0 <= i < serials.len() && #[trigger] serials[i] == serial && !initial.contains(serial)
                && serial_matches(device, serial) && forall|j: int|
                0 <= j < i ==> initial.contains(#[trigger] serials[j]) || !serial_matches(
                    device,
                    serials[j],
                ),
    decreases serials.len(),
{
    if serials.len() > 0 {
        let rest = serials.drop_first();
        new_serial_is_leftmost(device, initial, rest, serial);
        let taken = !initial.contains(serials[0]) && serial_matches(device, serials[0]);
        if new_serial(device, initial, serials) == Some(serial) {
            if taken {
                assert(serials[0] == serial);
            } else {
                let i = choose|i: int|
                    0 <= i < rest.len() && #[trigger] rest[i] == serial && !initial.contains(serial)
                        && serial_matches(device, serial) && forall|j: int|
                        0 <= j < i ==> initial.contains(#[trigger] rest[j]) || !serial_matches(
                            device,
                            rest[j],
                        );
                assert(serials[i + 1] == serial);
                assert forall|j: int| 0 <= j < i + 1 implies initial.contains(#[trigger] serials[j])
                    || !serial_matches(device, serials[j]) by {
                    if j > 0 {
                        assert(rest[j - 1] == serials[j]);
                    }
                }
            }
        }
        if exists|i: int|
            0 <= i < serials.len() && #[trigger] serials[i] == serial && !initial.contains(serial)
                && serial_matches(device, serial) && forall|j: int|
                0 <= j < i ==> initial.contains(#[trigger] serials[j]) || !serial_matches(
                    device,
                    serials[j],
                ) {
            let i = choose|i: int|
                0 <= i < serials.len() && #[trigger] serials[i] == serial && !initial.contains(
                    serial,
                ) && serial_matches(device, serial) && forall|j: int|
                    0 <= j < i ==> initial.contains(#[trigger] serials[j]) || !serial_matches(
                        device,
                        serials[j],
                    );
            if i > 0 {
                assert(rest[i - 1] == serial);
                assert forall|j: int| 0 <= j < i - 1 implies initial.contains(#[trigger] rest[j])
                    || !serial_matches(device, rest[j]) by {
                    assert(rest[j] == serials[j + 1]);
                }
                assert(initial.contains(serials[0]) || !serial_matches(device, serials[0]));
            }
        }
    }
}

/// The service types that are browsed, by their characters.
pub proof fn service_types_by_characters()
    ensures
        PAIRING_SERVICE@.len() == 28,
        PAIRING_SERVICE@ == "_adb-tls-"@ + "pairing"@ + "._tcp.local."@,
        CONNECT_SERVICE@ == "_adb-tls-"@ + "connect"@ + "._tcp.local."@,
        CONNECT_SERVICE_LEGACY@ == "_adb"@ + "._tcp.local."@,
{
    reveal_strlit("_adb-tls-pairing._tcp.local.");
    reveal_strlit("_adb-tls-connect._tcp.local.");
    reveal_strlit("_adb._tcp.local.");
    reveal_strlit("_adb-tls-");
    reveal_strlit("pairing");
    reveal_strlit("connect");
    reveal_strlit("_adb");
    reveal_strlit("._tcp.local.");
    assert(PAIRING_SERVICE@ =~= "_adb-tls-"@ + "pairing"@ + "._tcp.local."@);
    assert(CONNECT_SERVICE@ =~= "_adb-tls-"@ + "connect"@ + "._tcp.local."@);
    assert(CONNECT_SERVICE_LEGACY@ =~= "_adb"@ + "._tcp.local."@);
}

} // verus!
