//! The addresses that a service announces, and which of them to use.

use crate::text::{all_digits, decimal, decimal_by_digits, decimal_reads_back, digits_value};
use crate::text::{is_digit, joined3, port_text, same_text};
use vstd::prelude::*;

verus! {

/// An IP address: its family and its textual form.
pub struct HostAddr {
    pub v6: bool,
    pub text: String,
}

impl HostAddr {
    /// The address of the given family that is written `text`.
    pub fn new(v6: bool, text: &str) -> (r: HostAddr)
        ensures
            r.v6 == v6,
            r.text@ == text@,
    {
        HostAddr { v6, text: text.to_string() }
    }
}

/// A text in square brackets.
pub open spec fn bracketed(text: Seq<char>) -> Seq<char> {
    "["@ + text + "]"@
}

/// The first IPv4 address of a list.
pub open spec fn first_v4(addresses: Seq<HostAddr>) -> Option<HostAddr>
    decreases addresses.len(),
{
    if addresses.len() == 0 {
        None
    } else if !addresses[0].v6 {
        Some(addresses[0])
    } else {
        first_v4(addresses.drop_first())
    }
}

/// The address to use for adb: the first IPv4 address as it is written, else
/// the first address, an IPv6 one, in brackets.
pub open spec fn preferred(addresses: Seq<HostAddr>) -> Option<Seq<char>> {
    match first_v4(addresses) {
        Some(address) => Some(address.text@),
        None => if addresses.len() > 0 {
            Some(bracketed(addresses[0].text@))
        } else {
            None
        },
    }
}

/// One of the addresses is written `ip`, with or without brackets around it.
pub open spec fn includes(addresses: Seq<HostAddr>, ip: Seq<char>) -> bool {
    exists|i: int|
        0 <= i < addresses.len() && (#[trigger] addresses[i].text@ == ip || bracketed(
            addresses[i].text@,
        ) == ip)
}

/// A host and a port as adb takes them.
pub open spec fn endpoint(ip: Seq<char>, port: u16) -> Seq<char> {
    ip + ":"@ + decimal(port as nat)
}

/// The address to use for adb, of those listed: IPv4 before IPv6, and an IPv6
/// address in brackets.
pub fn get_preferred_ip(addresses: &[HostAddr]) -> (r: Option<String>)
    ensures
        match r {
            Some(ip) => preferred(addresses@) == Some(ip@),
            None => preferred(addresses@) is None,
        },
{
    let mut i: usize = 0;
    assert(addresses@.skip(0) == addresses@);
    while i < addresses.len()
        invariant
            i <= addresses@.len(),
            first_v4(addresses@) == first_v4(addresses@.skip(i as int)),
        decreases addresses@.len() - i,
    {
        assert(addresses@.skip(i as int).drop_first() == addresses@.skip(i + 1));
        if !addresses[i].v6 {
            return Some(addresses[i].text.clone());
        }
        i = i + 1;
    }
    if addresses.len() > 0 {
        Some(joined3("[", addresses[0].text.as_str(), "]"))
    } else {
        None
    }
}

/// Whether one of the addresses is written `ip`, with or without brackets.
pub fn includes_ip(addresses: &[HostAddr], ip: &str) -> (r: bool)
    ensures
        r == includes(addresses@, ip@),
{
    let mut i: usize = 0;
    while i < addresses.len()
        invariant
            i <= addresses@.len(),
            forall|j: int|
                0 <= j < i ==> #[trigger] addresses@[j].text@ != ip@ && bracketed(
                    addresses@[j].text@,
                ) != ip@,
        decreases addresses@.len() - i,
    {
        let text: &str = addresses[i].text.as_str();
        let in_brackets: String = joined3("[", text, "]");
        if same_text(text, ip) || same_text(in_brackets.as_str(), ip) {
            assert(addresses@[i as int].text@ == ip@ || bracketed(addresses@[i as int].text@)
                == ip@);
            return true;
        }
        i = i + 1;
    }
    false
}

/// A host and a port as adb takes them.
pub fn endpoint_text(ip: &str, port: u16) -> (r: String)
    ensures
        r@ == endpoint(ip@, port),
{
    joined3(ip, ":", port_text(port).as_str())
}

proof fn lemma_first_v4(addresses: Seq<HostAddr>)
    ensures
        match first_v4(addresses) {
            Some(a) => exists|i: int| 0 <= i < addresses.len() && a == #[trigger] addresses[i] && !a.v6,
            None => forall|i: int| 0 <= i < addresses.len() ==> (#[trigger] addresses[i]).v6,
        },
    decreases addresses.len(),
{
    if addresses.len() > 0 && addresses[0].v6 {
        let rest = addresses.drop_first();
        lemma_first_v4(rest);
        match first_v4(rest) {
            Some(a) => {
                let i = choose|i: int| 0 <= i < rest.len() && a == #[trigger] rest[i] && !a.v6;
                assert(addresses[i + 1] == a);
            },
            None => {
                assert forall|i: int| 0 <= i < addresses.len() implies (#[trigger] addresses[i]).v6 by {
                    if i > 0 {
                        assert(rest[i - 1] == addresses[i]);
                    }
                }
            },
        }
    } else if addresses.len() > 0 {
        assert(addresses[0] == first_v4(addresses)->0);
    }
}

/// There is an address to use exactly where one is listed, and IPv4 comes
/// before IPv6: the choice is an IPv4 address as written wherever the list
/// holds one, and an IPv6 address in brackets where it holds none.
pub proof fn preferred_is_v4_first(addresses: Seq<HostAddr>)
    ensures
        preferred(addresses) is Some <==> addresses.len() > 0,
        preferred(addresses) matches Some(ip) ==> exists|i: int|
            0 <= i < addresses.len() && ip == (if (#[trigger] addresses[i]).v6 {
                bracketed(addresses[i].text@)
            } else {
                addresses[i].text@
            }) && (addresses[i].v6 ==> forall|j: int|
                0 <= j < addresses.len() ==> (#[trigger] addresses[j]).v6),
{
    lemma_first_v4(addresses);
    if addresses.len() > 0 {
        match first_v4(addresses) {
            Some(a) => {
                let i = choose|i: int|
                    0 <= i < addresses.len() && a == #[trigger] addresses[i] && !a.v6;
                assert(addresses[i].text@ == preferred(addresses)->0);
            },
            None => {
                assert(addresses[0].v6);
            },
        }
    }
}

/// The address chosen from a list is one that the list includes, so a service
/// is recognised by the address that an earlier list of it gave.
pub proof fn preferred_is_included(addresses: Seq<HostAddr>)
    ensures
        preferred(addresses) matches Some(ip) ==> includes(addresses, ip),
{
    preferred_is_v4_first(addresses);
}

/// An endpoint's text tells the host and the port.
pub proof fn endpoint_is_unambiguous(ip1: Seq<char>, port1: u16, ip2: Seq<char>, port2: u16)
    requires
        endpoint(ip1, port1) == endpoint(ip2, port2),
    ensures
        ip1 == ip2,
        port1 == port2,
{
    reveal_strlit(":");
    decimal_reads_back(port1 as nat);
    decimal_reads_back(port2 as nat);
    let a = endpoint(ip1, port1);
    let b = endpoint(ip2, port2);
    let d1 = decimal(port1 as nat);
    let d2 = decimal(port2 as nat);
    assert(a.len() == ip1.len() + 1 + d1.len());
    assert(b.len() == ip2.len() + 1 + d2.len());
    assert(a[ip1.len() as int] == ':');
    assert(b[ip2.len() as int] == ':');
    if ip1.len() < ip2.len() {
        assert(a[ip2.len() as int] == d1[ip2.len() - ip1.len() - 1]);
        assert(is_digit(d1[ip2.len() - ip1.len() - 1]));
    }
    if ip2.len() < ip1.len() {
        assert(b[ip1.len() as int] == d2[ip1.len() - ip2.len() - 1]);
        assert(is_digit(d2[ip1.len() - ip2.len() - 1]));
    }
    assert(ip1 =~= a.take(ip1.len() as int));
    assert(ip2 =~= b.take(ip2.len() as int));
    assert(d1 =~= a.skip(1int + ip1.len()));
    assert(d2 =~= b.skip(1int + ip2.len()));
    assert(digits_value(d1) == digits_value(d2));
}

/// An address is chosen exactly so: an IPv4 address as it is written if no other
/// precedes it, or, where every address is an IPv6 one, the first between `[` and
/// `]`.
pub proof fn preferred_by_position(addresses: Seq<HostAddr>, ip: Seq<char>)
    ensures
        preferred(addresses) == Some(ip) <==> {
            ||| exists|i: int|
                0 <= i < addresses.len() && !(#[trigger] addresses[i]).v6 && addresses[i].text@ == ip
                    && forall|j: int| 0 <= j < i ==> (#[trigger] addresses[j]).v6
            ||| addresses.len() > 0 && (forall|j: int|
                0 <= j < addresses.len() ==> (#[trigger] addresses[j]).v6) && ip == seq!['[']
                + addresses[0].text@ + seq![']']
        },
{
    reveal_strlit("[");
    reveal_strlit("]");
    assert("["@ =~= seq!['[']);
    assert("]"@ =~= seq![']']);
    lemma_first_v4(addresses);
    lemma_first_v4_position(addresses);
}

proof fn lemma_first_v4_position(addresses: Seq<HostAddr>)
    ensures
        forall|i: int|
            0 <= i < addresses.len() && !(#[trigger] addresses[i]).v6 && (forall|j: int|
                0 <= j < i ==> (#[trigger] addresses[j]).v6) ==> first_v4(addresses) == Some(
                addresses[i],
            ),
        first_v4(addresses) matches Some(a) ==> exists|i: int|
            0 <= i < addresses.len() && a == #[trigger] addresses[i] && !a.v6 && forall|j: int|
                0 <= j < i ==> (#[trigger] addresses[j]).v6,
    decreases addresses.len(),
{
    if addresses.len() > 0 && addresses[0].v6 {
        let rest = addresses.drop_first();
        lemma_first_v4_position(rest);
        assert forall|i: int|
            0 <= i < addresses.len() && !(#[trigger] addresses[i]).v6 && (forall|j: int|
                0 <= j < i ==> (#[trigger] addresses[j]).v6) implies first_v4(addresses) == Some(
            addresses[i],
        ) by {
            assert(rest[i - 1] == addresses[i]);
            assert forall|j: int| 0 <= j < i - 1 implies (#[trigger] rest[j]).v6 by {
                assert(rest[j] == addresses[j + 1]);
            }
        }
        if let Some(a) = first_v4(addresses) {
            let i = choose|i: int|
                0 <= i < rest.len() && a == #[trigger] rest[i] && !a.v6 && forall|j: int|
                    0 <= j < i ==> (#[trigger] rest[j]).v6;
            assert(addresses[i + 1] == a);
            assert forall|j: int| 0 <= j < i + 1 implies (#[trigger] addresses[j]).v6 by {
                if j > 0 {
                    assert(rest[j - 1] == addresses[j]);
                }
            }
        }
    }
}

/// A list includes an address exactly where it is written there, or is one that
/// is written there between `[` and `]`.
pub proof fn included_as_written(addresses: Seq<HostAddr>, ip: Seq<char>)
    ensures
        includes(addresses, ip) <==> exists|i: int|
            0 <= i < addresses.len() && (ip == (#[trigger] addresses[i]).text@ || ip == seq!['[']
                + addresses[i].text@ + seq![']']),
{
    reveal_strlit("[");
    reveal_strlit("]");
    assert("["@ =~= seq!['[']);
    assert("]"@ =~= seq![']']);
    if includes(addresses, ip) {
        let i = choose|i: int|
            0 <= i < addresses.len() && (#[trigger] addresses[i].text@ == ip || bracketed(
                addresses[i].text@,
            ) == ip);
        assert(ip == addresses[i].text@ || ip == seq!['['] + addresses[i].text@ + seq![']']);
    }
    if exists|i: int|
        0 <= i < addresses.len() && (ip == (#[trigger] addresses[i]).text@ || ip == seq!['[']
            + addresses[i].text@ + seq![']']) {
        let i = choose|i: int|
            0 <= i < addresses.len() && (ip == (#[trigger] addresses[i]).text@ || ip == seq!['[']
                + addresses[i].text@ + seq![']']);
        assert(addresses[i].text@ == ip || bracketed(addresses[i].text@) == ip);
    }
}

/// An endpoint is the host, a colon, and the port's digits without a leading zero.
pub proof fn endpoint_by_parts(ip: Seq<char>, port: u16)
    ensures
        ({
            let text = endpoint(ip, port);
            let k = text.len() - ip.len() - 1;
            &&& 1 <= k <= 5
            &&& text.take(ip.len() as int) == ip
            &&& text[ip.len() as int] == ':'
            &&& all_digits(text.skip(1int + ip.len()))
            &&& digits_value(text.skip(1int + ip.len())) == port
            &&& k > 1 ==> text[1int + ip.len()] != '0'
        }),
{
    reveal_strlit(":");
    let d = decimal(port as nat);
    decimal_reads_back(port as nat);
    decimal_by_digits(port as nat);
    let text = endpoint(ip, port);
    assert(text.take(ip.len() as int) =~= ip);
    assert(text.skip(1int + ip.len()) =~= d);
    assert(d.len() > 1 ==> d[0] as nat != 48);
    assert(text[1int + ip.len()] == d[0]);
}

} // verus!
