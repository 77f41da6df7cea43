//! Asking the user for the port where no connection was made.

use crate::adb::connect_args;
use crate::address::{endpoint, endpoint_text};
use crate::text::{all_digits, chars_of, decimal, decimal_reads_back, digits_value, is_digit};
use crate::text::{joined, joined3, parse_port, port_is_named_by_decimal, port_named};
use crate::text::{port_text_reads_back, texts, trim, trimmed, trimmed_end, trimmed_start};
use crate::text::{trimming_takes_white_space, white_space, zeros};
use vstd::prelude::*;

verus! {

/// What the user typed.
pub enum Entry {
    /// Nothing.
    Skipped,
    /// A port.
    Port(u16),
    /// No port, but six digits such as a pairing code has.
    PairingCode,
    /// Anything else.
    Invalid,
}

/// What the user typed, white space around it aside.
pub open spec fn entry_of(input: Seq<char>) -> Entry {
    let text = trimmed(input);
    if text.len() == 0 {
        Entry::Skipped
    } else {
        match port_named(text) {
            Some(port) => Entry::Port(port),
            None => if text.len() == 6 && all_digits(text) {
                Entry::PairingCode
            } else {
                Entry::Invalid
            },
        }
    }
}

/// What the user typed, white space around it aside.
pub fn read_entry(input: &str) -> (r: Entry)
    ensures
        r == entry_of(input@),
{
    let text: String = trim(input);
    if text.as_str().is_empty() {
        return Entry::Skipped;
    }
    match parse_port(text.as_str()) {
        Some(port) => Entry::Port(port),
        None => {
            let chars: Vec<char> = chars_of(text.as_str());
            if chars.len() == 6 && only_digits(chars.as_slice()) {
                Entry::PairingCode
            } else {
                Entry::Invalid
            }
        },
    }
}

fn only_digits(chars: &[char]) -> (r: bool)
    ensures
        r == all_digits(chars@),
{
    let mut i: usize = 0;
    while i < chars.len()
        invariant
            i <= chars@.len(),
            forall|j: int| 0 <= j < i ==> is_digit(#[trigger] chars@[j]),
        decreases chars@.len() - i,
    {
        let c: char = chars[i];
        if !('0' <= c && c <= '9') {
            assert(!is_digit(chars@[i as int]));
            return false;
        }
        i = i + 1;
    }
    true
}

/// The lines that explain what to type; the last one is a prompt.
pub open spec fn prompt_lines(ip: Seq<char>) -> Seq<Seq<char>> {
    seq![
        "[-] Could not auto-discover connect service for "@ + ip + "."@,
        "    Your device IP is: "@ + ip,
        ""@,
        "    On your device, go to Wireless Debugging settings"@,
        "    and look for the port number under 'IP address & Port' (e.g., 44061)."@,
        ""@,
        "    Enter the port number (or press Enter to skip): "@,
    ]
}

/// The lines that explain what to type; the last one is a prompt.
pub fn prompt(ip: &str) -> (r: Vec<String>)
    ensures
        texts(r@) == prompt_lines(ip@),
{
    let mut r: Vec<String> = Vec::new();
    r.push(joined3("[-] Could not auto-discover connect service for ", ip, "."));
    r.push(joined("    Your device IP is: ", ip));
    r.push("".to_string());
    r.push("    On your device, go to Wireless Debugging settings".to_string());
    r.push(
        "    and look for the port number under 'IP address & Port' (e.g., 44061).".to_string(),
    );
    r.push("".to_string());
    r.push("    Enter the port number (or press Enter to skip): ".to_string());
    assert(texts(r@) =~= prompt_lines(ip@));
    r
}

/// What follows from what the user typed: the lines that report it, and the
/// arguments to run adb with where there is a port to connect to.
pub struct EntryStep {
    pub lines: Vec<String>,
    pub args: Option<Vec<String>>,
}

/// The lines that report what the user typed.
pub open spec fn entry_lines(ip: Seq<char>, input: Seq<char>) -> Seq<Seq<char>> {
    match entry_of(input) {
        Entry::Skipped => seq![],
        Entry::Port(port) => seq!["[*] Connecting to "@ + endpoint(ip, port) + "..."@],
        Entry::PairingCode => seq![
            "    Note: '"@ + trimmed(input)
                + "' is a 6-digit pairing code. Port numbers are 5 digits from 'IP address & Port' (e.g. 44061)."@,
        ],
        Entry::Invalid => seq!["    Invalid port number"@],
    }
}

/// What follows from what the user typed at the prompt for `ip`.
pub fn enter_port(ip: &str, input: &str) -> (r: EntryStep)
    ensures
        texts(r.lines@) == entry_lines(ip@, input@),
        match entry_of(input@) {
            Entry::Port(port) => r.args matches Some(args) && texts(args@) == seq![
                "connect"@,
                endpoint(ip@, port),
            ],
            _ => r.args is None,
        },
{
    let mut lines: Vec<String> = Vec::new();
    let mut args: Option<Vec<String>> = None;
    match read_entry(input) {
        Entry::Skipped => {},
        Entry::Port(port) => {
            let addr: String = endpoint_text(ip, port);
            lines.push(joined3("[*] Connecting to ", addr.as_str(), "..."));
            args = Some(connect_args(addr.as_str()));
        },
        Entry::PairingCode => {
            let text: String = trim(input);
            lines.push(
                joined3(
                    "    Note: '",
                    text.as_str(),
                    "' is a 6-digit pairing code. Port numbers are 5 digits from 'IP address & Port' (e.g. 44061).",
                ),
            );
        },
        Entry::Invalid => {
            lines.push("    Invalid port number".to_string());
        },
    }
    assert(texts(lines@) =~= entry_lines(ip@, input@));
    EntryStep { lines, args }
}

/// The lines that close a session: a hint where there is no connection.
pub open spec fn closing_lines(connected: bool) -> Seq<Seq<char>> {
    if connected {
        seq![]
    } else {
        seq!["[-] Not connected. Run manually: adb connect <ip>:<port>"@]
    }
}

/// The lines that close a session: a hint where there is no connection.
pub fn closing(connected: bool) -> (r: Vec<String>)
    ensures
        texts(r@) == closing_lines(connected),
{
    let mut r: Vec<String> = Vec::new();
    if !connected {
        r.push("[-] Not connected. Run manually: adb connect <ip>:<port>".to_string());
    }
    assert(texts(r@) =~= closing_lines(connected));
    r
}

/// What is told to be a pairing code is no port: it is six digits whose value is
/// too large for one.
pub proof fn pairing_code_is_no_port(input: Seq<char>)
    ensures
        entry_of(input) is PairingCode <==> trimmed(input).len() == 6 && all_digits(
            trimmed(input),
        ) && digits_value(trimmed(input)) > u16::MAX,
{
    let text = trimmed(input);
    if text.len() == 6 && all_digits(text) {
        assert(is_digit(text[0]));
    }
}

/// Every character of `text` is white space.
pub open spec fn blank(text: Seq<char>) -> bool {
    forall|i: int| 0 <= i < text.len() ==> white_space(#[trigger] text[i])
}

proof fn lemma_trim_start(lead: Seq<char>, text: Seq<char>)
    requires
        blank(lead),
        text.len() > 0,
        !white_space(text[0]),
    ensures
        trimmed_start(lead + text) == text,
    decreases lead.len(),
{
    if lead.len() > 0 {
        assert(white_space(lead[0]));
        assert((lead + text).drop_first() =~= lead.drop_first() + text);
        assert forall|i: int| 0 <= i < lead.drop_first().len() implies white_space(
            #[trigger] lead.drop_first()[i],
        ) by {
            assert(white_space(lead[i + 1]));
        }
        lemma_trim_start(lead.drop_first(), text);
    } else {
        assert(lead + text =~= text);
    }
}

proof fn lemma_trim_end(text: Seq<char>, tail: Seq<char>)
    requires
        blank(tail),
        text.len() > 0,
        !white_space(text.last()),
    ensures
        trimmed_end(text + tail) == text,
    decreases tail.len(),
{
    if tail.len() > 0 {
        assert(white_space(tail[tail.len() - 1]));
        assert((text + tail).drop_last() =~= text + tail.drop_last());
        assert forall|i: int| 0 <= i < tail.drop_last().len() implies white_space(
            #[trigger] tail.drop_last()[i],
        ) by {
            assert(white_space(tail[i]));
        }
        lemma_trim_end(text, tail.drop_last());
    } else {
        assert(text + tail =~= text);
    }
}

/// Every port can be typed: its decimal form, with any white space around it, is
/// taken for that port.
pub proof fn typed_port_is_taken(lead: Seq<char>, port: u16, tail: Seq<char>)
    requires
        blank(lead),
        blank(tail),
    ensures
        entry_of(lead + decimal(port as nat) + tail) == Entry::Port(port),
{
    let text = decimal(port as nat);
    decimal_reads_back(port as nat);
    port_text_reads_back(port);
    assert(is_digit(text[0]));
    assert(is_digit(text[text.len() - 1]));
    assert(lead + text + tail =~= lead + (text + tail));
    assert((text + tail)[0] == text[0]);
    lemma_trim_start(lead, text + tail);
    lemma_trim_end(text, tail);
}

/// The typed text counts as nothing exactly where it is blank.
pub proof fn blank_entry_is_skipped(input: Seq<char>)
    ensures
        entry_of(input) is Skipped <==> forall|i: int|
            0 <= i < input.len() ==> white_space(#[trigger] input[i]),
{
    trimming_takes_white_space(input);
    let (from, to) = choose|from: int, to: int|
        0 <= from <= to <= input.len() && trimmed(input) == #[trigger] input.subrange(from, to) && (
        forall|i: int| 0 <= i < from ==> white_space(#[trigger] input[i])) && (forall|i: int|
            to <= i < input.len() ==> white_space(#[trigger] input[i])) && (from < to
            ==> !white_space(input[from]) && !white_space(input[to - 1]));
    if from == to {
        assert forall|i: int| 0 <= i < input.len() implies white_space(#[trigger] input[i]) by {}
    } else {
        assert(!white_space(input[from]));
    }
}

/// The typed text counts as a port exactly where, white space around it aside, it is
/// the port's decimal form, with any number of zeros and perhaps a `+` before them.
pub proof fn port_entry_by_characters(input: Seq<char>, port: u16)
    ensures
        entry_of(input) == Entry::Port(port) <==> exists|n: nat|
            trimmed(input) == #[trigger] zeros(n) + decimal(port as nat) || trimmed(input) == seq![
                '+',
            ] + zeros(n) + decimal(port as nat),
{
    port_is_named_by_decimal(trimmed(input), port);
    decimal_reads_back(port as nat);
}

/// The typed text counts as a pairing code exactly where, white space around it
/// aside, it is six digits and more than 65535; and as invalid where it is no port,
/// no pairing code and not blank.
pub proof fn other_entries_by_characters(input: Seq<char>)
    ensures
        ({
            let text = trimmed(input);
            let code = text.len() == 6 && (forall|i: int|
                0 <= i < 6 ==> '0' <= #[trigger] text[i] <= '9') && digits_value(text) > 65535;
            &&& entry_of(input) is PairingCode <==> code
            &&& entry_of(input) is Invalid <==> {
                &&& text.len() > 0
                &&& !code
                &&& port_named(text) is None
            }
        }),
{
    pairing_code_is_no_port(input);
    let text = trimmed(input);
    if text.len() == 6 && (forall|i: int| 0 <= i < 6 ==> '0' <= #[trigger] text[i] <= '9') {
        assert(all_digits(text)) by {
            assert forall|i: int| 0 <= i < text.len() implies is_digit(#[trigger] text[i]) by {}
        }
    }
    if text.len() == 6 && all_digits(text) {
        assert forall|i: int| 0 <= i < 6 implies '0' <= #[trigger] text[i] <= '9' by {
            assert(is_digit(text[i]));
        }
    }
}

/// What is answered to each kind of entry: nothing to a blank one, the endpoint to a
/// port, the typed code itself to a pairing code, and a complaint to anything else.
pub proof fn entry_is_answered(ip: Seq<char>, input: Seq<char>)
    ensures
        ({
            let lines = entry_lines(ip, input);
            &&& entry_of(input) is Skipped <==> lines.len() == 0
            &&& lines.len() <= 1
            &&& entry_of(input) matches Entry::Port(port) ==> lines[0] == "[*] Connecting to "@
                + endpoint(ip, port) + "..."@
            &&& entry_of(input) is PairingCode ==> lines[0] == "    Note: '"@ + trimmed(input)
                + "' is a 6-digit pairing code. Port numbers are 5 digits from 'IP address & Port' (e.g. 44061)."@
            &&& entry_of(input) is Invalid ==> lines[0] == "    Invalid port number"@
        }),
{
}

/// The prompt names the device's address twice and ends with the question; a
/// session without a connection is closed with one hint, one with a connection with
/// none.
pub proof fn prompt_and_closing_by_lines(ip: Seq<char>)
    ensures
        ({
            let lines = prompt_lines(ip);
            &&& lines.len() == 7
            &&& lines[0] == "[-] Could not auto-discover connect service for "@ + ip + "."@
            &&& lines[1] == "    Your device IP is: "@ + ip
            &&& lines[2].len() == 0
            &&& lines[3] == "    On your device, go to Wireless Debugging settings"@
            &&& lines[4]
                == "    and look for the port number under 'IP address & Port' (e.g., 44061)."@
            &&& lines[5].len() == 0
            &&& lines[6] == "    Enter the port number (or press Enter to skip): "@
        }),
        closing_lines(true).len() == 0,
        closing_lines(false).len() == 1,
        closing_lines(false)[0] == "[-] Not connected. Run manually: adb connect <ip>:<port>"@,
{
    reveal_strlit("");
}

} // verus!
