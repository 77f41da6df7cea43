//! The adb command line: what to call it with, and how to read what it prints.

use crate::address::{endpoint, endpoint_text};
use crate::text::{after_first, before_first, begins_with, chars_of, contains, find, first_at};
use crate::text::{first_occurrence_parts_text, is_first_at, joined, lemma_first_at};
use crate::text::{lemma_first_at_is, occurrence_is_transitive, occurs_at};
use crate::text::{occurs_in, optional_text, rows, rows_part_at_line_feeds, same_text, split_rows};
use crate::text::{split_words, string_of, texts, trim, trimmed, words};
use vstd::prelude::*;
use vstd::utf8::{decode_utf8, valid_utf8};

verus! {

/// How running a command ended: with its output, or without it having run.
pub enum CommandRun {
    Finished { stdout: Vec<u8>, stderr: Vec<u8> },
    Failed { reason: String },
}

/// Bytes as text, where what is not UTF-8 is replaced.
pub uninterp spec fn utf8_lossy(bytes: Seq<u8>) -> Seq<char>;

/// `String::from_utf8_lossy` makes text of any bytes, the same text of the same
/// bytes. Of bytes that are UTF-8 it makes the text that they encode; what it
/// makes of others is left unsaid.
#[verifier::external_body]
fn lossy_text(bytes: &[u8]) -> (r: String)
    ensures
        r@ == utf8_lossy(bytes@),
        valid_utf8(bytes@) ==> r@ == decode_utf8(bytes@),
{
    String::from_utf8_lossy(bytes).into_owned()
}

/// Where the bytes are UTF-8, the text made of them is the one that they encode.
pub open spec fn decoded_if_valid(bytes: Seq<u8>) -> bool {
    valid_utf8(bytes) ==> utf8_lossy(bytes) == decode_utf8(bytes)
}

/// The text that a command printed.
pub fn output_text(bytes: &[u8]) -> (r: String)
    ensures
        r@ == utf8_lossy(bytes@),
        decoded_if_valid(bytes@),
{
    lossy_text(bytes)
}

/// The arguments that have adb pair with a device.
pub fn pair_args(ip: &str, port: u16, password: &str) -> (r: Vec<String>)
    ensures
        texts(r@) == seq!["pair"@, endpoint(ip@, port), password@],
{
    let mut r: Vec<String> = Vec::new();
    r.push("pair".to_string());
    r.push(endpoint_text(ip, port));
    r.push(password.to_string());
    assert(texts(r@) =~= seq!["pair"@, endpoint(ip@, port), password@]);
    r
}

/// The arguments that have adb connect to an endpoint.
pub fn connect_args(addr: &str) -> (r: Vec<String>)
    ensures
        texts(r@) == seq!["connect"@, addr@],
{
    let mut r: Vec<String> = Vec::new();
    r.push("connect".to_string());
    r.push(addr.to_string());
    assert(texts(r@) =~= seq!["connect"@, addr@]);
    r
}

/// The arguments that have adb list the attached devices.
pub fn devices_args() -> (r: Vec<String>)
    ensures
        texts(r@) == seq!["devices"@],
{
    let mut r: Vec<String> = Vec::new();
    r.push("devices".to_string());
    assert(texts(r@) =~= seq!["devices"@]);
    r
}

/// The arguments that have adb list the attached devices at length.
pub fn show_devices_args() -> (r: Vec<String>)
    ensures
        texts(r@) == seq!["devices"@, "-l"@],
{
    let mut r: Vec<String> = Vec::new();
    r.push("devices".to_string());
    r.push("-l".to_string());
    assert(texts(r@) =~= seq!["devices"@, "-l"@]);
    r
}

/// The line that announces a pairing. It hides the password.
pub open spec fn pairing_line(ip: Seq<char>, port: u16) -> Seq<char> {
    "\n[*] Running: adb pair "@ + endpoint(ip, port) + " ******"@
}

/// The line that announces a pairing. It hides the password.
pub fn pairing_announcement(ip: &str, port: u16) -> (r: String)
    ensures
        r@ == pairing_line(ip@, port),
{
    let mut r: String = joined("\n[*] Running: adb pair ", endpoint_text(ip, port).as_str());
    r.append(" ******");
    r
}

/// The pairing went through, by what adb printed.
pub open spec fn says_paired(stdout: Seq<char>) -> bool {
    occurs_in(stdout, "Successfully paired"@)
}

/// The device's identifier in what adb printed: what follows the first `[guid=`
/// up to the next `]`, next `[guid=` or the end.
pub open spec fn guid_in(stdout: Seq<char>) -> Option<Seq<char>> {
    if occurs_in(stdout, "[guid="@) {
        let rest = after_first(stdout, "[guid="@);
        Some(before_first(before_first(rest, "[guid="@), "]"@))
    } else {
        None
    }
}

/// A line for `text` with the white space around it taken off, or none where
/// nothing else is left.
pub open spec fn shown(label: Seq<char>, text: Seq<char>) -> Seq<Seq<char>> {
    if trimmed(text).len() > 0 {
        seq![label + trimmed(text)]
    } else {
        seq![]
    }
}

/// The lines that report a pairing.
pub open spec fn pair_lines(stdout: Seq<char>, stderr: Seq<char>) -> Seq<Seq<char>> {
    (shown("    adb: "@, stdout) + shown("    adb err: "@, stderr)).push(
        if says_paired(stdout) {
            "[+] Pairing successful!"@
        } else {
            "[-] Pairing may have failed"@
        },
    )
}

/// What came of a pairing, and the lines that report it.
pub struct PairReply {
    pub success: bool,
    pub guid: Option<String>,
    pub lines: Vec<String>,
}

/// What came of a pairing, told from the two texts that adb printed: success, the
/// device's identifier and the lines that report it.
pub open spec fn told_outcome(stdout: Seq<char>, stderr: Seq<char>) -> (
    bool,
    Option<Seq<char>>,
    Seq<Seq<char>>,
) {
    (
        says_paired(stdout),
        if says_paired(stdout) {
            guid_in(stdout)
        } else {
            None
        },
        pair_lines(stdout, stderr),
    )
}

/// The identifier in what adb printed, if there is one.
pub fn find_guid(stdout: &str) -> (r: Option<String>)
    ensures
        optional_text(r) == guid_in(stdout@),
{
    let text: Vec<char> = chars_of(stdout);
    let mark: Vec<char> = chars_of("[guid=");
    let n: usize = text.len();
    match find(text.as_slice(), mark.as_slice()) {
        None => None,
        Some(at) => {
            assert(at + mark@.len() <= n);
            let from: usize = at + mark.len();
            let rest: String = string_of(text.as_slice(), from, n);
            assert(rest@ == after_first(stdout@, "[guid="@));
            let piece: String = cut_before(rest.as_str(), "[guid=");
            Some(cut_before(piece.as_str(), "]"))
        },
    }
}

fn cut_before(text: &str, pattern: &str) -> (r: String)
    ensures
        r@ == before_first(text@, pattern@),
{
    let t: Vec<char> = chars_of(text);
    let p: Vec<char> = chars_of(pattern);
    match find(t.as_slice(), p.as_slice()) {
        None => text.to_string(),
        Some(at) => {
            assert(text@.take(at as int) == text@.subrange(0, at as int));
            string_of(t.as_slice(), 0, at)
        },
    }
}

fn push_shown(lines: &mut Vec<String>, label: &str, text: &str)
    ensures
        texts(final(lines)@) == texts(old(lines)@) + shown(label@, text@),
{
    let clean: String = trim(text);
    if !clean.as_str().is_empty() {
        let line: String = joined(label, clean.as_str());
        lines.push(line);
        assert(texts(lines@) =~= texts(old(lines)@).push(label@ + trimmed(text@)));
    }
    assert(texts(lines@) =~= texts(old(lines)@) + shown(label@, text@));
}

/// What came of a pairing, told from the texts that adb printed.
pub fn read_pair_output(stdout: &str, stderr: &str) -> (r: PairReply)
    ensures
        (r.success, optional_text(r.guid), texts(r.lines@)) == told_outcome(stdout@, stderr@),
{
    let mut lines: Vec<String> = Vec::new();
    assert(texts(lines@) =~= seq![]);
    push_shown(&mut lines, "    adb: ", stdout);
    push_shown(&mut lines, "    adb err: ", stderr);
    let ghost before = texts(lines@);
    assert(before =~= shown("    adb: "@, stdout@) + shown("    adb err: "@, stderr@));
    if contains(stdout, "Successfully paired") {
        lines.push("[+] Pairing successful!".to_string());
        assert(texts(lines@) =~= before.push("[+] Pairing successful!"@));
        PairReply { success: true, guid: find_guid(stdout), lines }
    } else {
        lines.push("[-] Pairing may have failed".to_string());
        assert(texts(lines@) =~= before.push("[-] Pairing may have failed"@));
        PairReply { success: false, guid: None, lines }
    }
}

/// What came of a pairing: success, the device's identifier and the lines that
/// report it.
pub open spec fn pair_outcome(run: CommandRun) -> (bool, Option<Seq<char>>, Seq<Seq<char>>) {
    match run {
        CommandRun::Finished { stdout, stderr } => told_outcome(
            utf8_lossy(stdout@),
            utf8_lossy(stderr@),
        ),
        CommandRun::Failed { reason } => (
            false,
            None,
            seq!["[-] Failed to run adb: "@ + reason@],
        ),
    }
}

/// What came of running adb with [`pair_args`].
pub fn adb_pair(run: &CommandRun) -> (r: PairReply)
    ensures
        (r.success, optional_text(r.guid), texts(r.lines@)) == pair_outcome(*run),
        run matches CommandRun::Finished { stdout, stderr } ==> decoded_if_valid(stdout@)
            && decoded_if_valid(stderr@),
{
    match run {
        CommandRun::Finished { stdout, stderr } => {
            let out: String = output_text(stdout.as_slice());
            let err: String = output_text(stderr.as_slice());
            read_pair_output(out.as_str(), err.as_str())
        },
        CommandRun::Failed { reason } => {
            let mut lines: Vec<String> = Vec::new();
            lines.push(joined("[-] Failed to run adb: ", reason.as_str()));
            assert(texts(lines@) =~= seq!["[-] Failed to run adb: "@ + reason@]);
            PairReply { success: false, guid: None, lines }
        },
    }
}

/// A row of the device list whose second word says that the device is ready.
pub open spec fn ready_row(row: Seq<char>) -> bool {
    words(row).len() >= 2 && words(row)[1] == "device"@
}

/// The serials of the ready devices in what `adb devices` printed. The first
/// row is a heading. A carriage return at the end of a row is white space and
/// so part of no word.
pub open spec fn ready_serials(stdout: Seq<char>) -> Seq<Seq<char>> {
    serials_of(rows(stdout).skip(1))
}

/// The first words of the rows that list a ready device.
pub open spec fn serials_of(list: Seq<Seq<char>>) -> Seq<Seq<char>>
    decreases list.len(),
{
    if list.len() == 0 {
        seq![]
    } else if ready_row(list.last()) {
        serials_of(list.drop_last()).push(words(list.last())[0])
    } else {
        serials_of(list.drop_last())
    }
}

/// The serials of the ready devices in the text that `adb devices` printed.
pub fn read_device_list(stdout: &str) -> (r: Vec<String>)
    ensures
        texts(r@) == ready_serials(stdout@),
{
    let list: Vec<String> = split_rows(stdout);
    let ghost all = rows(stdout@);
    let mut r: Vec<String> = Vec::new();
    let mut i: usize = 1;
    proof {
        crate::text::lemma_pieces_nonempty(stdout@, |c: char| c == '\n');
        assert(list@.len() == all.len());
        assert(all.skip(1).take(0) =~= seq![]);
        assert(texts(r@) =~= seq![]);
    }
    while i < list.len()
        invariant
            texts(list@) == all,
            list@.len() == all.len(),
            1 <= i <= list@.len(),
            texts(r@) == serials_of(all.skip(1).take(i - 1)),
        decreases list@.len() - i,
    {
        let row: &str = list[i].as_str();
        let mut parts: Vec<String> = split_words(row);
        let ghost seen = all.skip(1).take(i as int);
        proof {
            assert(row@ == texts(list@)[i as int]);
            assert(seen.last() == row@);
            assert(seen.drop_last() =~= all.skip(1).take(i - 1));
            assert(parts@.len() == words(row@).len());
            assert(parts@.len() >= 2 ==> texts(parts@)[0] == parts@[0]@ && texts(parts@)[1]
                == parts@[1]@);
        }
        let ghost before = texts(r@);
        if parts.len() >= 2 && same_text(parts[1].as_str(), "device") {
            let serial: String = parts[0].clone();
            r.push(serial);
            assert(texts(r@) =~= before.push(words(row@)[0]));
        }
        i = i + 1;
    }
    assert(all.skip(1).take(i - 1) =~= all.skip(1));
    r
}

/// The serials of the ready devices, by what running `adb devices` gave.
pub open spec fn listed_serials(run: CommandRun) -> Seq<Seq<char>> {
    match run {
        CommandRun::Finished { stdout, .. } => ready_serials(utf8_lossy(stdout@)),
        CommandRun::Failed { .. } => seq![],
    }
}

/// The serials of the ready devices, from running adb with [`devices_args`];
/// none where it did not run.
pub fn get_connected_device_serials(run: &CommandRun) -> (r: Vec<String>)
    ensures
        texts(r@) == listed_serials(*run),
        run matches CommandRun::Finished { stdout, .. } ==> decoded_if_valid(stdout@),
{
    match run {
        CommandRun::Finished { stdout, .. } => {
            read_device_list(output_text(stdout.as_slice()).as_str())
        },
        CommandRun::Failed { .. } => {
            let r: Vec<String> = Vec::new();
            assert(texts(r@) =~= seq![]);
            r
        },
    }
}

/// adb's answer to a connection that was found, read as success.
pub open spec fn says_connected(stdout: Seq<char>) -> bool {
    &&& occurs_in(stdout, "connected to"@) || occurs_in(stdout, "already connected to"@)
    &&& !occurs_in(stdout, "failed"@)
}

/// adb's answer to a connection that the user asked for, read as success.
pub open spec fn says_connected_to_user(stdout: Seq<char>) -> bool {
    occurs_in(stdout, "connected"@) || occurs_in(stdout, "already"@)
}

/// The lines that report a connection.
pub open spec fn connect_lines(stdout: Seq<char>, connected: bool) -> Seq<Seq<char>> {
    let said = "    adb: "@ + trimmed(stdout);
    if connected {
        seq![said, "[+] Connected!"@]
    } else {
        seq![said]
    }
}

/// What came of a connection that was found, and the lines that report it.
pub open spec fn connect_outcome(run: CommandRun) -> (bool, Seq<Seq<char>>) {
    match run {
        CommandRun::Finished { stdout, .. } => {
            let out = utf8_lossy(stdout@);
            (says_connected(out), connect_lines(out, says_connected(out)))
        },
        CommandRun::Failed { .. } => (false, seq![]),
    }
}

/// What came of a connection that the user asked for, and the lines that report
/// it.
pub open spec fn user_connect_outcome(run: CommandRun) -> (bool, Seq<Seq<char>>) {
    match run {
        CommandRun::Finished { stdout, .. } => {
            let out = utf8_lossy(stdout@);
            (says_connected_to_user(out), connect_lines(out, says_connected_to_user(out)))
        },
        CommandRun::Failed { .. } => (false, seq![]),
    }
}

/// What came of a connection, and the lines that report it.
pub struct ConnectReply {
    pub connected: bool,
    pub lines: Vec<String>,
}

/// Whether adb's answer to a connection that was found means success.
pub fn accepts(stdout: &str) -> (r: bool)
    ensures
        r == says_connected(stdout@),
{
    (contains(stdout, "connected to") || contains(stdout, "already connected to")) && !contains(
        stdout,
        "failed",
    )
}

/// Whether adb's answer to a connection that the user asked for means success.
pub fn accepts_for_user(stdout: &str) -> (r: bool)
    ensures
        r == says_connected_to_user(stdout@),
{
    contains(stdout, "connected") || contains(stdout, "already")
}

fn connect_report(stdout: &str, connected: bool) -> (r: ConnectReply)
    ensures
        r.connected == connected,
        texts(r.lines@) == connect_lines(stdout@, connected),
{
    let mut lines: Vec<String> = Vec::new();
    lines.push(joined("    adb: ", trim(stdout).as_str()));
    if connected {
        lines.push("[+] Connected!".to_string());
    }
    assert(texts(lines@) =~= connect_lines(stdout@, connected));
    ConnectReply { connected, lines }
}

fn connect_failure() -> (r: ConnectReply)
    ensures
        !r.connected,
        texts(r.lines@) == Seq::<Seq<char>>::empty(),
{
    let lines: Vec<String> = Vec::new();
    assert(texts(lines@) =~= seq![]);
    ConnectReply { connected: false, lines }
}

/// What came of running adb with [`connect_args`] for a connection that was
/// found.
pub fn adb_connect(run: &CommandRun) -> (r: ConnectReply)
    ensures
        (r.connected, texts(r.lines@)) == connect_outcome(*run),
        run matches CommandRun::Finished { stdout, .. } ==> decoded_if_valid(stdout@),
{
    match run {
        CommandRun::Finished { stdout, .. } => {
            let out: String = output_text(stdout.as_slice());
            connect_report(out.as_str(), accepts(out.as_str()))
        },
        CommandRun::Failed { .. } => connect_failure(),
    }
}

/// What came of running adb with [`connect_args`] for a connection that the user
/// asked for.
pub fn adb_connect_for_user(run: &CommandRun) -> (r: ConnectReply)
    ensures
        (r.connected, texts(r.lines@)) == user_connect_outcome(*run),
        run matches CommandRun::Finished { stdout, .. } ==> decoded_if_valid(stdout@),
{
    match run {
        CommandRun::Finished { stdout, .. } => {
            let out: String = output_text(stdout.as_slice());
            connect_report(out.as_str(), accepts_for_user(out.as_str()))
        },
        CommandRun::Failed { .. } => connect_failure(),
    }
}

/// An answer that already mentions a standing connection needs no second test:
/// every such answer says "connected to".
pub proof fn already_connected_is_connected(stdout: Seq<char>)
    ensures
        says_connected(stdout) <==> occurs_in(stdout, "connected to"@) && !occurs_in(
            stdout,
            "failed"@,
        ),
{
    reveal_strlit("connected to");
    reveal_strlit("already connected to");
    if occurs_in(stdout, "already connected to"@) {
        assert("already connected to"@.subrange(8, 20) =~= "connected to"@);
        assert(occurs_at("already connected to"@, "connected to"@, 8));
        occurrence_is_transitive(stdout, "already connected to"@, "connected to"@);
    }
}

/// What counts as success for a connection that was found counts as success for
/// one that the user asked for.
pub proof fn user_acceptance_is_wider(stdout: Seq<char>)
    requires
        says_connected(stdout),
    ensures
        says_connected_to_user(stdout),
{
    reveal_strlit("connected to");
    reveal_strlit("connected");
    already_connected_is_connected(stdout);
    assert("connected to"@.subrange(0, 9) =~= "connected"@);
    assert(occurs_at("connected to"@, "connected"@, 0));
    occurrence_is_transitive(stdout, "connected to"@, "connected"@);
}

/// The identifier is read back from an answer that gives it as `[guid=...]`,
/// whatever stands before and after.
pub proof fn guid_is_read_back(before: Seq<char>, guid: Seq<char>, after: Seq<char>)
    requires
        !occurs_in(before, "[guid="@),
        !occurs_in(guid, "[guid="@),
        !occurs_in(guid, "]"@),
    ensures
        guid_in(before + "[guid="@ + guid + "]"@ + after) == Some(guid),
{
    let mark = "[guid="@;
    let close = "]"@;
    reveal_strlit("[guid=");
    reveal_strlit("]");
    let text = before + mark + guid + close + after;
    assert(text.subrange(before.len() as int, 6int + before.len()) =~= mark);
    assert forall|j: int| 0 <= j < before.len() implies !occurs_at(text, mark, j) by {
        if occurs_at(text, mark, j) {
            let found = text.subrange(j, j + 6);
            if j + 6 <= before.len() {
                assert(before.subrange(j, j + 6) =~= found);
                assert(occurs_at(before, mark, j));
            } else {
                assert(text[before.len() as int] == '[');
                assert(found[before.len() - j] == text[before.len() as int]);
            }
        }
    }
    assert(is_first_at(text, mark, before.len() as int));
    lemma_first_at_is(text, mark, before.len() as int);
    let rest = guid + close + after;
    assert(after_first(text, mark) =~= rest);
    let piece = before_first(rest, mark);
    if occurs_in(rest, mark) {
        lemma_first_at(rest, mark);
        let at = first_at(rest, mark);
        let found = rest.subrange(at, at + 6);
        if at <= guid.len() {
            if at + 6 <= guid.len() {
                assert(guid.subrange(at, at + 6) =~= found);
                assert(occurs_at(guid, mark, at));
            } else {
                assert(rest[guid.len() as int] == ']');
                assert(found[guid.len() - at] == rest[guid.len() as int]);
            }
        }
        assert(at > guid.len());
    }
    assert(piece.len() > guid.len());
    assert(piece.subrange(guid.len() as int, 1int + guid.len()) =~= close);
    assert forall|j: int| 0 <= j < guid.len() implies !occurs_at(piece, close, j) by {
        if occurs_at(piece, close, j) {
            assert(guid.subrange(j, j + 1) =~= piece.subrange(j, j + 1));
            assert(occurs_at(guid, close, j));
        }
    }
    assert(is_first_at(piece, close, guid.len() as int));
    lemma_first_at_is(piece, close, guid.len() as int);
    assert(piece.take(guid.len() as int) =~= guid);
}

/// The serials are those of the rows that say that their device is ready, and no
/// others.
pub proof fn serials_are_of_ready_rows(list: Seq<Seq<char>>, serial: Seq<char>)
    ensures
        serials_of(list).contains(serial) <==> exists|i: int|
            0 <= i < list.len() && ready_row(#[trigger] list[i]) && words(list[i])[0] == serial,
    decreases list.len(),
{
    if list.len() > 0 {
        let init = list.drop_last();
        let last = list.last();
        serials_are_of_ready_rows(init, serial);
        let found = serials_of(list);
        let earlier = serials_of(init);
        if exists|i: int|
            0 <= i < list.len() && ready_row(#[trigger] list[i]) && words(list[i])[0] == serial {
            let i = choose|i: int|
                0 <= i < list.len() && ready_row(#[trigger] list[i]) && words(list[i])[0] == serial;
            if i < init.len() {
                assert(init[i] == list[i]);
                assert(earlier.contains(serial));
                let k = choose|k: int| 0 <= k < earlier.len() && earlier[k] == serial;
                assert(found[k] == serial);
            } else {
                assert(found[found.len() - 1] == serial);
            }
        }
        if found.contains(serial) {
            let k = choose|k: int| 0 <= k < found.len() && found[k] == serial;
            if k < earlier.len() {
                assert(earlier[k] == serial);
                let i = choose|i: int|
                    0 <= i < init.len() && ready_row(#[trigger] init[i]) && words(init[i])[0]
                        == serial;
                assert(list[i] == init[i]);
            } else {
                assert(ready_row(list[list.len() - 1]));
            }
        }
    }
}

proof fn lemma_stands(text: Seq<char>, pattern: Seq<char>, n: int)
    requires
        n == pattern.len(),
    ensures
        occurs_in(text, pattern) ==> exists|k: int|
            0 <= k <= text.len() - n && #[trigger] text.subrange(k, k + n) == pattern,
        forall|k: int|
            0 <= k <= text.len() - n && #[trigger] text.subrange(k, k + n) == pattern ==> occurs_in(
                text,
                pattern,
            ),
{
    if occurs_in(text, pattern) {
        let k = choose|k: int| occurs_at(text, pattern, k);
        assert(text.subrange(k, k + n) == pattern);
    }
    assert forall|k: int|
        0 <= k <= text.len() - n && #[trigger] text.subrange(k, k + n) == pattern implies occurs_in(
        text,
        pattern,
    ) by {
        assert(occurs_at(text, pattern, k));
    }
}

/// A pairing counts as successful exactly where adb finished and its standard
/// output holds the words `Successfully paired`; where it does not, there is no
/// identifier.
pub proof fn pairing_succeeds_by_words(run: CommandRun)
    ensures
        pair_outcome(run).0 <==> {
            &&& run matches CommandRun::Finished { stdout, .. }
            &&& exists|k: int|
                0 <= k <= utf8_lossy(stdout@).len() - 19 && #[trigger] utf8_lossy(stdout@).subrange(
                    k,
                    k + 19,
                ) == "Successfully paired"@
        },
        !pair_outcome(run).0 ==> pair_outcome(run).1 is None,
        pair_outcome(run).0 ==> (run matches CommandRun::Finished { stdout, .. }
            && pair_outcome(run).1 == guid_in(utf8_lossy(stdout@))),
{
    reveal_strlit("Successfully paired");
    if let CommandRun::Finished { stdout, .. } = run {
        lemma_stands(utf8_lossy(stdout@), "Successfully paired"@, 19);
    }
}

proof fn lemma_part_holds_less(whole: Seq<char>, part: Seq<char>, pattern: Seq<char>)
    requires
        part.len() <= whole.len(),
        part == whole.take(part.len() as int),
        occurs_in(part, pattern),
    ensures
        occurs_in(whole, pattern),
{
    let k = choose|k: int| occurs_at(part, pattern, k);
    assert(whole.subrange(k, k + pattern.len()) =~= part.subrange(k, k + pattern.len()));
    assert(occurs_at(whole, pattern, k));
}

proof fn lemma_cut(text: Seq<char>, pattern: Seq<char>)
    requires
        pattern.len() > 0,
    ensures
        ({
            let part = before_first(text, pattern);
            &&& part.len() <= text.len()
            &&& part == text.take(part.len() as int)
            &&& !occurs_in(part, pattern)
            &&& part.len() < text.len() ==> part.len() + pattern.len() <= text.len()
                && text.subrange(part.len() as int, part.len() as int + pattern.len()) == pattern
        }),
{
    first_occurrence_parts_text(text, pattern);
    let part = before_first(text, pattern);
    if occurs_in(text, pattern) {
        let short = (part + pattern).drop_last();
        assert(part =~= text.take(part.len() as int));
        assert(text.subrange(part.len() as int, part.len() as int + pattern.len()) =~= pattern);
        if occurs_in(part, pattern) {
            assert(part =~= short.take(part.len() as int));
            lemma_part_holds_less(short, part, pattern);
        }
    } else {
        assert(part =~= text.take(part.len() as int));
    }
}

/// What two cuts leave of the text behind a mark: `stdout` is some text, the mark,
/// what is left, and a rest that is empty or begins with one of the two patterns.
proof fn lemma_cut_twice(stdout: Seq<char>, mark: Seq<char>, close: Seq<char>) -> (ends: (
    Seq<char>,
    Seq<char>,
))
    requires
        mark.len() > 0,
        close.len() > 0,
        occurs_in(stdout, mark),
    ensures
        ({
            let guid = before_first(before_first(after_first(stdout, mark), mark), close);
            let (a, b) = ends;
            &&& !occurs_in(guid, close)
            &&& !occurs_in(guid, mark)
            &&& stdout == a + mark + guid + b
            &&& !occurs_in((a + mark).drop_last(), mark)
            &&& b.len() == 0 || begins_with(b, close) || begins_with(b, mark)
        }),
{
    first_occurrence_parts_text(stdout, mark);
    let a = before_first(stdout, mark);
    let rest = after_first(stdout, mark);
    let piece = before_first(rest, mark);
    let guid = before_first(piece, close);
    lemma_cut(rest, mark);
    lemma_cut(piece, close);
    let n = guid.len() as int;
    let b = rest.skip(n);
    assert(guid =~= rest.take(n));
    assert(a + mark + guid + b =~= a + mark + rest);
    if n < piece.len() {
        assert(b.subrange(0, close.len() as int) =~= piece.subrange(n, n + close.len()));
    } else if piece.len() < rest.len() {
        assert(b.subrange(0, mark.len() as int) =~= rest.subrange(n, n + mark.len()));
    }
    if occurs_in(guid, mark) {
        lemma_part_holds_less(piece, guid, mark);
    }
    (a, b)
}

/// The identifier stands right behind the first `[guid=` and reaches up to the
/// next `]`, the next `[guid=` or the end, whichever comes first; there is none
/// exactly where there is no `[guid=`.
pub proof fn guid_by_characters(stdout: Seq<char>)
    ensures
        ({
            let mark = seq!['[', 'g', 'u', 'i', 'd', '='];
            match guid_in(stdout) {
                None => !occurs_in(stdout, mark),
                Some(guid) => {
                    &&& !guid.contains(']')
                    &&& !occurs_in(guid, mark)
                    &&& exists|a: Seq<char>, b: Seq<char>|
                        stdout == #[trigger] (a + mark + guid + b) && !occurs_in(
                            (a + mark).drop_last(),
                            mark,
                        ) && (b.len() == 0 || b[0] == ']' || (b.len() >= 6 && b.take(6) == mark))
                },
            }
        }),
{
    let mark = seq!['[', 'g', 'u', 'i', 'd', '='];
    let close = seq![']'];
    assert("[guid="@ =~= mark) by {
        reveal_strlit("[guid=");
    }
    assert("]"@ =~= close) by {
        reveal_strlit("]");
    }
    if occurs_in(stdout, mark) {
        let (a, b) = lemma_cut_twice(stdout, mark, close);
        let guid = before_first(before_first(after_first(stdout, mark), mark), close);
        assert(guid_in(stdout) == Some(guid));
        assert(b.len() == 0 || b[0] == ']' || (b.len() >= 6 && b.take(6) == mark)) by {
            if begins_with(b, close) {
                assert(b.subrange(0, 1)[0] == b[0]);
            }
            if begins_with(b, mark) {
                assert(b.take(6) =~= b.subrange(0, 6));
            }
        }
        assert(!guid.contains(']')) by {
            if guid.contains(']') {
                let i = choose|i: int| 0 <= i < guid.len() && guid[i] == ']';
                assert(guid.subrange(i, i + 1) =~= close);
                assert(occurs_at(guid, close, i));
            }
        }
        assert(stdout == a + mark + guid + b);
    }
}

/// What is reported of a pairing: what adb printed, unless it is blank, first the
/// standard output and then the standard error, and last the verdict; or the reason
/// why adb did not run.
pub proof fn pairing_report_by_lines(run: CommandRun)
    ensures
        ({
            let lines = pair_outcome(run).2;
            match run {
                CommandRun::Finished { stdout, stderr } => {
                    let out = trimmed(utf8_lossy(stdout@));
                    let err = trimmed(utf8_lossy(stderr@));
                    let n = lines.len() as int;
                    &&& n == 1 + (if out.len() > 0 {
                        1int
                    } else {
                        0
                    }) + (if err.len() > 0 {
                        1int
                    } else {
                        0
                    })
                    &&& out.len() > 0 ==> lines[0] == "    adb: "@ + out
                    &&& err.len() > 0 ==> lines[n - 2] == "    adb err: "@ + err
                    &&& pair_outcome(run).0 ==> lines[n - 1] == "[+] Pairing successful!"@
                    &&& !pair_outcome(run).0 ==> lines[n - 1] == "[-] Pairing may have failed"@
                },
                CommandRun::Failed { reason } => lines.len() == 1 && lines[0]
                    == "[-] Failed to run adb: "@ + reason@,
            }
        }),
{
}

/// A connection that was found counts as made exactly where adb finished and its
/// standard output holds `connected to` and does not hold `failed`.
pub proof fn connection_is_accepted_by_words(run: CommandRun)
    ensures
        connect_outcome(run).0 <==> {
            &&& run matches CommandRun::Finished { stdout, .. }
            &&& exists|k: int|
                0 <= k <= utf8_lossy(stdout@).len() - 12 && #[trigger] utf8_lossy(stdout@).subrange(
                    k,
                    k + 12,
                ) == "connected to"@
            &&& forall|k: int|
                0 <= k <= utf8_lossy(stdout@).len() - 6 ==> #[trigger] utf8_lossy(stdout@).subrange(
                    k,
                    k + 6,
                ) != "failed"@
        },
{
    reveal_strlit("connected to");
    reveal_strlit("failed");
    if let CommandRun::Finished { stdout, .. } = run {
        let out = utf8_lossy(stdout@);
        already_connected_is_connected(out);
        lemma_stands(out, "connected to"@, 12);
        lemma_stands(out, "failed"@, 6);
    }
}

/// A connection that the user asked for counts as made exactly where adb finished
/// and its standard output holds `connected` or `already`.
pub proof fn user_connection_is_accepted_by_words(run: CommandRun)
    ensures
        user_connect_outcome(run).0 <==> (run matches CommandRun::Finished { stdout, .. } && {
            ||| exists|k: int|
                0 <= k <= utf8_lossy(stdout@).len() - 9 && #[trigger] utf8_lossy(stdout@).subrange(
                    k,
                    k + 9,
                ) == "connected"@
            ||| exists|k: int|
                0 <= k <= utf8_lossy(stdout@).len() - 7 && #[trigger] utf8_lossy(stdout@).subrange(
                    k,
                    k + 7,
                ) == "already"@
        }),
{
    reveal_strlit("connected");
    reveal_strlit("already");
    if let CommandRun::Finished { stdout, .. } = run {
        let out = utf8_lossy(stdout@);
        lemma_stands(out, "connected"@, 9);
        lemma_stands(out, "already"@, 7);
    }
}

/// What is reported of a connection, found or asked for: what adb printed, and
/// that the connection was made where it was; nothing where adb did not run.
pub proof fn connection_report_by_lines(run: CommandRun)
    ensures
        forall|outcome: (bool, Seq<Seq<char>>)|
            outcome == connect_outcome(run) || outcome == user_connect_outcome(run) ==> match run {
                CommandRun::Finished { stdout, .. } => {
                    &&& (#[trigger] outcome.1).len() == if outcome.0 {
                        2int
                    } else {
                        1
                    }
                    &&& outcome.1[0] == "    adb: "@ + trimmed(utf8_lossy(stdout@))
                    &&& outcome.0 ==> outcome.1[1] == "[+] Connected!"@
                },
                CommandRun::Failed { .. } => outcome.1.len() == 0,
            },
{
}

/// A serial is listed exactly where some row after the first has it as its first
/// word and `device` as its second.
pub proof fn listed_serials_by_rows(stdout: Seq<char>, serial: Seq<char>)
    ensures
        ready_serials(stdout).contains(serial) <==> exists|i: int|
            1 <= i < rows(stdout).len() && words(#[trigger] rows(stdout)[i]).len() >= 2 && words(
                rows(stdout)[i],
            )[1] == "device"@ && words(rows(stdout)[i])[0] == serial,
{
    crate::text::lemma_pieces_nonempty(stdout, |c: char| c == '\n');
    let list = rows(stdout).skip(1);
    serials_are_of_ready_rows(list, serial);
    if ready_serials(stdout).contains(serial) {
        let i = choose|i: int|
            0 <= i < list.len() && ready_row(#[trigger] list[i]) && words(list[i])[0] == serial;
        assert(rows(stdout)[i + 1] == list[i]);
    }
    if exists|i: int|
        1 <= i < rows(stdout).len() && words(#[trigger] rows(stdout)[i]).len() >= 2 && words(
            rows(stdout)[i],
        )[1] == "device"@ && words(rows(stdout)[i])[0] == serial {
        let i = choose|i: int|
            1 <= i < rows(stdout).len() && words(#[trigger] rows(stdout)[i]).len() >= 2 && words(
                rows(stdout)[i],
            )[1] == "device"@ && words(rows(stdout)[i])[0] == serial;
        assert(list[i - 1] == rows(stdout)[i]);
        assert(ready_row(list[i - 1]));
    }
}

proof fn lemma_serials_add(a: Seq<Seq<char>>, b: Seq<Seq<char>>)
    ensures
        serials_of(a + b) == serials_of(a) + serials_of(b),
    decreases b.len(),
{
    if b.len() == 0 {
        assert(a + b =~= a);
        assert(serials_of(a + b) =~= serials_of(a) + serials_of(b));
    } else {
        lemma_serials_add(a, b.drop_last());
        assert((a + b).drop_last() =~= a + b.drop_last());
        assert(serials_of(a + b) =~= serials_of(a) + serials_of(b));
    }
}

/// Rows are listed in turn and each for itself: under one heading, what two parts
/// of a list give one after the other is what the whole list gives; a row gives its
/// first word where its second is `device`, and else nothing; so does the heading.
pub proof fn serials_are_listed_in_turn(heading: Seq<char>, a: Seq<char>, b: Seq<char>)
    requires
        forall|i: int| 0 <= i < heading.len() ==> #[trigger] heading[i] != '\n',
    ensures
        ready_serials(heading.push('\n') + (a.push('\n') + b)) == ready_serials(
            heading.push('\n') + a,
        ) + ready_serials(heading.push('\n') + b),
        (forall|i: int| 0 <= i < a.len() ==> #[trigger] a[i] != '\n') ==> ready_serials(
            heading.push('\n') + a,
        ) == if words(a).len() >= 2 && words(a)[1] == "device"@ {
            seq![words(a)[0]]
        } else {
            seq![]
        },
        ready_serials(heading) == Seq::<Seq<char>>::empty(),
{
    let ab = a.push('\n') + b;
    rows_part_at_line_feeds(heading, ab);
    rows_part_at_line_feeds(heading, a);
    rows_part_at_line_feeds(heading, b);
    rows_part_at_line_feeds(a, b);
    assert((seq![heading] + rows(ab)).skip(1) =~= rows(ab));
    assert((seq![heading] + rows(a)).skip(1) =~= rows(a));
    assert((seq![heading] + rows(b)).skip(1) =~= rows(b));
    lemma_serials_add(rows(a), rows(b));
    let none = Seq::<Seq<char>>::empty();
    assert(seq![heading].skip(1) =~= none);
    assert(serials_of(none) =~= none);
    if forall|i: int| 0 <= i < a.len() ==> #[trigger] a[i] != '\n' {
        let one = seq![a];
        assert(one.last() == a);
        assert(one.drop_last() =~= none);
        assert(serials_of(one) =~= if words(a).len() >= 2 && words(a)[1] == "device"@ {
            seq![words(a)[0]]
        } else {
            seq![]
        });
    }
}

/// The serials are read from adb's standard output, and there are none where adb
/// did not run.
pub proof fn listing_reads_standard_output(stdout: Vec<u8>, stderr: Vec<u8>, reason: String)
    ensures
        listed_serials(CommandRun::Finished { stdout, stderr }) == ready_serials(
            utf8_lossy(stdout@),
        ),
        listed_serials(CommandRun::Failed { reason }).len() == 0,
{
}

/// Bytes that are UTF-8 read as the text that they encode, wherever they are read.
pub proof fn valid_output_reads_as_encoded(bytes: Seq<u8>)
    requires
        decoded_if_valid(bytes),
        valid_utf8(bytes),
    ensures
        utf8_lossy(bytes) == decode_utf8(bytes),
{
}

} // verus!
