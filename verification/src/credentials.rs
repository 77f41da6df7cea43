//! The credentials that a session offers, and the text that carries them.

use crate::qr::{displayable, short_text};
use crate::text::joined;
use vstd::prelude::*;
use vstd::utf8::{is_ascii_chars, is_ascii_chars_encode_utf8};

verus! {

/// The bytes of `a` to `z`, `A` to `Z` and `0` to `9`, of which names are made.
pub const NAME_CHARS: [u8; 62] = [
    97, 98, 99, 100, 101, 102, 103, 104, 105, 106, 107, 108, 109,
    110, 111, 112, 113, 114, 115, 116, 117, 118, 119, 120, 121, 122,
    65, 66, 67, 68, 69, 70, 71, 72, 73, 74, 75, 76, 77,
    78, 79, 80, 81, 82, 83, 84, 85, 86, 87, 88, 89, 90,
    48, 49, 50, 51, 52, 53, 54, 55, 56, 57,
];

/// The bytes of `a` to `z`, `A` to `Z`, `0` to `9` and `!@#$%`, of which
/// passwords are made.
pub const PASS_CHARS: [u8; 67] = [
    97, 98, 99, 100, 101, 102, 103, 104, 105, 106, 107, 108, 109,
    110, 111, 112, 113, 114, 115, 116, 117, 118, 119, 120, 121, 122,
    65, 66, 67, 68, 69, 70, 71, 72, 73, 74, 75, 76, 77,
    78, 79, 80, 81, 82, 83, 84, 85, 86, 87, 88, 89, 90,
    48, 49, 50, 51, 52, 53, 54, 55, 56, 57,
    33, 64, 35, 36, 37,
];

/// Random characters in a name and in a password.
pub const SECRET_LEN: usize = 10;

/// The characters at the given places of a character set.
pub open spec fn picked(chars: Seq<u8>, places: Seq<usize>) -> Seq<char> {
    Seq::new(places.len(), |i: int| chars[places[i] as int] as char)
}

/// `c` is a character of the set.
pub open spec fn in_set(chars: Seq<u8>, c: char) -> bool {
    exists|k: int| 0 <= k < chars.len() && c == #[trigger] chars[k] as char
}

/// `text` has the given length and only characters of the set.
pub open spec fn drawn_from(chars: Seq<u8>, length: nat, text: Seq<char>) -> bool {
    &&& text.len() == length
    &&& forall|i: int| 0 <= i < text.len() ==> in_set(chars, #[trigger] text[i])
}

/// `rand::Rng::gen_range` of the thread's generator, over `0..bound`, gives a
/// number below `bound`. Which one is left to chance.
#[verifier::external_body]
fn random_below(bound: usize) -> (r: usize)
    requires
        bound > 0,
    ensures
        r < bound,
{
    rand::Rng::gen_range(&mut rand::thread_rng(), 0..bound)
}

/// The string of the characters at the given places of a character set.
pub fn pick(chars: &[u8], places: &[usize]) -> (r: String)
    requires
        forall|i: int| 0 <= i < places@.len() ==> #[trigger] places@[i] < chars@.len(),
    ensures
        r@ == picked(chars@, places@),
{
    let mut r: String = String::new();
    let mut i: usize = 0;
    while i < places.len()
        invariant
            forall|i: int| 0 <= i < places@.len() ==> #[trigger] places@[i] < chars@.len(),
            i <= places@.len(),
            r@ == picked(chars@, places@).take(i as int),
        decreases places@.len() - i,
    {
        let place: usize = places[i];
        r.push(chars[place] as char);
        assert(r@ == picked(chars@, places@).take(i + 1));
        i = i + 1;
    }
    r
}

/// A random string of `length` characters of the given set.
pub fn random_string(chars: &[u8], length: usize) -> (r: String)
    requires
        length > 0 ==> chars@.len() > 0,
    ensures
        drawn_from(chars@, length as nat, r@),
{
    let mut places: Vec<usize> = Vec::new();
    let mut i: usize = 0;
    while i < length
        invariant
            length > 0 ==> chars@.len() > 0,
            i <= length,
            places@.len() == i,
            forall|i: int| 0 <= i < places@.len() ==> #[trigger] places@[i] < chars@.len(),
        decreases length - i,
    {
        places.push(random_below(chars.len()));
        i = i + 1;
    }
    let r: String = pick(chars, places.as_slice());
    assert forall|i: int| 0 <= i < r@.len() implies in_set(chars@, #[trigger] r@[i]) by {
        let k = places@[i] as int;
        assert(r@[i] == chars@[k] as char);
    }
    r
}

/// The service name that a device announces, and the password that goes with it.
pub struct Credentials {
    pub name: String,
    pub password: String,
}

/// A name and a password as this library makes them.
pub open spec fn generated(name: Seq<char>, password: Seq<char>) -> bool {
    &&& exists|tail: Seq<char>|
        {
            &&& name == "studio-"@ + tail
            &&& #[trigger] drawn_from(NAME_CHARS@, SECRET_LEN as nat, tail)
        }
    &&& drawn_from(PASS_CHARS@, SECRET_LEN as nat, password)
}

/// The text that a device reads from the QR code.
pub open spec fn qr_payload(name: Seq<char>, password: Seq<char>) -> Seq<char> {
    "WIFI:T:ADB;S:"@ + name + ";P:"@ + password + ";;"@
}

impl Credentials {
    /// The credentials with this tail of the name and this password.
    pub fn of(tail: &str, password: &str) -> (r: Credentials)
        ensures
            r.name@ == "studio-"@ + tail@,
            r.password@ == password@,
    {
        Credentials { name: joined("studio-", tail), password: password.to_string() }
    }

    /// Fresh random credentials.
    pub fn generate() -> (r: Credentials)
        ensures
            generated(r.name@, r.password@),
    {
        let tail: String = random_string(&NAME_CHARS, SECRET_LEN);
        let password: String = random_string(&PASS_CHARS, SECRET_LEN);
        Credentials::of(tail.as_str(), password.as_str())
    }

    /// The text that a device reads from the QR code.
    pub fn qr_text(&self) -> (r: String)
        ensures
            r@ == qr_payload(self.name@, self.password@),
    {
        let mut r: String = joined("WIFI:T:ADB;S:", self.name.as_str());
        r.append(";P:");
        r.append(self.password.as_str());
        r.append(";;");
        r
    }
}

/// `c` has a meaning of its own in a `WIFI:` text.
pub open spec fn reserved(c: char) -> bool {
    c == ';' || c == ',' || c == ':' || c == '\\' || c == '"'
}

/// `text` holds no reserved character.
pub open spec fn unreserved(text: Seq<char>) -> bool {
    forall|i: int| 0 <= i < text.len() ==> !reserved(#[trigger] text[i])
}

proof fn lemma_sets_unreserved()
    ensures
        forall|c: char| in_set(NAME_CHARS@, c) ==> !reserved(c),
        forall|c: char| in_set(PASS_CHARS@, c) ==> !reserved(c),
{
    assert(forall|k: int| 0 <= k < 62 ==> 48 <= #[trigger] NAME_CHARS@[k] && NAME_CHARS@[k] != 58
        && NAME_CHARS@[k] != 59 && NAME_CHARS@[k] != 92);
    assert(forall|k: int| 0 <= k < 67 ==> 33 <= #[trigger] PASS_CHARS@[k] && PASS_CHARS@[k] != 34
        && PASS_CHARS@[k] != 44 && PASS_CHARS@[k] != 58 && PASS_CHARS@[k] != 59 && PASS_CHARS@[k]
        != 92);
}

/// Generated credentials need no escaping in the QR code's text.
pub proof fn generated_is_unreserved(name: Seq<char>, password: Seq<char>)
    requires
        generated(name, password),
    ensures
        unreserved(name),
        unreserved(password),
{
    lemma_sets_unreserved();
    reveal_strlit("studio-");
    let tail = choose|tail: Seq<char>|
        name == "studio-"@ + tail && #[trigger] drawn_from(NAME_CHARS@, SECRET_LEN as nat, tail);
    assert forall|i: int| 0 <= i < name.len() implies !reserved(#[trigger] name[i]) by {
        if i >= 7 {
            assert(name[i] == tail[i - 7]);
        }
    }
}

/// The QR code's text tells the credentials: two names without reserved
/// characters never share it, nor do two passwords.
pub proof fn qr_payload_is_unambiguous(n1: Seq<char>, p1: Seq<char>, n2: Seq<char>, p2: Seq<char>)
    requires
        unreserved(n1),
        unreserved(n2),
        qr_payload(n1, p1) == qr_payload(n2, p2),
    ensures
        n1 == n2,
        p1 == p2,
{
    reveal_strlit("WIFI:T:ADB;S:");
    reveal_strlit(";P:");
    reveal_strlit(";;");
    let a = qr_payload(n1, p1);
    let b = qr_payload(n2, p2);
    assert(a[13int + n1.len()] == ';');
    assert(b[13int + n2.len()] == ';');
    if n1.len() < n2.len() {
        assert(b[13int + n1.len()] == n2[n1.len() as int]);
    }
    if n2.len() < n1.len() {
        assert(a[13int + n2.len()] == n1[n2.len() as int]);
    }
    assert(n1 =~= a.subrange(13, 13int + n1.len()));
    assert(n2 =~= b.subrange(13, 13int + n2.len()));
    assert(p1 =~= a.subrange(16int + n1.len(), a.len() - 2));
    assert(p2 =~= b.subrange(16int + n2.len(), b.len() - 2));
}

/// The QR code's text for generated credentials has 45 characters, all of them
/// ASCII, and is short enough to have a picture.
pub proof fn generated_payload_is_displayable(name: Seq<char>, password: Seq<char>)
    requires
        generated(name, password),
    ensures
        qr_payload(name, password).len() == 45,
        is_ascii_chars(qr_payload(name, password)),
        short_text(qr_payload(name, password)),
        displayable(qr_payload(name, password)),
{
    reveal_strlit("studio-");
    reveal_strlit("WIFI:T:ADB;S:");
    reveal_strlit(";P:");
    reveal_strlit(";;");
    assert(forall|k: int| 0 <= k < 62 ==> #[trigger] NAME_CHARS@[k] < 128);
    assert(forall|k: int| 0 <= k < 67 ==> #[trigger] PASS_CHARS@[k] < 128);
    let tail = choose|tail: Seq<char>|
        name == "studio-"@ + tail && #[trigger] drawn_from(NAME_CHARS@, SECRET_LEN as nat, tail);
    let text = qr_payload(name, password);
    assert(name.len() == 17);
    assert forall|i: int| 0 <= i < text.len() implies 0 <= #[trigger] text[i] as nat <= 127 by {
        if 20 <= i < 30 {
            assert(text[i] == tail[i - 20]);
            assert(in_set(NAME_CHARS@, tail[i - 20]));
        } else if 33 <= i < 43 {
            assert(text[i] == password[i - 33]);
            assert(in_set(PASS_CHARS@, password[i - 33]));
        }
    }
    is_ascii_chars_encode_utf8(text);
}

/// The characters of names are the letters of either case and the digits, each of
/// them once; passwords have `!`, `@`, `#`, `$` and `%` beside them.
pub proof fn character_sets_by_character(c: char)
    ensures
        ({
            let n = c as u32;
            let plain = 97 <= n <= 122 || 65 <= n <= 90 || 48 <= n <= 57;
            &&& in_set(NAME_CHARS@, c) <==> plain
            &&& in_set(PASS_CHARS@, c) <==> plain || c == '!' || c == '@' || c == '#' || c == '$'
                || c == '%'
        }),
        forall|i: int, j: int|
            0 <= i < j < NAME_CHARS@.len() ==> #[trigger] NAME_CHARS@[i] != #[trigger] NAME_CHARS@[j],
        forall|i: int, j: int|
            0 <= i < j < PASS_CHARS@.len() ==> #[trigger] PASS_CHARS@[i] != #[trigger] PASS_CHARS@[j],
{
    let n = c as int;
    assert(forall|k: int| 0 <= k < 26 ==> #[trigger] NAME_CHARS@[k] == 97 + k);
    assert(forall|k: int| 26 <= k < 52 ==> #[trigger] NAME_CHARS@[k] == 39 + k);
    assert(forall|k: int| 52 <= k < 62 ==> #[trigger] NAME_CHARS@[k] == k - 4);
    assert(forall|k: int| 0 <= k < 26 ==> #[trigger] PASS_CHARS@[k] == 97 + k);
    assert(forall|k: int| 26 <= k < 52 ==> #[trigger] PASS_CHARS@[k] == 39 + k);
    assert(forall|k: int| 52 <= k < 62 ==> #[trigger] PASS_CHARS@[k] == k - 4);
    assert(PASS_CHARS@[62] == 33 && PASS_CHARS@[63] == 64 && PASS_CHARS@[64] == 35
        && PASS_CHARS@[65] == 36 && PASS_CHARS@[66] == 37);
    if 97 <= n <= 122 {
        assert(c == NAME_CHARS@[n - 97] as char && c == PASS_CHARS@[n - 97] as char);
    }
    if 65 <= n <= 90 {
        assert(c == NAME_CHARS@[n - 39] as char && c == PASS_CHARS@[n - 39] as char);
    }
    if 48 <= n <= 57 {
        assert(c == NAME_CHARS@[n + 4] as char && c == PASS_CHARS@[n + 4] as char);
    }
    if c == '!' {
        assert(c == PASS_CHARS@[62] as char);
    }
    if c == '@' {
        assert(c == PASS_CHARS@[63] as char);
    }
    if c == '#' {
        assert(c == PASS_CHARS@[64] as char);
    }
    if c == '$' {
        assert(c == PASS_CHARS@[65] as char);
    }
    if c == '%' {
        assert(c == PASS_CHARS@[66] as char);
    }
}

/// A generated name is `studio-` and ten letters or digits, and a generated password
/// ten letters, digits or characters of `!@#$%`; every such name and password can be
/// generated.
pub proof fn generated_by_characters(name: Seq<char>, password: Seq<char>)
    ensures
        generated(name, password) <==> {
            &&& name.len() == 17
            &&& name.take(7) == seq!['s', 't', 'u', 'd', 'i', 'o', '-']
            &&& forall|i: int|
                7 <= i < 17 ==> ({
                    let n = (#[trigger] name[i]) as u32;
                    97 <= n <= 122 || 65 <= n <= 90 || 48 <= n <= 57
                })
            &&& password.len() == 10
            &&& forall|i: int|
                0 <= i < 10 ==> ({
                    let c = #[trigger] password[i];
                    let n = c as u32;
                    97 <= n <= 122 || 65 <= n <= 90 || 48 <= n <= 57 || c == '!' || c == '@' || c
                        == '#' || c == '$' || c == '%'
                })
        },
{
    reveal_strlit("studio-");
    let head = seq!['s', 't', 'u', 'd', 'i', 'o', '-'];
    assert("studio-"@ =~= head);
    assert forall|c: char|
        #![trigger in_set(NAME_CHARS@, c)]
        #![trigger in_set(PASS_CHARS@, c)]
        ({
            let n = c as u32;
            let plain = 97 <= n <= 122 || 65 <= n <= 90 || 48 <= n <= 57;
            &&& in_set(NAME_CHARS@, c) <==> plain
            &&& in_set(PASS_CHARS@, c) <==> plain || c == '!' || c == '@' || c == '#' || c == '$'
                || c == '%'
        }) by {
        character_sets_by_character(c);
    }
    if generated(name, password) {
        let tail = choose|tail: Seq<char>|
            name == "studio-"@ + tail && #[trigger] drawn_from(NAME_CHARS@, SECRET_LEN as nat, tail);
        assert(name.take(7) =~= head);
        assert forall|i: int| 7 <= i < 17 implies in_set(NAME_CHARS@, #[trigger] name[i]) by {
            assert(name[i] == tail[i - 7]);
        }
        assert forall|i: int| 0 <= i < 10 implies in_set(PASS_CHARS@, #[trigger] password[i]) by {}
    }
    let tail = name.skip(7);
    if name.len() == 17 && name.take(7) == head && password.len() == 10 {
        assert(name =~= "studio-"@ + tail);
        if forall|i: int| 7 <= i < 17 ==> in_set(NAME_CHARS@, #[trigger] name[i]) {
            assert forall|i: int| 0 <= i < tail.len() implies in_set(
                NAME_CHARS@,
                #[trigger] tail[i],
            ) by {
                assert(tail[i] == name[i + 7]);
            }
            assert(drawn_from(NAME_CHARS@, SECRET_LEN as nat, tail));
        }
        if forall|i: int| 0 <= i < 10 ==> in_set(PASS_CHARS@, #[trigger] password[i]) {
            assert(drawn_from(PASS_CHARS@, SECRET_LEN as nat, password));
        }
    }
}

/// Where in the QR code's text the name and the password stand, and what stands
/// around them: `WIFI:T:ADB;S:` before the name, `;P:` between the two, and `;;` at
/// the end.
pub proof fn qr_payload_by_parts(name: Seq<char>, password: Seq<char>)
    ensures
        ({
            let text = qr_payload(name, password);
            let n = name.len() as int;
            let p = password.len() as int;
            &&& text.len() == 18 + n + p
            &&& text.take(13) == seq![
                'W', 'I', 'F', 'I', ':', 'T', ':', 'A', 'D', 'B', ';', 'S', ':',
            ]
            &&& text.subrange(13, 13 + n) == name
            &&& text.subrange(13 + n, 16 + n) == seq![';', 'P', ':']
            &&& text.subrange(16 + n, 16 + n + p) == password
            &&& text.skip(16 + n + p) == seq![';', ';']
        }),
{
    reveal_strlit("WIFI:T:ADB;S:");
    reveal_strlit(";P:");
    reveal_strlit(";;");
    let text = qr_payload(name, password);
    let n = name.len() as int;
    let p = password.len() as int;
    assert(text.take(13) =~= seq![
        'W', 'I', 'F', 'I', ':', 'T', ':', 'A', 'D', 'B', ';', 'S', ':',
    ]);
    assert(text.subrange(13, 13 + n) =~= name);
    assert(text.subrange(13 + n, 16 + n) =~= seq![';', 'P', ':']);
    assert(text.subrange(16 + n, 16 + n + p) =~= password);
    assert(text.skip(16 + n + p) =~= seq![';', ';']);
}

/// A string that is picked has the character at each place, in turn, and picking at
/// more places picks more of the same.
pub proof fn picking_goes_place_by_place(chars: Seq<u8>, a: Seq<usize>, b: Seq<usize>)
    ensures
        picked(chars, a + b) == picked(chars, a) + picked(chars, b),
        picked(chars, a).len() == a.len(),
        forall|i: int| 0 <= i < a.len() ==> (#[trigger] picked(chars, a)[i]) as u32 == chars[a[i] as int],
{
    assert(picked(chars, a + b) =~= picked(chars, a) + picked(chars, b));
}

} // verus!
