//! Text as sequences of characters: searching, splitting, trimming, and the
//! decimal form of port numbers.

use vstd::prelude::*;

verus! {

/// `pattern` stands in `text` at position `at`.
pub open spec fn occurs_at(text: Seq<char>, pattern: Seq<char>, at: int) -> bool {
    &&& 0 <= at <= text.len() - pattern.len()
    &&& text.subrange(at, at + pattern.len()) == pattern
}

/// `pattern` stands somewhere in `text`.
pub open spec fn occurs_in(text: Seq<char>, pattern: Seq<char>) -> bool {
    exists|at: int| occurs_at(text, pattern, at)
}

/// `text` begins with `pattern`.
pub open spec fn begins_with(text: Seq<char>, pattern: Seq<char>) -> bool {
    occurs_at(text, pattern, 0)
}

/// `at` is the leftmost position at which `pattern` stands in `text`.
pub open spec fn is_first_at(text: Seq<char>, pattern: Seq<char>, at: int) -> bool {
    &&& occurs_at(text, pattern, at)
    &&& forall|j: int| 0 <= j < at ==> !occurs_at(text, pattern, j)
}

/// The leftmost position of `pattern` in a `text` that holds it.
pub open spec fn first_at(text: Seq<char>, pattern: Seq<char>) -> int {
    choose|at: int| is_first_at(text, pattern, at)
}

/// What precedes the leftmost `pattern`; all of `text` where there is none.
pub open spec fn before_first(text: Seq<char>, pattern: Seq<char>) -> Seq<char> {
    if occurs_in(text, pattern) {
        text.take(first_at(text, pattern))
    } else {
        text
    }
}

/// What follows the leftmost `pattern` in a `text` that holds it.
pub open spec fn after_first(text: Seq<char>, pattern: Seq<char>) -> Seq<char> {
    text.skip(first_at(text, pattern) + pattern.len())
}

/// `text` without the copies of `prefix` that it begins with.
pub open spec fn without_prefixes(text: Seq<char>, prefix: Seq<char>) -> Seq<char>
    decreases text.len(),
{
    if prefix.len() > 0 && begins_with(text, prefix) {
        without_prefixes(text.skip(prefix.len() as int), prefix)
    } else {
        text
    }
}

/// The Unicode property White_Space.
pub open spec fn white_space(c: char) -> bool {
    ||| '\u{9}' <= c <= '\u{d}'
    ||| c == '\u{20}'
    ||| c == '\u{85}'
    ||| c == '\u{a0}'
    ||| c == '\u{1680}'
    ||| '\u{2000}' <= c <= '\u{200a}'
    ||| c == '\u{2028}'
    ||| c == '\u{2029}'
    ||| c == '\u{202f}'
    ||| c == '\u{205f}'
    ||| c == '\u{3000}'
}

/// `char::is_whitespace` tells the characters that have the Unicode property
/// White_Space, which [`white_space`] lists.
pub assume_specification[ char::is_whitespace ](c: char) -> (r: bool)
    ensures
        r == white_space(c),
;

/// `String::push` appends one character at the end.
pub assume_specification[ String::push ](s: &mut String, c: char)
    ensures
        final(s)@ == old(s)@.push(c),
;

/// `text` without the white space at its start.
pub open spec fn trimmed_start(text: Seq<char>) -> Seq<char>
    decreases text.len(),
{
    if text.len() > 0 && white_space(text.first()) {
        trimmed_start(text.drop_first())
    } else {
        text
    }
}

/// `text` without the white space at its end.
pub open spec fn trimmed_end(text: Seq<char>) -> Seq<char>
    decreases text.len(),
{
    if text.len() > 0 && white_space(text.last()) {
        trimmed_end(text.drop_last())
    } else {
        text
    }
}

/// `text` without the white space around it.
pub open spec fn trimmed(text: Seq<char>) -> Seq<char> {
    trimmed_end(trimmed_start(text))
}

/// The pieces of `text` between the characters that `sep` picks: one more than
/// there are such characters, some of them perhaps empty.
pub open spec fn pieces(text: Seq<char>, sep: spec_fn(char) -> bool) -> Seq<Seq<char>>
    decreases text.len(),
{
    if text.len() == 0 {
        seq![Seq::empty()]
    } else {
        let init = pieces(text.drop_last(), sep);
        if sep(text.last()) {
            init.push(Seq::empty())
        } else {
            init.drop_last().push(init.last().push(text.last()))
        }
    }
}

/// There is at least one piece.
pub proof fn lemma_pieces_nonempty(text: Seq<char>, sep: spec_fn(char) -> bool)
    ensures
        pieces(text, sep).len() >= 1,
    decreases text.len(),
{
    if text.len() > 0 {
        lemma_pieces_nonempty(text.drop_last(), sep);
    }
}

/// The rows of `text`, parted by line feeds.
pub open spec fn rows(text: Seq<char>) -> Seq<Seq<char>> {
    pieces(text, |c: char| c == '\n')
}

/// The words of `text`: its longest runs without white space.
pub open spec fn words(text: Seq<char>) -> Seq<Seq<char>> {
    pieces(text, |c: char| white_space(c)).filter(|w: Seq<char>| w.len() > 0)
}

/// The contents of a sequence of strings.
pub open spec fn texts(strings: Seq<String>) -> Seq<Seq<char>> {
    Seq::new(strings.len(), |i: int| strings[i]@)
}

/// The content of an optional string.
pub open spec fn optional_text(s: Option<String>) -> Option<Seq<char>> {
    match s {
        Some(t) => Some(t@),
        None => None,
    }
}

/// `c` is one of the digits `0` to `9`.
pub open spec fn is_digit(c: char) -> bool {
    '0' <= c <= '9'
}

/// Every character of `text` is a digit.
pub open spec fn all_digits(text: Seq<char>) -> bool {
    forall|i: int| 0 <= i < text.len() ==> is_digit(#[trigger] text[i])
}

/// The number that a text of digits stands for.
pub open spec fn digits_value(text: Seq<char>) -> nat
    decreases text.len(),
{
    if text.len() == 0 {
        0
    } else {
        digits_value(text.drop_last()) * 10 + (text.last() as nat - '0' as nat) as nat
    }
}

/// The decimal form of `n`, without leading zeros.
pub open spec fn decimal(n: nat) -> Seq<char>
    decreases n,
{
    if n < 10 {
        seq![('0' as nat + n) as char]
    } else {
        decimal(n / 10).push(('0' as nat + n % 10) as char)
    }
}

/// The port that `text` names: digits, with one `+` allowed before them, whose
/// value a port number can hold.
pub open spec fn port_named(text: Seq<char>) -> Option<u16> {
    let digits = if text.len() > 0 && text[0] == '+' {
        text.drop_first()
    } else {
        text
    };
    if digits.len() > 0 && all_digits(digits) && digits_value(digits) <= u16::MAX {
        Some(digits_value(digits) as u16)
    } else {
        None
    }
}

/// Where a pattern occurs, it has a leftmost occurrence.
pub proof fn lemma_first_at(text: Seq<char>, pattern: Seq<char>)
    requires
        occurs_in(text, pattern),
    ensures
        is_first_at(text, pattern, first_at(text, pattern)),
{
    let at = choose|at: int| occurs_at(text, pattern, at);
    lemma_leftmost(text, pattern, at);
}

proof fn lemma_leftmost(text: Seq<char>, pattern: Seq<char>, at: int)
    requires
        occurs_at(text, pattern, at),
    ensures
        exists|i: int| is_first_at(text, pattern, i),
    decreases at,
{
    if forall|j: int| 0 <= j < at ==> !occurs_at(text, pattern, j) {
        assert(is_first_at(text, pattern, at));
    } else {
        let j = choose|j: int| 0 <= j < at && occurs_at(text, pattern, j);
        lemma_leftmost(text, pattern, j);
    }
}

/// The leftmost occurrence is the only one with nothing before it.
pub proof fn lemma_first_at_is(text: Seq<char>, pattern: Seq<char>, at: int)
    requires
        is_first_at(text, pattern, at),
    ensures
        occurs_in(text, pattern),
        first_at(text, pattern) == at,
{
    lemma_first_at(text, pattern);
    let first = first_at(text, pattern);
    assert(occurs_at(text, pattern, first));
    assert(occurs_at(text, pattern, at));
}

/// The characters of `text`, one by one.
pub fn chars_of(text: &str) -> (r: Vec<char>)
    ensures
        r@ == text@,
{
    let mut r: Vec<char> = Vec::new();
    for c in it: text.chars()
        invariant
            r@ == it.seq().take(it.index()),
            it.seq() == text@,
    {
        r.push(c);
    }
    r
}

/// The string made of the characters of `chars` from `from` up to `to`.
pub fn string_of(chars: &[char], from: usize, to: usize) -> (r: String)
    requires
        from <= to <= chars@.len(),
    ensures
        r@ == chars@.subrange(from as int, to as int),
{
    let mut r: String = String::new();
    let mut i: usize = from;
    while i < to
        invariant
            from <= i <= to <= chars@.len(),
            r@ == chars@.subrange(from as int, i as int),
        decreases to - i,
    {
        r.push(chars[i]);
        i = i + 1;
    }
    r
}

fn is_at(text: &[char], pattern: &[char], at: usize) -> (r: bool)
    requires
        at + pattern@.len() <= text@.len(),
    ensures
        r == occurs_at(text@, pattern@, at as int),
{
    let n: usize = text.len();
    let mut k: usize = 0;
    while k < pattern.len()
        invariant
            n == text@.len(),
            at + pattern@.len() <= n,
            k <= pattern@.len(),
            forall|j: int| 0 <= j < k ==> text@[at + j] == pattern@[j],
        decreases pattern@.len() - k,
    {
        if text[at + k] != pattern[k] {
            assert(text@.subrange(at as int, at + pattern@.len())[k as int] == text@[at + k]);
            return false;
        }
        k = k + 1;
    }
    assert(text@.subrange(at as int, at + pattern@.len()) =~= pattern@);
    true
}

/// The leftmost position at which `pattern` stands in `text`.
pub fn find(text: &[char], pattern: &[char]) -> (r: Option<usize>)
    ensures
        match r {
            Some(at) => is_first_at(text@, pattern@, at as int) && at == first_at(text@, pattern@)
                && occurs_in(text@, pattern@),
            None => !occurs_in(text@, pattern@),
        },
{
    if pattern.len() > text.len() {
        return None;
    }
    let last: usize = text.len() - pattern.len();
    let mut at: usize = 0;
    loop
        invariant
            last == text@.len() - pattern@.len(),
            at <= last,
            forall|j: int| 0 <= j < at ==> !occurs_at(text@, pattern@, j),
        decreases last - at,
    {
        if is_at(text, pattern, at) {
            proof {
                lemma_first_at_is(text@, pattern@, at as int);
            }
            return Some(at);
        }
        if at == last {
            return None;
        }
        at = at + 1;
    }
}

/// Whether `pattern` stands somewhere in `text`.
pub fn contains(text: &str, pattern: &str) -> (r: bool)
    ensures
        r == occurs_in(text@, pattern@),
{
    let t: Vec<char> = chars_of(text);
    let p: Vec<char> = chars_of(pattern);
    match find(t.as_slice(), p.as_slice()) {
        Some(_) => true,
        None => false,
    }
}

/// Whether `text` begins with `pattern`.
pub fn starts_with(text: &str, pattern: &str) -> (r: bool)
    ensures
        r == begins_with(text@, pattern@),
{
    let t: Vec<char> = chars_of(text);
    let p: Vec<char> = chars_of(pattern);
    p.len() <= t.len() && is_at(t.as_slice(), p.as_slice(), 0)
}

/// Whether two texts are the same.
pub fn same_text(a: &str, b: &str) -> (r: bool)
    ensures
        r == (a@ == b@),
{
    let x: Vec<char> = chars_of(a);
    let y: Vec<char> = chars_of(b);
    let same: bool = x.len() == y.len() && is_at(x.as_slice(), y.as_slice(), 0);
    assert(a@.subrange(0, a@.len() as int) == a@);
    same
}

/// `a` followed by `b`.
pub fn joined(a: &str, b: &str) -> (r: String)
    ensures
        r@ == a@ + b@,
{
    let mut r: String = a.to_string();
    r.append(b);
    r
}

/// `a` followed by `b` and `c`.
pub fn joined3(a: &str, b: &str, c: &str) -> (r: String)
    ensures
        r@ == a@ + b@ + c@,
{
    let mut r: String = joined(a, b);
    r.append(c);
    r
}

/// `text` without the copies of `prefix` that it begins with.
pub fn strip_prefixes(text: &str, prefix: &str) -> (r: String)
    ensures
        r@ == without_prefixes(text@, prefix@),
{
    let t: Vec<char> = chars_of(text);
    let p: Vec<char> = chars_of(prefix);
    let n: usize = t.len();
    let mut from: usize = 0;
    assert(text@.skip(0) == text@);
    while p.len() > 0 && p.len() <= n - from && is_at(t.as_slice(), p.as_slice(), from)
        invariant
            t@ == text@,
            p@ == prefix@,
            n == t@.len(),
            from <= n,
            without_prefixes(text@.skip(from as int), prefix@) == without_prefixes(
                text@,
                prefix@,
            ),
        decreases n - from,
    {
        proof {
            let rest = text@.skip(from as int);
            assert(rest.subrange(0, prefix@.len() as int) == text@.subrange(
                from as int,
                from + prefix@.len(),
            ));
            assert(begins_with(rest, prefix@));
            assert(rest.skip(prefix@.len() as int) == text@.skip(from + prefix@.len()));
        }
        from = from + p.len();
    }
    proof {
        let rest = text@.skip(from as int);
        if prefix@.len() > 0 && begins_with(rest, prefix@) {
            assert(rest.subrange(0, prefix@.len() as int) == text@.subrange(
                from as int,
                from + prefix@.len(),
            ));
            assert(occurs_at(text@, prefix@, from as int));
        }
        assert(rest == text@.subrange(from as int, n as int));
    }
    string_of(t.as_slice(), from, n)
}

/// `text` without the white space around it.
pub fn trim(text: &str) -> (r: String)
    ensures
        r@ == trimmed(text@),
{
    let t: Vec<char> = chars_of(text);
    let n: usize = t.len();
    let mut from: usize = 0;
    assert(text@.skip(0) == text@);
    while from < n && t[from].is_whitespace()
        invariant
            t@ == text@,
            n == t@.len(),
            from <= n,
            trimmed_start(text@.skip(from as int)) == trimmed_start(text@),
        decreases n - from,
    {
        assert(text@.skip(from as int).drop_first() == text@.skip(from + 1));
        from = from + 1;
    }
    let ghost start = text@.skip(from as int);
    assert(trimmed_start(text@) == start);
    let mut to: usize = n;
    assert(start.take((to - from) as int) == start);
    while from < to && t[to - 1].is_whitespace()
        invariant
            t@ == text@,
            n == t@.len(),
            from <= to <= n,
            start == text@.skip(from as int),
            trimmed_end(start.take((to - from) as int)) == trimmed_end(start),
        decreases to - from,
    {
        assert(start.take((to - from) as int).drop_last() == start.take((to - 1 - from) as int));
        to = to - 1;
    }
    assert(start.take((to - from) as int) == text@.subrange(from as int, to as int));
    string_of(t.as_slice(), from, to)
}

/// The rows of `text`, parted by line feeds.
pub fn split_rows(text: &str) -> (r: Vec<String>)
    ensures
        texts(r@) == rows(text@),
{
    let ghost sep = |c: char| c == '\n';
    let t: Vec<char> = chars_of(text);
    let mut done: Vec<String> = Vec::new();
    let mut current: String = String::new();
    let mut i: usize = 0;
    while i < t.len()
        invariant
            t@ == text@,
            i <= t@.len(),
            sep == (|c: char| c == '\n'),
            texts(done@).push(current@) == pieces(text@.take(i as int), sep),
        decreases t@.len() - i,
    {
        let c: char = t[i];
        let ghost before = texts(done@).push(current@);
        assert(text@.take(i + 1).drop_last() == text@.take(i as int));
        if c == '\n' {
            done.push(current);
            current = String::new();
            assert(texts(done@).push(current@) == before.push(Seq::empty()));
        } else {
            current.push(c);
            assert(texts(done@).push(current@) == before.drop_last().push(before.last().push(c)));
        }
        i = i + 1;
    }
    assert(text@.take(i as int) == text@);
    let ghost before = texts(done@).push(current@);
    done.push(current);
    assert(texts(done@) == before);
    done
}

/// The words of `text`, parted by white space.
pub fn split_words(text: &str) -> (r: Vec<String>)
    ensures
        texts(r@) == words(text@),
{
    let ghost sep = |c: char| white_space(c);
    let ghost kept = |w: Seq<char>| w.len() > 0;
    let t: Vec<char> = chars_of(text);
    let mut done: Vec<String> = Vec::new();
    let mut current: String = String::new();
    let ghost mut past: Seq<Seq<char>> = Seq::empty();
    let mut i: usize = 0;
    assert(texts(done@) == past.filter(kept)) by {
        reveal(Seq::filter);
    }
    while i < t.len()
        invariant
            t@ == text@,
            i <= t@.len(),
            sep == (|c: char| white_space(c)),
            kept == (|w: Seq<char>| w.len() > 0),
            past.push(current@) == pieces(text@.take(i as int), sep),
            texts(done@) == past.filter(kept),
        decreases t@.len() - i,
    {
        let c: char = t[i];
        let ghost before = past.push(current@);
        assert(text@.take(i + 1).drop_last() == text@.take(i as int));
        if c.is_whitespace() {
            proof {
                past.lemma_filter_push(current@, kept);
                past = before;
            }
            let ghost kept_before = texts(done@);
            if !current.as_str().is_empty() {
                let ghost word = current@;
                done.push(current);
                assert(texts(done@) == kept_before.push(word));
            }
            current = String::new();
        } else {
            current.push(c);
            assert(past.push(current@) == before.drop_last().push(before.last().push(c)));
        }
        i = i + 1;
    }
    assert(text@.take(i as int) == text@);
    proof {
        past.lemma_filter_push(current@, kept);
    }
    let ghost kept_before = texts(done@);
    if !current.as_str().is_empty() {
        let ghost word = current@;
        done.push(current);
        assert(texts(done@) == kept_before.push(word));
    }
    done
}

/// The decimal form of a port number.
pub fn port_text(port: u16) -> (r: String)
    ensures
        r@ == decimal(port as nat),
    decreases port,
{
    let mut r: String = if port < 10 {
        String::new()
    } else {
        port_text(port / 10)
    };
    let digit: u8 = 48 + (port % 10) as u8;
    r.push(digit as char);
    assert(r@ == decimal(port as nat));
    r
}

/// The port that `text` names, if it names one.
pub fn parse_port(text: &str) -> (r: Option<u16>)
    ensures
        r == port_named(text@),
{
    let t: Vec<char> = chars_of(text);
    let n: usize = t.len();
    let from: usize = if n > 0 && t[0] == '+' {
        1
    } else {
        0
    };
    let ghost digits = text@.skip(from as int);
    assert(from == 0 ==> digits == text@);
    assert(from == 1 ==> digits == text@.drop_first());
    if from == n {
        return None;
    }
    let mut value: u32 = 0;
    let mut i: usize = from;
    while i < n
        invariant
            t@ == text@,
            n == t@.len(),
            from <= i <= n,
            digits == text@.skip(from as int),
            digits == (if text@.len() > 0 && text@[0] == '+' {
                text@.drop_first()
            } else {
                text@
            }),
            all_digits(digits.take((i - from) as int)),
            digits_value(digits.take((i - from) as int)) <= u16::MAX ==> value == digits_value(
                digits.take((i - from) as int),
            ),
            digits_value(digits.take((i - from) as int)) > u16::MAX ==> value == 65536,
            value <= 65536,
        decreases n - i,
    {
        let c: char = t[i];
        let ghost done = digits.take((i - from) as int);
        let ghost more = digits.take((i + 1 - from) as int);
        assert(digits[i - from] == c);
        assert(more.drop_last() == done && more.last() == c);
        if !('0' <= c && c <= '9') {
            assert(!is_digit(digits[i - from]));
            return None;
        }
        let digit: u32 = c as u32 - 48;
        value = value * 10 + digit;
        if value > 65535 {
            value = 65536;
        }
        i = i + 1;
    }
    assert(digits.take((n - from) as int) == digits);
    if value <= 65535 {
        Some(value as u16)
    } else {
        None
    }
}

/// The decimal form consists of digits and reads back as the number.
pub proof fn decimal_reads_back(n: nat)
    ensures
        decimal(n).len() > 0,
        all_digits(decimal(n)),
        digits_value(decimal(n)) == n,
    decreases n,
{
    if n < 10 {
        let d = decimal(n);
        assert(d.drop_last() == Seq::<char>::empty());
        assert(digits_value(d.drop_last()) == 0);
    } else {
        decimal_reads_back(n / 10);
        assert(decimal(n).drop_last() == decimal(n / 10));
    }
}

/// A port's decimal form names that port.
pub proof fn port_text_reads_back(port: u16)
    ensures
        port_named(decimal(port as nat)) == Some(port),
{
    decimal_reads_back(port as nat);
    assert(is_digit(decimal(port as nat)[0]));
}

/// What stands in a part of a text stands in the text.
pub proof fn occurrence_is_transitive(text: Seq<char>, part: Seq<char>, pattern: Seq<char>)
    requires
        occurs_in(text, part),
        occurs_in(part, pattern),
    ensures
        occurs_in(text, pattern),
{
    let i = choose|i: int| occurs_at(text, part, i);
    let j = choose|j: int| occurs_at(part, pattern, j);
    assert(text.subrange(i + j, i + j + pattern.len()) =~= part.subrange(j, j + pattern.len()));
    assert(occurs_at(text, pattern, i + j));
}

/// Taking prefixes off leaves a part of the text.
pub proof fn stripped_text_occurs(text: Seq<char>, prefix: Seq<char>)
    ensures
        occurs_in(text, without_prefixes(text, prefix)),
    decreases text.len(),
{
    if prefix.len() > 0 && begins_with(text, prefix) {
        let rest = text.skip(prefix.len() as int);
        stripped_text_occurs(rest, prefix);
        assert(text.subrange(prefix.len() as int, text.len() as int) =~= rest);
        assert(occurs_at(text, rest, prefix.len() as int));
        occurrence_is_transitive(text, rest, without_prefixes(text, prefix));
    } else {
        assert(text.subrange(0, text.len() as int) =~= text);
        assert(occurs_at(text, text, 0));
    }
}

/// No piece holds a character that parts the pieces.
pub proof fn pieces_hold_no_separator(text: Seq<char>, sep: spec_fn(char) -> bool)
    ensures
        forall|i: int, j: int|
            0 <= i < pieces(text, sep).len() && 0 <= j < pieces(text, sep)[i].len() ==> !sep(
                #[trigger] pieces(text, sep)[i][j],
            ),
    decreases text.len(),
{
    if text.len() > 0 {
        let init = pieces(text.drop_last(), sep);
        let all = pieces(text, sep);
        pieces_hold_no_separator(text.drop_last(), sep);
        lemma_pieces_nonempty(text.drop_last(), sep);
        assert forall|i: int, j: int| 0 <= i < all.len() && 0 <= j < all[i].len() implies !sep(
            #[trigger] all[i][j],
        ) by {
            if i < init.len() - 1 || (i < init.len() && j < init[i].len()) {
                assert(all[i][j] == init[i][j]);
            }
        }
    }
}

/// A word is not empty and holds no white space.
pub proof fn words_hold_no_white_space(text: Seq<char>, i: int)
    requires
        0 <= i < words(text).len(),
    ensures
        words(text)[i].len() > 0,
        forall|j: int| 0 <= j < words(text)[i].len() ==> !white_space(#[trigger] words(text)[i][j]),
{
    let sep = |c: char| white_space(c);
    let kept = |w: Seq<char>| w.len() > 0;
    let all = pieces(text, sep);
    let word = words(text)[i];
    pieces_hold_no_separator(text, sep);
    assert(words(text) == all.filter(kept));
    all.lemma_filter_pred(kept, i);
    all.lemma_filter_contains_rev(kept, word);
    let k = choose|k: int| 0 <= k < all.len() && all[k] == word;
    assert forall|j: int| 0 <= j < word.len() implies !white_space(#[trigger] word[j]) by {
        assert(!sep(all[k][j]));
    }
}

/// A pattern stands in a text exactly where the text is some text, the pattern,
/// and some text again.
pub proof fn occurrence_parts_text(text: Seq<char>, pattern: Seq<char>)
    ensures
        occurs_in(text, pattern) <==> exists|k: int|
            0 <= k <= text.len() - pattern.len() && #[trigger] text.subrange(k, k + pattern.len())
                == pattern,
        occurs_in(text, pattern) <==> exists|a: Seq<char>, b: Seq<char>|
            text == #[trigger] (a + pattern + b),
{
    if occurs_in(text, pattern) {
        let k = choose|k: int| occurs_at(text, pattern, k);
        let a = text.take(k);
        let b = text.skip(k + pattern.len());
        assert(text.subrange(k, k + pattern.len()) == pattern);
        assert(text =~= a + pattern + b);
    }
    if exists|k: int|
        0 <= k <= text.len() - pattern.len() && #[trigger] text.subrange(k, k + pattern.len())
            == pattern {
        let k = choose|k: int|
            0 <= k <= text.len() - pattern.len() && #[trigger] text.subrange(k, k + pattern.len())
                == pattern;
        assert(occurs_at(text, pattern, k));
    }
    if exists|a: Seq<char>, b: Seq<char>| text == #[trigger] (a + pattern + b) {
        let (a, b) = choose|a: Seq<char>, b: Seq<char>| text == #[trigger] (a + pattern + b);
        let k = a.len() as int;
        assert(text.subrange(k, k + pattern.len()) =~= pattern);
        assert(occurs_at(text, pattern, k));
    }
}

/// A text begins with a pattern exactly where it is the pattern and some more.
pub proof fn beginning_parts_text(text: Seq<char>, pattern: Seq<char>)
    ensures
        begins_with(text, pattern) <==> exists|rest: Seq<char>| text == #[trigger] (pattern + rest),
{
    if begins_with(text, pattern) {
        assert(text =~= pattern + text.skip(pattern.len() as int));
    }
    if exists|rest: Seq<char>| text == #[trigger] (pattern + rest) {
        let rest = choose|rest: Seq<char>| text == #[trigger] (pattern + rest);
        assert(text.subrange(0, pattern.len() as int) =~= pattern);
    }
}

/// The leftmost occurrence of a pattern parts a text into what precedes it, the
/// pattern and what follows it, and no occurrence ends before that one does. A text
/// without the pattern is left whole.
pub proof fn first_occurrence_parts_text(text: Seq<char>, pattern: Seq<char>)
    requires
        pattern.len() > 0,
    ensures
        occurs_in(text, pattern) ==> {
            let before = before_first(text, pattern);
            &&& text == before + pattern + after_first(text, pattern)
            &&& !occurs_in((before + pattern).drop_last(), pattern)
        },
        !occurs_in(text, pattern) ==> before_first(text, pattern) == text,
{
    if occurs_in(text, pattern) {
        lemma_first_at(text, pattern);
        let at = first_at(text, pattern);
        let before = before_first(text, pattern);
        assert(text.subrange(at, at + pattern.len()) == pattern);
        assert(text =~= before + pattern + after_first(text, pattern));
        let short = (before + pattern).drop_last();
        if occurs_in(short, pattern) {
            let k = choose|k: int| occurs_at(short, pattern, k);
            assert(text.subrange(k, k + pattern.len()) =~= short.subrange(k, k + pattern.len()));
            assert(occurs_at(text, pattern, k));
            assert(k < at);
        }
    }
}

/// What is taken off the start of a text is whole copies of the prefix, as many as
/// there are.
pub proof fn stripping_takes_copies(text: Seq<char>, prefix: Seq<char>)
    requires
        prefix.len() > 0,
    ensures
        ({
            let rest = without_prefixes(text, prefix);
            let cut = text.len() - rest.len();
            &&& 0 <= cut
            &&& cut % prefix.len() as int == 0
            &&& rest == text.skip(cut)
            &&& forall|i: int| 0 <= i < cut ==> #[trigger] text[i] == prefix[i % prefix.len() as int]
            &&& forall|more: Seq<char>| rest != #[trigger] (prefix + more)
        }),
    decreases text.len(),
{
    let n = prefix.len() as int;
    let rest = without_prefixes(text, prefix);
    let cut = text.len() - rest.len();
    if begins_with(text, prefix) {
        let tail = text.skip(n);
        stripping_takes_copies(tail, prefix);
        let inner = cut - n;
        assert(rest == tail.skip(inner));
        assert(text.skip(cut) =~= tail.skip(inner));
        assert(cut % n == 0) by {
            vstd::arithmetic::div_mod::lemma_mod_add_multiples_vanish(inner, n);
        }
        assert forall|i: int| 0 <= i < cut implies #[trigger] text[i] == prefix[i % n] by {
            if i < n {
                assert(text.subrange(0, n)[i] == text[i]);
                vstd::arithmetic::div_mod::lemma_small_mod(i as nat, n as nat);
            } else {
                assert(text[i] == tail[i - n]);
                vstd::arithmetic::div_mod::lemma_mod_add_multiples_vanish(i - n, n);
            }
        }
    } else {
        assert(text.skip(0) =~= text);
        beginning_parts_text(text, prefix);
        vstd::arithmetic::div_mod::lemma_small_mod(0, n as nat);
    }
}

/// The white space characters, by their numbers.
pub proof fn white_space_by_number(c: char)
    ensures
        white_space(c) <==> {
            let n = c as u32;
            9 <= n <= 13 || n == 32 || n == 133 || n == 160 || n == 5760 || 8192 <= n <= 8202 || n
                == 8232 || n == 8233 || n == 8239 || n == 8287 || n == 12288
        },
{
}

proof fn lemma_trimmed_start_part(text: Seq<char>)
    ensures
        ({
            let rest = trimmed_start(text);
            let from = text.len() - rest.len();
            &&& 0 <= from
            &&& rest == text.skip(from)
            &&& forall|i: int| 0 <= i < from ==> white_space(#[trigger] text[i])
            &&& rest.len() > 0 ==> !white_space(rest[0])
        }),
    decreases text.len(),
{
    if text.len() > 0 && white_space(text.first()) {
        let tail = text.drop_first();
        lemma_trimmed_start_part(tail);
        let from = text.len() - trimmed_start(text).len();
        assert(text.skip(from) =~= tail.skip(from - 1));
        assert forall|i: int| 0 <= i < from implies white_space(#[trigger] text[i]) by {
            if i > 0 {
                assert(tail[i - 1] == text[i]);
            }
        }
    } else {
        assert(text.skip(0) =~= text);
    }
}

proof fn lemma_trimmed_end_part(text: Seq<char>)
    ensures
        ({
            let rest = trimmed_end(text);
            &&& rest.len() <= text.len()
            &&& rest == text.take(rest.len() as int)
            &&& forall|i: int| rest.len() <= i < text.len() ==> white_space(#[trigger] text[i])
            &&& rest.len() > 0 ==> !white_space(rest[rest.len() - 1])
        }),
    decreases text.len(),
{
    if text.len() > 0 && white_space(text.last()) {
        let init = text.drop_last();
        lemma_trimmed_end_part(init);
        let rest = trimmed_end(text);
        assert(text.take(rest.len() as int) =~= init.take(rest.len() as int));
        assert forall|i: int| rest.len() <= i < text.len() implies white_space(#[trigger] text[i]) by {
            if i < init.len() {
                assert(init[i] == text[i]);
            }
        }
    } else {
        assert(text.take(text.len() as int) =~= text);
    }
}

/// What trimming leaves is a part of the text with white space alone before and
/// after it, and with none at either end.
pub proof fn trimming_takes_white_space(text: Seq<char>)
    ensures
        exists|from: int, to: int|
            0 <= from <= to <= text.len() && trimmed(text) == #[trigger] text.subrange(from, to)
                && (forall|i: int| 0 <= i < from ==> white_space(#[trigger] text[i])) && (forall|
                i: int,
            |
                to <= i < text.len() ==> white_space(#[trigger] text[i])) && (from < to ==> !white_space(
                text[from],
            ) && !white_space(text[to - 1])),
{
    let start = trimmed_start(text);
    lemma_trimmed_start_part(text);
    lemma_trimmed_end_part(start);
    let core = trimmed(text);
    let from = text.len() - start.len();
    let to = from + core.len();
    assert(core =~= text.subrange(from, to));
    assert forall|i: int| to <= i < text.len() implies white_space(#[trigger] text[i]) by {
        assert(start[i - from] == text[i]);
    }
    assert(core == text.subrange(from, to));
    if from < to {
        assert(core[0] == start[0] && start[0] == text[from]);
        assert(core[core.len() - 1] == text[to - 1]);
    }
}

proof fn lemma_pieces_split(a: Seq<char>, c: char, b: Seq<char>, sep: spec_fn(char) -> bool)
    requires
        sep(c),
    ensures
        pieces(a.push(c) + b, sep) == pieces(a, sep) + pieces(b, sep),
    decreases b.len(),
{
    let text = a.push(c) + b;
    if b.len() == 0 {
        assert(text =~= a.push(c));
        assert(text.drop_last() =~= a);
        assert(pieces(text, sep) =~= pieces(a, sep) + pieces(b, sep));
    } else {
        let init = b.drop_last();
        lemma_pieces_split(a, c, init, sep);
        lemma_pieces_nonempty(init, sep);
        assert(text.drop_last() =~= a.push(c) + init);
        assert(text.last() == b.last());
        assert(pieces(text, sep) =~= pieces(a, sep) + pieces(b, sep));
    }
}

proof fn lemma_pieces_whole(text: Seq<char>, sep: spec_fn(char) -> bool)
    requires
        forall|i: int| 0 <= i < text.len() ==> !sep(#[trigger] text[i]),
    ensures
        pieces(text, sep) == seq![text],
    decreases text.len(),
{
    if text.len() == 0 {
        assert(text =~= Seq::empty());
    } else {
        let init = text.drop_last();
        assert forall|i: int| 0 <= i < init.len() implies !sep(#[trigger] init[i]) by {
            assert(init[i] == text[i]);
        }
        lemma_pieces_whole(init, sep);
        assert(!sep(text[text.len() - 1]));
        assert(init.push(text.last()) =~= text);
        assert(pieces(text, sep) =~= seq![text]);
    }
}

/// A line feed parts the rows before it from the rows after it; what holds no line
/// feed is one row.
pub proof fn rows_part_at_line_feeds(a: Seq<char>, b: Seq<char>)
    ensures
        rows(a.push('\n') + b) == rows(a) + rows(b),
        (forall|i: int| 0 <= i < a.len() ==> #[trigger] a[i] != '\n') ==> rows(a) == seq![a],
{
    let sep = |c: char| c == '\n';
    lemma_pieces_split(a, '\n', b, sep);
    if forall|i: int| 0 <= i < a.len() ==> #[trigger] a[i] != '\n' {
        lemma_pieces_whole(a, sep);
    }
}

/// White space parts the words before it from the words after it; what holds none
/// is one word, unless it is empty.
pub proof fn words_part_at_white_space(a: Seq<char>, c: char, b: Seq<char>)
    ensures
        white_space(c) ==> words(a.push(c) + b) == words(a) + words(b),
        (forall|i: int| 0 <= i < a.len() ==> !white_space(#[trigger] a[i])) ==> words(a) == if a.len()
            == 0 {
            seq![]
        } else {
            seq![a]
        },
{
    let sep = |c: char| white_space(c);
    let kept = |w: Seq<char>| w.len() > 0;
    if white_space(c) {
        lemma_pieces_split(a, c, b, sep);
        Seq::filter_distributes_over_add(pieces(a, sep), pieces(b, sep), kept);
    }
    if forall|i: int| 0 <= i < a.len() ==> !white_space(#[trigger] a[i]) {
        lemma_pieces_whole(a, sep);
        reveal(Seq::filter);
        let none = Seq::<Seq<char>>::empty();
        assert(seq![a] =~= none.push(a));
        none.lemma_filter_push(a, kept);
        assert(none.filter(kept) =~= none);
        assert(words(a) =~= if a.len() == 0 {
            seq![]
        } else {
            seq![a]
        });
    }
}

/// The decimal form of a number of up to five digits, digit by digit.
pub proof fn decimal_by_digits(n: nat)
    requires
        n < 100_000,
    ensures
        ({
            let d = decimal(n);
            let k = d.len() as int;
            &&& k == if n < 10 {
                1
            } else if n < 100 {
                2int
            } else if n < 1000 {
                3
            } else if n < 10_000 {
                4
            } else {
                5
            }
            &&& d[k - 1] as nat == 48 + n % 10
            &&& n >= 10 ==> d[k - 2] as nat == 48 + n / 10 % 10
            &&& n >= 100 ==> d[k - 3] as nat == 48 + n / 100 % 10
            &&& n >= 1000 ==> d[k - 4] as nat == 48 + n / 1000 % 10
            &&& n >= 10_000 ==> d[k - 5] as nat == 48 + n / 10_000
        }),
{
    reveal_with_fuel(decimal, 5);
    assert(n / 10 / 10 == n / 100);
    assert(n / 100 / 10 == n / 1000);
    assert(n / 1000 / 10 == n / 10_000);
    if n >= 10 {
        assert(decimal(n) == decimal(n / 10).push(('0' as nat + n % 10) as char));
    }
    if n >= 100 {
        assert(decimal(n / 10) == decimal(n / 100).push(('0' as nat + n / 10 % 10) as char));
    }
    if n >= 1000 {
        assert(decimal(n / 100) == decimal(n / 1000).push(('0' as nat + n / 100 % 10) as char));
    }
    if n >= 10_000 {
        assert(decimal(n / 1000) == decimal(n / 10_000).push(('0' as nat + n / 1000 % 10) as char));
        assert(decimal(n / 10_000) == seq![('0' as nat + n / 10_000) as char]);
    }
}

/// A row of zeros.
pub open spec fn zeros(n: nat) -> Seq<char> {
    Seq::new(n, |i: int| '0')
}

proof fn lemma_zeros_add_nothing(n: nat, digits: Seq<char>)
    ensures
        digits_value(zeros(n) + digits) == digits_value(digits),
    decreases n + digits.len(),
{
    let text = zeros(n) + digits;
    if digits.len() > 0 {
        assert(text.drop_last() =~= zeros(n) + digits.drop_last());
        assert(text.last() == digits.last());
        lemma_zeros_add_nothing(n, digits.drop_last());
    } else if n > 0 {
        let fewer = (n - 1) as nat;
        assert(text.drop_last() =~= zeros(fewer) + digits);
        assert(text.last() == '0');
        lemma_zeros_add_nothing(fewer, digits);
    } else {
        assert(text =~= digits);
    }
}

proof fn lemma_digits_are_zeros_and_decimal(text: Seq<char>) -> (n: nat)
    requires
        text.len() > 0,
        all_digits(text),
    ensures
        text == zeros(n) + decimal(digits_value(text)),
    decreases text.len(),
{
    let init = text.drop_last();
    let value = digits_value(text);
    let c = text.last();
    assert(is_digit(text[text.len() - 1]));
    let d = (c as nat - '0' as nat) as nat;
    assert(('0' as nat + d) as char == c);
    if init.len() == 0 {
        assert(digits_value(init) == 0);
        assert(text =~= zeros(0) + decimal(value));
        0
    } else {
        assert forall|i: int| 0 <= i < init.len() implies is_digit(#[trigger] init[i]) by {
            assert(init[i] == text[i]);
        }
        let n = lemma_digits_are_zeros_and_decimal(init);
        let before = digits_value(init);
        assert(value == before * 10 + d);
        assert(text == init.push(c));
        let lead = zeros(n);
        if before > 0 {
            assert(value / 10 == before && value % 10 == d);
            assert(decimal(value) == decimal(before).push(c));
            assert((lead + decimal(before)).push(c) =~= lead + decimal(before).push(c));
            n
        } else {
            assert(decimal(before) =~= seq!['0']);
            assert(lead + seq!['0'] =~= zeros(n + 1));
            assert(decimal(value) =~= seq![c]);
            assert((lead + seq!['0']).push(c) =~= zeros(n + 1) + seq![c]);
            n + 1
        }
    }
}

/// A text names a port exactly where it is the port's decimal form, with any
/// number of zeros before it and perhaps a `+` before them.
pub proof fn port_is_named_by_decimal(text: Seq<char>, port: u16)
    ensures
        port_named(text) == Some(port) <==> exists|n: nat|
            text == #[trigger] zeros(n) + decimal(port as nat) || text == seq!['+'] + zeros(n)
                + decimal(port as nat),
{
    let d = decimal(port as nat);
    decimal_reads_back(port as nat);
    if port_named(text) == Some(port) {
        if text[0] == '+' {
            let digits = text.drop_first();
            let n = lemma_digits_are_zeros_and_decimal(digits);
            assert(digits_value(digits) == port as nat);
            assert(text =~= seq!['+'] + digits);
            assert(seq!['+'] + digits =~= seq!['+'] + zeros(n) + d);
        } else {
            let n = lemma_digits_are_zeros_and_decimal(text);
            assert(digits_value(text) == port as nat);
            assert(text == zeros(n) + d);
        }
    }
    if exists|n: nat| text == #[trigger] zeros(n) + d || text == seq!['+'] + zeros(n) + d {
        let n = choose|n: nat|
            text == #[trigger] zeros(n) + d || text == seq!['+'] + zeros(n) + d;
        let digits = zeros(n) + d;
        lemma_zeros_add_nothing(n, d);
        assert(all_digits(digits)) by {
            assert forall|i: int| 0 <= i < digits.len() implies is_digit(#[trigger] digits[i]) by {
                if i >= n {
                    assert(digits[i] == d[i - n]);
                }
            }
        }
        assert(digits.len() > 0);
        assert(is_digit(digits[0]));
        if text == seq!['+'] + zeros(n) + d {
            assert(text.drop_first() =~= digits);
            assert(text[0] == '+');
        }
        assert(text != digits ==> text[0] == '+');
    }
}

/// The value of a text of digits: each digit counts ten times what it would one
/// place further right.
pub proof fn digits_count_by_place(text: Seq<char>, c: char)
    ensures
        digits_value(Seq::empty()) == 0,
        is_digit(c) <==> 48 <= c as u32 <= 57,
        is_digit(c) ==> digits_value(text.push(c)) == 10 * digits_value(text) + (c as u32 - 48),
{
    assert(text.push(c).drop_last() =~= text);
}

} // verus!
