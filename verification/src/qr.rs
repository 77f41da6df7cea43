//! A QR symbol as half-block characters, two module rows to a line of text.

use crate::text::{joined, texts};
use vstd::prelude::*;
use vstd::utf8::{encode_utf8, is_ascii_chars, is_ascii_chars_encode_utf8};

verus! {

/// Light modules kept free around the symbol, on each side.
pub const BORDER: usize = 2;

/// Whether the module at `row`, `col` is dark; what lies around the symbol is
/// light.
pub open spec fn dark(width: nat, modules: Seq<bool>, row: int, col: int) -> bool {
    0 <= row < width && 0 <= col < width && modules[row * width + col]
}

/// The character for two modules, one above the other. A light module shows in
/// the foreground colour, a dark one is left to the background.
pub open spec fn glyph(top_dark: bool, bottom_dark: bool) -> char {
    match (top_dark, bottom_dark) {
        (true, true) => ' ',
        (true, false) => '▄',
        (false, true) => '▀',
        (false, false) => '█',
    }
}

/// The upper half of a glyph shows in the foreground colour.
pub open spec fn lit_above(c: char) -> bool {
    c == '▀' || c == '█'
}

/// The lower half of a glyph shows in the foreground colour.
pub open spec fn lit_below(c: char) -> bool {
    c == '▄' || c == '█'
}

/// Lines of text that a symbol with its border takes: two module rows share a
/// line, and an odd last row has one of its own.
pub open spec fn line_count(width: nat) -> nat {
    (width + 2 * BORDER + 1) as nat / 2
}

/// Line `line` of the picture of a symbol.
pub open spec fn picture_line(width: nat, modules: Seq<bool>, line: int) -> Seq<char> {
    Seq::new(
        (width + 2 * BORDER) as nat,
        |i: int|
            glyph(
                dark(width, modules, 2 * line - BORDER, i - BORDER),
                dark(width, modules, 2 * line + 1 - BORDER, i - BORDER),
            ),
    )
}

/// The picture of a symbol, line by line.
pub open spec fn picture(width: nat, modules: Seq<bool>) -> Seq<Seq<char>> {
    Seq::new(line_count(width), |line: int| picture_line(width, modules, line))
}

/// Modules a side of the widest symbol that is displayed.
pub const MAX_WIDTH: usize = 69;

/// Bytes of text that always fit into a symbol of [`MAX_WIDTH`].
pub const SHORT_TEXT: usize = 213;

/// Characters of one kind that always fit into a symbol of [`MAX_WIDTH`].
pub const SHORT_RUN: usize = 331;

/// Bytes of text beyond which no symbol is large enough.
pub const LARGEST_TEXT: usize = 5596;

/// Characters other than alphanumeric ones beyond which no symbol is large enough.
pub const MOST_OTHERS: usize = 2872;

/// The same for a text of ASCII characters.
pub const MOST_ASCII_OTHERS: usize = 2331;

/// A decimal digit.
pub open spec fn digit(c: char) -> bool {
    '0' <= c <= '9'
}

/// A character of the alphanumeric mode of QR codes.
pub open spec fn alphanumeric(c: char) -> bool {
    ||| digit(c)
    ||| 'A' <= c <= 'Z'
    ||| c == ' ' || c == '$' || c == '%' || c == '*' || c == '+'
    ||| c == '-' || c == '.' || c == '/' || c == ':'
}

/// How many characters of `data` are not alphanumeric.
pub open spec fn others(data: Seq<char>) -> nat {
    data.filter(|c: char| !alphanumeric(c)).len()
}

/// `data` is ASCII and all digits, all other alphanumeric characters, or none of
/// them alphanumeric.
pub open spec fn one_kind(data: Seq<char>) -> bool {
    &&& is_ascii_chars(data)
    &&& {
        ||| forall|i: int| 0 <= i < data.len() ==> digit(#[trigger] data[i])
        ||| forall|i: int|
            0 <= i < data.len() ==> alphanumeric(#[trigger] data[i]) && !digit(data[i])
        ||| forall|i: int| 0 <= i < data.len() ==> !alphanumeric(#[trigger] data[i])
    }
}

/// `data` is so short that its symbol is no wider than [`MAX_WIDTH`].
pub open spec fn short_text(data: Seq<char>) -> bool {
    ||| encode_utf8(data).len() <= SHORT_TEXT
    ||| one_kind(data) && data.len() <= SHORT_RUN
}

/// `data` is so long that no symbol holds it.
pub open spec fn overlong_text(data: Seq<char>) -> bool {
    ||| encode_utf8(data).len() > LARGEST_TEXT
    ||| others(data) > MOST_OTHERS
    ||| is_ascii_chars(data) && others(data) > MOST_ASCII_OTHERS
}

/// The bits of `data` can be counted without overflow.
pub open spec fn countable(data: Seq<char>) -> bool {
    encode_utf8(data).len() * 128 <= usize::MAX
}

/// What the length of `data` tells of the width of its symbol, or of the reason
/// why there is none.
pub open spec fn width_follows(data: Seq<char>, width: Result<nat, Seq<char>>) -> bool {
    match width {
        Ok(width) => !overlong_text(data) && (short_text(data) ==> width <= MAX_WIDTH),
        Err(reason) => !short_text(data) && reason == "data too long"@,
    }
}

/// `data` has no symbol, or one that is no wider than [`MAX_WIDTH`]. Both can
/// often be told from its length.
pub open spec fn displayable(data: Seq<char>) -> bool {
    &&& countable(data)
    &&& {
        ||| short_text(data)
        ||| overlong_text(data)
        ||| qr_width(data) is Err
        ||| qr_width(data)->Ok_0 <= MAX_WIDTH
    }
}

/// The width of the smallest symbol that holds `data`, or the reason why none
/// does.
pub uninterp spec fn qr_width(data: Seq<char>) -> Result<nat, Seq<char>>;

/// What encoding `data` gives: the symbol's width and its modules row by row,
/// true for a dark one, or the reason why there is none.
pub uninterp spec fn qr_symbol(data: Seq<char>) -> Result<(nat, Seq<bool>), Seq<char>>;

/// `qrcode::bits::encode_auto` turns the UTF-8 form of `data` into the bits of the
/// smallest symbol of level M that holds them; the width of that symbol comes back,
/// or the error as its own text. Both depend on `data` alone. The only error is
/// that the data is too long.
///
/// What is claimed of the length of `data` follows from the bits that its parts
/// take. Up to [`SHORT_TEXT`] bytes take at most 2671 bits. A text of one kind is
/// one part, and takes at most 20 bits and 8 for each character. A symbol of
/// [`MAX_WIDTH`] holds 2672 bits, the largest symbol 18672. There a character
/// takes at least a third of 10 bits and its part 16 more. One that is not
/// alphanumeric takes 8 bits, and its part 20 more, unless its bytes can be read as
/// Shift JIS, two in 13 bits, of which the first is never ASCII.
#[verifier::external_body]
fn symbol_width(data: &str) -> (r: Result<usize, String>)
    requires
        countable(data@),
    ensures
        match r {
            Ok(width) => qr_width(data@) == Ok::<nat, Seq<char>>(width as nat) && width_follows(
                data@,
                Ok(width as nat),
            ),
            Err(reason) => qr_width(data@) == Err::<nat, Seq<char>>(reason@) && width_follows(
                data@,
                Err(reason@),
            ),
        },
{
    match qrcode::bits::encode_auto(data.as_bytes(), qrcode::EcLevel::M) {
        Ok(bits) => Ok(bits.version().width() as usize),
        Err(error) => Err(error.to_string()),
    }
}

/// `qrcode::QrCode::new` encodes the UTF-8 form of `data`. The symbol comes
/// back as its width and its colours, the error as its own text. Which symbol
/// or error it is depends on `data` alone, and a symbol is a square. Its bits are
/// those of `qrcode::bits::encode_auto` at level M, so the width and the error are
/// the ones that [`symbol_width`] tells, with the same claims.
///
/// The crate rates eight masks by adding up 16-bit scores. On a large symbol
/// nothing keeps the sum in range, and where overflow is checked it then panics.
/// On a symbol of up to [`MAX_WIDTH`] the scores add up to less than 60000, and
/// a text without a symbol is refused before any mask is rated. The other texts
/// are left out.
#[verifier::external_body]
fn encode(data: &str) -> (r: Result<(usize, Vec<bool>), String>)
    requires
        displayable(data@),
    ensures
        match r {
            Ok((width, modules)) => qr_symbol(data@) == Ok::<(nat, Seq<bool>), Seq<char>>(
                (width as nat, modules@),
            ) && modules@.len() == width * width && qr_width(data@) == Ok::<nat, Seq<char>>(
                width as nat,
            ) && width_follows(data@, Ok(width as nat)),
            Err(reason) => qr_symbol(data@) == Err::<(nat, Seq<bool>), Seq<char>>(reason@)
                && qr_width(data@) == Err::<nat, Seq<char>>(reason@) && width_follows(
                data@,
                Err(reason@),
            ),
        },
{
    match qrcode::QrCode::new(data) {
        Ok(code) => {
            let colors = code.to_colors();
            let modules = colors.into_iter().map(|c| c == qrcode::Color::Dark).collect();
            Ok((code.width(), modules))
        },
        Err(error) => Err(error.to_string()),
    }
}

/// Whether [`display_qr_code`] takes `data`.
pub fn can_display(data: &str) -> (r: bool)
    ensures
        r == displayable(data@),
{
    let count: usize = data.as_bytes().len();
    if count > usize::MAX / 128 {
        return false;
    }
    match symbol_width(data) {
        Ok(width) => width <= MAX_WIDTH,
        Err(_) => true,
    }
}

/// `r` is the picture of the symbol for `data`, or the line that reports why there
/// is none. There is one exactly where a symbol holds the text: always for a short
/// text, never for an overlong one. The one reason is that the data is too long.
pub open spec fn is_display(data: Seq<char>, r: Result<Vec<String>, String>) -> bool {
    &&& match qr_symbol(data) {
        Ok((width, modules)) => {
            &&& qr_width(data) == Ok::<nat, Seq<char>>(width)
            &&& modules.len() == width * width
            &&& r matches Ok(lines) && texts(lines@) == picture(width, modules)
        },
        Err(reason) => {
            &&& qr_width(data) == Err::<nat, Seq<char>>(reason)
            &&& reason == "data too long"@
            &&& r matches Err(line) && line@ == "Failed to generate QR code: "@ + reason
        },
    }
    &&& short_text(data) ==> r is Ok
    &&& overlong_text(data) ==> r is Err
}

/// The picture of the QR symbol for `data`, line by line, or the line that
/// reports why there is none.
pub fn display_qr_code(data: &str) -> (r: Result<Vec<String>, String>)
    requires
        displayable(data@),
    ensures
        is_display(data@, r),
{
    match encode(data) {
        Ok((width, modules)) => Ok(render(width, modules.as_slice())),
        Err(reason) => Err(joined("Failed to generate QR code: ", reason.as_str())),
    }
}

/// The same for any text; none where the symbol is too wide.
pub fn try_display_qr_code(data: &str) -> (r: Option<Result<Vec<String>, String>>)
    ensures
        match r {
            Some(outcome) => displayable(data@) && is_display(data@, outcome),
            None => !displayable(data@),
        },
{
    if can_display(data) {
        Some(display_qr_code(data))
    } else {
        None
    }
}

/// Whether the module at `row`, `col` is dark, both counted from the corner of
/// the border.
fn is_dark(width: usize, modules: &[bool], row: usize, col: usize) -> (r: bool)
    requires
        modules@.len() == width * width,
    ensures
        r == dark(width as nat, modules@, row - BORDER, col - BORDER),
{
    if row < BORDER || col < BORDER || row - BORDER >= width || col - BORDER >= width {
        return false;
    }
    let y: usize = row - BORDER;
    let x: usize = col - BORDER;
    assert(0 <= y * width <= y * width + x < width * width) by (nonlinear_arith)
        requires
            0 <= y < width,
            0 <= x < width,
    ;
    let count: usize = modules.len();
    assert(count == width * width);
    modules[y * width + x]
}

/// The picture of a symbol given by its width and its modules row by row, true
/// for a dark one.
pub fn render(width: usize, modules: &[bool]) -> (r: Vec<String>)
    requires
        modules@.len() == width * width,
    ensures
        texts(r@) == picture(width as nat, modules@),
{
    let count: usize = modules.len();
    assert(width + 2 * BORDER <= usize::MAX) by {
        if width >= 5 {
            assert(width * width >= 5 * width) by (nonlinear_arith)
                requires
                    width >= 5,
            ;
        }
        assert(count == width * width);
    }
    let total: usize = width + 2 * BORDER;
    let lines: usize = total / 2 + total % 2;
    let mut r: Vec<String> = Vec::new();
    let mut line: usize = 0;
    while line < lines
        invariant
            modules@.len() == width * width,
            total == width + 2 * BORDER,
            lines == line_count(width as nat),
            line <= lines,
            texts(r@) == picture(width as nat, modules@).take(line as int),
        decreases lines - line,
    {
        let text: String = render_line(width, modules, line);
        let ghost before = texts(r@);
        r.push(text);
        assert(texts(r@) == before.push(text@));
        assert(picture(width as nat, modules@).take(line + 1) == picture(
            width as nat,
            modules@,
        ).take(line as int).push(picture_line(width as nat, modules@, line as int)));
        line = line + 1;
    }
    assert(picture(width as nat, modules@).take(lines as int) == picture(width as nat, modules@));
    r
}

fn render_line(width: usize, modules: &[bool], line: usize) -> (r: String)
    requires
        modules@.len() == width * width,
        width + 2 * BORDER <= usize::MAX,
        line < line_count(width as nat),
    ensures
        r@ == picture_line(width as nat, modules@, line as int),
{
    let mut r: String = String::new();
    let mut col: usize = 0;
    while col < width + 2 * BORDER
        invariant
            modules@.len() == width * width,
            width + 2 * BORDER <= usize::MAX,
            line < line_count(width as nat),
            col <= width + 2 * BORDER,
            r@ == picture_line(width as nat, modules@, line as int).take(col as int),
        decreases width + 2 * BORDER - col,
    {
        let top: bool = is_dark(width, modules, 2 * line, col);
        let bottom: bool = is_dark(width, modules, 2 * line + 1, col);
        let c: char = match (top, bottom) {
            (true, true) => ' ',
            (true, false) => '▄',
            (false, true) => '▀',
            (false, false) => '█',
        };
        r.push(c);
        assert(r@ == picture_line(width as nat, modules@, line as int).take(col + 1));
        col = col + 1;
    }
    r
}

/// Every module of the symbol can be read off the picture: the half cell that
/// stands for it is lit exactly where the module is light.
pub proof fn picture_shows_module(width: nat, modules: Seq<bool>, row: int, col: int)
    requires
        0 <= row < width,
        0 <= col < width,
    ensures
        ({
            let line = (row + BORDER) / 2;
            let c = picture(width, modules)[line][col + BORDER];
            let lit = if (row + BORDER) % 2 == 0 {
                lit_above(c)
            } else {
                lit_below(c)
            };
            &&& 0 <= line < picture(width, modules).len()
            &&& col + BORDER < picture(width, modules)[line].len()
            &&& lit == !modules[row * width + col]
        }),
{
}

/// No two symbols have the same picture.
pub proof fn picture_is_lossless(w1: nat, m1: Seq<bool>, w2: nat, m2: Seq<bool>)
    requires
        m1.len() == w1 * w1,
        m2.len() == w2 * w2,
        picture(w1, m1) == picture(w2, m2),
    ensures
        w1 == w2,
        m1 == m2,
{
    assert(picture(w1, m1)[0].len() == w1 + 2 * BORDER);
    assert(picture(w2, m2)[0].len() == w2 + 2 * BORDER);
    assert forall|k: int| 0 <= k < m1.len() implies m1[k] == m2[k] by {
        assert(w1 > 0 && 0 <= k / w1 as int && k / (w1 as int) < w1 && 0 <= k % (w1 as int)
            && k % (w1 as int) < w1 && k == (k / (w1 as int)) * w1 + k % (w1 as int))
            by (nonlinear_arith)
            requires
                0 <= k < w1 * w1,
        ;
        picture_shows_module(w1, m1, k / (w1 as int), k % (w1 as int));
        picture_shows_module(w2, m2, k / (w1 as int), k % (w1 as int));
    }
    assert(m1 =~= m2);
}

/// The symbol stands free: the first and the last line of its picture, and the
/// border's columns on either side, are light throughout.
pub proof fn picture_has_quiet_zone(width: nat, modules: Seq<bool>, line: int, col: int)
    requires
        0 <= line < line_count(width),
        0 <= col < width + 2 * BORDER,
        line == 0 || line == line_count(width) - 1 || col < BORDER || col >= width + BORDER,
    ensures
        picture(width, modules)[line][col] == '█',
{
}

proof fn lemma_all_others(data: Seq<char>)
    requires
        forall|i: int| 0 <= i < data.len() ==> !alphanumeric(#[trigger] data[i]),
    ensures
        others(data) == data.len(),
    decreases data.len(),
{
    reveal(Seq::filter);
    if data.len() > 0 {
        let init = data.drop_last();
        assert forall|i: int| 0 <= i < init.len() implies !alphanumeric(#[trigger] init[i]) by {
            assert(init[i] == data[i]);
        }
        assert(!alphanumeric(data[data.len() - 1]));
        lemma_all_others(init);
    }
}

/// An ASCII text without alphanumeric characters, such as one of lower-case
/// letters, can be displayed where it is short, and is refused as too long where
/// it has more than [`MOST_ASCII_OTHERS`] characters.
pub proof fn plain_text_is_decided_by_length(data: Seq<char>)
    requires
        is_ascii_chars(data),
        forall|i: int| 0 <= i < data.len() ==> !alphanumeric(#[trigger] data[i]),
        data.len() * 128 <= usize::MAX,
    ensures
        data.len() <= SHORT_RUN ==> short_text(data) && displayable(data),
        data.len() > MOST_ASCII_OTHERS ==> overlong_text(data) && displayable(data),
{
    lemma_all_others(data);
    is_ascii_chars_encode_utf8(data);
}

/// The picture of a symbol, cell by cell: it has half as many lines as the symbol
/// with two light rows on either side has rows, rounded up, and as many columns. A
/// cell shows two modules: its upper half is filled exactly where the upper one is
/// light, its lower half exactly where the lower one is. What is not a dark module of
/// the symbol is light.
pub proof fn picture_by_cells(width: nat, modules: Seq<bool>, line: int, col: int)
    requires
        0 <= line < picture(width, modules).len(),
        0 <= col < width + 4,
    ensures
        ({
            let cell = picture(width, modules)[line][col];
            let x = col - 2;
            let above = 2 * line - 2;
            let below = 2 * line - 1;
            let top = 0 <= x < width && 0 <= above < width && modules[above * width + x];
            let bottom = 0 <= x < width && 0 <= below < width && modules[below * width + x];
            &&& 2 * picture(width, modules).len() == width + 4 || 2 * picture(width, modules).len()
                == width + 5
            &&& picture(width, modules)[line].len() == width + 4
            &&& top && bottom ==> cell == ' '
            &&& top && !bottom ==> cell == '▄'
            &&& !top && bottom ==> cell == '▀'
            &&& !top && !bottom ==> cell == '█'
        }),
{
}

/// What comes of displaying a text: where the encoder gives a symbol, its picture;
/// where it gives none, one line that says that the data is too long.
pub proof fn display_is_picture_or_line(data: Seq<char>, r: Result<Vec<String>, String>)
    requires
        is_display(data, r),
    ensures
        match r {
            Ok(lines) => {
                &&& qr_symbol(data) matches Ok((width, modules))
                &&& modules.len() == width * width
                &&& texts(lines@) == picture(width, modules)
            },
            Err(line) => qr_symbol(data) is Err && line@
                == "Failed to generate QR code: data too long"@,
        },
{
    if let Err(line) = r {
        reveal_strlit("Failed to generate QR code: ");
        reveal_strlit("data too long");
        reveal_strlit("Failed to generate QR code: data too long");
        assert("Failed to generate QR code: "@ + "data too long"@
            =~= "Failed to generate QR code: data too long"@);
    }
}

/// A text can be displayed where it has at most 213 bytes, more than 5596, no symbol,
/// or a symbol of at most 69 modules a side, as long as its bits can be counted; and
/// a text whose symbol is wider and whose length decides nothing cannot.
pub proof fn displayable_by_size(data: Seq<char>)
    requires
        encode_utf8(data).len() * 128 <= usize::MAX,
    ensures
        encode_utf8(data).len() <= 213 ==> displayable(data),
        encode_utf8(data).len() > 5596 ==> displayable(data),
        qr_width(data) is Err ==> displayable(data),
        qr_width(data) matches Ok(width) && width <= 69 ==> displayable(data),
        displayable(data) && !short_text(data) && !overlong_text(data) ==> (qr_width(
            data,
        ) matches Ok(width) ==> width <= 69),
{
}

/// The characters of the alphanumeric mode, by their numbers, and how the others are
/// counted: one by one, over all parts of a text.
pub proof fn others_are_counted_one_by_one(a: Seq<char>, b: Seq<char>, c: char)
    ensures
        digit(c) <==> 48 <= c as u32 <= 57,
        alphanumeric(c) <==> {
            let n = c as u32;
            48 <= n <= 58 || 65 <= n <= 90 || n == 32 || n == 36 || n == 37 || n == 42 || n == 43
                || 45 <= n <= 47
        },
        others(a + b) == others(a) + others(b),
        others(seq![c]) == if alphanumeric(c) {
            0nat
        } else {
            1
        },
{
    let other = |c: char| !alphanumeric(c);
    Seq::filter_distributes_over_add(a, b, other);
    let none = Seq::<char>::empty();
    none.lemma_filter_push(c, other);
    none.lemma_filter_len(other);
    assert(none.push(c) =~= seq![c]);
}

/// The lengths by which a text is short or overlong, in bytes and in characters.
pub proof fn lengths_by_number(data: Seq<char>)
    ensures
        encode_utf8(data).len() <= 213 ==> short_text(data),
        one_kind(data) && data.len() <= 331 ==> short_text(data),
        encode_utf8(data).len() > 213 && (!one_kind(data) || data.len() > 331) ==> !short_text(
            data,
        ),
        overlong_text(data) <==> encode_utf8(data).len() > 5596 || others(data) > 2872 || (
        is_ascii_chars(data) && others(data) > 2331),
        one_kind(data) ==> is_ascii_chars(data),
        countable(data) <==> encode_utf8(data).len() * 128 <= usize::MAX,
{
}

} // verus!
