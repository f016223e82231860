//! Detecting the display format of a fetched byte payload, and rendering
//! bytes as a hex dump.
//!
//! Whitespace trimming here covers the ASCII blanks (space, tab, carriage
//! return, line feed).

use vstd::prelude::*;

use vstd::utf8::decode_utf8;
use vstd::utf8::valid_utf8;

verus! {

/// The display format detected for a byte payload.
#[derive(Debug, Clone, Copy, PartialEq, Eq, Structural)]
pub enum DetectedFormat {
    Json,
    Xml,
    Html,
    Binary,
    PlainText,
}

/// A byte outside the printable range that is not a common line control.
pub open spec fn is_control_byte(b: u8) -> bool {
    b < 32 && b != 10 && b != 13 && b != 9
}

/// How many control bytes the payload holds.
pub open spec fn count_control(b: Seq<u8>) -> nat
    decreases b.len(),
{
    if b.len() == 0 {
        0
    } else {
        count_control(b.drop_last()) + (if is_control_byte(b.last()) {
            1nat
        } else {
            0nat
        })
    }
}

/// A well-known binary file signature at the start of the payload (PNG,
/// JPEG, GIF, PDF), checked only once at least four bytes are present.
pub open spec fn has_binary_signature(b: Seq<u8>) -> bool {
    b.len() >= 4 && {
        ||| (b[0] == 0x89 && b[1] == 0x50 && b[2] == 0x4e && b[3] == 0x47)
        ||| (b[0] == 0xff && b[1] == 0xd8 && b[2] == 0xff)
        ||| (b[0] == 0x47 && b[1] == 0x49 && b[2] == 0x46 && b[3] == 0x38)
        ||| (b[0] == 0x25 && b[1] == 0x50 && b[2] == 0x44 && b[3] == 0x46)
    }
}

/// Text, not binary: no known binary signature, and control bytes are rare
/// (under ten percent) or absent.
pub open spec fn is_valid_text_spec(b: Seq<u8>) -> bool {
    &&& !has_binary_signature(b)
    &&& (10 * count_control(b) < b.len() || count_control(b) == 0)
}

/// Whether a payload looks like text rather than binary data.
pub fn is_valid_text(bytes: &[u8]) -> (r: bool)
    ensures
        r == is_valid_text_spec(bytes@),
{
    let n = bytes.len();
    if n >= 4 {
        if bytes[0] == 0x89 && bytes[1] == 0x50 && bytes[2] == 0x4e && bytes[3] == 0x47 {
            return false;
        }
        if bytes[0] == 0xff && bytes[1] == 0xd8 && bytes[2] == 0xff {
            return false;
        }
        if bytes[0] == 0x47 && bytes[1] == 0x49 && bytes[2] == 0x46 && bytes[3] == 0x38 {
            return false;
        }
        if bytes[0] == 0x25 && bytes[1] == 0x50 && bytes[2] == 0x44 && bytes[3] == 0x46 {
            return false;
        }
    }
    let mut count: usize = 0;
    let mut i: usize = 0;
    proof {
        assert(bytes@.take(0) =~= Seq::<u8>::empty());
    }
    while i < n
        invariant
            i <= n,
            n == bytes@.len(),
            count <= i,
            count == count_control(bytes@.take(i as int)),
        decreases n - i,
    {
        let b = bytes[i];
        proof {
            assert(bytes@.take(i + 1).drop_last() =~= bytes@.take(i as int));
            assert(bytes@.take(i + 1).last() == bytes@[i as int]);
        }
        if b < 32 && b != 10 && b != 13 && b != 9 {
            count += 1;
        }
        i += 1;
    }
    proof {
        assert(bytes@.take(n as int) =~= bytes@);
    }
    (count as u128) * 10 < (n as u128) || count == 0
}

/// An ASCII blank: space, tab, carriage return or line feed.
pub open spec fn is_blank(c: char) -> bool {
    c == ' ' || c == '\t' || c == '\n' || c == '\r'
}

/// The text without its leading blanks.
pub open spec fn trim_front(s: Seq<char>) -> Seq<char>
    decreases s.len(),
{
    if s.len() > 0 && is_blank(s[0]) {
        trim_front(s.drop_first())
    } else {
        s
    }
}

/// The text without its trailing blanks.
pub open spec fn trim_back(s: Seq<char>) -> Seq<char>
    decreases s.len(),
{
    if s.len() > 0 && is_blank(s.last()) {
        trim_back(s.drop_last())
    } else {
        s
    }
}

/// The text without leading or trailing ASCII blanks.
pub open spec fn trim_spec(s: Seq<char>) -> Seq<char> {
    trim_back(trim_front(s))
}

fn is_blank_char(c: char) -> (r: bool)
    ensures
        r == is_blank(c),
{
    c == ' ' || c == '\t' || c == '\n' || c == '\r'
}

/// The slice of `s` with leading and trailing ASCII blanks removed.
fn trim_str(s: &str) -> (r: &str)
    ensures
        r@ == trim_spec(s@),
{
    let n = s.unicode_len();
    let mut a: usize = 0;
    proof {
        assert(s@.skip(0) =~= s@);
    }
    while a < n && is_blank_char(s.get_char(a))
        invariant
            a <= n,
            n == s@.len(),
            trim_front(s@) == trim_front(s@.skip(a as int)),
        decreases n - a,
    {
        proof {
            assert(s@.skip(a as int)[0] == s@[a as int]);
            assert(s@.skip(a as int).drop_first() =~= s@.skip(a + 1));
        }
        a += 1;
    }
    proof {
        if a < n {
            assert(s@.skip(a as int)[0] == s@[a as int]);
        }
        assert(trim_front(s@) == s@.skip(a as int));
    }
    let mut b: usize = n;
    while b > a && is_blank_char(s.get_char(b - 1))
        invariant
            a <= b <= n,
            n == s@.len(),
            trim_front(s@) == s@.skip(a as int),
            trim_back(s@.skip(a as int)) == trim_back(s@.subrange(a as int, b as int)),
        decreases b,
    {
        proof {
            assert(s@.subrange(a as int, b as int).last() == s@[b - 1]);
            assert(s@.subrange(a as int, b as int).drop_last() =~= s@.subrange(a as int, b - 1));
        }
        b -= 1;
    }
    proof {
        if b > a {
            assert(s@.subrange(a as int, b as int).last() == s@[b - 1]);
        }
        assert(trim_back(s@.subrange(a as int, b as int)) == s@.subrange(a as int, b as int));
    }
    s.substring_char(a, b)
}

/// Whether `s` starts with the prefix `p`.
pub(crate) fn has_prefix(s: &str, p: &str) -> (r: bool)
    ensures
        r == (s@.len() >= p@.len() && s@.take(p@.len() as int) == p@),
{
    let sn = s.unicode_len();
    let pn = p.unicode_len();
    if sn < pn {
        return false;
    }
    let mut i: usize = 0;
    while i < pn
        invariant
            i <= pn,
            pn <= sn,
            sn == s@.len(),
            pn == p@.len(),
            forall|j: int| 0 <= j < i ==> s@[j] == p@[j],
        decreases pn - i,
    {
        if s.get_char(i) != p.get_char(i) {
            proof {
                assert(s@.take(pn as int)[i as int] != p@[i as int]);
            }
            return false;
        }
        i += 1;
    }
    proof {
        assert(s@.take(pn as int) =~= p@);
    }
    true
}

/// Whether the needle occurs anywhere in the hay.
pub open spec fn contains_seq(hay: Seq<char>, needle: Seq<char>) -> bool {
    exists|k: int|
        0 <= k <= hay.len() - needle.len() && #[trigger] hay.subrange(k, k + needle.len())
            == needle
}

fn matches_at(hay: &str, needle: &str, k: usize) -> (r: bool)
    requires
        k + needle@.len() <= hay@.len(),
    ensures
        r == (hay@.subrange(k as int, k + needle@.len()) == needle@),
{
    let hn = hay.unicode_len();
    let nn = needle.unicode_len();
    let mut i: usize = 0;
    while i < nn
        invariant
            i <= nn,
            nn == needle@.len(),
            hn == hay@.len(),
            k + nn <= hay@.len(),
            forall|j: int| 0 <= j < i ==> hay@[k + j] == needle@[j],
        decreases nn - i,
    {
        if hay.get_char(k + i) != needle.get_char(i) {
            proof {
                assert(hay@.subrange(k as int, k + needle@.len())[i as int] != needle@[i as int]);
            }
            return false;
        }
        i += 1;
    }
    proof {
        assert(hay@.subrange(k as int, k + needle@.len()) =~= needle@);
    }
    true
}

fn contains_str(hay: &str, needle: &str) -> (r: bool)
    ensures
        r == contains_seq(hay@, needle@),
{
    let hn = hay.unicode_len();
    let nn = needle.unicode_len();
    if nn > hn {
        return false;
    }
    let last = hn - nn;
    let mut k: usize = 0;
    loop
        invariant
            k <= last,
            last == hay@.len() - needle@.len(),
            hn == hay@.len(),
            nn == needle@.len(),
            forall|m: int|
                0 <= m < k ==> #[trigger] hay@.subrange(m, m + needle@.len()) != needle@,
        decreases last - k,
    {
        if matches_at(hay, needle, k) {
            return true;
        }
        if k == last {
            proof {
                assert forall|m: int|
                    0 <= m <= last implies #[trigger] hay@.subrange(m, m + needle@.len())
                    != needle@ by {}
                assert(!contains_seq(hay@, needle@));
            }
            return false;
        }
        k += 1;
    }
}

/// Whether the text parses as JSON.
pub uninterp spec fn is_json(s: Seq<char>) -> bool;

/// Relies on serde_json::from_str::<Value>: whether the text parses as a
/// JSON document is a function of the text alone.
#[verifier::external_body]
fn json_valid(s: &str) -> (r: bool)
    ensures
        r == is_json(s@),
{
    serde_json::from_str::<serde_json::Value>(s).is_ok()
}

/// The Unicode lowercase form of the text.
pub uninterp spec fn lower_of(s: Seq<char>) -> Seq<char>;

/// Relies on str::to_lowercase: the result depends on the characters alone.
#[verifier::external_body]
fn lowercase(s: &str) -> (r: String)
    ensures
        r@ == lower_of(s@),
{
    s.to_lowercase()
}

/// The format detection rule, over the payload's bytes: binary when a known
/// signature or too many control bytes or invalid UTF-8 is found; otherwise
/// the trimmed text is classified as JSON (bracketed and parseable), XML,
/// HTML, or plain text.
pub open spec fn detect_spec(bytes: Seq<u8>) -> DetectedFormat {
    if !is_valid_text_spec(bytes) {
        DetectedFormat::Binary
    } else if !valid_utf8(bytes) {
        DetectedFormat::Binary
    } else {
        let t = trim_spec(decode_utf8(bytes));
        if t.len() > 0 && ((t[0] == '{' && t.last() == '}') || (t[0] == '[' && t.last() == ']'))
            && is_json(t) {
            DetectedFormat::Json
        } else if (t.len() >= "<?xml"@.len() && t.take("<?xml"@.len() as int) == "<?xml"@) || (
        t.len() >= "<!DOCTYPE"@.len() && t.take("<!DOCTYPE"@.len() as int) == "<!DOCTYPE"@) {
            DetectedFormat::Xml
        } else if contains_seq(lower_of(t), "<html"@) {
            DetectedFormat::Html
        } else if t.len() > 0 && t[0] == '<' && t.last() == '>' {
            DetectedFormat::Xml
        } else {
            DetectedFormat::PlainText
        }
    }
}

/// Relies on std::str::from_utf8: it accepts exactly the valid UTF-8 byte
/// strings and decodes them.
#[verifier::external_body]
fn bytes_to_str<'a>(b: &'a [u8]) -> (r: Option<&'a str>)
    ensures
        (r is Some) == valid_utf8(b@),
        r is Some ==> r->0@ == decode_utf8(b@),
{
    std::str::from_utf8(b).ok()
}

/// Detect the display format of a byte payload.
pub fn detect_format(bytes: &[u8]) -> (r: DetectedFormat)
    ensures
        r == detect_spec(bytes@),
{
    if !is_valid_text(bytes) {
        return DetectedFormat::Binary;
    }
    let text = match bytes_to_str(bytes) {
        Some(t) => t,
        None => {
            return DetectedFormat::Binary;
        },
    };
    let t = trim_str(text);
    let n = t.unicode_len();
    if n > 0 {
        let first = t.get_char(0);
        let last = t.get_char(n - 1);
        if (first == '{' && last == '}') || (first == '[' && last == ']') {
            if json_valid(t) {
                return DetectedFormat::Json;
            }
        }
    }
    if has_prefix(t, "<?xml") || has_prefix(t, "<!DOCTYPE") {
        return DetectedFormat::Xml;
    }
    let lower = lowercase(t);
    if contains_str(lower.as_str(), "<html") {
        return DetectedFormat::Html;
    }
    if n > 0 {
        let first = t.get_char(0);
        let last = t.get_char(n - 1);
        if first == '<' && last == '>' {
            return DetectedFormat::Xml;
        }
    }
    DetectedFormat::PlainText
}

/// The short label a format is shown under.
pub fn format_label(format: DetectedFormat) -> (r: &'static str)
    ensures
        format == DetectedFormat::Json ==> r@ == "JSON"@,
        format == DetectedFormat::Xml ==> r@ == "XML"@,
        format == DetectedFormat::Html ==> r@ == "HTML"@,
        format == DetectedFormat::Binary ==> r@ == "BINARY"@,
        format == DetectedFormat::PlainText ==> r@ == "TEXT"@,
{
    match format {
        DetectedFormat::Json => "JSON",
        DetectedFormat::Xml => "XML",
        DetectedFormat::Html => "HTML",
        DetectedFormat::Binary => "BINARY",
        DetectedFormat::PlainText => "TEXT",
    }
}

/// The lowercase hex digit for a value below sixteen.
pub open spec fn hex_digit(n: int) -> char {
    if n == 0 {
        '0'
    } else if n == 1 {
        '1'
    } else if n == 2 {
        '2'
    } else if n == 3 {
        '3'
    } else if n == 4 {
        '4'
    } else if n == 5 {
        '5'
    } else if n == 6 {
        '6'
    } else if n == 7 {
        '7'
    } else if n == 8 {
        '8'
    } else if n == 9 {
        '9'
    } else if n == 10 {
        'a'
    } else if n == 11 {
        'b'
    } else if n == 12 {
        'c'
    } else if n == 13 {
        'd'
    } else if n == 14 {
        'e'
    } else {
        'f'
    }
}

/// Two hex digits of one byte.
pub open spec fn byte_hex(b: u8) -> Seq<char> {
    seq![hex_digit(b as int / 16), hex_digit(b as int % 16)]
}

/// The hex cell of the byte at chunk position `i`: a space moves to the
/// front of the ninth cell, marking the half-row gap.
pub open spec fn hex_cell(b: u8, i: int) -> Seq<char> {
    if i == 8 {
        seq![' '] + byte_hex(b)
    } else {
        byte_hex(b) + seq![' ']
    }
}

/// The hex column of a chunk, from position `i` on.
pub open spec fn hex_field(chunk: Seq<u8>, i: int) -> Seq<char>
    decreases chunk.len() - i,
{
    if i < 0 || i >= chunk.len() {
        Seq::empty()
    } else {
        hex_cell(chunk[i], i) + hex_field(chunk, i + 1)
    }
}

/// `n` copies of one character.
pub open spec fn repeat_char(c: char, n: nat) -> Seq<char> {
    Seq::new(n, |i: int| c)
}

/// The hex digits of a value, most significant first.
pub open spec fn hex_seq(v: nat) -> Seq<char>
    decreases v,
{
    if v < 16 {
        seq![hex_digit(v as int)]
    } else {
        hex_seq(v / 16) + seq![hex_digit((v % 16) as int)]
    }
}

/// The address column: hex digits left-padded with zeros to width eight.
pub open spec fn addr_spec(v: nat) -> Seq<char> {
    if hex_seq(v).len() >= 8 {
        hex_seq(v)
    } else {
        repeat_char('0', (8 - hex_seq(v).len()) as nat) + hex_seq(v)
    }
}

/// The ASCII column's character for one byte: the byte itself when
/// printable, a dot otherwise.
pub open spec fn ascii_cell(b: u8) -> char {
    if (0x21 <= b && b <= 0x7e) || b == 0x20 {
        b as char
    } else {
        '.'
    }
}

/// The ASCII column of a chunk.
pub open spec fn ascii_field(chunk: Seq<u8>) -> Seq<char> {
    Seq::new(chunk.len(), |i: int| ascii_cell(chunk[i]))
}

/// The blank padding that aligns a final short row: three blanks per missing
/// byte, one more when the chunk does not reach the half-row gap.
pub open spec fn pad_spec(chunk_len: nat) -> Seq<char>
    recommends
        chunk_len <= 16,
{
    repeat_char(
        ' ',
        ((16 - chunk_len) * 3 + (if chunk_len <= 8 {
            1int
        } else {
            0int
        })) as nat,
    )
}

/// One row of a hex dump: the address, hex, padding and ASCII columns.
#[derive(Debug)]
pub struct HexRow {
    pub addr: String,
    pub hex: String,
    pub padding: String,
    pub ascii: String,
}

pub open spec fn hex_row_model(r: HexRow) -> (Seq<char>, Seq<char>, Seq<char>, Seq<char>) {
    (r.addr@, r.hex@, r.padding@, r.ascii@)
}

pub open spec fn hex_rows_model(s: Seq<HexRow>) -> Seq<(Seq<char>, Seq<char>, Seq<char>, Seq<char>)> {
    Seq::new(s.len(), |i: int| hex_row_model(s[i]))
}

/// The sixteen-byte chunk of row `r`, shorter at the end of the payload.
pub open spec fn chunk_of(b: Seq<u8>, r: int) -> Seq<u8> {
    b.subrange(16 * r, if 16 * r + 16 <= b.len() {
        16 * r + 16
    } else {
        b.len() as int
    })
}

/// The columns of hex-dump row `r`.
pub open spec fn hex_row_spec(b: Seq<u8>, r: int) -> (Seq<char>, Seq<char>, Seq<char>, Seq<char>) {
    let chunk = chunk_of(b, r);
    (addr_spec((16 * r) as nat), hex_field(chunk, 0), pad_spec(chunk.len()), ascii_field(chunk))
}

/// The whole dump: one row per started sixteen-byte chunk.
pub open spec fn hex_dump_spec(b: Seq<u8>) -> Seq<(Seq<char>, Seq<char>, Seq<char>, Seq<char>)> {
    Seq::new(((b.len() + 15) / 16) as nat, |r: int| hex_row_spec(b, r))
}

fn hex_digit_char(d: u8) -> (c: char)
    requires
        d < 16,
    ensures
        c == hex_digit(d as int),
{
    match d {
        0 => '0',
        1 => '1',
        2 => '2',
        3 => '3',
        4 => '4',
        5 => '5',
        6 => '6',
        7 => '7',
        8 => '8',
        9 => '9',
        10 => 'a',
        11 => 'b',
        12 => 'c',
        13 => 'd',
        14 => 'e',
        _ => 'f',
    }
}

fn push_char(s: &mut String, c: char)
    ensures
        final(s)@ == old(s)@ + seq![c],
{
    let t = crate::segments::char_to_string(c);
    s.append(t.as_str());
}

fn push_hex_value(s: &mut String, v: usize)
    ensures
        final(s)@ == old(s)@ + hex_seq(v as nat),
    decreases v,
{
    if v < 16 {
        push_char(s, hex_digit_char(v as u8));
    } else {
        let ghost s0 = s@;
        push_hex_value(s, v / 16);
        push_char(s, hex_digit_char((v % 16) as u8));
        proof {
            assert((s0 + hex_seq((v / 16) as nat)) + seq![hex_digit(v as int % 16)] =~= s0 + (
            hex_seq((v / 16) as nat) + seq![hex_digit(v as int % 16)]));
        }
    }
}

fn hex_addr(v: usize) -> (r: String)
    ensures
        r@ == addr_spec(v as nat),
{
    let mut digits = String::new();
    push_hex_value(&mut digits, v);
    let w = digits.as_str().unicode_len();
    let mut r = String::new();
    if w < 8 {
        let pad = 8 - w;
        let mut k: usize = 0;
        while k < pad
            invariant
                k <= pad,
                r@ == repeat_char('0', k as nat),
            decreases pad - k,
        {
            push_char(&mut r, '0');
            proof {
                assert(repeat_char('0', k as nat).push('0') =~= repeat_char('0', (k + 1) as nat));
            }
            k += 1;
        }
    } else {
        proof {
            assert(r@ =~= repeat_char('0', 0));
        }
    }
    r.append(digits.as_str());
    proof {
        if w < 8 {
            assert(r@ == repeat_char('0', (8 - w) as nat) + digits@);
        } else {
            assert(repeat_char('0', 0) + digits@ =~= digits@);
        }
    }
    r
}

/// Render a payload as hex-dump rows, sixteen bytes per row.
pub fn hex_dump(bytes: &[u8]) -> (rows: Vec<HexRow>)
    ensures
        hex_rows_model(rows@) == hex_dump_spec(bytes@),
{
    let n = bytes.len();
    let mut rows: Vec<HexRow> = Vec::new();
    let mut start: usize = 0;
    while start < n
        invariant
            n == bytes@.len(),
            start == 16 * rows@.len() || (start == n && rows@.len() as int == (n + 15) / 16),
            start <= n + 15,
            hex_rows_model(rows@) == hex_dump_spec(bytes@).take(rows@.len() as int),
        decreases n - start,
    {
        let ghost ridx = rows@.len() as int;
        let end = if n - start < 16 {
            n
        } else {
            start + 16
        };
        let ghost chunk = chunk_of(bytes@, ridx);
        proof {
            assert(chunk =~= bytes@.subrange(start as int, end as int));
        }
        let addr = hex_addr(start);
        // the hex column
        let mut hexs = String::new();
        let mut j = start;
        proof {
            assert(hexs@ + hex_field(chunk, 0) =~= hex_field(chunk, 0));
        }
        while j < end
            invariant
                start <= j <= end <= n,
                n == bytes@.len(),
                end - start <= 16,
                chunk == bytes@.subrange(start as int, end as int),
                hexs@ + hex_field(chunk, j - start) == hex_field(chunk, 0),
            decreases end - j,
        {
            let ghost h0 = hexs@;
            let b = bytes[j];
            proof {
                assert(chunk[j - start] == bytes@[j as int]);
            }
            if j - start == 8 {
                push_char(&mut hexs, ' ');
                push_char(&mut hexs, hex_digit_char(b / 16));
                push_char(&mut hexs, hex_digit_char(b % 16));
            } else {
                push_char(&mut hexs, hex_digit_char(b / 16));
                push_char(&mut hexs, hex_digit_char(b % 16));
                push_char(&mut hexs, ' ');
            }
            proof {
                assert(hexs@ =~= h0 + hex_cell(chunk[j - start], j - start));
                assert(hexs@ + hex_field(chunk, j + 1 - start) =~= h0 + (hex_cell(
                    chunk[j - start],
                    j - start,
                ) + hex_field(chunk, j + 1 - start)));
            }
            j += 1;
        }
        proof {
            assert(hex_field(chunk, end - start) =~= Seq::<char>::empty());
            assert(hexs@ + hex_field(chunk, end - start) =~= hexs@);
        }
        // the padding column
        let clen = end - start;
        let padn = (16 - clen) * 3 + (if clen <= 8 {
            1
        } else {
            0
        });
        let mut padding = String::new();
        let mut k: usize = 0;
        proof {
            assert(padding@ =~= repeat_char(' ', 0));
        }
        while k < padn
            invariant
                k <= padn,
                padding@ == repeat_char(' ', k as nat),
            decreases padn - k,
        {
            push_char(&mut padding, ' ');
            proof {
                assert(repeat_char(' ', k as nat).push(' ') =~= repeat_char(' ', (k + 1) as nat));
            }
            k += 1;
        }
        // the ASCII column
        let mut ascii = String::new();
        let mut j = start;
        while j < end
            invariant
                start <= j <= end <= n,
                n == bytes@.len(),
                chunk == bytes@.subrange(start as int, end as int),
                ascii@ == ascii_field(chunk).take(j - start),
            decreases end - j,
        {
            let b = bytes[j];
            proof {
                assert(chunk[j - start] == bytes@[j as int]);
            }
            let c = if (0x21 <= b && b <= 0x7e) || b == 0x20 {
                b as char
            } else {
                '.'
            };
            push_char(&mut ascii, c);
            proof {
                assert(ascii@ =~= ascii_field(chunk).take(j + 1 - start));
            }
            j += 1;
        }
        proof {
            assert(ascii_field(chunk).take(end - start) =~= ascii_field(chunk));
        }
        let ghost rows_before = rows@;
        rows.push(HexRow { addr, hex: hexs, padding, ascii });
        proof {
            assert(hex_row_model(rows@.last()) == hex_row_spec(bytes@, ridx));
            assert(hex_dump_spec(bytes@).len() >= ridx + 1);
            assert(hex_rows_model(rows@) =~= hex_dump_spec(bytes@).take(ridx + 1));
            if end < start + 16 {
                assert(16 * ridx < n && n <= 16 * ridx + 15);
                assert(rows@.len() as int == (n + 15) / 16);
            }
        }
        start = end;
    }
    proof {
        if n == 0 {
            assert(hex_rows_model(rows@) =~= hex_dump_spec(bytes@));
        } else {
            if start == 16 * rows@.len() {
                assert(16 * rows@.len() >= n);
                assert(16 * rows@.len() <= n + 15);
                assert(rows@.len() as int == (n + 15) / 16);
            }
            assert(hex_dump_spec(bytes@).take(rows@.len() as int) =~= hex_dump_spec(bytes@));
        }
    }
    rows
}

} // verus!
