//! Texts as the bytes of a file, and back, in the encodings that files use.

use vstd::prelude::*;
use vstd::utf8::{decode_utf8, decode_utf8_encode_utf8, encode_utf8, is_scalar, valid_utf8};

use crate::codec;
use crate::text;

verus! {

#[derive(Debug, Clone, Copy, PartialEq, Eq, Structural)]
pub enum Encoding {
    Utf8,
    Utf8Bom,
    Utf16Le,
    Utf16Be,
    Windows1252,
}

/// A text, and the encoding that its bytes had.
#[derive(Debug)]
pub struct DecodedText {
    pub text: Vec<char>,
    pub encoding: Encoding,
}

pub open spec fn encoding_name(encoding: Encoding) -> Seq<char> {
    match encoding {
        Encoding::Utf8 => "utf-8"@,
        Encoding::Utf8Bom => "utf-8-bom"@,
        Encoding::Utf16Le => "utf-16le"@,
        Encoding::Utf16Be => "utf-16be"@,
        Encoding::Windows1252 => "windows-1252"@,
    }
}

impl Encoding {
    pub fn name(&self) -> (name: &'static str)
        ensures
            name@ == encoding_name(*self),
    {
        match self {
            Encoding::Utf8 => "utf-8",
            Encoding::Utf8Bom => "utf-8-bom",
            Encoding::Utf16Le => "utf-16le",
            Encoding::Utf16Be => "utf-16be",
            Encoding::Windows1252 => "windows-1252",
        }
    }
}

// ---------------------------------------------------------------------------
// What is no text

/// A byte that texts seldom hold.
pub open spec fn is_odd_byte(b: u8) -> bool {
    0x01 <= b <= 0x08 || b == 0x0b || b == 0x0c || 0x0e <= b <= 0x1f || b == 0x7f
}

pub open spec fn odd_bytes(bytes: Seq<u8>) -> nat
    decreases bytes.len(),
{
    if bytes.len() == 0 {
        0
    } else if is_odd_byte(bytes.last()) {
        odd_bytes(bytes.drop_last()) + 1
    } else {
        odd_bytes(bytes.drop_last())
    }
}

/// Bytes that seem to be no text: one is zero, or more than a tenth are odd.
pub open spec fn binary(bytes: Seq<u8>) -> bool {
    bytes.contains(0u8) || odd_bytes(bytes) * 10 > bytes.len()
}

/// A control character that texts seldom hold.
pub open spec fn is_odd_char(c: char) -> bool {
    text::is_control(c) && c != '\t' && c != '\n' && c != '\r'
}

pub open spec fn odd_chars(s: Seq<char>) -> nat
    decreases s.len(),
{
    if s.len() == 0 {
        0
    } else if is_odd_char(s.last()) {
        odd_chars(s.drop_last()) + 1
    } else {
        odd_chars(s.drop_last())
    }
}

/// More than a tenth of the characters are odd.
pub open spec fn binary_text(s: Seq<char>) -> bool {
    odd_chars(s) * 10 > s.len()
}

pub fn looks_binary(bytes: &[u8]) -> (r: bool)
    ensures
        r == binary(bytes@),
{
    let mut odd: usize = 0;
    let mut i: usize = 0;
    while i < bytes.len()
        invariant
            i <= bytes@.len(),
            odd <= i,
            odd == odd_bytes(bytes@.take(i as int)),
            forall|k: int| 0 <= k < i ==> #[trigger] bytes@[k] != 0,
        decreases bytes@.len() - i,
    {
        let b: u8 = bytes[i];
        proof {
            assert(bytes@.take(i + 1).drop_last() =~= bytes@.take(i as int));
            assert(bytes@.take(i + 1).last() == b);
        }
        if b == 0 {
            assert(bytes@[i as int] == 0u8);
            return true;
        }
        if (0x01 <= b && b <= 0x08) || b == 0x0b || b == 0x0c || (0x0e <= b && b <= 0x1f) || b
            == 0x7f {
            odd = odd + 1;
        }
        i = i + 1;
    }
    proof {
        assert(bytes@.take(i as int) =~= bytes@);
    }
    odd > bytes.len() / 10
}

fn looks_binary_text(s: &[char]) -> (r: bool)
    ensures
        r == binary_text(s@),
{
    let mut odd: usize = 0;
    let mut i: usize = 0;
    while i < s.len()
        invariant
            i <= s@.len(),
            odd <= i,
            odd == odd_chars(s@.take(i as int)),
        decreases s@.len() - i,
    {
        let c = s[i];
        proof {
            assert(s@.take(i + 1).drop_last() =~= s@.take(i as int));
            assert(s@.take(i + 1).last() == c);
        }
        if text::control(c) && c != '\t' && c != '\n' && c != '\r' {
            odd = odd + 1;
        }
        i = i + 1;
    }
    proof {
        assert(s@.take(i as int) =~= s@);
    }
    odd > s.len() / 10
}

// ---------------------------------------------------------------------------
// Units of sixteen bits

/// The units that a character takes: one, or two that belong together.
pub open spec fn char_units(c: char) -> Seq<u16> {
    if (c as u32) < 0x10000 {
        seq![(c as u32) as u16]
    } else {
        seq![
            (0xD800 + ((c as u32) - 0x10000) / 0x400) as u16,
            (0xDC00 + ((c as u32) - 0x10000) % 0x400) as u16,
        ]
    }
}

pub open spec fn text_units(s: Seq<char>) -> Seq<u16>
    decreases s.len(),
{
    if s.len() == 0 {
        Seq::empty()
    } else {
        char_units(s[0]) + text_units(s.drop_first())
    }
}

pub open spec fn is_lead(u: u16) -> bool {
    0xD800 <= u < 0xDC00
}

pub open spec fn is_trail(u: u16) -> bool {
    0xDC00 <= u < 0xE000
}

/// The character of two units that belong together.
pub open spec fn pair_code(lead: u16, trail: u16) -> u32 {
    (0x10000 + (lead - 0xD800) * 0x400 + (trail - 0xDC00)) as u32
}

/// The text of some units, if each has its place.
pub open spec fn units_text(u: Seq<u16>) -> Option<Seq<char>>
    decreases u.len(),
{
    if u.len() == 0 {
        Some(Seq::empty())
    } else if !is_lead(u[0]) && !is_trail(u[0]) {
        match units_text(u.skip(1)) {
            Some(rest) => Some(seq![u[0] as u32 as char] + rest),
            None => None,
        }
    } else if is_lead(u[0]) && u.len() > 1 && is_trail(u[1]) {
        match units_text(u.skip(2)) {
            Some(rest) => Some(seq![pair_code(u[0], u[1]) as char] + rest),
            None => None,
        }
    } else {
        None
    }
}

/// A unit of two bytes, the greater first or last.
pub open spec fn unit_of(a: u8, b: u8, greater_first: bool) -> u16 {
    if greater_first {
        (a * 256 + b) as u16
    } else {
        (b * 256 + a) as u16
    }
}

pub open spec fn byte_units(bytes: Seq<u8>, greater_first: bool) -> Seq<u16> {
    Seq::new(
        (bytes.len() / 2) as nat,
        |i: int| unit_of(bytes[2 * i], bytes[2 * i + 1], greater_first),
    )
}

pub open spec fn unit_bytes(u: u16, greater_first: bool) -> Seq<u8> {
    if greater_first {
        seq![(u / 256) as u8, (u % 256) as u8]
    } else {
        seq![(u % 256) as u8, (u / 256) as u8]
    }
}

pub open spec fn units_bytes(u: Seq<u16>, greater_first: bool) -> Seq<u8>
    decreases u.len(),
{
    if u.len() == 0 {
        Seq::empty()
    } else {
        units_bytes(u.drop_last(), greater_first) + unit_bytes(u.last(), greater_first)
    }
}

/// `char::from_u32`: the character with a code, if there is one.
pub assume_specification[ char::from_u32 ](code: u32) -> (c: Option<char>)
    ensures
        c is Some == is_scalar(code),
        c is Some ==> c->0 == code as char,
;

fn read_units(bytes: &[u8], greater_first: bool) -> (units: Vec<u16>)
    requires
        bytes@.len() % 2 == 0,
    ensures
        units@ == byte_units(bytes@, greater_first),
{
    let mut units: Vec<u16> = Vec::new();
    let n: usize = bytes.len() / 2;
    let mut i: usize = 0;
    while i < n
        invariant
            n == bytes@.len() / 2,
            2 * n <= usize::MAX,
            i <= n,
            units@ == byte_units(bytes@, greater_first).take(i as int),
        decreases n - i,
    {
        let a: u16 = bytes[2 * i] as u16;
        let b: u16 = bytes[2 * i + 1] as u16;
        let unit: u16 = if greater_first {
            a * 256 + b
        } else {
            b * 256 + a
        };
        units.push(unit);
        proof {
            let all = byte_units(bytes@, greater_first);
            assert(all[i as int] == unit);
            assert(units@ =~= all.take(i + 1));
        }
        i = i + 1;
    }
    proof {
        assert(units@ =~= byte_units(bytes@, greater_first));
    }
    units
}

proof fn lemma_char_codes(c: u16)
    ensures
        !is_lead(c) && !is_trail(c) ==> is_scalar(c as u32),
{
}

fn decode_units(units: &[u16]) -> (r: Option<Vec<char>>)
    ensures
        r is Some == units_text(units@) is Some,
        r is Some ==> r->0@ == units_text(units@)->0,
{
    let mut chars: Vec<char> = Vec::new();
    let mut i: usize = 0;
    proof {
        assert(units@.skip(0) =~= units@);
        if let Some(rest) = units_text(units@) {
            assert(chars@ + rest =~= rest);
        }
    }
    while i < units.len()
        invariant
            i <= units@.len(),
            units_text(units@) is Some == units_text(units@.skip(i as int)) is Some,
            units_text(units@) is Some ==> units_text(units@)->0 == chars@ + units_text(
                units@.skip(i as int),
            )->0,
        decreases units@.len() - i,
    {
        let ghost rest = units@.skip(i as int);
        let ghost before = chars@;
        let u: u16 = units[i];
        proof {
            assert(rest[0] == u);
            assert(rest.skip(1) =~= units@.skip(i + 1));
        }
        let single = !(0xD800 <= u && u < 0xE000);
        let code: u32;
        if single {
            proof {
                lemma_char_codes(u);
            }
            code = u as u32;
            i = i + 1;
        } else {
            if !(u < 0xDC00) || i + 1 >= units.len() {
                return None;
            }
            let v: u16 = units[i + 1];
            proof {
                assert(rest[1] == v);
                assert(rest.skip(2) =~= units@.skip(i + 2));
            }
            if !(0xDC00 <= v && v < 0xE000) {
                return None;
            }
            code = 0x10000 + (u as u32 - 0xD800) * 0x400 + (v as u32 - 0xDC00);
            i = i + 2;
        }
        match char::from_u32(code) {
            None => {
                return None;
            },
            Some(c) => {
                chars.push(c);
                proof {
                    if let Some(tail) = units_text(units@.skip(i as int)) {
                        assert(before + (seq![c] + tail) =~= chars@ + tail);
                    }
                }
            },
        }
    }
    proof {
        assert(units@.skip(i as int) =~= Seq::empty());
        assert(chars@ + Seq::<char>::empty() =~= chars@);
    }
    Some(chars)
}

fn push_unit(bytes: &mut Vec<u8>, unit: u16, greater_first: bool)
    ensures
        final(bytes)@ == old(bytes)@ + unit_bytes(unit, greater_first),
{
    let ghost before = bytes@;
    let high: u8 = (unit / 256) as u8;
    let low: u8 = (unit % 256) as u8;
    if greater_first {
        bytes.push(high);
        bytes.push(low);
    } else {
        bytes.push(low);
        bytes.push(high);
    }
    proof {
        assert(bytes@ =~= before + unit_bytes(unit, greater_first));
    }
}

proof fn lemma_units_bytes_push(u: Seq<u16>, unit: u16, greater_first: bool)
    ensures
        units_bytes(u.push(unit), greater_first) == units_bytes(u, greater_first) + unit_bytes(
            unit,
            greater_first,
        ),
{
    assert(u.push(unit).drop_last() =~= u);
}

fn encode_units(s: &[char], greater_first: bool, mark: Vec<u8>) -> (bytes: Vec<u8>)
    ensures
        bytes@ == mark@ + units_bytes(text_units(s@), greater_first),
{
    let ghost start = mark@;
    let mut bytes = mark;
    let mut i: usize = 0;
    let ghost mut written: Seq<u16> = Seq::empty();
    proof {
        assert(s@.skip(0) =~= s@);
        assert(written + text_units(s@) =~= text_units(s@));
        assert(bytes@ =~= start + units_bytes(written, greater_first));
    }
    while i < s.len()
        invariant
            i <= s@.len(),
            bytes@ == start + units_bytes(written, greater_first),
            written + text_units(s@.skip(i as int)) == text_units(s@),
        decreases s@.len() - i,
    {
        let ghost rest = s@.skip(i as int);
        let ghost before = written;
        let c = s[i];
        proof {
            assert(rest[0] == c);
            assert(rest.drop_first() =~= s@.skip(i + 1));
        }
        let code: u32 = c as u32;
        if code < 0x10000 {
            let unit: u16 = code as u16;
            push_unit(&mut bytes, unit, greater_first);
            proof {
                lemma_units_bytes_push(written, unit, greater_first);
                written = written.push(unit);
                assert(bytes@ =~= start + units_bytes(written, greater_first));
                assert(written =~= before + char_units(c));
            }
        } else {
            let over: u32 = code - 0x10000;
            let lead: u16 = (0xD800 + over / 0x400) as u16;
            let trail: u16 = (0xDC00 + over % 0x400) as u16;
            push_unit(&mut bytes, lead, greater_first);
            push_unit(&mut bytes, trail, greater_first);
            proof {
                lemma_units_bytes_push(written, lead, greater_first);
                lemma_units_bytes_push(written.push(lead), trail, greater_first);
                written = written.push(lead).push(trail);
                assert(bytes@ =~= start + units_bytes(written, greater_first));
                assert(written =~= before + char_units(c));
            }
        }
        proof {
            assert(written + text_units(s@.skip(i + 1)) =~= before + (char_units(c) + text_units(
                s@.skip(i + 1),
            )));
        }
        i = i + 1;
    }
    proof {
        assert(s@.skip(i as int) =~= Seq::empty());
        assert(written + Seq::<u16>::empty() =~= written);
    }
    bytes
}

// ---------------------------------------------------------------------------
// Bytes as text

/// `std::str::from_utf8`: the text of bytes, where they are UTF-8.
#[verifier::external_body]
fn from_utf8(bytes: &[u8]) -> (r: Option<String>)
    ensures
        r is Some == valid_utf8(bytes@),
        r is Some ==> r->0@ == decode_utf8(bytes@),
{
    std::str::from_utf8(bytes).ok().map(|text| text.to_owned())
}

/// The code of the character that a byte stands for in the encoding of Windows for
/// western languages: its own, but for most of those from 0x80 to 0x9f.
pub open spec fn windows_1252_code(b: u8) -> u32 {
    match b {
        0x80u8 => 0x20ac,
        0x82u8 => 0x201a,
        0x83u8 => 0x192,
        0x84u8 => 0x201e,
        0x85u8 => 0x2026,
        0x86u8 => 0x2020,
        0x87u8 => 0x2021,
        0x88u8 => 0x2c6,
        0x89u8 => 0x2030,
        0x8au8 => 0x160,
        0x8bu8 => 0x2039,
        0x8cu8 => 0x152,
        0x8eu8 => 0x17d,
        0x91u8 => 0x2018,
        0x92u8 => 0x2019,
        0x93u8 => 0x201c,
        0x94u8 => 0x201d,
        0x95u8 => 0x2022,
        0x96u8 => 0x2013,
        0x97u8 => 0x2014,
        0x98u8 => 0x2dc,
        0x99u8 => 0x2122,
        0x9au8 => 0x161,
        0x9bu8 => 0x203a,
        0x9cu8 => 0x153,
        0x9eu8 => 0x17e,
        0x9fu8 => 0x178,
        _ => b as u32,
    }
}

pub open spec fn windows_1252_char(b: u8) -> char {
    windows_1252_code(b) as char
}

/// The byte that stands for a character there, if one does.
pub open spec fn windows_1252_byte(c: char) -> Option<u8> {
    match c as u32 {
        0x20acu32 => Some(0x80),
        0x201au32 => Some(0x82),
        0x192u32 => Some(0x83),
        0x201eu32 => Some(0x84),
        0x2026u32 => Some(0x85),
        0x2020u32 => Some(0x86),
        0x2021u32 => Some(0x87),
        0x2c6u32 => Some(0x88),
        0x2030u32 => Some(0x89),
        0x160u32 => Some(0x8a),
        0x2039u32 => Some(0x8b),
        0x152u32 => Some(0x8c),
        0x17du32 => Some(0x8e),
        0x2018u32 => Some(0x91),
        0x2019u32 => Some(0x92),
        0x201cu32 => Some(0x93),
        0x201du32 => Some(0x94),
        0x2022u32 => Some(0x95),
        0x2013u32 => Some(0x96),
        0x2014u32 => Some(0x97),
        0x2dcu32 => Some(0x98),
        0x2122u32 => Some(0x99),
        0x161u32 => Some(0x9a),
        0x203au32 => Some(0x9b),
        0x153u32 => Some(0x9c),
        0x17eu32 => Some(0x9e),
        0x178u32 => Some(0x9f),
        code => if code < 0x80 || 0xa0 <= code <= 0xff || code == 0x81 || code == 0x8d || code
            == 0x8f || code == 0x90 || code == 0x9d {
            Some(code as u8)
        } else {
            None
        },
    }
}

pub open spec fn windows_1252_text(bytes: Seq<u8>) -> Seq<char> {
    bytes.map_values(|b: u8| windows_1252_char(b))
}

/// Every character of the text has a byte.
pub open spec fn in_windows_1252(s: Seq<char>) -> bool {
    forall|i: int| 0 <= i < s.len() ==> windows_1252_byte(#[trigger] s[i]) is Some
}

pub open spec fn windows_1252_bytes(s: Seq<char>) -> Seq<u8> {
    s.map_values(|c: char| windows_1252_byte(c)->0)
}

proof fn lemma_windows_1252_back(bytes: Seq<u8>)
    ensures
        in_windows_1252(windows_1252_text(bytes)),
        windows_1252_bytes(windows_1252_text(bytes)) == bytes,
{
    let s = windows_1252_text(bytes);
    assert forall|i: int| 0 <= i < s.len() implies windows_1252_byte(#[trigger] s[i]) == Some(
        bytes[i],
    ) by {
        let code = windows_1252_code(bytes[i]);
        assert(code < 0xd800);
        assert(s[i] as u32 == code);
    }
    assert(windows_1252_bytes(s) =~= bytes);
}

pub open spec fn starts_with_bytes(bytes: Seq<u8>, mark: Seq<u8>) -> bool {
    mark.is_prefix_of(bytes)
}

pub open spec fn utf8_mark() -> Seq<u8> {
    seq![0xefu8, 0xbbu8, 0xbfu8]
}

pub open spec fn utf16_mark(greater_first: bool) -> Seq<u8> {
    if greater_first {
        seq![0xfeu8, 0xffu8]
    } else {
        seq![0xffu8, 0xfeu8]
    }
}

/// The bytes begin with the mark of one of the Unicode encodings.
pub open spec fn has_mark(bytes: Seq<u8>) -> bool {
    starts_with_bytes(bytes, utf8_mark()) || starts_with_bytes(bytes, utf16_mark(true))
        || starts_with_bytes(bytes, utf16_mark(false))
}

/// `encoding_rs::Encoding::decode`, of `WINDOWS_1252`: of bytes without a mark, each
/// gives its character.
#[verifier::external_body]
fn decode_windows_1252(bytes: &[u8]) -> (r: String)
    requires
        !has_mark(bytes@),
    ensures
        r@ == windows_1252_text(bytes@),
{
    let (text, _, _) = encoding_rs::WINDOWS_1252.decode(bytes);
    text.into_owned()
}

/// `encoding_rs::Encoding::encode`, of `WINDOWS_1252`: the bytes of a text, and
/// whether some character has none. What stands for such a character is not said.
#[verifier::external_body]
fn encode_windows_1252(text: &str) -> (r: (Vec<u8>, bool))
    ensures
        r.1 == !in_windows_1252(text@),
        !r.1 ==> r.0@ == windows_1252_bytes(text@),
{
    let (bytes, _, had_errors) = encoding_rs::WINDOWS_1252.encode(text);
    (bytes.into_owned(), had_errors)
}

/// A text and its encoding, as a value.
pub struct DecodedModel {
    pub text: Seq<char>,
    pub encoding: Encoding,
}

pub open spec fn utf16_decoded(payload: Seq<u8>, greater_first: bool) -> Option<DecodedModel> {
    let text = units_text(byte_units(payload, greater_first));
    if payload.len() % 2 != 0 || text is None || binary_text(text->0) {
        None
    } else {
        Some(
            DecodedModel {
                text: text->0,
                encoding: if greater_first {
                    Encoding::Utf16Be
                } else {
                    Encoding::Utf16Le
                },
            },
        )
    }
}

/// What the bytes of a file say, if they are a text: by the mark they begin with,
/// and without one as UTF-8 where they are that.
pub open spec fn decoded(bytes: Seq<u8>) -> Option<DecodedModel> {
    if starts_with_bytes(bytes, utf8_mark()) {
        let payload = bytes.skip(3);
        if valid_utf8(payload) && !binary(payload) {
            Some(DecodedModel { text: decode_utf8(payload), encoding: Encoding::Utf8Bom })
        } else {
            None
        }
    } else if starts_with_bytes(bytes, utf16_mark(false)) {
        utf16_decoded(bytes.skip(2), false)
    } else if starts_with_bytes(bytes, utf16_mark(true)) {
        utf16_decoded(bytes.skip(2), true)
    } else if binary(bytes) {
        None
    } else if valid_utf8(bytes) {
        Some(DecodedModel { text: decode_utf8(bytes), encoding: Encoding::Utf8 })
    } else {
        Some(
            DecodedModel { text: windows_1252_text(bytes), encoding: Encoding::Windows1252 },
        )
    }
}

/// The bytes of a text in an encoding, if it can be said there.
pub open spec fn encoded(s: Seq<char>, encoding: Encoding) -> Option<Seq<u8>> {
    match encoding {
        Encoding::Utf8 => Some(encode_utf8(s)),
        Encoding::Utf8Bom => Some(utf8_mark() + encode_utf8(s)),
        Encoding::Utf16Le => Some(utf16_mark(false) + units_bytes(text_units(s), false)),
        Encoding::Utf16Be => Some(utf16_mark(true) + units_bytes(text_units(s), true)),
        Encoding::Windows1252 => {
            if in_windows_1252(s) {
                Some(windows_1252_bytes(s))
            } else {
                None
            }
        },
    }
}

fn after(bytes: &[u8], n: usize) -> (r: Vec<u8>)
    requires
        n <= bytes@.len(),
    ensures
        r@ == bytes@.skip(n as int),
{
    let mut r: Vec<u8> = Vec::new();
    let mut i: usize = n;
    while i < bytes.len()
        invariant
            n <= i <= bytes@.len(),
            r@ == bytes@.subrange(n as int, i as int),
        decreases bytes@.len() - i,
    {
        r.push(bytes[i]);
        proof {
            assert(r@ =~= bytes@.subrange(n as int, i + 1));
        }
        i = i + 1;
    }
    proof {
        assert(r@ =~= bytes@.skip(n as int));
    }
    r
}

fn decode_utf16(payload: &[u8], greater_first: bool) -> (r: Option<DecodedText>)
    ensures
        r is Some == utf16_decoded(payload@, greater_first) is Some,
        r is Some ==> r->0.text@ == utf16_decoded(payload@, greater_first)->0.text
            && r->0.encoding == utf16_decoded(payload@, greater_first)->0.encoding,
{
    if payload.len() % 2 != 0 {
        return None;
    }
    let units = read_units(payload, greater_first);
    match decode_units(units.as_slice()) {
        None => None,
        Some(text) => {
            if looks_binary_text(text.as_slice()) {
                return None;
            }
            let encoding = if greater_first {
                Encoding::Utf16Be
            } else {
                Encoding::Utf16Le
            };
            Some(DecodedText { text, encoding })
        },
    }
}

fn marked_utf8(bytes: &[u8]) -> (r: bool)
    ensures
        r == starts_with_bytes(bytes@, utf8_mark()),
{
    let r = bytes.len() >= 3 && bytes[0] == 0xef && bytes[1] == 0xbb && bytes[2] == 0xbf;
    proof {
        if r {
            assert(bytes@.subrange(0, 3) =~= utf8_mark());
        }
        if starts_with_bytes(bytes@, utf8_mark()) {
            let head = bytes@.subrange(0, 3);
            assert(head[0] == utf8_mark()[0] && head[1] == utf8_mark()[1] && head[2]
                == utf8_mark()[2]);
        }
    }
    r
}

fn marked_utf16(bytes: &[u8], greater_first: bool) -> (r: bool)
    ensures
        r == starts_with_bytes(bytes@, utf16_mark(greater_first)),
{
    let first: u8 = if greater_first {
        0xfe
    } else {
        0xff
    };
    let second: u8 = if greater_first {
        0xff
    } else {
        0xfe
    };
    let r = bytes.len() >= 2 && bytes[0] == first && bytes[1] == second;
    proof {
        if r {
            assert(bytes@.subrange(0, 2) =~= utf16_mark(greater_first));
        }
        if starts_with_bytes(bytes@, utf16_mark(greater_first)) {
            let head = bytes@.subrange(0, 2);
            assert(head[0] == utf16_mark(greater_first)[0] && head[1] == utf16_mark(
                greater_first,
            )[1]);
        }
    }
    r
}

proof fn lemma_marked(bytes: Seq<u8>, mark: Seq<u8>)
    requires
        starts_with_bytes(bytes, mark),
    ensures
        mark + bytes.skip(mark.len() as int) == bytes,
{
    assert(bytes.subrange(0, mark.len() as int) == mark);
    assert(mark + bytes.skip(mark.len() as int) =~= bytes) by {
        assert forall|i: int| 0 <= i < mark.len() implies bytes[i] == mark[i] by {
            assert(bytes.subrange(0, mark.len() as int)[i] == mark[i]);
        }
    }
}

/// The units of the text of some units are these units.
proof fn lemma_units_back(u: Seq<u16>)
    requires
        units_text(u) is Some,
    ensures
        text_units(units_text(u)->0) == u,
    decreases u.len(),
{
    if u.len() > 0 {
        if !is_lead(u[0]) && !is_trail(u[0]) {
            lemma_units_back(u.skip(1));
            let c = u[0] as u32 as char;
            let rest = units_text(u.skip(1))->0;
            let s = seq![c] + rest;
            assert(c as u32 == u[0] as u32);
            assert(s.drop_first() =~= rest);
            assert(text_units(s) =~= u);
        } else {
            lemma_units_back(u.skip(2));
            let code = pair_code(u[0], u[1]);
            let c = code as char;
            let rest = units_text(u.skip(2))->0;
            let s = seq![c] + rest;
            assert(0x10000 <= code <= 0x10FFFF);
            assert(c as u32 == code);
            assert((code - 0x10000) / 0x400 == u[0] - 0xD800 && (code - 0x10000) % 0x400 == u[1]
                - 0xDC00);
            assert(s.drop_first() =~= rest);
            assert(text_units(s) =~= u);
        }
    } else {
        assert(u =~= Seq::empty());
    }
}

/// The bytes of the units of some bytes are these bytes.
proof fn lemma_unit_bytes_back(bytes: Seq<u8>, greater_first: bool)
    requires
        bytes.len() % 2 == 0,
    ensures
        units_bytes(byte_units(bytes, greater_first), greater_first) == bytes,
    decreases bytes.len(),
{
    if bytes.len() > 0 {
        let n = bytes.len() as int;
        let fewer = bytes.take(n - 2);
        lemma_unit_bytes_back(fewer, greater_first);
        let all = byte_units(bytes, greater_first);
        assert(all.drop_last() =~= byte_units(fewer, greater_first)) by {
            assert forall|i: int| 0 <= i < n / 2 - 1 implies all[i] == byte_units(
                fewer,
                greater_first,
            )[i] by {
                assert(fewer[2 * i] == bytes[2 * i]);
                assert(fewer[2 * i + 1] == bytes[2 * i + 1]);
            }
        }
        let a = bytes[n - 2];
        let b = bytes[n - 1];
        assert(all.last() == unit_of(a, b, greater_first));
        assert(unit_bytes(all.last(), greater_first) =~= seq![a, b]);
        assert(bytes =~= fewer + seq![a, b]);
    } else {
        assert(bytes =~= Seq::empty());
    }
}

proof fn lemma_utf16_back(payload: Seq<u8>, greater_first: bool)
    ensures
        utf16_decoded(payload, greater_first) is Some ==> units_bytes(
            text_units(utf16_decoded(payload, greater_first)->0.text),
            greater_first,
        ) == payload,
{
    if utf16_decoded(payload, greater_first) is Some {
        lemma_units_back(byte_units(payload, greater_first));
        lemma_unit_bytes_back(payload, greater_first);
    }
}

/// The text of a file, if it is one. Encoding it again gives the same bytes.
pub fn decode_search_text(bytes: &[u8]) -> (r: Option<DecodedText>)
    ensures
        r is Some == decoded(bytes@) is Some,
        r is Some ==> r->0.text@ == decoded(bytes@)->0.text && r->0.encoding
            == decoded(bytes@)->0.encoding,
        r is Some ==> encoded(r->0.text@, r->0.encoding) == Some(bytes@),
{
    if marked_utf8(bytes) {
        let payload = after(bytes, 3);
        proof {
            lemma_marked(bytes@, utf8_mark());
            if valid_utf8(payload@) {
                decode_utf8_encode_utf8(payload@);
            }
        }
        return match from_utf8(payload.as_slice()) {
            None => None,
            Some(text) => {
                if looks_binary(payload.as_slice()) {
                    None
                } else {
                    Some(
                        DecodedText {
                            text: text::chars_of(text.as_str()),
                            encoding: Encoding::Utf8Bom,
                        },
                    )
                }
            },
        };
    }
    if marked_utf16(bytes, false) {
        let payload = after(bytes, 2);
        proof {
            lemma_marked(bytes@, utf16_mark(false));
            lemma_utf16_back(payload@, false);
        }
        return decode_utf16(payload.as_slice(), false);
    }
    if marked_utf16(bytes, true) {
        let payload = after(bytes, 2);
        proof {
            lemma_marked(bytes@, utf16_mark(true));
            lemma_utf16_back(payload@, true);
        }
        return decode_utf16(payload.as_slice(), true);
    }
    if looks_binary(bytes) {
        return None;
    }
    if let Some(text) = from_utf8(bytes) {
        proof {
            decode_utf8_encode_utf8(bytes@);
        }
        return Some(
            DecodedText { text: text::chars_of(text.as_str()), encoding: Encoding::Utf8 },
        );
    }
    proof {
        lemma_windows_1252_back(bytes@);
    }
    let text = decode_windows_1252(bytes);
    Some(DecodedText { text: text::chars_of(text.as_str()), encoding: Encoding::Windows1252 })
}

/// The bytes of a text, if the encoding has them.
pub fn encode_edit_text(s: &[char], encoding: Encoding) -> (r: Option<Vec<u8>>)
    ensures
        r is Some == encoded(s@, encoding) is Some,
        r is Some ==> r->0@ == encoded(s@, encoding)->0,
{
    match encoding {
        Encoding::Utf8 => {
            let text = text::string_of(s);
            Some(after(text.as_str().as_bytes(), 0))
        },
        Encoding::Utf8Bom => {
            let mut bytes: Vec<u8> = Vec::new();
            bytes.push(0xef);
            bytes.push(0xbb);
            bytes.push(0xbf);
            proof {
                assert(bytes@ =~= utf8_mark());
            }
            let text = text::string_of(s);
            codec::push_byte_slice(&mut bytes, text.as_str().as_bytes());
            Some(bytes)
        },
        Encoding::Utf16Le => {
            let mut mark: Vec<u8> = Vec::new();
            mark.push(0xff);
            mark.push(0xfe);
            proof {
                assert(mark@ =~= utf16_mark(false));
            }
            Some(encode_units(s, false, mark))
        },
        Encoding::Utf16Be => {
            let mut mark: Vec<u8> = Vec::new();
            mark.push(0xfe);
            mark.push(0xff);
            proof {
                assert(mark@ =~= utf16_mark(true));
            }
            Some(encode_units(s, true, mark))
        },
        Encoding::Windows1252 => {
            let text = text::string_of(s);
            let (bytes, had_errors) = encode_windows_1252(text.as_str());
            if had_errors {
                None
            } else {
                Some(bytes)
            }
        },
    }
}

// ---------------------------------------------------------------------------
// Laws

/// A text comes back from its units.
pub proof fn units_give_the_text_back(s: Seq<char>)
    ensures
        units_text(text_units(s)) == Some(s),
    decreases s.len(),
{
    let u = text_units(s);
    if s.len() > 0 {
        let c = s[0];
        let rest = s.drop_first();
        units_give_the_text_back(rest);
        vstd::utf8::char_is_scalar(c);
        assert(s =~= seq![c] + rest);
        if (c as u32) < 0x10000 {
            assert(u.skip(1) =~= text_units(rest));
            assert(u[0] == (c as u32) as u16);
            assert(u[0] as u32 == c as u32);
            vstd::utf8::char_u32_cast(c, u[0] as u32);
        } else {
            assert(u.skip(2) =~= text_units(rest));
            assert(pair_code(u[0], u[1]) == c as u32);
            vstd::utf8::char_u32_cast(c, pair_code(u[0], u[1]));
        }
    } else {
        assert(s =~= Seq::empty());
    }
}

/// The units of the bytes of some units are these units.
proof fn lemma_units_of_bytes(u: Seq<u16>, greater_first: bool)
    ensures
        units_bytes(u, greater_first).len() == 2 * u.len(),
        byte_units(units_bytes(u, greater_first), greater_first) == u,
    decreases u.len(),
{
    let bytes = units_bytes(u, greater_first);
    if u.len() > 0 {
        let fewer = units_bytes(u.drop_last(), greater_first);
        lemma_units_of_bytes(u.drop_last(), greater_first);
        let last = unit_bytes(u.last(), greater_first);
        let n = u.len() as int;
        assert(bytes =~= fewer + last);
        assert forall|i: int| 0 <= i < n implies #[trigger] byte_units(bytes, greater_first)[i]
            == u[i] by {
            if i < n - 1 {
                assert(bytes[2 * i] == fewer[2 * i] && bytes[2 * i + 1] == fewer[2 * i + 1]);
                assert(byte_units(fewer, greater_first)[i] == u.drop_last()[i]);
            } else {
                assert(bytes[2 * i] == last[0] && bytes[2 * i + 1] == last[1]);
            }
        }
        assert(byte_units(bytes, greater_first) =~= u);
    } else {
        assert(byte_units(bytes, greater_first) =~= u);
    }
}

/// A text that was written in an encoding is read back as it was, unless it does not
/// look like a text, or is taken for another encoding: by what it begins with, or
/// because its bytes are UTF-8 as well.
pub proof fn written_texts_are_read_back(s: Seq<char>, encoding: Encoding)
    requires
        encoding == Encoding::Windows1252 ==> in_windows_1252(s) && !has_mark(
            windows_1252_bytes(s),
        ) && !binary(windows_1252_bytes(s)) && !valid_utf8(windows_1252_bytes(s)),
        encoding == Encoding::Utf8 ==> !has_mark(encode_utf8(s)),
        encoding == Encoding::Utf8 || encoding == Encoding::Utf8Bom ==> !binary(encode_utf8(s)),
        encoding == Encoding::Utf16Le || encoding == Encoding::Utf16Be ==> !binary_text(s),
    ensures
        encoded(s, encoding) is Some,
        decoded(encoded(s, encoding)->0) == Some(DecodedModel { text: s, encoding }),
{
    let bytes = encoded(s, encoding)->0;
    vstd::utf8::encode_utf8_valid_utf8(s);
    vstd::utf8::encode_utf8_decode_utf8(s);
    units_give_the_text_back(s);
    if encoding == Encoding::Utf8Bom {
        assert(bytes.subrange(0, 3) =~= utf8_mark());
        assert(bytes.skip(3) =~= encode_utf8(s));
    } else if encoding == Encoding::Windows1252 {
        assert forall|i: int| 0 <= i < s.len() implies windows_1252_char(
            windows_1252_byte(#[trigger] s[i])->0,
        ) == s[i] by {
            let code = s[i] as u32;
            assert(windows_1252_code(windows_1252_byte(s[i])->0) == code);
            vstd::utf8::char_u32_cast(s[i], code);
        }
        assert(windows_1252_text(bytes) =~= s);
    } else if encoding != Encoding::Utf8 {
        let greater_first = encoding == Encoding::Utf16Be;
        let payload = units_bytes(text_units(s), greater_first);
        lemma_units_of_bytes(text_units(s), greater_first);
        assert(bytes.subrange(0, 2) =~= utf16_mark(greater_first));
        assert(bytes.skip(2) =~= payload);
        assert(bytes[0] == utf16_mark(greater_first)[0]);
        assert(!starts_with_bytes(bytes, utf8_mark())) by {
            if starts_with_bytes(bytes, utf8_mark()) {
                assert(bytes.subrange(0, 3)[0] == utf8_mark()[0]);
            }
        }
        assert(greater_first ==> !starts_with_bytes(bytes, utf16_mark(false))) by {
            if starts_with_bytes(bytes, utf16_mark(false)) {
                assert(bytes.subrange(0, 2)[0] == utf16_mark(false)[0]);
            }
        }
    }
}

/// Encodings are told by these names.
pub proof fn encodings_are_told_by_names(encoding: Encoding)
    ensures
        encoding is Utf8 <==> encoding_name(encoding) == "utf-8"@,
        encoding is Utf8Bom <==> encoding_name(encoding) == "utf-8-bom"@,
        encoding is Utf16Le <==> encoding_name(encoding) == "utf-16le"@,
        encoding is Utf16Be <==> encoding_name(encoding) == "utf-16be"@,
        encoding is Windows1252 <==> encoding_name(encoding) == "windows-1252"@,
{
    reveal_strlit("utf-8");
    reveal_strlit("utf-8-bom");
    reveal_strlit("utf-16le");
    reveal_strlit("utf-16be");
    reveal_strlit("windows-1252");
    assert("utf-8"@.len() == 5);
    assert("utf-8-bom"@.len() == 9);
    assert("utf-16le"@.len() == 8);
    assert("utf-16be"@.len() == 8);
    assert("windows-1252"@.len() == 12);
    assert("utf-16le"@[6] == 'l' && "utf-16be"@[6] == 'b');
}

/// Bytes are no text exactly when one is zero, or when more than one in ten is a control
/// below the space that is neither a tab, a line feed nor a carriage return, or is 127.
pub proof fn bytes_are_no_text_by_their_controls(bytes: Seq<u8>)
    ensures
        binary(bytes) == (bytes.contains(0u8) || 10 * bytes.filter(
            |b: u8| (0 < b && b < 32 && b != 9 && b != 10 && b != 13) || b == 127,
        ).len() > bytes.len()),
{
    lemma_odd_bytes(bytes);
}

proof fn lemma_odd_bytes(bytes: Seq<u8>)
    ensures
        odd_bytes(bytes) == bytes.filter(
            |b: u8| (0 < b && b < 32 && b != 9 && b != 10 && b != 13) || b == 127,
        ).len(),
    decreases bytes.len(),
{
    reveal(Seq::filter);
    if bytes.len() > 0 {
        lemma_odd_bytes(bytes.drop_last());
    }
}

/// Characters are no text exactly when more than one in ten is a control that is neither a
/// tab, a line feed nor a carriage return.
pub proof fn characters_are_no_text_by_their_controls(s: Seq<char>)
    ensures
        binary_text(s) == (10 * s.filter(
            |c: char|
                ((c as u32) < 32 || 127 <= c as u32 <= 159) && c != '\t' && c != '\n' && c != '\r',
        ).len() > s.len()),
{
    lemma_odd_chars(s);
}

proof fn lemma_odd_chars(s: Seq<char>)
    ensures
        odd_chars(s) == s.filter(
            |c: char|
                ((c as u32) < 32 || 127 <= c as u32 <= 159) && c != '\t' && c != '\n' && c != '\r',
        ).len(),
    decreases s.len(),
{
    reveal(Seq::filter);
    if s.len() > 0 {
        lemma_odd_chars(s.drop_last());
        text::white_space_and_controls_by_code(s.last());
    }
}

/// A character below 65536 is its own unit; one above takes a unit from 55296 on and one
/// from 56320 on, which count how far it lies above, in steps of 1024 and of one. Texts
/// that follow each other have units that follow each other.
pub proof fn characters_take_their_units(a: Seq<char>, b: Seq<char>, c: char)
    ensures
        text_units(a + b) == text_units(a) + text_units(b),
        (c as u32) < 65536 ==> text_units(seq![c]).len() == 1 && text_units(seq![c])[0] == c as u32,
        c as u32 >= 65536 ==> text_units(seq![c]).len() == 2 && 55296 <= text_units(seq![c])[0]
            < 56320 && 56320 <= text_units(seq![c])[1] < 57344 && c as u32 == 65536 + 1024 * (
        text_units(seq![c])[0] - 55296) + (text_units(seq![c])[1] - 56320),
    decreases a.len(),
{
    assert(seq![c].drop_first() =~= Seq::<char>::empty());
    assert(text_units(Seq::<char>::empty()) =~= Seq::<u16>::empty());
    assert(text_units(seq![c]) =~= char_units(c));
    vstd::utf8::char_is_scalar(c);
    if a.len() == 0 {
        assert(a + b =~= b);
        assert(text_units(a) + text_units(b) =~= text_units(b));
    } else {
        characters_take_their_units(a.drop_first(), b, c);
        assert((a + b).drop_first() =~= a.drop_first() + b);
        assert(text_units(a + b) =~= text_units(a) + text_units(b));
    }
}

/// Units are written as two bytes each behind the mark 254 255, the greater first, or behind
/// the mark 255 254, the greater last.
pub proof fn units_are_written_behind_their_mark(s: Seq<char>, i: int)
    requires
        0 <= i < text_units(s).len(),
    ensures
        ({
            let bytes = encoded(s, Encoding::Utf16Be)->0;
            &&& bytes.len() == 2 + 2 * text_units(s).len()
            &&& bytes[0] == 254 && bytes[1] == 255
            &&& bytes[2 + 2 * i] * 256 + bytes[3 + 2 * i] == text_units(s)[i]
        }),
        ({
            let bytes = encoded(s, Encoding::Utf16Le)->0;
            &&& bytes.len() == 2 + 2 * text_units(s).len()
            &&& bytes[0] == 255 && bytes[1] == 254
            &&& bytes[2 + 2 * i] + 256 * bytes[3 + 2 * i] == text_units(s)[i]
        }),
{
    lemma_units_of_bytes(text_units(s), true);
    lemma_units_of_bytes(text_units(s), false);
    let above = units_bytes(text_units(s), true);
    let below = units_bytes(text_units(s), false);
    assert(byte_units(above, true)[i] == text_units(s)[i]);
    assert(byte_units(below, false)[i] == text_units(s)[i]);
    let be = encoded(s, Encoding::Utf16Be)->0;
    let le = encoded(s, Encoding::Utf16Le)->0;
    assert(be[2 + 2 * i] == above[2 * i] && be[3 + 2 * i] == above[2 * i + 1]);
    assert(le[2 + 2 * i] == below[2 * i] && le[3 + 2 * i] == below[2 * i + 1]);
}

/// Texts in UTF-8 are written as that, behind the mark 239 187 191 where they have one; a
/// text is written in the old encoding exactly when each of its characters has a byte there,
/// and then as these bytes.
pub proof fn texts_are_written_in_their_encoding(s: Seq<char>)
    ensures
        encoded(s, Encoding::Utf8) == Some(encode_utf8(s)),
        encoded(s, Encoding::Utf8Bom) is Some,
        encoded(s, Encoding::Utf8Bom)->0.len() == 3 + encode_utf8(s).len(),
        encoded(s, Encoding::Utf8Bom)->0[0] == 239,
        encoded(s, Encoding::Utf8Bom)->0[1] == 187,
        encoded(s, Encoding::Utf8Bom)->0[2] == 191,
        encoded(s, Encoding::Utf8Bom)->0.skip(3) == encode_utf8(s),
        encoded(s, Encoding::Utf16Le) is Some,
        encoded(s, Encoding::Utf16Be) is Some,
        encoded(s, Encoding::Windows1252) is Some == (forall|i: int|
            0 <= i < s.len() ==> windows_1252_byte(#[trigger] s[i]) is Some),
        encoded(s, Encoding::Windows1252) matches Some(bytes) ==> bytes.len() == s.len()
            && windows_1252_text(bytes) == s,
{
    assert((utf8_mark() + encode_utf8(s)).skip(3) =~= encode_utf8(s));
    if in_windows_1252(s) {
        let bytes = windows_1252_bytes(s);
        assert forall|i: int| 0 <= i < s.len() implies windows_1252_char(
            windows_1252_byte(#[trigger] s[i])->0,
        ) == s[i] by {
            let code = s[i] as u32;
            assert(windows_1252_code(windows_1252_byte(s[i])->0) == code);
            vstd::utf8::char_u32_cast(s[i], code);
        }
        assert(windows_1252_text(bytes) =~= s);
    }
}

/// The bytes of a file are told by their mark, and without one are UTF-8 if they can be and
/// of the old encoding otherwise; they are read unless they are no text.
pub proof fn files_are_told_by_their_mark(bytes: Seq<u8>)
    ensures
        ({
            let utf8_bom = bytes.len() >= 3 && bytes[0] == 239 && bytes[1] == 187 && bytes[2]
                == 191;
            let utf16_le = bytes.len() >= 2 && bytes[0] == 255 && bytes[1] == 254;
            let utf16_be = bytes.len() >= 2 && bytes[0] == 254 && bytes[1] == 255;
            let r = decoded(bytes);
            &&& r matches Some(d) ==> (d.encoding is Utf8Bom) == utf8_bom && (d.encoding is Utf16Le)
                == utf16_le && (d.encoding is Utf16Be) == utf16_be && (d.encoding is Utf8) == (
            !utf8_bom && !utf16_le && !utf16_be && valid_utf8(bytes))
            &&& utf8_bom ==> (r is Some) == (valid_utf8(bytes.skip(3)) && !binary(bytes.skip(3)))
            &&& utf16_le || utf16_be ==> (r is Some) == (bytes.len() % 2 == 0 && units_text(
                byte_units(bytes.skip(2), utf16_be),
            ) is Some && !binary_text(units_text(byte_units(bytes.skip(2), utf16_be))->0))
            &&& !utf8_bom && !utf16_le && !utf16_be ==> (r is Some) == !binary(bytes)
            &&& r matches Some(d) ==> (d.encoding is Utf8 ==> encode_utf8(d.text) == bytes)
            &&& r matches Some(d) ==> (d.encoding is Utf8Bom ==> encode_utf8(d.text) == bytes.skip(
                3,
            ))
            &&& r matches Some(d) ==> (d.encoding is Windows1252 ==> d.text == windows_1252_text(
                bytes,
            ))
        }),
{
    let three = seq![239u8, 187u8, 191u8];
    let below = seq![255u8, 254u8];
    let above = seq![254u8, 255u8];
    if bytes.len() >= 3 {
        assert(bytes.subrange(0, 3)[0] == bytes[0] && bytes.subrange(0, 3)[1] == bytes[1]
            && bytes.subrange(0, 3)[2] == bytes[2]);
        assert(three[0] == 239 && three[1] == 187 && three[2] == 191);
        if bytes[0] == 239 && bytes[1] == 187 && bytes[2] == 191 {
            assert(bytes.subrange(0, 3) =~= three);
        }
    }
    if bytes.len() >= 2 {
        assert(bytes.subrange(0, 2)[0] == bytes[0] && bytes.subrange(0, 2)[1] == bytes[1]);
        assert(below[0] == 255 && below[1] == 254 && above[0] == 254 && above[1] == 255);
        if bytes[0] == 255 && bytes[1] == 254 {
            assert(bytes.subrange(0, 2) =~= below);
        }
        if bytes[0] == 254 && bytes[1] == 255 {
            assert(bytes.subrange(0, 2) =~= above);
        }
    }
    if valid_utf8(bytes) {
        vstd::utf8::decode_utf8_encode_utf8(bytes);
    }
    if bytes.len() >= 3 && valid_utf8(bytes.skip(3)) {
        vstd::utf8::decode_utf8_encode_utf8(bytes.skip(3));
    }
}

/// Units have a text exactly when they are the units of one, which it then is.
pub proof fn units_have_the_text_they_belong_to(u: Seq<u16>, s: Seq<char>)
    ensures
        units_text(u) == Some(s) <==> text_units(s) == u,
{
    units_give_the_text_back(s);
    if units_text(u) is Some {
        lemma_units_back(u);
    }
}

} // verus!
