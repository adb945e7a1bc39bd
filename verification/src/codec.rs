//! Bytes as text and text as bytes: big-endian integers, hexadecimal, base64.

use base64::engine::general_purpose::{STANDARD, URL_SAFE_NO_PAD};
use base64::Engine;
use vstd::prelude::*;
use vstd::utf8::*;

use crate::text;

verus! {

/// A number below 2^32 as four bytes, the highest first.
pub open spec fn be32(n: int) -> Seq<u8> {
    seq![
        (n / 0x100_0000 % 0x100) as u8,
        (n / 0x1_0000 % 0x100) as u8,
        (n / 0x100 % 0x100) as u8,
        (n % 0x100) as u8,
    ]
}

/// A number below 2^64 as eight bytes, the highest first.
pub open spec fn be64(n: int) -> Seq<u8> {
    be32(n / 0x1_0000_0000) + be32(n % 0x1_0000_0000)
}

/// Four bytes give back the number they were made of.
pub proof fn lemma_be32_injective(a: int, b: int)
    requires
        0 <= a < 0x1_0000_0000,
        0 <= b < 0x1_0000_0000,
        be32(a) == be32(b),
    ensures
        a == b,
{
    assert(be32(a)[0] == be32(b)[0]);
    assert(be32(a)[1] == be32(b)[1]);
    assert(be32(a)[2] == be32(b)[2]);
    assert(be32(a)[3] == be32(b)[3]);
    assert(a / 0x100_0000 < 0x100 && b / 0x100_0000 < 0x100);
    lemma_four_digits(a);
    lemma_four_digits(b);
}

proof fn lemma_four_digits(n: int)
    requires
        0 <= n < 0x1_0000_0000,
    ensures
        n == (n / 0x100_0000 % 0x100) * 0x100_0000 + (n / 0x1_0000 % 0x100) * 0x1_0000 + (n / 0x100
            % 0x100) * 0x100 + n % 0x100,
{
    assert(n / 0x1_0000 == (n / 0x100) / 0x100);
    assert(n / 0x100_0000 == (n / 0x1_0000) / 0x100);
}

pub proof fn lemma_be64_injective(a: int, b: int)
    requires
        0 <= a < 0x1_0000_0000_0000_0000,
        0 <= b < 0x1_0000_0000_0000_0000,
        be64(a) == be64(b),
    ensures
        a == b,
{
    let n: int = 0x1_0000_0000;
    assert(be64(a).take(4) =~= be32(a / n));
    assert(be64(b).take(4) =~= be32(b / n));
    assert(be64(a).skip(4) =~= be32(a % n));
    assert(be64(b).skip(4) =~= be32(b % n));
    lemma_be32_injective(a / n, b / n);
    lemma_be32_injective(a % n, b % n);
}

pub fn push_byte_slice(out: &mut Vec<u8>, bytes: &[u8])
    ensures
        final(out)@ == old(out)@ + bytes@,
{
    let mut i: usize = 0;
    while i < bytes.len()
        invariant
            i <= bytes@.len(),
            out@ == old(out)@ + bytes@.take(i as int),
        decreases bytes@.len() - i,
    {
        proof {
            assert(bytes@.take(i + 1) =~= bytes@.take(i as int).push(bytes@[i as int]));
        }
        out.push(bytes[i]);
        i = i + 1;
    }
    proof {
        assert(bytes@.take(bytes@.len() as int) =~= bytes@);
    }
}

pub fn push_be32(out: &mut Vec<u8>, n: u32)
    ensures
        final(out)@ == old(out)@ + be32(n as int),
{
    let ghost before = out@;
    out.push((n / 0x100_0000 % 0x100) as u8);
    out.push((n / 0x1_0000 % 0x100) as u8);
    out.push((n / 0x100 % 0x100) as u8);
    out.push((n % 0x100) as u8);
    proof {
        assert(out@ =~= before + be32(n as int));
    }
}

pub fn push_be64(out: &mut Vec<u8>, n: u64)
    ensures
        final(out)@ == old(out)@ + be64(n as int),
{
    let ghost before = out@;
    push_be32(out, (n / 0x1_0000_0000) as u32);
    push_be32(out, (n % 0x1_0000_0000) as u32);
    proof {
        assert(out@ =~= before + be64(n as int));
    }
}

pub fn same_bytes(a: &[u8], b: &[u8]) -> (r: bool)
    ensures
        r == (a@ == b@),
{
    if a.len() != b.len() {
        return false;
    }
    let mut i: usize = 0;
    while i < a.len()
        invariant
            a@.len() == b@.len(),
            i <= a@.len(),
            forall|k: int| 0 <= k < i ==> a@[k] == b@[k],
        decreases a@.len() - i,
    {
        if a[i] != b[i] {
            return false;
        }
        i = i + 1;
    }
    proof {
        assert(a@ =~= b@);
    }
    true
}

/// The small hexadecimal digit of a number below sixteen.
pub open spec fn hex_digit(n: int) -> char {
    if n < 10 {
        ('0' as int + n) as char
    } else {
        ('a' as int + n - 10) as char
    }
}

/// The value of a hexadecimal digit of either case.
pub open spec fn hex_value(c: char) -> Option<int> {
    if '0' <= c <= '9' {
        Some(c as int - '0' as int)
    } else if 'a' <= c <= 'f' {
        Some(c as int - 'a' as int + 10)
    } else if 'A' <= c <= 'F' {
        Some(c as int - 'A' as int + 10)
    } else {
        None
    }
}

/// Two small digits for each byte.
pub open spec fn hex_text(bytes: Seq<u8>) -> Seq<char> {
    Seq::new(
        2 * bytes.len(),
        |i: int|
            if i % 2 == 0 {
                hex_digit(bytes[i / 2] as int / 16)
            } else {
                hex_digit(bytes[i / 2] as int % 16)
            },
    )
}

/// An even number of hexadecimal digits and nothing else.
pub open spec fn is_hex(s: Seq<char>) -> bool {
    s.len() % 2 == 0 && forall|i: int| 0 <= i < s.len() ==> hex_value(#[trigger] s[i]) is Some
}

/// The bytes that pairs of digits stand for.
pub open spec fn hex_bytes(s: Seq<char>) -> Seq<u8> {
    Seq::new(
        s.len() / 2,
        |i: int| (16 * hex_value(s[2 * i])->0 + hex_value(s[2 * i + 1])->0) as u8,
    )
}

/// Reading back what was written gives the bytes.
pub proof fn hex_round_trip(bytes: Seq<u8>)
    ensures
        is_hex(hex_text(bytes)),
        hex_bytes(hex_text(bytes)) == bytes,
{
    let s = hex_text(bytes);
    assert forall|i: int| 0 <= i < s.len() implies hex_value(#[trigger] s[i]) is Some by {
        lemma_hex_digit(bytes[i / 2] as int / 16);
        lemma_hex_digit(bytes[i / 2] as int % 16);
    }
    assert forall|i: int| 0 <= i < bytes.len() implies hex_bytes(s)[i] == bytes[i] by {
        lemma_hex_digit(bytes[i] as int / 16);
        lemma_hex_digit(bytes[i] as int % 16);
        assert((2 * i) / 2 == i && (2 * i) % 2 == 0);
        assert((2 * i + 1) / 2 == i && (2 * i + 1) % 2 == 1);
    }
    assert(hex_bytes(s) =~= bytes);
}

proof fn lemma_hex_digit(n: int)
    requires
        0 <= n < 16,
    ensures
        hex_value(hex_digit(n)) == Some(n),
{
}

/// `hex::encode`: two small hexadecimal digits for each byte, in order.
#[verifier::external_body]
pub(crate) fn to_hex(bytes: &[u8]) -> (encoded: String)
    ensures
        encoded@ == hex_text(bytes@),
{
    hex::encode(bytes)
}

/// `hex::decode`: digits of either case, in pairs. Refused are an odd number
/// of bytes and anything that is not a digit.
#[verifier::external_body]
pub(crate) fn from_hex(encoded: &str) -> (bytes: Option<Vec<u8>>)
    ensures
        bytes is Some == is_hex(encoded@),
        bytes is Some ==> bytes->0@ == hex_bytes(encoded@),
{
    hex::decode(encoded).ok()
}

/// The text of some bytes in base64 with the URL-safe alphabet, unpadded.
pub uninterp spec fn url_base64(bytes: Seq<u8>) -> Seq<char>;

/// The text of some bytes in padded base64 with the standard alphabet.
pub uninterp spec fn standard_base64(bytes: Seq<u8>) -> Seq<char>;

/// What padded base64 text of the standard alphabet stands for, if anything.
pub uninterp spec fn standard_base64_bytes(encoded: Seq<char>) -> Option<Seq<u8>>;

/// `URL_SAFE_NO_PAD.encode` of `base64`: a function of the bytes, and a text that is
/// empty only if there are none.
#[verifier::external_body]
pub(crate) fn to_url_base64(bytes: &[u8]) -> (encoded: String)
    ensures
        encoded@ == url_base64(bytes@),
        encoded@.len() > 0 <==> bytes@.len() > 0,
{
    URL_SAFE_NO_PAD.encode(bytes)
}

/// `STANDARD.encode` of `base64`: a function of the bytes, all of it ASCII, and empty
/// only if there are none; what it writes decodes to the bytes again.
#[verifier::external_body]
pub(crate) fn to_standard_base64(bytes: &[u8]) -> (encoded: String)
    ensures
        encoded@ == standard_base64(bytes@),
        is_ascii_chars(encoded@),
        encoded@.len() > 0 <==> bytes@.len() > 0,
        standard_base64_bytes(encoded@) == Some(bytes@),
{
    STANDARD.encode(bytes)
}

/// `STANDARD.decode` of `base64`: a function of the text; nothing where the
/// text is no base64.
#[verifier::external_body]
pub(crate) fn from_standard_base64(encoded: &str) -> (bytes: Option<Vec<u8>>)
    ensures
        bytes is Some == standard_base64_bytes(encoded@) is Some,
        bytes is Some ==> bytes->0@ == standard_base64_bytes(encoded@)->0,
{
    STANDARD.decode(encoded).ok()
}

/// A character as it stands in a JSON string.
pub open spec fn json_char(c: char) -> Seq<char> {
    if c == '"' || c == '\\' {
        seq!['\\', c]
    } else if c == '\u{8}' {
        seq!['\\', 'b']
    } else if c == '\t' {
        seq!['\\', 't']
    } else if c == '\n' {
        seq!['\\', 'n']
    } else if c == '\u{c}' {
        seq!['\\', 'f']
    } else if c == '\r' {
        seq!['\\', 'r']
    } else if (c as u32) < 0x20 {
        seq!['\\', 'u', '0', '0'] + hex_text(seq![c as u8])
    } else {
        seq![c]
    }
}

pub open spec fn json_chars(s: Seq<char>) -> Seq<char>
    decreases s.len(),
{
    if s.len() == 0 {
        Seq::empty()
    } else {
        json_chars(s.drop_last()) + json_char(s.last())
    }
}

/// A text as a JSON string, quotes included.
pub open spec fn json_string(s: Seq<char>) -> Seq<char> {
    seq!['"'] + json_chars(s) + seq!['"']
}

/// `serde_json::to_string` of a string: its JSON form. Quotes, backslashes and
/// control characters are escaped, and nothing else. Writing a string never fails.
#[verifier::external_body]
pub(crate) fn to_json_string(s: &str) -> (json: String)
    ensures
        json@ == json_string(s@),
{
    serde_json::to_string(s).unwrap_or_default()
}

/// The bytes are a JSON document.
pub uninterp spec fn is_json(bytes: Seq<u8>) -> bool;

/// The text in a field of the object that a JSON document is, if there is one.
pub uninterp spec fn json_field(bytes: Seq<u8>, name: Seq<char>) -> Option<Seq<char>>;

/// `serde_json::from_slice`, into a `serde_json::Value`, with `get` and `as_str` of
/// what it gives: a function of the bytes and the name of the field.
#[verifier::external_body]
pub(crate) fn json_text_field(bytes: &[u8], name: &str) -> (r: Result<
    Option<String>,
    serde_json::Error,
>)
    ensures
        r is Ok == is_json(bytes@),
        r is Ok ==> r->Ok_0 is Some == json_field(bytes@, name@) is Some,
        r is Ok && r->Ok_0 is Some ==> r->Ok_0->0@ == json_field(bytes@, name@)->0,
{
    let value: serde_json::Value = serde_json::from_slice(bytes)?;
    Ok(value.get(name).and_then(|field| field.as_str()).map(str::to_owned))
}

#[verifier::external_type_specification]
#[verifier::external_body]
pub struct ExJsonError(serde_json::Error);

/// The elements of a JSON array of bytes.
pub open spec fn json_numbers(bytes: Seq<u8>) -> Seq<char>
    decreases bytes.len(),
{
    if bytes.len() == 0 {
        Seq::empty()
    } else if bytes.len() == 1 {
        text::decimal_text(bytes[0] as nat)
    } else {
        json_numbers(bytes.drop_last()).push(',') + text::decimal_text(bytes.last() as nat)
    }
}

/// Bytes as a JSON array of numbers.
pub open spec fn json_bytes(bytes: Seq<u8>) -> Seq<char> {
    seq!['['] + json_numbers(bytes) + seq![']']
}

pub fn push_json_bytes(out: &mut Vec<char>, bytes: &[u8])
    ensures
        final(out)@ == old(out)@ + json_bytes(bytes@),
{
    let ghost before = out@;
    out.push('[');
    let mut i: usize = 0;
    proof {
        assert(out@ =~= before + seq!['['] + json_numbers(bytes@.take(0)));
    }
    while i < bytes.len()
        invariant
            i <= bytes@.len(),
            out@ == before + seq!['['] + json_numbers(bytes@.take(i as int)),
        decreases bytes@.len() - i,
    {
        proof {
            assert(bytes@.take(i + 1).drop_last() =~= bytes@.take(i as int));
            assert(bytes@.take(i + 1).last() == bytes@[i as int]);
        }
        if i > 0 {
            out.push(',');
        }
        let digits = text::decimal(bytes[i] as u64);
        text::push_all(out, digits.as_slice());
        proof {
            assert(out@ =~= before + seq!['['] + json_numbers(bytes@.take(i + 1)));
        }
        i = i + 1;
    }
    out.push(']');
    proof {
        assert(bytes@.take(bytes@.len() as int) =~= bytes@);
        assert(out@ =~= before + json_bytes(bytes@));
    }
}

// ---------------------------------------------------------------------------
// Laws

/// Four bytes are the number in base 256, the highest digit first.
pub proof fn four_bytes_count_up_to_the_number(n: int)
    requires
        0 <= n < 4_294_967_296,
    ensures
        be32(n).len() == 4,
        be32(n)[0] * 16_777_216 + be32(n)[1] * 65_536 + be32(n)[2] * 256 + be32(n)[3] == n,
{
    lemma_four_digits(n);
    assert(n / 0x100_0000 < 0x100);
}

/// Eight bytes are the number in base 256, the highest digit first.
pub proof fn eight_bytes_count_up_to_the_number(n: int)
    requires
        0 <= n < 18_446_744_073_709_551_616,
    ensures
        be64(n).len() == 8,
        (be64(n)[0] * 16_777_216 + be64(n)[1] * 65_536 + be64(n)[2] * 256 + be64(n)[3])
            * 4_294_967_296 + (be64(n)[4] * 16_777_216 + be64(n)[5] * 65_536 + be64(n)[6] * 256
            + be64(n)[7]) == n,
{
    four_bytes_count_up_to_the_number(n / 0x1_0000_0000);
    four_bytes_count_up_to_the_number(n % 0x1_0000_0000);
}

/// Each byte is written as two of the digits 0 to 9 and a to f, the sixteens first, and
/// what two such digits say, in letters of either case, is read.
pub proof fn bytes_are_written_in_sixteens(bytes: Seq<u8>, s: Seq<char>, i: int)
    requires
        0 <= i < bytes.len(),
    ensures
        hex_text(bytes).len() == 2 * bytes.len(),
        hex_text(bytes)[2 * i] == "0123456789abcdef"@[bytes[i] as int / 16],
        hex_text(bytes)[2 * i + 1] == "0123456789abcdef"@[bytes[i] as int % 16],
        is_hex(s) ==> hex_text(hex_bytes(s)) == text::ascii_lower(s),
        is_hex(s) == (s.len() % 2 == 0 && forall|k: int|
            0 <= k < s.len() ==> ('0' <= #[trigger] s[k] <= '9' || 'a' <= s[k] <= 'f' || 'A' <= s[k]
                <= 'F')),
{
    reveal_strlit("0123456789abcdef");
    assert((2 * i) / 2 == i && (2 * i) % 2 == 0 && (2 * i + 1) / 2 == i && (2 * i + 1) % 2 == 1);
    if is_hex(s) {
        let back = hex_text(hex_bytes(s));
        assert forall|k: int| 0 <= k < s.len() implies #[trigger] back[k] == text::ascii_lower(
            s,
        )[k] by {
            let j = k / 2;
            let high = hex_value(s[2 * j])->0;
            let low = hex_value(s[2 * j + 1])->0;
            assert(hex_bytes(s)[j] == (16 * high + low) as u8);
            assert(hex_value(s[2 * j]) is Some && hex_value(s[2 * j + 1]) is Some);
            assert(0 <= high < 16 && 0 <= low < 16);
            assert((16 * high + low) / 16 == high && (16 * high + low) % 16 == low);
            if k % 2 == 0 {
                assert(k == 2 * j);
            } else {
                assert(k == 2 * j + 1);
            }
        }
        assert(back =~= text::ascii_lower(s));
        assert forall|k: int| 0 <= k < s.len() implies ('0' <= #[trigger] s[k] <= '9' || 'a'
            <= s[k] <= 'f' || 'A' <= s[k] <= 'F') by {
            assert(hex_value(s[k]) is Some);
        }
    }
}

/// A JSON text stands between quotes and is the texts of its characters, one after the
/// other: a quote, a stroke and the named controls are two characters, the other controls
/// six, and every other character is itself.
pub proof fn json_texts_are_quoted(a: Seq<char>, b: Seq<char>, c: char)
    ensures
        json_string(a) == seq!['"'] + json_chars(a) + seq!['"'],
        json_chars(a + b) == json_chars(a) + json_chars(b),
        c == '"' ==> json_chars(seq![c]) == seq!['\\', '"'],
        c == '\\' ==> json_chars(seq![c]) == seq!['\\', '\\'],
        c as u32 == 8 ==> json_chars(seq![c]) == seq!['\\', 'b'],
        c as u32 == 9 ==> json_chars(seq![c]) == seq!['\\', 't'],
        c as u32 == 10 ==> json_chars(seq![c]) == seq!['\\', 'n'],
        c as u32 == 12 ==> json_chars(seq![c]) == seq!['\\', 'f'],
        c as u32 == 13 ==> json_chars(seq![c]) == seq!['\\', 'r'],
        (c as u32) < 32 && c as u32 != 8 && c as u32 != 9 && c as u32 != 10 && c as u32 != 12
            && c as u32 != 13 ==> json_chars(seq![c]) == seq!['\\', 'u', '0', '0'] + hex_text(
            seq![c as u8],
        ),
        c as u32 >= 32 && c != '"' && c != '\\' ==> json_chars(seq![c]) == seq![c],
    decreases b.len(),
{
    assert(seq![c].drop_last() =~= Seq::<char>::empty());
    assert(json_chars(Seq::<char>::empty()) =~= Seq::<char>::empty());
    assert(json_chars(seq![c]) =~= json_char(c));
    if b.len() == 0 {
        assert(a + b =~= a);
        assert(json_chars(a) + json_chars(b) =~= json_chars(a));
    } else {
        json_texts_are_quoted(a, b.drop_last(), c);
        assert((a + b).drop_last() =~= a + b.drop_last());
        assert((a + b).last() == b.last());
        assert(json_chars(a + b) =~= json_chars(a) + json_chars(b));
    }
}

/// Bytes are told as a JSON list of their numbers, with a comma between two and none
/// elsewhere.
pub proof fn json_bytes_are_listed(bytes: Seq<u8>, b: u8)
    ensures
        json_bytes(Seq::empty()) == seq!['[', ']'],
        json_bytes(seq![b]) == seq!['['] + text::decimal_text(b as nat) + seq![']'],
        bytes.len() > 0 ==> json_bytes(bytes.push(b)) == json_bytes(bytes).drop_last() + seq![',']
            + text::decimal_text(b as nat) + seq![']'],
{
    assert(json_bytes(Seq::empty()) =~= seq!['[', ']']);
    assert(json_bytes(seq![b]) =~= seq!['['] + text::decimal_text(b as nat) + seq![']']);
    assert(bytes.push(b).drop_last() =~= bytes);
    if bytes.len() > 0 {
        assert(json_bytes(bytes).drop_last() =~= seq!['['] + json_numbers(bytes));
        assert(json_bytes(bytes.push(b)) =~= json_bytes(bytes).drop_last() + seq![',']
            + text::decimal_text(b as nat) + seq![']']);
    }
}

} // verus!
