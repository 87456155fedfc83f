//! Text building blocks: decimal rendering of integers and strings made
//! from byte sequences.

use vstd::prelude::*;
use vstd::utf8::*;

verus! {

broadcast use vstd::utf8::group_utf8_lib;

/// The characters that the bytes of an ASCII sequence stand for.
pub open spec fn ascii_chars(bytes: Seq<u8>) -> Seq<char> {
    Seq::new(bytes.len(), |i: int| bytes[i] as char)
}

/// Every byte is below 128.
pub open spec fn all_ascii(bytes: Seq<u8>) -> bool {
    forall|i: int| 0 <= i < bytes.len() ==> #[trigger] bytes[i] < 128
}

/// The character of a decimal digit.
pub open spec fn digit_char(d: nat) -> char {
    ((d + 48) as u8) as char
}

/// Decimal rendering of a natural number, most significant digit first.
pub open spec fn dec_chars(n: nat) -> Seq<char>
    decreases n,
{
    if n < 10 {
        seq![digit_char(n)]
    } else {
        dec_chars(n / 10).push(digit_char(n % 10))
    }
}

/// Decimal rendering of a signed integer, with a leading '-' when negative.
pub open spec fn signed_dec_chars(n: int) -> Seq<char> {
    if n < 0 {
        seq!['-'] + dec_chars((-n) as nat)
    } else {
        dec_chars(n as nat)
    }
}

/// What `String::from_utf8_lossy` makes of the given bytes.
pub uninterp spec fn spec_utf8_lossy(bytes: Seq<u8>) -> Seq<char>;

/// `String::from_utf8_lossy`: the string that the bytes spell, named by
/// `spec_utf8_lossy`; a valid UTF-8 sequence becomes the string that it
/// encodes (what replaces invalid sequences, U+FFFD by the documentation,
/// is left to the name).
#[verifier::external_body]
fn string_from_utf8_lossy(bytes: &[u8]) -> (s: String)
    ensures
        s@ == spec_utf8_lossy(bytes@),
        valid_utf8(bytes@) ==> s@ == decode_utf8(bytes@),
{
    String::from_utf8_lossy(bytes).into_owned()
}

/// A character with the Unicode `White_Space` property, which
/// `char::is_whitespace` tests.
pub open spec fn is_white_space(c: char) -> bool {
    let n = c as u32;
    ||| 9 <= n <= 13
    ||| n == 32
    ||| n == 0x85
    ||| n == 0xA0
    ||| n == 0x1680
    ||| 0x2000 <= n <= 0x200A
    ||| n == 0x2028
    ||| n == 0x2029
    ||| n == 0x202F
    ||| n == 0x205F
    ||| n == 0x3000
}

/// The text without its leading white space.
pub open spec fn trim_start(text: Seq<char>) -> Seq<char>
    decreases text.len(),
{
    if text.len() > 0 && is_white_space(text[0]) {
        trim_start(text.drop_first())
    } else {
        text
    }
}

/// The text without its trailing white space.
pub open spec fn trim_end(text: Seq<char>) -> Seq<char>
    decreases text.len(),
{
    if text.len() > 0 && is_white_space(text.last()) {
        trim_end(text.drop_last())
    } else {
        text
    }
}

/// What `str::trim` leaves of a text: the text without leading and
/// trailing white space.
pub open spec fn spec_trim(text: Seq<char>) -> Seq<char> {
    trim_end(trim_start(text))
}

/// A text without white space is its own trimmed text.
pub proof fn lemma_trim_no_white_space(text: Seq<char>)
    requires
        forall|i: int| 0 <= i < text.len() ==> !is_white_space(#[trigger] text[i]),
    ensures
        spec_trim(text) == text,
{
}

/// `str::trim`: the text without leading and trailing white space
/// (characters with the Unicode `White_Space` property), as `spec_trim`
/// states.
#[verifier::external_body]
pub(crate) fn trim_text(text: &str) -> (trimmed: String)
    ensures
        trimmed@ == spec_trim(text@),
{
    text.trim().to_string()
}

/// The UTF-8 bytes of ASCII characters are the characters' codes.
pub proof fn lemma_ascii_encode(bytes: Seq<u8>)
    requires
        all_ascii(bytes),
    ensures
        encode_utf8(ascii_chars(bytes)) == bytes,
        valid_utf8(bytes),
        decode_utf8(bytes) == ascii_chars(bytes),
{
    let chars = ascii_chars(bytes);
    assert forall|i: int| 0 <= i < chars.len() implies '\0' <= #[trigger] chars[i] <= '\u{7f}' by {
        assert(bytes[i] < 128);
    }
    assert(is_ascii_chars(chars));
    vstd::utf8::is_ascii_chars_encode_utf8(chars);
    assert forall|i: int| 0 <= i < bytes.len() implies encode_utf8(chars)[i] == bytes[i] by {
        assert(chars[i] as u8 == encode_utf8(chars)[i]);
        let b = bytes[i];
        assert((b as char) as u8 == b);
    }
    assert(encode_utf8(chars) =~= bytes);
    vstd::utf8::encode_utf8_valid_utf8(chars);
    vstd::utf8::encode_utf8_decode_utf8(chars);
}

/// Builds a string out of ASCII bytes.
pub fn ascii_string(bytes: &[u8]) -> (s: String)
    requires
        all_ascii(bytes@),
    ensures
        s@ == ascii_chars(bytes@),
{
    proof {
        lemma_ascii_encode(bytes@);
    }
    string_from_utf8_lossy(bytes)
}

/// Builds a string out of bytes, as `String::from_utf8_lossy` does.
pub fn utf8_lossy(bytes: &[u8]) -> (s: String)
    ensures
        s@ == spec_utf8_lossy(bytes@),
        valid_utf8(bytes@) ==> s@ == decode_utf8(bytes@),
{
    string_from_utf8_lossy(bytes)
}

/// The decimal digits of `n` as ASCII bytes.
pub open spec fn dec_bytes(n: nat) -> Seq<u8>
    decreases n,
{
    if n < 10 {
        seq![(n + 48) as u8]
    } else {
        dec_bytes(n / 10).push(((n % 10) + 48) as u8)
    }
}

pub proof fn lemma_dec_bytes(n: nat)
    ensures
        all_ascii(dec_bytes(n)),
        ascii_chars(dec_bytes(n)) == dec_chars(n),
    decreases n,
{
    if n >= 10 {
        lemma_dec_bytes(n / 10);
        assert(ascii_chars(dec_bytes(n)) =~= dec_chars(n));
    } else {
        assert(ascii_chars(dec_bytes(n)) =~= dec_chars(n));
    }
}

/// Appends the decimal digits of `n` to `out`.
pub fn push_decimal(n: u64, out: &mut Vec<u8>)
    ensures
        final(out)@ == old(out)@ + dec_bytes(n as nat),
    decreases n,
{
    if n < 10 {
        out.push((n as u8) + 48);
    } else {
        push_decimal(n / 10, out);
        out.push(((n % 10) as u8) + 48);
    }
    assert(final(out)@ =~= old(out)@ + dec_bytes(n as nat));
}

/// Decimal rendering of an unsigned integer, as `u64::to_string` gives it.
pub fn u64_to_string(n: u64) -> (s: String)
    ensures
        s@ == dec_chars(n as nat),
{
    let mut bytes: Vec<u8> = Vec::new();
    push_decimal(n, &mut bytes);
    proof {
        lemma_dec_bytes(n as nat);
        assert(bytes@ =~= dec_bytes(n as nat));
    }
    ascii_string(bytes.as_slice())
}

/// The decimal digits of a signed integer as ASCII bytes, with a leading
/// `-` when negative.
pub open spec fn signed_dec_bytes(n: int) -> Seq<u8> {
    if n < 0 {
        seq![45u8] + dec_bytes((-n) as nat)
    } else {
        dec_bytes(n as nat)
    }
}

pub proof fn lemma_signed_dec_bytes(n: int)
    ensures
        all_ascii(signed_dec_bytes(n)),
        ascii_chars(signed_dec_bytes(n)) == signed_dec_chars(n),
{
    if n < 0 {
        lemma_dec_bytes((-n) as nat);
        assert(ascii_chars(signed_dec_bytes(n)) =~= seq!['-'] + dec_chars((-n) as nat));
    } else {
        lemma_dec_bytes(n as nat);
    }
}

/// Appends the decimal rendering of a signed integer to `out`.
pub fn push_signed_decimal(n: i64, out: &mut Vec<u8>)
    ensures
        final(out)@ == old(out)@ + signed_dec_bytes(n as int),
{
    if n < 0 {
        out.push(45u8);
        let m: u64 = if n == i64::MIN { 9223372036854775808u64 } else { (-n) as u64 };
        push_decimal(m, out);
        assert(final(out)@ =~= old(out)@ + signed_dec_bytes(n as int));
    } else {
        push_decimal(n as u64, out);
    }
}

/// Decimal rendering of a signed integer, as `i64::to_string` gives it.
pub fn i64_to_string(n: i64) -> (s: String)
    ensures
        s@ == signed_dec_chars(n as int),
{
    let mut bytes: Vec<u8> = Vec::new();
    push_signed_decimal(n, &mut bytes);
    proof {
        lemma_signed_dec_bytes(n as int);
        assert(bytes@ =~= signed_dec_bytes(n as int));
    }
    ascii_string(bytes.as_slice())
}

/// Decimal rendering of a `usize`.
pub fn usize_to_string(n: usize) -> (s: String)
    ensures
        s@ == dec_chars(n as nat),
{
    u64_to_string(n as u64)
}

/// Compares two byte sequences.
pub fn bytes_eq(a: &[u8], b: &[u8]) -> (eq: bool)
    ensures
        eq == (a@ == b@),
{
    if a.len() != b.len() {
        return false;
    }
    let mut i: usize = 0;
    while i < a.len()
        invariant
            a@.len() == b@.len(),
            i <= a@.len(),
            forall|j: int| 0 <= j < i ==> a@[j] == b@[j],
        decreases a@.len() - i,
    {
        if a[i] != b[i] {
            return false;
        }
        i = i + 1;
    }
    assert(a@ =~= b@);
    true
}

} // verus!
