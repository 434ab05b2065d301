//! Textual form of a program id: the 32 little-endian bytes of its eight
//! `u32` words, hex-encoded (`PROGRAM_ID=<hex of 8 LE u32>`).
use hex::FromHexError;
use vstd::arithmetic::div_mod::lemma_fundamental_div_mod_converse;
use vstd::prelude::*;
use vstd::utf8::{
    encode_scalar,
    encode_utf8,
    has_width_1_encoding,
    is_ascii_chars,
    is_ascii_chars_encode_utf8,
};

verus! {

/// A program id: the image id of a guest, eight `u32` words.
pub type ProgramId = [u32; 8];

/// Why a text of hex digits did not decode.
#[derive(Debug, Clone, Copy, PartialEq, Eq, Structural)]
pub enum HexError {
    /// The text has an odd number of bytes.
    OddLength,
    /// The byte at `index` is not a hex digit; `c` is that byte as a `char`.
    InvalidHexCharacter { c: char, index: usize },
    /// A fixed-size output did not match the text's length (never produced
    /// when decoding into a vector).
    InvalidStringLength,
}

/// Why a program id text was rejected.
#[derive(Debug, Clone, Copy, PartialEq, Eq, Structural)]
pub enum ProgramIdError {
    /// The trimmed text is not hex: odd length, or a byte that is no hex digit.
    Hex(HexError),
    /// The hex text decodes to a byte count other than 32.
    WrongLength,
}

/// The characters that carry the Unicode `White_Space` property.
pub open spec fn is_white_space(c: char) -> bool {
    ||| '\u{9}' <= c <= '\u{d}'
    ||| c == ' '
    ||| c == '\u{85}'
    ||| c == '\u{a0}'
    ||| c == '\u{1680}'
    ||| '\u{2000}' <= c <= '\u{200a}'
    ||| c == '\u{2028}'
    ||| c == '\u{2029}'
    ||| c == '\u{202f}'
    ||| c == '\u{205f}'
    ||| c == '\u{3000}'
}

/// `s` without its leading white space.
pub open spec fn trim_start(s: Seq<char>) -> Seq<char>
    decreases s.len(),
{
    if s.len() > 0 && is_white_space(s[0]) {
        trim_start(s.drop_first())
    } else {
        s
    }
}

/// `s` without its trailing white space.
pub open spec fn trim_end(s: Seq<char>) -> Seq<char>
    decreases s.len(),
{
    if s.len() > 0 && is_white_space(s.last()) {
        trim_end(s.drop_last())
    } else {
        s
    }
}

/// `s` without leading and trailing white space.
pub open spec fn trimmed(s: Seq<char>) -> Seq<char> {
    trim_end(trim_start(s))
}

/// The value of an ASCII hex digit (either case), if `c` is one.
pub open spec fn hex_digit_value(c: u8) -> Option<u8> {
    if 0x30 <= c <= 0x39 {
        Some((c - 0x30) as u8)
    } else if 0x61 <= c <= 0x66 {
        Some((c - 0x61 + 10) as u8)
    } else if 0x41 <= c <= 0x46 {
        Some((c - 0x41 + 10) as u8)
    } else {
        None
    }
}

/// `text` is an even number of hex digits.
pub open spec fn is_hex_text(text: Seq<u8>) -> bool {
    &&& text.len() % 2 == 0
    &&& forall|i: int| 0 <= i < text.len() ==> (#[trigger] hex_digit_value(text[i])) is Some
}

/// The position of the first byte of `text` at or after `from` that is not a
/// hex digit, or the text's length when there is none.
pub open spec fn first_non_hex(text: Seq<u8>, from: int) -> int
    decreases text.len() - from,
{
    if from < 0 || from >= text.len() {
        text.len() as int
    } else if hex_digit_value(text[from]) is None {
        from
    } else {
        first_non_hex(text, from + 1)
    }
}

/// Why `text` does not decode as hex, if it does not: an odd length first,
/// else the first byte that is no hex digit.
pub open spec fn spec_hex_error(text: Seq<u8>) -> Option<HexError> {
    if text.len() % 2 != 0 {
        Some(HexError::OddLength)
    } else if is_hex_text(text) {
        None
    } else {
        Some(
            HexError::InvalidHexCharacter {
                c: text[first_non_hex(text, 0)] as char,
                index: first_non_hex(text, 0) as usize,
            },
        )
    }
}

/// The bytes that a text of hex digit pairs spells, high digit first.
pub open spec fn hex_decoded(text: Seq<u8>) -> Seq<u8> {
    Seq::new(
        text.len() / 2,
        |k: int|
            (hex_digit_value(text[2 * k])->0 * 16 + hex_digit_value(text[2 * k + 1])->0) as u8,
    )
}

/// The lower-case hex digit for `n < 16`.
pub open spec fn lower_hex_digit(n: int) -> char {
    if n < 10 {
        (0x30 + n) as char
    } else {
        (0x61 + n - 10) as char
    }
}

/// `bytes` as lower-case hex, two digits per byte, high digit first.
pub open spec fn hex_encoded(bytes: Seq<u8>) -> Seq<char> {
    Seq::new(
        2 * bytes.len(),
        |i: int|
            if i % 2 == 0 {
                lower_hex_digit(bytes[i / 2] as int / 16)
            } else {
                lower_hex_digit(bytes[i / 2] as int % 16)
            },
    )
}

/// The `u32` whose little-endian bytes are `b0, b1, b2, b3`.
pub open spec fn le_word(b0: u8, b1: u8, b2: u8, b3: u8) -> u32 {
    (b0 + 0x100 * b1 + 0x1_0000 * b2 + 0x100_0000 * b3) as u32
}

/// Byte `k` (0 = least significant) of `w`.
pub open spec fn le_byte(w: u32, k: int) -> u8 {
    if k == 0 {
        (w % 0x100) as u8
    } else if k == 1 {
        ((w / 0x100) % 0x100) as u8
    } else if k == 2 {
        ((w / 0x1_0000) % 0x100) as u8
    } else {
        (w / 0x100_0000) as u8
    }
}

/// Words read from consecutive groups of four little-endian bytes.
pub open spec fn words_from_le_bytes(bytes: Seq<u8>) -> Seq<u32> {
    Seq::new(
        bytes.len() / 4,
        |i: int| le_word(bytes[4 * i], bytes[4 * i + 1], bytes[4 * i + 2], bytes[4 * i + 3]),
    )
}

/// The little-endian bytes of each word in turn.
pub open spec fn le_bytes_of_words(words: Seq<u32>) -> Seq<u8> {
    Seq::new(4 * words.len(), |i: int| le_byte(words[i / 4], i % 4))
}

/// The bytes that `parse_program_id` hex-decodes: the UTF-8 encoding of the
/// trimmed text.
pub open spec fn id_text_bytes(s: Seq<char>) -> Seq<u8> {
    encode_utf8(trimmed(s))
}

/// Why `parse_program_id` rejects `s`, if it does.
pub open spec fn spec_parse_error(s: Seq<char>) -> Option<ProgramIdError> {
    if let Some(e) = spec_hex_error(id_text_bytes(s)) {
        Some(ProgramIdError::Hex(e))
    } else if hex_decoded(id_text_bytes(s)).len() != 32 {
        Some(ProgramIdError::WrongLength)
    } else {
        None
    }
}

/// The words `parse_program_id` reads from `s` when it accepts it.
pub open spec fn spec_parsed_words(s: Seq<char>) -> Seq<u32> {
    words_from_le_bytes(hex_decoded(id_text_bytes(s)))
}

/// The text `format_program_id` produces for the words of an id.
pub open spec fn spec_formatted(words: Seq<u32>) -> Seq<char> {
    hex_encoded(le_bytes_of_words(words))
}

/// Calls `str::trim`, which removes leading and trailing characters with the
/// Unicode `White_Space` property; the contract states exactly that.
#[verifier::external_body]
fn trim_whitespace(s: &str) -> (res: &str)
    ensures
        res@ == trimmed(s@),
{
    s.trim()
}

/// Calls `hex::decode` and tells its error's variants apart. Per its source
/// (hex 0.4.3), it fails with `OddLength` on an odd length, else with
/// `InvalidHexCharacter` at the first byte that is not an ASCII hex digit of
/// either case (that byte as a `char`), and otherwise yields one byte per
/// digit pair, high digit first.
#[verifier::external_body]
fn hex_decode(text: &[u8]) -> (res: Result<Vec<u8>, HexError>)
    ensures
        res is Ok <==> is_hex_text(text@),
        res matches Ok(bytes) ==> bytes@ == hex_decoded(text@),
        res matches Err(e) ==> spec_hex_error(text@) == Some(e),
{
    match hex::decode(text) {
        Ok(bytes) => Ok(bytes),
        Err(FromHexError::OddLength) => Err(HexError::OddLength),
        Err(FromHexError::InvalidHexCharacter { c, index }) => Err(
            HexError::InvalidHexCharacter { c, index },
        ),
        Err(FromHexError::InvalidStringLength) => Err(HexError::InvalidStringLength),
    }
}

/// Calls `hex::encode`, which writes each byte as two lower-case hex digits,
/// high digit first.
#[verifier::external_body]
fn hex_encode(bytes: &[u8]) -> (res: String)
    ensures
        res@ == hex_encoded(bytes@),
{
    hex::encode(bytes)
}

/// The `u32` with little-endian bytes `b0..b3`.
fn u32_from_le(b0: u8, b1: u8, b2: u8, b3: u8) -> (w: u32)
    ensures
        w == le_word(b0, b1, b2, b3),
{
    (b0 as u32) + (b1 as u32) * 0x100 + (b2 as u32) * 0x1_0000 + (b3 as u32) * 0x100_0000
}

/// Byte `k` of `w`, least significant first.
fn u32_le_byte(w: u32, k: u32) -> (b: u8)
    requires
        k < 4,
    ensures
        b == le_byte(w, k as int),
{
    if k == 0 {
        (w % 0x100) as u8
    } else if k == 1 {
        ((w / 0x100) % 0x100) as u8
    } else if k == 2 {
        ((w / 0x1_0000) % 0x100) as u8
    } else {
        (w / 0x100_0000) as u8
    }
}

/// Parse a program id printed by `argo_deploy` (`PROGRAM_ID=<hex of 8 LE u32>`).
pub fn parse_program_id(s: &str) -> (r: Result<ProgramId, ProgramIdError>)
    ensures
        r is Err <==> spec_parse_error(s@) is Some,
        r matches Err(e) ==> spec_parse_error(s@) == Some(e),
        r matches Ok(id) ==> id@ == spec_parsed_words(s@),
{
    let text = trim_whitespace(s);
    let bytes = match hex_decode(text.as_bytes()) {
        Ok(bytes) => bytes,
        Err(e) => {
            return Err(ProgramIdError::Hex(e));
        },
    };
    if bytes.len() != 32 {
        return Err(ProgramIdError::WrongLength);
    }
    let ghost words = spec_parsed_words(s@);
    let mut id = [0u32; 8];
    let mut i: usize = 0;
    while i < 8
        invariant
            i <= 8,
            bytes@.len() == 32,
            words == words_from_le_bytes(bytes@),
            forall|k: int| 0 <= k < i ==> id@[k] == words[k],
        decreases 8 - i,
    {
        id[i] = u32_from_le(bytes[4 * i], bytes[4 * i + 1], bytes[4 * i + 2], bytes[4 * i + 3]);
        i += 1;
    }
    assert(id@ =~= words);
    Ok(id)
}

/// Format a program id the way `parse_program_id` reads it.
pub fn format_program_id(id: &ProgramId) -> (s: String)
    ensures
        s@ == spec_formatted(id@),
{
    let mut out: Vec<u8> = Vec::with_capacity(32);
    let mut i: usize = 0;
    while i < 8
        invariant
            i <= 8,
            out@.len() == 4 * i,
            forall|j: int| 0 <= j < 4 * i ==> out@[j] == le_byte(id@[j / 4], j % 4),
        decreases 8 - i,
    {
        let w = id[i];
        let mut k: u32 = 0;
        while k < 4
            invariant
                i < 8,
                k <= 4,
                w == id@[i as int],
                out@.len() == 4 * i + k,
                forall|j: int| 0 <= j < 4 * i + k ==> out@[j] == le_byte(id@[j / 4], j % 4),
            decreases 4 - k,
        {
            out.push(u32_le_byte(w, k));
            k += 1;
        }
        i += 1;
    }
    assert(out@ =~= le_bytes_of_words(id@));
    hex_encode(out.as_slice())
}

proof fn lemma_lower_hex_digit(n: int)
    requires
        0 <= n < 16,
    ensures
        '\0' <= lower_hex_digit(n) <= '\u{7f}',
        !is_white_space(lower_hex_digit(n)),
        hex_digit_value(lower_hex_digit(n) as u8) == Some(n as u8),
{
}

proof fn lemma_le_word_of_bytes(w: u32)
    ensures
        le_word(le_byte(w, 0), le_byte(w, 1), le_byte(w, 2), le_byte(w, 3)) == w,
{
}

/// Reading back what `format_program_id` wrote gives the same id: the text is
/// accepted and decodes to the original eight words.
pub proof fn lemma_format_then_parse(words: Seq<u32>)
    requires
        words.len() == 8,
    ensures
        spec_parse_error(spec_formatted(words)) is None,
        spec_parsed_words(spec_formatted(words)) == words,
{
    let bytes = le_bytes_of_words(words);
    let chars = spec_formatted(words);
    assert(chars.len() == 64);
    assert forall|i: int| 0 <= i < chars.len() implies '\0' <= #[trigger] chars[i] <= '\u{7f}'
        && !is_white_space(chars[i]) && hex_digit_value(chars[i] as u8) is Some by {
        if i % 2 == 0 {
            lemma_lower_hex_digit(bytes[i / 2] as int / 16);
        } else {
            lemma_lower_hex_digit(bytes[i / 2] as int % 16);
        }
    }
    assert(trim_start(chars) == chars);
    assert(trim_end(chars) == chars);
    assert(trimmed(chars) == chars);
    assert(is_ascii_chars(chars));
    is_ascii_chars_encode_utf8(chars);
    let text = id_text_bytes(chars);
    assert(text.len() == 64);
    assert forall|i: int| 0 <= i < text.len() implies (#[trigger] hex_digit_value(text[i])) is Some by {
        assert(text[i] == chars[i] as u8);
    }
    assert(is_hex_text(text));
    let decoded = hex_decoded(text);
    assert forall|k: int| 0 <= k < 32 implies #[trigger] decoded[k] == bytes[k] by {
        let b = bytes[k];
        assert(text[2 * k] == chars[2 * k] as u8);
        assert(text[2 * k + 1] == chars[2 * k + 1] as u8);
        assert((2 * k) % 2 == 0);
        assert((2 * k + 1) % 2 == 1);
        assert((2 * k) / 2 == k);
        assert((2 * k + 1) / 2 == k);
        lemma_lower_hex_digit(b as int / 16);
        lemma_lower_hex_digit(b as int % 16);
    }
    assert(decoded =~= bytes);
    assert forall|i: int| 0 <= i < 8 implies #[trigger] words_from_le_bytes(bytes)[i] == words[i] by {
        assert((4 * i) / 4 == i && (4 * i + 1) / 4 == i && (4 * i + 2) / 4 == i && (4 * i + 3) / 4
            == i);
        assert((4 * i) % 4 == 0 && (4 * i + 1) % 4 == 1 && (4 * i + 2) % 4 == 2 && (4 * i + 3) % 4
            == 3);
        lemma_le_word_of_bytes(words[i]);
    }
    assert(words_from_le_bytes(bytes) =~= words);
}

/// `c` in ASCII lower case: `A`..`Z` become `a`..`z`, all else is kept.
pub open spec fn ascii_lower(c: char) -> char {
    if 'A' <= c <= 'Z' {
        ((c as u32) + 32) as char
    } else {
        c
    }
}

/// `s` in ASCII lower case, character by character.
pub open spec fn ascii_lowercase(s: Seq<char>) -> Seq<char> {
    Seq::new(s.len(), |i: int| ascii_lower(s[i]))
}

/// A character sequence whose UTF-8 encoding has only bytes below 0x80 is
/// ASCII.
proof fn lemma_ascii_bytes_are_ascii_chars(t: Seq<char>)
    requires
        forall|i: int| 0 <= i < encode_utf8(t).len() ==> encode_utf8(t)[i] < 0x80,
    ensures
        is_ascii_chars(t),
    decreases t.len(),
{
    if t.len() > 0 {
        let c = t[0] as u32;
        let first = encode_scalar(c);
        let rest = t.drop_first();
        assert(encode_utf8(t) == first + encode_utf8(rest));
        assert(first.len() >= 1);
        assert(encode_utf8(t)[0] == first[0]);
        if !has_width_1_encoding(c) {
            let x = ((c >> 6u32) & 0x1Fu32) as u8;
            let y = ((c >> 12u32) & 0x0Fu32) as u8;
            let z = ((c >> 18u32) & 0x7u32) as u8;
            assert((0xC0u8 | x) >= 0x80u8 && (0xE0u8 | y) >= 0x80u8 && (0xF0u8 | z) >= 0x80u8)
                by (bit_vector);
            assert(first[0] >= 0x80);
        }
        assert forall|i: int| 0 <= i < encode_utf8(rest).len() implies encode_utf8(rest)[i]
            < 0x80 by {
            assert(encode_utf8(rest)[i] == encode_utf8(t)[i + first.len()]);
        }
        lemma_ascii_bytes_are_ascii_chars(rest);
        assert(has_width_1_encoding(c));
        assert forall|i: int| 0 <= i < t.len() implies '\0' <= #[trigger] t[i] <= '\u{7f}' by {
            if i > 0 {
                assert(t[i] == rest[i - 1]);
                assert('\0' <= rest[i - 1] <= '\u{7f}');
            } else {
                lemma_char_below_0x80(t[0]);
            }
        }
    }
}

proof fn lemma_char_below_0x80(c: char)
    requires
        (c as u32) <= 0x7f,
    ensures
        '\0' <= c <= '\u{7f}',
{
}

/// A hex digit written back by `lower_hex_digit` is the digit in lower case.
proof fn lemma_digit_lowercase(c: char)
    requires
        '\0' <= c <= '\u{7f}',
        hex_digit_value(c as u8) is Some,
    ensures
        lower_hex_digit(hex_digit_value(c as u8)->0 as int) == ascii_lower(c),
{
}

/// The little-endian bytes of the word read from four bytes are those bytes.
proof fn lemma_le_byte_of_word(b0: u8, b1: u8, b2: u8, b3: u8)
    ensures
        le_byte(le_word(b0, b1, b2, b3), 0) == b0,
        le_byte(le_word(b0, b1, b2, b3), 1) == b1,
        le_byte(le_word(b0, b1, b2, b3), 2) == b2,
        le_byte(le_word(b0, b1, b2, b3), 3) == b3,
{
    let w = le_word(b0, b1, b2, b3) as int;
    let m1 = b1 + 0x100 * b2 + 0x1_0000 * b3;
    let m2 = b2 + 0x100 * b3;
    assert(w == b0 + 0x100 * b1 + 0x1_0000 * b2 + 0x100_0000 * b3);
    lemma_fundamental_div_mod_converse(w, 0x100, m1, b0 as int);
    lemma_fundamental_div_mod_converse(m1, 0x100, m2, b1 as int);
    lemma_fundamental_div_mod_converse(w, 0x1_0000, m2, b0 + 0x100 * b1);
    lemma_fundamental_div_mod_converse(m2, 0x100, b3 as int, b2 as int);
    lemma_fundamental_div_mod_converse(w, 0x100_0000, b3 as int, b0 + 0x100 * b1 + 0x1_0000 * b2);
}

/// What an accepted id text is: its trimmed form is 64 ASCII characters,
/// each a hex digit, and its bytes are those characters.
proof fn lemma_accepted_text(s: Seq<char>)
    requires
        spec_parse_error(s) is None,
    ensures
        trimmed(s).len() == 64,
        id_text_bytes(s).len() == 64,
        hex_decoded(id_text_bytes(s)).len() == 32,
        is_ascii_chars(trimmed(s)),
        forall|i: int|
            0 <= i < 64 ==> #[trigger] id_text_bytes(s)[i] == trimmed(s)[i] as u8 && hex_digit_value(
                id_text_bytes(s)[i],
            ) is Some,
{
    let t = trimmed(s);
    let b = encode_utf8(t);
    assert(is_hex_text(b));
    assert forall|i: int| 0 <= i < b.len() implies b[i] < 0x80 by {
        assert(hex_digit_value(b[i]) is Some);
    }
    lemma_ascii_bytes_are_ascii_chars(t);
    is_ascii_chars_encode_utf8(t);
}

/// The little-endian bytes of the words read from 32 bytes are those bytes.
proof fn lemma_le_bytes_of_read_words(d: Seq<u8>)
    requires
        d.len() == 32,
    ensures
        le_bytes_of_words(words_from_le_bytes(d)) == d,
{
    let w = words_from_le_bytes(d);
    assert forall|k: int| 0 <= k < 32 implies #[trigger] le_bytes_of_words(w)[k] == d[k] by {
        let i = k / 4;
        assert(4 * i <= k < 4 * i + 4);
        lemma_le_byte_of_word(d[4 * i], d[4 * i + 1], d[4 * i + 2], d[4 * i + 3]);
    }
    assert(le_bytes_of_words(w) =~= d);
}

/// Re-encoding decoded hex text gives the text in lower case.
proof fn lemma_reencode_hex(t: Seq<char>, b: Seq<u8>)
    requires
        t.len() == 64,
        b.len() == 64,
        is_ascii_chars(t),
        forall|i: int| 0 <= i < 64 ==> #[trigger] b[i] == t[i] as u8 && hex_digit_value(b[i]) is Some,
    ensures
        hex_encoded(hex_decoded(b)) == ascii_lowercase(t),
{
    let d = hex_decoded(b);
    let out = hex_encoded(d);
    assert forall|i: int| 0 <= i < 64 implies #[trigger] out[i] == ascii_lower(t[i]) by {
        let k = i / 2;
        assert(2 * k <= i < 2 * k + 2);
        assert(b[2 * k] == t[2 * k] as u8);
        assert(b[2 * k + 1] == t[2 * k + 1] as u8);
        assert('\0' <= t[i] <= '\u{7f}');
        lemma_digit_lowercase(t[i]);
    }
    assert(out =~= ascii_lowercase(t));
}

/// Formatting the id that `parse_program_id` read from `s` gives back the
/// trimmed text in lower case.
pub proof fn lemma_parse_then_format(s: Seq<char>)
    requires
        spec_parse_error(s) is None,
    ensures
        spec_formatted(spec_parsed_words(s)) == ascii_lowercase(trimmed(s)),
{
    lemma_accepted_text(s);
    lemma_le_bytes_of_read_words(hex_decoded(id_text_bytes(s)));
    lemma_reencode_hex(trimmed(s), id_text_bytes(s));
}

proof fn lemma_le_byte_is_shift(w: u32, k: int)
    requires
        0 <= k < 4,
    ensures
        le_byte(w, k) == ((w >> ((8 * k) as u32)) & 0xff) as u8,
{
    if k == 0 {
        assert((w % 0x100) as u8 == ((w >> 0u32) & 0xff) as u8) by (bit_vector);
    } else if k == 1 {
        assert(((w / 0x100) % 0x100) as u8 == ((w >> 8u32) & 0xff) as u8) by (bit_vector);
    } else if k == 2 {
        assert(((w / 0x1_0000) % 0x100) as u8 == ((w >> 16u32) & 0xff) as u8) by (bit_vector);
    } else {
        assert((w / 0x100_0000) as u8 == ((w >> 24u32) & 0xff) as u8) by (bit_vector);
    }
}

/// `format_program_id` writes, for each word in turn, its four little-endian
/// bytes `(w >> 8k) & 0xff` (k = 0..3), each as two lower-case hex digits.
pub proof fn lemma_format_writes_le_bytes(words: Seq<u32>)
    requires
        words.len() == 8,
    ensures
        spec_formatted(words) == hex_encoded(
            Seq::new(32, |j: int| ((words[j / 4] >> ((8 * (j % 4)) as u32)) & 0xff) as u8),
        ),
{
    let target = Seq::new(32, |j: int| ((words[j / 4] >> ((8 * (j % 4)) as u32)) & 0xff) as u8);
    assert forall|j: int| 0 <= j < 32 implies #[trigger] le_bytes_of_words(words)[j] == target[j] by {
        lemma_le_byte_is_shift(words[j / 4], j % 4);
    }
    assert(le_bytes_of_words(words) =~= target);
}

/// `parse_program_id` reads word `i` from decoded bytes `4i..4i+4` as
/// `b0 + 256 * b1 + 65536 * b2 + 16777216 * b3`: little-endian.
pub proof fn lemma_parse_reads_le_words(s: Seq<char>)
    requires
        spec_parse_error(s) is None,
    ensures
        ({
            let b = hex_decoded(id_text_bytes(s));
            &&& spec_parsed_words(s).len() == 8
            &&& forall|i: int|
                0 <= i < 8 ==> #[trigger] spec_parsed_words(s)[i] as int == b[4 * i] + 256 * b[4 * i
                    + 1] + 65536 * b[4 * i + 2] + 16777216 * b[4 * i + 3]
        }),
{
    lemma_accepted_text(s);
}

/// `parse_program_id` accepts exactly the texts whose trimmed UTF-8 bytes are
/// 64 hex digits; an odd byte count is refused as such, and a byte count of
/// whole digit pairs other than 64 as the wrong length.
pub proof fn lemma_parse_accepts(s: Seq<char>)
    ensures
        spec_parse_error(s) is None <==> (is_hex_text(id_text_bytes(s)) && id_text_bytes(s).len()
            == 64),
        id_text_bytes(s).len() % 2 != 0 ==> spec_parse_error(s) == Some(
            ProgramIdError::Hex(HexError::OddLength),
        ),
        is_hex_text(id_text_bytes(s)) && id_text_bytes(s).len() != 64 ==> spec_parse_error(s)
            == Some(ProgramIdError::WrongLength),
{
}

} // verus!
