//! Byte and text encodings used by the vault and by the HTTP helpers:
//! lowercase hex (`hex`), base64 (`base64`), percent-encoding
//! (`urlencoding`), Unicode uppercase and UTF-8 byte offsets.

use vstd::prelude::*;
use base64::Engine;

verus! {

/// The lowercase hex digit of a value below 16.
pub open spec fn hex_digit(n: int) -> char {
    if n < 10 {
        (n + 48) as char
    } else {
        (n + 87) as char
    }
}

/// Lowercase hex text of a byte string: two digits per byte, high nibble first.
pub open spec fn hex_text(b: Seq<u8>) -> Seq<char>
    decreases b.len(),
{
    if b.len() == 0 {
        seq![]
    } else {
        seq![hex_digit((b[0] as int) / 16), hex_digit((b[0] as int) % 16)] + hex_text(b.drop_first())
    }
}

/// The value of one hex digit byte, upper or lower case.
pub open spec fn hex_value(c: u8) -> Option<u8> {
    if 48 <= c <= 57 {
        Some((c - 48) as u8)
    } else if 65 <= c <= 70 {
        Some((c - 55) as u8)
    } else if 97 <= c <= 102 {
        Some((c - 87) as u8)
    } else {
        None
    }
}

/// Bytes denoted by hex text: `None` when its length is odd or a byte is
/// not a hex digit.
pub open spec fn hex_bytes(s: Seq<u8>) -> Option<Seq<u8>>
    decreases s.len(),
{
    if s.len() % 2 != 0 {
        None
    } else if s.len() == 0 {
        Some(seq![])
    } else {
        match (hex_value(s[0]), hex_value(s[1]), hex_bytes(s.subrange(2, s.len() as int))) {
            (Some(h), Some(l), Some(rest)) => Some(seq![(h * 16 + l) as u8] + rest),
            _ => None,
        }
    }
}

/// Hex text denotes half as many bytes as it has digits.
pub proof fn lemma_hex_bytes_len(s: Seq<u8>)
    ensures
        hex_bytes(s) matches Some(b) ==> b.len() * 2 == s.len(),
    decreases s.len(),
{
    if s.len() >= 2 && s.len() % 2 == 0 {
        lemma_hex_bytes_len(s.subrange(2, s.len() as int));
    }
}

/// `hex::encode`: lowercase hex, two digits per byte.
#[verifier::external_body]
pub(crate) fn hex_encode(data: &[u8]) -> (r: String)
    ensures
        r@ == hex_text(data@),
{
    hex::encode(data)
}

/// `hex::decode`: the bytes denoted by the text, or `None` on odd length or a
/// byte that is no hex digit (either case accepted).
#[verifier::external_body]
pub(crate) fn hex_decode(data: &[u8]) -> (r: Option<Vec<u8>>)
    ensures
        match r {
            Some(v) => hex_bytes(data@) == Some(v@),
            None => hex_bytes(data@) is None,
        },
{
    hex::decode(data).ok()
}

pub proof fn lemma_hex_text_len(b: Seq<u8>)
    ensures
        hex_text(b).len() == 2 * b.len(),
    decreases b.len(),
{
    if b.len() > 0 {
        lemma_hex_text_len(b.drop_first());
    }
}

pub proof fn lemma_hex_text_ascii(b: Seq<u8>)
    ensures
        vstd::utf8::is_ascii_chars(hex_text(b)),
        forall|i: int| 0 <= i < hex_text(b).len() ==> #[trigger] hex_value(hex_text(b)[i] as u8) is Some,
    decreases b.len(),
{
    lemma_hex_text_len(b);
    if b.len() > 0 {
        lemma_hex_text_ascii(b.drop_first());
        let head = seq![hex_digit((b[0] as int) / 16), hex_digit((b[0] as int) % 16)];
        assert(hex_text(b) == head + hex_text(b.drop_first()));
        assert forall|i: int| 0 <= i < hex_text(b).len() implies '\0' <= #[trigger] hex_text(b)[i] <= '\u{7f}' && hex_value(hex_text(b)[i] as u8) is Some by {
            if i >= 2 {
                assert(hex_text(b)[i] == hex_text(b.drop_first())[i - 2]);
            }
        }
    }
}

/// Hex decoding undoes hex encoding: the bytes of `hex_text(b)` denote `b`.
pub proof fn lemma_hex_roundtrip(b: Seq<u8>)
    ensures
        hex_bytes(vstd::utf8::encode_utf8(hex_text(b))) == Some(b),
    decreases b.len(),
{
    let t = hex_text(b);
    lemma_hex_text_len(b);
    lemma_hex_text_ascii(b);
    vstd::utf8::is_ascii_chars_encode_utf8(t);
    let e = vstd::utf8::encode_utf8(t);
    if b.len() > 0 {
        let rest = b.drop_first();
        lemma_hex_roundtrip(rest);
        lemma_hex_text_len(rest);
        lemma_hex_text_ascii(rest);
        vstd::utf8::is_ascii_chars_encode_utf8(hex_text(rest));
        assert(t == seq![hex_digit((b[0] as int) / 16), hex_digit((b[0] as int) % 16)] + hex_text(rest));
        assert(e.subrange(2, e.len() as int) =~= vstd::utf8::encode_utf8(hex_text(rest))) by {
            assert forall|i: int| 0 <= i < e.len() - 2 implies e.subrange(2, e.len() as int)[i] == vstd::utf8::encode_utf8(hex_text(rest))[i] by {
                assert(t[i + 2] == hex_text(rest)[i]);
            }
        }
        let hi = (b[0] as int) / 16;
        let lo = (b[0] as int) % 16;
        assert(e[0] == t[0] as u8);
        assert(e[1] == t[1] as u8);
        assert(hex_value(e[0]) == Some(hi as u8));
        assert(hex_value(e[1]) == Some(lo as u8));
        assert(seq![(hi * 16 + lo) as u8] + rest =~= b);
    } else {
        assert(e.len() == 0);
    }
}

/// The base64 character of a value below 64 (standard alphabet).
pub open spec fn base64_char(n: int) -> char {
    if n < 26 {
        (n + 65) as char
    } else if n < 52 {
        (n + 71) as char
    } else if n < 62 {
        (n - 4) as char
    } else if n == 62 {
        '+'
    } else {
        '/'
    }
}

/// Standard base64 with `=` padding: four characters per three bytes.
pub open spec fn base64_text(b: Seq<u8>) -> Seq<char>
    decreases b.len(),
{
    if b.len() == 0 {
        seq![]
    } else if b.len() == 1 {
        seq![base64_char((b[0] as int) / 4), base64_char(((b[0] as int) % 4) * 16), '=', '=']
    } else if b.len() == 2 {
        seq![base64_char((b[0] as int) / 4), base64_char(((b[0] as int) % 4) * 16 + (b[1] as int) / 16), base64_char(((b[1] as int) % 16) * 4), '=']
    } else {
        seq![
            base64_char((b[0] as int) / 4),
            base64_char(((b[0] as int) % 4) * 16 + (b[1] as int) / 16),
            base64_char(((b[1] as int) % 16) * 4 + (b[2] as int) / 64),
            base64_char((b[2] as int) % 64),
        ] + base64_text(b.subrange(3, b.len() as int))
    }
}

/// `base64::engine::general_purpose::STANDARD.encode`: standard alphabet,
/// padded with `=`.
#[verifier::external_body]
pub(crate) fn base64_encode(data: &[u8]) -> (r: String)
    ensures
        r@ == base64_text(data@),
{
    base64::engine::general_purpose::STANDARD.encode(data)
}

/// Bytes that percent-encoding keeps: ASCII letters, digits, `-`, `.`, `_`, `~`.
pub open spec fn url_unreserved(b: u8) -> bool {
    (48 <= b <= 57) || (65 <= b <= 90) || (97 <= b <= 122) || b == 45 || b == 46 || b == 95 || b == 126
}

/// The uppercase hex digit of a value below 16.
pub open spec fn upper_hex_digit(n: int) -> char {
    if n < 10 { (n + 48) as char } else { (n + 55) as char }
}

/// Percent-encoding of bytes: every byte but the unreserved ones as `%XX`.
pub open spec fn url_encoded(b: Seq<u8>) -> Seq<char>
    decreases b.len(),
{
    if b.len() == 0 {
        seq![]
    } else {
        (if url_unreserved(b[0]) {
            seq![b[0] as char]
        } else {
            seq!['%', upper_hex_digit((b[0] as int) / 16), upper_hex_digit((b[0] as int) % 16)]
        }) + url_encoded(b.drop_first())
    }
}

/// `urlencoding::encode`: percent-encodes the UTF-8 bytes of the text,
/// keeping ASCII letters, digits, `-`, `.`, `_` and `~`.
#[verifier::external_body]
pub(crate) fn url_encode(s: &str) -> (r: String)
    ensures
        r@ == url_encoded(vstd::utf8::encode_utf8(s@)),
{
    urlencoding::encode(s).into_owned()
}

/// What `str::to_uppercase` returns: the text in Unicode uppercase (some
/// characters map to several).
pub uninterp spec fn unicode_uppercase(s: Seq<char>) -> Seq<char>;

/// A character in ASCII uppercase (`a` to `z` become `A` to `Z`).
pub open spec fn upper_ascii(c: char) -> char {
    if 'a' <= c <= 'z' { ((c as int) - 32) as char } else { c }
}

/// `str::to_uppercase`. The contract names the result; of the Unicode case
/// mapping it states only that ASCII text is uppercased letter by letter.
#[verifier::external_body]
pub(crate) fn to_uppercase(s: &str) -> (r: String)
    ensures
        r@ == unicode_uppercase(s@),
        vstd::utf8::is_ascii_chars(s@) ==> r@ == s@.map_values(|c: char| upper_ascii(c)),
{
    s.to_uppercase()
}

/// The number of UTF-8 bytes of a text.
pub open spec fn byte_len(s: Seq<char>) -> nat {
    vstd::utf8::encode_utf8(s).len()
}

/// The number of UTF-8 bytes of one character.
pub open spec fn char_width(c: char) -> nat {
    vstd::utf8::encode_scalar(c as u32).len()
}

/// The UTF-8 encoding of a concatenation is the concatenation of encodings.
pub proof fn lemma_encode_concat(a: Seq<char>, b: Seq<char>)
    ensures
        vstd::utf8::encode_utf8(a + b) == vstd::utf8::encode_utf8(a) + vstd::utf8::encode_utf8(b),
    decreases a.len(),
{
    if a.len() > 0 {
        lemma_encode_concat(a.drop_first(), b);
        assert((a + b).drop_first() =~= a.drop_first() + b);
        assert((a + b)[0] == a[0]);
    } else {
        assert(a + b =~= b);
    }
}

/// Adding a character to a prefix adds its width to the byte count.
pub proof fn lemma_byte_len_step(s: Seq<char>, k: int)
    requires
        0 <= k < s.len(),
    ensures
        byte_len(s.take(k + 1)) == byte_len(s.take(k)) + char_width(s[k]),
        char_width(s[k]) >= 1,
{
    lemma_encode_concat(s.take(k), seq![s[k]]);
    assert(s.take(k) + seq![s[k]] =~= s.take(k + 1));
    assert(seq![s[k]].drop_first() =~= Seq::<char>::empty());
    assert(vstd::utf8::encode_utf8(Seq::<char>::empty()) =~= Seq::<u8>::empty());
    assert(vstd::utf8::encode_utf8(seq![s[k]]) =~= vstd::utf8::encode_scalar(s[k] as u32));
    vstd::utf8::char_is_scalar(s[k]);
}

/// Byte counts of prefixes grow with the prefix, by at least one per character.
pub proof fn lemma_byte_len_mono(s: Seq<char>, j: int, k: int)
    requires
        0 <= j <= k <= s.len(),
    ensures
        byte_len(s.take(j)) + (k - j) <= byte_len(s.take(k)),
    decreases k - j,
{
    if j < k {
        lemma_byte_len_mono(s, j, k - 1);
        lemma_byte_len_step(s, k - 1);
    }
}

/// The number of UTF-8 bytes of one character.
pub fn utf8_width(c: char) -> (r: usize)
    ensures
        r == char_width(c),
        1 <= r <= 4,
{
    proof {
        vstd::utf8::char_is_scalar(c);
    }
    let u = c as u32;
    if u <= 0x7f {
        1
    } else if u <= 0x7ff {
        2
    } else if u <= 0xffff {
        3
    } else {
        4
    }
}

/// Prefix `k` of the text ends at byte `b`.
pub open spec fn at_byte(s: Seq<char>, b: int, k: int) -> bool {
    0 <= k <= s.len() && byte_len(s.take(k)) == b
}

/// The number of characters before byte offset `b`, when `b` falls on a
/// character boundary of the text.
pub fn char_index_at_byte(s: &[char], b: usize) -> (r: Option<usize>)
    ensures
        r matches Some(k) ==> at_byte(s@, b as int, k as int),
        r is None ==> forall|k: int| !#[trigger] at_byte(s@, b as int, k),
{
    let mut k: usize = 0;
    let mut off: usize = 0;
    assert(s@.take(0) =~= Seq::<char>::empty());
    while off < b && k < s.len()
        invariant
            k <= s@.len(),
            off as int == byte_len(s@.take(k as int)),
            forall|j: int| 0 <= j < k ==> byte_len(s@.take(j)) < b,
        decreases s@.len() - k,
    {
        proof {
            lemma_byte_len_step(s@, k as int);
            assert forall|j: int| 0 <= j < k + 1 implies byte_len(s@.take(j)) < b by {
                if j < k {
                } else {
                    assert(j == k);
                }
            }
        }
        let w = utf8_width(s[k]);
        if w > b - off {
            // the next prefix ends past `b`: `b` falls inside this character
            proof {
                assert forall|j: int| !#[trigger] at_byte(s@, b as int, j) by {
                    if k < j <= s@.len() {
                        lemma_byte_len_mono(s@, k + 1, j);
                    }
                }
            }
            return None;
        }
        off = off + w;
        k = k + 1;
    }
    if off == b {
        Some(k)
    } else {
        proof {
            assert forall|j: int| !#[trigger] at_byte(s@, b as int, j) by {
                if k <= j <= s@.len() {
                    lemma_byte_len_mono(s@, k as int, j);
                    if k == s@.len() {
                        assert(j == k);
                    }
                }
            }
        }
        None
    }
}

/// The byte offset of character index `k`.
pub fn byte_offset(s: &[char], k: usize, total: usize) -> (r: usize)
    requires
        k <= s@.len(),
        byte_len(s@) == total,
    ensures
        r == byte_len(s@.take(k as int)),
{
    let mut i: usize = 0;
    let mut off: usize = 0;
    assert(s@.take(0) =~= Seq::<char>::empty());
    assert(s@.take(s@.len() as int) =~= s@);
    while i < k
        invariant
            i <= k <= s@.len(),
            off == byte_len(s@.take(i as int)),
            byte_len(s@.take(s@.len() as int)) == total,
        decreases k - i,
    {
        proof {
            lemma_byte_len_step(s@, i as int);
            lemma_byte_len_mono(s@, i + 1, s@.len() as int);
        }
        let w = utf8_width(s[i]);
        off = off + w;
        i = i + 1;
    }
    off
}

/// A byte offset ends at most one prefix.
pub proof fn lemma_at_byte_unique(s: Seq<char>, b: int, j: int, k: int)
    requires
        at_byte(s, b, j),
        at_byte(s, b, k),
    ensures
        j == k,
{
    if j < k {
        lemma_byte_len_mono(s, j, k);
    } else if k < j {
        lemma_byte_len_mono(s, k, j);
    }
}

/// The prefix that ends at byte `b`, when there is one.
pub open spec fn prefix_at_byte(s: Seq<char>, b: int) -> int {
    choose|k: int| at_byte(s, b, k)
}

/// The byte length of a string slice, which fits a `usize`.
pub fn str_byte_len(s: &str) -> (r: usize)
    ensures
        r == byte_len(s@),
{
    let b = s.as_bytes();
    b.len()
}

} // verus!
