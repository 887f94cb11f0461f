//! Text helpers shared by the parsers: building strings, decimal digits,
//! and the character classes of `char`.

use vstd::prelude::*;

verus! {

/// `String::push`: appends one character.
#[verifier::external_body]
pub(crate) fn push_char(s: &mut String, c: char)
    ensures
        final(s)@ == old(s)@.push(c),
{
    s.push(c)
}

/// A `String` holding the given characters.
pub fn string_from_chars(chars: &[char]) -> (r: String)
    ensures
        r@ == chars@,
{
    let mut r = String::new();
    let mut i: usize = 0;
    while i < chars.len()
        invariant
            i <= chars.len(),
            r@ == chars@.subrange(0, i as int),
        decreases chars.len() - i,
    {
        push_char(&mut r, chars[i]);
        assert(chars@.subrange(0, i as int).push(chars@[i as int]) =~= chars@.subrange(0, i + 1));
        i = i + 1;
    }
    assert(chars@.subrange(0, chars@.len() as int) =~= chars@);
    r
}

/// The characters of a string slice, in order.
pub fn chars_of(s: &str) -> (r: Vec<char>)
    ensures
        r@ == s@,
{
    let mut r: Vec<char> = Vec::new();
    for c in it: s.chars()
        invariant
            r@ == it.seq().subrange(0, it.index() as int),
            it.seq() == s@,
    {
        r.push(c);
        assert(it.seq().subrange(0, it.index() as int).push(c) =~= it.seq().subrange(0, it.index() + 1));
    }
    r
}

/// The decimal digit of a value below 10.
pub open spec fn digit_char(n: nat) -> char {
    (n + 48) as char
}

/// The decimal text of a natural number, without leading zeros.
pub open spec fn decimal(n: nat) -> Seq<char>
    decreases n,
{
    if n < 10 {
        seq![digit_char(n)]
    } else {
        decimal(n / 10).push(digit_char(n % 10))
    }
}

/// Decimal text left-padded with zeros to at least `width` characters.
pub open spec fn zero_padded(n: nat, width: nat) -> Seq<char> {
    let d = decimal(n);
    if d.len() >= width {
        d
    } else {
        Seq::new((width - d.len()) as nat, |i: int| '0') + d
    }
}

/// The decimal text of `m`, empty for zero.
pub open spec fn decimal_prefix(m: nat) -> Seq<char> {
    if m == 0 { seq![] } else { decimal(m) }
}

proof fn lemma_decimal_prefix_step(m: nat)
    requires
        m > 0,
    ensures
        decimal_prefix(m) == decimal_prefix(m / 10).push(digit_char(m % 10)),
{
    if m < 10 {
        assert(decimal(m) == seq![digit_char(m)]);
        assert(seq![digit_char(m)] =~= Seq::<char>::empty().push(digit_char(m % 10)));
    }
}

/// The decimal digits of `n`, most significant first.
pub fn decimal_digits(n: u64) -> (r: Vec<char>)
    ensures
        r@ == decimal(n as nat),
{
    if n == 0 {
        let mut r = Vec::new();
        r.push('0');
        assert(r@ =~= decimal(0));
        return r;
    }
    // digits, least significant first
    let mut rev: Vec<char> = Vec::new();
    let mut m: u64 = n;
    let ghost mut acc: Seq<char> = seq![];
    while m > 0
        invariant
            n > 0,
            decimal(n as nat) == decimal_prefix(m as nat) + acc,
            rev@.len() == acc.len(),
            forall|i: int| 0 <= i < acc.len() ==> #[trigger] rev@[i] == acc[acc.len() - 1 - i],
        decreases m,
    {
        let c = char_of_digit((m % 10) as u32);
        proof {
            lemma_decimal_prefix_step(m as nat);
            let old_acc = acc;
            acc = seq![c] + old_acc;
            assert(decimal_prefix((m / 10) as nat) + acc =~= decimal_prefix((m / 10) as nat).push(c) + old_acc);
        }
        rev.push(c);
        m = m / 10;
    }
    assert(decimal(n as nat) =~= acc);
    let len = rev.len();
    let mut r: Vec<char> = Vec::new();
    let mut j: usize = len;
    while j > 0
        invariant
            j <= len,
            len == rev@.len(),
            rev@.len() == acc.len(),
            forall|i: int| 0 <= i < acc.len() ==> #[trigger] rev@[i] == acc[acc.len() - 1 - i],
            r@ == acc.subrange(0, (len - j) as int),
        decreases j,
    {
        j = j - 1;
        r.push(rev[j]);
        assert(acc.subrange(0, (len - j - 1) as int).push(acc[(len - j - 1) as int]) =~= acc.subrange(0, (len - j) as int));
    }
    assert(acc.subrange(0, len as int) =~= acc);
    r
}

/// Appends `n` in decimal, left-padded with zeros to `width` characters.
pub fn push_padded(s: &mut String, n: u64, width: usize)
    ensures
        final(s)@ == old(s)@ + zero_padded(n as nat, width as nat),
{
    let digits = decimal_digits(n);
    let len = digits.len();
    let ghost start = s@;
    if len < width {
        let mut k: usize = 0;
        while k < width - len
            invariant
                k <= width - len,
                s@ == start + Seq::new(k as nat, |i: int| '0'),
            decreases width - len - k,
        {
            push_char(s, '0');
            assert(start + Seq::new(k as nat, |i: int| '0').push('0') =~= start + Seq::new((k + 1) as nat, |i: int| '0'));
            k = k + 1;
        }
    }
    let ghost mid = s@;
    let mut j: usize = 0;
    while j < len
        invariant
            j <= len,
            len == digits@.len(),
            s@ == mid + digits@.subrange(0, j as int),
        decreases len - j,
    {
        push_char(s, digits[j]);
        assert(digits@.subrange(0, j as int).push(digits@[j as int]) =~= digits@.subrange(0, j + 1));
        j = j + 1;
    }
    assert(digits@.subrange(0, len as int) =~= digits@);
    if len < width {
        assert(start + zero_padded(n as nat, width as nat) =~= start + Seq::new((width - len) as nat, |i: int| '0') + digits@);
    }
}

/// The character of a decimal digit.
pub fn char_of_digit(d: u32) -> (c: char)
    requires
        d < 10,
    ensures
        c == digit_char(d as nat),
{
    if d == 0 { '0' } else if d == 1 { '1' } else if d == 2 { '2' } else if d == 3 { '3' } else if d == 4 { '4' }
    else if d == 5 { '5' } else if d == 6 { '6' } else if d == 7 { '7' } else if d == 8 { '8' } else { '9' }
}

/// Whether two string slices hold the same text (compared through their
/// UTF-8 bytes, which determine the text).
pub fn str_equal(a: &str, b: &str) -> (r: bool)
    ensures
        r == (a@ == b@),
{
    let x = a.as_bytes();
    let y = b.as_bytes();
    proof {
        vstd::utf8::encode_utf8_decode_utf8(a@);
        vstd::utf8::encode_utf8_decode_utf8(b@);
        assert(x@ == vstd::utf8::encode_utf8(a@));
        assert(y@ == vstd::utf8::encode_utf8(b@));
    }
    if x.len() != y.len() {
        return false;
    }
    let mut i: usize = 0;
    while i < x.len()
        invariant
            i <= x@.len(),
            x@.len() == y@.len(),
            x@ == vstd::utf8::encode_utf8(a@),
            y@ == vstd::utf8::encode_utf8(b@),
            forall|j: int| 0 <= j < i ==> x@[j] == y@[j],
        decreases x@.len() - i,
    {
        if x[i] != y[i] {
            assert(x@ != y@);
            return false;
        }
        i = i + 1;
    }
    assert(x@ =~= y@);
    true
}

/// The characters with the Unicode `White_Space` property, which
/// `char::is_whitespace` tests and `str::trim` removes.
pub open spec fn spec_is_whitespace(c: char) -> bool {
    ||| ('\u{9}' <= c <= '\u{d}')
    ||| c == ' '
    ||| c == '\u{85}'
    ||| c == '\u{a0}'
    ||| c == '\u{1680}'
    ||| ('\u{2000}' <= c <= '\u{200a}')
    ||| c == '\u{2028}'
    ||| c == '\u{2029}'
    ||| c == '\u{202f}'
    ||| c == '\u{205f}'
    ||| c == '\u{3000}'
}

/// Whether `c` has the Unicode `White_Space` property.
pub fn is_whitespace(c: char) -> (r: bool)
    ensures
        r == spec_is_whitespace(c),
{
    ('\u{9}' <= c && c <= '\u{d}') || c == ' ' || c == '\u{85}' || c == '\u{a0}' || c == '\u{1680}'
        || ('\u{2000}' <= c && c <= '\u{200a}') || c == '\u{2028}' || c == '\u{2029}'
        || c == '\u{202f}' || c == '\u{205f}' || c == '\u{3000}'
}

/// The text without its leading whitespace.
pub open spec fn trim_start_ws(s: Seq<char>) -> Seq<char>
    decreases s.len(),
{
    if s.len() > 0 && spec_is_whitespace(s[0]) { trim_start_ws(s.drop_first()) } else { s }
}

/// The text without its trailing whitespace.
pub open spec fn trim_end_ws(s: Seq<char>) -> Seq<char>
    decreases s.len(),
{
    if s.len() > 0 && spec_is_whitespace(s.last()) { trim_end_ws(s.drop_last()) } else { s }
}

/// `str::trim`: the text without leading and trailing whitespace.
pub open spec fn trim_ws(s: Seq<char>) -> Seq<char> {
    trim_end_ws(trim_start_ws(s))
}

/// Start index of the text left after dropping the leading characters that
/// satisfy `start`; helper of the trimming functions.
pub fn trim_bounds(s: &Vec<char>) -> (r: (usize, usize))
    ensures
        r.0 <= r.1 <= s@.len(),
        s@.subrange(r.0 as int, r.1 as int) == trim_ws(s@),
{
    let mut a: usize = 0;
    assert(s@.subrange(0, s@.len() as int) =~= s@);
    while a < s.len() && is_whitespace(s[a])
        invariant
            a <= s@.len(),
            trim_start_ws(s@) == trim_start_ws(s@.subrange(a as int, s@.len() as int)),
        decreases s@.len() - a,
    {
        assert(s@.subrange(a as int, s@.len() as int).drop_first() =~= s@.subrange(a + 1, s@.len() as int));
        a = a + 1;
    }
    assert(trim_start_ws(s@) == s@.subrange(a as int, s@.len() as int));
    let mut b: usize = s.len();
    while b > a && is_whitespace(s[b - 1])
        invariant
            a <= b <= s@.len(),
            trim_ws(s@) == trim_end_ws(s@.subrange(a as int, b as int)),
        decreases b,
    {
        assert(s@.subrange(a as int, b as int).drop_last() =~= s@.subrange(a as int, b - 1));
        b = b - 1;
    }
    (a, b)
}

/// ASCII lowercase of one character (other characters unchanged).
pub open spec fn lower_ascii(c: char) -> char {
    if 'A' <= c <= 'Z' { ((c as u32) + 32) as char } else { c }
}

/// ASCII lowercase of a character.
pub fn to_ascii_lower(c: char) -> (r: char)
    ensures
        r == lower_ascii(c),
{
    if 'A' <= c && c <= 'Z' {
        let u = (c as u32) + 32;
        char_from_ascii(u)
    } else {
        c
    }
}

/// The character of an ASCII code between `a` and `z`.
fn char_from_ascii(u: u32) -> (c: char)
    requires
        97 <= u <= 122,
    ensures
        c == u as char,
{
    let b: u8 = u as u8;
    b as char
}

/// `str::to_ascii_lowercase`: every ASCII capital letter in lowercase.
pub open spec fn lower_ascii_text(s: Seq<char>) -> Seq<char> {
    s.map_values(|c: char| lower_ascii(c))
}

/// The ASCII-lowercase copy of a character sequence.
pub fn lower_chars(s: &Vec<char>) -> (r: Vec<char>)
    ensures
        r@ == lower_ascii_text(s@),
{
    let mut r: Vec<char> = Vec::new();
    let mut i: usize = 0;
    while i < s.len()
        invariant
            i <= s@.len(),
            r@ == lower_ascii_text(s@.subrange(0, i as int)),
        decreases s@.len() - i,
    {
        r.push(to_ascii_lower(s[i]));
        assert(lower_ascii_text(s@.subrange(0, i + 1)) =~= lower_ascii_text(s@.subrange(0, i as int)).push(lower_ascii(s@[i as int])));
        i = i + 1;
    }
    assert(s@.subrange(0, s@.len() as int) =~= s@);
    r
}

/// `needle` occurs in `hay` at index `i`.
pub open spec fn occurs_at(hay: Seq<char>, needle: Seq<char>, i: int) -> bool {
    0 <= i && i + needle.len() <= hay.len() && hay.subrange(i, i + needle.len()) == needle
}

/// The first index at or after `from` where `needle` occurs.
pub open spec fn find_from(hay: Seq<char>, needle: Seq<char>, from: int) -> Option<int>
    decreases hay.len() + 1 - from,
{
    if from < 0 || from + needle.len() > hay.len() {
        None
    } else if occurs_at(hay, needle, from) {
        Some(from)
    } else {
        find_from(hay, needle, from + 1)
    }
}

/// `str::find` on characters: the first index where `needle` occurs.
pub open spec fn find_text(hay: Seq<char>, needle: Seq<char>) -> Option<int> {
    find_from(hay, needle, 0)
}

/// Whether `hay` has `needle` at index `i`.
pub fn matches_at(hay: &[char], needle: &[char], i: usize) -> (r: bool)
    ensures
        r == occurs_at(hay@, needle@, i as int),
{
    if i > hay.len() || needle.len() > hay.len() - i {
        return false;
    }
    let mut k: usize = 0;
    while k < needle.len()
        invariant
            k <= needle@.len(),
            i + needle@.len() <= hay@.len(),
            forall|j: int| 0 <= j < k ==> hay@[i + j] == needle@[j],
        decreases needle@.len() - k,
    {
        let hl = hay.len();
        assert(i + k < hl);
        if hay[i + k] != needle[k] {
            return false;
        }
        k = k + 1;
    }
    assert(hay@.subrange(i as int, i + needle@.len()) =~= needle@);
    true
}

/// The first index at or after `from` where `needle` occurs in `hay`.
pub fn find_chars_from(hay: &[char], needle: &[char], from: usize) -> (r: Option<usize>)
    ensures
        r matches Some(i) ==> find_from(hay@, needle@, from as int) == Some(i as int),
        r is None ==> find_from(hay@, needle@, from as int) is None,
{
    let mut i = from;
    while i <= hay.len() && needle.len() <= hay.len() - i
        invariant
            from <= i,
            find_from(hay@, needle@, from as int) == find_from(hay@, needle@, i as int),
        decreases hay@.len() + 1 - i,
    {
        if matches_at(hay, needle, i) {
            return Some(i);
        }
        if needle.len() == 0 {
            assert(hay@.subrange(i as int, i as int) =~= needle@);
        }
        i = i + 1;
    }
    None
}

/// The first index where `needle` occurs in `hay`.
pub fn find_chars(hay: &[char], needle: &[char]) -> (r: Option<usize>)
    ensures
        r matches Some(i) ==> find_text(hay@, needle@) == Some(i as int),
        r is None ==> find_text(hay@, needle@) is None,
{
    find_chars_from(hay, needle, 0)
}

/// Whether `s` ends with `suffix`.
pub fn ends_with_chars(s: &[char], suffix: &[char]) -> (r: bool)
    ensures
        r == (suffix@.len() <= s@.len() && s@.subrange(s@.len() - suffix@.len(), s@.len() as int) == suffix@),
{
    if suffix.len() > s.len() {
        return false;
    }
    let r = matches_at(s, suffix, s.len() - suffix.len());
    r
}

/// Whether `s` starts with `prefix`.
pub fn starts_with_chars(s: &[char], prefix: &[char]) -> (r: bool)
    ensures
        r == (prefix@.len() <= s@.len() && s@.subrange(0, prefix@.len() as int) == prefix@),
{
    matches_at(s, prefix, 0)
}

/// The last index at or below `k` where `needle` occurs.
pub open spec fn rfind_below(hay: Seq<char>, needle: Seq<char>, k: int) -> Option<int>
    decreases k + 1,
{
    if k < 0 {
        None
    } else if occurs_at(hay, needle, k) {
        Some(k)
    } else {
        rfind_below(hay, needle, k - 1)
    }
}

/// `str::rfind` on characters: the last index where `needle` occurs.
pub open spec fn rfind_text(hay: Seq<char>, needle: Seq<char>) -> Option<int> {
    rfind_below(hay, needle, hay.len() - needle.len())
}

/// The last index where `needle` occurs in `hay`.
pub fn rfind_chars(hay: &[char], needle: &[char]) -> (r: Option<usize>)
    ensures
        r matches Some(i) ==> rfind_text(hay@, needle@) == Some(i as int) && i + needle@.len() <= hay@.len(),
        r is None ==> rfind_text(hay@, needle@) is None,
{
    if needle.len() > hay.len() {
        return None;
    }
    let mut k: usize = hay.len() - needle.len();
    loop
        invariant
            k + needle@.len() <= hay@.len(),
            rfind_text(hay@, needle@) == rfind_below(hay@, needle@, k as int),
        decreases k,
    {
        if matches_at(hay, needle, k) {
            return Some(k);
        }
        if k == 0 {
            assert(rfind_below(hay@, needle@, -1) is None);
            return None;
        }
        k = k - 1;
    }
}

/// `str::replace`: every non-overlapping occurrence of `pat`, scanning from
/// index `from`, replaced by `rep`; the text before `from` is dropped.
pub open spec fn replace_from(s: Seq<char>, pat: Seq<char>, rep: Seq<char>, from: int) -> Seq<char>
    decreases s.len() + 1 - from,
{
    if pat.len() == 0 || from < 0 || from > s.len() {
        seq![]
    } else {
        match find_from(s, pat, from) {
            Some(i) => if from <= i && i + pat.len() <= s.len() {
                s.subrange(from, i) + rep + replace_from(s, pat, rep, i + pat.len())
            } else {
                seq![]
            },
            None => s.subrange(from, s.len() as int),
        }
    }
}

/// `str::replace` with a non-empty pattern.
pub open spec fn replace_all(s: Seq<char>, pat: Seq<char>, rep: Seq<char>) -> Seq<char> {
    replace_from(s, pat, rep, 0)
}

pub proof fn lemma_find_from_bounds(hay: Seq<char>, needle: Seq<char>, from: int)
    ensures
        find_from(hay, needle, from) matches Some(i) ==> from <= i && i + needle.len() <= hay.len()
            && occurs_at(hay, needle, i),
    decreases hay.len() + 1 - from,
{
    if !(from < 0 || from + needle.len() > hay.len()) && !occurs_at(hay, needle, from) {
        lemma_find_from_bounds(hay, needle, from + 1);
    }
}

/// Every occurrence of a non-empty `pat` replaced by `rep`.
pub fn replace_chars(s: &[char], pat: &[char], rep: &[char]) -> (r: Vec<char>)
    requires
        pat@.len() > 0,
    ensures
        r@ == replace_all(s@, pat@, rep@),
{
    let mut out: Vec<char> = Vec::new();
    let mut from: usize = 0;
    loop
        invariant
            from <= s@.len(),
            pat@.len() > 0,
            out@ + replace_from(s@, pat@, rep@, from as int) == replace_all(s@, pat@, rep@),
        decreases s@.len() - from,
    {
        proof {
            lemma_find_from_bounds(s@, pat@, from as int);
        }
        match find_chars_from(s, pat, from) {
            Some(i) => {
                let ghost before = out@;
                let mut k = from;
                while k < i
                    invariant
                        from <= k <= i,
                        i <= s@.len(),
                        out@ == before + s@.subrange(from as int, k as int),
                    decreases i - k,
                {
                    out.push(s[k]);
                    assert(s@.subrange(from as int, k as int).push(s@[k as int]) =~= s@.subrange(from as int, k + 1));
                    k = k + 1;
                }
                let ghost mid = out@;
                let mut j: usize = 0;
                while j < rep.len()
                    invariant
                        j <= rep@.len(),
                        out@ == mid + rep@.subrange(0, j as int),
                    decreases rep@.len() - j,
                {
                    out.push(rep[j]);
                    assert(rep@.subrange(0, j as int).push(rep@[j as int]) =~= rep@.subrange(0, j + 1));
                    j = j + 1;
                }
                assert(rep@.subrange(0, rep@.len() as int) =~= rep@);
                assert(out@ + replace_from(s@, pat@, rep@, (i + pat.len()) as int) =~= before + replace_from(s@, pat@, rep@, from as int));
                let sl = s.len();
                assert(i + pat.len() <= sl);
                from = i + pat.len();
            },
            None => {
                let ghost before = out@;
                let mut k = from;
                while k < s.len()
                    invariant
                        from <= k <= s@.len(),
                        out@ == before + s@.subrange(from as int, k as int),
                    decreases s@.len() - k,
                {
                    out.push(s[k]);
                    assert(s@.subrange(from as int, k as int).push(s@[k as int]) =~= s@.subrange(from as int, k + 1));
                    k = k + 1;
                }
                return out;
            },
        }
    }
}

/// `str::splitn(n, sep)`: at most `n` pieces, the last one holding the rest.
pub open spec fn splitn_text(s: Seq<char>, sep: Seq<char>, n: nat) -> Seq<Seq<char>>
    decreases s.len(), n,
{
    if n <= 1 || sep.len() == 0 {
        seq![s]
    } else {
        match find_text(s, sep) {
            Some(i) => if 0 <= i && i + sep.len() <= s.len() {
                seq![s.subrange(0, i)] + splitn_text(s.subrange(i + sep.len(), s.len() as int), sep, (n - 1) as nat)
            } else {
                seq![s]
            },
            None => seq![s],
        }
    }
}

/// The characters of a slice from `a` to `b`.
pub fn sub_chars(s: &[char], a: usize, b: usize) -> (r: Vec<char>)
    requires
        a <= b <= s@.len(),
    ensures
        r@ == s@.subrange(a as int, b as int),
{
    vstd::slice::slice_to_vec(vstd::slice::slice_subrange(s, a, b))
}

/// Splits at the first `sep`, at most `n` pieces.
pub fn splitn_chars(s: &[char], sep: &[char], n: usize) -> (r: Vec<Vec<char>>)
    requires
        sep@.len() > 0,
    ensures
        r@.len() == splitn_text(s@, sep@, n as nat).len(),
        forall|i: int| 0 <= i < r@.len() ==> (#[trigger] r@[i])@ == splitn_text(s@, sep@, n as nat)[i],
{
    let mut out: Vec<Vec<char>> = Vec::new();
    let mut rest: Vec<char> = sub_chars(s, 0, s.len());
    let mut left: usize = n;
    assert(s@.subrange(0, s@.len() as int) =~= s@);
    loop
        invariant
            sep@.len() > 0,
            out@.len() + splitn_text(rest@, sep@, left as nat).len() == splitn_text(s@, sep@, n as nat).len(),
            forall|i: int| 0 <= i < out@.len() ==> (#[trigger] out@[i])@ == splitn_text(s@, sep@, n as nat)[i],
            forall|i: int| 0 <= i < splitn_text(rest@, sep@, left as nat).len() ==>
                #[trigger] splitn_text(rest@, sep@, left as nat)[i] == splitn_text(s@, sep@, n as nat)[out@.len() + i],
        decreases rest@.len(), left,
    {
        if left <= 1 {
            assert(splitn_text(rest@, sep@, left as nat) =~= seq![rest@]);
            let ghost old_out = out@;
            assert(splitn_text(rest@, sep@, left as nat)[0] == splitn_text(s@, sep@, n as nat)[old_out.len() as int]);
            out.push(rest);
            assert forall|i: int| 0 <= i < out@.len() implies (#[trigger] out@[i])@ == splitn_text(s@, sep@, n as nat)[i] by {
                if i < old_out.len() {
                    assert(out@[i] == old_out[i]);
                }
            }
            return out;
        }
        proof {
            lemma_find_from_bounds(rest@, sep@, 0);
        }
        match find_chars(rest.as_slice(), sep) {
            Some(i) => {
                let rl = rest.len();
                assert(i + sep.len() <= rl);
                let head = sub_chars(rest.as_slice(), 0, i);
                let tail = sub_chars(rest.as_slice(), i + sep.len(), rest.len());
                let ghost old_rest = rest@;
                let ghost old_len = out@.len();
                assert(splitn_text(old_rest, sep@, left as nat) == seq![head@] + splitn_text(tail@, sep@, (left - 1) as nat));
                assert(splitn_text(old_rest, sep@, left as nat)[0] == head@);
                out.push(head);
                rest = tail;
                left = left - 1;
                assert forall|k: int| 0 <= k < splitn_text(rest@, sep@, left as nat).len() implies
                    #[trigger] splitn_text(rest@, sep@, left as nat)[k] == splitn_text(s@, sep@, n as nat)[out@.len() + k] by {
                    assert(splitn_text(old_rest, sep@, (left + 1) as nat)[k + 1] == splitn_text(rest@, sep@, left as nat)[k]);
                }
            },
            None => {
                assert(splitn_text(rest@, sep@, left as nat) =~= seq![rest@]);
                let ghost old_out = out@;
                assert(splitn_text(rest@, sep@, left as nat)[0] == splitn_text(s@, sep@, n as nat)[old_out.len() as int]);
                out.push(rest);
                assert forall|i: int| 0 <= i < out@.len() implies (#[trigger] out@[i])@ == splitn_text(s@, sep@, n as nat)[i] by {
                    if i < old_out.len() {
                        assert(out@[i] == old_out[i]);
                    }
                }
                return out;
            },
        }
    }
}

} // verus!
