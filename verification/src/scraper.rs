//! The op.gg profile reader: the profile URL of a Riot ID and region, and the
//! statistics read from the profile page's HTML (the `og:description` meta
//! tag, the profile icon and the summoner level).

use vstd::prelude::*;
use crate::codec::{
    at_byte, byte_len, byte_offset, char_index_at_byte, lemma_at_byte_unique, lemma_byte_len_mono,
    prefix_at_byte, str_byte_len, to_uppercase, unicode_uppercase, url_encode, url_encoded,
};
use crate::crypto::message;
use crate::text::{
    chars_of, find_chars, find_chars_from, find_from, find_text, replace_all, replace_chars,
    rfind_chars, rfind_text, spec_is_whitespace, is_whitespace, splitn_chars, splitn_text,
    str_equal, string_from_chars, sub_chars, trim_bounds, trim_ws,
};
use crate::update::{digits_value, is_digit};
use crate::text::{occurs_at, rfind_below, trim_start_ws};

verus! {

/// Ranked standing in one queue. The win rate is derived from `wins` and
/// `losses` by the caller.
#[derive(Debug, Clone)]
pub struct RankInfo {
    pub tier: String,
    pub division: String,
    pub lp: i64,
    pub wins: i64,
    pub losses: i64,
}

/// Wins and losses with one champion.
#[derive(Debug, Clone)]
pub struct ChampionStat {
    pub name: String,
    pub wins: i64,
    pub losses: i64,
}

impl ChampionStat {
    /// The games played with the champion: wins and losses.
    pub fn games(&self) -> (r: i64)
        requires
            i64::MIN <= self.wins + self.losses <= i64::MAX,
        ensures
            r == self.wins + self.losses,
    {
        self.wins + self.losses
    }
}

/// What the profile page tells about a summoner.
#[derive(Debug, Clone)]
pub struct SummonerStats {
    pub icon_url: Option<String>,
    pub summoner_level: Option<i64>,
    pub solo: RankInfo,
    pub flex: RankInfo,
    pub top_champions: Vec<ChampionStat>,
    pub fetched_at: String,
}

/// The text of an optional string slice.
pub open spec fn opt_text(o: Option<&str>) -> Option<Seq<char>> {
    match o {
        Some(s) => Some(s@),
        None => None,
    }
}

/// The op.gg path segment of an uppercase region code.
pub open spec fn slug_of_upper(u: Seq<char>) -> Option<Seq<char>> {
    if u == "NA"@ { Some("na"@) }
    else if u == "EUW"@ { Some("euw"@) }
    else if u == "EUNE"@ { Some("eune"@) }
    else if u == "KR"@ { Some("kr"@) }
    else if u == "JP"@ { Some("jp"@) }
    else if u == "BR"@ { Some("br"@) }
    else if u == "LAN"@ { Some("lan"@) }
    else if u == "LAS"@ { Some("las"@) }
    else if u == "OCE"@ { Some("oce"@) }
    else if u == "TR"@ { Some("tr"@) }
    else if u == "RU"@ { Some("ru"@) }
    else { None }
}

/// The op.gg path segment of a region code already in uppercase.
pub fn slug_for_upper(upper: &str) -> (r: Option<&'static str>)
    ensures
        opt_text(r) == slug_of_upper(upper@),
{
    if str_equal(upper, "NA") { Some("na") }
    else if str_equal(upper, "EUW") { Some("euw") }
    else if str_equal(upper, "EUNE") { Some("eune") }
    else if str_equal(upper, "KR") { Some("kr") }
    else if str_equal(upper, "JP") { Some("jp") }
    else if str_equal(upper, "BR") { Some("br") }
    else if str_equal(upper, "LAN") { Some("lan") }
    else if str_equal(upper, "LAS") { Some("las") }
    else if str_equal(upper, "OCE") { Some("oce") }
    else if str_equal(upper, "TR") { Some("tr") }
    else if str_equal(upper, "RU") { Some("ru") }
    else { None }
}

/// The op.gg path segment of a region, matched in any case.
pub fn region_slug(region: &str) -> (r: Option<&'static str>)
    ensures
        opt_text(r) == slug_of_upper(unicode_uppercase(region@)),
        vstd::utf8::is_ascii_chars(region@) ==> opt_text(r) == slug_of_upper(
            region@.map_values(|c: char| crate::codec::upper_ascii(c)),
        ),
{
    let upper = to_uppercase(region);
    slug_for_upper(upper.as_str())
}

/// The game name and tag line of a Riot ID `Name#TAG`, split at the last
/// `#`; both must be non-empty.
pub open spec fn riot_id_parts(s: Seq<char>) -> Option<(Seq<char>, Seq<char>)> {
    match rfind_text(s, seq!['#']) {
        Some(k) => {
            let g = s.subrange(0, k);
            let t = s.subrange(k + 1, s.len() as int);
            if g.len() == 0 || t.len() == 0 { None } else { Some((g, t)) }
        },
        None => None,
    }
}

proof fn lemma_rfind_below(hay: Seq<char>, needle: Seq<char>, k: int)
    ensures
        rfind_below(hay, needle, k) matches Some(i) ==> i <= k && occurs_at(hay, needle, i)
            && forall|j: int| i < j <= k ==> !occurs_at(hay, needle, j),
        rfind_below(hay, needle, k) is None ==> forall|j: int| 0 <= j <= k ==> !occurs_at(hay, needle, j),
    decreases k + 1,
{
    if k >= 0 && !occurs_at(hay, needle, k) {
        lemma_rfind_below(hay, needle, k - 1);
    }
}

/// A Riot ID that splits rebuilds as `name#tag`, with both parts non-empty
/// and no `#` in the tag; a text without `#` does not split.
pub proof fn lemma_riot_id_rebuilds(s: Seq<char>)
    ensures
        riot_id_parts(s) matches Some((g, t)) ==> g + seq!['#'] + t == s && g.len() > 0 && t.len() > 0
            && !t.contains('#'),
        !s.contains('#') ==> riot_id_parts(s) is None,
{
    let hash = seq!['#'];
    lemma_rfind_below(s, hash, s.len() - 1);
    match rfind_text(s, hash) {
        Some(k) => {
            assert(occurs_at(s, hash, k));
            assert(s.subrange(k, k + 1)[0] == s[k]);
            assert(s[k] == '#');
            let g = s.subrange(0, k);
            let t = s.subrange(k + 1, s.len() as int);
            assert(g + hash + t =~= s);
            if t.contains('#') {
                let j = choose|j: int| 0 <= j < t.len() && t[j] == '#';
                assert(s.subrange(k + 1 + j, k + 2 + j) =~= hash);
                assert(occurs_at(s, hash, k + 1 + j));
            }
        },
        None => {
            if s.contains('#') {
                let j = choose|j: int| 0 <= j < s.len() && s[j] == '#';
                assert(s.subrange(j, j + 1) =~= hash);
                assert(occurs_at(s, hash, j));
            }
        },
    }
}

/// Splits a Riot ID `Name#TAG` at its last `#`.
pub fn parse_riot_id(riot_id: &str) -> (r: Result<(String, String), String>)
    ensures
        r is Ok <==> riot_id_parts(riot_id@) is Some,
        r matches Ok((g, t)) ==> riot_id_parts(riot_id@) == Some((g@, t@)),
        r matches Err(e) ==> e@ == "Riot ID must be in \"Name#TAG\" format."@,
{
    let cs = chars_of(riot_id);
    let hash = vec!['#'];
    let k = match rfind_chars(cs.as_slice(), hash.as_slice()) {
        Some(k) => k,
        None => {
            assert(hash@ =~= seq!['#']);
            return Err(message("Riot ID must be in \"Name#TAG\" format."));
        },
    };
    assert(hash@ =~= seq!['#']);
    let n = cs.len();
    assert(k + 1 <= n);
    let g = sub_chars(cs.as_slice(), 0, k);
    let t = sub_chars(cs.as_slice(), k + 1, cs.len());
    if g.len() == 0 || t.len() == 0 {
        return Err(message("Riot ID must be in \"Name#TAG\" format."));
    }
    Ok((string_from_chars(g.as_slice()), string_from_chars(t.as_slice())))
}

/// The op.gg profile URL of a Riot ID in a region.
pub open spec fn profile_url_text(slug: Seq<char>, game: Seq<char>, tag: Seq<char>) -> Seq<char> {
    "https://www.op.gg/summoners/"@ + slug + "/"@ + url_encoded(vstd::utf8::encode_utf8(game)) + "-"@
        + url_encoded(vstd::utf8::encode_utf8(tag))
}

/// The op.gg profile URL of an account: the region must be known and the
/// Riot ID in `Name#TAG` form, name and tag percent-encoded.
pub fn profile_url(riot_id: &str, region: &str) -> (r: Result<String, String>)
    ensures
        slug_of_upper(unicode_uppercase(region@)) is None ==> (r matches Err(e) && e@ == "Unknown region: "@ + region@),
        slug_of_upper(unicode_uppercase(region@)) is Some && riot_id_parts(riot_id@) is None ==>
            (r matches Err(e) && e@ == "Riot ID must be in \"Name#TAG\" format."@),
        r matches Ok(u) ==> (slug_of_upper(unicode_uppercase(region@)) matches Some(slug)
            && riot_id_parts(riot_id@) matches Some((g, t)) && u@ == profile_url_text(slug, g, t)),
        slug_of_upper(unicode_uppercase(region@)) is Some && riot_id_parts(riot_id@) is Some ==> r is Ok,
{
    let slug = match region_slug(region) {
        Some(s) => s,
        None => {
            let mut e = message("Unknown region: ");
            e.append(region);
            return Err(e);
        },
    };
    let (g, t) = parse_riot_id(riot_id)?;
    let mut url = message("https://www.op.gg/summoners/");
    url.append(slug);
    url.append("/");
    let ge = url_encode(g.as_str());
    url.append(ge.as_str());
    url.append("-");
    let te = url_encode(t.as_str());
    url.append(te.as_str());
    Ok(url)
}

/// The error for an op.gg answer with HTTP status 404: the summoner is not
/// on op.gg. Other statuses give none here.
pub fn profile_not_found(status: u16, riot_id: &str) -> (r: Option<String>)
    ensures
        r is Some <==> status == 404,
        r matches Some(e) ==> e@ == "Summoner \""@ + riot_id@ + "\" not found on op.gg"@,
{
    if status == 404 {
        let mut e = message("Summoner \"");
        e.append(riot_id);
        e.append("\" not found on op.gg");
        Some(e)
    } else {
        None
    }
}

/// The run of ASCII digits at the end of a text.
pub open spec fn trailing_digits(s: Seq<char>) -> Seq<char>
    decreases s.len(),
{
    if s.len() > 0 && is_digit(s.last()) { trailing_digits(s.drop_last()).push(s.last()) } else { seq![] }
}

/// The value of a non-empty run of digits, when it fits an `i64`.
pub open spec fn digits_i64(d: Seq<char>) -> Option<int> {
    if d.len() > 0 && digits_value(d) <= i64::MAX { Some(digits_value(d) as int) } else { None }
}

/// The number written just before the first `suffix`: the run of digits that
/// ends where `suffix` starts.
pub open spec fn number_before_text(t: Seq<char>, suffix: Seq<char>) -> Option<int> {
    match find_text(t, suffix) {
        Some(i) => digits_i64(trailing_digits(t.subrange(0, i))),
        None => None,
    }
}

/// The value of a run of ASCII digits, `None` when empty or above `i64::MAX`.
pub fn digits_to_i64(d: &[char]) -> (r: Option<i64>)
    requires
        forall|i: int| 0 <= i < d@.len() ==> is_digit(#[trigger] d@[i]),
    ensures
        match r {
            Some(v) => digits_i64(d@) == Some(v as int),
            None => digits_i64(d@) is None,
        },
{
    if d.len() == 0 {
        return None;
    }
    let mut acc: u64 = 0;
    let mut big = false;
    let mut i: usize = 0;
    while i < d.len()
        invariant
            i <= d@.len(),
            forall|j: int| 0 <= j < d@.len() ==> is_digit(#[trigger] d@[j]),
            !big ==> acc as int == digits_value(d@.subrange(0, i as int)) && acc <= i64::MAX,
            big ==> digits_value(d@.subrange(0, i as int)) > i64::MAX,
        decreases d@.len() - i,
    {
        assert(d@.subrange(0, i + 1).drop_last() =~= d@.subrange(0, i as int));
        assert(is_digit(d@[i as int]));
        let v = (d[i] as u32 - 48) as u64;
        if !big {
            if acc > (0x7fff_ffff_ffff_ffffu64 - v) / 10 {
                big = true;
            } else {
                acc = acc * 10 + v;
            }
        }
        i = i + 1;
    }
    assert(d@.subrange(0, d@.len() as int) =~= d@);
    if big {
        None
    } else {
        Some(acc as i64)
    }
}

/// Start of the run of ASCII digits that ends at index `end`.
fn digit_run_start(t: &[char], end: usize) -> (r: usize)
    requires
        end <= t@.len(),
    ensures
        r <= end,
        trailing_digits(t@.subrange(0, end as int)) == t@.subrange(r as int, end as int),
        forall|i: int| r <= i < end ==> is_digit(#[trigger] t@[i]),
{
    let mut j = end;
    while j > 0 && '0' <= t[j - 1] && t[j - 1] <= '9'
        invariant
            j <= end <= t@.len(),
            trailing_digits(t@.subrange(0, end as int)) == trailing_digits(t@.subrange(0, j as int)) + t@.subrange(j as int, end as int),
            forall|i: int| j <= i < end ==> is_digit(#[trigger] t@[i]),
        decreases j,
    {
        let ghost pre = t@.subrange(0, j as int);
        assert(pre.drop_last() =~= t@.subrange(0, j - 1));
        assert(t@.subrange(j - 1, end as int) =~= seq![t@[j - 1]] + t@.subrange(j as int, end as int));
        assert(trailing_digits(t@.subrange(0, j - 1)).push(t@[j - 1]) + t@.subrange(j as int, end as int)
            =~= trailing_digits(t@.subrange(0, j - 1)) + t@.subrange(j - 1, end as int));
        j = j - 1;
    }
    assert(trailing_digits(t@.subrange(0, j as int)) =~= seq![]);
    assert(seq![] + t@.subrange(j as int, end as int) =~= t@.subrange(j as int, end as int));
    j
}

/// The number written just before the first occurrence of `suffix`.
pub fn number_before_chars(text: &[char], suffix: &[char]) -> (r: Option<i64>)
    ensures
        match r {
            Some(v) => number_before_text(text@, suffix@) == Some(v as int),
            None => number_before_text(text@, suffix@) is None,
        },
{
    let idx = match find_chars(text, suffix) {
        Some(i) => i,
        None => return None,
    };
    proof {
        crate::text::lemma_find_from_bounds(text@, suffix@, 0);
    }
    let start = digit_run_start(text, idx);
    let digits = vstd::slice::slice_subrange(text, start, idx);
    digits_to_i64(digits)
}

/// The number written just before the first occurrence of `suffix` in `text`
/// (`None` when there is no such digit run or it exceeds `i64`).
pub fn number_before(text: &str, suffix: &str) -> (r: Option<i64>)
    ensures
        match r {
            Some(v) => number_before_text(text@, suffix@) == Some(v as int),
            None => number_before_text(text@, suffix@) is None,
        },
{
    let t = chars_of(text);
    let sfx = chars_of(suffix);
    number_before_chars(t.as_slice(), sfx.as_slice())
}

/// The text with its common HTML entities decoded, in this order: `&amp;`,
/// `&lt;`, `&gt;`, `&quot;`, `&#39;`, `&nbsp;`.
pub open spec fn html_decoded(s: Seq<char>) -> Seq<char> {
    let a = replace_all(s, "&amp;"@, "&"@);
    let b = replace_all(a, "&lt;"@, "<"@);
    let c = replace_all(b, "&gt;"@, ">"@);
    let d = replace_all(c, "&quot;"@, "\""@);
    let e = replace_all(d, "&#39;"@, "'"@);
    replace_all(e, "&nbsp;"@, " "@)
}

/// Decodes the common HTML entities.
pub fn html_decode_chars(s: &[char]) -> (r: Vec<char>)
    ensures
        r@ == html_decoded(s@),
{
    proof {
        reveal_strlit("&amp;");
        reveal_strlit("&lt;");
        reveal_strlit("&gt;");
        reveal_strlit("&quot;");
        reveal_strlit("&#39;");
        reveal_strlit("&nbsp;");
    }
    let a = replace_chars(s, chars_of("&amp;").as_slice(), chars_of("&").as_slice());
    let b = replace_chars(a.as_slice(), chars_of("&lt;").as_slice(), chars_of("<").as_slice());
    let c = replace_chars(b.as_slice(), chars_of("&gt;").as_slice(), chars_of(">").as_slice());
    let d = replace_chars(c.as_slice(), chars_of("&quot;").as_slice(), chars_of("\"").as_slice());
    let e = replace_chars(d.as_slice(), chars_of("&#39;").as_slice(), chars_of("'").as_slice());
    replace_chars(e.as_slice(), chars_of("&nbsp;").as_slice(), chars_of(" ").as_slice())
}

/// Decodes the common HTML entities.
pub fn html_decode(s: &str) -> (r: String)
    ensures
        r@ == html_decoded(s@),
{
    let cs = chars_of(s);
    let d = html_decode_chars(cs.as_slice());
    string_from_chars(d.as_slice())
}

/// The text after the first `marker` up to the next `"`, when not empty.
pub open spec fn value_after(h: Seq<char>, marker: Seq<char>) -> Option<Seq<char>> {
    match find_text(h, marker) {
        Some(i) => {
            let after = h.subrange(i + marker.len(), h.len() as int);
            match find_text(after, seq!['"']) {
                Some(e) => if e > 0 { Some(after.subrange(0, e)) } else { None },
                None => None,
            }
        },
        None => None,
    }
}

/// The `og:description` meta tag with `property` before `content`.
pub open spec fn og_marker() -> Seq<char> {
    "og:description\" content=\""@
}

/// The `description` meta tag.
pub open spec fn name_marker() -> Seq<char> {
    "name=\"description\" content=\""@
}

/// Byte offset where the backward search for a `content="` attribute starts:
/// 150 bytes before the first `og:description`, or the start of the page.
pub open spec fn fallback_start_byte(h: Seq<char>, p: int) -> int {
    let pb = byte_len(h.take(p));
    if pb >= 150 { pb - 150 } else { 0 }
}

/// The page's description read from a `content="..."` attribute in the 150
/// bytes before `og:description` (attributes in the other order).
pub open spec fn meta_fallback(h: Seq<char>) -> Option<Seq<char>> {
    match find_text(h, "og:description"@) {
        Some(p) => {
            let k = prefix_at_byte(h, fallback_start_byte(h, p));
            let region = h.subrange(k, p);
            match rfind_text(region, "content=\""@) {
                Some(c) => {
                    let after = region.subrange(c + 9, region.len() as int);
                    match find_text(after, seq!['"']) {
                        Some(e) => if e > 0 { Some(after.subrange(0, e)) } else { None },
                        None => None,
                    }
                },
                None => None,
            }
        },
        None => None,
    }
}

/// The backward search window starts on a character boundary (the page
/// slicing does not fail).
pub open spec fn meta_fallback_ok(h: Seq<char>) -> bool {
    match find_text(h, "og:description"@) {
        Some(p) => exists|k: int| at_byte(h, fallback_start_byte(h, p), k),
        None => true,
    }
}

/// The raw description: the `og:description` tag, else the `description`
/// tag, else the reversed-attribute `og:description` tag.
pub open spec fn raw_description(h: Seq<char>) -> Option<Seq<char>> {
    match value_after(h, og_marker()) {
        Some(v) => Some(v),
        None => match value_after(h, name_marker()) {
            Some(v) => Some(v),
            None => meta_fallback(h),
        },
    }
}

/// Reading the description does not slice the page inside a character.
pub open spec fn description_ok(h: Seq<char>) -> bool {
    value_after(h, og_marker()) is None && value_after(h, name_marker()) is None ==> meta_fallback_ok(h)
}

/// The text after the first `marker` up to the next `"`, when not empty.
fn value_after_chars(h: &[char], marker: &[char]) -> (r: Option<Vec<char>>)
    ensures
        match r {
            Some(v) => value_after(h@, marker@) == Some(v@),
            None => value_after(h@, marker@) is None,
        },
{
    let i = match find_chars(h, marker) {
        Some(i) => i,
        None => return None,
    };
    proof {
        crate::text::lemma_find_from_bounds(h@, marker@, 0);
    }
    let n = h.len();
    assert(i + marker.len() <= n);
    let after = sub_chars(h, i + marker.len(), h.len());
    let quote = vec!['"'];
    assert(quote@ =~= seq!['"']);
    match find_chars(after.as_slice(), quote.as_slice()) {
        Some(e) => {
            proof {
                crate::text::lemma_find_from_bounds(after@, quote@, 0);
            }
            if e > 0 {
                Some(sub_chars(after.as_slice(), 0, e))
            } else {
                None
            }
        },
        None => None,
    }
}

/// The description from reversed attributes, from the page's characters.
fn meta_fallback_chars(h: &[char], total: usize) -> (r: Option<Vec<char>>)
    requires
        byte_len(h@) == total,
        meta_fallback_ok(h@),
    ensures
        match r {
            Some(v) => meta_fallback(h@) == Some(v@),
            None => meta_fallback(h@) is None,
        },
{
    proof {
        reveal_strlit("content=\"");
    }
    let p = match find_chars(h, chars_of("og:description").as_slice()) {
        Some(p) => p,
        None => return None,
    };
    proof {
        crate::text::lemma_find_from_bounds(h@, "og:description"@, 0);
    }
    let pb = byte_offset(h, p, total);
    let sb = if pb >= 150 { pb - 150 } else { 0 };
    let k = match char_index_at_byte(h, sb) {
        Some(k) => k,
        None => return None,
    };
    proof {
        let c = choose|c: int| at_byte(h@, sb as int, c);
        lemma_at_byte_unique(h@, sb as int, k as int, c);
        assert(at_byte(h@, pb as int, p as int));
        if k > p {
            lemma_byte_len_mono(h@, p as int, k as int);
        }
    }
    let region = sub_chars(h, k, p);
    let pat = chars_of("content=\"");
    let c = match rfind_chars(region.as_slice(), pat.as_slice()) {
        Some(c) => c,
        None => return None,
    };
    let after = sub_chars(region.as_slice(), c + 9, region.len());
    let quote = vec!['"'];
    assert(quote@ =~= seq!['"']);
    match find_chars(after.as_slice(), quote.as_slice()) {
        Some(e) => {
            proof {
                crate::text::lemma_find_from_bounds(after@, quote@, 0);
            }
            if e > 0 {
                Some(sub_chars(after.as_slice(), 0, e))
            } else {
                None
            }
        },
        None => None,
    }
}

/// The page description: the content of the `og:description` meta tag (or of
/// the `description` tag), with HTML entities decoded.
pub fn extract_meta_description(html: &str) -> (r: Option<String>)
    requires
        description_ok(html@),
    ensures
        match r {
            Some(d) => raw_description(html@) matches Some(v) && d@ == html_decoded(v),
            None => raw_description(html@) is None,
        },
{
    let total = str_byte_len(html);
    let h = chars_of(html);
    let og = chars_of("og:description\" content=\"");
    let v = match value_after_chars(h.as_slice(), og.as_slice()) {
        Some(v) => Some(v),
        None => {
            let nm = chars_of("name=\"description\" content=\"");
            match value_after_chars(h.as_slice(), nm.as_slice()) {
                Some(v) => Some(v),
                None => meta_fallback_chars(h.as_slice(), total),
            }
        },
    };
    match v {
        Some(v) => {
            let d = html_decode_chars(v.as_slice());
            Some(string_from_chars(d.as_slice()))
        },
        None => None,
    }
}

/// The first index at or after `i` that holds a quote (`"` or `'`).
pub open spec fn first_quote_from(h: Seq<char>, i: int) -> Option<int>
    decreases h.len() - i,
{
    if i < 0 || i >= h.len() {
        None
    } else if h[i] == '"' || h[i] == '\'' {
        Some(i)
    } else {
        first_quote_from(h, i + 1)
    }
}

/// Start of the profile icon URLs on op.gg's image CDN.
pub open spec fn icon_prefix() -> Seq<char> {
    "https://opgg-static.akamaized.net/meta/images/profile_icons/"@
}

/// The first profile icon URL on the page: from the CDN prefix up to the
/// next quote.
pub open spec fn profile_icon(h: Seq<char>) -> Option<Seq<char>> {
    match find_text(h, icon_prefix()) {
        Some(start) => match first_quote_from(h, start) {
            Some(end) => Some(h.subrange(start, end)),
            None => None,
        },
        None => None,
    }
}

/// The profile icon URL of the page.
pub fn extract_profile_icon(html: &str) -> (r: Option<String>)
    ensures
        match r {
            Some(u) => profile_icon(html@) == Some(u@),
            None => profile_icon(html@) is None,
        },
{
    let h = chars_of(html);
    let prefix = chars_of("https://opgg-static.akamaized.net/meta/images/profile_icons/");
    let start = match find_chars(h.as_slice(), prefix.as_slice()) {
        Some(s) => s,
        None => return None,
    };
    proof {
        crate::text::lemma_find_from_bounds(h@, prefix@, 0);
    }
    let mut i = start;
    while i < h.len()
        invariant
            start <= i <= h@.len(),
            h@ == html@,
            find_text(h@, icon_prefix()) == Some(start as int),
            first_quote_from(h@, start as int) == first_quote_from(h@, i as int),
        decreases h@.len() - i,
    {
        if h[i] == '"' || h[i] == '\'' {
            return Some(string_from_chars(sub_chars(h.as_slice(), start, i).as_slice()));
        }
        i = i + 1;
    }
    None
}

/// The summoner level in a window of the page: scanning runs of digits, the
/// first value from 1 to 9999 that comes after a value above 999999 (the
/// CDN build number). A run of digits that ends the window counts too.
pub open spec fn level_scan(w: Seq<char>, i: int, buf: Seq<char>, seen: bool) -> Option<int>
    decreases w.len() - i,
{
    if i < 0 || i >= w.len() {
        if buf.len() > 0 && seen {
            match digits_i64(buf) {
                Some(n) => if 1 <= n <= 9999 { Some(n) } else { None },
                None => None,
            }
        } else {
            None
        }
    } else if is_digit(w[i]) {
        level_scan(w, i + 1, buf.push(w[i]), seen)
    } else if buf.len() == 0 {
        level_scan(w, i + 1, buf, seen)
    } else {
        match digits_i64(buf) {
            Some(n) => if n > 999_999 {
                level_scan(w, i + 1, seq![], true)
            } else if seen && 1 <= n <= 9999 {
                Some(n)
            } else {
                level_scan(w, i + 1, seq![], seen)
            },
            None => level_scan(w, i + 1, seq![], seen),
        }
    }
}

/// The image transform that ends the profile icon URL.
pub open spec fn level_marker() -> Seq<char> {
    "f_png,w_200"@
}

/// The byte where the level window ends: 400 bytes after the marker, or the
/// end of the page.
pub open spec fn level_window_end_byte(h: Seq<char>, a: int) -> int {
    let b: int = byte_len(h.take(a + 11)) as int + 400;
    if b < byte_len(h) { b } else { byte_len(h) as int }
}

/// The summoner level: read in the 400 bytes after the first marker.
pub open spec fn summoner_level(h: Seq<char>) -> Option<int> {
    match find_text(h, level_marker()) {
        Some(a) => {
            let k = prefix_at_byte(h, level_window_end_byte(h, a));
            level_scan(h.subrange(a + 11, k), 0, seq![], false)
        },
        None => None,
    }
}

/// The level window ends on a character boundary (the slicing does not fail).
pub open spec fn level_window_ok(h: Seq<char>) -> bool {
    match find_text(h, level_marker()) {
        Some(a) => exists|k: int| at_byte(h, level_window_end_byte(h, a), k),
        None => true,
    }
}

/// Scans a window for the summoner level.
fn scan_level(w: &[char]) -> (r: Option<i64>)
    ensures
        match r {
            Some(n) => level_scan(w@, 0, seq![], false) == Some(n as int),
            None => level_scan(w@, 0, seq![], false) is None,
        },
{
    let mut buf: Vec<char> = Vec::new();
    let mut seen = false;
    let mut i: usize = 0;
    while i < w.len()
        invariant
            i <= w@.len(),
            level_scan(w@, 0, seq![], false) == level_scan(w@, i as int, buf@, seen),
            forall|j: int| 0 <= j < buf@.len() ==> is_digit(#[trigger] buf@[j]),
        decreases w@.len() - i,
    {
        let c = w[i];
        if '0' <= c && c <= '9' {
            buf.push(c);
        } else if buf.len() > 0 {
            match digits_to_i64(buf.as_slice()) {
                Some(n) => {
                    if n > 999_999 {
                        seen = true;
                    } else if seen && 1 <= n && n <= 9999 {
                        return Some(n);
                    }
                },
                None => {},
            }
            buf = Vec::new();
            assert(buf@ =~= seq![]);
        }
        i = i + 1;
    }
    if buf.len() > 0 && seen {
        match digits_to_i64(buf.as_slice()) {
            Some(n) => {
                if 1 <= n && n <= 9999 {
                    return Some(n);
                }
            },
            None => {},
        }
    }
    None
}

/// The summoner level shown after the profile icon URL.
pub fn extract_level(html: &str) -> (r: Option<i64>)
    requires
        level_window_ok(html@),
    ensures
        match r {
            Some(n) => summoner_level(html@) == Some(n as int),
            None => summoner_level(html@) is None,
        },
{
    proof {
        reveal_strlit("f_png,w_200");
    }
    let total = str_byte_len(html);
    let h = chars_of(html);
    let marker = chars_of("f_png,w_200");
    let a = match find_chars(h.as_slice(), marker.as_slice()) {
        Some(a) => a,
        None => return None,
    };
    proof {
        crate::text::lemma_find_from_bounds(h@, marker@, 0);
        assert(h@.take(h@.len() as int) =~= h@);
    }
    let hl = h.len();
    assert(a + 11 <= hl);
    let after = a + 11;
    let start_byte = byte_offset(h.as_slice(), after, total);
    proof {
        lemma_byte_len_mono(h@, after as int, h@.len() as int);
    }
    let end_byte = if total - start_byte > 400 { start_byte + 400 } else { total };
    let k = match char_index_at_byte(h.as_slice(), end_byte) {
        Some(k) => k,
        None => return None,
    };
    proof {
        let c = choose|c: int| at_byte(h@, end_byte as int, c);
        lemma_at_byte_unique(h@, end_byte as int, k as int, c);
        assert(at_byte(h@, start_byte as int, after as int));
        if k < after {
            lemma_byte_len_mono(h@, k as int, after as int);
        }
    }
    let window = sub_chars(h.as_slice(), after, k);
    scan_level(window.as_slice())
}

/// The ranked tiers, highest first, as the page writes them in uppercase.
pub open spec fn tiers() -> Seq<Seq<char>> {
    seq![
        "CHALLENGER"@, "GRANDMASTER"@, "MASTER"@, "DIAMOND"@, "EMERALD"@, "PLATINUM"@, "GOLD"@,
        "SILVER"@, "BRONZE"@, "IRON"@,
    ]
}

/// The first tier from index `i` of the list that the uppercase rank text
/// contains.
pub open spec fn tier_from(u: Seq<char>, i: int) -> Option<Seq<char>>
    decreases 10 - i,
{
    if i < 0 || i >= 10 {
        None
    } else if find_text(u, tiers()[i]) is Some {
        Some(tiers()[i])
    } else {
        tier_from(u, i + 1)
    }
}

/// The tier read from an uppercase rank text is the first tier of the list
/// CHALLENGER, GRANDMASTER, MASTER, DIAMOND, EMERALD, PLATINUM, GOLD, SILVER,
/// BRONZE, IRON that the text contains, and there is none only when it holds
/// none of them.
pub proof fn lemma_tier_is_first_listed(u: Seq<char>, k: int)
    ensures
        tiers() == seq![
            "CHALLENGER"@, "GRANDMASTER"@, "MASTER"@, "DIAMOND"@, "EMERALD"@, "PLATINUM"@, "GOLD"@,
            "SILVER"@, "BRONZE"@, "IRON"@,
        ],
        0 <= k < 10 && find_text(u, tiers()[k]) is Some
            && (forall|j: int| 0 <= j < k ==> find_text(u, #[trigger] tiers()[j]) is None)
            ==> tier_from(u, 0) == Some(tiers()[k]),
        tier_from(u, 0) is None <==> forall|j: int| 0 <= j < 10 ==> find_text(u, #[trigger] tiers()[j]) is None,
{
    lemma_tier_from_scan(u, 0, k);
}

proof fn lemma_tier_from_scan(u: Seq<char>, i: int, k: int)
    requires
        0 <= i <= 10,
    ensures
        i <= k < 10 && find_text(u, tiers()[k]) is Some
            && (forall|j: int| i <= j < k ==> find_text(u, #[trigger] tiers()[j]) is None)
            ==> tier_from(u, i) == Some(tiers()[k]),
        tier_from(u, i) is None <==> forall|j: int| i <= j < 10 ==> find_text(u, #[trigger] tiers()[j]) is None,
        tier_from(u, i) matches Some(t) ==> exists|j: int| i <= j < 10 && t == #[trigger] tiers()[j]
            && find_text(u, tiers()[j]) is Some,
    decreases 10 - i,
{
    if i < 10 {
        lemma_tier_from_scan(u, i + 1, k);
        if find_text(u, tiers()[i]) is None {
            assert forall|j: int| i <= j < 10 && (forall|q: int| i + 1 <= q < 10 ==> find_text(u, #[trigger] tiers()[q]) is None)
                implies find_text(u, #[trigger] tiers()[j]) is None by {
                if j > i {
                }
            }
        }
    }
}

/// The apex tiers have no divisions.
pub open spec fn is_apex_tier(t: Seq<char>) -> bool {
    t == "MASTER"@ || t == "GRANDMASTER"@ || t == "CHALLENGER"@
}

/// The first word of a text that starts with no whitespace.
pub open spec fn first_word(s: Seq<char>) -> Seq<char>
    decreases s.len(),
{
    if s.len() == 0 || spec_is_whitespace(s[0]) { seq![] } else { seq![s[0]] + first_word(s.drop_first()) }
}

/// Byte offset in the rank text just after the tier word, as located in the
/// uppercase copy of the text (0 when the tier is not found).
pub open spec fn after_tier_byte(rank: Seq<char>, tier: Seq<char>) -> int {
    let u = unicode_uppercase(rank);
    (match find_text(u, tier) {
        Some(i) => byte_len(u.take(i)) as int,
        None => 0int,
    }) + byte_len(tier)
}

/// The division written after the tier word: `I` to `IV` (or `1` to `4`),
/// empty for apex tiers and anything else.
pub open spec fn division_of(rank: Seq<char>, tier: Seq<char>) -> Seq<char> {
    if is_apex_tier(tier) {
        seq![]
    } else {
        let k = prefix_at_byte(rank, after_tier_byte(rank, tier));
        let word = unicode_uppercase(first_word(trim_start_ws(rank.subrange(k, rank.len() as int))));
        if word == "I"@ || word == "1"@ { "I"@ }
        else if word == "II"@ || word == "2"@ { "II"@ }
        else if word == "III"@ || word == "3"@ { "III"@ }
        else if word == "IV"@ || word == "4"@ { "IV"@ }
        else { seq![] }
    }
}

/// The uppercase first word after the tier word in the rank text.
pub open spec fn word_after_tier(rank: Seq<char>, tier: Seq<char>) -> Seq<char> {
    let k = prefix_at_byte(rank, after_tier_byte(rank, tier));
    unicode_uppercase(first_word(trim_start_ws(rank.subrange(k, rank.len() as int))))
}

/// The division after a tier with divisions is the same for the digit and the
/// Roman form of the word after the tier (`1`/`I` to `4`/`IV`), and empty for
/// any other word; the apex tiers have none.
pub proof fn lemma_division_digit_or_roman(rank: Seq<char>, tier: Seq<char>)
    ensures
        is_apex_tier(tier) ==> division_of(rank, tier) == Seq::<char>::empty(),
        !is_apex_tier(tier) ==> {
            let w = word_after_tier(rank, tier);
            &&& (w == "1"@ || w == "I"@) ==> division_of(rank, tier) == "I"@
            &&& (w == "2"@ || w == "II"@) ==> division_of(rank, tier) == "II"@
            &&& (w == "3"@ || w == "III"@) ==> division_of(rank, tier) == "III"@
            &&& (w == "4"@ || w == "IV"@) ==> division_of(rank, tier) == "IV"@
            &&& !(w == "1"@ || w == "I"@ || w == "2"@ || w == "II"@ || w == "3"@ || w == "III"@ || w == "4"@
                || w == "IV"@) ==> division_of(rank, tier) == Seq::<char>::empty()
        },
{
    reveal_strlit("1");
    reveal_strlit("2");
    reveal_strlit("3");
    reveal_strlit("4");
    reveal_strlit("I");
    reveal_strlit("II");
    reveal_strlit("III");
    reveal_strlit("IV");
    if !is_apex_tier(tier) {
        // the eight division words are distinct texts
        assert("1"@[0] != "2"@[0]);
        assert("1"@[0] != "3"@[0]);
        assert("1"@[0] != "4"@[0]);
        assert("1"@[0] != "I"@[0]);
        assert("1"@.len() != "II"@.len());
        assert("1"@.len() != "III"@.len());
        assert("1"@.len() != "IV"@.len());
        assert("2"@[0] != "3"@[0]);
        assert("2"@[0] != "4"@[0]);
        assert("2"@[0] != "I"@[0]);
        assert("2"@.len() != "II"@.len());
        assert("2"@.len() != "III"@.len());
        assert("2"@.len() != "IV"@.len());
        assert("3"@[0] != "4"@[0]);
        assert("3"@[0] != "I"@[0]);
        assert("3"@.len() != "II"@.len());
        assert("3"@.len() != "III"@.len());
        assert("3"@.len() != "IV"@.len());
        assert("4"@[0] != "I"@[0]);
        assert("4"@.len() != "II"@.len());
        assert("4"@.len() != "III"@.len());
        assert("4"@.len() != "IV"@.len());
        assert("I"@.len() != "II"@.len());
        assert("I"@.len() != "III"@.len());
        assert("I"@.len() != "IV"@.len());
        assert("II"@.len() != "III"@.len());
        assert("II"@[1] != "IV"@[1]);
        assert("III"@.len() != "IV"@.len());
    }
}

/// The offset just after the tier word falls on a character boundary of the
/// rank text (the slicing does not fail).
pub open spec fn division_ok(rank: Seq<char>, tier: Seq<char>) -> bool {
    is_apex_tier(tier) || exists|k: int| at_byte(rank, after_tier_byte(rank, tier), k)
}

/// Extracts the division (`I` to `IV`) written after the tier word.
pub fn extract_division(rank_str: &str, tier: &str) -> (r: String)
    requires
        division_ok(rank_str@, tier@),
    ensures
        r@ == division_of(rank_str@, tier@),
{
    if str_equal(tier, "MASTER") || str_equal(tier, "GRANDMASTER") || str_equal(tier, "CHALLENGER") {
        return String::new();
    }
    let upper = to_uppercase(rank_str);
    let u = chars_of(upper.as_str());
    let t = chars_of(tier);
    let tier_bytes = str_byte_len(tier);
    let upper_total = str_byte_len(upper.as_str());
    let idx = match find_chars(u.as_slice(), t.as_slice()) {
        Some(i) => {
            proof {
                crate::text::lemma_find_from_bounds(u@, t@, 0);
            }
            byte_offset(u.as_slice(), i, upper_total)
        },
        None => 0,
    };
    let rank_total = str_byte_len(rank_str);
    let r = chars_of(rank_str);
    // the division is read from this byte of the rank text on: it is a boundary
    if idx > rank_total || tier_bytes > rank_total - idx {
        proof {
            let c = choose|c: int| at_byte(r@, after_tier_byte(rank_str@, tier@), c);
            assert(r@.take(r@.len() as int) =~= r@);
            crate::codec::lemma_byte_len_mono(r@, c, r@.len() as int);
        }
        return String::new();
    }
    let k = match char_index_at_byte(r.as_slice(), idx + tier_bytes) {
        Some(k) => k,
        None => return String::new(),
    };
    proof {
        let c = choose|c: int| at_byte(r@, after_tier_byte(rank_str@, tier@), c);
        lemma_at_byte_unique(r@, (idx + tier_bytes) as int, k as int, c);
    }
    let rest = sub_chars(r.as_slice(), k, r.len());
    let mut a: usize = 0;
    assert(rest@.subrange(0, rest@.len() as int) =~= rest@);
    while a < rest.len() && is_whitespace(rest[a])
        invariant
            a <= rest@.len(),
            trim_start_ws(rest@) == trim_start_ws(rest@.subrange(a as int, rest@.len() as int)),
        decreases rest@.len() - a,
    {
        assert(rest@.subrange(a as int, rest@.len() as int).drop_first() =~= rest@.subrange(a + 1, rest@.len() as int));
        a = a + 1;
    }
    let ghost trimmed = rest@.subrange(a as int, rest@.len() as int);
    assert(trim_start_ws(rest@) == trimmed);
    let mut b = a;
    while b < rest.len() && !is_whitespace(rest[b])
        invariant
            a <= b <= rest@.len(),
            trimmed == rest@.subrange(a as int, rest@.len() as int),
            first_word(trimmed) == rest@.subrange(a as int, b as int) + first_word(rest@.subrange(b as int, rest@.len() as int)),
        decreases rest@.len() - b,
    {
        assert(rest@.subrange(b as int, rest@.len() as int).drop_first() =~= rest@.subrange(b + 1, rest@.len() as int));
        assert(rest@.subrange(a as int, b + 1) =~= rest@.subrange(a as int, b as int) + seq![rest@[b as int]]);
        b = b + 1;
    }
    assert(first_word(rest@.subrange(b as int, rest@.len() as int)) =~= seq![]);
    assert(first_word(trimmed) =~= rest@.subrange(a as int, b as int));
    let word = string_from_chars(sub_chars(rest.as_slice(), a, b).as_slice());
    let up = to_uppercase(word.as_str());
    let w = up.as_str();
    if str_equal(w, "I") || str_equal(w, "1") {
        message("I")
    } else if str_equal(w, "II") || str_equal(w, "2") {
        message("II")
    } else if str_equal(w, "III") || str_equal(w, "3") {
        message("III")
    } else if str_equal(w, "IV") || str_equal(w, "4") {
        message("IV")
    } else {
        String::new()
    }
}

/// A number read from the text, or zero.
pub open spec fn or_zero(n: Option<int>) -> int {
    match n { Some(v) => v, None => 0 }
}

/// The pieces of a description: name, rank, record, champions.
pub open spec fn description_parts(d: Seq<char>) -> Seq<Seq<char>> {
    splitn_text(d, " / "@, 4)
}

/// The rank is unranked: tier `UNRANKED`, no division, zero LP and games.
pub open spec fn is_unranked(r: RankInfo) -> bool {
    r.tier@ == "UNRANKED"@ && r.division@.len() == 0 && r.lp == 0 && r.wins == 0 && r.losses == 0
}

/// The solo rank that a description states:
/// "Name#TAG / Tier Div N LP / WWin LLose Win rate X% / Champions...".
/// Without a rank and a record, or without a known tier, it is unranked.
pub open spec fn rank_matches(r: RankInfo, d: Seq<char>) -> bool {
    let parts = description_parts(d);
    if parts.len() < 3 {
        is_unranked(r)
    } else {
        match tier_from(unicode_uppercase(parts[1]), 0) {
            None => is_unranked(r),
            Some(t) => {
                &&& r.tier@ == t
                &&& r.division@ == division_of(parts[1], t)
                &&& r.lp == or_zero(number_before_text(parts[1], "LP"@))
                &&& r.wins == or_zero(number_before_text(parts[2], "Win"@))
                &&& r.losses == or_zero(number_before_text(parts[2], "Lose"@))
            },
        }
    }
}

/// Reading the division of a description does not fail.
pub open spec fn rank_ok(d: Seq<char>) -> bool {
    let parts = description_parts(d);
    parts.len() >= 3 ==> match tier_from(unicode_uppercase(parts[1]), 0) {
        Some(t) => division_ok(parts[1], t),
        None => true,
    }
}

impl RankInfo {
    /// The games played in the queue: wins and losses.
    pub fn games(&self) -> (r: i64)
        requires
            i64::MIN <= self.wins + self.losses <= i64::MAX,
        ensures
            r == self.wins + self.losses,
    {
        self.wins + self.losses
    }

    /// The standing of an unranked summoner.
    pub fn unranked() -> (r: RankInfo)
        ensures
            is_unranked(r),
    {
        proof {
            reveal_strlit("UNRANKED");
        }
        RankInfo { tier: message("UNRANKED"), division: String::new(), lp: 0, wins: 0, losses: 0 }
    }
}

/// The tier word the uppercase rank text holds (first in the tier list).
fn find_tier(u: &[char]) -> (r: Option<&'static str>)
    ensures
        opt_text(r) == tier_from(u@, 0),
{
    let names: [&'static str; 10] = [
        "CHALLENGER", "GRANDMASTER", "MASTER", "DIAMOND", "EMERALD", "PLATINUM", "GOLD", "SILVER",
        "BRONZE", "IRON",
    ];
    assert(names@.map_values(|n: &str| n@) =~= tiers());
    let mut i: usize = 0;
    while i < 10
        invariant
            i <= 10,
            names@.map_values(|n: &str| n@) == tiers(),
            tier_from(u@, 0) == tier_from(u@, i as int),
        decreases 10 - i,
    {
        let t = chars_of(names[i]);
        assert(names@[i as int]@ == tiers()[i as int]);
        if find_chars(u, t.as_slice()).is_some() {
            return Some(names[i]);
        }
        i = i + 1;
    }
    None
}

/// A number read before `suffix`, or zero.
fn number_or_zero(text: &[char], suffix: &str) -> (r: i64)
    ensures
        r as int == or_zero(number_before_text(text@, suffix@)),
{
    let sfx = chars_of(suffix);
    match number_before_chars(text, sfx.as_slice()) {
        Some(v) => v,
        None => 0,
    }
}

/// Reads the solo rank from the profile description.
pub fn parse_rank_from_description(description: &str) -> (r: RankInfo)
    requires
        rank_ok(description@),
    ensures
        rank_matches(r, description@),
{
    let d = chars_of(description);
    let sep = chars_of(" / ");
    proof {
        reveal_strlit(" / ");
    }
    let parts = splitn_chars(d.as_slice(), sep.as_slice(), 4);
    if parts.len() < 3 {
        return RankInfo::unranked();
    }
    let rank_text = string_from_chars(parts[1].as_slice());
    let upper = to_uppercase(rank_text.as_str());
    let u = chars_of(upper.as_str());
    let tier = match find_tier(u.as_slice()) {
        Some(t) => t,
        None => return RankInfo::unranked(),
    };
    let division = extract_division(rank_text.as_str(), tier);
    let lp = number_or_zero(parts[1].as_slice(), "LP");
    let wins = number_or_zero(parts[2].as_slice(), "Win");
    let losses = number_or_zero(parts[2].as_slice(), "Lose");
    RankInfo { tier: message(tier), division, lp, wins, losses }
}

/// A champion's record: the text before ` - ` is the name (trimmed), the
/// wins and losses are read from the rest.
pub open spec fn champion_of(entry: Seq<char>) -> Option<(Seq<char>, int, int)> {
    match find_text(entry, " - "@) {
        Some(i) => {
            let stats = entry.subrange(i + 3, entry.len() as int);
            Some((
                trim_ws(entry.subrange(0, i)),
                or_zero(number_before_text(stats, "Win"@)),
                or_zero(number_before_text(stats, "Lose"@)),
            ))
        },
        None => None,
    }
}

/// The records of the entries that have a ` - `, in order.
pub open spec fn champion_list(entries: Seq<Seq<char>>) -> Seq<(Seq<char>, int, int)>
    decreases entries.len(),
{
    if entries.len() == 0 {
        seq![]
    } else {
        (match champion_of(entries[0]) {
            Some(c) => seq![c],
            None => seq![],
        }) + champion_list(entries.drop_first())
    }
}

/// The top champions a description states: from the part after the third
/// ` / `, the first three `, `-separated entries that have a ` - `.
pub open spec fn champions_of(d: Seq<char>) -> Seq<(Seq<char>, int, int)> {
    let parts = description_parts(d);
    if parts.len() < 4 {
        seq![]
    } else {
        let entries = splitn_text(parts[3], ", "@, 4);
        champion_list(if entries.len() > 3 { entries.take(3) } else { entries })
    }
}

/// The record of a champion as the description states it.
pub open spec fn champion_view(c: ChampionStat) -> (Seq<char>, int, int) {
    (c.name@, c.wins as int, c.losses as int)
}

/// Reads the top champions (at most three) from the profile description.
pub fn parse_champions_from_description(description: &str) -> (r: Vec<ChampionStat>)
    ensures
        r@.map_values(|c: ChampionStat| champion_view(c)) == champions_of(description@),
{
    proof {
        reveal_strlit(" / ");
        reveal_strlit(", ");
        reveal_strlit(" - ");
    }
    let d = chars_of(description);
    let sep = chars_of(" / ");
    let parts = splitn_chars(d.as_slice(), sep.as_slice(), 4);
    let mut out: Vec<ChampionStat> = Vec::new();
    if parts.len() < 4 {
        assert(out@.map_values(|c: ChampionStat| champion_view(c)) =~= seq![]);
        return out;
    }
    let comma = chars_of(", ");
    let entries = splitn_chars(parts[3].as_slice(), comma.as_slice(), 4);
    let n = if entries.len() > 3 { 3 } else { entries.len() };
    let ghost all = splitn_text(parts@[3]@, ", "@, 4);
    let ghost chosen = if all.len() > 3 { all.take(3) } else { all };
    assert(chosen.len() == n);
    let dash = chars_of(" - ");
    let mut i: usize = 0;
    assert(chosen.subrange(0, n as int) =~= chosen);
    assert(out@.map_values(|c: ChampionStat| champion_view(c)) =~= seq![]);
    assert(seq![] + champion_list(chosen) =~= champion_list(chosen));
    while i < n
        invariant
            i <= n == chosen.len(),
            n <= entries@.len(),
            entries@.len() == all.len(),
            forall|j: int| 0 <= j < entries@.len() ==> (#[trigger] entries@[j])@ == all[j],
            forall|j: int| 0 <= j < chosen.len() ==> #[trigger] chosen[j] == all[j],
            dash@ == " - "@,
            dash@.len() == 3,
            champion_list(chosen) == out@.map_values(|c: ChampionStat| champion_view(c)) + champion_list(chosen.subrange(i as int, n as int)),
        decreases n - i,
    {
        let ghost rest = chosen.subrange(i as int, n as int);
        assert(rest.drop_first() =~= chosen.subrange(i + 1, n as int));
        assert(rest[0] == entries@[i as int]@);
        let e = &entries[i];
        let ghost before = out@.map_values(|c: ChampionStat| champion_view(c));
        match find_chars(e.as_slice(), dash.as_slice()) {
            Some(k) => {
                proof {
                    crate::text::lemma_find_from_bounds(e@, dash@, 0);
                }
                let el = e.len();
                assert(k + 3 <= el);
                let name_part = sub_chars(e.as_slice(), 0, k);
                let (a, b) = trim_bounds(&name_part);
                let name = string_from_chars(sub_chars(name_part.as_slice(), a, b).as_slice());
                let stats = sub_chars(e.as_slice(), k + 3, e.len());
                let wins = number_or_zero(stats.as_slice(), "Win");
                let losses = number_or_zero(stats.as_slice(), "Lose");
                let c = ChampionStat { name, wins, losses };
                assert(champion_of(rest[0]) == Some(champion_view(c)));
                out.push(c);
                assert(out@.map_values(|c: ChampionStat| champion_view(c)) =~= before.push(champion_view(c)));
                assert(champion_list(rest) =~= seq![champion_view(c)] + champion_list(rest.drop_first()));
                assert(before + champion_list(rest) =~= before.push(champion_view(c)) + champion_list(rest.drop_first()));
            },
            None => {
                assert(champion_list(rest) =~= seq![] + champion_list(rest.drop_first()));
                assert(champion_list(rest) =~= champion_list(rest.drop_first()));
            },
        }
        i = i + 1;
    }
    assert(chosen.subrange(n as int, n as int) =~= Seq::<Seq<char>>::empty());
    assert(out@.map_values(|c: ChampionStat| champion_view(c)) + seq![] =~= out@.map_values(|c: ChampionStat| champion_view(c)));
    out
}

/// Reading the page does not slice it, or the rank text, inside a character.
pub open spec fn html_parse_safe(h: Seq<char>) -> bool {
    &&& description_ok(h)
    &&& level_window_ok(h)
    &&& raw_description(h) matches Some(v) ==> rank_ok(html_decoded(v))
}

/// Whether the offset just after the tier word is a boundary of the rank text.
fn division_ok_exec(rank_str: &str, tier: &str) -> (r: bool)
    ensures
        r == division_ok(rank_str@, tier@),
{
    if str_equal(tier, "MASTER") || str_equal(tier, "GRANDMASTER") || str_equal(tier, "CHALLENGER") {
        return true;
    }
    let upper = to_uppercase(rank_str);
    let u = chars_of(upper.as_str());
    let t = chars_of(tier);
    let tier_bytes = str_byte_len(tier);
    let upper_total = str_byte_len(upper.as_str());
    let idx = match find_chars(u.as_slice(), t.as_slice()) {
        Some(i) => {
            proof {
                crate::text::lemma_find_from_bounds(u@, t@, 0);
            }
            byte_offset(u.as_slice(), i, upper_total)
        },
        None => 0,
    };
    let rank_total = str_byte_len(rank_str);
    let r = chars_of(rank_str);
    if idx > rank_total || tier_bytes > rank_total - idx {
        proof {
            assert(r@.take(r@.len() as int) =~= r@);
            assert forall|c: int| !at_byte(r@, after_tier_byte(rank_str@, tier@), c) by {
                if 0 <= c <= r@.len() {
                    crate::codec::lemma_byte_len_mono(r@, c, r@.len() as int);
                }
            }
        }
        return false;
    }
    assert(idx + tier_bytes == after_tier_byte(rank_str@, tier@));
    match char_index_at_byte(r.as_slice(), idx + tier_bytes) {
        Some(k) => {
            assert(at_byte(r@, after_tier_byte(rank_str@, tier@), k as int));
            true
        },
        None => false,
    }
}

/// Whether reading the division of a description succeeds.
fn rank_ok_exec(description: &str) -> (r: bool)
    ensures
        r == rank_ok(description@),
{
    let d = chars_of(description);
    let sep = chars_of(" / ");
    proof {
        reveal_strlit(" / ");
    }
    let parts = splitn_chars(d.as_slice(), sep.as_slice(), 4);
    if parts.len() < 3 {
        return true;
    }
    let rank_text = string_from_chars(parts[1].as_slice());
    let upper = to_uppercase(rank_text.as_str());
    let u = chars_of(upper.as_str());
    match find_tier(u.as_slice()) {
        Some(t) => division_ok_exec(rank_text.as_str(), t),
        None => true,
    }
}

/// Whether reading the page (`parse_from_html`) does not fail: the places
/// where the page and the rank text are sliced by byte fall on character
/// boundaries.
pub fn html_parse_ok(html: &str) -> (r: bool)
    ensures
        r == html_parse_safe(html@),
{
    let total = str_byte_len(html);
    let h = chars_of(html);
    let og = chars_of("og:description\" content=\"");
    let nm = chars_of("name=\"description\" content=\"");
    let primary = value_after_chars(h.as_slice(), og.as_slice()).is_some()
        || value_after_chars(h.as_slice(), nm.as_slice()).is_some();
    let desc_ok = if primary {
        true
    } else {
        match find_chars(h.as_slice(), chars_of("og:description").as_slice()) {
            Some(p) => {
                proof {
                    crate::text::lemma_find_from_bounds(h@, "og:description"@, 0);
                }
                let pb = byte_offset(h.as_slice(), p, total);
                let sb = if pb >= 150 { pb - 150 } else { 0 };
                assert(sb == fallback_start_byte(h@, p as int));
                match char_index_at_byte(h.as_slice(), sb) {
                    Some(k) => {
                        assert(at_byte(h@, sb as int, k as int));
                        true
                    },
                    None => false,
                }
            },
            None => true,
        }
    };
    assert(desc_ok == description_ok(html@));
    if !desc_ok {
        return false;
    }
    proof {
        reveal_strlit("f_png,w_200");
    }
    let marker = chars_of("f_png,w_200");
    let level_ok = match find_chars(h.as_slice(), marker.as_slice()) {
        Some(a) => {
            proof {
                crate::text::lemma_find_from_bounds(h@, marker@, 0);
                assert(h@.take(h@.len() as int) =~= h@);
            }
            let hl = h.len();
            assert(a + 11 <= hl);
            let start_byte = byte_offset(h.as_slice(), a + 11, total);
            proof {
                lemma_byte_len_mono(h@, a + 11, h@.len() as int);
            }
            let end_byte = if total - start_byte > 400 { start_byte + 400 } else { total };
            assert(end_byte == level_window_end_byte(h@, a as int));
            match char_index_at_byte(h.as_slice(), end_byte) {
                Some(k) => {
                    assert(at_byte(h@, end_byte as int, k as int));
                    true
                },
                None => false,
            }
        },
        None => true,
    };
    assert(level_ok == level_window_ok(html@));
    if !level_ok {
        return false;
    }
    match extract_meta_description(html) {
        Some(d) => rank_ok_exec(d.as_str()),
        None => true,
    }
}

/// The message when the page holds no description (a blocked request).
pub open spec fn blocked_message() -> Seq<char> {
    "Could not read op.gg stats \u{2014} Cloudflare may be blocking the request. Try again in a moment."@
}

/// The statistics the page states, stamped with `fetched_at`: icon, level,
/// solo rank and top champions from the description; flex is unranked.
pub open spec fn stats_match(st: SummonerStats, h: Seq<char>, fetched_at: Seq<char>) -> bool {
    let d = html_decoded(raw_description(h).unwrap());
    &&& crate::session::opt_view(st.icon_url) == profile_icon(h)
    &&& (match st.summoner_level { Some(n) => Some(n as int), None => None }) == summoner_level(h)
    &&& rank_matches(st.solo, d)
    &&& is_unranked(st.flex)
    &&& st.top_champions@.map_values(|c: ChampionStat| champion_view(c)) == champions_of(d)
    &&& st.fetched_at@ == fetched_at
}

/// Reads the statistics from a profile page, stamped with `fetched_at`. A
/// page without a description is an error.
pub fn stats_from_html(html: &str, fetched_at: String) -> (r: Result<SummonerStats, String>)
    requires
        html_parse_safe(html@),
    ensures
        r is Ok <==> raw_description(html@) is Some,
        r matches Err(e) ==> e@ == blocked_message(),
        r matches Ok(st) ==> stats_match(st, html@, fetched_at@),
{
    let description = match extract_meta_description(html) {
        Some(d) => d,
        None => return Err(message("Could not read op.gg stats \u{2014} Cloudflare may be blocking the request. Try again in a moment.")),
    };
    let icon_url = extract_profile_icon(html);
    let summoner_level = extract_level(html);
    let solo = parse_rank_from_description(description.as_str());
    let top_champions = parse_champions_from_description(description.as_str());
    Ok(SummonerStats { icon_url, summoner_level, solo, flex: RankInfo::unranked(), top_champions, fetched_at })
}

/// Reads the statistics from a profile page, stamped with the current time.
/// `riot_id` names the profile (it is not read from the page).
pub fn parse_from_html(html: &str, riot_id: &str) -> (r: Result<SummonerStats, String>)
    requires
        html_parse_safe(html@),
    ensures
        r is Ok <==> raw_description(html@) is Some,
        r matches Err(e) ==> e@ == blocked_message(),
        r matches Ok(st) ==> stats_match(st, html@, st.fetched_at@)
            && exists|secs: u64| st.fetched_at@ == #[trigger] crate::clock::iso_of_unix(secs as nat),
{
    let now = crate::clock::chrono_now();
    stats_from_html(html, now)
}

/// Reads a profile page as `parse_from_html` does, after checking that the
/// page is one the reader can cut up (character boundaries where it slices);
/// `None` for a page that is not, on which no statistics are read.
pub fn parse_profile_page(html: &str, riot_id: &str) -> (r: Option<Result<SummonerStats, String>>)
    ensures
        r is Some <==> html_parse_safe(html@),
        r matches Some(res) ==> (res is Ok <==> raw_description(html@) is Some),
        r matches Some(Err(e)) ==> e@ == blocked_message(),
        r matches Some(Ok(st)) ==> stats_match(st, html@, st.fetched_at@),
{
    if html_parse_ok(html) {
        Some(parse_from_html(html, riot_id))
    } else {
        None
    }
}

} // verus!
