//! Update checking: reading the latest GitHub release, normalizing its tag,
//! comparing dotted versions, and picking the Windows installer asset.

use vstd::prelude::*;
use crate::crypto::message;
use crate::json::{json_get, json_str, member_str, Json};
use crate::text::{
    chars_of, ends_with_chars, find_chars, find_text, lower_ascii_text, lower_chars,
    string_from_chars, trim_bounds, trim_ws,
};

verus! {

/// What the update check reports to the user interface.
#[derive(Debug)]
pub struct UpdateInfo {
    pub current_version: String,
    pub latest_version: String,
    pub update_available: bool,
    pub release_url: Option<String>,
    pub download_url: Option<String>,
    pub release_notes: Option<String>,
    pub status_message: Option<String>,
}

/// The text without its leading `v` characters.
pub open spec fn strip_leading_v(s: Seq<char>) -> Seq<char>
    decreases s.len(),
{
    if s.len() > 0 && s[0] == 'v' { strip_leading_v(s.drop_first()) } else { s }
}

/// A release tag as a version: trimmed, without leading `v`s.
pub open spec fn normalized_version(v: Seq<char>) -> Seq<char> {
    strip_leading_v(trim_ws(v))
}

/// Turns a release tag into a version: trims whitespace, drops leading `v`s.
pub fn normalize_version(v: &str) -> (r: String)
    ensures
        r@ == normalized_version(v@),
{
    let cs = chars_of(v);
    let (a, b) = trim_bounds(&cs);
    let mut i = a;
    while i < b && cs[i] == 'v'
        invariant
            a <= i <= b <= cs@.len(),
            normalized_version(v@) == strip_leading_v(cs@.subrange(i as int, b as int)),
        decreases b - i,
    {
        assert(cs@.subrange(i as int, b as int).drop_first() =~= cs@.subrange(i + 1, b as int));
        i = i + 1;
    }
    string_from_chars(vstd::slice::slice_subrange(cs.as_slice(), i, b))
}

/// The pieces of a text between `.` separators (one piece more than there are
/// separators), as `str::split('.')` yields them.
pub open spec fn split_dots(s: Seq<char>) -> Seq<Seq<char>>
    decreases s.len(),
{
    if s.len() == 0 {
        seq![seq![]]
    } else {
        let init = split_dots(s.drop_last());
        if s.last() == '.' {
            init.push(seq![])
        } else {
            init.update(init.len() - 1, init.last().push(s.last()))
        }
    }
}

/// ASCII decimal digit.
pub open spec fn is_digit(c: char) -> bool {
    '0' <= c <= '9'
}

/// The value of a run of ASCII digits.
pub open spec fn digits_value(s: Seq<char>) -> nat
    decreases s.len(),
{
    if s.len() == 0 {
        0
    } else {
        digits_value(s.drop_last()) * 10 + ((s.last() as nat) - 48) as nat
    }
}

/// All characters are ASCII digits, and there is at least one.
pub open spec fn all_digits(s: Seq<char>) -> bool {
    s.len() > 0 && forall|i: int| 0 <= i < s.len() ==> is_digit(#[trigger] s[i])
}

/// The integer that `str::parse` reads from a text: an optional `+` or `-`
/// followed by at least one ASCII digit.
pub open spec fn integer_text(s: Seq<char>) -> Option<int> {
    if s.len() > 0 && (s[0] == '+' || s[0] == '-') {
        if all_digits(s.drop_first()) {
            if s[0] == '-' { Some(-(digits_value(s.drop_first()) as int)) } else { Some(digits_value(s.drop_first()) as int) }
        } else {
            None
        }
    } else if all_digits(s) {
        Some(digits_value(s) as int)
    } else {
        None
    }
}

/// `s.parse::<i32>().unwrap_or(0)`.
pub open spec fn i32_or_zero(s: Seq<char>) -> int {
    match integer_text(s) {
        Some(n) => if i32::MIN <= n <= i32::MAX { n } else { 0 },
        None => 0,
    }
}

/// The numeric parts of a dotted version.
pub open spec fn version_parts(s: Seq<char>) -> Seq<int> {
    split_dots(s).map_values(|p: Seq<char>| i32_or_zero(p))
}

/// The part at index `i`, zero past the end.
pub open spec fn part_at(p: Seq<int>, i: int) -> int {
    if 0 <= i < p.len() { p[i] } else { 0 }
}

/// Compares two part lists from index `i` on, the shorter padded with zeros:
/// 1, -1 or 0.
pub open spec fn compare_parts_from(a: Seq<int>, b: Seq<int>, i: nat) -> int
    decreases (if a.len() > b.len() { a.len() } else { b.len() }) - i,
{
    if i >= a.len() && i >= b.len() {
        0
    } else if part_at(a, i as int) > part_at(b, i as int) {
        1
    } else if part_at(a, i as int) < part_at(b, i as int) {
        -1
    } else {
        compare_parts_from(a, b, i + 1)
    }
}

/// The order of two dotted versions: 1 when `a` is newer, -1 when older, 0
/// when equal after padding the shorter with zero parts.
pub open spec fn version_order(a: Seq<char>, b: Seq<char>) -> int {
    compare_parts_from(version_parts(a), version_parts(b), 0)
}

/// Parses one version part as `i32`, zero when it is not one.
pub fn parse_i32_or_zero(s: &[char]) -> (r: i32)
    ensures
        r as int == i32_or_zero(s@),
{
    let n = s.len();
    let mut start: usize = 0;
    let mut neg = false;
    if n > 0 && (s[0] == '+' || s[0] == '-') {
        start = 1;
        neg = s[0] == '-';
    }
    if start >= n {
        proof {
            if n > 0 { assert(!all_digits(s@.drop_first())); }
        }
        return 0;
    }
    let ghost body = s@.subrange(start as int, n as int);
    assert(start == 1 ==> body =~= s@.drop_first());
    assert(start == 0 ==> body =~= s@);
    // value of the digits so far, saturated above 2^32
    let mut acc: u64 = 0;
    let mut i: usize = start;
    while i < n
        invariant
            start <= i <= n == s@.len(),
            start <= 1,
            n > 0,
            start == 0 ==> !(s@[0] == '+' || s@[0] == '-') && body == s@,
            start == 1 ==> (s@[0] == '+' || s@[0] == '-') && neg == (s@[0] == '-') && body == s@.drop_first(),
            body == s@.subrange(start as int, n as int),
            forall|j: int| start <= j < i ==> is_digit(#[trigger] s@[j]),
            acc <= 0x1_0000_0000,
            acc < 0x1_0000_0000 ==> acc == digits_value(s@.subrange(start as int, i as int)),
            acc == 0x1_0000_0000 ==> digits_value(s@.subrange(start as int, i as int)) >= 0x1_0000_0000,
        decreases n - i,
    {
        let c = s[i];
        if !('0' <= c && c <= '9') {
            assert(!is_digit(body[i - start]));
            return 0;
        }
        let d = (c as u32 - 48) as u64;
        assert(s@.subrange(start as int, i + 1).drop_last() =~= s@.subrange(start as int, i as int));
        if acc < 0x1_0000_0000 {
            let next = acc * 10 + d;
            acc = if next > 0x1_0000_0000 { 0x1_0000_0000 } else { next };
        }
        i = i + 1;
    }
    assert(s@.subrange(start as int, n as int) =~= body);
    assert(all_digits(body));
    if acc >= 0x1_0000_0000 {
        return 0;
    }
    let v = acc as i64;
    let signed: i64 = if neg { -v } else { v };
    if signed < -2147483648 || signed > 2147483647 {
        0
    } else {
        signed as i32
    }
}

/// The numeric parts of a dotted version, each parsed as `i32` or zero.
pub fn version_parts_of(s: &str) -> (r: Vec<i32>)
    ensures
        r@.len() == version_parts(s@).len(),
        forall|i: int| 0 <= i < r@.len() ==> r@[i] as int == #[trigger] version_parts(s@)[i],
{
    let cs = chars_of(s);
    let mut parts: Vec<i32> = Vec::new();
    let mut piece: Vec<char> = Vec::new();
    let mut i: usize = 0;
    while i < cs.len()
        invariant
            i <= cs@.len(),
            cs@ == s@,
            split_dots(cs@.subrange(0, i as int)).len() == parts@.len() + 1,
            split_dots(cs@.subrange(0, i as int)).last() == piece@,
            forall|j: int| 0 <= j < parts@.len() ==> parts@[j] as int == i32_or_zero(#[trigger] split_dots(cs@.subrange(0, i as int))[j]),
        decreases cs@.len() - i,
    {
        let ghost pre = cs@.subrange(0, i as int);
        let ghost next = cs@.subrange(0, i + 1);
        assert(next.drop_last() =~= pre);
        if cs[i] == '.' {
            let v = parse_i32_or_zero(piece.as_slice());
            parts.push(v);
            piece = Vec::new();
            assert(split_dots(next) == split_dots(pre).push(seq![]));
        } else {
            piece.push(cs[i]);
        }
        i = i + 1;
    }
    let v = parse_i32_or_zero(piece.as_slice());
    parts.push(v);
    assert(cs@.subrange(0, cs@.len() as int) =~= cs@);
    parts
}

/// Compares two dotted versions part by part, padding the shorter with
/// zeros: 1 when `a` is newer, -1 when older, 0 when equal.
pub fn compare_versions(a: &str, b: &str) -> (r: i32)
    ensures
        r as int == version_order(a@, b@),
{
    let av = version_parts_of(a);
    let bv = version_parts_of(b);
    let ghost pa = version_parts(a@);
    let ghost pb = version_parts(b@);
    let max_len = if av.len() > bv.len() { av.len() } else { bv.len() };
    let mut i: usize = 0;
    while i < max_len
        invariant
            i <= max_len,
            max_len == (if pa.len() > pb.len() { pa.len() } else { pb.len() }),
            av@.len() == pa.len(),
            bv@.len() == pb.len(),
            forall|j: int| 0 <= j < av@.len() ==> av@[j] as int == #[trigger] pa[j],
            forall|j: int| 0 <= j < bv@.len() ==> bv@[j] as int == #[trigger] pb[j],
            version_order(a@, b@) == compare_parts_from(pa, pb, i as nat),
        decreases max_len - i,
    {
        let x: i32 = if i < av.len() { av[i] } else { 0 };
        let y: i32 = if i < bv.len() { bv[i] } else { 0 };
        assert(x as int == part_at(pa, i as int));
        assert(y as int == part_at(pb, i as int));
        if x > y {
            return 1;
        }
        if x < y {
            return -1;
        }
        i = i + 1;
    }
    0
}

/// Version order is antisymmetric: comparing the other way round gives the
/// opposite answer.
pub proof fn lemma_version_order_antisymmetric(a: Seq<char>, b: Seq<char>)
    ensures
        version_order(a, b) == -version_order(b, a),
{
    lemma_compare_parts_antisymmetric(version_parts(a), version_parts(b), 0);
}

proof fn lemma_compare_parts_antisymmetric(a: Seq<int>, b: Seq<int>, i: nat)
    ensures
        compare_parts_from(a, b, i) == -compare_parts_from(b, a, i),
    decreases (if a.len() > b.len() { a.len() } else { b.len() }) - i,
{
    if !(i >= a.len() && i >= b.len()) && part_at(a, i as int) == part_at(b, i as int) {
        lemma_compare_parts_antisymmetric(a, b, i + 1);
    }
}

/// Every version equals itself.
pub proof fn lemma_version_order_reflexive(a: Seq<char>)
    ensures
        version_order(a, a) == 0,
{
    lemma_compare_parts_reflexive(version_parts(a), 0);
}

proof fn lemma_compare_parts_reflexive(a: Seq<int>, i: nat)
    ensures
        compare_parts_from(a, a, i) == 0,
    decreases a.len() - i,
{
    if i < a.len() {
        lemma_compare_parts_reflexive(a, i + 1);
    }
}

proof fn lemma_compare_parts_step(a: Seq<int>, b: Seq<int>, i: nat)
    requires
        part_at(a, i as int) == part_at(b, i as int),
    ensures
        compare_parts_from(a, b, i) == compare_parts_from(a, b, i + 1),
{
}

proof fn lemma_compare_parts_transitive(a: Seq<int>, b: Seq<int>, c: Seq<int>, i: nat)
    requires
        compare_parts_from(a, b, i) >= 0,
        compare_parts_from(b, c, i) >= 0,
    ensures
        compare_parts_from(a, c, i) >= 0,
        compare_parts_from(a, c, i) == 0 ==> compare_parts_from(a, b, i) == 0 && compare_parts_from(b, c, i) == 0,
    decreases a.len() + b.len() + c.len() - i,
{
    let (pa, pb, pc) = (part_at(a, i as int), part_at(b, i as int), part_at(c, i as int));
    if i >= a.len() && i >= b.len() && i >= c.len() {
    } else if pa == pb && pb == pc {
        lemma_compare_parts_step(a, b, i);
        lemma_compare_parts_step(b, c, i);
        lemma_compare_parts_step(a, c, i);
        lemma_compare_parts_transitive(a, b, c, i + 1);
    } else {
        if pa == pb {
            lemma_compare_parts_step(a, b, i);
        }
        if pb == pc {
            lemma_compare_parts_step(b, c, i);
        }
    }
}

/// Version order is transitive: if `a` is at least `b` and `b` at least `c`,
/// then `a` is at least `c`, and equal only when all three are equal.
pub proof fn lemma_version_order_transitive(a: Seq<char>, b: Seq<char>, c: Seq<char>)
    requires
        version_order(a, b) >= 0,
        version_order(b, c) >= 0,
    ensures
        version_order(a, c) >= 0,
        version_order(a, c) == 0 ==> version_order(a, b) == 0 && version_order(b, c) == 0,
{
    lemma_compare_parts_transitive(version_parts(a), version_parts(b), version_parts(c), 0);
}

proof fn lemma_compare_parts_sign(a: Seq<int>, b: Seq<int>, i: nat)
    ensures
        -1 <= compare_parts_from(a, b, i) <= 1,
    decreases (if a.len() > b.len() { a.len() } else { b.len() }) - i,
{
    if !(i >= a.len() && i >= b.len()) && part_at(a, i as int) == part_at(b, i as int) {
        lemma_compare_parts_sign(a, b, i + 1);
    }
}

/// Comparing two versions answers 1, 0 or -1.
pub proof fn lemma_version_order_sign(a: Seq<char>, b: Seq<char>)
    ensures
        version_order(a, b) == 1 || version_order(a, b) == 0 || version_order(a, b) == -1,
{
    lemma_compare_parts_sign(version_parts(a), version_parts(b), 0);
}

proof fn lemma_compare_parts_trailing_zero(p: Seq<int>, i: nat)
    ensures
        compare_parts_from(p.push(0), p, i) == 0,
    decreases p.len() + 1 - i,
{
    if i <= p.len() {
        assert(part_at(p.push(0), i as int) == part_at(p, i as int));
        lemma_compare_parts_trailing_zero(p, i + 1);
    }
}

/// A version with a `.0` part appended compares equal to the version.
pub proof fn lemma_version_trailing_zero(a: Seq<char>)
    ensures
        version_order(a + ".0"@, a) == 0,
{
    reveal_strlit(".0");
    let s = a + ".0"@;
    assert(s.drop_last() =~= a.push('.'));
    assert(a.push('.').drop_last() =~= a);
    let d = split_dots(a);
    assert(split_dots(a.push('.')) == d.push(seq![]));
    assert(split_dots(s) =~= d.push(seq!['0']));
    assert(all_digits(seq!['0']));
    assert(digits_value(seq!['0']) == 0) by {
        assert(seq!['0'].drop_last() =~= Seq::<char>::empty());
        assert(seq!['0'].last() == '0');
        assert(('0' as nat) == 48);
        assert(digits_value(Seq::<char>::empty()) == 0);
        reveal_with_fuel(digits_value, 2);
    }
    assert(i32_or_zero(seq!['0']) == 0);
    assert(version_parts(s) =~= version_parts(a).push(0));
    lemma_compare_parts_trailing_zero(version_parts(a), 0);
}

/// The ASCII-lowercase name of a release asset (empty when it has none).
pub open spec fn asset_name(a: Json) -> Seq<char> {
    lower_ascii_text(match member_str(a, "name"@) { Some(s) => s, None => seq![] })
}

/// The asset's name ends in `.exe`.
pub open spec fn is_exe_asset(a: Json) -> bool {
    let n = asset_name(a);
    n.len() >= 4 && n.subrange(n.len() - 4, n.len() as int) == ".exe"@
}

/// The asset is an `.exe` whose name holds `setup`.
pub open spec fn is_setup_asset(a: Json) -> bool {
    is_exe_asset(a) && find_text(asset_name(a), "setup"@) is Some
}

/// The first asset from index `i` on that is an installer (`setup`) or, with
/// `setup` false, any `.exe`.
pub open spec fn first_asset_from(assets: Seq<Json>, setup: bool, i: int) -> Option<int>
    decreases assets.len() - i,
{
    if i < 0 || i >= assets.len() {
        None
    } else if (if setup { is_setup_asset(assets[i]) } else { is_exe_asset(assets[i]) }) {
        Some(i)
    } else {
        first_asset_from(assets, setup, i + 1)
    }
}

/// The download URL of the release's Windows asset: the first `.exe` whose
/// name holds `setup` when there is one (its URL, if it has one), otherwise
/// the first `.exe`.
pub open spec fn windows_asset_url(release: Json) -> Option<Seq<char>> {
    match json_get(release, "assets"@) {
        Some(Json::Array(v)) => match first_asset_from(v@, true, 0) {
            Some(i) => member_str(v@[i], "browser_download_url"@),
            None => match first_asset_from(v@, false, 0) {
                Some(i) => member_str(v@[i], "browser_download_url"@),
                None => None,
            },
        },
        _ => None,
    }
}

/// Whether an asset is an `.exe`, and whether it is a `setup` installer.
fn asset_kind(a: &Json) -> (r: (bool, bool))
    ensures
        r.0 == is_exe_asset(*a),
        r.1 == is_setup_asset(*a),
{
    let name = match a.member_str("name") {
        Some(s) => chars_of(s),
        None => Vec::new(),
    };
    let lower = lower_chars(&name);
    assert(lower@ == asset_name(*a));
    proof {
        reveal_strlit(".exe");
    }
    let exe_suffix = chars_of(".exe");
    let setup_word = chars_of("setup");
    let exe = ends_with_chars(lower.as_slice(), exe_suffix.as_slice());
    let setup = exe && find_chars(lower.as_slice(), setup_word.as_slice()).is_some();
    (exe, setup)
}

/// The index of the first asset of the wanted kind.
fn first_asset(assets: &Vec<Json>, setup: bool) -> (r: Option<usize>)
    ensures
        r matches Some(i) ==> i < assets@.len(),
        match r {
            Some(i) => first_asset_from(assets@, setup, 0) == Some(i as int),
            None => first_asset_from(assets@, setup, 0) is None,
        },
{
    let mut i: usize = 0;
    while i < assets.len()
        invariant
            i <= assets@.len(),
            first_asset_from(assets@, setup, 0) == first_asset_from(assets@, setup, i as int),
        decreases assets@.len() - i,
    {
        let (exe, inst) = asset_kind(&assets[i]);
        if (setup && inst) || (!setup && exe) {
            return Some(i);
        }
        i = i + 1;
    }
    None
}

/// The download URL of the release's Windows asset: the first `.exe` whose
/// name holds `setup`, else the first `.exe`.
pub fn best_windows_asset_url(release: &Json) -> (r: Option<String>)
    ensures
        match r {
            Some(u) => windows_asset_url(*release) == Some(u@),
            None => windows_asset_url(*release) is None,
        },
{
    let assets = match release.get("assets") {
        Some(v) => match v.as_array() {
            Some(a) => a,
            None => return None,
        },
        None => return None,
    };
    let idx = match first_asset(assets, true) {
        Some(i) => Some(i),
        None => first_asset(assets, false),
    };
    match idx {
        Some(i) => match assets[i].member_str("browser_download_url") {
            Some(u) => Some(u.to_string()),
            None => None,
        },
        None => None,
    }
}

/// The text of a string member, copied.
fn member_string(v: &Json, key: &str) -> (r: Option<String>)
    ensures
        match r {
            Some(s) => member_str(*v, key@) == Some(s@),
            None => member_str(*v, key@) is None,
        },
{
    match v.member_str(key) {
        Some(s) => Some(s.to_string()),
        None => None,
    }
}

/// The report when the repository has no published release: up to date,
/// with the releases page and a note.
pub fn no_release_info(current: &str) -> (r: UpdateInfo)
    ensures
        r.current_version@ == current@,
        r.latest_version@ == current@,
        !r.update_available,
        r.release_url matches Some(u) && u@ == "https://github.com/paralysisx/MANACC/releases"@,
        r.download_url is None,
        r.release_notes is None,
        r.status_message matches Some(m) && m@ == "No published releases found yet."@,
{
    UpdateInfo {
        current_version: message(current),
        latest_version: message(current),
        update_available: false,
        release_url: Some(message("https://github.com/paralysisx/MANACC/releases")),
        download_url: None,
        release_notes: None,
        status_message: Some(message("No published releases found yet.")),
    }
}

/// The report for the latest release: its tag as the latest version, an
/// update when that is newer than `current`, its page, notes and Windows
/// asset. A release without a string `tag_name` is an error.
pub fn update_info_from_release(current: &str, release: &Json) -> (r: Result<UpdateInfo, String>)
    ensures
        r is Ok <==> member_str(*release, "tag_name"@) is Some,
        r matches Err(e) ==> e@ == "Missing tag_name in release response"@,
        r matches Ok(info) ==> {
            let latest = normalized_version(member_str(*release, "tag_name"@).unwrap());
            &&& info.current_version@ == current@
            &&& info.latest_version@ == latest
            &&& info.update_available == (version_order(latest, current@) > 0)
            &&& crate::session::opt_view(info.release_url) == member_str(*release, "html_url"@)
            &&& crate::session::opt_view(info.release_notes) == member_str(*release, "body"@)
            &&& crate::session::opt_view(info.download_url) == windows_asset_url(*release)
            &&& info.status_message is None
        },
{
    let tag = match release.member_str("tag_name") {
        Some(t) => t,
        None => return Err(message("Missing tag_name in release response")),
    };
    let latest = normalize_version(tag);
    let release_url = member_string(release, "html_url");
    let release_notes = member_string(release, "body");
    let download_url = best_windows_asset_url(release);
    let update_available = compare_versions(latest.as_str(), current) > 0;
    Ok(UpdateInfo {
        current_version: message(current),
        latest_version: latest,
        update_available,
        release_url,
        download_url,
        release_notes,
        status_message: None,
    })
}

} // verus!
