//! The League client lobby reader: players from the chat and lobby
//! endpoints, merged and cleaned up; the client's lockfile and command line;
//! the request addresses and the authorization header.

use vstd::prelude::*;
use crate::crypto::message;
use crate::json::{json_get, key_texts, pick, pick_str, Json};
use crate::session::opt_view;
use crate::text::{
    chars_of, find_chars, find_text, lower_ascii_text, lower_chars, str_equal, string_from_chars,
    trim_bounds, trim_ws,
};

verus! {

/// A player seen in the lobby or champion select.
#[derive(Debug)]
pub struct LobbyPlayer {
    pub summoner_name: String,
    pub game_name: Option<String>,
    pub tag_line: Option<String>,
    pub puuid: Option<String>,
}

/// The text of a player's fields.
pub struct PlayerView {
    pub summoner_name: Seq<char>,
    pub game_name: Option<Seq<char>>,
    pub tag_line: Option<Seq<char>>,
    pub puuid: Option<Seq<char>>,
}

impl View for LobbyPlayer {
    type V = PlayerView;

    open spec fn view(&self) -> PlayerView {
        PlayerView {
            summoner_name: self.summoner_name@,
            game_name: opt_view(self.game_name),
            tag_line: opt_view(self.tag_line),
            puuid: opt_view(self.puuid),
        }
    }
}

/// The views of a list of players.
pub open spec fn players_view(v: Seq<LobbyPlayer>) -> Seq<PlayerView> {
    v.map_values(|p: LobbyPlayer| p@)
}

/// ASCII hex digit, either case.
pub open spec fn is_hex_char(c: char) -> bool {
    ('0' <= c <= '9') || ('a' <= c <= 'f') || ('A' <= c <= 'F')
}

/// The trimmed text has the UUID shape: 36 characters, `-` at 8, 13, 18 and
/// 23, hex digits elsewhere.
pub open spec fn uuid_like(s: Seq<char>) -> bool {
    let v = trim_ws(s);
    &&& v.len() == 36
    &&& forall|i: int|
        0 <= i < 36 ==> if i == 8 || i == 13 || i == 18 || i == 23 {
            #[trigger] v[i] == '-'
        } else {
            is_hex_char(v[i])
        }
}

/// Whether the text (trimmed) looks like a UUID.
pub fn looks_like_uuid(s: &str) -> (r: bool)
    ensures
        r == uuid_like(s@),
{
    let cs = chars_of(s);
    let (a, b) = trim_bounds(&cs);
    let ghost v = trim_ws(s@);
    if b - a != 36 {
        return false;
    }
    let mut i: usize = 0;
    while i < 36
        invariant
            i <= 36,
            b - a == 36,
            a <= b <= cs@.len(),
            v == cs@.subrange(a as int, b as int),
            v == trim_ws(s@),
            forall|j: int|
                0 <= j < i ==> if j == 8 || j == 13 || j == 18 || j == 23 {
                    #[trigger] v[j] == '-'
                } else {
                    is_hex_char(v[j])
                },
        decreases 36 - i,
    {
        let c = cs[a + i];
        assert(c == v[i as int]);
        if i == 8 || i == 13 || i == 18 || i == 23 {
            if c != '-' {
                return false;
            }
        } else if !(('0' <= c && c <= '9') || ('a' <= c && c <= 'f') || ('A' <= c && c <= 'F')) {
            return false;
        }
        i = i + 1;
    }
    true
}

/// A name that says nothing: blank, `unknown`, `hidden summoner` (any ASCII
/// case) or a UUID.
pub open spec fn placeholder_name(name: Seq<char>) -> bool {
    let n = lower_ascii_text(trim_ws(name));
    n.len() == 0 || n == "unknown"@ || n == "hidden summoner"@ || uuid_like(name)
}

/// Whether a name is a placeholder.
pub fn is_placeholder_name(name: &str) -> (r: bool)
    ensures
        r == placeholder_name(name@),
{
    let cs = chars_of(name);
    let (a, b) = trim_bounds(&cs);
    let t = crate::text::sub_chars(cs.as_slice(), a, b);
    let low = lower_chars(&t);
    let n = string_from_chars(low.as_slice());
    n.as_str().is_empty() || str_equal(n.as_str(), "unknown") || str_equal(n.as_str(), "hidden summoner")
        || looks_like_uuid(name)
}

/// A player with a placeholder name and neither game name nor tag line.
pub open spec fn placeholder_player(p: PlayerView) -> bool {
    placeholder_name(p.summoner_name) && p.game_name is None && p.tag_line is None
}

/// Whether a player is a placeholder.
pub fn is_placeholder_player(p: &LobbyPlayer) -> (r: bool)
    ensures
        r == placeholder_player(p@),
{
    is_placeholder_name(p.summoner_name.as_str()) && p.game_name.is_none() && p.tag_line.is_none()
}

/// The name shown for a player: `game#tag` when both are known and not
/// empty, else the fallback name.
pub open spec fn display_name(game: Option<Seq<char>>, tag: Option<Seq<char>>, fallback: Seq<char>) -> Seq<char> {
    match (game, tag) {
        (Some(g), Some(t)) => if g.len() > 0 && t.len() > 0 { g + seq!['#'] + t } else { fallback },
        _ => fallback,
    }
}

/// A fallback name: the picked name unless it looks like a UUID, else
/// `Hidden Summoner`.
pub open spec fn fallback_name(picked: Option<Seq<char>>) -> Seq<char> {
    match picked {
        Some(v) => if !uuid_like(v) { v } else { "Hidden Summoner"@ },
        None => "Hidden Summoner"@,
    }
}

fn clone_opt_string(o: &Option<String>) -> (r: Option<String>)
    ensures
        opt_view(r) == opt_view(*o),
{
    match o {
        Some(s) => Some(s.clone()),
        None => None,
    }
}

/// The shown name for a player.
fn make_display_name(game: &Option<String>, tag: &Option<String>, picked: Option<String>) -> (r: String)
    ensures
        r@ == display_name(opt_view(*game), opt_view(*tag), fallback_name(opt_view(picked))),
{
    match (game, tag) {
        (Some(g), Some(t)) => {
            if !g.as_str().is_empty() && !t.as_str().is_empty() {
                let mut s = g.clone();
                s.append("#");
                s.append(t.as_str());
                proof {
                    reveal_strlit("#");
                    assert("#"@ =~= seq!['#']);
                }
                return s;
            }
        },
        _ => {},
    }
    match picked {
        Some(v) => if !looks_like_uuid(v.as_str()) { v } else { message("Hidden Summoner") },
        None => message("Hidden Summoner"),
    }
}

/// A player read from a participant or member entry, with the given key
/// lists for the game name, the tag line and the fallback name.
pub open spec fn player_from(p: Json, gk: Seq<Seq<char>>, tk: Seq<Seq<char>>, nk: Seq<Seq<char>>) -> PlayerView {
    let g = pick(p, gk);
    let t = pick(p, tk);
    PlayerView {
        summoner_name: display_name(g, t, fallback_name(pick(p, nk))),
        game_name: g,
        tag_line: t,
        puuid: pick(p, seq!["puuid"@]),
    }
}

/// The key a player is deduplicated by: the PUUID, else the shown name.
pub open spec fn dedupe_key(p: PlayerView) -> Seq<char> {
    match p.puuid {
        Some(u) => u,
        None => p.summoner_name,
    }
}

/// Appends a player unless one with the same key is already there.
pub open spec fn add_unique(out: Seq<PlayerView>, c: PlayerView) -> Seq<PlayerView> {
    if exists|j: int| 0 <= j < out.len() && dedupe_key(#[trigger] out[j]) == dedupe_key(c) {
        out
    } else {
        out.push(c)
    }
}

/// The entry's `cid` (ASCII lowercase) names a champion-select chat room.
pub open spec fn in_champ_select(p: Json) -> bool {
    find_text(lower_ascii_text(match pick(p, seq!["cid"@]) { Some(c) => c, None => seq![] }), "champ-select"@) is Some
}

/// The players of a list of entries in order, each key once; with `cid`,
/// only the entries of a champion-select room.
pub open spec fn collect_players(
    list: Seq<Json>,
    cid: bool,
    gk: Seq<Seq<char>>,
    tk: Seq<Seq<char>>,
    nk: Seq<Seq<char>>,
) -> Seq<PlayerView>
    decreases list.len(),
{
    if list.len() == 0 {
        seq![]
    } else {
        let prev = collect_players(list.drop_last(), cid, gk, tk, nk);
        let p = list.last();
        if cid && !in_champ_select(p) { prev } else { add_unique(prev, player_from(p, gk, tk, nk)) }
    }
}

/// No two players share a key.
pub open spec fn keys_distinct(s: Seq<PlayerView>) -> bool {
    forall|i: int, j: int| 0 <= i < j < s.len() ==> dedupe_key(#[trigger] s[i]) != dedupe_key(#[trigger] s[j])
}

/// The players read from a list never share a key (a PUUID, else a shown
/// name): later entries with a key already seen are skipped.
pub proof fn lemma_collected_players_distinct(
    list: Seq<Json>,
    cid: bool,
    gk: Seq<Seq<char>>,
    tk: Seq<Seq<char>>,
    nk: Seq<Seq<char>>,
)
    ensures
        keys_distinct(collect_players(list, cid, gk, tk, nk)),
    decreases list.len(),
{
    if list.len() > 0 {
        lemma_collected_players_distinct(list.drop_last(), cid, gk, tk, nk);
        let prev = collect_players(list.drop_last(), cid, gk, tk, nk);
        let c = player_from(list.last(), gk, tk, nk);
        if !(cid && !in_champ_select(list.last()))
            && !(exists|j: int| 0 <= j < prev.len() && dedupe_key(#[trigger] prev[j]) == dedupe_key(c)) {
            let n = prev.push(c);
            assert forall|i: int, j: int| 0 <= i < j < n.len() implies dedupe_key(#[trigger] n[i]) != dedupe_key(#[trigger] n[j]) by {
                if j < prev.len() {
                    assert(n[i] == prev[i] && n[j] == prev[j]);
                } else {
                    assert(n[i] == prev[i]);
                }
            }
        }
    }
}

/// The key a player is deduplicated by.
fn key_of(p: &LobbyPlayer) -> (r: String)
    ensures
        r@ == dedupe_key(p@),
{
    match &p.puuid {
        Some(u) => u.clone(),
        None => p.summoner_name.clone(),
    }
}

/// Whether a player with the key is in the list.
fn has_key(out: &Vec<LobbyPlayer>, key: &String) -> (r: bool)
    ensures
        r == exists|j: int| 0 <= j < out@.len() && dedupe_key(#[trigger] players_view(out@)[j]) == key@,
{
    let mut i: usize = 0;
    while i < out.len()
        invariant
            i <= out@.len(),
            forall|j: int| 0 <= j < i ==> dedupe_key(#[trigger] players_view(out@)[j]) != key@,
        decreases out@.len() - i,
    {
        let k = key_of(&out[i]);
        if k == *key {
            assert(dedupe_key(players_view(out@)[i as int]) == key@);
            return true;
        }
        i = i + 1;
    }
    false
}

/// Reads a player from an entry.
fn read_player(p: &Json, gk: &[&str], tk: &[&str], nk: &[&str]) -> (r: LobbyPlayer)
    ensures
        r@ == player_from(*p, key_texts(gk@), key_texts(tk@), key_texts(nk@)),
{
    let game_name = pick_str(p, gk);
    let tag_line = pick_str(p, tk);
    let puuid_keys: [&str; 1] = ["puuid"];
    assert(key_texts(puuid_keys@) =~= seq!["puuid"@]);
    let puuid = pick_str(p, &puuid_keys);
    let picked = pick_str(p, nk);
    let summoner_name = make_display_name(&game_name, &tag_line, picked);
    LobbyPlayer { summoner_name, game_name, tag_line, puuid }
}

/// Whether an entry belongs to a champion-select chat room.
fn is_champ_select_entry(p: &Json) -> (r: bool)
    ensures
        r == in_champ_select(*p),
{
    let cid_keys: [&str; 1] = ["cid"];
    assert(key_texts(cid_keys@) =~= seq!["cid"@]);
    let cid = match pick_str(p, &cid_keys) {
        Some(c) => chars_of(c.as_str()),
        None => Vec::new(),
    };
    let low = lower_chars(&cid);
    find_chars(low.as_slice(), chars_of("champ-select").as_slice()).is_some()
}

/// The players of a list of entries, each key once.
fn collect_players_from(list: &Vec<Json>, cid: bool, gk: &[&str], tk: &[&str], nk: &[&str]) -> (r: Vec<LobbyPlayer>)
    ensures
        players_view(r@) == collect_players(list@, cid, key_texts(gk@), key_texts(tk@), key_texts(nk@)),
{
    let ghost g = key_texts(gk@);
    let ghost t = key_texts(tk@);
    let ghost n = key_texts(nk@);
    let mut out: Vec<LobbyPlayer> = Vec::new();
    let mut i: usize = 0;
    assert(list@.take(0) =~= Seq::<Json>::empty());
    while i < list.len()
        invariant
            i <= list@.len(),
            g == key_texts(gk@),
            t == key_texts(tk@),
            n == key_texts(nk@),
            players_view(out@) == collect_players(list@.take(i as int), cid, g, t, n),
        decreases list@.len() - i,
    {
        assert(list@.take(i + 1).drop_last() =~= list@.take(i as int));
        assert(list@.take(i + 1).last() == list@[i as int]);
        let p = &list[i];
        if !cid || is_champ_select_entry(p) {
            let player = read_player(p, gk, tk, nk);
            let key = key_of(&player);
            if !has_key(&out, &key) {
                let ghost before = out@;
                out.push(player);
                assert(players_view(out@) =~= players_view(before).push(player@));
            }
        }
        i = i + 1;
    }
    assert(list@.take(list@.len() as int) =~= list@);
    out
}

/// The entries of a chat participants response: its `participants` array,
/// or the response itself when it is an array.
pub open spec fn participant_list(response: Json) -> Seq<Json> {
    match json_get(response, "participants"@) {
        Some(Json::Array(v)) => v@,
        _ => match response {
            Json::Array(v) => v@,
            _ => seq![],
        },
    }
}

/// Game-name keys of chat participants.
pub open spec fn chat_game_keys() -> Seq<Seq<char>> {
    seq!["game_name"@, "gameName"@]
}

/// Tag-line keys of chat participants and lobby members.
pub open spec fn chat_tag_keys() -> Seq<Seq<char>> {
    seq!["game_tag"@, "tagLine"@, "gameTag"@, "game_tag_line"@]
}

/// The players of the champion-select chat room, each key once.
pub fn extract_champ_select_players(response: &Json) -> (r: Vec<LobbyPlayer>)
    ensures
        players_view(r@) == collect_players(participant_list(*response), true, chat_game_keys(), chat_tag_keys(), seq!["name"@]),
{
    let empty: Vec<Json> = Vec::new();
    let list: &Vec<Json> = match response.get("participants") {
        Some(v) => match v.as_array() {
            Some(a) => a,
            None => match response.as_array() {
                Some(a) => a,
                None => &empty,
            },
        },
        None => match response.as_array() {
            Some(a) => a,
            None => &empty,
        },
    };
    let gk: [&str; 2] = ["game_name", "gameName"];
    let tk: [&str; 4] = ["game_tag", "tagLine", "gameTag", "game_tag_line"];
    let nk: [&str; 1] = ["name"];
    assert(key_texts(gk@) =~= chat_game_keys());
    assert(key_texts(tk@) =~= chat_tag_keys());
    assert(key_texts(nk@) =~= seq!["name"@]);
    assert(list@ == participant_list(*response));
    collect_players_from(list, true, &gk, &tk, &nk)
}

/// The entries of a lobby members response: the array, or none.
pub open spec fn member_list(members: Json) -> Seq<Json> {
    match members {
        Json::Array(v) => v@,
        _ => seq![],
    }
}

/// Tag-line keys of lobby members.
pub open spec fn member_tag_keys() -> Seq<Seq<char>> {
    seq!["tagLine"@, "game_tag"@, "gameTag"@, "game_tag_line"@]
}

/// Fallback-name keys of lobby members.
pub open spec fn member_name_keys() -> Seq<Seq<char>> {
    seq!["summonerName"@, "displayName"@, "name"@, "summonerInternalName"@]
}

/// The players of the lobby, each key once.
pub fn extract_lobby_members_players(members: &Json) -> (r: Vec<LobbyPlayer>)
    ensures
        players_view(r@) == collect_players(member_list(*members), false, seq!["gameName"@, "game_name"@], member_tag_keys(), member_name_keys()),
{
    let empty: Vec<Json> = Vec::new();
    let list: &Vec<Json> = match members.as_array() {
        Some(a) => a,
        None => &empty,
    };
    let gk: [&str; 2] = ["gameName", "game_name"];
    let tk: [&str; 4] = ["tagLine", "game_tag", "gameTag", "game_tag_line"];
    let nk: [&str; 4] = ["summonerName", "displayName", "name", "summonerInternalName"];
    assert(key_texts(gk@) =~= seq!["gameName"@, "game_name"@]);
    assert(key_texts(tk@) =~= member_tag_keys());
    assert(key_texts(nk@) =~= member_name_keys());
    assert(list@ == member_list(*members));
    collect_players_from(list, false, &gk, &tk, &nk)
}

/// The key players are merged by: the PUUID, else the ASCII-lowercase name.
pub open spec fn merge_key(p: PlayerView) -> Seq<char> {
    match p.puuid {
        Some(u) => u,
        None => lower_ascii_text(p.summoner_name),
    }
}

/// The first index from `i` on whose merge key is `k`.
pub open spec fn first_with_merge_key(t: Seq<PlayerView>, k: Seq<char>, i: int) -> Option<int>
    decreases t.len() - i,
{
    if i < 0 || i >= t.len() {
        None
    } else if merge_key(t[i]) == k {
        Some(i)
    } else {
        first_with_merge_key(t, k, i + 1)
    }
}

/// An existing player completed by an incoming one: a real name replaces a
/// placeholder, and missing game name, tag line and PUUID are filled in.
pub open spec fn merged(e: PlayerView, p: PlayerView) -> PlayerView {
    PlayerView {
        summoner_name: if placeholder_name(e.summoner_name) && !placeholder_name(p.summoner_name) {
            p.summoner_name
        } else {
            e.summoner_name
        },
        game_name: if e.game_name is None { p.game_name } else { e.game_name },
        tag_line: if e.tag_line is None { p.tag_line } else { e.tag_line },
        puuid: if e.puuid is None { p.puuid } else { e.puuid },
    }
}

/// Merges one incoming player: into the first player with its merge key, or
/// appended.
pub open spec fn merge_one(t: Seq<PlayerView>, p: PlayerView) -> Seq<PlayerView> {
    match first_with_merge_key(t, merge_key(p), 0) {
        Some(i) => t.update(i, merged(t[i], p)),
        None => t.push(p),
    }
}

/// Merges incoming players one after the other.
pub open spec fn merge_all(t: Seq<PlayerView>, incoming: Seq<PlayerView>) -> Seq<PlayerView>
    decreases incoming.len(),
{
    if incoming.len() == 0 {
        t
    } else {
        merge_one(merge_all(t, incoming.drop_last()), incoming.last())
    }
}

/// The merge key of a player.
fn merge_key_of(p: &LobbyPlayer) -> (r: Vec<char>)
    ensures
        r@ == merge_key(p@),
{
    match &p.puuid {
        Some(u) => chars_of(u.as_str()),
        None => {
            let n = chars_of(p.summoner_name.as_str());
            lower_chars(&n)
        },
    }
}

fn chars_equal(a: &[char], b: &[char]) -> (r: bool)
    ensures
        r == (a@ == b@),
{
    if a.len() != b.len() {
        return false;
    }
    let r = crate::text::matches_at(a, b, 0);
    proof {
        if r {
            assert(a@.subrange(0, b@.len() as int) =~= a@);
        } else {
            assert(a@.subrange(0, a@.len() as int) =~= a@);
        }
    }
    r
}

fn clone_player(p: &LobbyPlayer) -> (r: LobbyPlayer)
    ensures
        r@ == p@,
{
    LobbyPlayer {
        summoner_name: p.summoner_name.clone(),
        game_name: clone_opt_string(&p.game_name),
        tag_line: clone_opt_string(&p.tag_line),
        puuid: clone_opt_string(&p.puuid),
    }
}

/// Merges `incoming` into `target`: a player whose merge key (PUUID, else
/// lowercase name) is already there completes that entry; others are
/// appended in order.
pub fn merge_players(target: &mut Vec<LobbyPlayer>, incoming: Vec<LobbyPlayer>)
    ensures
        players_view(final(target)@) == merge_all(players_view(old(target)@), players_view(incoming@)),
{
    let ghost start = players_view(target@);
    let ghost inc = players_view(incoming@);
    let mut i: usize = 0;
    assert(inc.take(0) =~= Seq::<PlayerView>::empty());
    while i < incoming.len()
        invariant
            i <= incoming@.len(),
            inc == players_view(incoming@),
            players_view(target@) == merge_all(start, inc.take(i as int)),
        decreases incoming@.len() - i,
    {
        assert(inc.take(i + 1).drop_last() =~= inc.take(i as int));
        assert(inc.take(i + 1).last() == incoming@[i as int]@);
        let p = &incoming[i];
        let key = merge_key_of(p);
        let ghost t = players_view(target@);
        let mut j: usize = 0;
        let mut found: Option<usize> = None;
        while j < target.len()
            invariant_except_break
                found is None,
            invariant
                j <= target@.len(),
                t == players_view(target@),
                key@ == merge_key(p@),
                first_with_merge_key(t, key@, 0) == first_with_merge_key(t, key@, j as int),
            ensures
                match found {
                    Some(f) => f < target@.len() && first_with_merge_key(t, key@, 0) == Some(f as int),
                    None => first_with_merge_key(t, key@, 0) is None,
                },
            decreases target@.len() - j,
        {
            let k = merge_key_of(&target[j]);
            if chars_equal(k.as_slice(), key.as_slice()) {
                found = Some(j);
                break;
            }
            j = j + 1;
        }
        match found {
            Some(f) => {
                let e = &target[f];
                let summoner_name = if is_placeholder_name(e.summoner_name.as_str())
                    && !is_placeholder_name(p.summoner_name.as_str()) {
                    p.summoner_name.clone()
                } else {
                    e.summoner_name.clone()
                };
                let game_name = if e.game_name.is_none() { clone_opt_string(&p.game_name) } else { clone_opt_string(&e.game_name) };
                let tag_line = if e.tag_line.is_none() { clone_opt_string(&p.tag_line) } else { clone_opt_string(&e.tag_line) };
                let puuid = if e.puuid.is_none() { clone_opt_string(&p.puuid) } else { clone_opt_string(&e.puuid) };
                let np = LobbyPlayer { summoner_name, game_name, tag_line, puuid };
                assert(np@ == merged(t[f as int], p@));
                target.set(f, np);
                assert(players_view(target@) =~= t.update(f as int, merged(t[f as int], p@)));
            },
            None => {
                let np = clone_player(p);
                target.push(np);
                assert(players_view(target@) =~= t.push(p@));
            },
        }
        i = i + 1;
    }
    assert(inc.take(incoming@.len() as int) =~= inc);
}

/// The merge keys of a list of players.
pub open spec fn merge_keys(t: Seq<PlayerView>) -> Seq<Seq<char>> {
    t.map_values(|p: PlayerView| merge_key(p))
}

proof fn lemma_first_with_merge_key(t: Seq<PlayerView>, k: Seq<char>, i: int)
    requires
        0 <= i,
    ensures
        first_with_merge_key(t, k, i) matches Some(j) ==> i <= j < t.len() && merge_key(t[j]) == k,
        first_with_merge_key(t, k, i) is None ==> forall|j: int| i <= j < t.len() ==> merge_key(#[trigger] t[j]) != k,
    decreases t.len() - i,
{
    if i < t.len() && merge_key(t[i]) != k {
        lemma_first_with_merge_key(t, k, i + 1);
    }
}

proof fn lemma_merged_key(e: PlayerView, p: PlayerView)
    requires
        merge_key(e) == merge_key(p),
    ensures
        merge_key(merged(e, p)) == merge_key(e),
{
}

proof fn lemma_merge_one_keys(t: Seq<PlayerView>, p: PlayerView)
    ensures
        merge_one(t, p).len() >= t.len(),
        forall|j: int| 0 <= j < t.len() ==> merge_key(#[trigger] merge_one(t, p)[j]) == merge_key(t[j]),
        merge_keys(merge_one(t, p)).contains(merge_key(p)),
        forall|k: Seq<char>| merge_keys(merge_one(t, p)).contains(k) ==> merge_keys(t).contains(k) || k == merge_key(p),
        merge_keys(t).no_duplicates() ==> merge_keys(merge_one(t, p)).no_duplicates(),
{
    let u = merge_one(t, p);
    lemma_first_with_merge_key(t, merge_key(p), 0);
    match first_with_merge_key(t, merge_key(p), 0) {
        Some(i) => {
            lemma_merged_key(t[i], p);
            assert(merge_keys(u) =~= merge_keys(t));
            assert(merge_keys(u)[i] == merge_key(p));
        },
        None => {
            assert(merge_keys(u) =~= merge_keys(t).push(merge_key(p)));
            assert(merge_keys(u)[t.len() as int] == merge_key(p));
            if merge_keys(t).no_duplicates() {
                assert forall|a: int, b: int| 0 <= a < merge_keys(u).len() && 0 <= b < merge_keys(u).len() && a != b
                    implies merge_keys(u)[a] != merge_keys(u)[b] by {
                    if a < t.len() && b < t.len() {
                    } else if a < t.len() {
                        assert(merge_key(t[a]) != merge_key(p));
                    } else {
                        assert(merge_key(t[b]) != merge_key(p));
                    }
                }
            }
        },
    }
}

/// Merging never loses or duplicates a player: the players already there
/// keep their places and keys, every incoming player's key ends up in the
/// list, no other key appears, and keys that were distinct stay distinct.
pub proof fn lemma_merge_keeps_players(t: Seq<PlayerView>, incoming: Seq<PlayerView>)
    ensures
        merge_all(t, incoming).len() >= t.len(),
        forall|j: int| 0 <= j < t.len() ==> merge_key(#[trigger] merge_all(t, incoming)[j]) == merge_key(t[j]),
        forall|j: int| 0 <= j < incoming.len() ==> merge_keys(merge_all(t, incoming)).contains(merge_key(#[trigger] incoming[j])),
        forall|k: Seq<char>| merge_keys(merge_all(t, incoming)).contains(k)
            ==> merge_keys(t).contains(k) || merge_keys(incoming).contains(k),
        merge_keys(t).no_duplicates() ==> merge_keys(merge_all(t, incoming)).no_duplicates(),
    decreases incoming.len(),
{
    if incoming.len() > 0 {
        let inc = incoming.drop_last();
        let p = incoming.last();
        let r = merge_all(t, inc);
        lemma_merge_keeps_players(t, inc);
        lemma_merge_one_keys(r, p);
        let u = merge_all(t, incoming);
        assert(u == merge_one(r, p));
        assert forall|j: int| 0 <= j < t.len() implies merge_key(#[trigger] u[j]) == merge_key(t[j]) by {
            assert(merge_key(u[j]) == merge_key(r[j]));
            assert(merge_key(r[j]) == merge_key(t[j]));
        }
        assert forall|j: int| 0 <= j < incoming.len() implies merge_keys(u).contains(merge_key(#[trigger] incoming[j])) by {
            if j < inc.len() {
                assert(inc[j] == incoming[j]);
                assert(merge_keys(r).contains(merge_key(inc[j])));
                let m = choose|m: int| 0 <= m < merge_keys(r).len() && merge_keys(r)[m] == merge_key(inc[j]);
                assert(merge_key(u[m]) == merge_key(r[m]));
                assert(merge_keys(u)[m] == merge_key(incoming[j]));
            }
        }
        assert forall|k: Seq<char>| merge_keys(u).contains(k) implies merge_keys(t).contains(k) || merge_keys(incoming).contains(k) by {
            if merge_keys(r).contains(k) {
                if merge_keys(inc).contains(k) {
                    let m = choose|m: int| 0 <= m < merge_keys(inc).len() && merge_keys(inc)[m] == k;
                    assert(merge_keys(incoming)[m] == k);
                }
            } else {
                assert(k == merge_key(p));
                assert(merge_keys(incoming)[incoming.len() - 1] == k);
            }
        }
    }
}

/// `b` completes `a`: every field `a` has is kept, and so is its name unless
/// it is a placeholder.
pub open spec fn completes(a: PlayerView, b: PlayerView) -> bool {
    &&& a.game_name is Some ==> b.game_name == a.game_name
    &&& a.tag_line is Some ==> b.tag_line == a.tag_line
    &&& a.puuid is Some ==> b.puuid == a.puuid
    &&& !placeholder_name(a.summoner_name) ==> b.summoner_name == a.summoner_name
}

proof fn lemma_merge_one_completes(t: Seq<PlayerView>, p: PlayerView)
    ensures
        forall|j: int| 0 <= j < t.len() ==> completes(t[j], #[trigger] merge_one(t, p)[j]),
        merge_one(t, p).len() == t.len() || (merge_one(t, p).len() == t.len() + 1 && merge_one(t, p)[t.len() as int] == p),
{
    lemma_first_with_merge_key(t, merge_key(p), 0);
}

/// Merging only completes players: each player already there keeps every
/// field it had (and its name unless it was a placeholder), and each player
/// added after them completes an incoming player with the same merge key.
pub proof fn lemma_merge_completes(t: Seq<PlayerView>, incoming: Seq<PlayerView>)
    ensures
        forall|j: int| 0 <= j < t.len() ==> completes(t[j], #[trigger] merge_all(t, incoming)[j]),
        forall|j: int| #![trigger merge_all(t, incoming)[j]] t.len() <= j < merge_all(t, incoming).len() ==> exists|i: int|
            0 <= i < incoming.len() && merge_key(#[trigger] incoming[i]) == merge_key(merge_all(t, incoming)[j])
                && completes(incoming[i], merge_all(t, incoming)[j]),
    decreases incoming.len(),
{
    lemma_merge_keeps_players(t, incoming);
    if incoming.len() > 0 {
        let inc = incoming.drop_last();
        let p = incoming.last();
        let r = merge_all(t, inc);
        let u = merge_all(t, incoming);
        lemma_merge_completes(t, inc);
        lemma_merge_keeps_players(t, inc);
        lemma_merge_one_completes(r, p);
        lemma_merge_one_keys(r, p);
        assert(u == merge_one(r, p));
        assert forall|j: int| 0 <= j < t.len() implies completes(t[j], #[trigger] u[j]) by {
            assert(completes(t[j], r[j]));
            assert(completes(r[j], u[j]));
        }
        assert forall|j: int| #![trigger u[j]] t.len() <= j < u.len() implies exists|i: int|
            0 <= i < incoming.len() && merge_key(#[trigger] incoming[i]) == merge_key(u[j])
                && completes(incoming[i], u[j]) by {
            if j < r.len() {
                let i = choose|i: int| 0 <= i < inc.len() && merge_key(#[trigger] inc[i]) == merge_key(r[j])
                    && completes(inc[i], r[j]);
                assert(incoming[i] == inc[i]);
                assert(completes(r[j], u[j]));
                assert(merge_key(u[j]) == merge_key(r[j]));
                assert(merge_key(incoming[i]) == merge_key(u[j]) && completes(incoming[i], u[j]));
            } else {
                assert(u[j] == p);
                assert(incoming[incoming.len() - 1] == p);
                assert(merge_key(incoming[incoming.len() - 1]) == merge_key(u[j]) && completes(incoming[incoming.len() - 1], u[j]));
            }
        }
    }
}

/// The incoming players that merging appends, in order: those whose merge
/// key matched no player in the list when their turn came.
pub open spec fn appended_players(t: Seq<PlayerView>, incoming: Seq<PlayerView>) -> Seq<PlayerView>
    decreases incoming.len(),
{
    if incoming.len() == 0 {
        seq![]
    } else {
        let prev = appended_players(t, incoming.drop_last());
        let p = incoming.last();
        if first_with_merge_key(merge_all(t, incoming.drop_last()), merge_key(p), 0) is Some {
            prev
        } else {
            prev.push(p)
        }
    }
}

/// Merging appends, after the players already there, exactly the incoming
/// players unmatched when their turn came, in their order; each appended
/// entry keeps the key of that player and completes it (later players with
/// the same key may fill its missing fields).
pub proof fn lemma_merge_appends_unmatched(t: Seq<PlayerView>, incoming: Seq<PlayerView>)
    ensures
        merge_all(t, incoming).len() == t.len() + appended_players(t, incoming).len(),
        forall|j: int| #![trigger appended_players(t, incoming)[j]] 0 <= j < appended_players(t, incoming).len() ==> {
            &&& merge_key(merge_all(t, incoming)[t.len() + j]) == merge_key(appended_players(t, incoming)[j])
            &&& completes(appended_players(t, incoming)[j], merge_all(t, incoming)[t.len() + j])
        },
    decreases incoming.len(),
{
    if incoming.len() > 0 {
        let inc = incoming.drop_last();
        let p = incoming.last();
        let r = merge_all(t, inc);
        let u = merge_all(t, incoming);
        let a0 = appended_players(t, inc);
        let a = appended_players(t, incoming);
        lemma_merge_appends_unmatched(t, inc);
        lemma_merge_one_completes(r, p);
        lemma_merge_one_keys(r, p);
        lemma_first_with_merge_key(r, merge_key(p), 0);
        assert(u == merge_one(r, p));
        assert forall|j: int| #![trigger a[j]] 0 <= j < a.len() implies {
            &&& merge_key(u[t.len() + j]) == merge_key(a[j])
            &&& completes(a[j], u[t.len() + j])
        } by {
            if j < a0.len() {
                assert(a[j] == a0[j]);
                assert(merge_key(r[t.len() + j]) == merge_key(a0[j]));
                assert(completes(a0[j], r[t.len() + j]));
                assert(completes(r[t.len() + j], u[t.len() + j]));
                assert(merge_key(u[t.len() + j]) == merge_key(r[t.len() + j]));
            } else {
                assert(a[j] == p);
                assert(u[t.len() + j] == p);
            }
        }
    }
}

/// The players without placeholders, in order.
pub open spec fn without_placeholders(s: Seq<PlayerView>) -> Seq<PlayerView>
    decreases s.len(),
{
    if s.len() == 0 {
        seq![]
    } else {
        let prev = without_placeholders(s.drop_last());
        if placeholder_player(s.last()) { prev } else { prev.push(s.last()) }
    }
}

/// The final list: placeholder players are dropped, unless there is at most
/// one player.
pub open spec fn cleaned_players(s: Seq<PlayerView>) -> Seq<PlayerView> {
    if s.len() <= 1 { s } else { without_placeholders(s) }
}

/// Drops placeholder players, unless there is at most one player.
pub fn finish_players(combined: Vec<LobbyPlayer>) -> (r: Vec<LobbyPlayer>)
    ensures
        players_view(r@) == cleaned_players(players_view(combined@)),
{
    if combined.len() <= 1 {
        return combined;
    }
    let ghost all = players_view(combined@);
    let mut out: Vec<LobbyPlayer> = Vec::new();
    let mut i: usize = 0;
    assert(all.take(0) =~= Seq::<PlayerView>::empty());
    while i < combined.len()
        invariant
            i <= combined@.len(),
            all == players_view(combined@),
            players_view(out@) == without_placeholders(all.take(i as int)),
        decreases combined@.len() - i,
    {
        assert(all.take(i + 1).drop_last() =~= all.take(i as int));
        assert(all.take(i + 1).last() == combined@[i as int]@);
        if !is_placeholder_player(&combined[i]) {
            let ghost before = out@;
            out.push(clone_player(&combined[i]));
            assert(players_view(out@) =~= players_view(before).push(combined@[i as int]@));
        }
        i = i + 1;
    }
    assert(all.take(combined@.len() as int) =~= all);
    out
}

/// The PUUIDs of players whose name is still a placeholder, in order.
pub open spec fn placeholder_puuids(s: Seq<PlayerView>) -> Seq<Seq<char>>
    decreases s.len(),
{
    if s.len() == 0 {
        seq![]
    } else {
        let prev = placeholder_puuids(s.drop_last());
        match s.last().puuid {
            Some(u) => if placeholder_name(s.last().summoner_name) { prev.push(u) } else { prev },
            None => prev,
        }
    }
}

/// The PUUIDs to look up again: players whose name is still a placeholder.
pub fn unresolved_puuids(combined: &Vec<LobbyPlayer>) -> (r: Vec<String>)
    ensures
        r@.map_values(|u: String| u@) == placeholder_puuids(players_view(combined@)),
{
    let ghost all = players_view(combined@);
    let mut out: Vec<String> = Vec::new();
    let mut i: usize = 0;
    assert(all.take(0) =~= Seq::<PlayerView>::empty());
    while i < combined.len()
        invariant
            i <= combined@.len(),
            all == players_view(combined@),
            out@.map_values(|u: String| u@) == placeholder_puuids(all.take(i as int)),
        decreases combined@.len() - i,
    {
        assert(all.take(i + 1).drop_last() =~= all.take(i as int));
        assert(all.take(i + 1).last() == combined@[i as int]@);
        let p = &combined[i];
        if is_placeholder_name(p.summoner_name.as_str()) {
            match &p.puuid {
                Some(u) => {
                    let ghost before = out@;
                    out.push(u.clone());
                    assert(out@.map_values(|u: String| u@) =~= before.map_values(|u: String| u@).push(u@));
                },
                None => {},
            }
        }
        i = i + 1;
    }
    assert(all.take(combined@.len() as int) =~= all);
    out
}

/// A member of the player's champion-select team, as identified by the
/// session: PUUID and summoner id when present.
#[derive(Debug, Clone)]
pub struct ChampSelectIdentity {
    pub puuid: Option<String>,
    pub summoner_id: Option<u64>,
}

/// The key identities are deduplicated by: the PUUID, else `sid:` and the
/// summoner id (0 when absent).
pub open spec fn identity_key(puuid: Option<Seq<char>>, sid: Option<u64>) -> Seq<char> {
    match puuid {
        Some(u) => u,
        None => "sid:"@ + crate::text::decimal(match sid { Some(n) => n as nat, None => 0 }),
    }
}

/// The identity read from a team member.
pub open spec fn identity_of(m: Json) -> (Option<Seq<char>>, Option<u64>) {
    (pick(m, seq!["puuid"@]), match json_get(m, "summonerId"@) {
        Some(Json::Number(n)) => n,
        _ => None,
    })
}

/// The identities of a team in order, each key once.
pub open spec fn team_identities(team: Seq<Json>) -> Seq<(Option<Seq<char>>, Option<u64>)>
    decreases team.len(),
{
    if team.len() == 0 {
        seq![]
    } else {
        let prev = team_identities(team.drop_last());
        let id = identity_of(team.last());
        if exists|j: int| 0 <= j < prev.len() && identity_key((#[trigger] prev[j]).0, prev[j].1) == identity_key(id.0, id.1) {
            prev
        } else {
            prev.push(id)
        }
    }
}

/// The members of the `myTeam` array of a champion-select session.
pub open spec fn my_team(session: Json) -> Seq<Json> {
    match json_get(session, "myTeam"@) {
        Some(Json::Array(v)) => v@,
        _ => seq![],
    }
}

/// The view of an identity.
pub open spec fn identity_view(i: ChampSelectIdentity) -> (Option<Seq<char>>, Option<u64>) {
    (opt_view(i.puuid), i.summoner_id)
}

fn identity_key_of(puuid: &Option<String>, sid: Option<u64>) -> (r: Vec<char>)
    ensures
        r@ == identity_key(opt_view(*puuid), sid),
{
    match puuid {
        Some(u) => chars_of(u.as_str()),
        None => {
            let n = match sid {
                Some(n) => n,
                None => 0,
            };
            let mut k = chars_of("sid:");
            let d = crate::text::decimal_digits(n);
            let ghost k0 = k@;
            let mut i: usize = 0;
            while i < d.len()
                invariant
                    i <= d@.len(),
                    k@ == k0 + d@.subrange(0, i as int),
                decreases d@.len() - i,
            {
                k.push(d[i]);
                assert(d@.subrange(0, i as int).push(d@[i as int]) =~= d@.subrange(0, i + 1));
                i = i + 1;
            }
            assert(d@.subrange(0, d@.len() as int) =~= d@);
            k
        },
    }
}

/// The team's identities from a champion-select session, each key once.
pub fn champ_select_team_identities(session: &Json) -> (r: Vec<ChampSelectIdentity>)
    ensures
        r@.map_values(|i: ChampSelectIdentity| identity_view(i)) == team_identities(my_team(*session)),
{
    let empty: Vec<Json> = Vec::new();
    let team: &Vec<Json> = match session.get("myTeam") {
        Some(v) => match v.as_array() {
            Some(a) => a,
            None => &empty,
        },
        None => &empty,
    };
    assert(team@ == my_team(*session));
    let puuid_keys: [&str; 1] = ["puuid"];
    assert(key_texts(puuid_keys@) =~= seq!["puuid"@]);
    let mut out: Vec<ChampSelectIdentity> = Vec::new();
    let mut keys: Vec<Vec<char>> = Vec::new();
    let mut i: usize = 0;
    assert(team@.take(0) =~= Seq::<Json>::empty());
    while i < team.len()
        invariant
            i <= team@.len(),
            key_texts(puuid_keys@) == seq!["puuid"@],
            out@.map_values(|i: ChampSelectIdentity| identity_view(i)) == team_identities(team@.take(i as int)),
            keys@.len() == out@.len(),
            forall|j: int| 0 <= j < keys@.len() ==> (#[trigger] keys@[j])@ == identity_key(opt_view(out@[j].puuid), out@[j].summoner_id),
        decreases team@.len() - i,
    {
        assert(team@.take(i + 1).drop_last() =~= team@.take(i as int));
        assert(team@.take(i + 1).last() == team@[i as int]);
        let m = &team[i];
        let puuid = pick_str(m, &puuid_keys);
        let sid = match m.get("summonerId") {
            Some(v) => v.as_u64(),
            None => None,
        };
        let key = identity_key_of(&puuid, sid);
        let ghost prev = out@.map_values(|i: ChampSelectIdentity| identity_view(i));
        let mut j: usize = 0;
        let mut dup = false;
        while j < keys.len()
            invariant
                j <= keys@.len(),
                keys@.len() == out@.len(),
                prev == out@.map_values(|i: ChampSelectIdentity| identity_view(i)),
                forall|q: int| 0 <= q < keys@.len() ==> (#[trigger] keys@[q])@ == identity_key(opt_view(out@[q].puuid), out@[q].summoner_id),
                !dup ==> forall|q: int| 0 <= q < j ==> identity_key((#[trigger] prev[q]).0, prev[q].1) != key@,
                dup ==> exists|q: int| 0 <= q < prev.len() && identity_key((#[trigger] prev[q]).0, prev[q].1) == key@,
            decreases keys@.len() - j,
        {
            if !dup && chars_equal(keys[j].as_slice(), key.as_slice()) {
                assert(identity_key(prev[j as int].0, prev[j as int].1) == key@);
                dup = true;
            }
            j = j + 1;
        }
        if !dup {
            let ghost before = out@;
            out.push(ChampSelectIdentity { puuid, summoner_id: sid });
            keys.push(key);
            assert(out@.map_values(|i: ChampSelectIdentity| identity_view(i)) =~= prev.push(identity_view(out@.last())));
        }
        i = i + 1;
    }
    assert(team@.take(team@.len() as int) =~= team@);
    out
}

/// The player a summoner lookup describes: `game#tag` or its display name.
pub open spec fn summoner_player(value: Json) -> PlayerView {
    player_from(value, seq!["gameName"@, "game_name"@], seq!["tagLine"@, "game_tag"@, "gameTag"@], seq!["displayName"@, "name"@])
}

/// The player of a summoner lookup by PUUID (the PUUID asked for is kept).
pub fn player_from_puuid_lookup(value: &Json, puuid: &str) -> (r: LobbyPlayer)
    ensures
        r@ == (PlayerView { puuid: Some(puuid@), ..summoner_player(*value) }),
{
    let gk: [&str; 2] = ["gameName", "game_name"];
    let tk: [&str; 3] = ["tagLine", "game_tag", "gameTag"];
    let nk: [&str; 2] = ["displayName", "name"];
    assert(key_texts(gk@) =~= seq!["gameName"@, "game_name"@]);
    assert(key_texts(tk@) =~= seq!["tagLine"@, "game_tag"@, "gameTag"@]);
    assert(key_texts(nk@) =~= seq!["displayName"@, "name"@]);
    let p = read_player(value, &gk, &tk, &nk);
    LobbyPlayer { puuid: Some(puuid.to_string()), ..p }
}

/// The player of a summoner lookup by summoner id.
pub fn player_from_summoner_lookup(value: &Json) -> (r: LobbyPlayer)
    ensures
        r@ == summoner_player(*value),
{
    let gk: [&str; 2] = ["gameName", "game_name"];
    let tk: [&str; 3] = ["tagLine", "game_tag", "gameTag"];
    let nk: [&str; 2] = ["displayName", "name"];
    assert(key_texts(gk@) =~= seq!["gameName"@, "game_name"@]);
    assert(key_texts(tk@) =~= seq!["tagLine"@, "game_tag"@, "gameTag"@]);
    assert(key_texts(nk@) =~= seq!["displayName"@, "name"@]);
    read_player(value, &gk, &tk, &nk)
}

/// What the lobby viewer shows.
#[derive(Debug)]
pub struct LobbyView {
    pub phase: String,
    pub in_champ_select: bool,
    pub region: String,
    pub players: Vec<LobbyPlayer>,
}

/// ASCII case-insensitive equality.
pub open spec fn eq_ignore_ascii_case(a: Seq<char>, b: Seq<char>) -> bool {
    lower_ascii_text(a) == lower_ascii_text(b)
}

/// Whether two texts are equal ignoring ASCII case.
pub fn str_eq_ignore_ascii_case(a: &str, b: &str) -> (r: bool)
    ensures
        r == eq_ignore_ascii_case(a@, b@),
{
    let x = lower_chars(&chars_of(a));
    let y = lower_chars(&chars_of(b));
    chars_equal(x.as_slice(), y.as_slice())
}

/// The game-flow phase reported by the client (a JSON string).
pub fn gameflow_phase(value: &Json) -> (r: Option<String>)
    ensures
        opt_view(r) == crate::json::json_str(*value),
{
    match value.as_str() {
        Some(s) => Some(s.to_string()),
        None => None,
    }
}

/// The region reported by the client (member `region`).
pub fn client_region(value: &Json) -> (r: Option<String>)
    ensures
        opt_view(r) == crate::json::member_str(*value, "region"@),
{
    match value.member_str("region") {
        Some(s) => Some(s.to_string()),
        None => None,
    }
}

/// While in champion select with at most one player found, the players are
/// fetched again (the chat room fills gradually), at most three times.
pub fn needs_more_players(in_champ_select: bool, count: usize, retries_done: usize) -> (r: bool)
    ensures
        r == (in_champ_select && count <= 1 && retries_done < 3),
{
    in_champ_select && count <= 1 && retries_done < 3
}

/// The lobby view: the phase (`Unknown` when not known), whether it is
/// champion select, the region (`NA` when not known) and the players.
pub fn lobby_view(phase: Option<String>, region: Option<String>, players: Vec<LobbyPlayer>) -> (r: LobbyView)
    ensures
        r.phase@ == (match phase { Some(p) => p@, None => "Unknown"@ }),
        r.region@ == (match region { Some(g) => g@, None => "NA"@ }),
        r.in_champ_select == eq_ignore_ascii_case(r.phase@, "ChampSelect"@),
        r.players == players,
{
    let phase = match phase {
        Some(p) => p,
        None => message("Unknown"),
    };
    let region = match region {
        Some(g) => g,
        None => message("NA"),
    };
    let in_champ_select = str_eq_ignore_ascii_case(phase.as_str(), "ChampSelect");
    LobbyView { phase, in_champ_select, region, players }
}

/// The text up to the first whitespace or `"`.
pub open spec fn arg_token(s: Seq<char>) -> Seq<char>
    decreases s.len(),
{
    if s.len() == 0 || spec_is_whitespace_char(s[0]) || s[0] == '"' { seq![] } else { seq![s[0]] + arg_token(s.drop_first()) }
}

/// Whitespace as `char::is_whitespace` tests it.
pub open spec fn spec_is_whitespace_char(c: char) -> bool {
    crate::text::spec_is_whitespace(c)
}

/// The value of a `prefix=value` argument on a command line: the text after
/// the first `prefix` up to whitespace or a quote, when not empty.
pub open spec fn cmdline_arg(cmdline: Seq<char>, prefix: Seq<char>) -> Option<Seq<char>> {
    match find_text(cmdline, prefix) {
        Some(i) => {
            let v = arg_token(cmdline.subrange(i + prefix.len(), cmdline.len() as int));
            if v.len() > 0 { Some(v) } else { None }
        },
        None => None,
    }
}

/// Reads the value of a `prefix=value` argument from a command line.
pub fn extract_cmdline_arg(cmdline: &str, prefix: &str) -> (r: Option<String>)
    ensures
        opt_view(r) == cmdline_arg(cmdline@, prefix@),
{
    let c = chars_of(cmdline);
    let p = chars_of(prefix);
    let idx = match find_chars(c.as_slice(), p.as_slice()) {
        Some(i) => i,
        None => return None,
    };
    proof {
        crate::text::lemma_find_from_bounds(c@, p@, 0);
    }
    let cl = c.len();
    assert(idx + p.len() <= cl);
    let start = idx + p.len();
    let mut j = start;
    while j < c.len() && !crate::text::is_whitespace(c[j]) && c[j] != '"'
        invariant
            start <= j <= c@.len(),
            arg_token(c@.subrange(start as int, c@.len() as int)) == c@.subrange(start as int, j as int)
                + arg_token(c@.subrange(j as int, c@.len() as int)),
        decreases c@.len() - j,
    {
        assert(c@.subrange(j as int, c@.len() as int).drop_first() =~= c@.subrange(j + 1, c@.len() as int));
        assert(c@.subrange(start as int, j + 1) =~= c@.subrange(start as int, j as int) + seq![c@[j as int]]);
        j = j + 1;
    }
    assert(arg_token(c@.subrange(j as int, c@.len() as int)) =~= seq![]);
    assert(c@.subrange(start as int, j as int) + seq![] =~= c@.subrange(start as int, j as int));
    if j == start {
        return None;
    }
    Some(string_from_chars(crate::text::sub_chars(c.as_slice(), start, j).as_slice()))
}

/// The `u16` that `str::parse` reads: an optional `+`, then ASCII digits,
/// at most 65535.
pub open spec fn u16_text(s: Seq<char>) -> Option<int> {
    let d = if s.len() > 0 && s[0] == '+' { s.drop_first() } else { s };
    if crate::update::all_digits(d) && crate::update::digits_value(d) <= 65535 {
        Some(crate::update::digits_value(d) as int)
    } else {
        None
    }
}

/// Parses a port number.
pub fn parse_u16(s: &[char]) -> (r: Option<u16>)
    ensures
        match r {
            Some(v) => u16_text(s@) == Some(v as int),
            None => u16_text(s@) is None,
        },
{
    let start: usize = if s.len() > 0 && s[0] == '+' { 1 } else { 0 };
    let ghost d = if s@.len() > 0 && s@[0] == '+' { s@.drop_first() } else { s@ };
    assert(d =~= s@.subrange(start as int, s@.len() as int));
    if start >= s.len() {
        return None;
    }
    let mut acc: u32 = 0;
    let mut i = start;
    while i < s.len()
        invariant
            start <= i <= s@.len(),
            d == s@.subrange(start as int, s@.len() as int),
            d == (if s@.len() > 0 && s@[0] == '+' { s@.drop_first() } else { s@ }),
            forall|j: int| start <= j < i ==> crate::update::is_digit(#[trigger] s@[j]),
            acc <= 65535 ==> acc as int == crate::update::digits_value(s@.subrange(start as int, i as int)),
            acc > 65535 ==> crate::update::digits_value(s@.subrange(start as int, i as int)) > 65535,
            acc <= 65536,
        decreases s@.len() - i,
    {
        let c = s[i];
        if !('0' <= c && c <= '9') {
            assert(!crate::update::is_digit(d[i - start]));
            return None;
        }
        assert(s@.subrange(start as int, i + 1).drop_last() =~= s@.subrange(start as int, i as int));
        if acc <= 65535 {
            let next = acc * 10 + (c as u32 - 48);
            acc = if next > 65535 { 65536 } else { next };
        }
        i = i + 1;
    }
    assert(crate::update::all_digits(d));
    if acc > 65535 {
        None
    } else {
        Some(acc as u16)
    }
}

/// The port and auth token of the Riot client, from the client UI's command
/// line.
#[derive(Debug, Clone)]
pub struct RiotClientInfo {
    pub port: u16,
    pub token: String,
}

/// The command line names the Riot client's port (a `u16`) and its token.
pub open spec fn riot_client_in(cmdline: Seq<char>) -> bool {
    cmdline_arg(cmdline, "--riotclient-app-port="@) matches Some(p)
        && cmdline_arg(cmdline, "--riotclient-auth-token="@) is Some && u16_text(p) is Some
}

/// `info` holds the port and token the command line names.
pub open spec fn riot_client_matches(info: RiotClientInfo, cmdline: Seq<char>) -> bool {
    cmdline_arg(cmdline, "--riotclient-app-port="@) matches Some(p)
        && u16_text(p) == Some(info.port as int)
        && cmdline_arg(cmdline, "--riotclient-auth-token="@) == Some(info.token@)
}

/// Reads the Riot client port and token from the client UI's command line.
pub fn parse_riot_client_from_cmdline(cmdline: &str) -> (r: Option<RiotClientInfo>)
    ensures
        r is Some <==> riot_client_in(cmdline@),
        r matches Some(info) ==> riot_client_matches(info, cmdline@),
{
    let port_str = match extract_cmdline_arg(cmdline, "--riotclient-app-port=") {
        Some(p) => p,
        None => return None,
    };
    let token = match extract_cmdline_arg(cmdline, "--riotclient-auth-token=") {
        Some(t) => t,
        None => return None,
    };
    let pc = chars_of(port_str.as_str());
    match parse_u16(pc.as_slice()) {
        Some(port) => Some(RiotClientInfo { port, token }),
        None => None,
    }
}

/// The pieces of a text between `sep` characters, as `str::split` with one
/// character yields them.
pub open spec fn split_char(s: Seq<char>, sep: char) -> Seq<Seq<char>>
    decreases s.len(),
{
    if s.len() == 0 {
        seq![seq![]]
    } else {
        let init = split_char(s.drop_last(), sep);
        if s.last() == sep {
            init.push(seq![])
        } else {
            init.update(init.len() - 1, init.last().push(s.last()))
        }
    }
}

proof fn lemma_split_char_nonempty(s: Seq<char>, sep: char)
    ensures
        split_char(s, sep).len() >= 1,
    decreases s.len(),
{
    if s.len() > 0 {
        lemma_split_char_nonempty(s.drop_last(), sep);
    }
}

/// Splits characters at every `sep`.
pub fn split_chars_on(s: &[char], sep: char) -> (r: Vec<Vec<char>>)
    ensures
        r@.len() == split_char(s@, sep).len(),
        forall|i: int| 0 <= i < r@.len() ==> (#[trigger] r@[i])@ == split_char(s@, sep)[i],
{
    let mut out: Vec<Vec<char>> = Vec::new();
    let mut piece: Vec<char> = Vec::new();
    let mut i: usize = 0;
    assert(s@.subrange(0, 0) =~= Seq::<char>::empty());
    while i < s.len()
        invariant
            i <= s@.len(),
            split_char(s@.subrange(0, i as int), sep).len() == out@.len() + 1,
            split_char(s@.subrange(0, i as int), sep).last() == piece@,
            forall|j: int| 0 <= j < out@.len() ==> (#[trigger] out@[j])@ == split_char(s@.subrange(0, i as int), sep)[j],
        decreases s@.len() - i,
    {
        let ghost pre = s@.subrange(0, i as int);
        let ghost next = s@.subrange(0, i + 1);
        assert(next.drop_last() =~= pre);
        proof {
            lemma_split_char_nonempty(pre, sep);
        }
        if s[i] == sep {
            let done = piece;
            out.push(done);
            piece = Vec::new();
            assert(split_char(next, sep) == split_char(pre, sep).push(seq![]));
        } else {
            piece.push(s[i]);
        }
        i = i + 1;
    }
    out.push(piece);
    assert(s@.subrange(0, s@.len() as int) =~= s@);
    out
}

/// The League client's lockfile: `name:pid:port:password:protocol`.
#[derive(Debug)]
pub struct LcuLockfile {
    pub port: u16,
    pub password: String,
    pub protocol: String,
}

/// The lockfile fields read from its (trimmed) text: at least five
/// `:`-separated fields, the third a port number.
pub open spec fn lockfile_fields(contents: Seq<char>) -> Option<(int, Seq<char>, Seq<char>)> {
    let parts = split_char(trim_ws(contents), ':');
    if parts.len() < 5 {
        None
    } else {
        match u16_text(parts[2]) {
            Some(port) => Some((port, parts[3], parts[4])),
            None => None,
        }
    }
}

/// Parses the lockfile's text.
pub fn parse_lockfile(contents: &str) -> (r: Option<LcuLockfile>)
    ensures
        r is Some <==> lockfile_fields(contents@) is Some,
        r matches Some(l) ==> lockfile_fields(contents@) == Some((l.port as int, l.password@, l.protocol@)),
{
    let cs = chars_of(contents);
    let (a, b) = trim_bounds(&cs);
    let t = crate::text::sub_chars(cs.as_slice(), a, b);
    let parts = split_chars_on(t.as_slice(), ':');
    if parts.len() < 5 {
        return None;
    }
    let port = match parse_u16(parts[2].as_slice()) {
        Some(p) => p,
        None => return None,
    };
    Some(LcuLockfile {
        port,
        password: string_from_chars(parts[3].as_slice()),
        protocol: string_from_chars(parts[4].as_slice()),
    })
}

/// The `Authorization` header of the client APIs: HTTP basic with user
/// `riot`.
pub open spec fn auth_header_text(password: Seq<char>) -> Seq<char> {
    "Basic "@ + crate::codec::base64_text(vstd::utf8::encode_utf8("riot:"@ + password))
}

/// The `Authorization` header for a client password or token.
pub fn auth_header(password: &str) -> (r: String)
    ensures
        r@ == auth_header_text(password@),
{
    let mut cred = message("riot:");
    cred.append(password);
    let b64 = crate::codec::base64_encode(cred.as_str().as_bytes());
    let mut r = message("Basic ");
    r.append(b64.as_str());
    r
}

/// The address of a client API path on the local machine.
pub open spec fn local_url_text(protocol: Seq<char>, port: u16, path: Seq<char>) -> Seq<char> {
    protocol + "://127.0.0.1:"@ + crate::text::decimal(port as nat) + path
}

/// The address of a League client API path: the lockfile's protocol and port.
pub fn lcu_url(lockfile: &LcuLockfile, path: &str) -> (r: String)
    ensures
        r@ == local_url_text(lockfile.protocol@, lockfile.port, path@),
{
    let mut r = lockfile.protocol.clone();
    r.append("://127.0.0.1:");
    crate::text::push_padded(&mut r, lockfile.port as u64, 0);
    r.append(path);
    r
}

/// The address of a Riot client API path (always HTTPS).
pub fn riot_url(info: &RiotClientInfo, path: &str) -> (r: String)
    ensures
        r@ == local_url_text("https"@, info.port, path@),
{
    let mut r = message("https");
    r.append("://127.0.0.1:");
    crate::text::push_padded(&mut r, info.port as u64, 0);
    r.append(path);
    r
}

/// What `String::from_utf16_lossy` returns for the code units.
pub uninterp spec fn utf16_lossy(units: Seq<u16>) -> Seq<char>;

/// What `String::from_utf8_lossy` returns for the bytes.
pub uninterp spec fn utf8_lossy(bytes: Seq<u8>) -> Seq<char>;

/// No code unit is a surrogate (each one is a character by itself).
pub open spec fn no_surrogates(units: Seq<u16>) -> bool {
    forall|i: int| 0 <= i < units.len() ==> !(0xD800 <= #[trigger] units[i] <= 0xDFFF)
}

/// The characters of code units that are no surrogates, one per unit.
pub open spec fn bmp_text(units: Seq<u16>) -> Seq<char> {
    units.map_values(|u: u16| u as char)
}

/// `String::from_utf16_lossy`: the text of UTF-16 code units, invalid ones
/// replaced. Beyond the name, the contract states only that units without
/// surrogates decode one character each.
#[verifier::external_body]
fn from_utf16_lossy(units: &[u16]) -> (r: String)
    ensures
        r@ == utf16_lossy(units@),
        no_surrogates(units@) ==> r@ == bmp_text(units@),
{
    String::from_utf16_lossy(units)
}

/// `String::from_utf8_lossy`: the text of UTF-8 bytes, invalid sequences
/// replaced; valid UTF-8 is decoded as it is.
#[verifier::external_body]
fn from_utf8_lossy(bytes: &[u8]) -> (r: String)
    ensures
        r@ == utf8_lossy(bytes@),
        vstd::utf8::valid_utf8(bytes@) ==> r@ == vstd::utf8::decode_utf8(bytes@),
{
    String::from_utf8_lossy(bytes).into_owned()
}

/// Little-endian 16-bit units of bytes taken in pairs (a final odd byte is
/// dropped).
pub open spec fn le_units(b: Seq<u8>) -> Seq<u16> {
    Seq::new(b.len() / 2, |i: int| (b[2 * i] as int + 256 * b[2 * i + 1] as int) as u16)
}

/// The text of a process's output: UTF-16 LE when it starts with a BOM or
/// looks like UTF-16 (zero second and fourth bytes), else UTF-8.
pub open spec fn process_output_text(b: Seq<u8>) -> Seq<char> {
    if b.len() >= 2 && b[0] == 0xFF && b[1] == 0xFE {
        utf16_lossy(le_units(b.subrange(2, b.len() as int)))
    } else if b.len() >= 4 && b[1] == 0 && b[3] == 0 {
        utf16_lossy(le_units(b))
    } else {
        utf8_lossy(b)
    }
}

fn le_units_of(b: &[u8]) -> (r: Vec<u16>)
    ensures
        r@ == le_units(b@),
{
    let mut out: Vec<u16> = Vec::new();
    let n = b.len() / 2;
    let mut i: usize = 0;
    while i < n
        invariant
            i <= n,
            n == b@.len() / 2,
            2 * n <= b.len(),
            out@ =~= le_units(b@).take(i as int),
        decreases n - i,
    {
        let lo: u8 = b[2 * i];
        let hi: u8 = b[2 * i + 1];
        let u32v: u32 = (lo as u32) + 256 * (hi as u32);
        assert(u32v <= 65535);
        let u: u16 = u32v as u16;
        out.push(u);
        assert(out@ =~= le_units(b@).take(i + 1));
        i = i + 1;
    }
    out
}

/// Decodes a process's output (`wmic` may write UTF-16 LE).
pub fn decode_process_output(bytes: &[u8]) -> (r: String)
    ensures
        r@ == process_output_text(bytes@),
        bytes@.len() >= 2 && bytes@[0] == 0xFF && bytes@[1] == 0xFE
            && no_surrogates(le_units(bytes@.subrange(2, bytes@.len() as int)))
            ==> r@ == bmp_text(le_units(bytes@.subrange(2, bytes@.len() as int))),
        !(bytes@.len() >= 2 && bytes@[0] == 0xFF && bytes@[1] == 0xFE)
            && bytes@.len() >= 4 && bytes@[1] == 0 && bytes@[3] == 0 && no_surrogates(le_units(bytes@))
            ==> r@ == bmp_text(le_units(bytes@)),
        !(bytes@.len() >= 2 && bytes@[0] == 0xFF && bytes@[1] == 0xFE)
            && !(bytes@.len() >= 4 && bytes@[1] == 0 && bytes@[3] == 0)
            && vstd::utf8::valid_utf8(bytes@) ==> r@ == vstd::utf8::decode_utf8(bytes@),
{
    if bytes.len() >= 2 && bytes[0] == 0xFF && bytes[1] == 0xFE {
        let rest = vstd::slice::slice_subrange(bytes, 2, bytes.len());
        let units = le_units_of(rest);
        from_utf16_lossy(units.as_slice())
    } else if bytes.len() >= 4 && bytes[1] == 0 && bytes[3] == 0 {
        let units = le_units_of(bytes);
        from_utf16_lossy(units.as_slice())
    } else {
        from_utf8_lossy(bytes)
    }
}

/// The Riot client's port and token from the output of the PowerShell
/// process query (UTF-8).
pub fn riot_client_from_powershell_output(stdout: &[u8]) -> (r: Option<RiotClientInfo>)
    ensures
        r is Some <==> riot_client_in(utf8_lossy(stdout@)),
        r matches Some(info) ==> riot_client_matches(info, utf8_lossy(stdout@)),
{
    let cmdline = from_utf8_lossy(stdout);
    parse_riot_client_from_cmdline(cmdline.as_str())
}

/// The Riot client's port and token from the output of the `wmic` process
/// query (which may be UTF-16 LE).
pub fn riot_client_from_wmic_output(stdout: &[u8]) -> (r: Option<RiotClientInfo>)
    ensures
        r is Some <==> riot_client_in(process_output_text(stdout@)),
        r matches Some(info) ==> riot_client_matches(info, process_output_text(stdout@)),
{
    let cmdline = decode_process_output(stdout);
    parse_riot_client_from_cmdline(cmdline.as_str())
}

/// A ready check is waiting for this player: its state is `InProgress` and
/// the player has not answered (`None`, or no answer field).
pub open spec fn ready_check_open(value: Json) -> bool {
    let in_progress = match crate::json::member_str(value, "state"@) {
        Some(s) => eq_ignore_ascii_case(s, "InProgress"@),
        None => false,
    };
    let not_answered = match crate::json::member_str(value, "playerResponse"@) {
        Some(s) => eq_ignore_ascii_case(s, "None"@),
        None => true,
    };
    in_progress && not_answered
}

/// A ready check is taken only while its state is `InProgress` and the
/// player has given no answer: a `playerResponse` other than `None` (in any
/// ASCII case), such as `Accepted` or `Declined`, rules it out.
pub proof fn lemma_ready_check_unanswered(value: Json)
    ensures
        ready_check_open(value) <==> {
            &&& crate::json::member_str(value, "state"@) matches Some(s) && lower_ascii_text(s) == "inprogress"@
            &&& crate::json::member_str(value, "playerResponse"@) matches Some(r) ==> lower_ascii_text(r) == "none"@
        },
{
    reveal_strlit("InProgress");
    reveal_strlit("inprogress");
    reveal_strlit("None");
    reveal_strlit("none");
    assert(lower_ascii_text("InProgress"@) =~= "inprogress"@);
    assert(lower_ascii_text("None"@) =~= "none"@);
}

/// Whether the ready check can be accepted.
pub fn ready_check_actionable(value: &Json) -> (r: bool)
    ensures
        r == ready_check_open(*value),
{
    let in_progress = match value.member_str("state") {
        Some(s) => str_eq_ignore_ascii_case(s, "InProgress"),
        None => false,
    };
    let not_answered = match value.member_str("playerResponse") {
        Some(s) => str_eq_ignore_ascii_case(s, "None"),
        None => true,
    };
    in_progress && not_answered
}

/// Accepting again is allowed 2000 ms after the last accept (the clock
/// going back counts as no time passed).
pub fn accept_allowed(now_ms: u64, last_accept_ms: u64) -> (r: bool)
    ensures
        r == (now_ms >= last_accept_ms && now_ms - last_accept_ms >= 2000),
{
    now_ms.saturating_sub(last_accept_ms) >= 2000
}

/// What switching auto-accept on or off does to the background loop.
#[derive(Debug, PartialEq, Eq, Structural, Clone, Copy)]
pub enum AutoAcceptChange {
    /// Start the loop.
    Start,
    /// Stop the running loop and wait for it.
    Stop,
    /// Leave things as they are.
    Keep,
}

/// Turning auto-accept on starts the loop unless it runs; turning it off
/// stops it if it runs.
pub fn auto_accept_change(enabled: bool, running: bool) -> (r: AutoAcceptChange)
    ensures
        r == (if enabled {
            if running { AutoAcceptChange::Keep } else { AutoAcceptChange::Start }
        } else if running {
            AutoAcceptChange::Stop
        } else {
            AutoAcceptChange::Keep
        }),
{
    if enabled {
        if running { AutoAcceptChange::Keep } else { AutoAcceptChange::Start }
    } else if running {
        AutoAcceptChange::Stop
    } else {
        AutoAcceptChange::Keep
    }
}

} // verus!
