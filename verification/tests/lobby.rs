use vaultx::json::{pick_str, Json};
use vaultx::lobby::{
    accept_allowed, auth_header, auto_accept_change, champ_select_team_identities, client_region,
    decode_process_output, extract_champ_select_players, extract_cmdline_arg, extract_lobby_members_players,
    finish_players, gameflow_phase, is_placeholder_name, is_placeholder_player, lcu_url, lobby_view,
    looks_like_uuid, merge_players, needs_more_players, parse_lockfile, parse_riot_client_from_cmdline,
    player_from_puuid_lookup, player_from_summoner_lookup, ready_check_actionable, riot_client_from_powershell_output,
    riot_client_from_wmic_output, riot_url, str_eq_ignore_ascii_case, unresolved_puuids, AutoAcceptChange,
    LobbyPlayer, RiotClientInfo,
};

const UUID: &str = "0a1b2c3d-4e5f-6789-abcd-ef0123456789";

fn s(v: &str) -> Json {
    Json::Str(v.to_string())
}

fn obj(entries: Vec<(&str, Json)>) -> Json {
    Json::Object(entries.into_iter().map(|(k, v)| (k.to_string(), v)).collect())
}

fn player(name: &str, game: Option<&str>, tag: Option<&str>, puuid: Option<&str>) -> LobbyPlayer {
    LobbyPlayer {
        summoner_name: name.to_string(),
        game_name: game.map(|x| x.to_string()),
        tag_line: tag.map(|x| x.to_string()),
        puuid: puuid.map(|x| x.to_string()),
    }
}

fn names(v: &[LobbyPlayer]) -> Vec<String> {
    v.iter().map(|p| p.summoner_name.clone()).collect()
}

#[test]
fn uuid_shape() {
    assert!(looks_like_uuid(UUID));
    assert!(looks_like_uuid(&format!("  {}  ", UUID.to_uppercase())));
    assert!(!looks_like_uuid("0a1b2c3d-4e5f-6789-abcd-ef012345678"));
    assert!(!looks_like_uuid("0a1b2c3d_4e5f-6789-abcd-ef0123456789"));
    assert!(!looks_like_uuid("0a1b2c3d-4e5f-6789-abcd-ef012345678g"));
    assert!(!looks_like_uuid(""));
}

#[test]
fn placeholder_names_and_players() {
    for n in ["", "   ", "Unknown", "HIDDEN SUMMONER", " hidden summoner ", UUID] {
        assert!(is_placeholder_name(n), "{n:?}");
    }
    for n in ["Faker#KR1", "Hidden", "unknown player"] {
        assert!(!is_placeholder_name(n), "{n:?}");
    }
    assert!(is_placeholder_player(&player("Hidden Summoner", None, None, Some("p"))));
    assert!(!is_placeholder_player(&player("Hidden Summoner", Some("G"), None, None)));
    assert!(!is_placeholder_player(&player("Faker", None, None, None)));
}

#[test]
fn pick_str_skips_blank_and_non_strings() {
    let v = obj(vec![("a", s("  ")), ("b", Json::Number(Some(1))), ("c", s(" x "))]);
    assert_eq!(pick_str(&v, &["a", "b", "c"]), Some(" x ".to_string()));
    assert_eq!(pick_str(&v, &["a", "b"]), None);
    assert_eq!(pick_str(&s("x"), &["a"]), None);
}

#[test]
fn champ_select_players_from_chat() {
    let resp = obj(vec![(
        "participants",
        Json::Array(vec![
            obj(vec![("cid", s("abc@champ-select.eu")), ("game_name", s("Faker")), ("game_tag", s("KR1")), ("puuid", s("p1"))]),
            obj(vec![("cid", s("lobby@post-game")), ("game_name", s("Other")), ("game_tag", s("X"))]),
            obj(vec![("cid", s("x@CHAMP-SELECT")), ("name", s(UUID)), ("puuid", s("p2"))]),
            obj(vec![("cid", s("x@champ-select")), ("game_name", s("Dup")), ("game_tag", s("1")), ("puuid", s("p1"))]),
            obj(vec![("cid", s("x@champ-select")), ("name", s("Visible"))]),
            obj(vec![("cid", s("x@champ-select")), ("name", s("Visible")), ("gameName", s("   "))]),
        ]),
    )]);
    let players = extract_champ_select_players(&resp);
    assert_eq!(names(&players), vec!["Faker#KR1", "Hidden Summoner", "Visible"]);
    assert_eq!(players[0].game_name.as_deref(), Some("Faker"));
    assert_eq!(players[0].tag_line.as_deref(), Some("KR1"));
    assert_eq!(players[1].puuid.as_deref(), Some("p2"));
    assert_eq!(players[2].puuid, None);
    let flat = Json::Array(vec![obj(vec![("cid", s("champ-select")), ("name", s("Solo"))])]);
    assert_eq!(names(&extract_champ_select_players(&flat)), vec!["Solo"]);
    assert!(extract_champ_select_players(&obj(vec![])).is_empty());
}

#[test]
fn lobby_members_players() {
    let members = Json::Array(vec![
        obj(vec![("gameName", s("Caps")), ("tagLine", s("EUW")), ("puuid", s("c1"))]),
        obj(vec![("summonerName", s("Old Name")), ("displayName", s("Shown"))]),
        obj(vec![("summonerInternalName", s("internal"))]),
        obj(vec![("gameName", s("NoTag")), ("name", s("Fallback"))]),
    ]);
    let players = extract_lobby_members_players(&members);
    assert_eq!(names(&players), vec!["Caps#EUW", "Old Name", "internal", "Fallback"]);
    assert_eq!(players[3].game_name.as_deref(), Some("NoTag"));
    assert!(extract_lobby_members_players(&obj(vec![("x", s("y"))])).is_empty());
}

#[test]
fn merging_completes_known_players_and_appends_new_ones() {
    let mut target = vec![player("Hidden Summoner", None, None, Some("p1")), player("Caps", None, None, None)];
    let incoming = vec![
        player("Faker#KR1", Some("Faker"), Some("KR1"), Some("p1")),
        player("CAPS", Some("Caps"), None, Some("caps")),
        player("New", None, None, None),
    ];
    merge_players(&mut target, incoming);
    assert_eq!(names(&target), vec!["Faker#KR1", "Caps", "New"]);
    assert_eq!(target[0].game_name.as_deref(), Some("Faker"));
    assert_eq!(target[1].game_name.as_deref(), Some("Caps"));
    assert_eq!(target[1].puuid.as_deref(), Some("caps"));
    let mut other = vec![player("Caps", None, None, None)];
    merge_players(&mut other, vec![player("Caps", None, None, Some("p9"))]);
    assert_eq!(other.len(), 2);
    let mut keep = vec![player("Real", Some("R"), None, Some("p1"))];
    merge_players(&mut keep, vec![player("Hidden Summoner", Some("X"), Some("T"), Some("p1"))]);
    assert_eq!(names(&keep), vec!["Real"]);
    assert_eq!(keep[0].game_name.as_deref(), Some("R"));
    assert_eq!(keep[0].tag_line.as_deref(), Some("T"));
}

#[test]
fn placeholders_dropped_unless_alone() {
    let one = finish_players(vec![player("Hidden Summoner", None, None, None)]);
    assert_eq!(names(&one), vec!["Hidden Summoner"]);
    let many = finish_players(vec![
        player("Hidden Summoner", None, None, Some("p")),
        player("A", None, None, None),
        player("unknown", Some("G"), None, None),
    ]);
    assert_eq!(names(&many), vec!["A", "unknown"]);
    assert!(finish_players(Vec::new()).is_empty());
}

#[test]
fn unresolved_placeholder_puuids() {
    let v = vec![
        player("Hidden Summoner", None, None, Some("p1")),
        player("A", None, None, Some("p2")),
        player("", None, None, None),
        player(UUID, Some("G"), None, Some("p3")),
    ];
    assert_eq!(unresolved_puuids(&v), vec!["p1".to_string(), "p3".to_string()]);
}

#[test]
fn team_identities_each_once() {
    let session = obj(vec![(
        "myTeam",
        Json::Array(vec![
            obj(vec![("puuid", s("p1")), ("summonerId", Json::Number(Some(11)))]),
            obj(vec![("summonerId", Json::Number(Some(22)))]),
            obj(vec![("puuid", s("p1")), ("summonerId", Json::Number(Some(33)))]),
            obj(vec![("summonerId", Json::Number(Some(22)))]),
            obj(vec![("puuid", s(" "))]),
            obj(vec![]),
            obj(vec![("summonerId", Json::Number(None))]),
        ]),
    )]);
    let ids = champ_select_team_identities(&session);
    let got: Vec<(Option<String>, Option<u64>)> = ids.iter().map(|i| (i.puuid.clone(), i.summoner_id)).collect();
    assert_eq!(got, vec![(Some("p1".to_string()), Some(11)), (None, Some(22)), (None, None)]);
    assert!(champ_select_team_identities(&obj(vec![])).is_empty());
}

#[test]
fn summoner_lookups() {
    let v = obj(vec![("gameName", s("Faker")), ("tagLine", s("KR1")), ("puuid", s("other"))]);
    let p = player_from_puuid_lookup(&v, "asked");
    assert_eq!(p.summoner_name, "Faker#KR1");
    assert_eq!(p.puuid.as_deref(), Some("asked"));
    let q = player_from_summoner_lookup(&v);
    assert_eq!(q.puuid.as_deref(), Some("other"));
    let hidden = player_from_summoner_lookup(&obj(vec![("displayName", s(UUID))]));
    assert_eq!(hidden.summoner_name, "Hidden Summoner");
    assert_eq!(hidden.puuid, None);
    let named = player_from_summoner_lookup(&obj(vec![("name", s("Old")), ("game_tag", s("T"))]));
    assert_eq!(named.summoner_name, "Old");
    assert_eq!(named.tag_line.as_deref(), Some("T"));
}

#[test]
fn lobby_view_defaults() {
    assert_eq!(gameflow_phase(&s("ChampSelect")), Some("ChampSelect".to_string()));
    assert_eq!(gameflow_phase(&obj(vec![])), None);
    assert_eq!(client_region(&obj(vec![("region", s("EUW")), ("locale", s("en_GB"))])), Some("EUW".to_string()));
    assert_eq!(client_region(&obj(vec![("region", s(""))])), Some(String::new()));
    let v = lobby_view(Some("champselect".to_string()), None, vec![player("A", None, None, None)]);
    assert_eq!(v.phase, "champselect");
    assert!(v.in_champ_select);
    assert_eq!(v.region, "NA");
    assert_eq!(v.players.len(), 1);
    let v = lobby_view(None, Some("KR".to_string()), Vec::new());
    assert_eq!(v.phase, "Unknown");
    assert!(!v.in_champ_select);
    assert_eq!(v.region, "KR");
    assert!(str_eq_ignore_ascii_case("InProgress", "inprogress"));
    assert!(!str_eq_ignore_ascii_case("InProgress", "In Progress"));
}

#[test]
fn champ_select_retries_at_most_three_times() {
    assert!(needs_more_players(true, 0, 0));
    assert!(needs_more_players(true, 1, 2));
    assert!(!needs_more_players(true, 1, 3));
    assert!(!needs_more_players(true, 2, 0));
    assert!(!needs_more_players(false, 0, 0));
}

#[test]
fn command_line_arguments() {
    let cmd = "\"C:/Riot/LeagueClientUx.exe\" \"--riotclient-auth-token=AbC_12\" \"--riotclient-app-port=54321\" --app-port=1234";
    assert_eq!(extract_cmdline_arg(cmd, "--riotclient-app-port="), Some("54321".to_string()));
    assert_eq!(extract_cmdline_arg(cmd, "--riotclient-auth-token="), Some("AbC_12".to_string()));
    assert_eq!(extract_cmdline_arg(cmd, "--app-port="), Some("1234".to_string()));
    assert_eq!(extract_cmdline_arg("--x= y", "--x="), None);
    assert_eq!(extract_cmdline_arg(cmd, "--missing="), None);
    let info = parse_riot_client_from_cmdline(cmd).unwrap();
    assert_eq!((info.port, info.token.as_str()), (54321, "AbC_12"));
    assert!(parse_riot_client_from_cmdline("--riotclient-app-port=99999 --riotclient-auth-token=t").is_none());
    assert!(parse_riot_client_from_cmdline("--riotclient-app-port=80").is_none());
    let plus = parse_riot_client_from_cmdline("--riotclient-app-port=+080 --riotclient-auth-token=t").unwrap();
    assert_eq!(plus.port, 80);
}

#[test]
fn process_output_decoding() {
    assert_eq!(decode_process_output(b"hello"), "hello");
    assert_eq!(decode_process_output(b"abc"), "abc");
    assert_eq!(decode_process_output(&[0xFF, 0xFE, 0x41, 0x00, 0x42, 0x00]), "AB");
    assert_eq!(decode_process_output(&[0x41, 0x00, 0x42, 0x00]), "AB");
    assert_eq!(decode_process_output(&[0xFF, 0xFE, b'h', 0, b'i', 0]), "hi");
    assert_eq!(decode_process_output(&[0xFF, 0xFE, b'h', 0, b'i']), "h");
    assert_eq!(decode_process_output(&[b'o', 0, b'k', 0, b'!', 0]), "ok!");
    assert_eq!(decode_process_output(&[0xFF, 0xFE, 0x3D, 0xD8, 0x00, 0xDE, 0x20, 0x00]), "\u{1F600} ");
    assert_eq!(decode_process_output(&[0xFF, 0xFE, 0x00, 0xD8]), "\u{FFFD}");
    assert_eq!(decode_process_output(&[b'a', 0xFF, b'b']), "a\u{FFFD}b");
    assert_eq!(decode_process_output(&[]), "");
}

#[test]
fn riot_client_from_process_queries() {
    let line = "x --riotclient-app-port=50000 --riotclient-auth-token=tok\r\n";
    let ps = riot_client_from_powershell_output(line.as_bytes()).unwrap();
    assert_eq!((ps.port, ps.token.as_str()), (50000, "tok"));
    let mut wide = vec![0xFF, 0xFE];
    for u in line.encode_utf16() {
        wide.extend_from_slice(&u.to_le_bytes());
    }
    let wm = riot_client_from_wmic_output(&wide).unwrap();
    assert_eq!((wm.port, wm.token.as_str()), (50000, "tok"));
    assert!(riot_client_from_powershell_output(b"").is_none());
}

#[test]
fn lockfile_fields() {
    let lf = parse_lockfile("LeagueClient:1234:54321:pa55:https\n").unwrap();
    assert_eq!((lf.port, lf.password.as_str(), lf.protocol.as_str()), (54321, "pa55", "https"));
    assert!(parse_lockfile("a:b:notnum:c:d").is_none());
    assert!(parse_lockfile("a:b:c:d").is_none());
    assert!(parse_lockfile("a:b:70000:c:d").is_none());
    let extra = parse_lockfile("  a:b:80:pw:http:more  ").unwrap();
    assert_eq!((extra.port, extra.password.as_str(), extra.protocol.as_str()), (80, "pw", "http"));
    let empty = parse_lockfile("a:b:1:::").unwrap();
    assert_eq!((empty.password.as_str(), empty.protocol.as_str()), ("", ""));
}

#[test]
fn request_addresses_and_auth() {
    assert_eq!(auth_header("pw"), "Basic cmlvdDpwdw==");
    assert_eq!(auth_header("abc123"), "Basic cmlvdDphYmMxMjM=");
    let lf = parse_lockfile("LeagueClient:1:2999:x:https").unwrap();
    assert_eq!(lcu_url(&lf, "/lol-gameflow/v1/gameflow-phase"), "https://127.0.0.1:2999/lol-gameflow/v1/gameflow-phase");
    let info = RiotClientInfo { port: 0, token: "t".to_string() };
    assert_eq!(riot_url(&info, "/chat/v5/participants"), "https://127.0.0.1:0/chat/v5/participants");
}

#[test]
fn ready_check_states() {
    let open = obj(vec![("state", s("InProgress")), ("playerResponse", s("None"))]);
    assert!(ready_check_actionable(&open));
    assert!(ready_check_actionable(&obj(vec![("state", s("inprogress"))])));
    assert!(!ready_check_actionable(&obj(vec![("state", s("InProgress")), ("playerResponse", s("Accepted"))])));
    assert!(!ready_check_actionable(&obj(vec![("state", s("Invalid")), ("playerResponse", s("None"))])));
    assert!(!ready_check_actionable(&obj(vec![])));
}

#[test]
fn accept_cooldown_is_two_seconds() {
    assert!(accept_allowed(10_000, 8_000));
    assert!(!accept_allowed(10_000, 8_001));
    assert!(!accept_allowed(5_000, 9_000));
    assert!(accept_allowed(2_000, 0));
}

#[test]
fn auto_accept_switch() {
    assert_eq!(auto_accept_change(true, false), AutoAcceptChange::Start);
    assert_eq!(auto_accept_change(true, true), AutoAcceptChange::Keep);
    assert_eq!(auto_accept_change(false, true), AutoAcceptChange::Stop);
    assert_eq!(auto_accept_change(false, false), AutoAcceptChange::Keep);
}

#[test]
fn merging_appends_unmatched_players_in_order() {
    let mut target = vec![player("A", None, None, Some("a"))];
    merge_players(
        &mut target,
        vec![
            player("X", None, None, Some("x")),
            player("A2", Some("G"), None, Some("a")),
            player("Y", None, None, None),
            player("X later", Some("XG"), Some("XT"), Some("x")),
        ],
    );
    assert_eq!(names(&target), vec!["A", "X", "Y"]);
    assert_eq!(target[0].game_name.as_deref(), Some("G"));
    assert_eq!(target[1].game_name.as_deref(), Some("XG"));
    assert_eq!(target[1].tag_line.as_deref(), Some("XT"));
}
