use vaultx::collect::PlayerCollector;
use vaultx::json::Json;

fn s(v: &str) -> Json {
    Json::Str(v.to_string())
}

fn obj(entries: Vec<(&str, Json)>) -> Json {
    Json::Object(entries.into_iter().map(|(k, v)| (k.to_string(), v)).collect())
}

fn next(c: &PlayerCollector) -> String {
    format!("{:?}", c.request())
}

fn names(c: PlayerCollector) -> Vec<String> {
    c.players().expect("collection over").into_iter().map(|p| p.summoner_name).collect()
}

#[test]
fn full_collection_with_lookups() {
    let mut c = PlayerCollector::new(true);
    assert_eq!(next(&c), "Some(RiotChatParticipants)");
    c = c.advance(None);
    assert_eq!(next(&c), "Some(ChatParticipants)");
    let chat = obj(vec![(
        "participants",
        Json::Array(vec![obj(vec![("cid", s("r@champ-select")), ("name", s("Hidden Summoner")), ("puuid", s("p1"))])]),
    )]);
    c = c.advance(Some(chat));
    assert_eq!(next(&c), "Some(LobbyMembers)");
    let members = Json::Array(vec![obj(vec![("gameName", s("Caps")), ("tagLine", s("EUW")), ("puuid", s("c1"))])]);
    c = c.advance(Some(members));
    assert_eq!(next(&c), "Some(ChampSelectSession)");
    let session = obj(vec![(
        "myTeam",
        Json::Array(vec![
            obj(vec![("puuid", s("p1")), ("summonerId", Json::Number(Some(11)))]),
            obj(vec![("summonerId", Json::Number(Some(22)))]),
            obj(vec![]),
        ]),
    )]);
    c = c.advance(Some(session));
    assert_eq!(next(&c), "Some(PlayerByPuuid(\"p1\"))");
    c = c.advance(None);
    assert_eq!(next(&c), "Some(PlayerBySummonerId(11))");
    c = c.advance(Some(obj(vec![("gameName", s("Faker")), ("tagLine", s("KR1")), ("puuid", s("p1"))])));
    assert_eq!(next(&c), "Some(PlayerBySummonerId(22))");
    c = c.advance(None);
    assert_eq!(next(&c), "None");
    assert_eq!(names(c), vec!["Faker#KR1", "Caps#EUW"]);
}

#[test]
fn riot_chat_answer_skips_the_league_chat() {
    let mut c = PlayerCollector::new(true);
    let chat = Json::Array(vec![obj(vec![("cid", s("champ-select")), ("game_name", s("A")), ("game_tag", s("1"))])]);
    c = c.advance(Some(chat));
    assert_eq!(next(&c), "Some(LobbyMembers)");
    c = c.advance(None);
    c = c.advance(None);
    assert_eq!(next(&c), "None");
    assert_eq!(names(c), vec!["A#1"]);
}

#[test]
fn placeholders_resolved_by_puuid() {
    let mut c = PlayerCollector::new(false);
    assert_eq!(next(&c), "Some(ChatParticipants)");
    c = c.advance(None);
    let members = Json::Array(vec![
        obj(vec![("summonerName", s("0a1b2c3d-4e5f-6789-abcd-ef0123456789")), ("puuid", s("p5"))]),
        obj(vec![("summonerName", s("Known"))]),
    ]);
    c = c.advance(Some(members));
    c = c.advance(None);
    assert_eq!(next(&c), "Some(PlayerByPuuid(\"p5\"))");
    c = c.advance(Some(obj(vec![("gameName", s("Zed")), ("tagLine", s("X"))])));
    assert_eq!(next(&c), "None");
    assert_eq!(names(c), vec!["Zed#X", "Known"]);
}

#[test]
fn nothing_answered_gives_no_players() {
    let mut c = PlayerCollector::new(false);
    for _ in 0..3 {
        assert!(c.request().is_some());
        c = c.advance(None);
    }
    assert!(c.request().is_none());
    assert!(names(c).is_empty());
    assert!(PlayerCollector::new(false).players().is_none());
}

#[test]
fn a_lone_placeholder_is_kept() {
    let mut c = PlayerCollector::new(false);
    c = c.advance(None);
    c = c.advance(Some(Json::Array(vec![obj(vec![("name", s("unknown"))])])));
    c = c.advance(None);
    assert_eq!(next(&c), "None");
    assert_eq!(names(c), vec!["unknown"]);
}

#[test]
fn every_collection_ends() {
    let team = || {
        obj(vec![(
            "myTeam",
            Json::Array((0..5u64).map(|i| obj(vec![("puuid", s(&format!("p{i}"))), ("summonerId", Json::Number(Some(i)))])).collect()),
        )])
    };
    let mut c = PlayerCollector::new(true);
    let mut steps = 0;
    while c.request().is_some() {
        let reply = if steps == 3 { Some(team()) } else { None };
        c = c.advance(reply);
        steps += 1;
        assert!(steps < 100);
    }
    assert_eq!(steps, 4 + 10);
}
