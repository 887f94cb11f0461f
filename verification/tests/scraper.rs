use vaultx::scraper::{
    extract_division, extract_level, extract_meta_description, extract_profile_icon, html_decode, html_parse_ok,
    number_before, parse_champions_from_description, parse_from_html, parse_profile_page, parse_rank_from_description,
    parse_riot_id, profile_not_found, profile_url, region_slug, stats_from_html, RankInfo,
};

const DESC: &str = "Mikiri#prlzd / Diamond 1 1 75LP / 34Win 35Lose Win rate 49% / Yasuo - 4Win 7Lose Win rate 36%, Hwei - 6Win 1Lose Win rate 86%, Ahri - 0Win 0Lose Win rate 0%, Zed - 1Win 0Lose Win rate 100%";
const ICON: &str = "https://opgg-static.akamaized.net/meta/images/profile_icons/profileIcon6.jpg?image=q_auto,f_png,w_200&v=1772770973";

fn page() -> String {
    format!(
        "<html><head><meta property=\"og:description\" content=\"{DESC}\"></head><body><img src=\"{ICON}\" alt=\"icon\"><span class=\"level\">512</span></body></html>"
    )
}

fn rank(r: &RankInfo) -> (String, String, i64, i64, i64) {
    (r.tier.clone(), r.division.clone(), r.lp, r.wins, r.losses)
}

#[test]
fn regions_map_to_op_gg_slugs() {
    assert_eq!(region_slug("euw"), Some("euw"));
    assert_eq!(region_slug("Na"), Some("na"));
    for (r, slug) in [("EUNE", "eune"), ("KR", "kr"), ("JP", "jp"), ("BR", "br"), ("LAN", "lan"), ("LAS", "las"), ("OCE", "oce"), ("TR", "tr"), ("RU", "ru")] {
        assert_eq!(region_slug(r), Some(slug));
    }
    assert_eq!(region_slug("EUW "), None);
    assert_eq!(region_slug("xx"), None);
    assert_eq!(region_slug(""), None);
}

#[test]
fn riot_ids_split_at_the_last_hash() {
    assert_eq!(parse_riot_id("Faker#KR1"), Ok(("Faker".to_string(), "KR1".to_string())));
    assert_eq!(parse_riot_id("a#b#c"), Ok(("a#b".to_string(), "c".to_string())));
    let err = Err("Riot ID must be in \"Name#TAG\" format.".to_string());
    assert_eq!(parse_riot_id("Faker"), err);
    assert_eq!(parse_riot_id("#KR"), err);
    assert_eq!(parse_riot_id("Faker#"), err);
}

#[test]
fn profile_urls_are_percent_encoded() {
    assert_eq!(
        profile_url("Hide on bush#KR1", "kr"),
        Ok("https://www.op.gg/summoners/kr/Hide%20on%20bush-KR1".to_string())
    );
    assert_eq!(profile_url("Zoë#EUW", "EUW"), Ok("https://www.op.gg/summoners/euw/Zo%C3%AB-EUW".to_string()));
    assert_eq!(profile_url("x#y", "zz"), Err("Unknown region: zz".to_string()));
    assert_eq!(profile_url("xy", "na"), Err("Riot ID must be in \"Name#TAG\" format.".to_string()));
}

#[test]
fn missing_profile_message() {
    assert_eq!(profile_not_found(404, "A#B"), Some("Summoner \"A#B\" not found on op.gg".to_string()));
    assert_eq!(profile_not_found(500, "A#B"), None);
    assert_eq!(profile_not_found(200, "A#B"), None);
}

#[test]
fn numbers_before_a_suffix() {
    assert_eq!(number_before("34Win 35Lose", "Lose"), Some(35));
    assert_eq!(number_before("34Win 35Lose", "Win"), Some(34));
    assert_eq!(number_before("Diamond 1 1 75LP", "LP"), Some(75));
    assert_eq!(number_before("abc", "x"), None);
    assert_eq!(number_before("no digits Win", "Win"), None);
    assert_eq!(number_before("99999999999999999999LP", "LP"), None);
    assert_eq!(number_before("9223372036854775807LP", "LP"), Some(i64::MAX));
}

#[test]
fn entities_are_decoded_in_order() {
    assert_eq!(html_decode("A&amp;B"), "A&B");
    assert_eq!(
        html_decode("&amp;lt;b&amp;gt; &quot;hi&quot; &#39;x&#39;&nbsp;y"),
        "<b> \"hi\" 'x' y"
    );
    assert_eq!(html_decode("plain"), "plain");
}

#[test]
fn meta_description_in_either_attribute_order() {
    assert_eq!(extract_meta_description(&page()), Some(DESC.to_string()));
    let named = "<meta name=\"description\" content=\"A&amp;B#EUW / Gold 2 10LP / 1Win 1Lose\">";
    assert_eq!(extract_meta_description(named), Some("A&B#EUW / Gold 2 10LP / 1Win 1Lose".to_string()));
    let reversed = "<meta content=\"X#1 / Gold 4 10LP / 1Win 2Lose\" property=\"og:description\">";
    assert_eq!(extract_meta_description(reversed), Some("X#1 / Gold 4 10LP / 1Win 2Lose".to_string()));
    let empty = "<meta property=\"og:description\" content=\"\">";
    assert_eq!(extract_meta_description(empty), None);
    assert_eq!(extract_meta_description("<html></html>"), None);
}

#[test]
fn profile_icon_up_to_the_quote() {
    assert_eq!(extract_profile_icon(&page()), Some(ICON.to_string()));
    let single = "<img src='https://opgg-static.akamaized.net/meta/images/profile_icons/p1.jpg'>";
    assert_eq!(
        extract_profile_icon(single),
        Some("https://opgg-static.akamaized.net/meta/images/profile_icons/p1.jpg".to_string())
    );
    assert_eq!(extract_profile_icon("https://opgg-static.akamaized.net/meta/images/profile_icons/p1.jpg"), None);
    assert_eq!(extract_profile_icon("<img src=\"x\">"), None);
}

#[test]
fn level_follows_the_build_number() {
    assert_eq!(extract_level(&page()), Some(512));
    assert_eq!(extract_level("f_png,w_200&v=1772770973\">12345 and 77<"), Some(77));
    assert_eq!(extract_level("f_png,w_200 level 30 then 1772770973 x"), None);
    assert_eq!(extract_level("no marker 1772770973 30 "), None);
    assert_eq!(extract_level("f_png,w_200&v=1772770973 0 and 40"), Some(40));
    assert_eq!(extract_level("f_png,w_200&v=1772770973 77"), Some(77));
    assert_eq!(extract_level("f_png,w_200&v=1772770973 0"), None);
    assert_eq!(extract_level("f_png,w_200 77"), None);
    let far = format!("f_png,w_200&v=1772770973{} 30 ", " ".repeat(400));
    assert_eq!(extract_level(&far), None);
}

#[test]
fn rank_from_description() {
    assert_eq!(rank(&parse_rank_from_description(DESC)), ("DIAMOND".into(), "I".into(), 75, 34, 35));
    assert_eq!(
        rank(&parse_rank_from_description("X / Master 250LP / 10Win 5Lose")),
        ("MASTER".into(), "".into(), 250, 10, 5)
    );
    assert_eq!(
        rank(&parse_rank_from_description("X / Grandmaster 600LP / 1Win 1Lose")),
        ("GRANDMASTER".into(), "".into(), 600, 1, 1)
    );
    assert_eq!(
        rank(&parse_rank_from_description("X / Silver IV 0LP / 0Win 0Lose")),
        ("SILVER".into(), "IV".into(), 0, 0, 0)
    );
    assert_eq!(
        rank(&parse_rank_from_description("X / platinum iii 12LP / 5Win 5Lose")),
        ("PLATINUM".into(), "III".into(), 12, 5, 5)
    );
    assert_eq!(
        rank(&parse_rank_from_description("X / Emerald 2 55LP / Win Lose")),
        ("EMERALD".into(), "II".into(), 55, 0, 0)
    );
    assert_eq!(rank(&parse_rank_from_description("X / Bronze / 3Win 4Lose")), ("BRONZE".into(), "".into(), 0, 3, 4));
}

#[test]
fn unranked_descriptions() {
    let unranked = ("UNRANKED".to_string(), String::new(), 0, 0, 0);
    assert_eq!(rank(&RankInfo::unranked()), unranked);
    assert_eq!(rank(&parse_rank_from_description("X / Unranked")), unranked);
    assert_eq!(rank(&parse_rank_from_description("X / Unranked / 0Win 0Lose")), unranked);
    assert_eq!(rank(&parse_rank_from_description("")), unranked);
}

#[test]
fn divisions_after_the_tier_word() {
    assert_eq!(extract_division("Diamond 1 1 75LP", "DIAMOND"), "I");
    assert_eq!(extract_division("Gold 4 10LP", "GOLD"), "IV");
    assert_eq!(extract_division("Iron III", "IRON"), "III");
    assert_eq!(extract_division("Master 1 200LP", "MASTER"), "");
    assert_eq!(extract_division("Gold V", "GOLD"), "");
    assert_eq!(extract_division("Gold", "GOLD"), "");
}

#[test]
fn top_three_champions() {
    let champs = parse_champions_from_description(DESC);
    let got: Vec<(String, i64, i64)> = champs.iter().map(|c| (c.name.clone(), c.wins, c.losses)).collect();
    assert_eq!(got, vec![("Yasuo".into(), 4, 7), ("Hwei".into(), 6, 1), ("Ahri".into(), 0, 0)]);
    assert!(parse_champions_from_description("A / B / C").is_empty());
    let odd = parse_champions_from_description("A / B / C /  Lux  - 2Win 1Lose, no dash here, Ezreal - x");
    let got: Vec<(String, i64, i64)> = odd.iter().map(|c| (c.name.clone(), c.wins, c.losses)).collect();
    assert_eq!(got, vec![("Lux".into(), 2, 1), ("Ezreal".into(), 0, 0)]);
}

#[test]
fn stats_from_a_profile_page() {
    let st = stats_from_html(&page(), "2024-01-01T00:00:00.000Z".to_string()).unwrap();
    assert_eq!(st.icon_url.as_deref(), Some(ICON));
    assert_eq!(st.summoner_level, Some(512));
    assert_eq!(rank(&st.solo), ("DIAMOND".into(), "I".into(), 75, 34, 35));
    assert_eq!(rank(&st.flex), ("UNRANKED".into(), "".into(), 0, 0, 0));
    assert_eq!(st.top_champions.len(), 3);
    assert_eq!(st.fetched_at, "2024-01-01T00:00:00.000Z");
}

#[test]
fn blocked_page_is_an_error() {
    let msg = "Could not read op.gg stats \u{2014} Cloudflare may be blocking the request. Try again in a moment.";
    assert_eq!(stats_from_html("<html>Just a moment...</html>", String::new()).err(), Some(msg.to_string()));
    assert_eq!(parse_from_html("<html></html>", "A#B").err(), Some(msg.to_string()));
}

#[test]
fn parsed_page_is_stamped_now() {
    let st = parse_from_html(&page(), "Mikiri#prlzd").unwrap();
    assert_eq!(st.fetched_at.len(), 24);
    assert!(st.fetched_at.ends_with(".000Z"));
    let st = parse_profile_page(&page(), "Mikiri#prlzd").unwrap().unwrap();
    assert_eq!(st.summoner_level, Some(512));
}

#[test]
fn pages_cut_inside_a_character_are_refused() {
    let bad = format!("{}xog:description", "é".repeat(100));
    assert!(!html_parse_ok(&bad));
    assert!(parse_profile_page(&bad, "A#B").is_none());
    assert!(html_parse_ok(&page()));
    let fine = format!("{}og:description", "é".repeat(100));
    assert!(html_parse_ok(&fine));
    assert_eq!(parse_profile_page(&fine, "A#B").map(|r| r.is_err()), Some(true));
}

#[test]
fn games_are_wins_plus_losses() {
    let champs = parse_champions_from_description(DESC);
    let games: Vec<i64> = champs.iter().map(|c| c.games()).collect();
    assert_eq!(games, vec![11, 7, 0]);
    assert_eq!(parse_rank_from_description(DESC).games(), 69);
    assert_eq!(RankInfo::unranked().games(), 0);
}
