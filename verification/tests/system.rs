use vaultx::system::{
    check_external_url, elevation_command, find_lockfile_path, find_riot_client_path, launch_with_account,
    lockfile_candidates, riot_client_candidates, startup_action, task_file_bytes, task_xml, utf16_le_bytes,
    LaunchAccount, StartupAction, TASK_XML_HEAD, TASK_XML_TAIL,
};

#[test]
fn only_known_sites_open() {
    for ok in [
        "https://www.op.gg/summoners/euw/x",
        "https://u.gg/",
        "https://tracker.gg/lol",
        "https://github.com/paralysisx/MANACC/releases/tag/v1",
        "https://github.com/paralysisx/MANACC/releasesXYZ",
        "https://objects.githubusercontent.com/a",
        "https://release-assets.githubusercontent.com/b",
    ] {
        assert_eq!(check_external_url(ok), Ok(()), "{ok}");
    }
    for bad in ["https://evil.com", "http://www.op.gg/", "https://www.op.gg", "https://github.com/paralysisx/MANACC", ""] {
        assert_eq!(check_external_url(bad), Err("URL not allowed".to_string()), "{bad}");
    }
}

#[test]
fn startup_decisions() {
    assert_eq!(startup_action(true, false), StartupAction::CreateTaskThenRun);
    assert_eq!(startup_action(true, true), StartupAction::Run);
    assert_eq!(startup_action(false, true), StartupAction::RunTask);
    assert_eq!(startup_action(false, false), StartupAction::Elevate);
}

#[test]
fn task_xml_escapes_the_path() {
    let plain = task_xml("C:\\Program Files\\VaultX\\vaultx.exe");
    assert_eq!(plain, format!("{TASK_XML_HEAD}C:\\Program Files\\VaultX\\vaultx.exe{TASK_XML_TAIL}"));
    assert!(plain.starts_with("<?xml version=\"1.0\" encoding=\"UTF-16\"?><Task version=\"1.2\""));
    assert!(plain.contains("<RunLevel>HighestAvailable</RunLevel>"));
    assert!(plain.ends_with("</Command></Exec></Actions></Task>"));
    let odd = task_xml("a&b<c>\"d'e");
    assert_eq!(odd, format!("{TASK_XML_HEAD}a&amp;b&lt;c&gt;&quot;d&apos;e{TASK_XML_TAIL}"));
}

#[test]
fn utf16_le_with_bom() {
    assert_eq!(utf16_le_bytes(""), vec![0xFF, 0xFE]);
    assert_eq!(
        utf16_le_bytes("A\u{20AC}\u{1F600}"),
        vec![0xFF, 0xFE, 0x41, 0x00, 0xAC, 0x20, 0x3D, 0xD8, 0x00, 0xDE]
    );
    let text = "Zoë \u{10FFFF} \u{FFFF}";
    let mut expected = vec![0xFF, 0xFE];
    for u in text.encode_utf16() {
        expected.extend_from_slice(&u.to_le_bytes());
    }
    assert_eq!(utf16_le_bytes(text), expected);
}

#[test]
fn task_file_is_the_xml_in_utf16() {
    let exe = "C:\\Users\\Zoë\\VaultX.exe";
    let mut expected = vec![0xFF, 0xFE];
    for u in task_xml(exe).encode_utf16() {
        expected.extend_from_slice(&u.to_le_bytes());
    }
    assert_eq!(task_file_bytes(exe), expected);
}

#[test]
fn powershell_relaunch_command() {
    assert_eq!(elevation_command("C:\\a.exe"), "Start-Process 'C:\\a.exe' -Verb RunAs");
    assert_eq!(elevation_command("C:\\it's\\a.exe"), "Start-Process 'C:\\it''s\\a.exe' -Verb RunAs");
}

#[test]
fn riot_client_search_order() {
    let c = riot_client_candidates(Some("D:\\Riot\\RiotClientServices.exe".to_string()));
    assert_eq!(
        c,
        vec![
            "D:\\Riot\\RiotClientServices.exe".to_string(),
            "C:\\Riot Games\\Riot Client\\RiotClientServices.exe".to_string(),
            "C:\\Program Files\\Riot Games\\Riot Client\\RiotClientServices.exe".to_string(),
            "C:\\Program Files (x86)\\Riot Games\\Riot Client\\RiotClientServices.exe".to_string(),
        ]
    );
    let found = find_riot_client_path(c, &vec![false, false, true, true]);
    assert_eq!(found.as_deref(), Some("C:\\Program Files\\Riot Games\\Riot Client\\RiotClientServices.exe"));
    let c = riot_client_candidates(None);
    assert_eq!(c.len(), 3);
    assert_eq!(find_riot_client_path(c, &vec![false, false, false]), None);
}

#[test]
fn lockfile_search_order() {
    let c = lockfile_candidates(None);
    assert_eq!(
        c,
        vec![
            "C:\\Riot Games\\League of Legends\\lockfile".to_string(),
            "C:\\Program Files\\Riot Games\\League of Legends\\lockfile".to_string(),
            "C:\\Program Files (x86)\\Riot Games\\League of Legends\\lockfile".to_string(),
        ]
    );
    let c = lockfile_candidates(Some("E:\\LoL\\lockfile".to_string()));
    assert_eq!(find_lockfile_path(c, &vec![true, true, false, false]).as_deref(), Some("E:\\LoL\\lockfile"));
}

#[test]
fn launch_needs_the_riot_client() {
    let cmd = launch_with_account(&LaunchAccount {}, Some("C:\\Riot\\RiotClientServices.exe".to_string())).unwrap();
    assert_eq!(cmd.program, "C:\\Riot\\RiotClientServices.exe");
    assert_eq!(cmd.args, vec!["--launch-product=league_of_legends".to_string(), "--launch-patchline=live".to_string()]);
    assert_eq!(
        launch_with_account(&LaunchAccount {}, None).err(),
        Some("Riot Client not found. Make sure League of Legends is installed.".to_string())
    );
}
