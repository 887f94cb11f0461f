use vaultx::session::{AccountUpdates, NewAccount, SessionState, VaultData};

fn new_account(label: &str, password: &str) -> NewAccount {
    NewAccount {
        label: label.to_string(),
        username: format!("{label}_user"),
        password: password.to_string(),
        riot_id: format!("{label}#EUW"),
        region: "EUW".to_string(),
    }
}

fn no_updates() -> AccountUpdates {
    AccountUpdates { label: None, username: None, password: None, riot_id: None, region: None, stats: None }
}

fn unlocked() -> SessionState {
    let mut s = SessionState::new();
    s.set(vec![1u8; 32], "00".repeat(32), VaultData { accounts: Vec::new() });
    s
}

fn is_uuid_v4_text(s: &str) -> bool {
    let b = s.as_bytes();
    b.len() == 36
        && [8, 13, 18, 23].iter().all(|&i| b[i] == b'-')
        && b.iter().enumerate().all(|(i, c)| [8, 13, 18, 23].contains(&i) || (c.is_ascii_hexdigit() && !c.is_ascii_uppercase()))
        && b[14] == b'4'
}

#[test]
fn locked_session_refuses_everything() {
    let mut s = SessionState::new();
    assert!(!s.is_authenticated());
    assert_eq!(s.require_auth(), Err("Not authenticated".to_string()));
    assert_eq!(s.get_all().err(), Some("Not authenticated".to_string()));
    assert_eq!(s.add_account(new_account("a", "pw")), Some(Err("Not authenticated".to_string())));
    assert_eq!(s.get_password(&"x".to_string()), Err("Not authenticated".to_string()));
    assert_eq!(s.update_account(&"x".to_string(), no_updates()), Err("Not authenticated".to_string()));
    assert_eq!(s.delete_account(&"x".to_string()), Err("Not authenticated".to_string()));
    assert_eq!(s.require_account(&"x".to_string()), Err("Not authenticated".to_string()));
    assert_eq!(s.refresh_targets().err(), Some("Not authenticated".to_string()));
    assert!(s.vault.is_none());
}

#[test]
fn added_account_gets_uuid_and_is_found() {
    let mut s = unlocked();
    let id = s.add_account(new_account("main", "s3cret")).unwrap().unwrap();
    assert!(matches!(id.as_bytes()[19], b'8' | b'9' | b'a' | b'b'));
    let other = s.add_account(new_account("alt", "x")).unwrap().unwrap();
    assert_ne!(id, other);
    assert!(is_uuid_v4_text(&id));
    assert_eq!(s.get_password(&id), Ok("s3cret".to_string()));
    let all = s.get_all().unwrap();
    assert_eq!(all.len(), 2);
    assert_eq!(all[0].id, id);
    assert_eq!(all[0].label, "main");
    assert_eq!(all[0].username, "main_user");
    assert_eq!(all[0].riot_id, "main#EUW");
    assert_eq!(all[0].region, "EUW");
    assert_eq!(all[0].stats, None);
    let created = &s.vault.as_ref().unwrap().accounts[0].created_at;
    assert_eq!(created.len(), 24);
    assert!(created.ends_with(".000Z"));
}

#[test]
fn pushed_account_keeps_given_id_and_time() {
    let mut s = unlocked();
    let r = s.push_account(new_account("a", "p"), "id-1".to_string(), "2024-01-01T00:00:00.000Z".to_string());
    assert_eq!(r, Ok("id-1".to_string()));
    let a = &s.vault.as_ref().unwrap().accounts[0];
    assert_eq!(a.created_at, "2024-01-01T00:00:00.000Z");
    assert_eq!(a.password, "p");
}

#[test]
fn unknown_account_is_not_found() {
    let mut s = unlocked();
    s.push_account(new_account("a", "p"), "id-1".to_string(), "t".to_string()).unwrap();
    let missing = "nope".to_string();
    assert_eq!(s.get_password(&missing), Err("Account not found".to_string()));
    assert_eq!(s.update_account(&missing, no_updates()), Err("Account not found".to_string()));
    assert_eq!(s.stats_target(&missing), Err("Account not found".to_string()));
    assert_eq!(s.require_account(&missing), Err("Account not found".to_string()));
    assert_eq!(s.require_account(&"id-1".to_string()), Ok(()));
}

#[test]
fn update_changes_given_fields_and_keeps_empty_password() {
    let mut s = unlocked();
    s.push_account(new_account("a", "old"), "id-1".to_string(), "t".to_string()).unwrap();
    let id = "id-1".to_string();
    let u = AccountUpdates {
        label: Some("renamed".to_string()),
        password: Some(String::new()),
        region: Some("NA".to_string()),
        stats: Some("{\"x\":1}".to_string()),
        ..no_updates()
    };
    assert_eq!(s.update_account(&id, u), Ok(()));
    let a = &s.vault.as_ref().unwrap().accounts[0];
    assert_eq!(a.label, "renamed");
    assert_eq!(a.password, "old");
    assert_eq!(a.username, "a_user");
    assert_eq!(a.region, "NA");
    assert_eq!(a.stats.as_deref(), Some("{\"x\":1}"));
    assert_eq!(a.id, "id-1");
    let u = AccountUpdates { password: Some("new".to_string()), ..no_updates() };
    s.update_account(&id, u).unwrap();
    assert_eq!(s.get_password(&id), Ok("new".to_string()));
}

#[test]
fn delete_removes_every_account_with_the_id() {
    let mut s = unlocked();
    s.push_account(new_account("a", "1"), "x".to_string(), "t".to_string()).unwrap();
    s.push_account(new_account("b", "2"), "y".to_string(), "t".to_string()).unwrap();
    s.push_account(new_account("c", "3"), "x".to_string(), "t".to_string()).unwrap();
    assert_eq!(s.delete_account(&"x".to_string()), Ok(()));
    let all = s.get_all().unwrap();
    assert_eq!(all.len(), 1);
    assert_eq!(all[0].id, "y");
    assert_eq!(s.get_password(&"x".to_string()), Err("Account not found".to_string()));
    assert_eq!(s.delete_account(&"missing".to_string()), Ok(()));
    assert_eq!(s.get_all().unwrap().len(), 1);
}

#[test]
fn first_account_with_an_id_wins() {
    let mut s = unlocked();
    s.push_account(new_account("a", "first"), "dup".to_string(), "t".to_string()).unwrap();
    s.push_account(new_account("b", "second"), "dup".to_string(), "t".to_string()).unwrap();
    assert_eq!(s.get_password(&"dup".to_string()), Ok("first".to_string()));
}

#[test]
fn stats_are_recorded_per_account() {
    let mut s = unlocked();
    s.push_account(new_account("a", "1"), "x".to_string(), "t".to_string()).unwrap();
    s.push_account(new_account("b", "2"), "y".to_string(), "t".to_string()).unwrap();
    assert_eq!(s.stats_target(&"y".to_string()), Ok(("b#EUW".to_string(), "EUW".to_string())));
    let targets = s.refresh_targets().unwrap();
    assert_eq!(
        targets,
        vec![
            ("x".to_string(), "a#EUW".to_string(), "EUW".to_string()),
            ("y".to_string(), "b#EUW".to_string(), "EUW".to_string()),
        ]
    );
    let ok = s.record_refresh(&"y".to_string(), Ok("{\"solo\":1}".to_string()));
    assert_eq!(ok.id, "y");
    assert!(ok.success);
    assert_eq!(ok.stats.as_deref(), Some("{\"solo\":1}"));
    assert_eq!(ok.error, None);
    assert_eq!(s.vault.as_ref().unwrap().accounts[1].stats.as_deref(), Some("{\"solo\":1}"));
    let bad = s.record_refresh(&"x".to_string(), Err("op.gg returned HTTP 500".to_string()));
    assert!(!bad.success);
    assert_eq!(bad.stats, None);
    assert_eq!(bad.error.as_deref(), Some("op.gg returned HTTP 500"));
    assert_eq!(s.vault.as_ref().unwrap().accounts[0].stats, None);
    s.set_stats(&"x".to_string(), "{}".to_string());
    assert_eq!(s.vault.as_ref().unwrap().accounts[0].stats.as_deref(), Some("{}"));
}

#[test]
fn lock_clears_the_session() {
    let mut s = unlocked();
    s.push_account(new_account("a", "1"), "x".to_string(), "t".to_string()).unwrap();
    s.clear();
    assert!(!s.is_authenticated());
    assert!(s.key.is_none() && s.salt.is_none() && s.vault.is_none());
    assert_eq!(s.get_password(&"x".to_string()), Err("Not authenticated".to_string()));
}
