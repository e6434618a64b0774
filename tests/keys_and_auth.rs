use spider::keys::{decrypt_key, encrypt_key, is_oauth_token, preview_key};
use spider::types::{SpiderApiKey, SpiderError, SpiderState};

fn key(k: &str, perms: &[&str]) -> SpiderApiKey {
    SpiderApiKey {
        key: k.to_string(),
        name: format!("{} key", k),
        permissions: perms.iter().map(|p| p.to_string()).collect(),
        created_at: 1,
    }
}

fn admin_state() -> SpiderState {
    let mut state = SpiderState::default();
    state.spider_api_keys.push(key("sp_admin", &["admin", "read", "write", "chat"]));
    state.spider_api_keys.push(key("sp_reader", &["read"]));
    state
}

#[test]
fn encryption_uses_standard_base64() {
    assert_eq!(encrypt_key("test_key_123"), "encrypted:dGVzdF9rZXlfMTIz");
    assert_eq!(encrypt_key(""), "encrypted:");
    assert_eq!(decrypt_key("encrypted:dGVzdF9rZXlfMTIz"), "test_key_123");
}

#[test]
fn decrypt_of_encrypt_round_trips() {
    for k in ["", "a", "sk-ant-api03-xyz", "clé-ünïcödé", "with spaces and = signs"] {
        assert_eq!(decrypt_key(&encrypt_key(k)), k);
    }
}

#[test]
fn decrypt_passes_plain_keys_and_empties_bad_payloads() {
    assert_eq!(decrypt_key("plain-key"), "plain-key");
    assert_eq!(decrypt_key("encrypted:!!!not base64"), "");
    assert_eq!(decrypt_key("encrypted:/w=="), "");
}

#[test]
fn preview_shows_twenty_characters() {
    assert_eq!(preview_key("encrypted:0123456789abcdef"), "encrypted:0123456789...");
    assert_eq!(preview_key("exactly-twenty-chars"), "***");
    assert_eq!(preview_key(""), "***");
}

#[test]
fn oauth_recognizer() {
    assert!(is_oauth_token("sk-ant-oat01-abcdef"));
    assert!(is_oauth_token("x-y-oat99"));
    assert!(!is_oauth_token("sk-ant-api03-abcdef"));
    assert!(!is_oauth_token("sk-ant-oat1-abcdef"));
    assert!(!is_oauth_token("sk-ant-oatx1-abcdef"));
    assert!(!is_oauth_token("oat01"));
    assert!(!is_oauth_token("a-oat01"));
    assert!(!is_oauth_token("a-b-c-oat01"));
    assert!(!is_oauth_token("sk-ant-oat1é"));
    assert!(!is_oauth_token("a-b-oat012"));
    assert!(!is_oauth_token("a-b-oat01x-c"));
    assert!(is_oauth_token("a-b-oat01-c-d"));
}

#[test]
fn oauth_tokens_grant_all_but_admin() {
    let state = SpiderState::default();
    let token = "sk-ant-oat01-zzz";
    assert!(state.validate_spider_key(token));
    assert!(state.validate_permission(token, "write"));
    assert!(state.validate_permission(token, "read"));
    assert!(!state.validate_permission(token, "admin"));
    assert!(!state.validate_admin_key(token));
}

#[test]
fn provider_keys_are_replaced_listed_and_removed() {
    let mut state = admin_state();
    assert!(matches!(state.set_api_key_at("anthropic", "k1", "sp_reader", 5), Err(SpiderError::WriteDenied)));
    let msg = state.set_api_key_at("anthropic", "k1", "sp_admin", 5).unwrap();
    assert_eq!(msg, "API key for anthropic set successfully");
    state.set_api_key_at("openai", "k2", "sp_admin", 6).unwrap();
    state.set_api_key_at("anthropic", "k3", "sp_admin", 7).unwrap();
    assert_eq!(state.api_keys.len(), 2);
    assert_eq!(state.api_keys[0].0, "openai");
    assert_eq!(state.api_keys[1].0, "anthropic");
    assert_eq!(decrypt_key(&state.api_keys[1].1.key), "k3");
    assert_eq!(state.api_keys[1].1.created_at, 7);

    let listed = state.list_api_keys("sp_reader").unwrap();
    assert_eq!(listed.len(), 2);
    assert_eq!(listed[1].provider, "anthropic");
    assert_eq!(listed[1].key_preview, "***");
    assert!(matches!(state.list_api_keys("nobody"), Err(SpiderError::ReadDenied)));

    assert_eq!(state.remove_api_key("openai", "sp_admin").unwrap(), "API key for openai removed");
    match state.remove_api_key("openai", "sp_admin") {
        Err(e) => assert_eq!(e.message(), "No API key found for provider: openai"),
        Ok(_) => panic!("removed twice"),
    }
    assert_eq!(state.api_keys.len(), 1);
}

#[test]
fn spider_key_create_list_revoke() {
    let mut state = admin_state();
    let perms = vec!["chat".to_string()];
    let created = state
        .create_spider_key_with("bot", &perms, "sp_admin", false, "67e55044-10b1-426f-9247-bb680e5fe0c8", 9)
        .unwrap();
    assert_eq!(created.key, "sp_67e5504410b1426f9247bb680e5fe0c8");
    assert_eq!(created.created_at, 9);

    let listed = state.list_spider_keys("sp_admin").unwrap();
    assert!(listed.iter().any(|k| k.key == created.key));
    let again = state.list_spider_keys("sp_admin").unwrap();
    assert_eq!(listed.len(), again.len());

    assert_eq!(
        state.revoke_spider_key(&created.key, "sp_admin").unwrap(),
        format!("Spider API key {} revoked", created.key)
    );
    let listed = state.list_spider_keys("sp_admin").unwrap();
    assert!(!listed.iter().any(|k| k.key == created.key));
    match state.revoke_spider_key(&created.key, "sp_admin") {
        Err(SpiderError::SpiderKeyNotFound(id)) => assert_eq!(id, created.key),
        _ => panic!("expected not found"),
    }
}

#[test]
fn random_spider_keys_have_the_sp_shape() {
    let mut state = admin_state();
    let k = state.create_spider_key("bot", &vec![], "sp_admin", false).unwrap();
    assert!(k.key.starts_with("sp_"));
    assert_eq!(k.key.len(), 35);
    assert!(k.key[3..].chars().all(|c| c.is_ascii_hexdigit() && !c.is_ascii_uppercase()));
    let other = state.create_spider_key("bot", &vec![], "sp_admin", false).unwrap();
    assert_ne!(k.key, other.key);
}

#[test]
fn admin_operations_need_an_admin_key() {
    let mut state = admin_state();
    assert!(matches!(state.create_spider_key("x", &vec![], "sp_reader", false), Err(SpiderError::NotAdmin)));
    assert!(state.create_spider_key("x", &vec![], "sp_reader", true).is_ok());
    assert!(matches!(state.list_spider_keys("sk-ant-oat01-x"), Err(SpiderError::NotAdmin)));
    assert!(matches!(state.revoke_spider_key("sp_admin", "sp_reader"), Err(SpiderError::NotAdmin)));
    assert_eq!(SpiderError::NotAdmin.message(), "Unauthorized: Invalid or non-admin Spider API key");
}

#[test]
fn admin_gui_key_is_minted_once() {
    let mut state = SpiderState::default();
    let k = state.ensure_admin_gui_key_with("67e55044-10b1-426f-9247-bb680e5fe0c8", 3);
    assert_eq!(k, "sp_admin_gui_key_67e5504410b1426f9247bb68");
    assert_eq!(state.spider_api_keys[0].permissions, vec!["chat", "read", "write", "admin"]);
    let again = state.ensure_admin_gui_key_with("11111111-2222-4333-8444-555555555555", 4);
    assert_eq!(again, k);
    assert_eq!(state.spider_api_keys.len(), 1);
    assert_eq!(state.get_admin_key().unwrap(), k);
    assert!(state.validate_admin_key(&k));
    let fresh = SpiderState::default();
    assert!(matches!(fresh.get_admin_key(), Err(SpiderError::NoAdminGuiKey)));
}

#[test]
fn trial_key_is_installed_only_without_keys() {
    let mut state = SpiderState::default();
    assert!(state.install_trial_key("trial", 1));
    assert!(state.show_trial_key_notification);
    assert_eq!(decrypt_key(&state.api_keys[0].1.key), "trial");
    assert_eq!(state.api_keys[0].1.provider, "anthropic");
    assert!(state.api_keys[0].1.last_used.is_none());
    assert!(!state.install_trial_key("other", 2));
    assert_eq!(state.api_keys.len(), 1);
    assert!(state.get_trial_notification().show);
    assert_eq!(state.dismiss_trial_notification(true), "Trial notification permanently dismissed");
    assert!(!state.get_trial_notification().show);
}
