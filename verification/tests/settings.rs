use ignite_server::json::{jstr, parse_json, to_value, Json};
use ignite_server::settings_routes::{
    data_root_of, merge_clean, parse_list, persist_failed, persisted_text, plugin_toggle,
    settings_file, settings_json, version_json, Settings, SettingsState, SettingsVars,
};

fn no_vars() -> SettingsVars {
    SettingsVars { data_root: None, write_coalesce_ms: None, ws_origins: None, proxy_allow_private: None }
}

fn fresh() -> SettingsState {
    SettingsState::load("data".to_string(), &no_vars(), None)
}

fn body(text: &str) -> Json {
    parse_json(text).unwrap()
}

fn refused(text: &str) -> String {
    let f = fresh().propose(&body(text)).err().unwrap();
    assert_eq!(f.status, 400);
    f.message
}

#[test]
fn get_settings_returns_defaults() {
    let v = to_value(&settings_json(&fresh().snapshot()));
    assert_eq!(v["contentCacheBytes"], 52_428_800);
    assert_eq!(v["inputCacheBytes"], 209_715_200);
    assert_eq!(v["proxyMode"], "any");
    assert!(v["proxyAllowlist"].is_array());
    assert!(v["directFetchHosts"].is_array());
    assert_eq!(v["writeCoalesceMs"], 0);
    assert_eq!(v["inputCacheTtlMs"], 300_000);
    assert_eq!(v["maxBodyBytes"], 52_428_800);
    assert_eq!(v.as_object().unwrap().len(), 10);
}

#[test]
fn post_valid_persists_and_round_trips() {
    let mut state = fresh();
    let update = state
        .propose(&body(r#"{"proxyMode":"disabled","maxBodyBytes":1234}"#))
        .ok()
        .unwrap();
    let file = persisted_text(update.settings());
    state.commit(update);
    let v = to_value(&settings_json(&state.snapshot()));
    assert_eq!(v["proxyMode"], "disabled");
    assert_eq!(v["maxBodyBytes"], 1234);
    let again = SettingsState::load("data".to_string(), &no_vars(), Some(&file));
    let v2 = to_value(&settings_json(&again.snapshot()));
    assert_eq!(v2["proxyMode"], "disabled");
    assert_eq!(v2["maxBodyBytes"], 1234);
    assert_eq!(v, v2);
}

#[test]
fn post_invalid_proxy_mode_400() {
    assert_eq!(
        refused(r#"{"proxyMode":"bogus"}"#),
        "proxyMode must be one of: any, allowlist, disabled"
    );
    assert_eq!(
        refused(r#"{"proxyMode":7}"#),
        "proxyMode must be one of: any, allowlist, disabled"
    );
}

#[test]
fn post_invalid_maxbody_400() {
    let message = "maxBodyBytes must be between 1 and 524288000";
    assert_eq!(refused(r#"{"maxBodyBytes":0}"#), message);
    assert_eq!(refused(r#"{"maxBodyBytes":524288001}"#), message);
    assert!(fresh().propose(&body(r#"{"maxBodyBytes":524288000}"#)).is_ok());
}

#[test]
fn other_invalid_changes_are_refused() {
    assert_eq!(refused("[]"), "body must be an object");
    assert_eq!(
        refused(r#"{"inputCacheTtlMs":-1}"#),
        "inputCacheTtlMs must be a non-negative integer"
    );
    assert_eq!(
        refused(r#"{"contentCacheBytes":1.5}"#),
        "contentCacheBytes must be a non-negative integer"
    );
    assert_eq!(
        refused(r#"{"proxyAllowlist":["a"," "]}"#),
        "proxyAllowlist must be an array of non-empty strings"
    );
    assert_eq!(
        refused(r#"{"directFetchHosts":"a"}"#),
        "directFetchHosts must be an array of non-empty strings"
    );
}

#[test]
fn a_change_counts_up_to_its_first_invalid_member() {
    let mut s = Settings::default();
    let r = merge_clean(
        &mut s,
        &body(r#"{"proxyMode":"allowlist","inputCacheBytes":5,"writeCoalesceMs":"x","maxBodyBytes":9}"#),
    );
    assert_eq!(r, Err("writeCoalesceMs must be a non-negative integer".to_string()));
    assert_eq!(s.proxy_mode, "allowlist");
    assert_eq!(s.input_cache_bytes, 5);
    assert_eq!(s.max_body_bytes, 52_428_800);
}

#[test]
fn a_refused_change_leaves_the_settings() {
    let state = fresh();
    assert!(state.propose(&body(r#"{"proxyMode":"disabled","maxBodyBytes":0}"#)).is_err());
    assert_eq!(state.snapshot().proxy_mode, "any");
}

#[test]
fn lists_are_trimmed() {
    let mut s = Settings::default();
    let r = merge_clean(&mut s, &body(r#"{"proxyAllowlist":[" a.example ","b"],"directFetchHosts":[]}"#));
    assert_eq!(r, Ok(()));
    assert_eq!(s.proxy_allowlist, vec!["a.example".to_string(), "b".to_string()]);
    assert!(s.direct_fetch_hosts.is_empty());
    assert_eq!(parse_list(" a, ,b ,"), vec!["a".to_string(), "b".to_string()]);
}

#[test]
fn lists_read_item_by_item() {
    for a in ["", " a, ,b ,", ",,", "x y,z"] {
        for b in ["", "c", " , d ,e"] {
            let both = parse_list(&format!("{a},{b}"));
            let apart: Vec<String> = parse_list(a).into_iter().chain(parse_list(b)).collect();
            assert_eq!(both, apart);
        }
        assert_eq!(parse_list(&parse_list(a).join(",")), parse_list(a));
    }
    assert_eq!(parse_list("x y,z, w"), vec!["x y".to_string(), "z".to_string(), "w".to_string()]);
}

#[test]
fn environment_only_settings_are_neither_changed_nor_persisted() {
    let vars = SettingsVars {
        data_root: Some("/srv/data".to_string()),
        write_coalesce_ms: Some("250".to_string()),
        ws_origins: Some("http://a, http://b".to_string()),
        proxy_allow_private: Some("10.0.0.0/8".to_string()),
    };
    let state = SettingsState::from_env(&vars, Some(r#"{"wsOrigins":["x"],"writeCoalesceMs":3}"#));
    let s = state.snapshot();
    assert_eq!(s.ws_origins, vec!["http://a".to_string(), "http://b".to_string()]);
    assert_eq!(s.proxy_allow_private, vec!["10.0.0.0/8".to_string()]);
    assert_eq!(s.write_coalesce_ms, 3);
    assert_eq!(state.data_root(), "/srv/data");
    assert_eq!(state.settings_path(), "/srv/data/server-settings.json");
    let file = to_value(&body(&persisted_text(&s)));
    assert!(file.get("wsOrigins").is_none());
    assert!(file.get("proxyAllowPrivate").is_none());
    assert_eq!(file.as_object().unwrap().len(), 8);
    let same = state.propose(&body(r#"{"wsOrigins":[],"proxyAllowPrivate":["y"]}"#)).ok().unwrap();
    assert_eq!(same.settings().ws_origins.len(), 2);
}

#[test]
fn odd_environments_and_files_are_survived() {
    let mut vars = no_vars();
    vars.write_coalesce_ms = Some("many".to_string());
    assert_eq!(data_root_of(&vars), "./data");
    let state = SettingsState::from_env(&vars, Some("not json"));
    assert_eq!(state.snapshot().write_coalesce_ms, 0);
    assert_eq!(state.data_root(), "./data");
    let part = SettingsState::from_env(&vars, Some(r#"{"proxyMode":"disabled","maxBodyBytes":0}"#));
    assert_eq!(part.snapshot().proxy_mode, "disabled");
    assert_eq!(part.snapshot().max_body_bytes, 52_428_800);
    assert_eq!(settings_file(""), "server-settings.json");
}

#[test]
fn version_has_three_fields() {
    let v = to_value(&version_json(None, None, None, "0.1.0"));
    assert_eq!(v["version"], "0.1.0");
    assert_eq!(v["build"], "dev");
    assert_eq!(v["obsidianVersion"], "1.12.7");
    let v = to_value(&version_json(Some("2"), Some("b7"), Some("1.0"), "0.1.0"));
    assert_eq!(v["version"], "2");
    assert_eq!(v["build"], "b7");
    assert_eq!(v["obsidianVersion"], "1.0");
}

#[test]
fn plugin_enable_unknown_is_error() {
    let f = plugin_toggle("whatever", &body(r#"{"vault":"Games"}"#));
    assert_eq!(f.status, 400);
    assert_eq!(f.message, "Unknown plugin: whatever");
    let f = plugin_toggle("whatever", &body(r#"{"vault":""}"#));
    assert_eq!(f.message, "Missing vault ID");
    assert_eq!(plugin_toggle("x", &jstr("y")).message, "Missing vault ID");
    let v = to_value(&f.body());
    assert_eq!(v["error"], "Missing vault ID");
}

#[test]
fn a_failed_write_is_reported() {
    let f = persist_failed("disk full");
    assert_eq!(f.status, 500);
    assert_eq!(f.message, "failed to persist settings: disk full");
}
