use a2fa_daemon::handlers::hosts::{
    host_add, host_add_finish, host_param, host_remove, host_remove_finish, host_rotate,
    host_snapshot, host_toggle, host_toggle_managed, host_toggle_with_registry,
    jump_candidates_without, list_hosts, new_host, opt_bool, opt_str, ping, require_host,
    valid_host_name,
};
use a2fa_daemon::json::{parse_json, Json};
use a2fa_daemon::managers::{CredsCache, HostManagers};
use a2fa_daemon::model::{Error, Host, State, Tunnel, TunnelStatus};

fn j(text: &str) -> Json {
    parse_json(text).unwrap()
}

fn items(v: &Json) -> &Vec<Json> {
    match v {
        Json::Arr(items) => items,
        _ => panic!("not an array"),
    }
}

fn host(name: &str, active: bool) -> Host {
    Host {
        host: name.into(),
        status: "Idle".into(),
        active,
        is_master_ready: false,
        pool_index: 0,
        pool_alive: 0,
        is_mounted: false,
        last_msg: "OK".into(),
    }
}

fn make_state_with_host(name: &str, active: bool) -> State {
    let mut state = State::with_tunnels(vec![]);
    state.hosts.push(host(name, active));
    state
}

fn empty() -> State {
    State::with_tunnels(vec![])
}

#[test]
fn ping_returns_ok_pid() {
    let v = ping(17);
    assert_eq!(v.bool_at("ok"), Some(true));
    assert!(v.uint_at("pid").unwrap() > 0);
    assert_eq!(v.uint_at("pid"), Some(17));
}

#[test]
fn list_hosts_empty() {
    assert!(items(&list_hosts(&empty())).is_empty());
}

#[test]
fn list_hosts_one() {
    let state = make_state_with_host("k6", true);
    let v = list_hosts(&state);
    let arr = items(&v);
    assert_eq!(arr.len(), 1);
    assert_eq!(arr[0].str_at("host").as_deref(), Some("k6"));
}

#[test]
fn host_toggle_activates_flag_directly() {
    let mut state = make_state_with_host("k6", false);
    let r = host_toggle_with_registry(&mut state, &j(r#"{"host": "k6"}"#));
    assert!(r.result.is_ok());
    assert!(r.work.unwrap().connect);
    assert!(state.hosts[0].active);
    assert_eq!(state.hosts[0].last_msg, "Connecting…");
}

#[test]
fn host_toggle_deactivates_flag_directly() {
    let mut state = make_state_with_host("k6", true);
    let r = host_toggle_with_registry(&mut state, &j(r#"{"host": "k6"}"#));
    assert!(r.result.is_ok());
    assert!(!r.work.unwrap().connect);
    assert!(!state.hosts[0].active);
    assert_eq!(state.hosts[0].last_msg, "Deactivating…");
}

#[test]
fn a_host_switched_twice_is_as_before() {
    let mut state = make_state_with_host("k6", true);
    host_toggle_managed(&mut state, &j(r#"{"host": "k6"}"#), true);
    let r = host_toggle_managed(&mut state, &j(r#"{"host": "k6"}"#), true);
    assert!(r.work.unwrap().managed);
    assert!(state.hosts[0].active);
}

#[test]
fn host_toggle_not_found() {
    let err = host_toggle(&mut empty(), &j(r#"{"host": "ghost"}"#)).result.unwrap_err();
    assert!(matches!(err, Error::NotFound(_)));
}

#[test]
fn host_toggle_missing_host_param() {
    let err = host_toggle(&mut empty(), &j("{}")).result.unwrap_err();
    assert!(matches!(err, Error::BadParams(_)));
}

#[test]
fn host_rotate_is_noop_for_active_host() {
    let mut state = make_state_with_host("k6", true);
    state.hosts[0].pool_index = 0;
    host_rotate(&state, &j(r#"{"host": "k6"}"#)).result.unwrap();
    assert_eq!(state.hosts[0].pool_index, 0);
}

#[test]
fn host_rotate_not_active_returns_not_found() {
    let state = make_state_with_host("k6", false);
    let err = host_rotate(&state, &j(r#"{"host": "k6"}"#)).result.unwrap_err();
    assert!(matches!(err, Error::NotFound(_)));
}

#[test]
fn valid_host_name_accepts_safe_names() {
    assert!(valid_host_name("k6"));
    assert!(valid_host_name("holy_gpu01"));
    assert!(valid_host_name("node-1.cluster"));
    assert!(valid_host_name("_underscore_start"));
}

#[test]
fn valid_host_name_rejects_unsafe() {
    assert!(!valid_host_name(""));
    assert!(!valid_host_name("a/b"));
    assert!(!valid_host_name("a..b"));
    assert!(!valid_host_name("-bad"));
    assert!(!valid_host_name(".bad"));
}

/// Adds a host, as far as its address's code secret could be read.
fn add(state: &State, params: &str, secret: Result<&str, &str>) -> Result<bool, Error> {
    let n = new_host(&j(params))?;
    let secret = match secret {
        Ok(s) => Ok(s.to_string()),
        Err(e) => Err(e.to_string()),
    };
    host_add(state, &n, &secret)
}

#[test]
fn host_add_bad_host_name_returns_bad_params() {
    let err = add(
        &empty(),
        r#"{"host": "a/b", "password": "x", "otpauth_url": "otpauth://totp/x?secret=ABC"}"#,
        Ok("ABC"),
    )
    .unwrap_err();
    assert!(matches!(err, Error::BadParams(_)));
}

#[test]
fn host_add_invalid_otpauth_url_returns_bad_params() {
    let err = add(
        &empty(),
        r#"{"host": "k6", "password": "x", "otpauth_url": "otpauth://totp/no-secret-here"}"#,
        Err("no secret"),
    )
    .unwrap_err();
    assert!(matches!(err, Error::BadParams(_)));
}

#[test]
fn host_add_accepts_a_blank_otpauth_for_a_password_only_host() {
    for blank in ["", "   "] {
        let state = make_state_with_host("k6", false);
        let err = add(
            &state,
            &format!(r#"{{"host": "k6", "password": "x", "otpauth_url": "{blank}"}}"#),
            Err("no secret"),
        )
        .unwrap_err();
        assert!(
            matches!(err, Error::Duplicate(_)),
            "a blank 2FA secret must not be rejected as a bad URL, got {err:?}"
        );
    }
}

#[test]
fn host_add_still_rejects_a_typod_otpauth() {
    let err = add(
        &empty(),
        r#"{"host": "k6", "password": "x",
            "otpauth_url": "otpauth://totp/Example:user?issuer=Example"}"#,
        Err("no secret"),
    )
    .unwrap_err();
    assert!(
        matches!(err, Error::BadParams(ref m) if m.contains("invalid otpauth")),
        "got {err:?}"
    );
}

#[test]
fn an_added_host_is_listed() {
    let mut state = empty();
    let mut cache = CredsCache::new();
    cache.keep("k6", &("old".to_string(), "old".to_string()));
    let params = r#"{"host": "k6", "password": "x", "otpauth_url": "otpauth://t?secret=ABC"}"#;
    let n = new_host(&j(params)).unwrap();
    assert!(host_add(&state, &n, &Ok("ABC".to_string())).unwrap());
    host_add_finish(&mut state, &mut cache, &n);
    assert_eq!(state.hosts[0].host, "k6");
    assert!(cache.get("k6").is_none());
    assert_eq!(
        host_add(&state, &n, &Ok("ABC".to_string())).unwrap_err().code(),
        "duplicate"
    );
}

#[test]
fn host_remove_leaves_no_mount_directory_behind() {
    let name = "a2fa-test-mountleak";
    let mut state = make_state_with_host(name, false);
    let params = j(&format!(r#"{{"host": "{name}"}}"#));
    assert_eq!(host_remove(&mut state, &params).unwrap(), name, "whose folder is to be cleared");
    let v = host_remove_finish(
        &mut state,
        &mut CredsCache::new(),
        &mut HostManagers::new(),
        name,
        true,
    );
    assert_eq!(v.reply.bool_at("ok"), Some(true));
}

#[test]
fn removing_a_host_drops_it_from_a_multi_host_pin() {
    let c = Some(vec!["a".to_string(), "b".to_string(), "c".to_string()]);
    assert_eq!(
        jump_candidates_without(&c, "b"),
        Some(vec!["a".to_string(), "c".to_string()])
    );
}

#[test]
fn removing_the_only_pinned_host_falls_back_to_any_host() {
    let c = Some(vec!["login1".to_string()]);
    assert_eq!(jump_candidates_without(&c, "login1"), None);
}

#[test]
fn removing_an_unrelated_host_leaves_pins_untouched() {
    let c = Some(vec!["a".to_string()]);
    assert_eq!(jump_candidates_without(&c, "zzz"), c);
    assert_eq!(jump_candidates_without(&None, "a"), None);
}

#[test]
fn host_remove_not_found_returns_not_found() {
    let err = host_remove(&mut empty(), &j(r#"{"host": "ghost"}"#)).unwrap_err();
    assert!(matches!(err, Error::NotFound(_)));
}

#[test]
fn host_remove_rejects_unsafe_host_name() {
    let mut state = make_state_with_host("../../etc", false);
    let err = host_remove(&mut state, &j(r#"{"host": "../../etc"}"#)).unwrap_err();
    assert!(matches!(err, Error::BadParams(_)));
}

#[test]
fn host_remove_missing_host_param_returns_bad_params() {
    let err = host_remove(&mut empty(), &j("{}")).unwrap_err();
    assert!(matches!(err, Error::BadParams(_)));
}

#[test]
fn host_remove_drops_the_host_from_state() {
    let mut state = make_state_with_host("a2fa-test-removeme", true);
    state.hosts.push(host("a2fa-test-keepme", false));
    let params = j(r#"{"host": "a2fa-test-removeme"}"#);
    let name = host_remove(&mut state, &params).unwrap();
    let o = host_remove_finish(
        &mut state,
        &mut CredsCache::new(),
        &mut HostManagers::new(),
        &name,
        false,
    );
    let v = o.reply;
    assert_eq!(v.bool_at("ok"), Some(true));
    assert_eq!(v.str_at("host").as_deref(), Some("a2fa-test-removeme"));
    assert!(v.bool_at("credentials_deleted").is_some());
    assert!(
        !state.hosts.iter().any(|h| h.host == "a2fa-test-removeme"),
        "removed host must be gone from State"
    );
    assert!(
        state.hosts.iter().any(|h| h.host == "a2fa-test-keepme"),
        "removal must not touch other hosts"
    );
}

#[test]
fn a_removal_frees_the_tunnels_pinned_to_the_host() {
    let mut state = State::with_tunnels(vec![Tunnel {
        name: "nb".into(),
        local_port: 8888,
        remote_port: 8888,
        jump_candidates: Some(vec!["k6".into()]),
        last_node: None,
        last_user: None,
        direct_host: None,
        auto_start: false,
        post_connect_cmd: None,
        tags: vec![],
        url_path: None,
        wants_alive: false,
        status: TunnelStatus::Idle,
        active_jump: None,
        last_msg: "".into(),
        last_alive_at: 0,
        total_uptime_ms: 0,
        connect_count: 0,
        fail_count: 0,
    }]);
    state.hosts.push(host("k6", true));
    let mut managers = HostManagers::new();
    managers.snapshot("k6");
    let mut cache = CredsCache::new();
    cache.keep("k6", &("p".to_string(), "s".to_string()));
    let name = host_remove(&mut state, &j(r#"{"host": "k6"}"#)).unwrap();
    let o = host_remove_finish(&mut state, &mut cache, &mut managers, &name, true);
    assert!(o.persist);
    assert_eq!(state.tunnels[0].jump_candidates, None);
    assert!(managers.pool("k6").is_none());
    assert!(cache.get("k6").is_none());
}

#[test]
fn opt_bool_defaults_to_false_and_rejects_other_types() {
    assert!(!opt_bool(&j("{}"), "flag").unwrap());
    assert!(!opt_bool(&j(r#"{"flag": null}"#), "flag").unwrap());
    assert!(opt_bool(&j(r#"{"flag": true}"#), "flag").unwrap());
    assert!(!opt_bool(&j(r#"{"flag": false}"#), "flag").unwrap());
    for bad in [r#"{"flag": 1}"#, r#"{"flag": "true"}"#, r#"{"flag": []}"#] {
        assert!(opt_bool(&j(bad), "flag").is_err(), "{bad}");
    }
}

#[test]
fn opt_str_accepts_absent_null_and_strings() {
    let p = j(r#"{"a": "x", "b": null}"#);
    assert_eq!(opt_str(&p, "a").unwrap().as_deref(), Some("x"));
    assert_eq!(opt_str(&p, "b").unwrap(), None);
    assert_eq!(opt_str(&p, "missing").unwrap(), None);
}

#[test]
fn named_hosts_must_be_known() {
    let state = make_state_with_host("k6", true);
    assert!(require_host(&state, "k6").is_ok());
    assert_eq!(require_host(&state, "b8").unwrap_err().code(), "not_found");
    assert_eq!(host_param(&j(r#"{"host": "k6"}"#)).unwrap(), "k6");
    assert_eq!(host_param(&j(r#"{"host": "a b"}"#)).unwrap_err().code(), "bad_params");
    assert_eq!(host_snapshot(&state.hosts[0]).bool_at("active"), Some(true));
}
