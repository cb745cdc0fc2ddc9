use a2fa_daemon::handlers::credentials::{
    begin_keychain, consolidation_reply, creds_change, creds_under_test, credentials_consolidate,
    credentials_reply, credentials_to_store, host_credentials, host_reveal_credentials,
    host_set_credentials, host_test_credentials, host_totp, keychain_error, reveal_reply,
    secret_under_test, set_credentials_reply, store_error, stored_needed, stored_under_test, test_login_args,
    test_login, test_reply, totp_address, totp_reply, CredsUnderTest, KeychainEnd, LoginEnd, OtpInfo,
    UpgradeGuard,
};
use a2fa_daemon::json::{parse_json, render_json, Json};
use a2fa_daemon::latch::Latch;
use a2fa_daemon::managers::CredsCache;
use a2fa_daemon::model::{Error, Host, State};

fn j(text: &str) -> Json {
    parse_json(text).unwrap()
}

fn make_state_with_host(name: &str, active: bool) -> State {
    let mut state = State::with_tunnels(vec![]);
    state.hosts.push(Host {
        host: name.into(),
        status: "Idle".into(),
        active,
        is_master_ready: false,
        pool_index: 0,
        pool_alive: 0,
        is_mounted: false,
        last_msg: "OK".into(),
    });
    state
}

fn empty() -> State {
    State::with_tunnels(vec![])
}

/// Changes credentials, as far as the address's code secret could be read.
fn set(state: &State, params: &str, secret: Result<&str, &str>) -> Result<(), Error> {
    let c = creds_change(state, &j(params))?;
    let secret = match secret {
        Ok(s) => Ok(s.to_string()),
        Err(e) => Err(e.to_string()),
    };
    host_set_credentials(&c, &secret)
}

#[test]
fn bounded_recv_timeout_returns_error_without_hanging() {
    let e = keychain_error("totp read", "k6", KeychainEnd::TimedOut);
    assert!(matches!(e, Error::Internal(_)), "expected timeout error");
}

#[test]
fn keychain_in_flight_blocks_second_concurrent_claim() {
    let key = "totp read:guard-test-host";
    let mut latch = Latch::new();
    assert!(latch.try_claim(key), "first claim must succeed");
    assert!(!latch.try_claim(key), "second concurrent claim must be blocked");
    latch.release(key);
    assert!(latch.try_claim(key), "claim must succeed after the guard released the latch");
}

#[test]
fn keychain_latch_is_per_operation_not_just_per_host() {
    let host = "latch-op-test-host";
    let mut latch = Latch::new();
    assert_eq!(
        begin_keychain(&mut latch, "totp read", host).unwrap(),
        "totp read:latch-op-test-host"
    );
    assert!(
        begin_keychain(&mut latch, "credential read", host).is_ok(),
        "a different operation on the same host must not be blocked"
    );
}

#[test]
fn run_keychain_bounded_returns_busy_while_claimed() {
    let host = "bounded-busy-host";
    let mut latch = Latch::new();
    latch.try_claim(&format!("credential read:{host}"));
    let err = begin_keychain(&mut latch, "credential read", host).unwrap_err();
    assert!(
        matches!(err, Error::Internal(ref m) if m.contains("already in flight")),
        "expected busy error, got {err:?}"
    );
}

#[test]
fn run_keychain_bounded_times_out_without_hanging() {
    let err = keychain_error("credential read", "bounded-timeout-host", KeychainEnd::TimedOut);
    assert!(
        matches!(err, Error::Internal(ref m) if m.contains("timed out")),
        "expected timeout error, got {err:?}"
    );
}

#[test]
fn run_keychain_bounded_passes_value_through_and_releases() {
    let host = "bounded-ok-host";
    let mut latch = Latch::new();
    for _ in [1u32, 2u32] {
        let key = begin_keychain(&mut latch, "credential read", host).unwrap();
        latch.release(&key);
    }
    assert!(
        !latch.contains(&format!("credential read:{host}")),
        "latch must be released after a successful run"
    );
}

#[test]
fn keychain_failures_are_told_apart() {
    let texts: Vec<String> = [KeychainEnd::NotStarted, KeychainEnd::Died, KeychainEnd::TimedOut]
        .into_iter()
        .map(|end| keychain_error("credential read", "k6", end).text())
        .collect();
    assert_ne!(texts[0], texts[1]);
    assert_ne!(texts[1], texts[2]);
    assert_ne!(texts[0], texts[2]);
    assert_eq!(
        store_error("k6", KeychainEnd::NotStarted).text(),
        "could not start credential store for k6 — try again"
    );
    assert_eq!(
        store_error("k6", KeychainEnd::TimedOut).text(),
        store_error("k6", KeychainEnd::Died).text()
    );
}

#[test]
fn creds_under_test_supports_password_only_and_stored_modes() {
    assert!(matches!(
        creds_under_test(&j(r#"{"host": "k6"}"#)).unwrap(),
        CredsUnderTest::Stored
    ));
    let supplied =
        creds_under_test(&j(r#"{"host": "k6", "password": "pw", "otpauth_url": ""}"#)).unwrap();
    match supplied {
        CredsUnderTest::Supplied { password, otpauth_url } => {
            assert_eq!(password, "pw");
            assert!(otpauth_url.is_empty(), "blank stays blank — no 2FA");
        }
        _ => panic!("an explicit pair must be tested as supplied"),
    }
    assert_eq!(secret_under_test("", Err("no secret".to_string())).unwrap(), "");
}

#[test]
fn host_test_credentials_bad_otpauth_returns_ok_false() {
    let url = "otpauth://totp/Example:user?issuer=Example";
    let params = format!(r#"{{"host": "k6", "password": "x", "otpauth_url": "{url}"}}"#);
    let plan = host_test_credentials(&j(&params)).unwrap();
    assert_eq!(plan.host, "k6");
    let v = secret_under_test(url, Err("no secret".to_string())).unwrap_err();
    assert_eq!(v.bool_at("ok"), Some(false));
    assert!(v.str_at("reason").unwrap().contains("invalid otpauth"));
}

#[test]
fn host_test_credentials_with_registry_validates_first() {
    let v = host_test_credentials(&j(r#"{"host": "", "password": "x",
        "otpauth_url": "otpauth://totp/x?secret=JBSWY3DPEHPK3PXP"}"#))
    .unwrap_err();
    assert_eq!(v.bool_at("ok"), Some(false));
    assert_eq!(v.str_at("reason").as_deref(), Some("host required"));
}

#[test]
fn host_test_credentials_empty_host_returns_ok_false() {
    let v = host_test_credentials(&j(r#"{"host": "", "password": "x",
        "otpauth_url": "otpauth://totp/x?secret=JBSWY3DPEHPK3PXP"}"#))
    .unwrap_err();
    assert_eq!(v.bool_at("ok"), Some(false));
}

#[test]
fn host_totp_not_found_returns_not_found() {
    let err = host_totp(&empty(), &j(r#"{"host": "ghost"}"#)).unwrap_err();
    assert!(matches!(err, Error::NotFound(_)));
}

#[test]
fn host_totp_missing_host_param_returns_bad_params() {
    let err = host_totp(&empty(), &j("{}")).unwrap_err();
    assert!(matches!(err, Error::BadParams(_)));
}

#[test]
fn a_code_needs_a_stored_secret() {
    assert!(matches!(totp_address("k6", None), Err(Error::NotFound(_))));
    assert!(matches!(totp_address("k6", Some("  ".into())), Err(Error::NotFound(_))));
    assert_eq!(totp_address("k6", Some("otpauth://x".into())).unwrap(), "otpauth://x");
    assert_eq!(
        totp_reply("123456", 30, 12),
        j(r#"{"code": "123456", "period": 30, "seconds_remaining": 12}"#)
    );
}

#[test]
fn host_credentials_not_found_returns_not_found() {
    let err = host_credentials(&empty(), &j(r#"{"host": "ghost"}"#)).unwrap_err();
    assert!(matches!(err, Error::NotFound(_)));
}

#[test]
fn host_credentials_missing_host_param_returns_bad_params() {
    let err = host_credentials(&empty(), &j("{}")).unwrap_err();
    assert!(matches!(err, Error::BadParams(_)));
}

#[test]
fn host_credentials_rejects_unsafe_host_name() {
    let state = make_state_with_host("../../etc", false);
    let err = host_credentials(&state, &j(r#"{"host": "../../etc"}"#)).unwrap_err();
    assert!(matches!(err, Error::BadParams(_)));
}

#[test]
fn host_reveal_credentials_not_found_returns_not_found() {
    let err = host_reveal_credentials(&empty(), &j(r#"{"host": "ghost"}"#)).unwrap_err();
    assert!(matches!(err, Error::NotFound(_)));
}

#[test]
fn host_reveal_credentials_rejects_unsafe_host_name() {
    let state = make_state_with_host("-oProxyCommand=x", false);
    let err = host_reveal_credentials(&state, &j(r#"{"host": "-oProxyCommand=x"}"#)).unwrap_err();
    assert!(matches!(err, Error::BadParams(_)));
}

#[test]
fn host_set_credentials_not_found_returns_not_found() {
    let err = set(&empty(), r#"{"host": "ghost", "password": "x"}"#, Ok("")).unwrap_err();
    assert!(matches!(err, Error::NotFound(_)));
}

#[test]
fn host_set_credentials_requires_at_least_one_field() {
    let state = make_state_with_host("k6", false);
    let err = set(&state, r#"{"host": "k6"}"#, Ok("")).unwrap_err();
    assert!(
        matches!(err, Error::BadParams(ref m) if m.contains("nothing to change")),
        "got {err:?}"
    );
}

#[test]
fn host_set_credentials_rejects_invalid_otpauth_before_writing() {
    let state = make_state_with_host("k6", false);
    let err = set(
        &state,
        r#"{"host": "k6", "otpauth_url": "otpauth://totp/Example:user?issuer=Example"}"#,
        Err("no secret"),
    )
    .unwrap_err();
    assert!(
        matches!(err, Error::BadParams(ref m) if m.contains("invalid otpauth")),
        "got {err:?}"
    );
}

#[test]
fn host_set_credentials_rejects_empty_values() {
    let state = make_state_with_host("k6", false);
    let err = set(&state, r#"{"host": "k6", "password": ""}"#, Ok("")).unwrap_err();
    assert!(
        matches!(err, Error::BadParams(ref m) if m.contains("password is empty")),
        "got {err:?}"
    );
    let err = set(&state, r#"{"host": "k6", "otpauth_url": "  "}"#, Ok("")).unwrap_err();
    assert!(
        matches!(err, Error::BadParams(ref m)
                 if m.contains("otpauth_url is empty") && m.contains("clear_otp_secret")),
        "got {err:?}"
    );
}

#[test]
fn host_set_credentials_clear_flag_is_explicit_and_exclusive() {
    let state = make_state_with_host("k6", false);
    let err = set(
        &state,
        r#"{"host": "k6", "clear_otp_secret": true,
            "otpauth_url": "otpauth://totp/x?secret=JBSWY3DPEHPK3PXP"}"#,
        Ok("JBSWY3DPEHPK3PXP"),
    )
    .unwrap_err();
    assert!(
        matches!(err, Error::BadParams(ref m) if m.contains("not both")),
        "got {err:?}"
    );
    let err = set(&state, r#"{"host": "k6", "clear_otp_secret": "yes"}"#, Ok("")).unwrap_err();
    assert!(
        matches!(err, Error::BadParams(ref m) if m.contains("must be a boolean")),
        "got {err:?}"
    );
    let err = set(&state, r#"{"host": "k6", "clear_otp_secret": false}"#, Ok("")).unwrap_err();
    assert!(
        matches!(err, Error::BadParams(ref m) if m.contains("nothing to change")),
        "got {err:?}"
    );
}

#[test]
fn what_a_change_does_not_name_stays() {
    let state = make_state_with_host("k6", true);
    let current = ("pw".to_string(), "otpauth://old".to_string());
    let c = creds_change(&state, &j(r#"{"host": "k6", "password": "new"}"#)).unwrap();
    assert_eq!(
        credentials_to_store(&c, current.clone()),
        ("new".to_string(), "otpauth://old".to_string())
    );
    let c = creds_change(&state, &j(r#"{"host": "k6", "clear_otp_secret": true}"#)).unwrap();
    assert_eq!(credentials_to_store(&c, current), ("pw".to_string(), "".to_string()));
    let mut cache = CredsCache::new();
    cache.keep("k6", &("pw".to_string(), "s".to_string()));
    let v = set_credentials_reply(&state, &mut cache, &c);
    assert_eq!(v.bool_at("ok"), Some(true));
    assert!(cache.get("k6").is_none());
}

#[test]
fn host_test_credentials_validates_host_before_stored_fallback() {
    let v = host_test_credentials(&j(r#"{"host": "-oProxyCommand=x"}"#)).unwrap_err();
    assert_eq!(v.bool_at("ok"), Some(false));
    assert!(v.str_at("reason").unwrap().contains("invalid host name"));
    let v = host_test_credentials(&j("{}")).unwrap_err();
    assert_eq!(v.bool_at("ok"), Some(false));
    assert_eq!(v.str_at("reason").as_deref(), Some("host required"));
}

#[test]
fn host_test_credentials_partial_params_do_not_use_stored_creds() {
    for params in [
        r#"{"host": "k6", "password": "x"}"#,
        r#"{"host": "k6", "otpauth_url": "otpauth://totp/x?secret=JBSWY3DPEHPK3PXP"}"#,
    ] {
        assert!(creds_under_test(&j(params)).is_err(), "{params}");
        let v = host_test_credentials(&j(params)).unwrap_err();
        assert_eq!(v.bool_at("ok"), Some(false), "{params}");
        let reason = v.str_at("reason").unwrap();
        assert!(
            reason.contains("send both") && reason.contains("no 2FA"),
            "must name the fix, got {reason:?}"
        );
    }
}

#[test]
fn stored_credentials_are_tested_where_there_are_some() {
    let read = stored_under_test("k6", Ok(("p".to_string(), "u".to_string())));
    assert_eq!(read.unwrap(), ("p".to_string(), "u".to_string()));
    let v = stored_under_test("k6", Err(Error::Internal("locked".into()))).unwrap_err();
    assert_eq!(v.bool_at("ok"), Some(false));
    assert_eq!(test_reply(true, "login ok"), j(r#"{"ok": true, "reason": "login ok"}"#));
}

#[test]
fn a_trial_login_uses_no_shared_connection() {
    let args = test_login_args(&vec!["-F".to_string()], "/tmp/log", "k6", "MARK");
    assert_eq!(args[0], "-F");
    assert!(args.contains(&"ControlPath=none".to_string()));
    assert_eq!(args[args.len() - 3..].to_vec(), vec!["k6", "echo", "MARK"]);
}

#[test]
fn a_failed_trial_login_says_why() {
    let why = |end: LoginEnd, ssh_log: &str| test_login(end, ssh_log, "last");
    assert_eq!(why(LoginEnd::Success, ""), None);
    assert_eq!(
        why(LoginEnd::AuthFailed { reason: "denied".into() }, "").as_deref(),
        Some("denied")
    );
    assert_eq!(
        why(LoginEnd::Timeout { output: " \n".into() }, "").as_deref(),
        Some("Connection timed out")
    );
    assert_eq!(
        why(LoginEnd::Timeout { output: "".into() }, "debug1").as_deref(),
        Some("Login timed out; last SSH message: last")
    );
    assert_eq!(why(LoginEnd::Eof { output: "x".into() }, "").as_deref(), Some("last"));
    assert_eq!(why(LoginEnd::Error("no ssh".into()), "").as_deref(), Some("no ssh"));
}

#[test]
fn one_move_of_the_credentials_runs_at_a_time() {
    let state = make_state_with_host("k6", true);
    let mut guard = UpgradeGuard::new();
    let hosts = credentials_consolidate(&mut guard, &state).unwrap();
    assert_eq!(hosts, vec!["k6".to_string()]);
    assert!(credentials_consolidate(&mut guard, &state).is_err());
    guard.complete();
    assert!(credentials_consolidate(&mut guard, &state).is_ok());
    let mut cache = CredsCache::new();
    cache.keep("k6", &("p".to_string(), "s".to_string()));
    let v = consolidation_reply(&mut cache, &hosts, 1, 0, 0);
    assert_eq!(v.uint_at("migrated"), Some(1));
    assert!(cache.get("k6").is_none());
}

#[test]
fn a_description_never_holds_the_password() {
    let otp = Ok(OtpInfo {
        issuer: Some("Example".into()),
        account: None,
        algorithm: "SHA1".into(),
        digits: 6,
        period: 30,
    });
    let v = credentials_reply("k6", "hunter2", "otpauth://t?secret=ABC", &otp, true);
    assert_eq!(v.bool_at("auto_connect"), Some(true));
    let text = render_json(v);
    assert!(!text.contains("hunter2"), "{text}");
    assert!(!text.contains("secret=ABC"), "{text}");
    let v = reveal_reply("k6", &Some("hunter2".into()), &None);
    assert_eq!(v.str_at("password").as_deref(), Some("hunter2"));
}

#[test]
fn only_what_a_change_keeps_is_read() {
    let state = make_state_with_host("k6", false);
    for (params, needed) in [
        (r#"{"host": "k6", "password": "new"}"#, (false, true)),
        (r#"{"host": "k6", "clear_otp_secret": true}"#, (true, false)),
        (r#"{"host": "k6", "otpauth_url": "otpauth://new"}"#, (true, false)),
    ] {
        let c = creds_change(&state, &j(params)).unwrap();
        assert_eq!(stored_needed(&c), needed);
        let blank = |keep: bool, text: &str| if keep { text.to_string() } else { String::new() };
        assert_eq!(
            credentials_to_store(&c, (blank(needed.0, "pw"), blank(needed.1, "otpauth://old"))),
            credentials_to_store(&c, ("pw".to_string(), "otpauth://old".to_string()))
        );
    }
}
