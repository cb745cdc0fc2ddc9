use a2fa_daemon::handlers::tunnels::{tunnel_remove, tunnel_stop};
use a2fa_daemon::json::parse_json;
use a2fa_daemon::model::{State, Tunnel, TunnelStatus};
use a2fa_daemon::tunnel_maintenance::StartOutcome;
use a2fa_daemon::tunnel_runtime::TunnelRuntime;
use a2fa_daemon::workers::{
    otp_group_key, tunnel_start_finished, OtpRegistry, OtpStep, HASH_OFFSET,
};

#[test]
fn same_secret_gives_same_group() {
    let mut reg = OtpRegistry::new();
    let g1 = reg.get_group("MYSECRET");
    let g2 = reg.get_group("MYSECRET");
    assert_eq!(g1, g2);
}

#[test]
fn different_secrets_give_different_groups() {
    let mut reg = OtpRegistry::new();
    let g1 = reg.get_group("SECRET_A");
    let g2 = reg.get_group("SECRET_B");
    assert_ne!(g1, g2);
}

#[test]
fn otp_group_key_is_deterministic() {
    assert_eq!(otp_group_key("hello"), otp_group_key("hello"));
    assert_ne!(otp_group_key("hello"), otp_group_key("world"));
}

#[test]
fn group_keys_are_hashes_in_hexadecimal() {
    assert_eq!(otp_group_key(""), format!("{:016x}", HASH_OFFSET));
    assert_eq!(otp_group_key("a"), "af63dc4c8601ec8c");
}

#[test]
fn a_group_does_not_submit_a_code_twice() {
    let mut reg = OtpRegistry::new();
    let secret = "JBSWY3DPEHPK3PXP";
    assert_eq!(reg.otp_step(secret, "123456", 1_000), OtpStep::Submit);
    assert!(matches!(reg.otp_step(secret, "123456", 2_000), OtpStep::Wait(_)));
    assert_eq!(reg.otp_step(secret, "654321", 3_000), OtpStep::Submit);
}

#[test]
fn other_groups_may_submit_the_same_code() {
    let mut reg = OtpRegistry::new();
    assert_eq!(reg.otp_step("SECRET_ALPHA_111", "123456", 1_000), OtpStep::Submit);
    assert_eq!(reg.otp_step("SECRET_BETA_222", "123456", 1_000), OtpStep::Submit);
}

#[test]
fn a_code_is_free_again_after_the_guard_time() {
    let mut reg = OtpRegistry::new();
    let secret = "JBSWY3DPEHPK3PXP";
    assert_eq!(reg.otp_step(secret, "123456", 0), OtpStep::Submit);
    assert!(matches!(reg.otp_step(secret, "123456", 34_999), OtpStep::Wait(_)));
    assert_eq!(reg.otp_step(secret, "123456", 35_000), OtpStep::Submit);
}

fn starting(name: &str) -> State {
    State::with_tunnels(vec![Tunnel {
        name: name.into(),
        local_port: 8888,
        remote_port: 8889,
        jump_candidates: None,
        last_node: Some("gpu01".into()),
        last_user: Some("me".into()),
        direct_host: None,
        auto_start: false,
        post_connect_cmd: None,
        tags: vec![],
        url_path: None,
        wants_alive: true,
        status: TunnelStatus::Starting,
        active_jump: Some("k6".into()),
        last_msg: "starting".into(),
        last_alive_at: 0,
        total_uptime_ms: 0,
        connect_count: 0,
        fail_count: 0,
    }])
}

#[test]
fn a_finished_start_is_recorded() {
    let mut state = starting("nb");
    let mut rt = TunnelRuntime::new();
    let o = StartOutcome::Ready(42);
    let (kill, r) =
        tunnel_start_finished("nb", "k6", "gpu01", 8889, &o, &mut state, &mut rt, 7_000);
    assert_eq!(kill, None);
    assert!(r.ok);
    assert_eq!(r.active_jump.as_deref(), Some("k6"));
    assert_eq!(rt.child("nb"), Some(42));
    assert_eq!(state.tunnels[0].status, TunnelStatus::Alive);
    assert_eq!(state.tunnels[0].connect_count, 1);
}

#[test]
fn a_failed_start_is_counted() {
    for (o, counted) in [
        (StartOutcome::SpawnFailed("no ssh".into()), 0),
        (StartOutcome::TimedOut, 1),
        (StartOutcome::ChildExited, 1),
        (StartOutcome::ProbeError("odd".into()), 1),
    ] {
        let mut state = starting("nb");
        let mut rt = TunnelRuntime::new();
        let (_, r) =
            tunnel_start_finished("nb", "k6", "gpu01", 8889, &o, &mut state, &mut rt, 7_000);
        assert!(!r.ok);
        assert_ne!(state.tunnels[0].status, TunnelStatus::Alive);
        assert_eq!(state.tunnels[0].fail_count, counted);
        assert_eq!(rt.child("nb"), None);
    }
}

#[test]
fn a_start_that_comes_up_after_a_stop_is_undone() {
    let mut state = starting("nb");
    let mut rt = TunnelRuntime::new();
    let params = parse_json(r#"{"name": "nb"}"#).unwrap();
    tunnel_stop(&mut state, &params, &mut rt, 6_000);
    assert!(!state.tunnels[0].wants_alive);
    let stopped = state.tunnels[0].status;
    let o = StartOutcome::Ready(42);
    let (kill, r) =
        tunnel_start_finished("nb", "k6", "gpu01", 8889, &o, &mut state, &mut rt, 7_000);
    assert_eq!(kill, Some(42));
    assert!(!r.ok);
    assert_eq!(r.msg, "start aborted by user stop");
    assert_eq!(r.active_jump, None);
    assert_eq!(rt.child("nb"), None);
    assert_eq!(state.tunnels[0].status, stopped);
    assert_ne!(state.tunnels[0].status, TunnelStatus::Alive);
    assert!(!state.tunnels[0].wants_alive);
    assert_eq!(state.tunnels[0].connect_count, 0);
    let events = rt.events("nb");
    assert_eq!(events[events.len() - 1].msg, "start aborted by user stop");
}

#[test]
fn a_start_that_comes_up_after_a_removal_is_undone() {
    let mut state = starting("nb");
    let mut rt = TunnelRuntime::new();
    let params = parse_json(r#"{"name": "nb"}"#).unwrap();
    tunnel_remove(&mut state, &params, &mut rt);
    assert!(state.tunnels.is_empty());
    let o = StartOutcome::Ready(42);
    let (kill, r) =
        tunnel_start_finished("nb", "k6", "gpu01", 8889, &o, &mut state, &mut rt, 7_000);
    assert_eq!(kill, Some(42));
    assert!(!r.ok);
    assert_eq!(rt.child("nb"), None);
    assert!(state.tunnels.is_empty());
}

#[test]
fn a_start_that_comes_up_stops_the_process_before() {
    let mut state = starting("nb");
    let mut rt = TunnelRuntime::new();
    rt.store_child("nb", 41);
    let o = StartOutcome::Ready(42);
    let (kill, r) =
        tunnel_start_finished("nb", "k6", "gpu01", 8889, &o, &mut state, &mut rt, 7_000);
    assert_eq!(kill, Some(41));
    assert!(r.ok);
    assert_eq!(rt.child("nb"), Some(42));
}
