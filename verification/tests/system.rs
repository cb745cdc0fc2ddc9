use a2fa_daemon::handlers::system::{
    log_reply, log_tail, reset_all, subscribe_events_ack, tunnels_in_use, wake_recover,
    wake_recover_finish, TailReader, WakeRecoverGuard, TAIL_BLOCK, WAKE_RECOVER_MIN_INTERVAL_SECS,
};
use a2fa_daemon::json::{parse_json, Json};
use a2fa_daemon::model::{Host, State, Tunnel, TunnelStatus};
use a2fa_daemon::tunnel_runtime::TunnelRuntime;

const NOW: u64 = 1_700_000_000;

fn j(text: &str) -> Json {
    parse_json(text).unwrap()
}

fn alive_tunnel(name: &str) -> Tunnel {
    Tunnel {
        name: name.into(),
        local_port: 8888,
        remote_port: 8888,
        jump_candidates: None,
        last_node: None,
        last_user: None,
        direct_host: None,
        auto_start: false,
        post_connect_cmd: None,
        tags: vec![],
        url_path: None,
        wants_alive: true,
        status: TunnelStatus::Alive,
        active_jump: Some("k6".into()),
        last_msg: "OK".into(),
        last_alive_at: 0,
        total_uptime_ms: 0,
        connect_count: 0,
        fail_count: 0,
    }
}

fn host(name: &str, active: bool) -> Host {
    Host {
        host: name.into(),
        status: "Idle".into(),
        active,
        is_master_ready: active,
        pool_index: 0,
        pool_alive: 0,
        is_mounted: false,
        last_msg: "".into(),
    }
}

fn recover(guard: &mut WakeRecoverGuard, state: &mut State, now: u64) -> Json {
    let mut rt = TunnelRuntime::new();
    match wake_recover(guard, state, now) {
        Ok(look) => {
            let alive = vec![None; look.tunnels.len()];
            wake_recover_finish(guard, look, &vec![], &alive, state, &mut rt, now).reply
        }
        Err(reply) => reply,
    }
}

#[test]
fn reset_all_empty_state() {
    let mut state = State::with_tunnels(vec![]);
    let mut rt = TunnelRuntime::new();
    let v = reset_all(&mut state, &mut rt).reply;
    assert_eq!(v.uint_at("tunnels_stopped"), Some(0));
    assert_eq!(v.uint_at("masters_rebuilt"), Some(0));
}

#[test]
fn wake_recover_empty_state() {
    let mut guard = WakeRecoverGuard::new();
    let mut state = State::with_tunnels(vec![]);
    let v = recover(&mut guard, &mut state, NOW);
    assert_eq!(v.get("tunnels_restarting"), Some(&j("[]")));
}

#[test]
fn reset_all_marks_alive_tunnel_idle() {
    let mut state = State::with_tunnels(vec![alive_tunnel("nb")]);
    let mut rt = TunnelRuntime::new();
    rt.store_child("nb", 4);
    let o = reset_all(&mut state, &mut rt);
    assert_eq!(o.reply.uint_at("tunnels_stopped"), Some(1));
    assert_eq!(o.reply.uint_at("masters_rebuilt"), Some(0));
    assert_eq!(o.kills, vec![4]);
    let t = &state.tunnels[0];
    assert_eq!(t.status, TunnelStatus::Idle);
    assert!(!t.wants_alive);
    assert!(t.active_jump.is_none());
}

#[test]
fn a_reset_rebuilds_the_active_hosts() {
    let mut state = State::with_tunnels(vec![]);
    state.hosts.push(host("k6", true));
    state.hosts.push(host("b8", false));
    let mut rt = TunnelRuntime::new();
    let o = reset_all(&mut state, &mut rt);
    assert_eq!(o.rebuild, vec!["k6".to_string()]);
    assert_eq!(o.reply.uint_at("masters_rebuilt"), Some(1));
}

#[test]
fn wake_recover_guard_coalesces_concurrent_and_debounces() {
    let mut guard = WakeRecoverGuard::new();
    let first = guard.try_claim(NOW).expect("first claim should win");
    assert!(
        guard.try_claim(NOW).is_none(),
        "second concurrent claim must coalesce to None"
    );
    guard.complete(first, NOW);
    assert!(
        guard.try_claim(NOW).is_none(),
        "claim within the debounce window must coalesce to None"
    );
}

#[test]
fn wake_recover_guard_allows_after_window_elapsed() {
    let mut guard = WakeRecoverGuard::new();
    let first = guard.try_claim(NOW).expect("first claim should win");
    guard.complete(first, NOW - (WAKE_RECOVER_MIN_INTERVAL_SECS + 1));
    assert!(
        guard.try_claim(NOW).is_some(),
        "claim after the debounce window must succeed"
    );
}

#[test]
fn wake_recover_second_immediate_call_coalesces() {
    let mut guard = WakeRecoverGuard::new();
    let mut state = State::with_tunnels(vec![]);
    let first = recover(&mut guard, &mut state, NOW);
    assert_eq!(first.bool_at("coalesced"), Some(false));
    let second = recover(&mut guard, &mut state, NOW);
    assert_eq!(second.bool_at("coalesced"), Some(true));
}

#[test]
fn a_wake_up_stops_what_lost_its_way() {
    let mut guard = WakeRecoverGuard::new();
    let mut state = State::with_tunnels(vec![alive_tunnel("nb")]);
    state.hosts.push(host("k6", true));
    let mut rt = TunnelRuntime::new();
    rt.store_child("nb", 4);
    let look = wake_recover(&mut guard, &state, NOW).unwrap();
    assert_eq!(look.tunnels, vec![("nb".to_string(), Some("k6".to_string()))]);
    assert_eq!(look.hosts, vec!["k6".to_string()]);
    let o = wake_recover_finish(
        &mut guard,
        look,
        &vec!["k6".to_string()],
        &vec![Some(true)],
        &mut state,
        &mut rt,
        NOW,
    );
    assert_eq!(o.kills, vec![4]);
    assert_eq!(o.rebuild, vec!["k6".to_string()]);
    assert_eq!(o.reply.get("tunnels_restarting"), Some(&j("[\"nb\"]")));
    assert!(state.tunnels[0].wants_alive);
    assert_ne!(state.tunnels[0].status, TunnelStatus::Alive);
}

#[test]
fn tunnels_in_use_are_the_started_ones() {
    let mut idle = alive_tunnel("idle");
    idle.status = TunnelStatus::Idle;
    let state = State::with_tunnels(vec![alive_tunnel("nb"), idle]);
    assert_eq!(tunnels_in_use(&state), vec![("nb".to_string(), Some("k6".to_string()))]);
}

/// Reads the last lines of a file as the daemon does, block by block from its end.
fn tail(file: &[u8], n: usize) -> Vec<String> {
    let mut reader = TailReader::new(n);
    let mut offset = file.len() as u64;
    while let Some(size) = reader.next_read(offset) {
        let start = offset - size;
        reader = reader.feed(&file[start as usize..offset as usize].to_vec());
        offset = start;
    }
    reader.finish(offset == 0)
}

#[test]
fn log_tail_missing_file_returns_empty() {
    assert!(tail(b"", 10).is_empty());
}

#[test]
fn the_last_lines_of_a_log_are_read() {
    assert_eq!(tail(b"a\nb\nc\n", 2), vec!["b".to_string(), "c".to_string()]);
    assert_eq!(tail(b"a\nb\nc", 5), vec!["a".to_string(), "b".to_string(), "c".to_string()]);
    assert_eq!(tail(b"bad \xff byte\n", 1), vec!["bad \u{fffd} byte".to_string()]);
    let mut long: Vec<u8> = vec![];
    for i in 0..3_000 {
        long.extend_from_slice(format!("line {i}\n").as_bytes());
    }
    assert!(long.len() as u64 > 2 * TAIL_BLOCK);
    let last = tail(&long, 700);
    assert_eq!(last.len(), 700);
    assert_eq!(last[0], "line 2300");
    assert_eq!(last[699], "line 2999");
}

#[test]
fn log_lines_asked_for_are_limited() {
    assert_eq!(log_tail(&j("{}")), 200);
    assert_eq!(log_tail(&j(r#"{"lines": 5}"#)), 5);
    assert_eq!(log_tail(&j(r#"{"lines": 99999999}"#)), 10_000);
    assert_eq!(log_reply(&vec!["x".to_string()]), j(r#"{"lines": ["x"]}"#));
}

#[test]
fn a_subscription_is_acknowledged() {
    assert_eq!(subscribe_events_ack(true).bool_at("subscribed"), Some(true));
    assert_eq!(subscribe_events_ack(false).bool_at("subscribed"), Some(false));
}
