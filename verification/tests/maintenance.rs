use a2fa_daemon::model::{Host, State, Tunnel, TunnelStatus};
use a2fa_daemon::starts::ForwardSpec;
use a2fa_daemon::tunnel_maintenance::{
    boot_due, finish_recovery_start, maintenance_tick, note_recovery_failure_and_maybe_stop,
    process_tunnel, snapshot_tunnels, squeue_begin, squeue_end,
    StartOutcome, SqueueReply,
};
use a2fa_daemon::tunnel_runtime::{TunnelRuntime, RECOVERY_FAILURE_THRESHOLD};

const NOW: u64 = 1_700_000_000_000;

fn state(status: TunnelStatus) -> State {
    let mut s = State::with_tunnels(vec![Tunnel {
        name: "nb".into(),
        local_port: 8888,
        remote_port: 8889,
        jump_candidates: None,
        last_node: Some("gpu01".into()),
        last_user: Some("me".into()),
        direct_host: None,
        auto_start: true,
        post_connect_cmd: None,
        tags: vec![],
        url_path: None,
        wants_alive: true,
        status,
        active_jump: Some("k6".into()),
        last_msg: "".into(),
        last_alive_at: 0,
        total_uptime_ms: 0,
        connect_count: 0,
        fail_count: 0,
    }]);
    s.hosts.push(Host {
        host: "k6".into(),
        status: "Connected".into(),
        active: true,
        is_master_ready: true,
        pool_index: 0,
        pool_alive: 1,
        is_mounted: false,
        last_msg: "".into(),
    });
    s
}

#[test]
fn a_dead_tunnel_is_stopped_and_recovered() {
    let mut st = state(TunnelStatus::Alive);
    let mut rt = TunnelRuntime::new();
    rt.store_child("nb", 3);
    rt.with_rt_mut("nb", |mut r| {
        r.alive_since = Some(NOW - 40_000);
        r.last_squeue_check_ts = NOW;
        (r, ())
    });
    let snap = &snapshot_tunnels(&st)[0];
    let o = process_tunnel(snap, &mut st, &mut rt, false, Some(false), "me", NOW);
    assert_eq!(o.kill, Some(3));
    assert_eq!(st.tunnels[0].total_uptime_ms, 40_000);
    assert!(st.tunnels[0].wants_alive);
    assert_ne!(st.tunnels[0].status, TunnelStatus::Alive);
    rt.with_rt_mut("nb", |mut r| {
        r.last_squeue_check_ts = NOW;
        (r, ())
    });
    let snap = &snapshot_tunnels(&st)[0];
    let o = process_tunnel(snap, &mut st, &mut rt, false, None, "me", NOW + 20_000);
    assert_eq!(o.start.unwrap().name, "nb");
    assert_eq!(st.tunnels[0].status, TunnelStatus::Starting);
}

#[test]
fn a_healthy_tunnel_is_left_alone() {
    let mut st = state(TunnelStatus::Alive);
    let mut rt = TunnelRuntime::new();
    rt.with_rt_mut("nb", |mut r| {
        r.last_squeue_check_ts = NOW;
        (r, ())
    });
    let snap = &snapshot_tunnels(&st)[0];
    let o = process_tunnel(snap, &mut st, &mut rt, true, Some(true), "me", NOW);
    assert_eq!(o.kill, None);
    assert!(o.start.is_none());
    assert!(!o.squeue);
    assert_eq!(st.tunnels[0].status, TunnelStatus::Alive);
}

#[test]
fn two_misses_in_a_row_make_a_tunnel_stale() {
    let mut st = state(TunnelStatus::Alive);
    let mut rt = TunnelRuntime::new();
    let gone = SqueueReply::Nodes(vec!["gpu02".into()]);
    let here = SqueueReply::Nodes(vec!["gpu01".into()]);
    squeue_end("nb", "gpu01", &gone, &mut st, &mut rt, NOW);
    assert_eq!(st.tunnels[0].status, TunnelStatus::Alive);
    squeue_end("nb", "gpu01", &here, &mut st, &mut rt, NOW);
    squeue_end("nb", "gpu01", &gone, &mut st, &mut rt, NOW);
    assert_eq!(st.tunnels[0].status, TunnelStatus::Alive);
    squeue_end("nb", "gpu01", &SqueueReply::Failed("busy".into()), &mut st, &mut rt, NOW);
    assert_eq!(st.tunnels[0].status, TunnelStatus::Alive);
    squeue_end("nb", "gpu01", &gone, &mut st, &mut rt, NOW);
    assert_eq!(st.tunnels[0].status, TunnelStatus::Stale);
}

#[test]
fn the_queue_is_asked_through_the_jump_host() {
    let st = state(TunnelStatus::Alive);
    let mut rt = TunnelRuntime::new();
    let snap = &snapshot_tunnels(&st)[0];
    let asked = squeue_begin(snap, &st, &mut rt, NOW).unwrap();
    assert_eq!(asked, ("k6".to_string(), "gpu01".to_string()));
    assert_eq!(rt.get_rt("nb").last_squeue_check_ts, NOW);
}

#[test]
fn recovery_is_given_up_at_the_limit() {
    let mut st = state(TunnelStatus::Failed);
    let mut rt = TunnelRuntime::new();
    for _ in 1..RECOVERY_FAILURE_THRESHOLD {
        assert!(!note_recovery_failure_and_maybe_stop("nb", &mut st, &mut rt, NOW));
        assert!(st.tunnels[0].wants_alive);
    }
    assert!(note_recovery_failure_and_maybe_stop("nb", &mut st, &mut rt, NOW));
    assert!(!st.tunnels[0].wants_alive);
}

#[test]
fn a_start_that_comes_too_late_is_undone() {
    let mut st = state(TunnelStatus::Idle);
    st.tunnels[0].wants_alive = false;
    let mut rt = TunnelRuntime::new();
    let o = StartOutcome::Ready(9);
    let r = finish_recovery_start(
        "nb", "k6", "gpu01", 8888, 8889, &o, &mut st, &mut rt, NOW,
    );
    assert_eq!(r.kill, Some(9));
    assert!(!r.up);
    assert_eq!(rt.child("nb"), None);
}

#[test]
fn a_recovered_tunnel_is_up() {
    let mut st = state(TunnelStatus::Starting);
    let mut rt = TunnelRuntime::new();
    let o = StartOutcome::Ready(9);
    let r = finish_recovery_start(
        "nb", "k6", "gpu01", 8888, 8889, &o, &mut st, &mut rt, NOW,
    );
    assert!(r.up);
    assert_eq!(st.tunnels[0].status, TunnelStatus::Alive);
    assert_eq!(rt.child("nb"), Some(9));
}

#[test]
fn tunnels_start_once_after_the_boot() {
    let mut st = state(TunnelStatus::Idle);
    let mut rt = TunnelRuntime::new();
    rt.set_startup_ts(NOW);
    assert!(!boot_due(&rt, NOW + 2_999));
    assert!(boot_due(&rt, NOW + 3_000));
    let (orders, snaps) = maintenance_tick(&mut st, &mut rt, "me", NOW + 3_000);
    assert_eq!(orders.len(), 1);
    assert_eq!(snaps.len(), 1);
    assert!(!boot_due(&rt, NOW + 9_000));
    let (orders, snaps) = maintenance_tick(&mut st, &mut rt, "me", NOW + 9_000);
    assert!(orders.is_empty());
    assert_eq!(snaps.len(), 1);
}

#[test]
fn a_parked_tunnel_to_a_host_itself_is_recovered() {
    let mut st = state(TunnelStatus::Idle);
    st.tunnels[0].direct_host = Some("k6".into());
    st.tunnels[0].last_node = None;
    let mut rt = TunnelRuntime::new();
    let snap = &snapshot_tunnels(&st)[0];
    let o = process_tunnel(snap, &mut st, &mut rt, false, None, "me", NOW);
    assert!(!o.squeue);
    let order = o.start.unwrap();
    assert_eq!(order.spec, ForwardSpec::Direct { host: "k6".into() });
    assert_eq!(st.tunnels[0].status, TunnelStatus::Starting);
}

#[test]
fn a_tunnel_to_a_host_itself_starts_at_boot() {
    let mut st = state(TunnelStatus::Idle);
    st.tunnels[0].direct_host = Some("k6".into());
    st.tunnels[0].last_node = None;
    st.tunnels[0].wants_alive = false;
    let mut rt = TunnelRuntime::new();
    rt.set_startup_ts(NOW - 10_000);
    let (orders, _) = maintenance_tick(&mut st, &mut rt, "me", NOW);
    assert_eq!(orders.len(), 1);
    assert_eq!(orders[0].spec, ForwardSpec::Direct { host: "k6".into() });
    assert!(st.tunnels[0].wants_alive);
}
