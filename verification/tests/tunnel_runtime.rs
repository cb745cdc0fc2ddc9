use a2fa_daemon::tunnel_runtime::{
    note_stop_dead_flap, should_auto_stop_after_failures, should_autostart, tunnel_action,
    ChildPoll, TunnelAction, TunnelRtState, TunnelRuntime, TunnelStatusKind,
    AUTO_RECOVERY_INTERVAL_SEC, EVENT_BUFFER_LIMIT, RECOVERY_FAILURE_THRESHOLD,
    TUNNEL_FLAP_BACKOFF_SEC, TUNNEL_FLAP_MIN_UPTIME_SEC, TUNNEL_FLAP_THRESHOLD,
};

const NOW: u64 = 1_700_000_000_000;
const OLD: u64 = 0;

fn running(_child: u64) -> ChildPoll {
    ChildPoll::Running
}

#[test]
fn auto_stop_after_failures_at_threshold() {
    assert!(!should_auto_stop_after_failures(0, RECOVERY_FAILURE_THRESHOLD));
    assert!(!should_auto_stop_after_failures(4, 5));
    assert!(should_auto_stop_after_failures(5, 5));
    assert!(should_auto_stop_after_failures(6, 5));
}

#[test]
fn wants_alive_idle_recovery_due_squeue_not_due_gives_recover() {
    let recent_squeue = NOW - 5_000;
    let action = tunnel_action(
        TunnelStatusKind::Idle,
        true,
        None,
        false,
        None,
        OLD,
        recent_squeue,
        NOW,
        false,
    );
    assert_eq!(action, TunnelAction::Recover);
}

#[test]
fn wants_alive_idle_squeue_due_gives_squeue_check() {
    let action =
        tunnel_action(TunnelStatusKind::Idle, true, None, false, None, OLD, OLD, NOW, false);
    assert_eq!(action, TunnelAction::SqueueCheck);
}

#[test]
fn wants_alive_stale_gives_skip_not_recover() {
    let action =
        tunnel_action(TunnelStatusKind::Stale, true, None, false, None, OLD, OLD, NOW, false);
    assert_eq!(action, TunnelAction::Skip);
}

#[test]
fn wants_alive_port_busy_squeue_not_due_recovery_due_gives_recover() {
    let recent_squeue = NOW - 5_000;
    let action = tunnel_action(
        TunnelStatusKind::PortBusy,
        true,
        None,
        false,
        None,
        OLD,
        recent_squeue,
        NOW,
        false,
    );
    assert_eq!(action, TunnelAction::Recover);
}

#[test]
fn wants_alive_failed_squeue_due_gives_squeue_check() {
    let action =
        tunnel_action(TunnelStatusKind::Failed, true, None, false, None, OLD, OLD, NOW, false);
    assert_eq!(action, TunnelAction::SqueueCheck);
}

#[test]
fn wants_alive_failed_squeue_not_due_recovery_due_gives_recover() {
    let recent_squeue = NOW - 5_000;
    let action = tunnel_action(
        TunnelStatusKind::Failed,
        true,
        None,
        false,
        None,
        OLD,
        recent_squeue,
        NOW,
        false,
    );
    assert_eq!(action, TunnelAction::Recover);
}

#[test]
fn wants_alive_failed_both_throttled_gives_skip() {
    let recent = NOW - 5_000;
    let action = tunnel_action(
        TunnelStatusKind::Failed,
        true,
        None,
        false,
        None,
        recent,
        recent,
        NOW,
        false,
    );
    assert_eq!(action, TunnelAction::Skip);
}

#[test]
fn wants_alive_idle_throttle_not_elapsed_gives_skip() {
    let recent = NOW - 5_000;
    let action = tunnel_action(
        TunnelStatusKind::Idle,
        true,
        None,
        false,
        None,
        recent,
        recent,
        NOW,
        false,
    );
    assert_eq!(action, TunnelAction::Skip);
}

#[test]
fn no_wants_alive_idle_gives_skip() {
    let action =
        tunnel_action(TunnelStatusKind::Idle, false, None, false, None, OLD, OLD, NOW, false);
    assert_eq!(action, TunnelAction::Skip);
}

#[test]
fn starting_always_skip() {
    let action =
        tunnel_action(TunnelStatusKind::Starting, true, None, false, None, OLD, OLD, NOW, false);
    assert_eq!(action, TunnelAction::Skip);
}

#[test]
fn alive_child_dead_gives_stop_dead() {
    let action = tunnel_action(
        TunnelStatusKind::Alive,
        true,
        Some(false),
        true,
        Some(true),
        OLD,
        OLD,
        NOW,
        false,
    );
    assert_eq!(action, TunnelAction::StopDead);
}

#[test]
fn alive_port_not_bound_ghost_gives_stop_dead() {
    let action = tunnel_action(
        TunnelStatusKind::Alive,
        true,
        Some(true),
        false,
        Some(true),
        OLD,
        OLD,
        NOW,
        false,
    );
    assert_eq!(action, TunnelAction::StopDead);
}

#[test]
fn alive_jump_inactive_gives_stop_disabled_jump() {
    let action = tunnel_action(
        TunnelStatusKind::Alive,
        true,
        Some(true),
        true,
        Some(false),
        OLD,
        OLD,
        NOW,
        false,
    );
    assert_eq!(action, TunnelAction::StopDisabledJump);
}

#[test]
fn alive_jump_active_and_healthy_and_squeue_due_gives_squeue_check() {
    let action = tunnel_action(
        TunnelStatusKind::Alive,
        true,
        Some(true),
        true,
        Some(true),
        OLD,
        OLD,
        NOW,
        false,
    );
    assert_eq!(action, TunnelAction::SqueueCheck);
}

#[test]
fn alive_all_healthy_squeue_not_due_gives_skip() {
    let recent = NOW - 10_000;
    let action = tunnel_action(
        TunnelStatusKind::Alive,
        true,
        Some(true),
        true,
        Some(true),
        OLD,
        recent,
        NOW,
        false,
    );
    assert_eq!(action, TunnelAction::Skip);
}

#[test]
fn throttles_end_exactly_at_their_interval() {
    let recover = |since: u64, checked: u64| {
        tunnel_action(
            TunnelStatusKind::Failed,
            true,
            None,
            false,
            None,
            NOW - since,
            NOW - checked,
            NOW,
            false,
        )
    };
    assert_eq!(recover(15_000, 29_999), TunnelAction::Recover);
    assert_eq!(recover(14_999, 29_999), TunnelAction::Skip);
    assert_eq!(recover(14_999, 30_000), TunnelAction::SqueueCheck);
}

#[test]
fn autostart_flag_with_node_gives_true() {
    assert!(should_autostart(true, false, Some("holygpu01"), false));
}

#[test]
fn wants_alive_with_node_gives_true() {
    assert!(should_autostart(false, true, Some("holygpu01"), false));
}

#[test]
fn autostart_flag_without_node_gives_false() {
    assert!(!should_autostart(true, false, None, false));
}

#[test]
fn wants_alive_without_node_gives_false() {
    assert!(!should_autostart(false, true, None, false));
}

#[test]
fn neither_flag_set_gives_false() {
    assert!(!should_autostart(false, false, Some("holygpu01"), false));
}

#[test]
fn registry_store_and_take() {
    let mut rt = TunnelRuntime::new();
    assert_eq!(rt.store_child("nb", 11), None);
    assert!(rt.child_alive("nb", running).is_some());
    assert_eq!(rt.take_child("nb"), Some(11));
    assert!(rt.take_child("nb").is_none());
}

#[test]
fn store_child_evicts_stale_without_deadlock() {
    let mut rt = TunnelRuntime::new();
    rt.store_child("nb", 1);
    assert_eq!(rt.store_child("nb", 2), Some(1), "the first child is handed out to be reaped");
    assert_eq!(rt.child_alive("nb", running), Some(true));
    assert_eq!(rt.kill_child("nb"), Some(2));
    assert!(rt.take_child("nb").is_none());
}

#[test]
fn registry_kill_child() {
    let mut rt = TunnelRuntime::new();
    rt.store_child("nb", 5);
    rt.kill_child("nb");
    assert!(rt.take_child("nb").is_none());
}

#[test]
fn registry_child_alive_for_running_child() {
    let mut rt = TunnelRuntime::new();
    rt.store_child("nb", 5);
    assert_eq!(rt.child_alive("nb", running), Some(true));
    assert_eq!(rt.child_alive("nb", |_c: u64| ChildPoll::Exited), Some(false));
    assert_eq!(rt.child_alive("nb", |_c: u64| ChildPoll::Unknown), Some(true));
    rt.kill_child("nb");
}

#[test]
fn registry_child_alive_none_when_not_registered() {
    let rt = TunnelRuntime::new();
    assert_eq!(rt.child_alive("ghost", running), None);
}

#[test]
fn kill_all_children_empty_does_not_panic() {
    let mut rt = TunnelRuntime::new();
    assert!(rt.kill_all_children().is_empty());
}

#[test]
fn kill_all_children_kills_and_drains_registry() {
    let mut rt = TunnelRuntime::new();
    rt.store_child("t1", 7);
    assert_eq!(rt.child_alive("t1", running), Some(true));
    assert_eq!(rt.kill_all_children(), vec![("t1".to_string(), 7)]);
    assert!(rt.take_child("t1").is_none(), "child should be drained after kill_all_children");
}

#[test]
fn registry_remove_kills_and_cleans_up() {
    let mut rt = TunnelRuntime::new();
    rt.store_child("nb", 9);
    rt.with_rt_mut("nb", |mut r| {
        r.consecutive_squeue_misses = 3;
        (r, ())
    });
    assert_eq!(rt.remove("nb"), Some(9));
    assert!(rt.take_child("nb").is_none());
    assert!(rt.with_rt("nb", |_r| ()).is_none());
}

#[test]
fn event_record_and_events_round_trip_in_order() {
    let mut rt = TunnelRuntime::new();
    rt.record("t1", 1_000_000, "connected");
    rt.record("t1", 1_001_000, "probe ok");
    rt.record("t1", 1_002_000, "alive");
    let evs = rt.events("t1");
    assert_eq!(evs.len(), 3);
    assert_eq!(evs[0].msg, "connected");
    assert_eq!(evs[0].ts, 1_000_000);
    assert_eq!(evs[1].msg, "probe ok");
    assert_eq!(evs[2].msg, "alive");
    assert_eq!(evs[2].ts, 1_002_000);
}

#[test]
fn event_buffer_trims_to_limit_keeping_newest() {
    let mut rt = TunnelRuntime::new();
    for i in 0..250u64 {
        rt.record("t2", i * 1000, &format!("event-{i}"));
    }
    let evs = rt.events("t2");
    assert_eq!(evs.len(), EVENT_BUFFER_LIMIT, "buffer must be capped at EVENT_BUFFER_LIMIT");
    assert_eq!(evs[0].msg, "event-50", "oldest retained event should be event-50");
    assert_eq!(evs[199].msg, "event-249", "newest event should be event-249");
}

#[test]
fn events_on_unknown_tunnel_returns_empty_vec() {
    let rt = TunnelRuntime::new();
    assert!(rt.events("ghost").is_empty(), "events() for unknown tunnel must be empty");
}

#[test]
fn remove_clears_event_buffer() {
    let mut rt = TunnelRuntime::new();
    rt.record("t3", 100_000, "started");
    rt.record("t3", 101_000, "alive");
    assert_eq!(rt.events("t3").len(), 2);
    rt.store_child("t3", 4);
    rt.remove("t3");
    assert!(rt.events("t3").is_empty(), "remove() must clear the event buffer");
}

#[test]
fn a_renamed_entry_takes_everything_along() {
    let mut rt = TunnelRuntime::new();
    rt.store_child("a", 1);
    rt.record("a", 1, "x");
    rt.with_rt_mut("a", |mut r| {
        r.consecutive_flaps = 2;
        (r, ())
    });
    rt.record("other", 5, "y");
    rt.rename_entry("a", "b");
    assert_eq!(rt.child("b"), Some(1));
    assert_eq!(rt.child("a"), None);
    assert_eq!(rt.get_rt("b").consecutive_flaps, 2);
    assert_eq!(rt.events("b").len(), 1);
    assert!(rt.events("a").is_empty());
    assert_eq!(rt.events("other").len(), 1);
}

#[test]
fn one_off_drop_recovers_immediately() {
    let mut rt = TunnelRtState::default();
    let armed = note_stop_dead_flap(&mut rt, Some(2_000), 1_000_000);
    assert!(!armed);
    assert_eq!(rt.consecutive_flaps, 1);
    assert_eq!(rt.last_recovery_attempt_ts, 0, "must recover immediately");
}

#[test]
fn sustained_flapping_arms_backoff() {
    let mut rt = TunnelRtState::default();
    let mut now = 1_000_000;
    for i in 1..TUNNEL_FLAP_THRESHOLD {
        assert!(!note_stop_dead_flap(&mut rt, Some(1_000), now), "no backoff at flap {i}");
        now += 5_000;
    }
    assert!(note_stop_dead_flap(&mut rt, Some(1_000), now), "backoff at threshold");
    assert_eq!(rt.consecutive_flaps, TUNNEL_FLAP_THRESHOLD);
    let next_allowed = rt.last_recovery_attempt_ts + AUTO_RECOVERY_INTERVAL_SEC * 1000;
    assert_eq!(next_allowed, now + TUNNEL_FLAP_BACKOFF_SEC * 1000);
}

#[test]
fn long_stable_run_resets_flap_counter() {
    let mut rt =
        TunnelRtState { consecutive_flaps: TUNNEL_FLAP_THRESHOLD - 1, ..Default::default() };
    let armed =
        note_stop_dead_flap(&mut rt, Some((TUNNEL_FLAP_MIN_UPTIME_SEC + 1) * 1000), 1_000_000);
    assert!(!armed);
    assert_eq!(rt.consecutive_flaps, 0, "a stable run is not a flap");
    assert_eq!(rt.last_recovery_attempt_ts, 0);
}

#[test]
fn unknown_uptime_leaves_counter_unchanged() {
    let mut rt = TunnelRtState { consecutive_flaps: 2, ..Default::default() };
    let armed = note_stop_dead_flap(&mut rt, None, 1_000_000);
    assert!(!armed);
    assert_eq!(rt.consecutive_flaps, 2, "unknown uptime must not count either way");
}

#[test]
fn direct_down_wants_alive_squeue_due_gives_recover_not_squeue() {
    let action =
        tunnel_action(TunnelStatusKind::Failed, true, None, false, None, OLD, OLD, NOW, true);
    assert_eq!(action, TunnelAction::Recover);
}

#[test]
fn direct_alive_squeue_due_gives_skip_not_squeue() {
    let action = tunnel_action(
        TunnelStatusKind::Alive,
        true,
        Some(true),
        true,
        Some(true),
        OLD,
        OLD,
        NOW,
        true,
    );
    assert_eq!(action, TunnelAction::Skip);
}

#[test]
fn direct_alive_child_dead_still_stop_dead() {
    let action = tunnel_action(
        TunnelStatusKind::Alive,
        true,
        Some(false),
        true,
        Some(true),
        OLD,
        OLD,
        NOW,
        true,
    );
    assert_eq!(action, TunnelAction::StopDead);
}

#[test]
fn direct_autostart_without_node_is_eligible() {
    assert!(should_autostart(false, true, None, true));
    assert!(should_autostart(true, false, None, true));
    assert!(!should_autostart(false, true, None, false));
}
