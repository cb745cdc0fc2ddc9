use a2fa_daemon::heartbeat::{
    rotates_after_restart, rotation_due, HostTick, TickAsk, TickEvent,
};
use a2fa_daemon::managers::{
    active_host_names, boot_host, creds_complete, invalidate_creds_cache, load_creds,
    managed_start_finished, managed_stop_finished, next_action, rebuild_begun,
    rebuild_finished, rebuild_masters, still_active, CredsCache, HostManagers, MaintenanceAction,
    PoolState, SlotStatus,
};
use a2fa_daemon::model::{Host, State};

const NOW: u64 = 1_000_000;
const OTP_COOLDOWN: u64 = 300_000;

fn pair(a: &str, b: &str) -> (String, String) {
    (a.to_string(), b.to_string())
}

#[test]
fn creds_complete_requires_both_fields() {
    assert!(creds_complete(&pair("pw", "secret")));
    assert!(!creds_complete(&pair("", "secret")));
    assert!(!creds_complete(&pair("pw", "")));
    assert!(!creds_complete(&pair("", "")));
}

#[test]
fn load_creds_serves_from_cache_without_touching_keychain() {
    let host = "cache-hit-test-host-zzz1";
    let mut cache = CredsCache::new();
    cache.keep(host, &pair("cached-pw", "cached-secret"));
    let got = load_creds(&mut cache, host, || panic!("the store must not be read"));
    assert_eq!(got, pair("cached-pw", "cached-secret"));
}

#[test]
fn invalidate_creds_cache_removes_entry() {
    let host = "cache-invalidate-test-host-zzz2";
    let mut cache = CredsCache::new();
    cache.keep(host, &pair("p", "s"));
    invalidate_creds_cache(&mut cache, host);
    assert!(cache.get(host).is_none(), "entry must be gone after invalidate");
}

#[test]
fn load_creds_does_not_cache_empty_results() {
    let host = "definitely-nonexistent-host-zzz3-auto2fa-test";
    let mut cache = CredsCache::new();
    let got = load_creds(&mut cache, host, || pair("", ""));
    assert_eq!(got, pair("", ""));
    assert!(
        cache.get(host).is_none(),
        "incomplete/empty creds must not be cached (must retry later)"
    );
}

#[test]
fn complete_credentials_are_read_once() {
    let mut cache = CredsCache::new();
    assert_eq!(load_creds(&mut cache, "k6", || pair("p", "s")), pair("p", "s"));
    assert_eq!(load_creds(&mut cache, "k6", || pair("q", "t")), pair("p", "s"));
}

#[test]
fn persistent_pool_failure_count_survives_two_round_trips() {
    let mut managers = HostManagers::new();
    {
        let mut pool = managers.snapshot("k6");
        pool.consecutive_login_failures = 3;
        managers.write_back("k6", &pool);
    }
    let pool = managers.snapshot("k6");
    assert_eq!(
        pool.consecutive_login_failures, 3,
        "failure count must survive across write_back+snapshot cycles"
    );
}

#[test]
fn persistent_pool_cooldown_survives_two_round_trips() {
    let mut managers = HostManagers::new();
    {
        let mut pool = managers.snapshot("k6");
        pool.cooldown_until = Some(NOW + OTP_COOLDOWN);
        managers.write_back("k6", &pool);
    }
    let pool = managers.snapshot("k6");
    assert!(pool.in_cooldown(NOW), "cooldown must persist across write_back+snapshot cycles");
}

#[test]
fn different_hosts_have_independent_states() {
    let mut managers = HostManagers::new();
    {
        let mut pool = managers.snapshot("k6");
        pool.consecutive_login_failures = 7;
        managers.write_back("k6", &pool);
    }
    let pool = managers.snapshot("cannon");
    assert_eq!(
        pool.consecutive_login_failures, 0,
        "cannon must start with 0 failures, independent of k6"
    );
}

#[test]
fn teardown_all_empty_does_not_panic() {
    let mut managers = HostManagers::new();
    let pools = managers.pools();
    assert!(pools.is_empty());
    managers.teardown_all(&pools);
}

#[test]
fn teardown_all_with_one_entry_does_not_panic() {
    let mut managers = HostManagers::new();
    managers.with_pool_mut("testhost", |p| (p, ()));
    let pools = managers.pools();
    assert_eq!(pools.len(), 1);
    managers.teardown_all(&pools);
}

#[test]
fn with_pool_mut_creates_entry() {
    let mut managers = HostManagers::new();
    let host_name = managers.with_pool_mut("newhost", |p| {
        let name = p.host.clone();
        (p, name)
    });
    assert_eq!(host_name, "newhost");
}

#[test]
fn with_pool_none_before_first_access() {
    let managers = HostManagers::new();
    let result = managers.with_pool("ghost", |p| p.host.clone());
    assert!(result.is_none());
}

fn fresh_pool(host: &str) -> PoolState {
    PoolState::new(host)
}

#[test]
fn next_action_inactive_host_gives_skip() {
    let pool = fresh_pool("k6");
    assert_eq!(next_action(&pool, 0, false, None, NOW), MaintenanceAction::Skip);
}

#[test]
fn next_action_in_cooldown_gives_skip() {
    let mut pool = fresh_pool("k6");
    pool.cooldown_until = Some(NOW + 60_000);
    assert_eq!(next_action(&pool, 0, true, None, NOW), MaintenanceAction::Skip);
}

#[test]
fn next_action_dead_slot_active_no_cooldown_gives_restart() {
    let mut pool = fresh_pool("k6");
    pool.slot_status[0] = SlotStatus::Dead;
    assert_eq!(next_action(&pool, 0, true, None, NOW), MaintenanceAction::Restart);
}

#[test]
fn next_action_failed_slot_gives_restart() {
    let mut pool = fresh_pool("k6");
    pool.slot_status[0] = SlotStatus::Failed;
    assert_eq!(next_action(&pool, 0, true, None, NOW), MaintenanceAction::Restart);
}

#[test]
fn next_action_ready_slot_with_failed_check_gives_restart() {
    let mut pool = fresh_pool("k6");
    pool.slot_status[0] = SlotStatus::Ready;
    assert_eq!(next_action(&pool, 0, true, Some(false), NOW), MaintenanceAction::Restart);
}

#[test]
fn next_action_ready_slot_with_passing_check_gives_healthy() {
    let mut pool = fresh_pool("k6");
    pool.slot_status[0] = SlotStatus::Ready;
    assert_eq!(next_action(&pool, 0, true, Some(true), NOW), MaintenanceAction::Healthy);
}

#[test]
fn next_action_slot1_init_while_slot0_ready_gives_warmslot1() {
    let mut pool = fresh_pool("k6");
    pool.slot_status[0] = SlotStatus::Ready;
    pool.slot_status[1] = SlotStatus::Init;
    assert_eq!(next_action(&pool, 1, true, None, NOW), MaintenanceAction::WarmSlot1);
}

#[test]
fn next_action_rotate_when_active_slot_dead_and_spare_ready() {
    let mut pool = fresh_pool("k6");
    pool.active_index = 0;
    pool.slot_status[0] = SlotStatus::Dead;
    pool.slot_status[1] = SlotStatus::Ready;
    assert_eq!(next_action(&pool, 0, true, None, NOW), MaintenanceAction::Rotate);
}

#[test]
fn next_action_no_rotate_when_in_probe_backoff() {
    let mut pool = fresh_pool("k6");
    pool.active_index = 0;
    pool.slot_status[0] = SlotStatus::Dead;
    pool.slot_status[1] = SlotStatus::Ready;
    pool.probe_backoff_until = Some(NOW + 60_000);
    assert_eq!(next_action(&pool, 0, true, None, NOW), MaintenanceAction::Healthy);
}

#[test]
fn failure_threshold_arms_cooldown() {
    let mut pool = fresh_pool("k6");
    pool.consecutive_login_failures = 2;
    pool.cooldown_until = Some(NOW + OTP_COOLDOWN);
    assert!(pool.in_cooldown(NOW));
    assert_eq!(next_action(&pool, 0, true, None, NOW), MaintenanceAction::Skip);
}

#[test]
fn elapsed_cooldown_allows_restart() {
    let mut pool = fresh_pool("k6");
    pool.cooldown_until = Some(NOW - 1_000);
    pool.slot_status[0] = SlotStatus::Dead;
    assert_eq!(next_action(&pool, 0, true, None, NOW), MaintenanceAction::Restart);
}

#[test]
fn init_slot_gives_healthy_not_restart() {
    let pool = fresh_pool("k6");
    assert_eq!(next_action(&pool, 0, true, None, NOW), MaintenanceAction::Healthy);
}

fn host(name: &str, active: bool) -> Host {
    Host {
        host: name.into(),
        status: "Idle".into(),
        active,
        is_master_ready: false,
        pool_index: 0,
        pool_alive: 0,
        is_mounted: false,
        last_msg: String::new(),
    }
}

fn state_with_hosts(hosts: Vec<Host>) -> State {
    let mut s = State::with_tunnels(vec![]);
    s.hosts = hosts;
    s
}

#[test]
fn active_host_names_returns_only_active() {
    let state =
        state_with_hosts(vec![host("k6", true), host("cannon", false), host("holy", true)]);
    let names = active_host_names(&state);
    assert_eq!(names, vec!["k6".to_string(), "holy".to_string()]);
}

#[test]
fn active_host_names_empty_when_no_hosts() {
    let state = state_with_hosts(vec![]);
    assert!(active_host_names(&state).is_empty());
}

#[test]
fn rebuild_masters_empty_list_returns_zero() {
    let state = state_with_hosts(vec![host("k6", true)]);
    assert_eq!(rebuild_masters(&vec![], &state).len(), 0);
}

#[test]
fn boot_autostart_returns_promptly_with_active_hosts() {
    let mut state = state_with_hosts(vec![
        host("k6", true),
        host("cannon", true),
        host("idlehost", false),
    ]);
    let mut managers = HostManagers::new();
    for name in active_host_names(&state) {
        assert!(boot_host(&name, None, &mut managers, &mut state));
    }
    let k6 = state.hosts.iter().find(|h| h.host == "k6").unwrap();
    assert_eq!(k6.status, "Connecting");
    let idle = state.hosts.iter().find(|h| h.host == "idlehost").unwrap();
    assert_eq!(idle.status, "Idle");
}

#[test]
fn try_begin_start_blocks_second_concurrent_start() {
    let mut managers = HostManagers::new();
    assert!(managers.try_begin_start("k6", 0));
    assert!(!managers.try_begin_start("k6", 0));
    assert!(managers.try_begin_start("k6", 1));
    assert!(managers.try_begin_start("cannon", 0));
    managers.end_start("k6", 0);
    assert!(managers.try_begin_start("k6", 0));
}

#[test]
fn end_start_on_unclaimed_key_is_noop() {
    let mut managers = HostManagers::new();
    managers.end_start("ghost", 0);
    assert!(managers.try_begin_start("ghost", 0));
}

#[test]
fn start_guard_drop_releases_claim() {
    let mut managers = HostManagers::new();
    assert!(managers.try_begin_start("k6", 0));
    assert!(!managers.try_begin_start("k6", 0));
    managers.end_start("k6", 0);
    assert!(managers.try_begin_start("k6", 0), "the end of a start must release the claim");
}

#[test]
fn rebuild_masters_filters_inactive_hosts() {
    let state = state_with_hosts(vec![host("cannon", false)]);
    let n = rebuild_masters(&vec!["cannon".to_string()], &state).len();
    assert_eq!(n, 0, "inactive host must not be rebuilt");
}

#[test]
fn a_forgotten_host_starts_afresh() {
    let mut managers = HostManagers::new();
    let mut pool = managers.snapshot("k6");
    pool.consecutive_login_failures = 3;
    managers.write_back("k6", &pool);
    assert_eq!(managers.pool("k6").unwrap().consecutive_login_failures, 3);
    managers.forget("k6");
    assert!(managers.pool("k6").is_none());
    assert_eq!(managers.snapshot("k6").consecutive_login_failures, 0);
}

#[test]
fn a_finished_login_is_shown() {
    let mut state = state_with_hosts(vec![host("k6", true)]);
    assert!(still_active(&state, "k6"));
    managed_start_finished("k6", 0, true, false, &mut state);
    assert!(state.hosts[0].is_master_ready);
    assert_eq!(state.hosts[0].status, "Connected");
    managed_start_finished("k6", 0, false, false, &mut state);
    assert!(!state.hosts[0].is_master_ready);
    managed_stop_finished("k6", &mut state);
    assert!(!state.hosts[0].is_master_ready);
    rebuild_begun("k6", &mut state);
    rebuild_finished("k6", true, false, &mut state);
    assert!(state.hosts[0].is_master_ready);
}

#[test]
fn an_adopted_host_is_connected_without_a_login() {
    let mut state = state_with_hosts(vec![host("k6", true), host("b8", true)]);
    let mut managers = HostManagers::new();
    assert!(!boot_host("k6", Some(1), &mut managers, &mut state));
    assert!(state.hosts[0].is_master_ready);
    assert_eq!(state.hosts[0].pool_index, 1);
    assert_eq!(state.hosts[0].last_msg, "Adopted live master (no login)");
    assert_eq!(state.hosts[1].status, "Idle");
    let pool = managers.snapshot("k6");
    assert_eq!(pool.active_index, 1);
    assert_eq!(pool.slot_status, [SlotStatus::Init, SlotStatus::Ready]);
    assert_eq!(next_action(&pool, 1, true, Some(true), 0), MaintenanceAction::Healthy);
    assert!(managers.pool("b8").is_none());
}

#[test]
fn a_restart_of_the_slot_in_use_rotates_to_a_ready_spare() {
    let mut managers = HostManagers::new();
    assert!(!rotates_after_restart(&managers, "k6", 0, 0));
    let mut pool = managers.snapshot("k6");
    pool.slot_status[1] = SlotStatus::Ready;
    managers.put_pool("k6", pool);
    assert!(rotates_after_restart(&managers, "k6", 0, 0));
    assert!(!rotates_after_restart(&managers, "k6", 0, 1));
    assert!(!rotates_after_restart(&managers, "k6", 1, 1));
}

#[test]
fn a_rotation_is_due_after_the_interval() {
    assert!(!rotation_due(14_999, 10_000));
    assert!(rotation_due(15_000, 10_000));
}

#[test]
fn a_heartbeat_checks_a_connected_slot() {
    let mut state = state_with_hosts(vec![host("k6", true)]);
    let mut managers = HostManagers::new();
    let mut pool = managers.snapshot("k6");
    pool.slot_status[0] = SlotStatus::Ready;
    managers.write_back("k6", &pool);
    let mut tick = HostTick::new("k6", pool, false, NOW);
    let ask = tick.step(TickEvent::Begin, &mut managers, &mut state);
    assert_eq!(ask, TickAsk::Check { slot: 0 });
    let ask = tick.step(TickEvent::Checked(true), &mut managers, &mut state);
    assert_eq!(ask, TickAsk::NoteAlive { slot: 0 });
}

#[test]
fn a_heartbeat_leaves_a_cooling_host_alone() {
    let mut state = state_with_hosts(vec![host("k6", true)]);
    let mut managers = HostManagers::new();
    let mut pool = managers.snapshot("k6");
    pool.slot_status[0] = SlotStatus::Dead;
    pool.cooldown_until = Some(NOW + 1);
    managers.write_back("k6", &pool);
    let mut tick = HostTick::new("k6", pool, false, NOW);
    let ask = tick.step(TickEvent::Begin, &mut managers, &mut state);
    assert!(!matches!(ask, TickAsk::Restart { .. }));
}
