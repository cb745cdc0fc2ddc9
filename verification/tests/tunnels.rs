use a2fa_daemon::handlers::discovery::{discover_nodes, find_free_port, jobs_reply, port_suggest, Job};
use a2fa_daemon::handlers::tunnel_batch::tunnels_batch;
use a2fa_daemon::handlers::tunnel_settings::{
    parse_port_param, tunnel_rename, tunnel_set_autostart, tunnel_set_jump_candidates,
    tunnel_set_ports, tunnel_set_post_connect, tunnel_set_tags, tunnel_set_url_path,
};
use a2fa_daemon::handlers::tunnels::{
    expand_first_node, is_valid_port, list_tunnels, tunnel_add, tunnel_events, tunnel_remove,
    tunnel_set_node, tunnel_snapshot, tunnel_start, tunnel_stop, tunnel_toggle,
};
use a2fa_daemon::handlers::Reply;
use a2fa_daemon::json::{parse_json, render_json, Json};
use a2fa_daemon::model::{Error, Host, State, Tunnel, TunnelStatus};
use a2fa_daemon::starts::ForwardSpec;
use a2fa_daemon::tunnel_runtime::TunnelRuntime;

fn j(text: &str) -> Json {
    parse_json(text).unwrap()
}

fn items(v: &Json) -> &Vec<Json> {
    match v {
        Json::Arr(items) => items,
        _ => panic!("not an array"),
    }
}

fn ok(r: Reply) -> Json {
    r.result.unwrap()
}

fn err(r: Reply) -> Error {
    r.result.unwrap_err()
}

fn tunnel(name: &str, port: u16) -> Tunnel {
    Tunnel {
        name: name.into(),
        local_port: port,
        remote_port: port,
        jump_candidates: None,
        last_node: None,
        last_user: None,
        direct_host: None,
        auto_start: false,
        post_connect_cmd: None,
        tags: vec![],
        url_path: None,
        wants_alive: false,
        status: TunnelStatus::Idle,
        active_jump: None,
        last_msg: "Ready".into(),
        last_alive_at: 0,
        total_uptime_ms: 0,
        connect_count: 0,
        fail_count: 0,
    }
}

fn host(name: &str, active: bool, ready: bool) -> Host {
    Host {
        host: name.into(),
        status: "Idle".into(),
        active,
        is_master_ready: ready,
        pool_index: 0,
        pool_alive: 0,
        is_mounted: false,
        last_msg: "".into(),
    }
}

fn make_state() -> State {
    State::with_tunnels(vec![])
}

fn make_state_with_tunnel(name: &str, port: u16) -> State {
    State::with_tunnels(vec![tunnel(name, port)])
}

fn make_alive_tunnel(name: &str, port: u16) -> State {
    let mut t = tunnel(name, port);
    t.last_node = Some("gpunode01".into());
    t.last_user = Some("jdoe".into());
    t.wants_alive = true;
    t.status = TunnelStatus::Alive;
    t.active_jump = Some("k6".into());
    t.last_msg = "Connected".into();
    t.connect_count = 1;
    State::with_tunnels(vec![t])
}

fn make_tunnel_with_status(name: &str, port: u16, status: TunnelStatus) -> State {
    let mut t = tunnel(name, port);
    t.last_node = Some("gpunode01".into());
    t.last_user = Some("jdoe".into());
    t.wants_alive = true;
    t.status = status;
    t.active_jump = Some("k6".into());
    t.last_msg = "In progress".into();
    State::with_tunnels(vec![t])
}

fn set_ports(state: &mut State, params: &str) -> Reply {
    let mut rt = TunnelRuntime::new();
    tunnel_set_ports(state, &j(params), &mut rt, |_p: u16| false, 0)
}

#[test]
fn set_ports_changes_both_ports_and_persists_shape() {
    let mut state = make_tunnel_with_status("nb", 8888, TunnelStatus::Idle);
    let r = set_ports(&mut state, r#"{"name": "nb", "local_port": 9001, "remote_port": 9002}"#);
    assert!(r.effects.persist);
    let snap = ok(r);
    assert_eq!(snap.uint_at("local_port"), Some(9001));
    assert_eq!(snap.uint_at("remote_port"), Some(9002));
    let t = state.tunnels.iter().find(|t| t.name == "nb").unwrap();
    assert_eq!(t.local_port, 9001);
    assert_eq!(t.remote_port, 9002);
}

#[test]
fn set_ports_local_only_leaves_remote_untouched() {
    let mut state = make_tunnel_with_status("nb", 8888, TunnelStatus::Idle);
    ok(set_ports(&mut state, r#"{"name": "nb", "local_port": 9100}"#));
    let t = state.tunnels.iter().find(|t| t.name == "nb").unwrap();
    assert_eq!(t.local_port, 9100);
    assert_eq!(t.remote_port, 8888, "remote port must be untouched");
}

#[test]
fn set_ports_preserves_tags_hook_and_jump_settings() {
    let mut state = make_tunnel_with_status("nb", 8888, TunnelStatus::Idle);
    {
        let t = state.tunnels.iter_mut().find(|t| t.name == "nb").unwrap();
        t.tags = vec!["gpu".into(), "jupyter".into()];
        t.post_connect_cmd = Some("open -a Safari".into());
        t.url_path = Some("/?token=abc".into());
        t.auto_start = true;
    }
    ok(set_ports(&mut state, r#"{"name": "nb", "local_port": 9200}"#));
    let t = state.tunnels.iter().find(|t| t.name == "nb").unwrap();
    assert_eq!(t.tags, vec!["gpu".to_string(), "jupyter".to_string()]);
    assert_eq!(t.post_connect_cmd.as_deref(), Some("open -a Safari"));
    assert_eq!(t.url_path.as_deref(), Some("/?token=abc"));
    assert!(t.auto_start);
}

#[test]
fn set_ports_on_live_tunnel_resets_status_but_keeps_wants_alive() {
    let mut state = make_tunnel_with_status("nb", 8888, TunnelStatus::Alive);
    ok(set_ports(&mut state, r#"{"name": "nb", "local_port": 9300}"#));
    let t = state.tunnels.iter().find(|t| t.name == "nb").unwrap();
    assert_eq!(t.status, TunnelStatus::Idle, "live tunnel must be stopped");
    assert!(t.wants_alive, "it must come back on the new port");
}

#[test]
fn set_ports_requires_at_least_one_port() {
    let mut state = make_tunnel_with_status("nb", 8888, TunnelStatus::Idle);
    let e = err(set_ports(&mut state, r#"{"name": "nb"}"#));
    assert!(matches!(e, Error::BadParams(ref m) if m.contains("nothing to change")));
}

#[test]
fn set_ports_rejects_invalid_values_without_mutating() {
    let mut state = make_tunnel_with_status("nb", 8888, TunnelStatus::Idle);
    for bad in ["0", "65536", "\"8080\""] {
        let e = err(set_ports(
            &mut state,
            &format!(r#"{{"name": "nb", "local_port": {bad}}}"#),
        ));
        assert!(matches!(e, Error::BadParams(_)), "must reject {bad}");
    }
    assert_eq!(state.tunnels[0].local_port, 8888, "nothing may change on error");
}

#[test]
fn set_ports_rejects_a_port_owned_by_another_tunnel() {
    let mut state = make_tunnel_with_status("nb", 8888, TunnelStatus::Idle);
    let mut other = state.tunnels[0].clone();
    other.name = "other".into();
    other.local_port = 9999;
    state.tunnels.push(other);
    let e = err(set_ports(&mut state, r#"{"name": "nb", "local_port": 9999}"#));
    assert!(matches!(e, Error::BadParams(ref m) if m.contains("already used")));
    ok(set_ports(&mut state, r#"{"name": "nb", "local_port": 8888}"#));
}

#[test]
fn set_ports_rejects_a_port_held_by_another_process() {
    let mut state = make_tunnel_with_status("nb", 8888, TunnelStatus::Idle);
    let mut rt = TunnelRuntime::new();
    let taken: u16 = 40123;
    let params = j(&format!(r#"{{"name": "nb", "local_port": {taken}}}"#));
    let e = err(tunnel_set_ports(&mut state, &params, &mut rt, |p: u16| p == taken, 0));
    assert!(matches!(e, Error::PortInUse(p) if p == taken), "got {e:?}");
    assert_eq!(state.tunnels[0].local_port, 8888, "a rejected edit must change nothing");
}

#[test]
fn set_ports_allows_resubmitting_its_own_port() {
    let mut state = make_tunnel_with_status("nb", 8888, TunnelStatus::Idle);
    let mut rt = TunnelRuntime::new();
    let params = j(r#"{"name": "nb", "local_port": 8888, "remote_port": 7000}"#);
    ok(tunnel_set_ports(&mut state, &params, &mut rt, |_p: u16| true, 0));
    assert_eq!(state.tunnels[0].remote_port, 7000);
}

#[test]
fn set_ports_unknown_tunnel_is_not_found_without_touching_the_port() {
    let mut state = make_tunnel_with_status("nb", 8888, TunnelStatus::Idle);
    let mut rt = TunnelRuntime::new();
    let params = j(r#"{"name": "ghost", "local_port": 40124}"#);
    let e = err(tunnel_set_ports(
        &mut state,
        &params,
        &mut rt,
        |_p: u16| panic!("the port must not be looked at"),
        0,
    ));
    assert!(matches!(e, Error::NotFound(_)), "got {e:?}");
}

#[test]
fn list_tunnels_empty() {
    let state = make_state();
    let v = list_tunnels(&state, 0);
    assert!(items(&v).is_empty());
}

#[test]
fn list_tunnels_one() {
    let state = make_state_with_tunnel("nb", 9000);
    let v = list_tunnels(&state, 0);
    let arr = items(&v);
    assert_eq!(arr.len(), 1);
    assert_eq!(arr[0].str_at("name").as_deref(), Some("nb"));
    assert_eq!(arr[0].uint_at("local_port"), Some(9000));
}

fn add(state: &mut State, params: &str) -> Reply {
    tunnel_add(state, &j(params), |_p: u16| false, 0)
}

#[test]
fn tunnel_add_invalid_port_returns_bad_params() {
    let mut state = make_state();
    let e = err(add(&mut state, r#"{"name": "t", "local_port": 80}"#));
    assert!(matches!(e, Error::BadParams(_)));
}

#[test]
fn tunnel_add_duplicate_name_returns_duplicate() {
    let mut state = make_state_with_tunnel("nb", 9100);
    let e = err(add(&mut state, r#"{"name": "nb", "local_port": 9200}"#));
    assert!(matches!(e, Error::Duplicate(_)));
}

fn stop(state: &mut State, name: &str) -> Reply {
    let mut rt = TunnelRuntime::new();
    tunnel_stop(state, &j(&format!(r#"{{"name": "{name}"}}"#)), &mut rt, 0)
}

#[test]
fn tunnel_stop_marks_idle_and_clears_wants_alive() {
    let mut state = make_alive_tunnel("nb", 9300);
    ok(stop(&mut state, "nb"));
    let t = &state.tunnels[0];
    assert_eq!(t.status, TunnelStatus::Idle);
    assert!(!t.wants_alive);
}

#[test]
fn tunnel_stop_idempotent() {
    let mut state = make_state_with_tunnel("nb", 9301);
    ok(stop(&mut state, "nb"));
    assert_eq!(state.tunnels[0].status, TunnelStatus::Idle);
}

#[test]
fn tunnel_stop_unknown_name_returns_not_found() {
    let mut state = make_state();
    assert!(matches!(err(stop(&mut state, "ghost")), Error::NotFound(_)));
}

fn start(state: &mut State, name: &str) -> Reply {
    tunnel_start(state, &j(&format!(r#"{{"name": "{name}"}}"#)), "me")
}

#[test]
fn tunnel_start_unknown_name_returns_not_found() {
    let mut state = make_state();
    assert!(matches!(err(start(&mut state, "ghost")), Error::NotFound(_)));
}

#[test]
fn tunnel_start_no_node_sets_idle_last_msg() {
    let mut state = make_state_with_tunnel("nb", 9302);
    ok(start(&mut state, "nb"));
    let msg = state.tunnels[0].last_msg.clone();
    assert!(msg.contains("no node") || msg.contains("waiting") || msg.contains("jump"));
}

#[test]
fn tunnel_start_already_alive_is_noop() {
    let mut state = make_alive_tunnel("nb", 9310);
    let before = state.tunnels[0].last_msg.clone();
    let r = start(&mut state, "nb");
    assert!(r.effects.start.is_none());
    assert_eq!(ok(r), Json::Null);
    let t = &state.tunnels[0];
    assert_eq!(t.status, TunnelStatus::Alive, "status must stay Alive");
    assert_eq!(t.last_msg, before, "early-return must not touch last_msg");
}

#[test]
fn tunnel_start_already_starting_is_noop() {
    let mut state = make_tunnel_with_status("nb", 9311, TunnelStatus::Starting);
    let before = state.tunnels[0].last_msg.clone();
    let r = start(&mut state, "nb");
    assert!(r.effects.start.is_none());
    assert_eq!(ok(r), Json::Null);
    let t = &state.tunnels[0];
    assert_eq!(t.status, TunnelStatus::Starting);
    assert_eq!(t.last_msg, before);
}

fn toggle(state: &mut State, name: &str) -> Reply {
    let mut rt = TunnelRuntime::new();
    tunnel_toggle(state, &j(&format!(r#"{{"name": "{name}"}}"#)), &mut rt, "me", 0)
}

#[test]
fn tunnel_toggle_alive_stops() {
    let mut state = make_alive_tunnel("nb", 9400);
    ok(toggle(&mut state, "nb"));
    assert_eq!(state.tunnels[0].status, TunnelStatus::Idle);
}

#[test]
fn tunnel_toggle_starting_stops() {
    let mut state = make_tunnel_with_status("nb", 9401, TunnelStatus::Starting);
    ok(toggle(&mut state, "nb"));
    assert_eq!(
        state.tunnels[0].status,
        TunnelStatus::Idle,
        "toggle on Starting tunnel must stop it"
    );
}

fn set_node(state: &mut State, params: &str) -> Reply {
    let mut rt = TunnelRuntime::new();
    tunnel_set_node(state, &j(params), &mut rt, "me", 0)
}

#[test]
fn tunnel_set_node_updates_last_node() {
    let mut state = make_state_with_tunnel("nb", 9500);
    ok(set_node(&mut state, r#"{"name": "nb", "node": "gpunode01", "user": "jdoe"}"#));
    assert_eq!(state.tunnels[0].last_node.as_deref(), Some("gpunode01"));
    assert_eq!(state.tunnels[0].last_user.as_deref(), Some("jdoe"));
}

#[test]
fn tunnel_set_node_start_false_does_not_start() {
    let mut state = make_state_with_tunnel("nb", 9503);
    let v = ok(set_node(
        &mut state,
        r#"{"name": "nb", "node": "gpunode07", "user": "jdoe", "start": false}"#,
    ));
    assert_eq!(v, Json::Null);
    assert_eq!(state.tunnels[0].last_node.as_deref(), Some("gpunode07"));
    assert_eq!(state.tunnels[0].status, TunnelStatus::Idle);
}

#[test]
fn tunnel_set_node_resets_squeue_miss_counter() {
    let mut state = make_state_with_tunnel("nb", 9502);
    state.tunnels[0].status = TunnelStatus::Alive;
    state.tunnels[0].last_node = Some("gpunode99".into());
    let mut rt = TunnelRuntime::new();
    rt.with_rt_mut("nb", |mut r| {
        r.consecutive_squeue_misses = 2;
        (r, ())
    });
    ok(tunnel_set_node(
        &mut state,
        &j(r#"{"name": "nb", "node": "gpunode99", "user": "jdoe"}"#),
        &mut rt,
        "me",
        0,
    ));
    let misses = rt.with_rt_mut("nb", |r| (r, r.consecutive_squeue_misses));
    assert_eq!(misses, 0, "set_node must reset the staleness budget");
}

#[test]
fn tunnel_set_node_expands_slurm_range() {
    let mut state = make_state_with_tunnel("nb", 9501);
    ok(set_node(&mut state, r#"{"name": "nb", "node": "gpunode[01-03]", "user": "jdoe"}"#));
    assert_eq!(
        state.tunnels[0].last_node.as_deref(),
        Some("gpunode01"),
        "SLURM range must be expanded to first node before storage"
    );
}

#[test]
fn tunnel_set_node_unknown_returns_not_found() {
    let mut state = make_state();
    let e = err(set_node(&mut state, r#"{"name": "ghost", "node": "gpunode01"}"#));
    assert!(matches!(e, Error::NotFound(_)));
}

#[test]
fn tunnel_set_node_stale_attempts_start() {
    let mut state = make_tunnel_with_status("nb", 9502, TunnelStatus::Stale);
    ok(set_node(&mut state, r#"{"name": "nb", "node": "gpunode01", "user": "jdoe"}"#));
    assert_ne!(
        state.tunnels[0].status,
        TunnelStatus::Stale,
        "stale tunnel must not stay Stale after set_node"
    );
}

#[test]
fn tunnel_set_node_port_busy_attempts_start() {
    let mut state = make_tunnel_with_status("nb", 9503, TunnelStatus::PortBusy);
    ok(set_node(&mut state, r#"{"name": "nb", "node": "gpunode01", "user": "jdoe"}"#));
    assert_ne!(
        state.tunnels[0].status,
        TunnelStatus::PortBusy,
        "port_busy tunnel must not stay PortBusy after set_node"
    );
}

fn rename(state: &mut State, rt: &mut TunnelRuntime, params: &str) -> Reply {
    tunnel_rename(state, &j(params), rt, 0)
}

#[test]
fn tunnel_rename_ok() {
    let mut state = make_state_with_tunnel("nb", 9600);
    let mut rt = TunnelRuntime::new();
    let v = ok(rename(&mut state, &mut rt, r#"{"old": "nb", "new": "nb2"}"#));
    assert_eq!(v.str_at("name").as_deref(), Some("nb2"));
    assert_eq!(state.tunnels[0].name, "nb2");
}

#[test]
fn tunnel_rename_duplicate_returns_error() {
    let mut state = State::with_tunnels(vec![tunnel("nb", 9700), tunnel("nb2", 9701)]);
    let mut rt = TunnelRuntime::new();
    let e = err(rename(&mut state, &mut rt, r#"{"old": "nb", "new": "nb2"}"#));
    assert!(matches!(e, Error::Duplicate(_)));
}

#[test]
fn discover_nodes_missing_host_returns_not_found() {
    let state = make_state();
    let e = discover_nodes(&state, &j(r#"{"host": "ghost"}"#)).unwrap_err();
    assert!(matches!(e, Error::NotFound(_)));
}

#[test]
fn discover_nodes_master_not_ready_returns_discovery_error() {
    let mut state = make_state();
    state.hosts.push(host("k6", false, false));
    let e = discover_nodes(&state, &j(r#"{"host": "k6"}"#)).unwrap_err();
    assert!(matches!(e, Error::Discovery(_)));
}

#[test]
fn tunnels_port_suggest_returns_free_port() {
    let state = make_state();
    let v = ok(port_suggest(&state, &j("{}"), |_p: u16| true));
    let port = v.uint_at("port").unwrap();
    assert!(port >= 1024);
}

#[test]
fn tunnel_set_tags_and_retrieve() {
    let mut state = make_state_with_tunnel("nb", 9800);
    let v = ok(tunnel_set_tags(&mut state, &j(r#"{"name": "nb", "tags": ["ml", "gpu"]}"#), 0));
    assert_eq!(v.get("tags"), Some(&j(r#"["ml", "gpu"]"#)));
}

#[test]
fn tunnel_events_unknown_tunnel_returns_not_found() {
    let state = make_state();
    let rt = TunnelRuntime::new();
    let e = err(tunnel_events(&state, &j(r#"{"name": "ghost"}"#), &rt));
    assert!(matches!(e, Error::NotFound(_)));
}

#[test]
fn tunnel_events_no_runtime_returns_empty_events() {
    let state = make_state_with_tunnel("nb", 9900);
    let rt = TunnelRuntime::new();
    let v = ok(tunnel_events(&state, &j(r#"{"name": "nb"}"#), &rt));
    assert!(items(v.get("events").unwrap()).is_empty());
}

#[test]
fn tunnel_events_with_runtime_returns_recorded_events() {
    let state = make_state_with_tunnel("nb", 9901);
    let mut rt = TunnelRuntime::new();
    rt.record("nb", 1_000_000, "connected");
    rt.record("nb", 1_001_000, "alive");
    let v = ok(tunnel_events(&state, &j(r#"{"name": "nb"}"#), &rt));
    let evs = items(v.get("events").unwrap());
    assert_eq!(evs.len(), 2);
    assert_eq!(evs[0].get("ts"), Some(&j("1000.0")));
    assert_eq!(evs[0].str_at("msg").as_deref(), Some("connected"));
    assert_eq!(evs[1].get("ts"), Some(&j("1001.0")));
    assert_eq!(evs[1].str_at("msg").as_deref(), Some("alive"));
}

#[test]
fn tunnels_batch_bad_action() {
    let e = tunnels_batch(&j(r#"{"action": "fly", "names": []}"#)).unwrap_err();
    assert!(matches!(e, Error::BadParams(_)));
}

fn run_batch(state: &mut State, params: &str) -> Json {
    let mut rt = TunnelRuntime::new();
    let mut b = tunnels_batch(&j(params)).unwrap();
    while !b.is_done() {
        b.next_chunk(state, &mut rt, "me", 0);
    }
    b.finish()
}

#[test]
fn tunnels_batch_stop_unknown_reports_error_per_item() {
    let mut state = make_state();
    let v = run_batch(&mut state, r#"{"action": "stop", "names": ["ghost"]}"#);
    let results = items(v.get("results").unwrap());
    assert_eq!(results.len(), 1);
    assert_eq!(results[0].bool_at("ok"), Some(false));
}

#[test]
fn tunnels_batch_start_processes_all_names_under_cap() {
    let mut state = make_state_with_tunnel("nb", 9500);
    let mut names = String::from("\"nb\"");
    for i in 0..9 {
        names.push_str(&format!(", \"missing-{i}\""));
    }
    let v = run_batch(&mut state, &format!(r#"{{"action": "start", "names": [{names}]}}"#));
    let results = items(v.get("results").unwrap());
    assert_eq!(results.len(), 10, "every requested name must get a result");
}

#[test]
fn tunnel_add_direct_host_stored_and_in_snapshot() {
    let mut state = make_state();
    let snap = ok(add(
        &mut state,
        r#"{"name": "web", "local_port": 9000, "direct_host": "loginhost"}"#,
    ));
    assert_eq!(snap.str_at("direct_host").as_deref(), Some("loginhost"));
    assert_eq!(state.tunnels[0].direct_host.as_deref(), Some("loginhost"));
}

#[test]
fn tunnel_add_without_direct_host_is_none() {
    let mut state = make_state();
    let snap = ok(add(&mut state, r#"{"name": "nb", "local_port": 8888}"#));
    assert_eq!(snap.get("direct_host"), Some(&Json::Null));
    assert_eq!(state.tunnels[0].direct_host, None);
}

#[test]
fn tunnel_add_direct_host_leading_dash_rejected() {
    let mut state = make_state();
    let e = err(add(
        &mut state,
        r#"{"name": "x", "local_port": 9001, "direct_host": "-oProxyCommand=x"}"#,
    ));
    assert!(matches!(e, Error::BadParams(_)));
}

#[test]
fn tunnel_start_direct_no_ready_host_waits() {
    let mut state = make_state();
    ok(add(
        &mut state,
        r#"{"name": "web", "local_port": 9002, "direct_host": "loginhost"}"#,
    ));
    ok(start(&mut state, "web"));
    let t = &state.tunnels[0];
    assert_eq!(t.status, TunnelStatus::Idle);
    assert!(t.last_msg.contains("waiting for host"), "got: {}", t.last_msg);
    assert_eq!(t.active_jump.as_deref(), Some("loginhost"));
    assert!(t.wants_alive, "wants_alive must be set so maintenance retries");
}

#[test]
fn a_start_through_a_ready_host_is_ordered_once() {
    let mut state = make_tunnel_with_status("nb", 9000, TunnelStatus::Idle);
    state.hosts.push(host("k6", true, true));
    let r = start(&mut state, "nb");
    let order = r.effects.start.unwrap();
    assert_eq!(order.name, "nb");
    assert_eq!(order.local_port, 9000);
    assert!(matches!(
        order.spec,
        ForwardSpec::Compute { ref jump, ref user, ref node }
            if jump == "k6" && user == "jdoe" && node == "gpunode01"
    ));
    assert_eq!(order.spec.route(), ("k6".to_string(), "gpunode01".to_string()));
    assert_eq!(state.tunnels[0].status, TunnelStatus::Starting);
    assert!(start(&mut state, "nb").effects.start.is_none());
}

#[test]
fn a_direct_start_with_a_ready_host_is_ordered() {
    let mut state = make_state();
    ok(add(&mut state, r#"{"name": "web", "local_port": 9000, "direct_host": "login"}"#));
    state.hosts.push(host("login", true, true));
    let order = start(&mut state, "web").effects.start.unwrap();
    assert!(matches!(order.spec, ForwardSpec::Direct { ref host } if host == "login"));
    assert_eq!(order.spec.route(), ("login".to_string(), "localhost".to_string()));
    assert_eq!(state.tunnels[0].last_msg, "starting direct to login");
}

#[test]
fn a_parked_tunnel_is_no_longer_wanted_once_stopped() {
    let mut state = make_state();
    ok(add(&mut state, r#"{"name": "web", "local_port": 9000, "direct_host": "login"}"#));
    start(&mut state, "web");
    assert_eq!(state.tunnels[0].status, TunnelStatus::Idle);
    assert!(state.tunnels[0].wants_alive);
    let r = stop(&mut state, "web");
    assert!(r.effects.persist);
    assert_eq!(state.tunnels[0].status, TunnelStatus::Idle);
    assert!(!state.tunnels[0].wants_alive);
    assert!(!stop(&mut state, "web").effects.persist);
}

#[test]
fn a_stop_of_an_idle_tunnel_names_a_process_left_behind() {
    let mut state = make_tunnel_with_status("nb", 9000, TunnelStatus::Idle);
    state.tunnels[0].wants_alive = false;
    let mut rt = TunnelRuntime::new();
    rt.store_child("nb", 7);
    let params = j(r#"{"name": "nb"}"#);
    assert_eq!(tunnel_stop(&mut state, &params, &mut rt, 1_000).effects.kill, Some(7));
    assert_eq!(tunnel_stop(&mut state, &params, &mut rt, 1_000).effects.kill, None);
}

#[test]
fn a_stop_keeps_the_uptime_and_names_the_process() {
    let mut state = make_alive_tunnel("nb", 9000);
    let mut rt = TunnelRuntime::new();
    rt.store_child("nb", 7);
    rt.with_rt_mut("nb", |mut s| {
        s.alive_since = Some(1_000);
        (s, ())
    });
    let r = tunnel_stop(&mut state, &j(r#"{"name": "nb"}"#), &mut rt, 4_500);
    assert_eq!(r.effects.kill, Some(7));
    assert!(r.effects.persist);
    assert_eq!(state.tunnels[0].total_uptime_ms, 3_500);
    assert_eq!(rt.child("nb"), None);
    let again = tunnel_stop(&mut state, &j(r#"{"name": "nb"}"#), &mut rt, 9_000);
    assert_eq!(again.effects.kill, None);
    assert!(!again.effects.persist);
    assert_eq!(state.tunnels[0].total_uptime_ms, 3_500);
}

#[test]
fn a_removed_tunnel_is_gone_with_its_records() {
    let mut state = make_alive_tunnel("nb", 9000);
    let mut rt = TunnelRuntime::new();
    rt.store_child("nb", 3);
    rt.record("nb", 1, "up");
    let r = tunnel_remove(&mut state, &j(r#"{"name": "nb"}"#), &mut rt);
    assert_eq!(r.effects.kill, Some(3));
    assert!(state.tunnels.is_empty());
    assert!(rt.events("nb").is_empty());
    let e = tunnel_remove(&mut state, &j(r#"{"name": "nb"}"#), &mut rt).result.unwrap_err();
    assert_eq!(e, Error::NotFound("nb".into()));
}

#[test]
fn a_rename_moves_the_runtime_records() {
    let mut state = make_alive_tunnel("nb", 9000);
    let mut rt = TunnelRuntime::new();
    rt.store_child("nb", 3);
    rt.record("nb", 1, "up");
    ok(rename(&mut state, &mut rt, r#"{"old": "nb", "new": " nb2 "}"#));
    assert_eq!(rt.child("nb2"), Some(3));
    assert_eq!(rt.child("nb"), None);
    assert_eq!(rt.events("nb2").len(), 1);
    assert_eq!(
        err(rename(&mut state, &mut rt, r#"{"new": "x"}"#)),
        Error::BadParams("old name required".into())
    );
    assert_eq!(
        err(rename(&mut state, &mut rt, r#"{"old": "nb2", "new": " "}"#)),
        Error::BadParams("new name required".into())
    );
}

#[test]
fn an_added_port_must_be_free_here_and_on_the_machine() {
    let mut state = make_state_with_tunnel("nb", 9000);
    assert_eq!(
        err(add(&mut state, r#"{"name": "b", "local_port": 9000}"#)),
        Error::PortInUse(9000)
    );
    let r = tunnel_add(
        &mut state,
        &j(r#"{"name": "b", "local_port": 9001}"#),
        |p: u16| p == 9001,
        0,
    );
    assert_eq!(err(r), Error::PortInUse(9001));
    assert_eq!(state.tunnels.len(), 1);
    assert_eq!(Error::PortInUse(9001).code(), "port_in_use");
    assert_eq!(Error::PortInUse(9001).text(), "port 9001 is in use");
}

#[test]
fn settings_are_trimmed_and_cleared() {
    let mut state = make_state_with_tunnel("nb", 9000);
    state.hosts.push(host("k6", true, true));
    ok(tunnel_set_post_connect(&mut state, &j(r#"{"name": "nb", "cmd": "  run  "}"#), 0));
    assert_eq!(state.tunnels[0].post_connect_cmd.as_deref(), Some("run"));
    ok(tunnel_set_post_connect(&mut state, &j(r#"{"name": "nb", "cmd": "   "}"#), 0));
    assert_eq!(state.tunnels[0].post_connect_cmd, None);
    ok(tunnel_set_url_path(&mut state, &j(r#"{"name": "nb", "path": "/lab"}"#), 0));
    assert_eq!(state.tunnels[0].url_path.as_deref(), Some("/lab"));
    ok(tunnel_set_autostart(&mut state, &j(r#"{"name": "nb", "value": true}"#), 0));
    assert!(state.tunnels[0].auto_start);
    ok(tunnel_set_jump_candidates(
        &mut state,
        &j(r#"{"name": "nb", "candidates": ["ghost", "k6"]}"#),
        0,
    ));
    assert_eq!(state.tunnels[0].jump_candidates, Some(vec!["k6".to_string()]));
    ok(tunnel_set_jump_candidates(&mut state, &j(r#"{"name": "nb", "candidates": null}"#), 0));
    assert_eq!(state.tunnels[0].jump_candidates, None);
    let e = err(tunnel_set_jump_candidates(
        &mut state,
        &j(r#"{"name": "nb", "candidates": 3}"#),
        0,
    ));
    assert_eq!(e, Error::BadParams("candidates must be list or null".into()));
}

#[test]
fn node_lists_shrink_to_their_first_node() {
    assert_eq!(expand_first_node("gpu[01-03]"), ("gpu01".to_string(), true));
    assert_eq!(expand_first_node("gpu[07,09]"), ("gpu07".to_string(), true));
    assert_eq!(expand_first_node("login1"), ("login1".to_string(), false));
}

#[test]
fn ports_are_read_from_whole_numbers_only() {
    assert!(!is_valid_port(1023));
    assert!(is_valid_port(1024));
    assert_eq!(parse_port_param(&j("{}"), "p").unwrap(), None);
    assert_eq!(parse_port_param(&j(r#"{"p": 8080}"#), "p").unwrap(), Some(8080));
    assert!(parse_port_param(&j(r#"{"p": 80.5}"#), "p").is_err());
}

#[test]
fn the_next_free_port_is_found() {
    assert_eq!(find_free_port(9000, &vec![9000, 9001], |p: u16| p != 9002), 9003);
    assert_eq!(find_free_port(80, &vec![], |_p: u16| true), 1024);
    assert_eq!(find_free_port(9000, &vec![], |_p: u16| false), 9000);
    assert_eq!(find_free_port(65534, &vec![65534], |_p: u16| true), 65535);
    assert_eq!(find_free_port(65535, &vec![], |_p: u16| true), 65535);
    assert_eq!(find_free_port(65534, &vec![65534, 65535], |_p: u16| true), 65534);
    let state = make_state_with_tunnel("nb", 9000);
    let v = ok(port_suggest(&state, &j(r#"{"base": 9000}"#), |_p: u16| true));
    assert_eq!(v.uint_at("port"), Some(9001));
}

#[test]
fn jobs_are_listed() {
    let jobs = vec![Job {
        jobid: "1".into(),
        partition: "gpu".into(),
        name: "train".into(),
        state: "RUNNING".into(),
        time: "0:10".into(),
        time_left: "1:00".into(),
        node: "gpu01".into(),
    }];
    let v = jobs_reply(&jobs);
    assert_eq!(items(&v).len(), 1);
    assert_eq!(items(&v)[0].str_at("node").as_deref(), Some("gpu01"));
}

#[test]
fn a_ready_host_can_be_asked_for_jobs() {
    let mut state = make_state();
    state.hosts.push(host("k6", true, true));
    let (target, _) = discover_nodes(&state, &j(r#"{"host": "k6"}"#)).unwrap();
    assert_eq!(target, "k6");
}

#[test]
fn a_snapshot_counts_the_current_run() {
    let mut t = tunnel("nb", 9000);
    t.status = TunnelStatus::Alive;
    t.last_alive_at = 10_000;
    t.total_uptime_ms = 1_500;
    let v = tunnel_snapshot(&t, 12_250);
    assert_eq!(v.get("total_uptime_sec"), Some(&j("3.75")));
    assert_eq!(v.str_at("status").as_deref(), Some("alive"));
    let text = render_json(v);
    assert!(text.contains("\"total_uptime_sec\":3.75"), "{text}");
    assert!(text.contains("\"last_alive_at\":10.0"), "{text}");
}
