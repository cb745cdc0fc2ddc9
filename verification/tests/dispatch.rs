use a2fa_daemon::dispatch::{
    dispatch, encode_error, encode_response, read_call, read_line, reply_line, Dispatched, Env,
    Method, Work,
};
use a2fa_daemon::handlers::system::{
    log_reply, log_tail, wake_recover, wake_recover_finish, TailReader, WakeRecoverGuard,
};
use a2fa_daemon::json::{parse_json, Json};
use a2fa_daemon::model::{Error, Host, State, Tunnel, TunnelStatus};
use a2fa_daemon::tunnel_runtime::TunnelRuntime;

fn empty_state() -> State {
    State::with_tunnels(vec![])
}

fn state_with_tunnel(name: &str, port: u16) -> State {
    State::with_tunnels(vec![Tunnel {
        name: name.into(),
        local_port: port,
        remote_port: port,
        jump_candidates: None,
        last_node: None,
        last_user: None,
        direct_host: None,
        auto_start: false,
        post_connect_cmd: None,
        tags: vec![],
        url_path: None,
        wants_alive: false,
        status: TunnelStatus::Idle,
        active_jump: None,
        last_msg: "Ready".into(),
        last_alive_at: 0,
        total_uptime_ms: 0,
        connect_count: 0,
        fail_count: 0,
    }])
}

fn env() -> Env {
    Env { pid: 4711, default_user: "me".into(), now: 1_700_000_000_000, managed: true }
}

fn send(line: &[u8], state: &mut State) -> Dispatched {
    let mut rt = TunnelRuntime::new();
    dispatch(line.to_vec(), state, &mut rt, &env(), |_p: u16| false, |_p: u16| true)
}

fn answer(line: &[u8], state: &mut State) -> String {
    match send(line, state) {
        Dispatched::Line { text, .. } => text,
        Dispatched::Outside(_) => panic!("the call must be answered here"),
    }
}

fn parse(line: &str) -> Json {
    parse_json(line.trim_end()).expect("response should be valid JSON")
}

fn error_code(v: &Json) -> Option<String> {
    v.get("error").and_then(|e| e.str_at("code"))
}

fn result_items(v: &Json) -> &Vec<Json> {
    match v.get("result") {
        Some(Json::Arr(items)) => items,
        _ => panic!("result should be array"),
    }
}

#[test]
fn invalid_utf8_line_is_invalid_request() {
    let mut state = empty_state();
    let line = b"\xff\xfe{\"id\":\"1\",\"method\":\"ping\",\"params\":{}}\n";
    let v = parse(&answer(line, &mut state));
    assert_eq!(error_code(&v).as_deref(), Some("invalid_request"));
}

#[test]
fn dispatch_invalid_utf8_line_is_invalid_request() {
    let mut state = empty_state();
    let mut bad = b"\xff\xfe".to_vec();
    bad.extend_from_slice(b"{\"id\":\"1\",\"method\":\"ping\",\"params\":{}}\n");
    let v = parse(&answer(&bad, &mut state));
    assert_eq!(error_code(&v).as_deref(), Some("invalid_request"));
}

#[test]
fn non_object_request_is_invalid_request() {
    let mut state = empty_state();
    let v = parse(&answer(b"5\n", &mut state));
    assert_eq!(error_code(&v).as_deref(), Some("invalid_request"));
}

#[test]
fn dispatch_non_object_request_is_invalid_request() {
    let mut state = empty_state();
    let v = parse(&answer(b"5\n", &mut state));
    assert_eq!(
        error_code(&v).as_deref(),
        Some("invalid_request"),
        "expected invalid_request for bare number"
    );
}

#[test]
fn non_object_array_is_invalid_request() {
    let mut state = empty_state();
    let v = parse(&answer(b"[1,2,3]\n", &mut state));
    assert_eq!(error_code(&v).as_deref(), Some("invalid_request"));
}

#[test]
fn array_request_is_invalid_request() {
    let mut state = empty_state();
    let v = parse(&answer(b"[1,2,3]\n", &mut state));
    assert_eq!(error_code(&v).as_deref(), Some("invalid_request"));
}

#[test]
fn unknown_method_returns_unknown_method() {
    let mut state = empty_state();
    let line = b"{\"id\":\"1\",\"method\":\"nope\",\"params\":{}}\n";
    let v = parse(&answer(line, &mut state));
    assert_eq!(error_code(&v).as_deref(), Some("unknown_method"));
}

#[test]
fn dispatch_unknown_method_returns_unknown_method() {
    let mut state = empty_state();
    let line = b"{\"id\":\"1\",\"method\":\"nope\",\"params\":{}}\n";
    let v = parse(&answer(line, &mut state));
    assert_eq!(v.str_at("id").as_deref(), Some("1"));
    assert_eq!(error_code(&v).as_deref(), Some("unknown_method"));
}

#[test]
fn ping_returns_ok() {
    let mut state = empty_state();
    let v = parse(&answer(b"{\"id\":\"1\",\"method\":\"ping\",\"params\":{}}\n", &mut state));
    assert_eq!(v.str_at("id").as_deref(), Some("1"));
    let result = v.get("result").unwrap();
    assert_eq!(result.bool_at("ok"), Some(true));
    assert!(result.uint_at("pid").unwrap() > 0);
}

#[test]
fn dispatch_ping_returns_ok() {
    let mut state = empty_state();
    let v = parse(&answer(b"{\"id\":\"1\",\"method\":\"ping\",\"params\":{}}\n", &mut state));
    assert_eq!(v.str_at("id").as_deref(), Some("1"), "id should be echoed");
    let result = v.get("result").unwrap();
    assert_eq!(result.bool_at("ok"), Some(true));
    assert_eq!(result.uint_at("pid"), Some(4711));
}

#[test]
fn list_tunnels_returns_array() {
    let mut state = state_with_tunnel("nb", 9876);
    let line = b"{\"id\":\"2\",\"method\":\"list_tunnels\",\"params\":{}}\n";
    let v = parse(&answer(line, &mut state));
    let arr = result_items(&v);
    assert_eq!(arr.len(), 1);
    assert_eq!(arr[0].str_at("name").as_deref(), Some("nb"));
}

#[test]
fn dispatch_list_tunnels_returns_array() {
    let mut state = state_with_tunnel("nb", 9876);
    let line = b"{\"id\":\"2\",\"method\":\"list_tunnels\",\"params\":{}}\n";
    let v = parse(&answer(line, &mut state));
    let arr = result_items(&v);
    assert_eq!(arr.len(), 1, "expected 1 tunnel, got {}", arr.len());
    assert_eq!(arr[0].str_at("name").as_deref(), Some("nb"));
}

#[test]
fn list_hosts_returns_empty_array_for_empty_state() {
    let mut state = empty_state();
    let line = b"{\"id\":\"3\",\"method\":\"list_hosts\",\"params\":{}}\n";
    let v = parse(&answer(line, &mut state));
    assert!(result_items(&v).is_empty());
}

#[test]
fn dispatch_list_hosts_returns_empty_array_for_empty_state() {
    let mut state = empty_state();
    let line = b"{\"id\":\"3\",\"method\":\"list_hosts\",\"params\":{}}\n";
    let v = parse(&answer(line, &mut state));
    assert!(result_items(&v).is_empty());
}

#[test]
fn response_is_newline_terminated() {
    let mut state = empty_state();
    let resp = answer(b"{\"id\":\"1\",\"method\":\"ping\",\"params\":{}}\n", &mut state);
    assert!(resp.ends_with('\n'), "response must end with newline");
}

#[test]
fn dispatch_response_is_newline_terminated() {
    let mut state = empty_state();
    let resp = answer(b"{\"id\":\"1\",\"method\":\"ping\",\"params\":{}}\n", &mut state);
    assert!(resp.ends_with('\n'), "every response must end with \\n");
    assert_eq!(resp.matches('\n').count(), 1);
}

#[test]
fn id_is_echoed_back() {
    let mut state = empty_state();
    let line = b"{\"id\":\"req-42\",\"method\":\"ping\",\"params\":{}}\n";
    let v = parse(&answer(line, &mut state));
    assert_eq!(v.str_at("id").as_deref(), Some("req-42"));
}

#[test]
fn port_suggest_returns_port() {
    let mut state = empty_state();
    let line = b"{\"id\":\"1\",\"method\":\"port_suggest\",\"params\":{}}\n";
    let v = parse(&answer(line, &mut state));
    assert!(v.get("result").unwrap().uint_at("port").unwrap() >= 1024);
}

#[test]
fn dispatch_port_suggest_returns_free_port() {
    let mut state = empty_state();
    let line = b"{\"id\":\"4\",\"method\":\"port_suggest\",\"params\":{}}\n";
    let v = parse(&answer(line, &mut state));
    assert!(v.get("result").unwrap().uint_at("port").unwrap() >= 1024);
}

#[test]
fn tunnel_events_dispatch_returns_events_shape() {
    let mut state = state_with_tunnel("nb", 9902);
    let line = b"{\"id\":\"ev1\",\"method\":\"tunnel_events\",\"params\":{\"name\":\"nb\"}}\n";
    let v = parse(&answer(line, &mut state));
    let events = v.get("result").unwrap().get("events");
    assert!(
        matches!(events, Some(Json::Arr(_))),
        "tunnel_events must return {{events:[...]}}"
    );
}

#[test]
fn tunnel_events_dispatch_unknown_tunnel_returns_not_found() {
    let mut state = empty_state();
    let line = b"{\"id\":\"ev2\",\"method\":\"tunnel_events\",\"params\":{\"name\":\"ghost\"}}\n";
    let v = parse(&answer(line, &mut state));
    assert_eq!(error_code(&v).as_deref(), Some("not_found"));
}

#[test]
fn log_tail_returns_lines_array() {
    let mut state = empty_state();
    let line = b"{\"id\":\"5\",\"method\":\"log_tail\",\"params\":{\"lines\":5}}\n";
    match send(line, &mut state) {
        Dispatched::Outside(call) => {
            assert_eq!(call.method, Method::LogTail);
            let lines = TailReader::new(log_tail(&call.params)).finish(true);
            let v = parse(&reply_line(&call.id, Ok(log_reply(&lines))));
            assert_eq!(v.str_at("id").as_deref(), Some("5"));
            let shown = v.get("result").unwrap().get("lines");
            assert!(matches!(shown, Some(Json::Arr(_))), "lines must be an array");
        }
        Dispatched::Line { .. } => panic!("the log must be read outside"),
    }
}

#[test]
fn reset_all_returns_counts() {
    let mut state = empty_state();
    let line = b"{\"id\":\"6\",\"method\":\"reset_all\",\"params\":{}}\n";
    let v = parse(&answer(line, &mut state));
    let result = v.get("result").unwrap();
    assert!(result.uint_at("tunnels_stopped").is_some());
    assert!(result.uint_at("masters_rebuilt").is_some());
}

#[test]
fn wake_recover_returns_tunnels_restarting() {
    let mut state = empty_state();
    let line = b"{\"id\":\"7\",\"method\":\"wake_recover\",\"params\":{}}\n";
    match send(line, &mut state) {
        Dispatched::Outside(call) => {
            assert_eq!(call.method, Method::WakeRecover);
            let mut guard = WakeRecoverGuard::new();
            let mut rt = TunnelRuntime::new();
            let look = wake_recover(&mut guard, &state, 1_700_000_000).unwrap();
            let o = wake_recover_finish(
                &mut guard,
                look,
                &vec![],
                &vec![],
                &mut state,
                &mut rt,
                1_700_000_000,
            );
            let v = parse(&reply_line(&call.id, Ok(o.reply)));
            let restarting = v.get("result").unwrap().get("tunnels_restarting");
            assert!(matches!(restarting, Some(Json::Arr(_))));
        }
        Dispatched::Line { .. } => panic!("the hosts must be probed outside"),
    }
}

#[test]
fn subscribe_events_returns_ack() {
    let mut state = empty_state();
    let line = b"{\"id\":\"8\",\"method\":\"subscribe_events\",\"params\":{}}\n";
    let v = parse(&answer(line, &mut state));
    assert_eq!(v.get("result").unwrap().bool_at("subscribed"), Some(true));
}

#[test]
fn every_method_has_a_name() {
    for (name, method) in [
        ("ping", Method::Ping),
        ("host_toggle", Method::HostToggle),
        ("host_mount_repair", Method::HostMountRepair),
        ("credentials_consolidate", Method::CredentialsConsolidate),
        ("tunnel_set_jump_candidates", Method::TunnelSetJumpCandidates),
        ("tunnels_batch", Method::TunnelsBatch),
        ("discover_nodes", Method::DiscoverNodes),
    ] {
        assert_eq!(Method::from_str(name), Some(method), "{name}");
    }
    assert_eq!(Method::from_str("Ping"), None);
}

#[test]
fn a_reply_reads_back() {
    let line = encode_response("7", parse_json("{\"a\":[1,true,null,\"x\\ny\"]}").unwrap());
    assert!(line.ends_with('\n') && line.matches('\n').count() == 1);
    let v = parse(&line);
    assert_eq!(v.get("result"), Some(&parse_json("{\"a\":[1,true,null,\"x\\ny\"]}").unwrap()));
    let v = parse(&encode_error("8", "not_found", "no \"x\""));
    assert_eq!(v.str_at("id").as_deref(), Some("8"));
    assert_eq!(v.get("error").unwrap().str_at("message").as_deref(), Some("no \"x\""));
    let v = parse(&reply_line("9", Err(Error::Duplicate("nb".into()))));
    assert_eq!(error_code(&v).as_deref(), Some("duplicate"));
}

#[test]
fn a_request_is_read() {
    let call = read_call(b"{\"id\":\"1\",\"method\":\"ping\"}\n".to_vec()).unwrap();
    assert_eq!(call.id, "1");
    assert_eq!(call.method, Method::Ping);
    assert!(read_line(b"{".to_vec()).is_err());
    let u = read_call(b"{\"id\":5,\"method\":\"ping\"}\n".to_vec()).unwrap_err();
    assert_eq!(u.code, "invalid_request");
    assert_eq!(u.id, "");
}

#[test]
fn a_toggle_orders_its_work() {
    let mut state = empty_state();
    state.hosts.push(Host {
        host: "k6".into(),
        status: "Idle".into(),
        active: false,
        is_master_ready: false,
        pool_index: 0,
        pool_alive: 0,
        is_mounted: false,
        last_msg: "".into(),
    });
    let line = b"{\"id\":\"1\",\"method\":\"host_toggle\",\"params\":{\"host\":\"k6\"}}\n";
    match send(line, &mut state) {
        Dispatched::Line { work: Some(Work::Toggle(Some(w))), .. } => {
            assert_eq!(w.host, "k6");
            assert!(w.connect);
            assert!(w.managed);
        }
        _ => panic!("a toggle must order a connection"),
    }
    assert!(state.hosts[0].active);
}
