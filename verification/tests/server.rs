use a2fa_daemon::model::{Host, State, Tunnel, TunnelStatus};
use a2fa_daemon::server::{
    guard_test_isolation, lock_path, socket_path, subscription_id, validate_test_isolation, Boot,
    BootAsk, BootEvent, ConnAsk, ConnCount, ConnEvent, Connection, MigrationEnd, Surroundings,
    MAX_CONNS, MAX_LINE_BYTES,
};

#[test]
fn socket_path_default_contains_auto2fa() {
    let p = socket_path(&None, &Some("/home/me".to_string()));
    assert!(p.contains("ssh2fa"), "path should contain auto2fa: {p:?}");
    assert_eq!(p, "/home/me/.ssh2fa/ssh2fa.sock");
}

#[test]
fn socket_path_override_via_env() {
    let p = socket_path(&Some("/tmp/test_override.sock".to_string()), &None);
    assert_eq!(p, "/tmp/test_override.sock");
}

#[test]
fn lock_path_override_via_env() {
    let p = lock_path(&Some("/tmp/test_override.lock".to_string()), &None);
    assert_eq!(p, "/tmp/test_override.lock");
}

#[test]
fn real_daemon_does_not_require_test_guards() {
    let real = "/Users/example/.ssh";
    let sock = "/Users/example/.ssh2fa/ssh2fa.sock";
    assert!(validate_test_isolation(sock, false, real, real, false).is_ok());
}

#[test]
fn alternate_socket_refuses_the_real_ssh_directory() {
    let real = "/Users/example/.ssh";
    let err = validate_test_isolation("/tmp/test.sock", true, real, real, true).unwrap_err();
    assert!(err.contains("REAL one"));
}

#[test]
fn alternate_socket_refuses_an_unisolated_keychain() {
    let real = "/Users/example/.ssh";
    let temp = "/tmp/ssh2fa-test-config";
    let err = validate_test_isolation("/tmp/test.sock", true, temp, real, false).unwrap_err();
    assert!(err.contains("SSH2FA_DISABLE_KEYCHAIN=1"));
}

#[test]
fn alternate_socket_accepts_both_isolation_guards() {
    let real = "/Users/example/.ssh";
    let temp = "/tmp/ssh2fa-test-config";
    assert!(validate_test_isolation("/tmp/test.sock", true, temp, real, true).is_ok());
}

#[test]
fn the_isolation_rejection_offers_the_file_vault_as_well() {
    let real = "/home/example/.ssh";
    let temp = "/tmp/ssh2fa-test-config";
    let err = validate_test_isolation("/tmp/test.sock", true, temp, real, false).unwrap_err();
    assert!(err.contains("SSH2FA_DISABLE_KEYCHAIN=1"), "{err}");
    assert!(err.contains("SSH2FA_VAULT=file"), "{err}");
}

#[test]
fn an_isolated_file_vault_satisfies_the_credential_guard() {
    let real = "/home/example/.ssh";
    let temp = "/tmp/ssh2fa-test-config";
    assert!(validate_test_isolation("/tmp/test.sock", true, temp, real, true).is_ok());
    let err = validate_test_isolation("/tmp/test.sock", true, real, real, true).unwrap_err();
    assert!(err.contains("REAL one"), "{err}");
}

fn surroundings() -> Surroundings {
    Surroundings {
        sock: None,
        lock: None,
        home: Some("/home/me".into()),
        config_dir: "/home/me/.ssh".into(),
        keychain_disabled: false,
        vault: None,
    }
}

#[test]
fn a_trial_daemon_needs_its_own_files() {
    assert!(guard_test_isolation(&surroundings()).is_ok());
    let mut s = surroundings();
    s.sock = Some("/tmp/t.sock".into());
    assert!(guard_test_isolation(&s).unwrap_err().contains("REAL one"));
    s.config_dir = "/tmp/cfg".into();
    assert!(guard_test_isolation(&s).is_err());
    s.vault = Some("file".into());
    assert!(guard_test_isolation(&s).is_ok());
}

#[test]
fn connections_are_limited() {
    let mut c = ConnCount::none();
    let mut held = vec![];
    for _ in 0..MAX_CONNS {
        held.push(c.enter().unwrap());
    }
    assert!(c.enter().is_none());
    c.leave(held.pop().unwrap());
    assert!(c.enter().is_some());
}

#[test]
fn a_line_may_come_in_parts() {
    let mut c = Connection::new();
    assert!(matches!(c.start(), ConnAsk::Read { budget } if budget == MAX_LINE_BYTES + 1));
    let ask = c.step(ConnEvent::Read(b"{\"id\":\"1\",".to_vec()));
    assert!(matches!(ask, ConnAsk::Read { .. }));
    assert!(matches!(c.step(ConnEvent::Timeout), ConnAsk::Read { .. }));
    match c.step(ConnEvent::Read(b"\"method\":\"ping\"}\n".to_vec())) {
        ConnAsk::Dispatch(line) => assert_eq!(line, b"{\"id\":\"1\",\"method\":\"ping\"}\n"),
        _ => panic!("a whole line must be dispatched"),
    }
    match c.step(ConnEvent::Answer("x\n".into())) {
        ConnAsk::Write(text) => assert_eq!(text, "x\n"),
        _ => panic!("an answer must be written"),
    }
    assert!(matches!(c.step(ConnEvent::Written), ConnAsk::Read { .. }));
    assert!(matches!(c.step(ConnEvent::Eof), ConnAsk::Close));
}

#[test]
fn an_overlong_line_closes_the_connection() {
    let mut c = Connection::new();
    c.start();
    assert!(matches!(
        c.step(ConnEvent::Read(vec![b'x'; MAX_LINE_BYTES])),
        ConnAsk::Read { budget: 1 }
    ));
    assert!(matches!(c.step(ConnEvent::Read(vec![b'x'])), ConnAsk::Close));
}

#[test]
fn a_connection_registers_once() {
    let line = b"{\"id\":\"s1\",\"method\":\"subscribe_events\",\"params\":{}}\n".to_vec();
    assert_eq!(subscription_id(&line).as_deref(), Some("s1"));
    assert_eq!(subscription_id(&b"{\"id\":\"s1\",\"method\":\"ping\"}\n".to_vec()), None);
    let mut c = Connection::new();
    c.start();
    assert!(matches!(c.step(ConnEvent::Read(line.clone())), ConnAsk::Register));
    match c.step(ConnEvent::Registered(true)) {
        ConnAsk::Write(text) => assert!(text.contains("\"subscribed\":true")),
        _ => panic!("a subscription must be acknowledged"),
    }
    c.step(ConnEvent::Written);
    assert!(matches!(c.step(ConnEvent::Read(line)), ConnAsk::Write(_)));
}

#[test]
fn a_panic_is_answered() {
    let mut c = Connection::new();
    c.start();
    c.step(ConnEvent::Read(b"5\n".to_vec()));
    match c.step(ConnEvent::Panicked) {
        ConnAsk::Write(text) => assert!(text.contains("internal_error")),
        _ => panic!("a panic must be answered"),
    }
}

fn records() -> State {
    let mut s = State::with_tunnels(vec![Tunnel {
        name: "nb".into(),
        local_port: 8888,
        remote_port: 8888,
        jump_candidates: None,
        last_node: None,
        last_user: None,
        direct_host: None,
        auto_start: false,
        post_connect_cmd: None,
        tags: vec![],
        url_path: None,
        wants_alive: false,
        status: TunnelStatus::Idle,
        active_jump: None,
        last_msg: "".into(),
        last_alive_at: 0,
        total_uptime_ms: 0,
        connect_count: 0,
        fail_count: 0,
    }]);
    s.hosts.push(Host {
        host: "k6".into(),
        status: "Idle".into(),
        active: true,
        is_master_ready: false,
        pool_index: 0,
        pool_alive: 0,
        is_mounted: false,
        last_msg: "".into(),
    });
    s
}

#[test]
fn a_boot_goes_its_way() {
    let none = State::with_tunnels(vec![]);
    let (mut b, ask) = Boot::new(&surroundings()).unwrap();
    assert!(matches!(ask, BootAsk::Lock { ref path } if path == "/home/me/.ssh2fa/lock"));
    let ask = b.step(BootEvent::Locked(true), &none);
    assert!(matches!(ask, BootAsk::Bind { ref path } if path == "/home/me/.ssh2fa/ssh2fa.sock"));
    assert!(matches!(b.step(BootEvent::Done, &none), BootAsk::Migrate));
    assert!(matches!(b.step(BootEvent::Migrated(MigrationEnd::Moved), &none), BootAsk::Commit));
    assert!(matches!(b.step(BootEvent::Done, &none), BootAsk::Load));
    let state = records();
    match b.step(BootEvent::Done, &state) {
        BootAsk::Resolve { hosts } => assert_eq!(hosts, vec!["k6".to_string()]),
        _ => panic!("the hosts must be resolved"),
    }
    match b.step(BootEvent::Resolved(vec![("/tmp/cm-k6".into(), true)]), &state) {
        BootAsk::SweepStrays { bases } => assert_eq!(bases, vec!["/tmp/cm-k6".to_string()]),
        _ => panic!("strays must be swept"),
    }
    match b.step(BootEvent::Done, &state) {
        BootAsk::ReapForwards { ports } => assert_eq!(ports, vec![8888]),
        _ => panic!("forwards must be reaped"),
    }
    assert!(matches!(b.step(BootEvent::Done, &state), BootAsk::Start));
    assert!(matches!(b.step(BootEvent::Done, &state), BootAsk::Serve));
}

#[test]
fn a_second_daemon_leaves_at_once() {
    let none = State::with_tunnels(vec![]);
    let (mut b, _) = Boot::new(&surroundings()).unwrap();
    assert!(matches!(b.step(BootEvent::Locked(false), &none), BootAsk::Exit));
}

#[test]
fn strays_are_spared_where_a_place_is_uncertain() {
    let state = records();
    let (mut b, _) = Boot::new(&surroundings()).unwrap();
    b.step(BootEvent::Locked(true), &state);
    b.step(BootEvent::Done, &state);
    assert!(matches!(b.step(BootEvent::Migrated(MigrationEnd::Failed), &state), BootAsk::Load));
    b.step(BootEvent::Done, &state);
    let ask = b.step(BootEvent::Resolved(vec![("/tmp/cm-k6".into(), false)]), &state);
    assert!(matches!(ask, BootAsk::ReapForwards { .. }));
}
