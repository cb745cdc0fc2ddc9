use a2fa_daemon::handlers::mounts::{
    first_line, found_processes, host_list_dir, host_mount_repair, host_mount_repaired,
    host_mount_toggle, host_mounts, host_points, is_mount_command, is_mount_process,
    list_dir_reply, locate_sshfs, mount_point_for, mount_request, mounts_root, said_by,
    validate_remote_path, DirEntry, ForcedUnmount, Mount, MountAsk, MountEvent, MountRun,
    RepairStep, RunOutput, UnmountAsk,
};
use a2fa_daemon::handlers::credentials::creds_change;
use a2fa_daemon::json::{parse_json, Json};
use a2fa_daemon::latch::Latch;
use a2fa_daemon::model::{Error, Host, State};

const ROOT: &str = "/home/me/Mounts";

fn j(text: &str) -> Json {
    parse_json(text).unwrap()
}

fn make_state_with_host(name: &str, active: bool) -> State {
    let mut state = State::with_tunnels(vec![]);
    state.hosts.push(Host {
        host: name.into(),
        status: "Idle".into(),
        active,
        is_master_ready: active,
        pool_index: 0,
        pool_alive: 0,
        is_mounted: false,
        last_msg: "OK".into(),
    });
    state
}

fn empty() -> State {
    State::with_tunnels(vec![])
}

fn toggle(latch: &mut Latch, state: &State, params: &str) -> Result<MountRun, Error> {
    let q = mount_request(&j(params), ROOT)?;
    host_mount_toggle(latch, state, q, ROOT, "data-1f", "idmap=user", false)
}

fn mount(host: &str, slug: &str) -> Mount {
    Mount {
        host: host.into(),
        slug: slug.into(),
        mount_point: mount_point_for(ROOT, host, slug),
        source: format!("{host}:/data"),
    }
}

#[test]
fn mount_in_flight_blocks_second_concurrent_claim() {
    let host = "mount-guard-test-host";
    let mut latch = Latch::new();
    assert!(latch.try_claim(host), "first mount claim must succeed");
    assert!(
        !latch.try_claim(host),
        "second concurrent mount claim must be blocked (no duplicate sshfs subtree)"
    );
    latch.release(host);
    assert!(latch.try_claim(host), "mount claim must succeed after the guard released the latch");
}

#[test]
fn first_line_takes_one_line_and_caps_it() {
    assert_eq!(first_line("boom"), "boom");
    assert_eq!(first_line("\n\n  real error \nnoise"), "real error");
    assert_eq!(first_line(""), "");
    let long = "x".repeat(400);
    let cut = first_line(&long);
    assert!(cut.chars().count() <= 120, "got {}", cut.chars().count());
    assert!(cut.ends_with('…'), "a truncated line must say so");
    let wide = "文".repeat(400);
    assert!(first_line(&wide).chars().count() <= 120);
}

#[test]
fn host_mount_toggle_busy_when_in_flight() {
    let host = "mount-busy-test-host";
    let mut latch = Latch::new();
    latch.try_claim(host);
    let err = toggle(&mut latch, &empty(), &format!(r#"{{"host": "{host}"}}"#)).unwrap_err();
    assert!(
        matches!(err, Error::Internal(ref m) if m.contains("already in progress")),
        "expected busy error, got {err:?}"
    );
}

#[test]
fn different_slugs_give_different_mount_points() {
    let a = mount_point_for(ROOT, "k6", "scratch-0a1b2c3d");
    let b = mount_point_for(ROOT, "k6", "work-4e5f6071");
    assert_ne!(a, b, "two slugs must not share a mount point");
    assert!(a.ends_with("/scratch-0a1b2c3d"), "got {a:?}");
    assert!(b.ends_with("/work-4e5f6071"), "got {b:?}");
    assert!(a.starts_with("/home/me/Mounts/k6/"));
}

#[test]
fn mount_points_are_distinct_per_host() {
    assert_ne!(
        mount_point_for(ROOT, "k6", "data-1f"),
        mount_point_for(ROOT, "b8", "data-1f")
    );
}

#[test]
fn mount_toggle_refuses_a_mount_point_outside_the_mounts_root() {
    let host = "a2fa-test-outsideroot";
    let state = make_state_with_host(host, true);
    let mut latch = Latch::new();
    let params = format!(r#"{{"host": "{host}", "mount_point": "/Volumes/SomeoneElse"}}"#);
    let err = toggle(&mut latch, &state, &params).unwrap_err();
    assert!(
        matches!(err, Error::BadParams(ref m) if m.contains("mounts folder")),
        "got {err:?}"
    );
    assert!(!latch.contains(host));
}

#[test]
fn unmounting_an_already_unmounted_point_is_a_noop_not_a_mount() {
    let mut state = make_state_with_host("a2fa-test-noop", true);
    let mut latch = Latch::new();
    let mp = mount_point_for(ROOT, "a2fa-test-noop", "nothing-here");
    let params = format!(r#"{{"host": "a2fa-test-noop", "mount_point": "{mp}"}}"#);
    let mut run = toggle(&mut latch, &state, &params).unwrap();
    assert!(matches!(run.start(), MountAsk::List));
    match run.step(MountEvent::Mounts(vec![]), &mut latch, &mut state) {
        MountAsk::Reply(Ok(v)) => {
            assert_eq!(v.bool_at("mounted"), Some(false));
            assert_eq!(v.str_at("note").as_deref(), Some("already unmounted"));
        }
        _ => panic!("must not have created or mounted anything"),
    }
    assert!(!latch.contains("a2fa-test-noop"));
}

#[test]
fn unmount_paths_do_not_require_sshfs_to_be_installed() {
    let host = "a2fa-test-nosshfs";
    let mut state = make_state_with_host(host, true);
    let mut latch = Latch::new();
    let mp = mount_point_for(ROOT, host, "nothing-here");
    let params = format!(r#"{{"host": "{host}", "mount_point": "{mp}"}}"#);
    let mut run = toggle(&mut latch, &state, &params)
        .expect("an unmount request must not depend on sshfs being installed");
    match run.step(MountEvent::Mounts(vec![]), &mut latch, &mut state) {
        MountAsk::Reply(Ok(v)) => {
            assert_eq!(v.bool_at("mounted"), Some(false));
            assert_eq!(v.str_at("note").as_deref(), Some("already unmounted"));
        }
        _ => panic!("must not have created or mounted anything"),
    }
}

#[test]
fn wrong_typed_optional_params_are_refused_not_ignored() {
    let host = "a2fa-test-badtypes";
    let mut state = make_state_with_host(host, true);
    let mut latch = Latch::new();
    for (method, params) in [
        ("toggle-path", format!(r#"{{"host": "{host}", "remote_path": 123}}"#)),
        ("toggle-point", format!(r#"{{"host": "{host}", "mount_point": 42}}"#)),
    ] {
        let err = toggle(&mut latch, &state, &params).unwrap_err();
        assert!(
            matches!(err, Error::BadParams(ref m) if m.contains("must be a string")),
            "{method}: got {err:?}"
        );
    }
    let params = j(&format!(r#"{{"host": "{host}", "mount_point": {{"a": 1}}}}"#));
    let err = host_mount_repair(&mut latch, &params, &vec![]).unwrap_err();
    assert!(matches!(err, Error::BadParams(_)), "got {err:?}");
    let err = host_mounts(&mut state, &j(r#"{"host": 999}"#), &vec![]).unwrap_err();
    assert!(matches!(err, Error::BadParams(_)), "got {err:?}");
    let params = j(&format!(r#"{{"host": "{host}", "password": 5}}"#));
    let err = creds_change(&state, &params).unwrap_err();
    assert!(matches!(err, Error::BadParams(ref m) if m.contains("must be a string")));
}

#[test]
fn host_mounts_rejects_an_unsafe_host_filter() {
    let err = host_mounts(&mut empty(), &j(r#"{"host": "../../etc"}"#), &vec![]).unwrap_err();
    assert!(matches!(err, Error::BadParams(_)));
}

#[test]
fn mount_repair_with_nothing_mounted_reports_so() {
    let params = j(r#"{"host": "a2fa-test-nomounts"}"#);
    match host_mount_repair(&mut Latch::new(), &params, &vec![]).unwrap() {
        RepairStep::Nothing(v) => {
            assert_eq!(v.uint_at("repaired"), Some(0));
            assert!(v.str_at("reason").unwrap().contains("nothing is mounted"));
        }
        RepairStep::Repair { .. } => panic!("nothing is mounted"),
    }
}

#[test]
fn mount_repair_rejects_unsafe_host_name() {
    let params = j(r#"{"host": "../../etc"}"#);
    let err = host_mount_repair(&mut Latch::new(), &params, &vec![]).unwrap_err();
    assert!(matches!(err, Error::BadParams(_)));
}

#[test]
fn host_mount_toggle_not_found_returns_error() {
    let err = toggle(&mut Latch::new(), &empty(), r#"{"host": "ghost"}"#).unwrap_err();
    assert!(matches!(err, Error::NotFound(_)));
}

#[test]
fn remote_path_must_be_absolute() {
    assert!(validate_remote_path("/").is_ok());
    assert!(validate_remote_path("/scratch/alice/project").is_ok());
    assert!(validate_remote_path("scratch/project").is_err(), "relative");
    assert!(validate_remote_path("~/project").is_err(), "tilde is not expanded");
    assert!(validate_remote_path("").is_err(), "empty");
}

#[test]
fn a_refused_path_is_shown_with_quotes() {
    let err = validate_remote_path("a\"b\n").unwrap_err();
    assert_eq!(
        err,
        Error::BadParams(
            "remote path must be absolute (start with '/'), got \"a\\\"b\\n\"".to_string()
        )
    );
}

#[test]
fn remote_path_rejects_control_characters() {
    assert!(validate_remote_path("/a\nb").is_err());
    assert!(validate_remote_path("/a\tb").is_err());
}

#[test]
fn host_mount_toggle_rejects_bad_remote_path() {
    let state = make_state_with_host("k6", true);
    let mut latch = Latch::new();
    let params = r#"{"host": "k6", "remote_path": "relative/path"}"#;
    let err = toggle(&mut latch, &state, params).unwrap_err();
    assert!(matches!(err, Error::BadParams(_)), "got {err:?}");
    assert!(!latch.contains("k6"), "a rejected path must not hold the mount latch");
}

#[test]
fn host_mount_toggle_unsafe_host_name_returns_error() {
    let state = make_state_with_host("../../etc", false);
    let err = toggle(&mut Latch::new(), &state, r#"{"host": "../../etc"}"#).unwrap_err();
    assert!(matches!(err, Error::BadParams(_)));
}

#[test]
fn a_folder_is_mounted_and_taken_down_again() {
    let mut state = make_state_with_host("k6", true);
    let mut latch = Latch::new();
    let params = r#"{"host": "k6", "remote_path": "/data"}"#;
    let mut run = toggle(&mut latch, &state, params).unwrap();
    assert!(latch.contains("k6"));
    match run.step(MountEvent::Mounts(vec![]), &mut latch, &mut state) {
        MountAsk::Locate { first, second } => {
            assert_eq!(first, locate_sshfs(false, false, true, false).unwrap());
            assert_eq!(second, locate_sshfs(false, false, false, true).unwrap());
        }
        _ => panic!("sshfs must be looked for"),
    }
    let found = MountEvent::Found { by_name: true, first: false, second: false };
    match run.step(found, &mut latch, &mut state) {
        MountAsk::Run { program, source, point, .. } => {
            assert_eq!(program, "sshfs");
            assert_eq!(source, "k6:/data");
            assert_eq!(point, "/home/me/Mounts/k6/data-1f");
        }
        _ => panic!("sshfs must be run"),
    }
    let ran = RunOutput { exit_ok: true, status: "0".into(), stdout: "".into(), stderr: "".into() };
    run.step(MountEvent::Ran(Some(ran)), &mut latch, &mut state);
    run.step(MountEvent::Mounts(vec![mount("k6", "data-1f")]), &mut latch, &mut state);
    match run.step(MountEvent::Mounts(vec![mount("k6", "data-1f")]), &mut latch, &mut state) {
        MountAsk::Reply(Ok(v)) => assert_eq!(v.bool_at("mounted"), Some(true)),
        _ => panic!("the mount must be reported"),
    }
    assert!(state.hosts[0].is_mounted);
    assert!(!latch.contains("k6"));

    let mut run = toggle(&mut latch, &state, params).unwrap();
    match run.step(MountEvent::Mounts(vec![mount("k6", "data-1f")]), &mut latch, &mut state) {
        MountAsk::Unmount { point } => assert_eq!(point, "/home/me/Mounts/k6/data-1f"),
        _ => panic!("what is mounted must be taken down"),
    }
    assert!(matches!(run.step(MountEvent::Done, &mut latch, &mut state), MountAsk::List));
    assert!(matches!(
        run.step(MountEvent::Mounts(vec![]), &mut latch, &mut state),
        MountAsk::Tidy { .. }
    ));
    run.step(MountEvent::Done, &mut latch, &mut state);
    match run.step(MountEvent::Mounts(vec![]), &mut latch, &mut state) {
        MountAsk::Reply(Ok(v)) => assert_eq!(v.bool_at("mounted"), Some(false)),
        _ => panic!("the end must be reported"),
    }
    assert!(!state.hosts[0].is_mounted);
}

#[test]
fn a_failed_mount_says_why() {
    let mut state = make_state_with_host("k6", true);
    let mut latch = Latch::new();
    let mut run = toggle(&mut latch, &state, r#"{"host": "k6"}"#).unwrap();
    run.step(MountEvent::Mounts(vec![]), &mut latch, &mut state);
    let found = MountEvent::Found { by_name: true, first: false, second: false };
    run.step(found, &mut latch, &mut state);
    let ran = RunOutput {
        exit_ok: false,
        status: "exit status: 1".into(),
        stdout: "".into(),
        stderr: "no such file\n".into(),
    };
    run.step(MountEvent::Ran(Some(ran)), &mut latch, &mut state);
    assert!(matches!(
        run.step(MountEvent::Mounts(vec![]), &mut latch, &mut state),
        MountAsk::Reap { .. }
    ));
    run.step(MountEvent::Done, &mut latch, &mut state);
    match run.step(MountEvent::Mounts(vec![]), &mut latch, &mut state) {
        MountAsk::Reply(Ok(v)) => assert!(v.str_at("error").unwrap().contains("no such file")),
        _ => panic!("the failure must be reported"),
    }
    assert!(state.hosts[0].last_msg.starts_with("Mount failed"));
}

#[test]
fn sshfs_is_looked_for() {
    assert!(locate_sshfs(false, false, false, false).is_err());
    assert_eq!(locate_sshfs(false, true, false, false).unwrap(), "sshfs");
    assert_ne!(
        locate_sshfs(true, false, true, false).unwrap(),
        locate_sshfs(true, false, false, true).unwrap()
    );
}

#[test]
fn mounts_are_listed_and_repaired() {
    let mut state = make_state_with_host("k6", true);
    let active = vec![mount("k6", "data-1f"), mount("b8", "root")];
    let v = host_mounts(&mut state, &j(r#"{"host": "k6"}"#), &active).unwrap();
    assert!(state.hosts[0].is_mounted);
    match v.get("mounts") {
        Some(Json::Arr(ms)) => assert_eq!(ms.len(), 1),
        _ => panic!("mounts must be listed"),
    }
    assert_eq!(host_points(&active, "b8", &None), vec!["/home/me/Mounts/b8/root".to_string()]);
    let mut latch = Latch::new();
    let step = host_mount_repair(&mut latch, &j(r#"{"host": "k6"}"#), &active).unwrap();
    match step {
        RepairStep::Repair { host, points } => {
            assert!(latch.contains("k6"));
            let v = host_mount_repaired(&mut latch, &mut state, &host, &points, &vec![]);
            assert_eq!(v.uint_at("repaired"), Some(1));
            assert!(!latch.contains("k6"));
            assert!(!state.hosts[0].is_mounted);
        }
        RepairStep::Nothing(_) => panic!("something is mounted"),
    }
}

#[test]
fn mount_processes_are_recognised() {
    let marks = vec!["sshfs".to_string(), "go-nfsv4".to_string()];
    assert!(is_mount_process("/usr/bin/sshfs k6:/data /home/me/Mounts/k6/data-1f", &marks));
    assert!(is_mount_process("go-nfsv4 /home/me/Mounts/k6/data-1f", &marks));
    assert!(!is_mount_process("vim /home/me/Mounts/k6/data-1f", &marks));
    assert!(is_mount_command(&b"\xff sshfs k6:/data\n".to_vec(), &marks));
    assert!(!is_mount_command(&Vec::new(), &marks));
    assert_eq!(found_processes(true, &b" 12\n345\t6 \n".to_vec()), vec!["12", "345", "6"]);
    assert!(found_processes(true, &b"\n".to_vec()).is_empty());
    assert!(found_processes(false, &b"12\n".to_vec()).is_empty());
}

#[test]
fn the_mounting_program_has_its_say() {
    assert_eq!(said_by(true, "exit status: 0", " out\n", " err\n"), "err");
    assert_eq!(said_by(false, "exit status: 1", " out\n", "\n"), "out");
    assert_eq!(said_by(true, "exit status: 0", "", ""), "sshfs exited 0 but no mount appeared");
    assert_eq!(said_by(false, "exit status: 1", "", ""), "sshfs exited with exit status: 1");
}

#[test]
fn folders_are_listed() {
    let state = make_state_with_host("k6", true);
    let (host, path) = host_list_dir(&state, &j(r#"{"host": "k6"}"#)).unwrap();
    assert_eq!((host.as_str(), path.as_str()), ("k6", "/"));
    let v = list_dir_reply("k6", "/", &vec![DirEntry { name: "etc".into(), is_dir: true }]);
    assert_eq!(v.str_at("path").as_deref(), Some("/"));
    assert_eq!(mounts_root(&Some("/home/me".to_string())), ROOT);
}

fn two_commands() -> Vec<(String, Vec<String>)> {
    vec![
        ("umount".to_string(), vec!["-f".to_string()]),
        ("fusermount".to_string(), vec!["-u".to_string(), "-z".to_string()]),
    ]
}

fn run_of(program: &str, args: &[&str]) -> UnmountAsk {
    UnmountAsk::Run {
        program: program.to_string(),
        args: args.iter().map(|a| a.to_string()).collect(),
    }
}

#[test]
fn a_forced_unmount_ends_with_the_first_command_that_works() {
    let mut run = ForcedUnmount::new(two_commands(), "/m/k6");
    assert_eq!(run.step(false), run_of("umount", &["-f", "/m/k6"]));
    assert_eq!(run.step(true), UnmountAsk::Done(true));
}

#[test]
fn a_forced_unmount_gives_up_after_its_last_command() {
    let mut run = ForcedUnmount::new(two_commands(), "/m/k6");
    assert_eq!(run.step(false), run_of("umount", &["-f", "/m/k6"]));
    assert_eq!(run.step(false), run_of("fusermount", &["-u", "-z", "/m/k6"]));
    assert_eq!(run.step(false), UnmountAsk::Done(false));
    assert_eq!(ForcedUnmount::new(vec![], "/m/k6").step(false), UnmountAsk::Done(false));
}
