//! The maintenance pass over the tunnels: boot auto-start, recovery of wanted
//! tunnels, stops of dead ones, and the job-queue check that notices when a
//! compute node is gone.
//!
//! A pass alternates looks at the outside world with decisions; the functions
//! here take what was seen, change the records and hand back what is to be done.
use crate::model::{
    State, StateView, Tunnel, TunnelStatus, TunnelView, bumped, edit_tunnel, host_at,
    law_a_name_addresses_the_first_host, law_a_name_addresses_the_first_tunnel, lemma_first, lemma_first_is, since, tunnel_at, tunnel_names,
};
use crate::starts::{
    OrderView, SpecView, StartOrder, begin_start, begun, host_ready,
    law_a_start_is_put_off_only_for_want_of_something, law_an_order_goes_where_its_tunnel_says,
    opt_order, order_for, orders_view, pick_ready_jump, ready_jump,
};
use crate::text::{
    byte_prefix, cat2, cat3, cat5, copy_opt, dec, decimal, first_bytes, has_text, opt_text, texts,
};
use crate::tunnel_runtime::{
    AUTO_RECOVERY_INTERVAL_SEC, BOOT_GRACE_SEC, EventView, RECOVERY_FAILURE_THRESHOLD, RuntimeView,
    STALE_MISS_THRESHOLD, TUNNEL_FLAP_THRESHOLD, TunnelAction, TunnelRtState, TunnelRuntime,
    TunnelStatusKind, after_drop, capped_sum, child_of, childless, decided, due, next_count,
    note_stop_dead_flap, recorded, rt_of, should_auto_stop_after_failures, should_autostart,
    tunnel_action, with_rt,
};
use vstd::prelude::*;

verus! {

/// The status of a record, for the decision of a tick.
pub open spec fn kind_of(s: TunnelStatus) -> TunnelStatusKind {
    match s {
        TunnelStatus::Idle => TunnelStatusKind::Idle,
        TunnelStatus::Failed => TunnelStatusKind::Failed,
        TunnelStatus::Stale => TunnelStatusKind::Stale,
        TunnelStatus::PortBusy => TunnelStatusKind::PortBusy,
        TunnelStatus::Starting => TunnelStatusKind::Starting,
        TunnelStatus::Alive => TunnelStatusKind::Alive,
    }
}

/// The status of a record, for the decision of a tick.
pub fn tunnel_status_kind(s: TunnelStatus) -> (k: TunnelStatusKind)
    ensures
        k == kind_of(s),
{
    match s {
        TunnelStatus::Idle => TunnelStatusKind::Idle,
        TunnelStatus::Failed => TunnelStatusKind::Failed,
        TunnelStatus::Stale => TunnelStatusKind::Stale,
        TunnelStatus::PortBusy => TunnelStatusKind::PortBusy,
        TunnelStatus::Starting => TunnelStatusKind::Starting,
        TunnelStatus::Alive => TunnelStatusKind::Alive,
    }
}

/// What one pass needs of a tunnel, as it stood when the pass began.
#[derive(Debug)]
pub struct TunnelSnapshot {
    pub name: String,
    pub local_port: u16,
    pub status: TunnelStatus,
    pub wants_alive: bool,
    pub active_jump: Option<String>,
    pub last_node: Option<String>,
    pub last_user: Option<String>,
    /// Whether the tunnel goes to a host itself, so that no job stands behind it.
    pub is_direct: bool,
    /// Whether the jump host is enabled; `None` where there is none or it is
    /// not known.
    pub jump_host_active: Option<bool>,
}

/// What a snapshot says.
#[verifier::ext_equal]
pub struct SnapshotView {
    pub name: Seq<char>,
    pub local_port: u16,
    pub status: TunnelStatus,
    pub wants_alive: bool,
    pub active_jump: Option<Seq<char>>,
    pub last_node: Option<Seq<char>>,
    pub last_user: Option<Seq<char>>,
    pub is_direct: bool,
    pub jump_host_active: Option<bool>,
}

impl View for TunnelSnapshot {
    type V = SnapshotView;

    open spec fn view(&self) -> SnapshotView {
        SnapshotView {
            name: self.name@,
            local_port: self.local_port,
            status: self.status,
            wants_alive: self.wants_alive,
            active_jump: opt_text(self.active_jump),
            last_node: opt_text(self.last_node),
            last_user: opt_text(self.last_user),
            is_direct: self.is_direct,
            jump_host_active: self.jump_host_active,
        }
    }
}

/// Whether the host that an optional name addresses is enabled.
pub open spec fn jump_enabled(st: StateView, jump: Option<Seq<char>>) -> Option<bool> {
    match jump {
        Some(j) => match host_at(st, j) {
            Some(i) => Some(st.hosts[i].active),
            None => None,
        },
        None => None,
    }
}

/// The snapshot of a tunnel.
pub open spec fn snapshot_of(st: StateView, t: TunnelView) -> SnapshotView {
    SnapshotView {
        name: t.name,
        local_port: t.local_port,
        status: t.status,
        wants_alive: t.wants_alive,
        active_jump: t.active_jump,
        last_node: t.last_node,
        last_user: t.last_user,
        is_direct: t.direct_host is Some,
        jump_host_active: jump_enabled(st, t.active_jump),
    }
}

/// What a list of snapshots says.
pub open spec fn snapshots_view(s: Seq<TunnelSnapshot>) -> Seq<SnapshotView> {
    s.map_values(|x: TunnelSnapshot| x@)
}

fn snapshot(state: &State, t: &Tunnel) -> (s: TunnelSnapshot)
    ensures
        s@ == snapshot_of(state@, t@),
{
    let jump_host_active: Option<bool> = match &t.active_jump {
        Some(j) => match state.find_host(j.as_str()) {
            Some(i) => Some(state.hosts[i].active),
            None => None,
        },
        None => None,
    };
    TunnelSnapshot {
        name: t.name.clone(),
        local_port: t.local_port,
        status: t.status,
        wants_alive: t.wants_alive,
        active_jump: copy_opt(&t.active_jump),
        last_node: copy_opt(&t.last_node),
        last_user: copy_opt(&t.last_user),
        is_direct: t.direct_host.is_some(),
        jump_host_active,
    }
}

/// Snapshots of all tunnels, in order.
pub fn snapshot_tunnels(state: &State) -> (r: Vec<TunnelSnapshot>)
    ensures
        snapshots_view(r@) == state@.tunnels.map_values(|t: TunnelView| snapshot_of(state@, t)),
{
    let mut r: Vec<TunnelSnapshot> = Vec::new();
    let mut i: usize = 0;
    while i < state.tunnels.len()
        invariant
            i <= state.tunnels@.len(),
            snapshots_view(r@) == state@.tunnels.take(i as int).map_values(
                |t: TunnelView| snapshot_of(state@, t),
            ),
        decreases state.tunnels@.len() - i,
    {
        let s: TunnelSnapshot = snapshot(state, &state.tunnels[i]);
        let ghost before = r@;
        r.push(s);
        proof {
            assert(snapshots_view(r@) =~= snapshots_view(before).push(s@));
            assert(state@.tunnels.take(i + 1).map_values(
                |t: TunnelView| snapshot_of(state@, t),
            ) =~= state@.tunnels.take(i as int).map_values(
                |t: TunnelView| snapshot_of(state@, t),
            ).push(snapshot_of(state@, state@.tunnels[i as int])));
        }
        i += 1;
    }
    proof {
        assert(state@.tunnels.take(i as int) =~= state@.tunnels);
    }
    r
}

/// Whether the boot auto-start is to run now.
pub fn boot_due(runtime: &TunnelRuntime, now: u64) -> (r: bool)
    ensures
        r == (!runtime@.auto_started && runtime@.startup_ts > 0 && now - runtime@.startup_ts
            >= BOOT_GRACE_SEC * 1000),
        r ==> !runtime@.auto_started && 0 < runtime@.startup_ts && now >= runtime@.startup_ts + 3_000,
{
    let (startup, done): (u64, bool) = runtime.boot_state();
    !done && startup > 0 && now >= startup && now - startup >= BOOT_GRACE_SEC * 1000
}

/// The records after the current run of `name` is closed: its length goes to
/// the tunnel's uptime and the run's start is forgotten.
pub open spec fn run_closed(st: StateView, rt: RuntimeView, name: Seq<char>, now: u64) -> (
    StateView,
    RuntimeView,
) {
    let s = rt_of(rt, name);
    (
        match s.alive_since {
            Some(began) => edit_tunnel(
                st,
                name,
                |t: TunnelView|
                    TunnelView {
                        total_uptime_ms: capped_sum(t.total_uptime_ms, since(now, began)),
                        ..t
                    },
            ),
            None => st,
        },
        with_rt(rt, name, TunnelRtState { alive_since: None, ..s }),
    )
}

/// Add the current run of `name` to its uptime and forget when it began.
pub fn accumulate_uptime(name: &str, state: &mut State, runtime: &mut TunnelRuntime, now: u64)
    ensures
        (final(state)@, final(runtime)@) == run_closed(old(state)@, old(runtime)@, name@, now),
{
    let mut s: TunnelRtState = runtime.get_rt(name);
    let began: Option<u64> = s.alive_since;
    s.alive_since = None;
    runtime.put_rt(name, s);
    if let Some(b) = began {
        if let Some(i) = state.find_tunnel(name) {
            let t: &mut Tunnel = state.tunnel_mut(i);
            t.total_uptime_ms = t.total_uptime_ms.saturating_add(now.saturating_sub(b));
        }
    }
}

/// The record of a tunnel that is stopped with a message.
pub open spec fn idled(t: TunnelView, wants_alive_stays: bool, msg: Seq<char>) -> TunnelView {
    TunnelView {
        status: TunnelStatus::Idle,
        active_jump: None,
        last_msg: msg,
        wants_alive: wants_alive_stays && t.wants_alive,
        ..t
    }
}

/// Mark a tunnel idle. It stays wanted only where `wants_alive_stays`.
pub fn mark_tunnel_idle(name: &str, state: &mut State, wants_alive_stays: bool, msg: &str)
    ensures
        final(state)@ == edit_tunnel(
            old(state)@,
            name@,
            |t: TunnelView| idled(t, wants_alive_stays, msg@),
        ),
{
    if let Some(i) = state.find_tunnel(name) {
        let t: &mut Tunnel = state.tunnel_mut(i);
        t.status = TunnelStatus::Idle;
        t.active_jump = None;
        t.last_msg = msg.to_owned();
        if !wants_alive_stays {
            t.wants_alive = false;
        }
    }
}

/// The records after one more failed recovery of `name`, and whether it stopped
/// the tunnel for good.
pub open spec fn recovery_failed(st: StateView, rt: RuntimeView, name: Seq<char>, now: u64) -> (
    StateView,
    RuntimeView,
    bool,
) {
    let s = rt_of(rt, name);
    let n = next_count(s.consecutive_recovery_failures);
    if n < RECOVERY_FAILURE_THRESHOLD {
        (st, with_rt(rt, name, TunnelRtState { consecutive_recovery_failures: n, ..s }), false)
    } else {
        (
            edit_tunnel(
                st,
                name,
                |t: TunnelView|
                    TunnelView {
                        wants_alive: false,
                        active_jump: None,
                        last_msg: "Auto-stopped: "@ + dec(n as nat) + " consecutive failures"@,
                        ..t
                    },
            ),
            with_rt(
                recorded(
                    rt,
                    name,
                    now,
                    "auto-stopped: "@ + dec(n as nat) + " consecutive failures"@,
                ),
                name,
                TunnelRtState { consecutive_recovery_failures: 0, ..s },
            ),
            true,
        )
    }
}

/// Count one failed recovery. At the threshold the tunnel is no longer wanted,
/// so that it stays down, and the count starts over; `true` comes back then, and
/// the tunnel list is to be saved.
pub fn note_recovery_failure_and_maybe_stop(
    name: &str,
    state: &mut State,
    runtime: &mut TunnelRuntime,
    now: u64,
) -> (stopped: bool)
    ensures
        (final(state)@, final(runtime)@, stopped) == recovery_failed(
            old(state)@,
            old(runtime)@,
            name@,
            now,
        ),
{
    let ghost rt0 = runtime@;
    let mut s: TunnelRtState = runtime.get_rt(name);
    let n: u32 = s.consecutive_recovery_failures.saturating_add(1);
    s.consecutive_recovery_failures = n;
    runtime.put_rt(name, s);
    if !should_auto_stop_after_failures(n, RECOVERY_FAILURE_THRESHOLD) {
        return false;
    }
    let count: String = decimal(n as u64);
    let note: String = cat3("auto-stopped: ", count.as_str(), " consecutive failures");
    runtime.record(name, now, note.as_str());
    if let Some(i) = state.find_tunnel(name) {
        let t: &mut Tunnel = state.tunnel_mut(i);
        t.wants_alive = false;
        t.active_jump = None;
        t.last_msg = cat3("Auto-stopped: ", count.as_str(), " consecutive failures");
    }
    let mut s2: TunnelRtState = runtime.get_rt(name);
    s2.consecutive_recovery_failures = 0;
    runtime.put_rt(name, s2);
    proof {
        assert(runtime@.rt =~= rt0.rt.insert(name@, s2));
    }
    true
}

/// The records after a recovery start of `name`, and the order to launch.
/// Nothing happens where the tunnel is gone, no longer wanted or already up.
pub open spec fn recovery_start(st: StateView, name: Seq<char>, default_user: Seq<char>) -> (
    StateView,
    Option<OrderView>,
) {
    match tunnel_at(st, name) {
        None => (st, None),
        Some(i) => {
            let t = st.tunnels[i];
            if !t.wants_alive || t.status == TunnelStatus::Alive || t.status
                == TunnelStatus::Starting {
                (st, None)
            } else {
                begun(st, i, default_user)
            }
        },
    }
}

/// Start `name` for recovery or at boot: find its way and mark it starting, or
/// say on its record what is missing.
pub fn do_tunnel_start(name: &str, state: &mut State, default_user: &str) -> (o: Option<StartOrder>)
    ensures
        (final(state)@, opt_order(o)) == recovery_start(old(state)@, name@, default_user@),
{
    match state.find_tunnel(name) {
        None => None,
        Some(i) => {
            let wanted: bool = state.tunnels[i].wants_alive;
            let status: TunnelStatus = state.tunnels[i].status;
            proof {
                assert(state@.tunnels[i as int] == state.tunnels@[i as int]@);
            }
            if !wanted || status == TunnelStatus::Alive || status == TunnelStatus::Starting {
                return None;
            }
            begin_start(state, i, default_user)
        },
    }
}

/// What one tick of a tunnel asks for.
#[derive(Debug, PartialEq)]
pub struct TickOrders {
    /// The process to kill.
    pub kill: Option<u64>,
    /// The forward to launch.
    pub start: Option<StartOrder>,
    /// Whether to check the job queue.
    pub squeue: bool,
}

/// The records after one tick of a tunnel, and what it asks for.
#[verifier::ext_equal]
pub struct Ticked {
    pub st: StateView,
    pub rt: RuntimeView,
    pub kill: Option<u64>,
    pub start: Option<OrderView>,
    pub squeue: bool,
}

/// The length of the current run of `name`.
pub open spec fn run_length(rt: RuntimeView, name: Seq<char>, now: u64) -> Option<u64> {
    match rt_of(rt, name).alive_since {
        Some(began) => Some(since(now, began)),
        None => None,
    }
}

/// Why a tunnel that counts as alive is dead.
pub open spec fn death_reason(child_alive: Option<bool>) -> Seq<char> {
    if child_alive == Some(false) {
        "child died"@
    } else {
        "port not bound (ghost alive)"@
    }
}

/// The records after a live tunnel was found dead.
pub open spec fn found_dead(
    st: StateView,
    rt: RuntimeView,
    name: Seq<char>,
    child_alive: Option<bool>,
    now: u64,
) -> Ticked {
    let closed = run_closed(st, recorded(rt, name, now, death_reason(child_alive)), name, now);
    let uptime = run_length(rt, name, now);
    let counters = after_drop(rt_of(closed.1, name), uptime, now);
    let rt2 = with_rt(childless(closed.1, name), name, counters);
    Ticked {
        st: edit_tunnel(closed.0, name, |t: TunnelView| idled(t, true, "respawning"@)),
        rt: if counters.consecutive_flaps >= TUNNEL_FLAP_THRESHOLD {
            recorded(rt2, name, now, "flapping — backing off"@)
        } else {
            rt2
        },
        kill: child_of(rt, name),
        start: None,
        squeue: false,
    }
}

/// The records after one tick of a tunnel, and what it asks for.
pub open spec fn ticked(
    snap: SnapshotView,
    st: StateView,
    rt: RuntimeView,
    port_bound: bool,
    child_alive: Option<bool>,
    default_user: Seq<char>,
    now: u64,
) -> Ticked {
    let name = snap.name;
    let s = rt_of(rt, name);
    let action = decided(
        kind_of(snap.status),
        snap.wants_alive,
        child_alive,
        port_bound,
        snap.jump_host_active,
        s.last_recovery_attempt_ts,
        s.last_squeue_check_ts,
        now,
        snap.is_direct,
    );
    match action {
        TunnelAction::Skip => Ticked { st, rt, kill: None, start: None, squeue: false },
        TunnelAction::Recover => {
            let started = recovery_start(st, name, default_user);
            Ticked {
                st: started.0,
                rt: childless(
                    with_rt(rt, name, TunnelRtState { last_recovery_attempt_ts: now, ..s }),
                    name,
                ),
                kill: child_of(rt, name),
                start: started.1,
                squeue: false,
            }
        },
        TunnelAction::StopDead => found_dead(st, rt, name, child_alive, now),
        TunnelAction::StopDisabledJump => {
            let closed = run_closed(st, recorded(rt, name, now, "jump disabled"@), name, now);
            Ticked {
                st: edit_tunnel(closed.0, name, |t: TunnelView| idled(t, false, "jump disabled"@)),
                rt: childless(closed.1, name),
                kill: child_of(rt, name),
                start: None,
                squeue: false,
            }
        },
        TunnelAction::SqueueCheck => Ticked {
            st,
            rt: with_rt(rt, name, TunnelRtState { last_squeue_check_ts: now, ..s }),
            kill: None,
            start: None,
            squeue: true,
        },
    }
}

/// Run one tick of a tunnel, given whether its port is bound and whether its
/// process runs.
pub fn process_tunnel(
    snap: &TunnelSnapshot,
    state: &mut State,
    runtime: &mut TunnelRuntime,
    port_bound: bool,
    child_alive: Option<bool>,
    default_user: &str,
    now: u64,
) -> (orders: TickOrders)
    ensures
        ({
            let v = ticked(
                snap@,
                old(state)@,
                old(runtime)@,
                port_bound,
                child_alive,
                default_user@,
                now,
            );
            &&& final(state)@ == v.st
            &&& final(runtime)@ == v.rt
            &&& orders.kill == v.kill
            &&& opt_order(orders.start) == v.start
            &&& orders.squeue == v.squeue
        }),
{
    let name: &str = snap.name.as_str();
    let mut s: TunnelRtState = runtime.get_rt(name);
    let action: TunnelAction = tunnel_action(
        tunnel_status_kind(snap.status),
        snap.wants_alive,
        child_alive,
        port_bound,
        snap.jump_host_active,
        s.last_recovery_attempt_ts,
        s.last_squeue_check_ts,
        now,
        snap.is_direct,
    );
    match action {
        TunnelAction::Skip => TickOrders { kill: None, start: None, squeue: false },
        TunnelAction::Recover => {
            s.last_recovery_attempt_ts = now;
            runtime.put_rt(name, s);
            let kill: Option<u64> = runtime.kill_child(name);
            let start: Option<StartOrder> = do_tunnel_start(name, state, default_user);
            TickOrders { kill, start, squeue: false }
        },
        TunnelAction::StopDead => {
            let reason: &str = match child_alive {
                Some(false) => "child died",
                _ => "port not bound (ghost alive)",
            };
            runtime.record(name, now, reason);
            let uptime: Option<u64> = match s.alive_since {
                Some(began) => Some(now.saturating_sub(began)),
                None => None,
            };
            accumulate_uptime(name, state, runtime, now);
            let kill: Option<u64> = runtime.kill_child(name);
            mark_tunnel_idle(name, state, true, "respawning");
            let mut counters: TunnelRtState = runtime.get_rt(name);
            let backed_off: bool = note_stop_dead_flap(&mut counters, uptime, now);
            runtime.put_rt(name, counters);
            if backed_off {
                runtime.record(name, now, "flapping — backing off");
            }
            TickOrders { kill, start: None, squeue: false }
        },
        TunnelAction::StopDisabledJump => {
            runtime.record(name, now, "jump disabled");
            accumulate_uptime(name, state, runtime, now);
            let kill: Option<u64> = runtime.kill_child(name);
            mark_tunnel_idle(name, state, false, "jump disabled");
            TickOrders { kill, start: None, squeue: false }
        },
        TunnelAction::SqueueCheck => {
            s.last_squeue_check_ts = now;
            runtime.put_rt(name, s);
            TickOrders { kill: None, start: None, squeue: true }
        },
    }
}

/// Whether a tunnel is started at boot. One to a compute node needs a node; one to
/// a host itself has none.
pub open spec fn boots(t: TunnelView) -> bool {
    (t.auto_start || t.wants_alive) && (t.last_node is Some || t.direct_host is Some)
}

/// The names of the tunnels started at boot, in order.
pub open spec fn boot_names(ts: Seq<TunnelView>) -> Seq<Seq<char>>
    decreases ts.len(),
{
    if ts.len() == 0 {
        Seq::empty()
    } else if boots(ts.last()) {
        boot_names(ts.drop_last()).push(ts.last().name)
    } else {
        boot_names(ts.drop_last())
    }
}

/// The records after the boot start of one tunnel, and the order to launch.
pub open spec fn boot_step(
    st: StateView,
    rt: RuntimeView,
    name: Seq<char>,
    default_user: Seq<char>,
    now: u64,
) -> (StateView, RuntimeView, Option<OrderView>) {
    let started = recovery_start(
        edit_tunnel(st, name, |t: TunnelView| TunnelView { wants_alive: true, ..t }),
        name,
        default_user,
    );
    (
        started.0,
        with_rt(rt, name, TunnelRtState { last_recovery_attempt_ts: now, ..rt_of(rt, name) }),
        started.1,
    )
}

/// The records after the boot start of some tunnels, one after another, and the
/// orders to launch.
pub open spec fn boot_run(
    names: Seq<Seq<char>>,
    st: StateView,
    rt: RuntimeView,
    default_user: Seq<char>,
    now: u64,
) -> (StateView, RuntimeView, Seq<OrderView>)
    decreases names.len(),
{
    if names.len() == 0 {
        (st, rt, Seq::empty())
    } else {
        let before = boot_run(names.drop_last(), st, rt, default_user, now);
        let step = boot_step(before.0, before.1, names.last(), default_user, now);
        (
            step.0,
            step.1,
            match step.2 {
                Some(o) => before.2.push(o),
                None => before.2,
            },
        )
    }
}

fn boot_candidates(state: &State) -> (r: Vec<String>)
    ensures
        texts(r@) == boot_names(state@.tunnels),
{
    let mut r: Vec<String> = Vec::new();
    let mut i: usize = 0;
    proof {
        assert(texts(r@) =~= boot_names(state@.tunnels.take(0)));
    }
    while i < state.tunnels.len()
        invariant
            i <= state.tunnels@.len(),
            texts(r@) == boot_names(state@.tunnels.take(i as int)),
        decreases state.tunnels@.len() - i,
    {
        let t: &Tunnel = &state.tunnels[i];
        proof {
            assert(state@.tunnels.take(i + 1).drop_last() =~= state@.tunnels.take(i as int));
            assert(state@.tunnels.take(i + 1).last() == t@);
        }
        let node: Option<&str> = match &t.last_node {
            Some(n) => Some(n.as_str()),
            None => None,
        };
        if should_autostart(t.auto_start, t.wants_alive, node, t.direct_host.is_some()) {
            let ghost before = r@;
            r.push(t.name.clone());
            proof {
                assert(texts(r@) =~= texts(before).push(t@.name));
            }
        }
        i += 1;
    }
    proof {
        assert(state@.tunnels.take(i as int) =~= state@.tunnels);
    }
    r
}

/// Start, one after another, the tunnels that are wanted at boot. Each counts as
/// wanted from then on.
pub fn run_boot_autostart(
    state: &mut State,
    runtime: &mut TunnelRuntime,
    default_user: &str,
    now: u64,
) -> (orders: Vec<StartOrder>)
    ensures
        (final(state)@, final(runtime)@, orders_view(orders@)) == boot_run(
            boot_names(old(state)@.tunnels),
            old(state)@,
            old(runtime)@,
            default_user@,
            now,
        ),
{
    let names: Vec<String> = boot_candidates(state);
    let ghost st0 = state@;
    let ghost rt0 = runtime@;
    let mut orders: Vec<StartOrder> = Vec::new();
    let mut i: usize = 0;
    proof {
        assert(orders_view(orders@) =~= Seq::empty());
    }
    while i < names.len()
        invariant
            i <= names@.len(),
            (state@, runtime@, orders_view(orders@)) == boot_run(
                texts(names@).take(i as int),
                st0,
                rt0,
                default_user@,
                now,
            ),
        decreases names@.len() - i,
    {
        let name: &str = names[i].as_str();
        proof {
            assert(texts(names@).take(i + 1).drop_last() =~= texts(names@).take(i as int));
            assert(texts(names@).take(i + 1).last() == name@);
        }
        if let Some(k) = state.find_tunnel(name) {
            let t: &mut Tunnel = state.tunnel_mut(k);
            t.wants_alive = true;
        }
        let mut s: TunnelRtState = runtime.get_rt(name);
        s.last_recovery_attempt_ts = now;
        runtime.put_rt(name, s);
        let ghost before = orders@;
        match do_tunnel_start(name, state, default_user) {
            Some(o) => {
                orders.push(o);
                proof {
                    assert(orders_view(orders@) =~= orders_view(before).push(o@));
                }
            },
            None => {},
        }
        i += 1;
    }
    proof {
        assert(texts(names@).take(i as int) =~= texts(names@));
    }
    orders
}

/// Begin a maintenance pass: run the boot auto-start where it is due, once, and
/// take the snapshots that the pass goes by.
pub fn maintenance_tick(
    state: &mut State,
    runtime: &mut TunnelRuntime,
    default_user: &str,
    now: u64,
) -> (r: (Vec<StartOrder>, Vec<TunnelSnapshot>))
    ensures
        ({
            let fires = !old(runtime)@.auto_started && old(runtime)@.startup_ts > 0 && now - old(
                runtime,
            )@.startup_ts >= BOOT_GRACE_SEC * 1000;
            let run = boot_run(
                boot_names(old(state)@.tunnels),
                old(state)@,
                old(runtime)@,
                default_user@,
                now,
            );
            if fires {
                &&& final(state)@ == run.0
                &&& final(runtime)@ == (RuntimeView { auto_started: true, ..run.1 })
                &&& orders_view(r.0@) == run.2
            } else {
                &&& final(state)@ == old(state)@
                &&& final(runtime)@ == old(runtime)@
                &&& r.0@.len() == 0
            }
        }),
        snapshots_view(r.1@) == final(state)@.tunnels.map_values(
            |t: TunnelView| snapshot_of(final(state)@, t),
        ),
{
    let mut orders: Vec<StartOrder> = Vec::new();
    if boot_due(runtime, now) {
        orders = run_boot_autostart(state, runtime, default_user, now);
        runtime.mark_auto_started();
    }
    let snaps: Vec<TunnelSnapshot> = snapshot_tunnels(state);
    (orders, snaps)
}

/// The jump host for a job-queue check: the one in use, or the one that a
/// recovery would take.
pub open spec fn squeue_jump(snap: SnapshotView, st: StateView) -> Option<Seq<char>> {
    match snap.active_jump {
        Some(j) => Some(j),
        None => ready_jump(
            st,
            match tunnel_at(st, snap.name) {
                Some(i) => st.tunnels[i].jump_candidates,
                None => None,
            },
        ),
    }
}

/// The jump host to ask and the node to look for, where the check can run.
pub open spec fn squeue_target(snap: SnapshotView, st: StateView) -> Option<
    (Seq<char>, Seq<char>),
> {
    match squeue_jump(snap, st) {
        None => None,
        Some(jump) => match snap.last_node {
            None => None,
            Some(node) => match host_at(st, jump) {
                Some(i) => if st.hosts[i].is_master_ready {
                    Some((jump, node))
                } else {
                    None
                },
                None => None,
            },
        },
    }
}

/// Begin a job-queue check: stamp its time and find whom to ask about which
/// node. `None` where there is no connected jump host or no node.
pub fn squeue_begin(
    snap: &TunnelSnapshot,
    state: &State,
    runtime: &mut TunnelRuntime,
    now: u64,
) -> (r:
    Option<(String, String)>)
    ensures
        final(runtime)@ == with_rt(
            old(runtime)@,
            snap@.name,
            TunnelRtState { last_squeue_check_ts: now, ..rt_of(old(runtime)@, snap@.name) },
        ),
        match r {
            Some(p) => squeue_target(snap@, state@) == Some((p.0@, p.1@)),
            None => squeue_target(snap@, state@) is None,
        },
{
    let mut s: TunnelRtState = runtime.get_rt(snap.name.as_str());
    s.last_squeue_check_ts = now;
    runtime.put_rt(snap.name.as_str(), s);
    let picked: Option<String> = match &snap.active_jump {
        Some(j) => Some(j.clone()),
        None => match state.find_tunnel(snap.name.as_str()) {
            Some(i) => {
                proof {
                    assert(state@.tunnels[i as int] == state.tunnels@[i as int]@);
                }
                pick_ready_jump(state, &state.tunnels[i].jump_candidates)
            },
            None => pick_ready_jump(state, &None),
        },
    };
    match picked {
        None => None,
        Some(jump) => match &snap.last_node {
            None => None,
            Some(node) => match state.find_host(jump.as_str()) {
                None => None,
                Some(i) => {
                    if state.hosts[i].is_master_ready {
                        Some((jump, node.clone()))
                    } else {
                        None
                    }
                },
            },
        },
    }
}

/// What a job-queue query gave: the nodes of the running jobs, or why it
/// failed.
#[derive(Debug)]
pub enum SqueueReply {
    Nodes(Vec<String>),
    Failed(String),
}

/// The records after a job-queue check, the process to kill and whether the
/// tunnel list is to be saved.
#[verifier::ext_equal]
pub struct SqueueView {
    pub st: StateView,
    pub rt: RuntimeView,
    pub kill: Option<u64>,
    pub persist: bool,
}

/// Whether a tunnel whose node is gone is to be stopped: it is up, or down and
/// still being recovered.
pub open spec fn staleable(st: StateView, name: Seq<char>) -> bool {
    match tunnel_at(st, name) {
        Some(i) => {
            let t = st.tunnels[i];
            t.status == TunnelStatus::Alive || (t.wants_alive && (t.status == TunnelStatus::Idle
                || t.status == TunnelStatus::Failed || t.status == TunnelStatus::PortBusy))
        },
        None => false,
    }
}

/// The record of a tunnel that is stopped because its node is gone.
pub open spec fn gone_stale(t: TunnelView, node: Seq<char>) -> TunnelView {
    TunnelView {
        status: TunnelStatus::Stale,
        active_jump: None,
        fail_count: bumped(t.fail_count),
        wants_alive: false,
        last_msg: "Auto-stopped: node "@ + node + " no longer in squeue"@,
        ..t
    }
}

/// The records after a check that did not find the node.
pub open spec fn squeue_missed(
    st: StateView,
    rt: RuntimeView,
    name: Seq<char>,
    node: Seq<char>,
    now: u64,
) -> SqueueView {
    let s = rt_of(rt, name);
    let misses = next_count(s.consecutive_squeue_misses);
    let counted = with_rt(rt, name, TunnelRtState { consecutive_squeue_misses: misses, ..s });
    if misses >= STALE_MISS_THRESHOLD && staleable(st, name) {
        let closed = run_closed(
            st,
            recorded(counted, name, now, "auto-stopped: node "@ + node + " ended"@),
            name,
            now,
        );
        SqueueView {
            st: edit_tunnel(closed.0, name, |t: TunnelView| gone_stale(t, node)),
            rt: with_rt(
                childless(closed.1, name),
                name,
                TunnelRtState { consecutive_recovery_failures: 0, ..rt_of(closed.1, name) },
            ),
            kill: child_of(rt, name),
            persist: true,
        }
    } else {
        SqueueView { st, rt: counted, kill: None, persist: false }
    }
}

/// Finish a job-queue check. A node that is found clears the misses; one missed
/// too often stops the tunnel, which is no longer wanted from then on. Returns
/// the process to kill and whether the tunnel list is to be saved.
pub fn squeue_end(
    name: &str,
    node: &str,
    reply: &SqueueReply,
    state: &mut State,
    runtime: &mut TunnelRuntime,
    now: u64,
) -> (r: (Option<u64>, bool))
    ensures
        match *reply {
            SqueueReply::Failed(e) => {
                &&& final(state)@ == edit_tunnel(
                    old(state)@,
                    name@,
                    |t: TunnelView|
                        TunnelView { last_msg: "squeue err: "@ + byte_prefix(e@, 30), ..t },
                )
                &&& final(runtime)@ == old(runtime)@
                &&& r == (None::<u64>, false)
            },
            SqueueReply::Nodes(nodes) => if texts(nodes@).contains(node@) {
                &&& final(state)@ == old(state)@
                &&& final(runtime)@ == with_rt(
                    old(runtime)@,
                    name@,
                    TunnelRtState {
                        consecutive_squeue_misses: 0,
                        ..rt_of(old(runtime)@, name@)
                    },
                )
                &&& r == (None::<u64>, false)
            } else {
                let v = squeue_missed(old(state)@, old(runtime)@, name@, node@, now);
                &&& final(state)@ == v.st
                &&& final(runtime)@ == v.rt
                &&& r == (v.kill, v.persist)
            },
        },
        reply matches SqueueReply::Nodes(nodes) && texts(nodes@).contains(node@) ==> {
            &&& final(state)@ == old(state)@
            &&& final(runtime)@.children == old(runtime)@.children
            &&& final(runtime)@.rt[name@].consecutive_squeue_misses == 0
            &&& r.0 is None && !r.1
        },
        reply is Failed ==> final(runtime)@ == old(runtime)@ && r.0 is None && !r.1,
        !(reply matches SqueueReply::Nodes(nodes) && !texts(nodes@).contains(node@)) ==> (
        tunnel_at(old(state)@, name@) matches Some(i) ==> {
            &&& final(state)@.tunnels[i].status == old(state)@.tunnels[i].status
            &&& final(state)@.tunnels[i].wants_alive == old(state)@.tunnels[i].wants_alive
        }),
{
    match reply {
        SqueueReply::Failed(e) => {
            if let Some(i) = state.find_tunnel(name) {
                let t: &mut Tunnel = state.tunnel_mut(i);
                t.last_msg = cat2("squeue err: ", first_bytes(e.as_str(), 30).as_str());
            }
            (None, false)
        },
        SqueueReply::Nodes(nodes) => {
            let mut s: TunnelRtState = runtime.get_rt(name);
            if has_text(nodes, node) {
                s.consecutive_squeue_misses = 0;
                runtime.put_rt(name, s);
                return (None, false);
            }
            let misses: u32 = s.consecutive_squeue_misses.saturating_add(1);
            s.consecutive_squeue_misses = misses;
            runtime.put_rt(name, s);
            let stop: bool = misses >= STALE_MISS_THRESHOLD && can_go_stale(name, state);
            if !stop {
                return (None, false);
            }
            let note: String = cat3("auto-stopped: node ", node, " ended");
            runtime.record(name, now, note.as_str());
            accumulate_uptime(name, state, runtime, now);
            let kill: Option<u64> = runtime.kill_child(name);
            if let Some(i) = state.find_tunnel(name) {
                let t: &mut Tunnel = state.tunnel_mut(i);
                t.status = TunnelStatus::Stale;
                t.active_jump = None;
                t.fail_count = t.fail_count.saturating_add(1);
                t.wants_alive = false;
                t.last_msg = cat3("Auto-stopped: node ", node, " no longer in squeue");
            }
            let mut s2: TunnelRtState = runtime.get_rt(name);
            s2.consecutive_recovery_failures = 0;
            runtime.put_rt(name, s2);
            (kill, true)
        },
    }
}

fn can_go_stale(name: &str, state: &State) -> (r: bool)
    ensures
        r == staleable(state@, name@),
{
    match state.find_tunnel(name) {
        None => false,
        Some(i) => {
            let t: &Tunnel = &state.tunnels[i];
            proof {
                assert(state@.tunnels[i as int] == t@);
            }
            t.status == TunnelStatus::Alive || (t.wants_alive && (t.status == TunnelStatus::Idle
                || t.status == TunnelStatus::Failed || t.status == TunnelStatus::PortBusy))
        },
    }
}

/// How a launched forward came out.
#[derive(Debug)]
pub enum StartOutcome {
    /// It could not be launched.
    SpawnFailed(String),
    /// Its port answers; this is its process.
    Ready(u64),
    /// Its port did not answer in time.
    TimedOut,
    /// Its process ended before the port answered.
    ChildExited,
    /// Looking at it failed.
    ProbeError(String),
}

/// What an outcome says.
#[verifier::ext_equal]
pub enum OutcomeView {
    SpawnFailed(Seq<char>),
    Ready(u64),
    TimedOut,
    ChildExited,
    ProbeError(Seq<char>),
}

impl View for StartOutcome {
    type V = OutcomeView;

    open spec fn view(&self) -> OutcomeView {
        match self {
            StartOutcome::SpawnFailed(e) => OutcomeView::SpawnFailed(e@),
            StartOutcome::Ready(c) => OutcomeView::Ready(*c),
            StartOutcome::TimedOut => OutcomeView::TimedOut,
            StartOutcome::ChildExited => OutcomeView::ChildExited,
            StartOutcome::ProbeError(e) => OutcomeView::ProbeError(e@),
        }
    }
}

/// What a finished start asks for.
#[derive(Debug, PartialEq)]
pub struct FinishOrders {
    /// The process to kill.
    pub kill: Option<u64>,
    /// Whether the tunnel list is to be saved.
    pub persist: bool,
    /// Whether the tunnel came up, so that its hook is to run.
    pub up: bool,
}

/// The records after a finished start, and what it asks for.
#[verifier::ext_equal]
pub struct FinishView {
    pub st: StateView,
    pub rt: RuntimeView,
    pub kill: Option<u64>,
    pub persist: bool,
    pub up: bool,
}

/// The message of a start that failed.
pub open spec fn failure_text(o: OutcomeView, local_port: u16) -> Seq<char> {
    match o {
        OutcomeView::SpawnFailed(e) => "spawn failed: "@ + e,
        OutcomeView::ChildExited => "local port "@ + dec(local_port as nat)
            + " in use by another process (ssh exited at bind)"@,
        OutcomeView::ProbeError(e) => "probe error: "@ + e,
        _ => "probe timed out"@,
    }
}

/// The record of a tunnel whose start failed.
pub open spec fn start_failed(t: TunnelView, msg: Seq<char>) -> TunnelView {
    TunnelView {
        fail_count: bumped(t.fail_count),
        status: TunnelStatus::Failed,
        last_msg: msg,
        active_jump: None,
        ..t
    }
}

/// The record of a tunnel that came up through `jump`.
pub open spec fn came_up(t: TunnelView, jump: Seq<char>, now: u64) -> TunnelView {
    TunnelView {
        status: TunnelStatus::Alive,
        wants_alive: true,
        last_alive_at: now,
        connect_count: bumped(t.connect_count),
        active_jump: Some(jump),
        last_msg: "via "@ + jump,
        ..t
    }
}

/// Whether a tunnel is there and wanted.
pub open spec fn still_wanted(st: StateView, name: Seq<char>) -> bool {
    match tunnel_at(st, name) {
        Some(i) => st.tunnels[i].wants_alive,
        None => false,
    }
}

/// Whether a tunnel is there and wanted.
pub fn is_still_wanted(name: &str, state: &State) -> (r: bool)
    ensures
        r == still_wanted(state@, name@),
{
    match state.find_tunnel(name) {
        Some(i) => {
            proof {
                assert(state@.tunnels[i as int] == state.tunnels@[i as int]@);
            }
            state.tunnels[i].wants_alive
        },
        None => false,
    }
}

/// The event of a tunnel that came up.
pub open spec fn connected_text(jump: Seq<char>, node: Seq<char>, remote_port: u16) -> Seq<char> {
    "connected via "@ + jump + " → "@ + node + ":"@ + dec(remote_port as nat)
}

/// The records after the start of `name` finished.
pub open spec fn finished(
    st: StateView,
    rt: RuntimeView,
    name: Seq<char>,
    jump: Seq<char>,
    node: Seq<char>,
    local_port: u16,
    remote_port: u16,
    o: OutcomeView,
    now: u64,
) -> FinishView {
    match o {
        OutcomeView::Ready(child) => if !still_wanted(st, name) {
            FinishView {
                st,
                rt: recorded(rt, name, now, "start aborted by user stop"@),
                kill: Some(child),
                persist: false,
                up: false,
            }
        } else {
            let s = rt_of(rt, name);
            FinishView {
                st: edit_tunnel(st, name, |t: TunnelView| came_up(t, jump, now)),
                rt: with_rt(
                    recorded(
                        RuntimeView { children: rt.children.insert(name, child), ..rt },
                        name,
                        now,
                        connected_text(jump, node, remote_port),
                    ),
                    name,
                    TunnelRtState { alive_since: Some(now), consecutive_recovery_failures: 0, ..s },
                ),
                kill: child_of(rt, name),
                persist: true,
                up: true,
            }
        },
        _ => {
            let msg = failure_text(o, local_port);
            let st1 = edit_tunnel(st, name, |t: TunnelView| start_failed(t, msg));
            let rt1 = recorded(rt, name, now, msg);
            if o is SpawnFailed {
                FinishView { st: st1, rt: rt1, kill: None, persist: false, up: false }
            } else {
                let counted = recovery_failed(st1, rt1, name, now);
                FinishView { st: counted.0, rt: counted.1, kill: None, persist: counted.2, up: false }
            }
        },
    }
}

/// Write down how a recovery start finished. A forward that came up after its
/// tunnel was stopped or deleted is killed; one that failed counts as a failed
/// recovery, unless it could not even be launched.
pub fn finish_recovery_start(
    name: &str,
    jump: &str,
    node: &str,
    local_port: u16,
    remote_port: u16,
    o: &StartOutcome,
    state: &mut State,
    runtime: &mut TunnelRuntime,
    now: u64,
) -> (r: FinishOrders)
    ensures
        ({
            let v = finished(
                old(state)@,
                old(runtime)@,
                name@,
                jump@,
                node@,
                local_port,
                remote_port,
                o@,
                now,
            );
            &&& final(state)@ == v.st
            &&& final(runtime)@ == v.rt
            &&& r.kill == v.kill
            &&& r.persist == v.persist
            &&& r.up == v.up
        }),
{
    let msg: String = match o {
        StartOutcome::Ready(child) => {
            if !is_still_wanted(name, state) {
                runtime.record(name, now, "start aborted by user stop");
                return FinishOrders { kill: Some(*child), persist: false, up: false };
            }
            let stale: Option<u64> = runtime.store_child(name, *child);
            let mut s: TunnelRtState = runtime.get_rt(name);
            s.alive_since = Some(now);
            s.consecutive_recovery_failures = 0;
            let note: String = cat5(
                "connected via ",
                jump,
                " → ",
                node,
                cat2(":", decimal(remote_port as u64).as_str()).as_str(),
            );
            proof {
                assert(note@ =~= connected_text(jump@, node@, remote_port));
            }
            runtime.record(name, now, note.as_str());
            runtime.put_rt(name, s);
            if let Some(i) = state.find_tunnel(name) {
                let t: &mut Tunnel = state.tunnel_mut(i);
                t.status = TunnelStatus::Alive;
                t.wants_alive = true;
                t.last_alive_at = now;
                t.connect_count = t.connect_count.saturating_add(1);
                t.active_jump = Some(jump.to_owned());
                t.last_msg = cat2("via ", jump);
            }
            return FinishOrders { kill: stale, persist: true, up: true };
        },
        StartOutcome::SpawnFailed(e) => cat2("spawn failed: ", e.as_str()),
        StartOutcome::TimedOut => "probe timed out".to_owned(),
        StartOutcome::ChildExited => cat3(
            "local port ",
            decimal(local_port as u64).as_str(),
            " in use by another process (ssh exited at bind)",
        ),
        StartOutcome::ProbeError(e) => cat2("probe error: ", e.as_str()),
    };
    runtime.record(name, now, msg.as_str());
    if let Some(i) = state.find_tunnel(name) {
        let t: &mut Tunnel = state.tunnel_mut(i);
        t.fail_count = t.fail_count.saturating_add(1);
        t.status = TunnelStatus::Failed;
        t.last_msg = msg.clone();
        t.active_jump = None;
    }
    let launched: bool = match o {
        StartOutcome::SpawnFailed(_) => false,
        _ => true,
    };
    let persist: bool = launched && note_recovery_failure_and_maybe_stop(name, state, runtime, now);
    FinishOrders { kill: None, persist, up: false }
}

/// A tunnel to a host itself that waits for that host is started by the next tick
/// that is due once the host is connected.
pub proof fn law_a_parked_tunnel_is_recovered(
    st: StateView,
    rt: RuntimeView,
    name: Seq<char>,
    host: Seq<char>,
    port_bound: bool,
    child_alive: Option<bool>,
    default_user: Seq<char>,
    now: u64,
)
    requires
        tunnel_at(st, name) is Some,
        ({
            let t = st.tunnels[tunnel_at(st, name)->Some_0];
            &&& t.direct_host == Some(host)
            &&& t.wants_alive
            &&& t.status == TunnelStatus::Idle
        }),
        host_ready(st, host),
        due(now, rt_of(rt, name).last_recovery_attempt_ts, AUTO_RECOVERY_INTERVAL_SEC),
    ensures
        ({
            let i = tunnel_at(st, name)->Some_0;
            let t = st.tunnels[i];
            let after = ticked(
                snapshot_of(st, t),
                st,
                rt,
                port_bound,
                child_alive,
                default_user,
                now,
            );
            &&& after.start == Some(order_for(t, SpecView::Direct { host }))
            &&& after.st.tunnels[i].status == TunnelStatus::Starting
            &&& after.st.tunnels[i].wants_alive
        }),
{
    lemma_first(tunnel_names(st.tunnels), name);
}

/// A tunnel whose node is gone is no longer wanted, and every tick leaves it
/// alone.
pub proof fn law_a_stale_tunnel_stays_down(
    t: TunnelView,
    node: Seq<char>,
    child_alive: Option<bool>,
    port_bound: bool,
    jump_active: Option<bool>,
    last_recovery_ts: u64,
    last_squeue_ts: u64,
    now: u64,
)
    ensures
        ({
            let gone = gone_stale(t, node);
            &&& !gone.wants_alive
            &&& decided(
                kind_of(gone.status),
                gone.wants_alive,
                child_alive,
                port_bound,
                jump_active,
                last_recovery_ts,
                last_squeue_ts,
                now,
                false,
            ) == TunnelAction::Skip
        }),
{
}

/// One look into the job queue that does not find the node stops nothing; as many
/// in a row as it takes stop the tunnel for good.
pub proof fn law_misses_must_come_in_a_row(
    st: StateView,
    rt: RuntimeView,
    name: Seq<char>,
    node: Seq<char>,
    now: u64,
)
    requires
        tunnel_at(st, name) is Some,
    ensures
        rt_of(rt, name).consecutive_squeue_misses == 0 ==> squeue_missed(st, rt, name, node, now).st
            == st,
        rt_of(rt, name).consecutive_squeue_misses + 1 >= STALE_MISS_THRESHOLD && staleable(st, name)
            ==> !still_wanted(squeue_missed(st, rt, name, node, now).st, name),
        rt_of(squeue_missed(st, rt, name, node, now).rt, name).consecutive_squeue_misses
            == next_count(rt_of(rt, name).consecutive_squeue_misses),
{
    let i = tunnel_at(st, name)->Some_0;
    lemma_first(tunnel_names(st.tunnels), name);
    let s = rt_of(rt, name);
    let misses = next_count(s.consecutive_squeue_misses);
    let counted = with_rt(rt, name, TunnelRtState { consecutive_squeue_misses: misses, ..s });
    if misses >= STALE_MISS_THRESHOLD && staleable(st, name) {
        let closed = run_closed(
            st,
            recorded(counted, name, now, "auto-stopped: node "@ + node + " ended"@),
            name,
            now,
        );
        assert(tunnel_names(closed.0.tunnels) =~= tunnel_names(st.tunnels));
        assert(tunnel_at(closed.0, name) == Some(i));
        let end = squeue_missed(st, rt, name, node, now).st;
        assert(tunnel_names(end.tunnels) =~= tunnel_names(st.tunnels));
        assert(tunnel_at(end, name) == Some(i));
    }
}

/// A tunnel is given up exactly when its recovery has failed as often in a row as
/// the limit says; after that it is no longer wanted, and the count starts over.
pub proof fn law_recovery_is_given_up_at_the_limit(
    st: StateView,
    rt: RuntimeView,
    name: Seq<char>,
    now: u64,
)
    requires
        rt_of(rt, name).consecutive_recovery_failures < RECOVERY_FAILURE_THRESHOLD,
    ensures
        ({
            let failures = rt_of(rt, name).consecutive_recovery_failures + 1;
            let (st1, rt1, stopped) = recovery_failed(st, rt, name, now);
            &&& stopped <==> failures == RECOVERY_FAILURE_THRESHOLD
            &&& rt_of(rt1, name).consecutive_recovery_failures == (if stopped {
                0
            } else {
                failures
            })
            &&& stopped ==> !still_wanted(st1, name)
            &&& !stopped ==> st1 == st
        }),
{
    let (st1, _, stopped) = recovery_failed(st, rt, name, now);
    lemma_first(tunnel_names(st.tunnels), name);
    if stopped {
        assert(tunnel_names(st1.tunnels) =~= tunnel_names(st.tunnels));
    }
}

/// A recovery start that comes up after its tunnel was stopped or deleted changes
/// no record of it, and its forward is to be killed.
pub proof fn law_a_late_start_is_undone(
    st: StateView,
    rt: RuntimeView,
    name: Seq<char>,
    jump: Seq<char>,
    node: Seq<char>,
    local_port: u16,
    remote_port: u16,
    child: u64,
    now: u64,
)
    requires
        !still_wanted(st, name),
    ensures
        ({
            let f = finished(
                st,
                rt,
                name,
                jump,
                node,
                local_port,
                remote_port,
                OutcomeView::Ready(child),
                now,
            );
            &&& f.st == st
            &&& f.kill == Some(child)
            &&& !f.up
            &&& f.rt.children == rt.children
        }),
{
}

/// The end of a run never takes away from a tunnel's uptime, and touches nothing
/// else of any tunnel.
pub proof fn law_uptime_only_grows(st: StateView, rt: RuntimeView, name: Seq<char>, now: u64)
    ensures
        ({
            let after = run_closed(st, rt, name, now).0;
            &&& after.hosts == st.hosts
            &&& after.tunnels.len() == st.tunnels.len()
            &&& forall|i: int|
                0 <= i < st.tunnels.len() ==> {
                    &&& (#[trigger] after.tunnels[i]).total_uptime_ms
                        >= st.tunnels[i].total_uptime_ms
                    &&& after.tunnels[i] == (TunnelView {
                        total_uptime_ms: after.tunnels[i].total_uptime_ms,
                        ..st.tunnels[i]
                    })
                }
        }),
{
    lemma_first(tunnel_names(st.tunnels), name);
}

/// A recovery start that did not come up leaves its tunnel down: failed, without a
/// jump host, with one more failure counted, and not up. Only a forward that is ready
/// makes a tunnel alive, and only one that is still wanted; its process is then the
/// one that is registered.
pub proof fn law_only_a_ready_forward_makes_a_tunnel_alive(
    st: StateView,
    rt: RuntimeView,
    name: Seq<char>,
    jump: Seq<char>,
    node: Seq<char>,
    local_port: u16,
    remote_port: u16,
    o: OutcomeView,
    now: u64,
    i: int,
)
    requires
        0 <= i < st.tunnels.len(),
        st.tunnels[i].name == name,
        forall|j: int| 0 <= j < i ==> (#[trigger] st.tunnels[j]).name != name,
    ensures
        ({
            let f = finished(st, rt, name, jump, node, local_port, remote_port, o, now);
            let t = st.tunnels[i];
            let t1 = f.st.tunnels[i];
            &&& !(o is Ready) ==> {
                &&& t1.status == TunnelStatus::Failed
                &&& t1.active_jump is None
                &&& t1.fail_count == (if t.fail_count == u64::MAX {
                    t.fail_count as int
                } else {
                    t.fail_count + 1
                })
                &&& t1.connect_count == t.connect_count
                &&& !f.up
                &&& f.kill is None
                &&& f.rt.children == rt.children
                &&& t1.wants_alive ==> t.wants_alive
            }
            &&& o matches OutcomeView::Ready(child) ==> {
                &&& f.up <==> t.wants_alive
                &&& t.wants_alive ==> {
                    &&& t1.status == TunnelStatus::Alive
                    &&& t1.wants_alive
                    &&& t1.active_jump == Some(jump)
                    &&& t1.last_alive_at == now
                    &&& t1.connect_count == (if t.connect_count == u64::MAX {
                        t.connect_count as int
                    } else {
                        t.connect_count + 1
                    })
                    &&& t1.fail_count == t.fail_count
                    &&& f.rt.children.contains_key(name) && f.rt.children[name] == child
                    &&& f.rt.rt.contains_key(name) && f.rt.rt[name].alive_since == Some(now)
                    &&& f.rt.rt[name].consecutive_recovery_failures == 0
                    &&& f.kill == (if rt.children.contains_key(name) {
                        Some(rt.children[name])
                    } else {
                        None
                    })
                    &&& f.persist
                }
                &&& !t.wants_alive ==> {
                    &&& f.st == st
                    &&& f.rt.children == rt.children
                    &&& f.kill == Some(child)
                }
            }
            &&& f.st.hosts == st.hosts
            &&& f.st.tunnels.len() == st.tunnels.len()
            &&& t1.name == t.name && t1.last_node == t.last_node && t1.local_port == t.local_port
            &&& forall|j: int|
                0 <= j < st.tunnels.len() && j != i ==> #[trigger] f.st.tunnels[j] == st.tunnels[j]
        }),
{
    lemma_tunnel_is(st, name, i);
    let msg = failure_text(o, local_port);
    let st1 = edit_tunnel(st, name, |t: TunnelView| start_failed(t, msg));
    lemma_tunnel_is(st1, name, i);
}

/// The first tunnel that carries a name is the one it addresses.
pub proof fn lemma_tunnel_is(st: StateView, name: Seq<char>, i: int)
    requires
        0 <= i < st.tunnels.len(),
        st.tunnels[i].name == name,
        forall|j: int| 0 <= j < i ==> (#[trigger] st.tunnels[j]).name != name,
    ensures
        tunnel_at(st, name) == Some(i),
{
    let names = tunnel_names(st.tunnels);
    assert forall|j: int| 0 <= j < i implies names[j] != name by {
        assert(st.tunnels[j].name != name);
    }
    lemma_first_is(names, name, i);
}

/// A live tunnel whose process is gone, or whose port is not bound, is taken down by a
/// tick: it goes idle and stays wanted, so that it comes back, loses its process, and
/// the run that ended is over. Nothing is launched by that tick, and no other record
/// changes.
pub proof fn law_a_dead_tunnel_is_taken_down(
    st: StateView,
    rt: RuntimeView,
    i: int,
    port_bound: bool,
    child_alive: Option<bool>,
    default_user: Seq<char>,
    now: u64,
)
    requires
        0 <= i < st.tunnels.len(),
        forall|j: int| 0 <= j < i ==> (#[trigger] st.tunnels[j]).name != st.tunnels[i].name,
        st.tunnels[i].status == TunnelStatus::Alive,
        child_alive == Some(false) || !port_bound,
    ensures
        ({
            let t = st.tunnels[i];
            let name = t.name;
            let after = ticked(
                snapshot_of(st, t),
                st,
                rt,
                port_bound,
                child_alive,
                default_user,
                now,
            );
            let t1 = after.st.tunnels[i];
            &&& t1.status == TunnelStatus::Idle
            &&& t1.wants_alive == t.wants_alive
            &&& t1.active_jump is None
            &&& t1.name == name && t1.last_node == t.last_node && t1.jump_candidates
                == t.jump_candidates
            &&& t1.total_uptime_ms >= t.total_uptime_ms
            &&& after.kill == (if rt.children.contains_key(name) {
                Some(rt.children[name])
            } else {
                None
            })
            &&& !after.rt.children.contains_key(name)
            &&& after.rt.rt.contains_key(name) && after.rt.rt[name].alive_since is None
            &&& after.start is None && !after.squeue
            &&& after.st.hosts == st.hosts
            &&& after.st.tunnels.len() == st.tunnels.len()
            &&& forall|j: int|
                0 <= j < st.tunnels.len() && j != i ==> #[trigger] after.st.tunnels[j]
                    == st.tunnels[j]
        }),
{
    let t = st.tunnels[i];
    let name = t.name;
    lemma_tunnel_is(st, name, i);
    let closed = run_closed(st, recorded(rt, name, now, death_reason(child_alive)), name, now);
    lemma_tunnel_is(closed.0, name, i);
}

/// A tunnel that is down and wanted is started again by a tick that is due for it: its
/// old process is to be killed, and what is ordered, if anything, goes where the tunnel
/// says, through one of its candidates. One that is not wanted is left alone.
pub proof fn law_a_wanted_tunnel_is_recovered(
    st: StateView,
    rt: RuntimeView,
    i: int,
    port_bound: bool,
    child_alive: Option<bool>,
    default_user: Seq<char>,
    now: u64,
    k: int,
)
    requires
        0 <= i < st.tunnels.len(),
        forall|j: int| 0 <= j < i ==> (#[trigger] st.tunnels[j]).name != st.tunnels[i].name,
        ({
            let s = st.tunnels[i].status;
            s == TunnelStatus::Idle || s == TunnelStatus::Failed || s == TunnelStatus::PortBusy
        }),
        rt.rt.contains_key(st.tunnels[i].name),
        now - rt.rt[st.tunnels[i].name].last_recovery_attempt_ts >= 15_000,
        now - rt.rt[st.tunnels[i].name].last_squeue_check_ts < 30_000
            || st.tunnels[i].direct_host is Some,
        0 <= k < st.hosts.len(),
        st.hosts[k].is_master_ready,
    ensures
        ({
            let t = st.tunnels[i];
            let name = t.name;
            let after = ticked(
                snapshot_of(st, t),
                st,
                rt,
                port_bound,
                child_alive,
                default_user,
                now,
            );
            let t1 = after.st.tunnels[i];
            &&& !t.wants_alive ==> after.st == st && after.rt == rt && after.kill is None
                && after.start is None && !after.squeue
            &&& t.wants_alive ==> {
                &&& after.kill == (if rt.children.contains_key(name) {
                    Some(rt.children[name])
                } else {
                    None
                })
                &&& !after.rt.children.contains_key(name)
                &&& after.rt.rt[name].last_recovery_attempt_ts == now
                &&& t.direct_host == Some(st.hosts[k].host) || (t.direct_host is None
                    && t.last_node is Some && (t.jump_candidates matches Some(cs) ==> cs.contains(
                    st.hosts[k].host,
                )) && (match t.last_user {
                    Some(u) => u.len() > 0,
                    None => default_user.len() > 0,
                })) ==> after.start is Some
                &&& after.start matches Some(o) ==> {
                    &&& o.name == name && o.local_port == t.local_port && o.remote_port
                        == t.remote_port
                    &&& t1.status == TunnelStatus::Starting && t1.wants_alive
                    &&& match o.spec {
                        SpecView::Direct { host } => t.direct_host == Some(host),
                        SpecView::Compute { jump, user, node } => {
                            &&& t.direct_host is None && t.last_node == Some(node)
                            &&& t.jump_candidates matches Some(cs) ==> cs.contains(jump)
                        },
                    }
                }
            }
            &&& after.st.hosts == st.hosts
            &&& forall|j: int|
                0 <= j < st.tunnels.len() && j != i ==> #[trigger] after.st.tunnels[j]
                    == st.tunnels[j]
        }),
{
    let t = st.tunnels[i];
    lemma_tunnel_is(st, t.name, i);
    law_a_start_is_put_off_only_for_want_of_something(st, i, default_user, k);
    if begun(st, i, default_user).1 is Some {
        law_an_order_goes_where_its_tunnel_says(st, i, default_user);
    }
}

/// A live tunnel over a jump host that was switched off is stopped by a tick: it goes
/// idle, is no longer wanted and loses its process. One over an enabled host, with its
/// process alive and its port bound, keeps its record and its process.
pub proof fn law_a_switched_off_jump_stops_its_tunnels(
    st: StateView,
    rt: RuntimeView,
    i: int,
    child_alive: Option<bool>,
    default_user: Seq<char>,
    now: u64,
    k: int,
)
    requires
        0 <= i < st.tunnels.len(),
        forall|j: int| 0 <= j < i ==> (#[trigger] st.tunnels[j]).name != st.tunnels[i].name,
        st.tunnels[i].status == TunnelStatus::Alive,
        child_alive != Some(false),
        0 <= k < st.hosts.len(),
        st.tunnels[i].active_jump == Some(st.hosts[k].host),
        forall|j: int| 0 <= j < k ==> (#[trigger] st.hosts[j]).host != st.hosts[k].host,
    ensures
        ({
            let t = st.tunnels[i];
            let name = t.name;
            let after = ticked(
                snapshot_of(st, t),
                st,
                rt,
                true,
                child_alive,
                default_user,
                now,
            );
            let t1 = after.st.tunnels[i];
            &&& !st.hosts[k].active ==> {
                &&& t1.status == TunnelStatus::Idle
                &&& !t1.wants_alive
                &&& t1.active_jump is None
                &&& !after.rt.children.contains_key(name)
                &&& rt.children.contains_key(name) ==> after.kill == Some(rt.children[name])
                &&& after.start is None
            }
            &&& st.hosts[k].active ==> {
                &&& after.st == st
                &&& after.rt.children == rt.children
                &&& after.kill is None && after.start is None
                &&& after.squeue <==> t.direct_host is None && now - (if rt.rt.contains_key(name) {
                    rt.rt[name].last_squeue_check_ts
                } else {
                    0
                }) >= 30_000
            }
        }),
{
    let t = st.tunnels[i];
    let name = t.name;
    lemma_tunnel_is(st, name, i);
    law_a_name_addresses_the_first_host(st, st.hosts[k].host, k);
    let closed = run_closed(st, recorded(rt, name, now, "jump disabled"@), name, now);
    lemma_tunnel_is(closed.0, name, i);
}

/// The second look in a row that does not find the node stops a tunnel that is alive,
/// or down and still wanted: it is stale and no longer wanted, its process is to be
/// killed and the list saved. The first stops nothing.
pub proof fn law_a_tunnel_whose_job_ended_is_stopped(
    st: StateView,
    rt: RuntimeView,
    i: int,
    node: Seq<char>,
    now: u64,
)
    requires
        0 <= i < st.tunnels.len(),
        forall|j: int| 0 <= j < i ==> (#[trigger] st.tunnels[j]).name != st.tunnels[i].name,
        rt.rt.contains_key(st.tunnels[i].name),
    ensures
        ({
            let t = st.tunnels[i];
            let name = t.name;
            let after = squeue_missed(st, rt, name, node, now);
            let t1 = after.st.tunnels[i];
            let live = t.status == TunnelStatus::Alive || (t.wants_alive && (t.status
                == TunnelStatus::Idle || t.status == TunnelStatus::Failed || t.status
                == TunnelStatus::PortBusy));
            &&& rt.rt[name].consecutive_squeue_misses >= 1 && live ==> {
                &&& t1.status == TunnelStatus::Stale
                &&& !t1.wants_alive
                &&& t1.active_jump is None
                &&& t1.last_node == t.last_node && t1.name == name
                &&& !after.rt.children.contains_key(name)
                &&& after.kill == (if rt.children.contains_key(name) {
                    Some(rt.children[name])
                } else {
                    None
                })
                &&& after.persist
            }
            &&& rt.rt[name].consecutive_squeue_misses == 0 || !live ==> {
                &&& after.st == st
                &&& after.kill is None && !after.persist
                &&& after.rt.children == rt.children
            }
            &&& rt.rt[name].consecutive_squeue_misses < u32::MAX
                ==> after.rt.rt[name].consecutive_squeue_misses
                == rt.rt[name].consecutive_squeue_misses + 1
            &&& after.st.hosts == st.hosts
            &&& forall|j: int|
                0 <= j < st.tunnels.len() && j != i ==> #[trigger] after.st.tunnels[j]
                    == st.tunnels[j]
        }),
{
    let t = st.tunnels[i];
    let name = t.name;
    lemma_tunnel_is(st, name, i);
    let s = rt_of(rt, name);
    let misses = next_count(s.consecutive_squeue_misses);
    let counted = with_rt(rt, name, TunnelRtState { consecutive_squeue_misses: misses, ..s });
    let closed = run_closed(
        st,
        recorded(counted, name, now, "auto-stopped: node "@ + node + " ended"@),
        name,
        now,
    );
    lemma_tunnel_is(closed.0, name, i);
}

/// The job queue is asked at the jump host in use, or else at one that a start would
/// take, about the node of the tunnel; and only where that host is connected.
pub proof fn law_the_job_queue_is_asked_about_the_node(snap: SnapshotView, st: StateView)
    ensures
        squeue_target(snap, st) matches Some(p) ==> {
            &&& snap.last_node == Some(p.1)
            &&& snap.active_jump matches Some(j) ==> p.0 == j
            &&& exists|k: int|
                0 <= k < st.hosts.len() && (#[trigger] st.hosts[k]).host == p.0
                    && st.hosts[k].is_master_ready
        },
        snap.last_node is Some && (snap.active_jump matches Some(j) && exists|k: int|
            0 <= k < st.hosts.len() && (#[trigger] st.hosts[k]).host == j
                && st.hosts[k].is_master_ready && forall|b: int|
                0 <= b < k ==> (#[trigger] st.hosts[b]).host != j) ==> squeue_target(
            snap,
            st,
        ) == Some((snap.active_jump->Some_0, snap.last_node->Some_0)),
{
    if let Some(jump) = squeue_jump(snap, st) {
        law_a_name_addresses_the_first_host(st, jump, 0);
        if let Some(i) = host_at(st, jump) {
            law_a_name_addresses_the_first_host(st, jump, i);
            assert(st.hosts[i].host == jump);
        }
    }
    if let Some(j) = snap.active_jump {
        if exists|k: int|
            0 <= k < st.hosts.len() && (#[trigger] st.hosts[k]).host == j
                && st.hosts[k].is_master_ready && forall|b: int|
                0 <= b < k ==> (#[trigger] st.hosts[b]).host != j {
            let k = choose|k: int|
                0 <= k < st.hosts.len() && (#[trigger] st.hosts[k]).host == j
                    && st.hosts[k].is_master_ready && forall|b: int|
                    0 <= b < k ==> (#[trigger] st.hosts[b]).host != j;
            law_a_name_addresses_the_first_host(st, j, k);
        }
    }
}

/// A failed recovery is counted; the fifth in a row gives the tunnel up: it is no
/// longer wanted, and the list is to be saved.
pub proof fn law_the_fifth_failure_gives_up(
    st: StateView,
    rt: RuntimeView,
    i: int,
    now: u64,
)
    requires
        0 <= i < st.tunnels.len(),
        forall|j: int| 0 <= j < i ==> (#[trigger] st.tunnels[j]).name != st.tunnels[i].name,
        rt.rt.contains_key(st.tunnels[i].name),
    ensures
        ({
            let name = st.tunnels[i].name;
            let n = rt.rt[name].consecutive_recovery_failures;
            let (st1, rt1, stopped) = recovery_failed(st, rt, name, now);
            &&& stopped <==> n + 1 >= 5
            &&& !stopped ==> st1 == st && rt1.rt[name].consecutive_recovery_failures == n + 1
            &&& stopped ==> {
                &&& !st1.tunnels[i].wants_alive
                &&& st1.tunnels[i].active_jump is None
                &&& st1.tunnels[i].name == name
                &&& rt1.rt[name].consecutive_recovery_failures == 0
            }
            &&& rt1.children == rt.children
        }),
{
    lemma_tunnel_is(st, st.tunnels[i].name, i);
}

proof fn lemma_boot_names(ts: Seq<TunnelView>)
    ensures
        forall|i: int|
            0 <= i < ts.len() && ((#[trigger] ts[i]).auto_start || ts[i].wants_alive) && (
            ts[i].last_node is Some || ts[i].direct_host is Some) ==> boot_names(ts).contains(
                ts[i].name,
            ),
        forall|n: Seq<char>| #[trigger]
            boot_names(ts).contains(n) ==> exists|i: int|
                0 <= i < ts.len() && (#[trigger] ts[i]).name == n && (ts[i].auto_start
                    || ts[i].wants_alive) && (ts[i].last_node is Some || ts[i].direct_host is Some),
    decreases ts.len(),
{
    if ts.len() > 0 {
        let front = ts.drop_last();
        let last = ts.len() - 1;
        lemma_boot_names(front);
        let before = boot_names(front);
        let found = boot_names(ts);
        assert forall|i: int|
            0 <= i < ts.len() && ((#[trigger] ts[i]).auto_start || ts[i].wants_alive) && (
            ts[i].last_node is Some || ts[i].direct_host is Some) implies found.contains(
            ts[i].name,
        ) by {
            if i < last {
                assert(front[i] == ts[i]);
                let k = choose|k: int| 0 <= k < before.len() && before[k] == ts[i].name;
                assert(found[k] == ts[i].name);
            } else {
                assert(found[found.len() - 1] == ts[i].name);
            }
        }
        assert forall|n: Seq<char>| #[trigger] found.contains(n) implies exists|i: int|
            0 <= i < ts.len() && (#[trigger] ts[i]).name == n && (ts[i].auto_start
                || ts[i].wants_alive) && (ts[i].last_node is Some || ts[i].direct_host is Some) by {
            let k = choose|k: int| 0 <= k < found.len() && found[k] == n;
            if k < before.len() {
                assert(before[k] == n);
                assert(before.contains(n));
                let i = choose|i: int|
                    0 <= i < front.len() && (#[trigger] front[i]).name == n && (front[i].auto_start
                        || front[i].wants_alive) && (front[i].last_node is Some
                        || front[i].direct_host is Some);
                assert(ts[i] == front[i]);
            } else {
                assert(ts[last].name == n);
            }
        }
    }
}

/// At boot those tunnels are started, and no others, that start at boot or were wanted,
/// and have a node or a host to go to. The start of each makes it wanted, and what it
/// orders goes where the tunnel says.
pub proof fn law_boot_starts_what_is_wanted(
    st: StateView,
    rt: RuntimeView,
    i: int,
    default_user: Seq<char>,
    now: u64,
)
    requires
        0 <= i < st.tunnels.len(),
        forall|j: int| 0 <= j < i ==> (#[trigger] st.tunnels[j]).name != st.tunnels[i].name,
    ensures
        forall|j: int|
            0 <= j < st.tunnels.len() && ((#[trigger] st.tunnels[j]).auto_start
                || st.tunnels[j].wants_alive) && (st.tunnels[j].last_node is Some
                || st.tunnels[j].direct_host is Some) ==> boot_names(st.tunnels).contains(
                st.tunnels[j].name,
            ),
        forall|n: Seq<char>| #[trigger]
            boot_names(st.tunnels).contains(n) ==> exists|j: int|
                0 <= j < st.tunnels.len() && (#[trigger] st.tunnels[j]).name == n && (
                st.tunnels[j].auto_start || st.tunnels[j].wants_alive) && (
                st.tunnels[j].last_node is Some || st.tunnels[j].direct_host is Some),
        ({
            let t = st.tunnels[i];
            let (after, rt1, order) = boot_step(st, rt, t.name, default_user, now);
            &&& after.tunnels[i].wants_alive
            &&& after.tunnels[i].name == t.name
            &&& rt1.rt.contains_key(t.name) && rt1.rt[t.name].last_recovery_attempt_ts == now
            &&& t.status == TunnelStatus::Alive || t.status == TunnelStatus::Starting
                ==> order is None && after.tunnels[i].status == t.status
            &&& order matches Some(o) ==> {
                &&& o.name == t.name
                &&& after.tunnels[i].status == TunnelStatus::Starting
                &&& match o.spec {
                    SpecView::Direct { host } => t.direct_host == Some(host),
                    SpecView::Compute { jump, user, node } => {
                        &&& t.direct_host is None && t.last_node == Some(node)
                        &&& t.jump_candidates matches Some(cs) ==> cs.contains(jump)
                    },
                }
            }
            &&& after.hosts == st.hosts
            &&& after.tunnels.len() == st.tunnels.len()
            &&& forall|j: int|
                0 <= j < st.tunnels.len() && j != i ==> #[trigger] after.tunnels[j] == st.tunnels[j]
        }),
{
    lemma_boot_names(st.tunnels);
    let t = st.tunnels[i];
    lemma_tunnel_is(st, t.name, i);
    let wanted = edit_tunnel(
        st,
        t.name,
        |x: TunnelView| TunnelView { wants_alive: true, ..x },
    );
    lemma_tunnel_is(wanted, t.name, i);
    if begun(wanted, i, default_user).1 is Some {
        law_an_order_goes_where_its_tunnel_says(wanted, i, default_user);
    }
}

/// A pass goes by what the records say of a tunnel: its name, port, status, whether it
/// is wanted, the jump host in use and whether that is enabled, the node and the
/// account, and whether it goes to a host itself.
pub proof fn law_a_snapshot_is_the_tunnel(st: StateView, t: TunnelView, k: int)
    ensures
        ({
            let s = snapshot_of(st, t);
            &&& s.name == t.name
            &&& s.local_port == t.local_port
            &&& s.status == t.status
            &&& s.wants_alive == t.wants_alive
            &&& s.active_jump == t.active_jump
            &&& s.last_node == t.last_node
            &&& s.last_user == t.last_user
            &&& s.is_direct <==> t.direct_host is Some
            &&& t.active_jump is None ==> s.jump_host_active is None
            &&& t.active_jump matches Some(j) ==> {
                &&& (forall|b: int| 0 <= b < st.hosts.len() ==> (#[trigger] st.hosts[b]).host != j)
                    ==> s.jump_host_active is None
                &&& 0 <= k < st.hosts.len() && st.hosts[k].host == j && (forall|b: int|
                    0 <= b < k ==> (#[trigger] st.hosts[b]).host != j) ==> s.jump_host_active
                    == Some(st.hosts[k].active)
            }
        }),
{
    if let Some(j) = t.active_jump {
        law_a_name_addresses_the_first_host(st, j, k);
    }
}

/// Whether a boot run from `st` has come out well at `after`, with these orders: every
/// tunnel keeps its name; one that has become starting was ordered; one of the names is
/// wanted; and one that is not of the names is as it was.
pub open spec fn boot_went(
    names: Seq<Seq<char>>,
    st: StateView,
    after: StateView,
    orders: Seq<OrderView>,
) -> bool {
    &&& after.hosts == st.hosts
    &&& after.tunnels.len() == st.tunnels.len()
    &&& forall|j: int|
        0 <= j < st.tunnels.len() ==> {
            let t = #[trigger] after.tunnels[j];
            &&& t.name == st.tunnels[j].name
            &&& t.status == TunnelStatus::Starting && st.tunnels[j].status
                != TunnelStatus::Starting ==> exists|k: int|
                0 <= k < orders.len() && (#[trigger] orders[k]).name == t.name
            &&& names.contains(t.name) ==> t.wants_alive
            &&& !names.contains(t.name) ==> t == st.tunnels[j]
        }
}

/// A boot run makes every tunnel that it names wanted, launches each that it marks as
/// starting, and leaves the others as they were.
pub proof fn law_a_boot_run_launches_what_it_starts(
    names: Seq<Seq<char>>,
    st: StateView,
    rt: RuntimeView,
    default_user: Seq<char>,
    now: u64,
)
    requires
        tunnel_names(st.tunnels).no_duplicates(),
    ensures
        boot_went(
            names,
            st,
            boot_run(names, st, rt, default_user, now).0,
            boot_run(names, st, rt, default_user, now).2,
        ),
    decreases names.len(),
{
    if names.len() > 0 {
        let front = names.drop_last();
        let name = names.last();
        law_a_boot_run_launches_what_it_starts(front, st, rt, default_user, now);
        let b = boot_run(front, st, rt, default_user, now);
        let f = boot_run(names, st, rt, default_user, now);
        assert forall|n: Seq<char>| #[trigger] names.contains(n) == (front.contains(n) || n == name) by {
            if names.contains(n) {
                let k = choose|k: int| 0 <= k < names.len() && names[k] == n;
                if k < front.len() {
                    assert(front[k] == n);
                }
            }
            if front.contains(n) {
                let k = choose|k: int| 0 <= k < front.len() && front[k] == n;
                assert(names[k] == n);
            }
            assert(names[names.len() - 1] == name);
        }
        assert forall|k: int| 0 <= k < b.2.len() implies #[trigger] f.2[k] == b.2[k] by {}
        lemma_first(tunnel_names(b.0.tunnels), name);
        match tunnel_at(b.0, name) {
            Some(i) => {
                assert forall|j: int| 0 <= j < st.tunnels.len() && j != i implies (
                #[trigger] b.0.tunnels[j]).name != name by {
                    assert(tunnel_names(st.tunnels)[j] == st.tunnels[j].name);
                    assert(tunnel_names(st.tunnels)[i] == st.tunnels[i].name);
                    assert(b.0.tunnels[i].name == st.tunnels[i].name);
                }
                law_boot_starts_what_is_wanted(b.0, b.1, i, default_user, now);
                lemma_starting_is_ordered(b.0, b.1, i, default_user, now);
                assert forall|j: int| 0 <= j < st.tunnels.len() implies {
                    let t = #[trigger] f.0.tunnels[j];
                    &&& t.name == st.tunnels[j].name
                    &&& t.status == TunnelStatus::Starting && st.tunnels[j].status
                        != TunnelStatus::Starting ==> exists|k: int|
                        0 <= k < f.2.len() && (#[trigger] f.2[k]).name == t.name
                    &&& names.contains(t.name) ==> t.wants_alive
                    &&& !names.contains(t.name) ==> t == st.tunnels[j]
                } by {
                    let t0 = b.0.tunnels[j];
                    assert(t0.name == st.tunnels[j].name);
                    if f.0.tunnels[j].status == TunnelStatus::Starting && st.tunnels[j].status
                        != TunnelStatus::Starting {
                        if t0.status == TunnelStatus::Starting {
                            let k = choose|k: int|
                                0 <= k < b.2.len() && (#[trigger] b.2[k]).name == t0.name;
                            assert(f.2[k].name == t0.name);
                        } else {
                            assert(j == i);
                            assert(f.2[f.2.len() - 1].name == name);
                        }
                    }
                }
            },
            None => {
                let wanted = edit_tunnel(
                    b.0,
                    name,
                    |x: TunnelView| TunnelView { wants_alive: true, ..x },
                );
                assert(wanted == b.0);
                assert forall|j: int| 0 <= j < st.tunnels.len() implies {
                    let t = #[trigger] f.0.tunnels[j];
                    &&& t.name == st.tunnels[j].name
                    &&& t.status == TunnelStatus::Starting && st.tunnels[j].status
                        != TunnelStatus::Starting ==> exists|k: int|
                        0 <= k < f.2.len() && (#[trigger] f.2[k]).name == t.name
                    &&& names.contains(t.name) ==> t.wants_alive
                    &&& !names.contains(t.name) ==> t == st.tunnels[j]
                } by {
                    let t0 = b.0.tunnels[j];
                    assert(tunnel_names(b.0.tunnels)[j] == t0.name);
                    assert(t0.name != name);
                    if t0.status == TunnelStatus::Starting && st.tunnels[j].status
                        != TunnelStatus::Starting {
                        let k = choose|k: int|
                            0 <= k < b.2.len() && (#[trigger] b.2[k]).name == t0.name;
                        assert(f.2[k].name == t0.name);
                    }
                }
            },
        }
    }
}

/// The start of a tunnel at boot that marks it as starting orders it.
proof fn lemma_starting_is_ordered(
    st: StateView,
    rt: RuntimeView,
    i: int,
    default_user: Seq<char>,
    now: u64,
)
    requires
        0 <= i < st.tunnels.len(),
        forall|j: int| 0 <= j < i ==> (#[trigger] st.tunnels[j]).name != st.tunnels[i].name,
    ensures
        ({
            let (after, _, order) = boot_step(st, rt, st.tunnels[i].name, default_user, now);
            after.tunnels[i].status == TunnelStatus::Starting && st.tunnels[i].status
                != TunnelStatus::Starting ==> order is Some
        }),
{
    let t = st.tunnels[i];
    lemma_tunnel_is(st, t.name, i);
    let wanted = edit_tunnel(
        st,
        t.name,
        |x: TunnelView| TunnelView { wants_alive: true, ..x },
    );
    lemma_tunnel_is(wanted, t.name, i);
}

/// When the run of a tunnel ends, its length is added to the uptime of the tunnel and
/// its beginning is forgotten; where no run is under way, the uptime stays. Nothing
/// else of the tunnel changes, no other tunnel does, and the process is left alone.
pub proof fn law_a_run_is_added_to_the_uptime(st: StateView, rt: RuntimeView, i: int, now: u64)
    requires
        0 <= i < st.tunnels.len(),
        forall|j: int| 0 <= j < i ==> (#[trigger] st.tunnels[j]).name != st.tunnels[i].name,
    ensures
        ({
            let t = st.tunnels[i];
            let (after, rt1) = run_closed(st, rt, t.name, now);
            let t1 = after.tunnels[i];
            let began = if rt.rt.contains_key(t.name) {
                rt.rt[t.name].alive_since
            } else {
                None
            };
            &&& began is None ==> after == st
            &&& began matches Some(b) ==> b <= now && t.total_uptime_ms + (now - b) <= u64::MAX
                ==> t1.total_uptime_ms == t.total_uptime_ms + (now - b)
            &&& t1.name == t.name && t1.status == t.status && t1.wants_alive == t.wants_alive
            &&& t1.active_jump == t.active_jump && t1.last_node == t.last_node
            &&& after.hosts == st.hosts
            &&& after.tunnels.len() == st.tunnels.len()
            &&& forall|j: int|
                0 <= j < st.tunnels.len() && j != i ==> #[trigger] after.tunnels[j] == st.tunnels[j]
            &&& rt1.rt.contains_key(t.name) && rt1.rt[t.name].alive_since is None
            &&& rt1.children == rt.children && rt1.events == rt.events
        }),
{
    lemma_tunnel_is(st, st.tunnels[i].name, i);
}

/// The death of a tunnel is recorded with its cause: a process that ended, or, where
/// the process was not seen to end, a port that is not bound.
pub proof fn law_a_death_is_recorded_with_its_cause(
    st: StateView,
    rt: RuntimeView,
    name: Seq<char>,
    child_alive: Option<bool>,
    now: u64,
)
    ensures
        ({
            let events = found_dead(st, rt, name, child_alive, now).rt.events;
            let cause = EventView {
                ts: now,
                msg: match child_alive {
                    Some(false) => "child died"@,
                    _ => "port not bound (ghost alive)"@,
                },
            };
            &&& events.contains_key(name)
            &&& events[name].len() > 0
            &&& events[name].last() == cause || (events[name].len() > 1 && events[name][events[name].len()
                - 2] == cause)
        }),
{
}

/// A tunnel that is stopped with a message is idle, has no jump host and says the
/// message; it stays wanted only where it was and is to stay so. One whose start failed
/// says why, and one that came up says through which host.
pub proof fn law_records_say_what_happened(
    t: TunnelView,
    stays: bool,
    msg: Seq<char>,
    jump: Seq<char>,
    now: u64,
)
    ensures
        ({
            let t1 = idled(t, stays, msg);
            &&& t1.status == TunnelStatus::Idle && t1.active_jump is None && t1.last_msg == msg
            &&& t1.wants_alive <==> stays && t.wants_alive
            &&& t1.name == t.name && t1.local_port == t.local_port && t1.last_node == t.last_node
        }),
        start_failed(t, msg).last_msg == msg,
        start_failed(t, msg).name == t.name && start_failed(t, msg).wants_alive == t.wants_alive,
        came_up(t, jump, now).last_msg == "via "@ + jump,
        came_up(t, jump, now).name == t.name,
        came_up(t, jump, now).total_uptime_ms == t.total_uptime_ms,
{
}

/// A death that makes a tunnel back off, its fourth short run in a row or a later one,
/// is recorded as that.
pub proof fn law_backing_off_is_recorded(
    st: StateView,
    rt: RuntimeView,
    name: Seq<char>,
    child_alive: Option<bool>,
    now: u64,
)
    ensures
        ({
            let after = found_dead(st, rt, name, child_alive, now).rt;
            &&& after.rt.contains_key(name) && after.events.contains_key(name)
            &&& after.rt[name].consecutive_flaps >= 4 <==> after.events[name].last().msg
                == "flapping — backing off"@
        }),
{
    reveal_strlit("flapping — backing off");
    reveal_strlit("child died");
    reveal_strlit("port not bound (ghost alive)");
    assert("flapping — backing off"@[0] == 'f');
    assert("child died"@[0] == 'c');
    assert("port not bound (ghost alive)"@[0] == 'p');
}

/// A look at the job queue is noted with its time; nothing else changes with the
/// decision to look.
pub proof fn law_a_look_at_the_job_queue_is_noted(
    snap: SnapshotView,
    st: StateView,
    rt: RuntimeView,
    port_bound: bool,
    child_alive: Option<bool>,
    default_user: Seq<char>,
    now: u64,
)
    ensures
        ({
            let t = ticked(snap, st, rt, port_bound, child_alive, default_user, now);
            t.squeue ==> {
                &&& t.st == st && t.kill is None && t.start is None
                &&& t.rt.rt.contains_key(snap.name) && t.rt.rt[snap.name].last_squeue_check_ts == now
                &&& t.rt.children == rt.children && t.rt.events == rt.events
                &&& rt.rt.contains_key(snap.name) ==> t.rt.rt[snap.name].alive_since
                    == rt.rt[snap.name].alive_since
            }
        }),
{
}

/// A tunnel whose node is gone is stopped exactly where it is up, or down and still
/// wanted; one that is coming up, that was stopped for this before or that nobody
/// wants is left. A name that no tunnel has stops nothing.
pub proof fn law_which_tunnels_go_stale(st: StateView, name: Seq<char>, i: int)
    ensures
        (forall|j: int| 0 <= j < st.tunnels.len() ==> (#[trigger] st.tunnels[j]).name != name)
            ==> !staleable(st, name),
        0 <= i < st.tunnels.len() && st.tunnels[i].name == name && (forall|j: int|
            0 <= j < i ==> (#[trigger] st.tunnels[j]).name != name) ==> (staleable(st, name)
            <==> match st.tunnels[i].status {
            TunnelStatus::Alive => true,
            TunnelStatus::Idle | TunnelStatus::Failed | TunnelStatus::PortBusy => st.tunnels[i].wants_alive,
            TunnelStatus::Starting | TunnelStatus::Stale => false,
        }),
{
    law_a_name_addresses_the_first_tunnel(st, name, i);
}

} // verus!
