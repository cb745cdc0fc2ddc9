//! What the daemon keeps of a tunnel while it runs: the forward's process, the
//! maintenance counters and the recent events; and the decision that one
//! maintenance tick makes for a tunnel. Nothing here outlives the process.
//!
//! A forward's process is known here by a handle that its owner gave it.
//! Times are Unix milliseconds.
use crate::names::{NameMap, distinct_names, pairs_map};
use crate::text::same_text;
use vstd::prelude::*;

verus! {

/// How many events a tunnel's log keeps.
pub const EVENT_BUFFER_LIMIT: usize = 200;

/// Failed recoveries in a row after which a tunnel is stopped for good.
pub const RECOVERY_FAILURE_THRESHOLD: u32 = 5;

/// Least time between two recovery attempts.
pub const AUTO_RECOVERY_INTERVAL_SEC: u64 = 15;

/// Least time between two job-queue checks.
pub const SQUEUE_INTERVAL_SEC: u64 = 30;

/// Job-queue misses in a row after which a tunnel is stale.
pub const STALE_MISS_THRESHOLD: u32 = 2;

/// How long after startup the boot auto-start waits.
pub const BOOT_GRACE_SEC: u64 = 3;

/// A run at least this long is a stable one.
pub const TUNNEL_FLAP_MIN_UPTIME_SEC: u64 = 30;

/// Short runs in a row after which recovery backs off.
pub const TUNNEL_FLAP_THRESHOLD: u32 = 4;

/// How long a flapping tunnel sits out.
pub const TUNNEL_FLAP_BACKOFF_SEC: u64 = 60;

/// One entry of a tunnel's event log.
#[derive(Debug, Clone, PartialEq)]
pub struct TunnelEvent {
    pub ts: u64,
    pub msg: String,
}

/// What an event says.
#[verifier::ext_equal]
pub struct EventView {
    pub ts: u64,
    pub msg: Seq<char>,
}

impl View for TunnelEvent {
    type V = EventView;

    open spec fn view(&self) -> EventView {
        EventView { ts: self.ts, msg: self.msg@ }
    }
}

/// What a list of events says.
pub open spec fn events_view(s: Seq<TunnelEvent>) -> Seq<EventView> {
    s.map_values(|e: TunnelEvent| e@)
}

/// The maintenance counters of one tunnel.
#[derive(Debug, Clone, Copy, PartialEq, Eq, Structural)]
pub struct TunnelRtState {
    /// The last recovery attempt; recoveries are throttled against it.
    pub last_recovery_attempt_ts: u64,
    /// The last job-queue check; checks are throttled against it.
    pub last_squeue_check_ts: u64,
    /// Job-queue checks in a row that did not find the tunnel's node.
    pub consecutive_squeue_misses: u32,
    /// When the current run began.
    pub alive_since: Option<u64>,
    /// Runs in a row that ended before they were stable.
    pub consecutive_flaps: u32,
    /// Recovery attempts in a row that did not bring the tunnel up.
    pub consecutive_recovery_failures: u32,
}

/// The counters of a tunnel that nothing has happened to.
pub open spec fn fresh_rt() -> TunnelRtState {
    TunnelRtState {
        last_recovery_attempt_ts: 0,
        last_squeue_check_ts: 0,
        consecutive_squeue_misses: 0,
        alive_since: None,
        consecutive_flaps: 0,
        consecutive_recovery_failures: 0,
    }
}

impl Default for TunnelRtState {
    fn default() -> (s: Self)
        ensures
            s == fresh_rt(),
    {
        TunnelRtState {
            last_recovery_attempt_ts: 0,
            last_squeue_check_ts: 0,
            consecutive_squeue_misses: 0,
            alive_since: None,
            consecutive_flaps: 0,
            consecutive_recovery_failures: 0,
        }
    }
}

/// Whether so many consecutive recovery failures stop a tunnel for good.
pub fn should_auto_stop_after_failures(consecutive_failures: u32, threshold: u32) -> (stop: bool)
    ensures
        stop == (consecutive_failures >= threshold),
{
    consecutive_failures >= threshold
}

/// `n + 1`, or `n` where that is the greatest number.
pub open spec fn next_count(n: u32) -> u32 {
    if n == u32::MAX {
        n
    } else {
        (n + 1) as u32
    }
}

/// The number of short runs in a row, once a run of `uptime` has ended.
pub open spec fn flaps_after(flaps: u32, uptime: Option<u64>) -> u32 {
    match uptime {
        Some(u) => if u < TUNNEL_FLAP_MIN_UPTIME_SEC * 1000 {
            next_count(flaps)
        } else {
            0
        },
        None => flaps,
    }
}

/// `a + b`, or the greatest `u64`.
pub open spec fn capped_sum(a: u64, b: u64) -> u64 {
    if a + b > u64::MAX {
        u64::MAX
    } else {
        (a + b) as u64
    }
}

/// The counters after a live tunnel was found dead: recovery is free at once,
/// or only after the back-off where the tunnel flaps.
pub open spec fn after_drop(rt: TunnelRtState, uptime: Option<u64>, now: u64) -> TunnelRtState {
    let flaps = flaps_after(rt.consecutive_flaps, uptime);
    TunnelRtState {
        consecutive_flaps: flaps,
        last_recovery_attempt_ts: if flaps >= TUNNEL_FLAP_THRESHOLD {
            capped_sum(
                now,
                ((TUNNEL_FLAP_BACKOFF_SEC - AUTO_RECOVERY_INTERVAL_SEC) * 1000) as u64,
            )
        } else {
            0
        },
        ..rt
    }
}

/// Account for a run that ended: a one-off drop recovers at once, a tunnel that
/// keeps dying soon after each start backs off. Returns whether it backs off.
pub fn note_stop_dead_flap(rt: &mut TunnelRtState, uptime: Option<u64>, now: u64) -> (backed_off:
    bool)
    ensures
        *final(rt) == after_drop(*old(rt), uptime, now),
        backed_off == (flaps_after(old(rt).consecutive_flaps, uptime) >= TUNNEL_FLAP_THRESHOLD),
{
    match uptime {
        Some(u) => {
            if u < TUNNEL_FLAP_MIN_UPTIME_SEC * 1000 {
                rt.consecutive_flaps = rt.consecutive_flaps.saturating_add(1);
            } else {
                rt.consecutive_flaps = 0;
            }
        },
        None => {},
    }
    if rt.consecutive_flaps >= TUNNEL_FLAP_THRESHOLD {
        rt.last_recovery_attempt_ts = now.saturating_add(
            (TUNNEL_FLAP_BACKOFF_SEC - AUTO_RECOVERY_INTERVAL_SEC) * 1000,
        );
        true
    } else {
        rt.last_recovery_attempt_ts = 0;
        false
    }
}

/// What one maintenance tick does with a tunnel.
#[derive(Debug, Clone, Copy, PartialEq, Eq, Structural)]
pub enum TunnelAction {
    /// Nothing.
    Skip,
    /// It is down, wanted, and a recovery attempt is due: start it.
    Recover,
    /// It counts as alive but its process is gone or its port is not bound.
    StopDead,
    /// It is alive but its jump host has been disabled.
    StopDisabledJump,
    /// A job-queue check is due.
    SqueueCheck,
}

/// Where a tunnel stands, for the decision of a tick.
#[derive(Debug, Clone, Copy, PartialEq, Eq, Structural)]
pub enum TunnelStatusKind {
    Idle,
    Failed,
    Stale,
    PortBusy,
    Starting,
    Alive,
}

/// Whether `secs` seconds have gone by since `last`.
pub open spec fn due(now: u64, last: u64, secs: u64) -> bool {
    now - last >= secs * 1000
}

fn is_due(now: u64, last: u64, secs: u64) -> (r: bool)
    requires
        secs <= 1000,
    ensures
        r == due(now, last, secs),
{
    now >= last && now - last >= secs * 1000
}

/// The decision of a tick, as a rule: a down tunnel that is wanted asks the job
/// queue first and recovers otherwise, except where its node is known to be
/// gone; a live one is checked for its process and port, then its jump host,
/// then its job.
pub open spec fn decided(
    status: TunnelStatusKind,
    wants_alive: bool,
    child_alive: Option<bool>,
    port_bound: bool,
    jump_active: Option<bool>,
    last_recovery_ts: u64,
    last_squeue_ts: u64,
    now: u64,
    is_direct: bool,
) -> TunnelAction {
    let squeue_due = !is_direct && due(now, last_squeue_ts, SQUEUE_INTERVAL_SEC);
    match status {
        TunnelStatusKind::Alive => if child_alive == Some(false) || !port_bound {
            TunnelAction::StopDead
        } else if jump_active == Some(false) {
            TunnelAction::StopDisabledJump
        } else if squeue_due {
            TunnelAction::SqueueCheck
        } else {
            TunnelAction::Skip
        },
        TunnelStatusKind::Starting | TunnelStatusKind::Stale => TunnelAction::Skip,
        TunnelStatusKind::Idle | TunnelStatusKind::Failed | TunnelStatusKind::PortBusy => if !wants_alive {
            TunnelAction::Skip
        } else if squeue_due {
            TunnelAction::SqueueCheck
        } else if due(now, last_recovery_ts, AUTO_RECOVERY_INTERVAL_SEC) {
            TunnelAction::Recover
        } else {
            TunnelAction::Skip
        },
    }
}

/// Decide what one tick does with a tunnel.
///
/// `child_alive` is `None` where no process is registered; `jump_active` is
/// `None` where the tunnel has no jump host or the host is not known.
pub fn tunnel_action(
    status: TunnelStatusKind,
    wants_alive: bool,
    child_alive: Option<bool>,
    port_bound: bool,
    jump_active: Option<bool>,
    last_recovery_ts: u64,
    last_squeue_ts: u64,
    now: u64,
    is_direct: bool,
) -> (action: TunnelAction)
    ensures
        action == decided(
            status,
            wants_alive,
            child_alive,
            port_bound,
            jump_active,
            last_recovery_ts,
            last_squeue_ts,
            now,
            is_direct,
        ),
{
    match status {
        TunnelStatusKind::Starting | TunnelStatusKind::Stale => TunnelAction::Skip,
        TunnelStatusKind::Idle | TunnelStatusKind::Failed | TunnelStatusKind::PortBusy => {
            if !wants_alive {
                TunnelAction::Skip
            } else if !is_direct && is_due(now, last_squeue_ts, SQUEUE_INTERVAL_SEC) {
                TunnelAction::SqueueCheck
            } else if is_due(now, last_recovery_ts, AUTO_RECOVERY_INTERVAL_SEC) {
                TunnelAction::Recover
            } else {
                TunnelAction::Skip
            }
        },
        TunnelStatusKind::Alive => {
            let child_dead: bool = match child_alive {
                None => false,
                Some(alive) => !alive,
            };
            let jump_disabled: bool = match jump_active {
                None => false,
                Some(active) => !active,
            };
            if child_dead || !port_bound {
                TunnelAction::StopDead
            } else if jump_disabled {
                TunnelAction::StopDisabledJump
            } else if !is_direct && is_due(now, last_squeue_ts, SQUEUE_INTERVAL_SEC) {
                TunnelAction::SqueueCheck
            } else {
                TunnelAction::Skip
            }
        },
    }
}

/// Whether a tunnel is started at boot: it is wanted, and it has a target.
pub fn should_autostart(
    auto_start: bool,
    wants_alive: bool,
    last_node: Option<&str>,
    is_direct: bool,
) -> (start: bool)
    ensures
        start == ((auto_start || wants_alive) && (last_node is Some || is_direct)),
{
    (auto_start || wants_alive) && (last_node.is_some() || is_direct)
}

/// What a look at a process found.
#[derive(Debug, Clone, Copy, PartialEq, Eq, Structural)]
pub enum ChildPoll {
    /// It runs.
    Running,
    /// It has exited.
    Exited,
    /// The look failed.
    Unknown,
}

/// Whether `alive` is what some look of `poll` at the process `c` finds; a look
/// that failed counts as running.
pub open spec fn poll_says<F: Fn(u64) -> ChildPoll>(poll: F, c: u64, alive: bool) -> bool {
    exists|p: ChildPoll| #[trigger]
        call_ensures(poll, (c,), p) && alive == (p != ChildPoll::Exited)
}

/// Runtime records of all tunnels, by tunnel name.
#[derive(Debug)]
pub struct TunnelRuntime {
    children: NameMap<u64>,
    rt: NameMap<TunnelRtState>,
    events: NameMap<Vec<TunnelEvent>>,
    startup_ts: u64,
    auto_started: bool,
}

/// What the runtime records say.
#[verifier::ext_equal]
pub struct RuntimeView {
    pub children: Map<Seq<char>, u64>,
    pub rt: Map<Seq<char>, TunnelRtState>,
    pub events: Map<Seq<char>, Seq<EventView>>,
    pub startup_ts: u64,
    pub auto_started: bool,
}

impl View for TunnelRuntime {
    type V = RuntimeView;

    closed spec fn view(&self) -> RuntimeView {
        RuntimeView {
            children: self.children@,
            rt: self.rt@,
            events: self.events@.map_values(|v: Vec<TunnelEvent>| events_view(v@)),
            startup_ts: self.startup_ts,
            auto_started: self.auto_started,
        }
    }
}

/// The counters of `name`; those of a fresh tunnel where it has none yet.
pub open spec fn rt_of(v: RuntimeView, name: Seq<char>) -> TunnelRtState {
    if v.rt.contains_key(name) {
        v.rt[name]
    } else {
        fresh_rt()
    }
}

/// `v` with other counters for `name`.
pub open spec fn with_rt(v: RuntimeView, name: Seq<char>, s: TunnelRtState) -> RuntimeView {
    RuntimeView { rt: v.rt.insert(name, s), ..v }
}

/// The events of `name`, oldest first.
pub open spec fn events_of(v: RuntimeView, name: Seq<char>) -> Seq<EventView> {
    if v.events.contains_key(name) {
        v.events[name]
    } else {
        Seq::empty()
    }
}

/// The newest events of a log.
pub open spec fn newest(s: Seq<EventView>) -> Seq<EventView> {
    if s.len() > EVENT_BUFFER_LIMIT {
        s.skip(s.len() - EVENT_BUFFER_LIMIT)
    } else {
        s
    }
}

/// `v` with one more event for `name`, the oldest dropped where they are too
/// many.
pub open spec fn recorded(v: RuntimeView, name: Seq<char>, ts: u64, msg: Seq<char>) -> RuntimeView {
    RuntimeView {
        events: v.events.insert(name, newest(events_of(v, name).push(EventView { ts, msg }))),
        ..v
    }
}

/// `v` without a process for `name`.
pub open spec fn childless(v: RuntimeView, name: Seq<char>) -> RuntimeView {
    RuntimeView { children: v.children.remove(name), ..v }
}

/// The process of `name`.
pub open spec fn child_of(v: RuntimeView, name: Seq<char>) -> Option<u64> {
    if v.children.contains_key(name) {
        Some(v.children[name])
    } else {
        None
    }
}

/// `m` with what was under `old` moved to `new`.
pub open spec fn moved<V>(m: Map<Seq<char>, V>, old: Seq<char>, new: Seq<char>) -> Map<
    Seq<char>,
    V,
> {
    if m.contains_key(old) {
        m.remove(old).insert(new, m[old])
    } else {
        m
    }
}

/// `v` with everything of the tunnel `old` kept under `new`.
pub open spec fn renamed(v: RuntimeView, old: Seq<char>, new: Seq<char>) -> RuntimeView {
    if old == new {
        v
    } else {
        RuntimeView {
            children: moved(v.children, old, new),
            rt: moved(v.rt, old, new),
            events: moved(v.events, old, new),
            ..v
        }
    }
}

/// `v` with nothing of the tunnel `name`.
pub open spec fn removed(v: RuntimeView, name: Seq<char>) -> RuntimeView {
    RuntimeView {
        children: v.children.remove(name),
        rt: v.rt.remove(name),
        events: v.events.remove(name),
        ..v
    }
}

/// Every event log is within its limit.
pub open spec fn logs_bounded(v: RuntimeView) -> bool {
    forall|name: Seq<char>| #[trigger] v.events.contains_key(name) ==> v.events[name].len()
        <= EVENT_BUFFER_LIMIT
}

fn move_entry<V>(m: &mut NameMap<V>, old_name: &str, new_name: &str)
    requires
        old_name@ != new_name@,
    ensures
        final(m)@ == moved(old(m)@, old_name@, new_name@),
{
    match m.remove(old_name) {
        Some(v) => {
            m.insert(new_name, v);
        },
        None => {
            proof {
                assert(m@ =~= old(m)@);
            }
        },
    }
}

impl TunnelRuntime {
    /// No record at all.
    pub fn new() -> (r: TunnelRuntime)
        ensures
            r@ == (RuntimeView {
                children: Map::empty(),
                rt: Map::empty(),
                events: Map::empty(),
                startup_ts: 0,
                auto_started: false,
            }),
    {
        let r: TunnelRuntime = TunnelRuntime {
            children: NameMap::new(),
            rt: NameMap::new(),
            events: NameMap::new(),
            startup_ts: 0,
            auto_started: false,
        };
        proof {
            assert(r@.events =~= Map::empty());
        }
        r
    }

    /// Record when the daemon started.
    pub fn set_startup_ts(&mut self, ts: u64)
        ensures
            final(self)@ == (RuntimeView { startup_ts: ts, ..old(self)@ }),
    {
        self.startup_ts = ts;
    }

    /// Register the process of a started tunnel. The one it displaces comes
    /// back, to be stopped.
    pub fn store_child(&mut self, name: &str, child: u64) -> (stale: Option<u64>)
        ensures
            final(self)@ == (RuntimeView {
                children: old(self)@.children.insert(name@, child),
                ..old(self)@
            }),
            stale == child_of(old(self)@, name@),
    {
        self.children.insert(name, child)
    }

    /// Unregister the process of `name`; it comes back.
    pub fn take_child(&mut self, name: &str) -> (child: Option<u64>)
        ensures
            final(self)@ == childless(old(self)@, name@),
            child == child_of(old(self)@, name@),
    {
        self.children.remove(name)
    }

    /// Unregister the process of `name`; it comes back, to be killed. Nothing
    /// happens where there is none.
    pub fn kill_child(&mut self, name: &str) -> (child: Option<u64>)
        ensures
            final(self)@ == childless(old(self)@, name@),
            child == child_of(old(self)@, name@),
    {
        self.take_child(name)
    }

    /// The process of `name`.
    pub fn child(&self, name: &str) -> (child: Option<u64>)
        ensures
            child == child_of(self@, name@),
    {
        match self.children.get(name) {
            Some(c) => Some(*c),
            None => None,
        }
    }

    /// Whether the process of `name` runs, by a look that `poll` takes; `None`
    /// where no process is registered. A look that failed counts as running.
    pub fn child_alive<F: Fn(u64) -> ChildPoll>(&self, name: &str, poll: F) -> (r: Option<bool>)
        requires
            forall|c: u64| call_requires(poll, (c,)),
        ensures
            match child_of(self@, name@) {
                None => r is None,
                Some(c) => r is Some && poll_says(poll, c, r->0),
            },
            r == Some(false) ==> call_ensures(
                poll,
                (self@.children[name@],),
                ChildPoll::Exited,
            ),
            r == Some(true) ==> call_ensures(poll, (self@.children[name@],), ChildPoll::Running)
                || call_ensures(poll, (self@.children[name@],), ChildPoll::Unknown),
            r is Some <==> self@.children.contains_key(name@),
    {
        match self.children.get(name) {
            None => None,
            Some(c) => {
                let handle: u64 = *c;
                let p: ChildPoll = poll(handle);
                let alive: bool = p != ChildPoll::Exited;
                proof {
                    assert(call_ensures(poll, (handle,), p));
                    assert(poll_says(poll, handle, alive));
                }
                Some(alive)
            },
        }
    }

    /// The counters of `name`; those of a fresh tunnel where it has none yet.
    pub fn get_rt(&self, name: &str) -> (s: TunnelRtState)
        ensures
            s == rt_of(self@, name@),
    {
        match self.rt.get(name) {
            Some(s) => *s,
            None => TunnelRtState::default(),
        }
    }

    /// Set the counters of `name`.
    pub fn put_rt(&mut self, name: &str, s: TunnelRtState)
        ensures
            final(self)@ == with_rt(old(self)@, name@, s),
    {
        self.rt.insert(name, s);
    }

    /// Change the counters of `name` by `f`, which starts from those of a fresh
    /// tunnel where it has none yet.
    pub fn with_rt_mut<R, F: FnOnce(TunnelRtState) -> (TunnelRtState, R)>(
        &mut self,
        name: &str,
        f: F,
    ) -> (r: R)
        requires
            call_requires(f, (rt_of(old(self)@, name@),)),
        ensures
            exists|s: TunnelRtState| #[trigger]
                call_ensures(f, (rt_of(old(self)@, name@),), (s, r)) && final(self)@ == with_rt(
                    old(self)@,
                    name@,
                    s,
                ),
    {
        let (s, r): (TunnelRtState, R) = f(self.get_rt(name));
        self.put_rt(name, s);
        r
    }

    /// Read the counters of `name`; `None` where it has none yet.
    pub fn with_rt<R, F: FnOnce(TunnelRtState) -> R>(&self, name: &str, f: F) -> (r: Option<R>)
        requires
            self@.rt.contains_key(name@) ==> call_requires(f, (self@.rt[name@],)),
        ensures
            match r {
                Some(x) => self@.rt.contains_key(name@) && call_ensures(
                    f,
                    (self@.rt[name@],),
                    x,
                ),
                None => !self@.rt.contains_key(name@),
            },
    {
        match self.rt.get(name) {
            Some(s) => Some(f(*s)),
            None => None,
        }
    }

    /// Forget everything about `name`. Its process comes back, to be stopped.
    pub fn remove(&mut self, name: &str) -> (child: Option<u64>)
        ensures
            final(self)@ == removed(old(self)@, name@),
            child == child_of(old(self)@, name@),
    {
        let child: Option<u64> = self.children.remove(name);
        self.rt.remove(name);
        self.events.remove(name);
        proof {
            assert(self@.events =~= old(self)@.events.remove(name@));
        }
        child
    }

    /// Keep everything of the tunnel `old_name` under `new_name`.
    pub fn rename_entry(&mut self, old_name: &str, new_name: &str)
        ensures
            final(self)@ == renamed(old(self)@, old_name@, new_name@),
    {
        if same_text(old_name, new_name) {
            return;
        }
        move_entry(&mut self.children, old_name, new_name);
        move_entry(&mut self.rt, old_name, new_name);
        move_entry(&mut self.events, old_name, new_name);
        proof {
            assert(self@.events =~= moved(old(self)@.events, old_name@, new_name@));
        }
    }

    /// Add an event to the log of `name`, dropping the oldest where they are
    /// too many.
    pub fn record(&mut self, name: &str, ts: u64, msg: &str)
        ensures
            final(self)@ == recorded(old(self)@, name@, ts, msg@),
    {
        let ghost before = self@;
        let mut log: Vec<TunnelEvent> = match self.events.remove(name) {
            Some(log) => log,
            None => Vec::new(),
        };
        let ghost start = events_view(log@);
        proof {
            assert(start =~= events_of(before, name@));
        }
        log.push(TunnelEvent { ts, msg: msg.to_owned() });
        let ghost full = events_view(log@);
        proof {
            assert(full =~= start.push(EventView { ts, msg: msg@ }));
        }
        let ghost mut dropped: int = 0;
        proof {
            assert(full.skip(0) =~= full);
        }
        while log.len() > EVENT_BUFFER_LIMIT
            invariant
                0 <= dropped,
                dropped == 0 || full.len() - dropped >= EVENT_BUFFER_LIMIT,
                dropped <= full.len(),
                events_view(log@) == full.skip(dropped),
                log@.len() == full.len() - dropped,
            decreases log@.len(),
        {
            let ghost prior = log@;
            log.remove(0);
            proof {
                assert(events_view(log@) =~= events_view(prior).skip(1));
                assert(full.skip(dropped).skip(1) =~= full.skip(dropped + 1));
                dropped = dropped + 1;
            }
        }
        proof {
            assert(events_view(log@) =~= newest(full));
        }
        self.events.insert(name, log);
        proof {
            assert(self@.events =~= before.events.insert(name@, newest(full)));
        }
    }

    /// The events of `name`, oldest first.
    pub fn events(&self, name: &str) -> (r: Vec<TunnelEvent>)
        ensures
            events_view(r@) == events_of(self@, name@),
    {
        let mut r: Vec<TunnelEvent> = Vec::new();
        match self.events.get(name) {
            Some(log) => {
                let mut i: usize = 0;
                while i < log.len()
                    invariant
                        i <= log@.len(),
                        events_view(r@) == events_view(log@).take(i as int),
                    decreases log@.len() - i,
                {
                    let e: TunnelEvent = TunnelEvent { ts: log[i].ts, msg: log[i].msg.clone() };
                    let ghost before = r@;
                    r.push(e);
                    proof {
                        assert(events_view(r@) =~= events_view(before).push(e@));
                        assert(events_view(log@).take(i + 1) =~= events_view(log@).take(
                            i as int,
                        ).push(log@[i as int]@));
                    }
                    i += 1;
                }
                proof {
                    assert(events_view(log@).take(i as int) =~= events_view(log@));
                }
            },
            None => {
                proof {
                    assert(events_view(r@) =~= Seq::empty());
                }
            },
        }
        r
    }

    /// Unregister every process; they come back, to be killed.
    pub fn kill_all_children(&mut self) -> (r: Vec<(String, u64)>)
        ensures
            final(self)@ == (RuntimeView { children: Map::empty(), ..old(self)@ }),
            pairs_map(r@) == old(self)@.children,
            distinct_names(r@),
    {
        self.children.drain()
    }

    /// When the daemon started, and whether the boot auto-start has run.
    pub fn boot_state(&self) -> (r: (u64, bool))
        ensures
            r == (self@.startup_ts, self@.auto_started),
    {
        (self.startup_ts, self.auto_started)
    }

    /// The boot auto-start has run.
    pub fn mark_auto_started(&mut self)
        ensures
            final(self)@ == (RuntimeView { auto_started: true, ..old(self)@ }),
    {
        self.auto_started = true;
    }
}

/// The event log of a tunnel is always the newest part of its whole history:
/// dropping old entries before a new one is added changes nothing.
pub proof fn law_the_log_is_the_newest_of_the_history(history: Seq<EventView>, e: EventView)
    ensures
        newest(newest(history).push(e)) == newest(history.push(e)),
{
    assert(newest(newest(history).push(e)) =~= newest(history.push(e)));
}

/// No change of the runtime records lets an event log outgrow its limit.
pub proof fn law_event_logs_stay_bounded(
    v: RuntimeView,
    name: Seq<char>,
    other: Seq<char>,
    ts: u64,
    msg: Seq<char>,
    s: TunnelRtState,
)
    requires
        logs_bounded(v),
    ensures
        logs_bounded(recorded(v, name, ts, msg)),
        logs_bounded(with_rt(v, name, s)),
        logs_bounded(childless(v, name)),
        logs_bounded(renamed(v, name, other)),
        logs_bounded(removed(v, name)),
{
    let r = recorded(v, name, ts, msg);
    assert forall|n: Seq<char>| #[trigger] r.events.contains_key(n) implies r.events[n].len()
        <= EVENT_BUFFER_LIMIT by {
        if n != name {
            assert(v.events.contains_key(n));
        }
    }
    let m = renamed(v, name, other);
    assert forall|n: Seq<char>| #[trigger] m.events.contains_key(n) implies m.events[n].len()
        <= EVENT_BUFFER_LIMIT by {
        if name != other && v.events.contains_key(name) && n == other {
        } else {
            assert(v.events.contains_key(n));
        }
    }
    let d = removed(v, name);
    assert forall|n: Seq<char>| #[trigger] d.events.contains_key(n) implies d.events[n].len()
        <= EVENT_BUFFER_LIMIT by {
        assert(v.events.contains_key(n));
    }
}

/// What happens to one tunnel leaves the records of the others alone.
pub proof fn law_tunnels_do_not_disturb_each_other(
    v: RuntimeView,
    name: Seq<char>,
    other: Seq<char>,
    ts: u64,
    msg: Seq<char>,
    s: TunnelRtState,
)
    requires
        name != other,
    ensures
        events_of(recorded(v, name, ts, msg), other) == events_of(v, other),
        rt_of(with_rt(v, name, s), other) == rt_of(v, other),
        child_of(childless(v, name), other) == child_of(v, other),
        events_of(removed(v, name), other) == events_of(v, other),
        rt_of(removed(v, name), other) == rt_of(v, other),
        child_of(removed(v, name), other) == child_of(v, other),
{
}

/// A tunnel that gets a free name keeps its process, counters and events under
/// it, and nothing is left under the old name.
pub proof fn law_a_rename_keeps_everything(v: RuntimeView, old: Seq<char>, new: Seq<char>)
    requires
        old != new,
        !v.children.contains_key(new),
        !v.rt.contains_key(new),
        !v.events.contains_key(new),
    ensures
        child_of(renamed(v, old, new), new) == child_of(v, old),
        rt_of(renamed(v, old, new), new) == rt_of(v, old),
        events_of(renamed(v, old, new), new) == events_of(v, old),
        child_of(renamed(v, old, new), old) is None,
        rt_of(renamed(v, old, new), old) == fresh_rt(),
        events_of(renamed(v, old, new), old).len() == 0,
        renamed(renamed(v, old, new), new, old) == v,
{
    let there = renamed(v, old, new);
    let back = renamed(there, new, old);
    assert(back.children =~= v.children);
    assert(back.rt =~= v.rt);
    assert(back.events =~= v.events);
}

/// A tunnel whose node is gone, and one that is coming up, are left alone by
/// every tick.
pub proof fn law_stale_and_starting_tunnels_are_left_alone(
    wants_alive: bool,
    child_alive: Option<bool>,
    port_bound: bool,
    jump_active: Option<bool>,
    last_recovery_ts: u64,
    last_squeue_ts: u64,
    now: u64,
    is_direct: bool,
)
    ensures
        decided(
            TunnelStatusKind::Stale,
            wants_alive,
            child_alive,
            port_bound,
            jump_active,
            last_recovery_ts,
            last_squeue_ts,
            now,
            is_direct,
        ) == TunnelAction::Skip,
        decided(
            TunnelStatusKind::Starting,
            wants_alive,
            child_alive,
            port_bound,
            jump_active,
            last_recovery_ts,
            last_squeue_ts,
            now,
            is_direct,
        ) == TunnelAction::Skip,
{
}

/// A tick recovers only a tunnel that is down and wanted, stops only a live one,
/// and asks the job queue only for one that has a job.
pub proof fn law_ticks_act_only_where_called_for(
    status: TunnelStatusKind,
    wants_alive: bool,
    child_alive: Option<bool>,
    port_bound: bool,
    jump_active: Option<bool>,
    last_recovery_ts: u64,
    last_squeue_ts: u64,
    now: u64,
    is_direct: bool,
)
    ensures
        ({
            let a = decided(
                status,
                wants_alive,
                child_alive,
                port_bound,
                jump_active,
                last_recovery_ts,
                last_squeue_ts,
                now,
                is_direct,
            );
            &&& a == TunnelAction::Recover ==> wants_alive && status != TunnelStatusKind::Alive
                && due(now, last_recovery_ts, AUTO_RECOVERY_INTERVAL_SEC)
            &&& a == TunnelAction::StopDead ==> status == TunnelStatusKind::Alive
            &&& a == TunnelAction::StopDisabledJump ==> status == TunnelStatusKind::Alive
            &&& a == TunnelAction::SqueueCheck ==> !is_direct && due(
                now,
                last_squeue_ts,
                SQUEUE_INTERVAL_SEC,
            )
        }),
{
}

/// A drop after a stable run, or one of a few short ones, is recovered at the
/// next tick; a tunnel that keeps dying soon after each start waits out the
/// back-off from its last drop, and no longer. Times within the back-off of the
/// greatest number are left out.
pub proof fn law_only_flapping_tunnels_wait(
    rt: TunnelRtState,
    uptime: Option<u64>,
    now: u64,
    later: u64,
)
    requires
        AUTO_RECOVERY_INTERVAL_SEC * 1000 <= now <= later,
        now + TUNNEL_FLAP_BACKOFF_SEC * 1000 <= u64::MAX,
    ensures
        ({
            let after = after_drop(rt, uptime, now);
            due(later, after.last_recovery_attempt_ts, AUTO_RECOVERY_INTERVAL_SEC) <==> (
            after.consecutive_flaps < TUNNEL_FLAP_THRESHOLD || later - now
                >= TUNNEL_FLAP_BACKOFF_SEC * 1000)
        }),
        uptime is Some && uptime->Some_0 >= TUNNEL_FLAP_MIN_UPTIME_SEC * 1000 ==> after_drop(
            rt,
            uptime,
            now,
        ).consecutive_flaps == 0,
{
}

/// What a tick does with a tunnel, in full. A live one whose process is gone or whose
/// port is not bound is taken down; a live one over a disabled jump host is stopped. A
/// tunnel that is down, wanted and has a job, or is live, is looked up in the job queue
/// every 30 s; else one that is down and wanted is recovered every 15 s. Nothing is
/// done with one that is starting or stale, or down and not wanted.
pub proof fn law_what_a_tick_does(
    status: TunnelStatusKind,
    wants_alive: bool,
    child_alive: Option<bool>,
    port_bound: bool,
    jump_active: Option<bool>,
    last_recovery_ts: u64,
    last_squeue_ts: u64,
    now: u64,
    is_direct: bool,
)
    ensures
        ({
            let a = decided(
                status,
                wants_alive,
                child_alive,
                port_bound,
                jump_active,
                last_recovery_ts,
                last_squeue_ts,
                now,
                is_direct,
            );
            let alive = status == TunnelStatusKind::Alive;
            let down = status == TunnelStatusKind::Idle || status == TunnelStatusKind::Failed
                || status == TunnelStatusKind::PortBusy;
            let dead = child_alive == Some(false) || !port_bound;
            let ask = !is_direct && now - last_squeue_ts >= 30_000;
            &&& a == TunnelAction::StopDead <==> alive && dead
            &&& a == TunnelAction::StopDisabledJump <==> alive && !dead && jump_active == Some(
                false,
            )
            &&& a == TunnelAction::SqueueCheck <==> ask && ((alive && !dead && jump_active != Some(
                false,
            )) || (down && wants_alive))
            &&& a == TunnelAction::Recover <==> down && wants_alive && !ask && now
                - last_recovery_ts >= 15_000
        }),
{
}

/// A run of at least 30 s ends a row of short ones; a shorter one lengthens it. The
/// fourth short run in a row keeps recovery waiting for 60 s, fewer do not.
pub proof fn law_short_runs_are_counted_in_a_row(rt: TunnelRtState, uptime: u64, now: u64)
    requires
        rt.consecutive_flaps < u32::MAX,
        now < 0x1000_0000_0000_0000,
    ensures
        ({
            let after = after_drop(rt, Some(uptime), now);
            &&& uptime >= 30_000 ==> after.consecutive_flaps == 0
            &&& uptime < 30_000 ==> after.consecutive_flaps == rt.consecutive_flaps + 1
            &&& after.consecutive_flaps >= 4 ==> after.last_recovery_attempt_ts + 15_000 == now
                + 60_000
            &&& after.consecutive_flaps < 4 ==> after.last_recovery_attempt_ts == 0
            &&& after.consecutive_recovery_failures == rt.consecutive_recovery_failures
            &&& after.consecutive_squeue_misses == rt.consecutive_squeue_misses
        }),
        after_drop(rt, None, now).consecutive_flaps == rt.consecutive_flaps,
{
}

/// A recorded event is the last one of its tunnel, with its time and text; those before
/// it stay in order, and at most 200 are kept.
pub proof fn law_a_recorded_event_is_the_last(
    v: RuntimeView,
    name: Seq<char>,
    ts: u64,
    msg: Seq<char>,
)
    ensures
        ({
            let after = recorded(v, name, ts, msg);
            let log = after.events[name];
            &&& after.events.contains_key(name)
            &&& 0 < log.len() <= 200
            &&& log[log.len() - 1].ts == ts && log[log.len() - 1].msg == msg
            &&& v.events.contains_key(name) && v.events[name].len() < 200 ==> log.len()
                == v.events[name].len() + 1 && forall|k: int|
                0 <= k < v.events[name].len() ==> #[trigger] log[k] == v.events[name][k]
            &&& !v.events.contains_key(name) ==> log.len() == 1
            &&& after.children == v.children && after.rt == v.rt
            &&& forall|n: Seq<char>|
                n != name && #[trigger] v.events.contains_key(n) ==> after.events.contains_key(n)
                    && after.events[n] == v.events[n]
        }),
{
}

/// What is kept of the tunnels is kept under their names: new counters are those that
/// are found; a process that is taken out is gone; a removed tunnel leaves nothing; and
/// a renamed one has under its new name what it had under the old, where nothing of it
/// is left. Nothing of another tunnel changes.
pub proof fn law_what_is_kept_is_kept_by_name(
    v: RuntimeView,
    name: Seq<char>,
    new: Seq<char>,
    other: Seq<char>,
    s: TunnelRtState,
)
    requires
        other != name,
        other != new,
    ensures
        rt_of(with_rt(v, name, s), name) == s,
        rt_of(with_rt(v, name, s), other) == rt_of(v, other),
        with_rt(v, name, s).children == v.children && with_rt(v, name, s).events == v.events,
        child_of(childless(v, name), name) is None,
        child_of(childless(v, name), other) == child_of(v, other),
        childless(v, name).rt == v.rt && childless(v, name).events == v.events,
        child_of(removed(v, name), name) is None,
        rt_of(removed(v, name), name) == fresh_rt(),
        events_of(removed(v, name), name).len() == 0,
        child_of(removed(v, name), other) == child_of(v, other),
        rt_of(removed(v, name), other) == rt_of(v, other),
        events_of(removed(v, name), other) == events_of(v, other),
        v.children.contains_key(name) ==> child_of(renamed(v, name, new), new) == child_of(v, name),
        v.rt.contains_key(name) ==> rt_of(renamed(v, name, new), new) == rt_of(v, name),
        v.events.contains_key(name) ==> events_of(renamed(v, name, new), new) == events_of(v, name),
        name != new ==> {
            &&& child_of(renamed(v, name, new), name) is None
            &&& rt_of(renamed(v, name, new), name) == fresh_rt()
            &&& events_of(renamed(v, name, new), name).len() == 0
        },
        child_of(renamed(v, name, new), other) == child_of(v, other),
        rt_of(renamed(v, name, new), other) == rt_of(v, other),
        events_of(renamed(v, name, new), other) == events_of(v, other),
{
}

/// A sum of two times is the sum, up to the greatest number.
pub proof fn law_sums_of_times_do_not_wrap(a: u64, b: u64)
    ensures
        a + b <= u64::MAX ==> capped_sum(a, b) == a + b,
        capped_sum(a, b) >= a && capped_sum(a, b) >= b,
        a + b > u64::MAX ==> capped_sum(a, b) == u64::MAX,
{
}

/// A tunnel of which nothing is kept has no run under way, nothing counted, and was
/// never recovered nor looked for in the job queue.
pub proof fn law_fresh_counters_are_zero(v: RuntimeView, name: Seq<char>)
    requires
        !v.rt.contains_key(name),
    ensures
        ({
            let s = rt_of(v, name);
            &&& s.alive_since is None
            &&& s.last_recovery_attempt_ts == 0 && s.last_squeue_check_ts == 0
            &&& s.consecutive_squeue_misses == 0 && s.consecutive_flaps == 0
            &&& s.consecutive_recovery_failures == 0
        }),
{
}

} // verus!
