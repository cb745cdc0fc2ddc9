//! The heartbeat of a host: its slots are checked one after another, and what is
//! down is logged in again, switched away from or left to cool off.
use crate::managers::{
    HostManagers, MaintenanceAction, ManagersView, POOL_SIZE, PoolState, PoolView,
    ROTATION_CHECK_INTERVAL_SEC, SlotStatus, connected, next_action, pool_of, set_connected,
    slot_action, with_pool,
};
use crate::model::{
    Host, HostView, State, StateView, edit_host, host_at, host_names,
    law_a_name_addresses_the_first_host, lemma_first, lemma_first_is,
};
use crate::text::{cat2, cat3, dec, decimal};
use vstd::prelude::*;

verus! {

/// Whether the heartbeat is to look for a slot to rotate to.
pub fn rotation_due(now: u64, last: u64) -> (r: bool)
    ensures
        r == (now - last >= ROTATION_CHECK_INTERVAL_SEC * 1000),
        r <==> now - last >= 5_000,
{
    now >= last && now - last >= ROTATION_CHECK_INTERVAL_SEC * 1000
}

/// `p` with slot `slot` marked dead.
pub open spec fn slot_dead(p: PoolView, slot: int) -> PoolView {
    PoolView { slot_status: p.slot_status.update(slot, SlotStatus::Dead), ..p }
}

/// Mark a slot dead and claim its restart. `false` where one is under way.
pub fn begin_restart(
    host: &str,
    slot: usize,
    managers: &mut HostManagers,
    state: &mut State,
) -> (spawn: bool)
    requires
        slot < POOL_SIZE,
    ensures
        spawn == !old(managers)@.starting.contains((host@, slot)),
        final(managers)@ == (ManagersView {
            pools: old(managers)@.pools.insert(
                host@,
                slot_dead(pool_of(old(managers)@, host@), slot as int),
            ),
            starting: old(managers)@.starting.insert((host@, slot)),
        }),
        final(state)@ == dead_noted(old(state)@, host@, slot),
        host_at(old(state)@, host@) matches Some(i) ==> {
            &&& old(state)@.hosts[i].pool_index == slot ==> !final(state)@.hosts[i].is_master_ready
            &&& old(state)@.hosts[i].pool_index != slot ==> final(state)@.hosts[i]
                == old(state)@.hosts[i]
        },
        final(managers)@.pools[host@].slot_status[slot as int] == SlotStatus::Dead,
        final(managers)@.starting.contains((host@, slot)),
{
    let mut p: PoolState = managers.snapshot(host);
    let ghost q = p@;
    p.slot_status[slot] = SlotStatus::Dead;
    proof {
        assert(p@ =~= slot_dead(q, slot as int));
    }
    managers.put_pool(host, p);
    proof {
        assert(managers@.pools =~= old(managers)@.pools.insert(host@, p@));
    }
    if let Some(i) = state.find_host(host) {
        let h: &mut Host = state.host_mut(i);
        if h.pool_index as usize == slot {
            h.is_master_ready = false;
            h.status = "Reconnecting".to_owned();
            h.last_msg = cat3("Slot ", decimal(slot as u64).as_str(), " dead — reconnecting");
        }
    }
    managers.try_begin_start(host, slot)
}

/// Write down how a restart came out.
pub fn restart_finished(host: &str, slot: usize, ready: bool, state: &mut State)
    ensures
        final(state)@ == edit_host(
            old(state)@,
            host@,
            |h: HostView|
                if ready {
                    connected(h, slot, "Slot "@ + dec(slot as nat) + " reconnected"@)
                } else {
                    HostView {
                        status: "Reconnect failed"@,
                        last_msg: "Slot "@ + dec(slot as nat) + " reconnect failed"@,
                        ..h
                    }
                },
        ),
        host_at(old(state)@, host@) matches Some(i) ==> {
            let h = final(state)@.hosts[i];
            &&& h.is_master_ready == (ready || old(state)@.hosts[i].is_master_ready)
            &&& ready ==> h.pool_index == slot as u8 && h.status == "Connected"@
            &&& !ready ==> h.pool_index == old(state)@.hosts[i].pool_index
            &&& h.host == host@ && h.active == old(state)@.hosts[i].active
        },
{
    if let Some(i) = state.find_host(host) {
        let number: String = decimal(slot as u64);
        if ready {
            set_connected(state.host_mut(i), slot, cat3("Slot ", number.as_str(), " reconnected"));
        } else {
            let h: &mut Host = state.host_mut(i);
            h.status = "Reconnect failed".to_owned();
            h.last_msg = cat3("Slot ", number.as_str(), " reconnect failed");
        }
    }
}

/// Whether to try a rotation once slot `slot` was restarted: it is the one that was
/// in use, and the other slot is ready.
pub fn rotates_after_restart(
    managers: &HostManagers,
    host: &str,
    slot: usize,
    in_use: usize,
) -> (r: bool)
    requires
        slot < POOL_SIZE,
    ensures
        r == (slot == in_use && managers@.pools.contains_key(host@)
            && managers@.pools[host@].slot_status[1 - slot] == SlotStatus::Ready),
{
    if slot != in_use {
        return false;
    }
    match managers.pool(host) {
        Some(p) => p.slot_status[1 - slot] == SlotStatus::Ready,
        None => false,
    }
}

/// The spare slot was started. It counts as one more live connection.
pub fn warm_finished(host: &str, ready: bool, state: &mut State)
    ensures
        final(state)@ == (if ready {
            edit_host(
                old(state)@,
                host@,
                |h: HostView|
                    HostView {
                        pool_alive: if h.pool_alive <= 1 {
                            2
                        } else if h.pool_alive == u32::MAX {
                            h.pool_alive
                        } else {
                            (h.pool_alive + 1) as u32
                        },
                        ..h
                    },
            )
        } else {
            old(state)@
        }),
{
    if ready {
        if let Some(i) = state.find_host(host) {
            let h: &mut Host = state.host_mut(i);
            let least: u32 = if h.pool_alive < 1 {
                1
            } else {
                h.pool_alive
            };
            h.pool_alive = least.saturating_add(1);
        }
    }
}

/// The slot in use of `host`; the first where it has no pool yet.
pub open spec fn slot_in_use(v: ManagersView, host: Seq<char>) -> usize {
    if v.pools.contains_key(host) {
        v.pools[host].active_index
    } else {
        0
    }
}

fn used_slot(managers: &HostManagers, host: &str) -> (r: usize)
    ensures
        r == slot_in_use(managers@, host@),
{
    match managers.pool(host) {
        Some(p) => p.active_index,
        None => 0,
    }
}

/// A dead slot was left for the ready one.
pub fn rotated(host: &str, managers: &HostManagers, state: &mut State)
    ensures
        final(state)@ == switched(old(state)@, managers@, host@),
{
    let slot: usize = used_slot(managers, host);
    if let Some(i) = state.find_host(host) {
        let h: &mut Host = state.host_mut(i);
        h.pool_index = #[verifier::truncate] (slot as u8);
        h.is_master_ready = true;
        h.status = "Connected".to_owned();
        h.last_msg = cat2("Rotated to slot ", decimal(slot as u64).as_str());
    }
}

/// The periodic look found a better slot and switched to it.
pub fn rotation_check_finished(host: &str, managers: &HostManagers, state: &mut State)
    ensures
        final(state)@ == shifted(old(state)@, managers@, host@),
{
    let slot: usize = used_slot(managers, host);
    if let Some(i) = state.find_host(host) {
        let h: &mut Host = state.host_mut(i);
        h.pool_index = #[verifier::truncate] (slot as u8);
        h.last_msg = cat2("Rotated to slot ", decimal(slot as u64).as_str());
    }
}

/// Where the heartbeat of a host stands: what it waits for.
#[derive(Debug, Clone, Copy, PartialEq, Eq, Structural)]
pub enum TickPhase {
    /// Not begun.
    Fresh,
    /// The check of a slot's connection.
    Checking { slot: usize },
    /// The note that a slot's connection holds.
    NotingAlive { slot: usize },
    /// The note that a slot's connection has dropped.
    NotingDrop { slot: usize },
    /// The switch away from a dead slot.
    Rotating { slot: usize },
    /// The launch of a worker for a slot.
    Launching { slot: usize },
    /// The periodic look for a slot to rotate to.
    RotationCheck,
    /// Nothing more.
    Over,
}

/// What the heartbeat asks for.
#[derive(Debug, Clone, Copy, PartialEq, Eq, Structural)]
pub enum TickAsk {
    /// Check the connection of a slot.
    Check { slot: usize },
    /// Note in the stored pool that the slot's connection holds.
    NoteAlive { slot: usize },
    /// Note in the stored pool that the slot's connection has dropped.
    NoteDropped { slot: usize },
    /// Switch the stored pool to its other slot where that is in order.
    TryRotate,
    /// Launch a worker that logs a slot in again.
    Restart { slot: usize },
    /// Launch a worker that starts the spare slot.
    Warm,
    /// Nothing more.
    Done,
}

/// What came of it.
#[derive(Debug, Clone, Copy, PartialEq, Eq, Structural)]
pub enum TickEvent {
    Begin,
    /// The check was made; whether the connection answers.
    Checked(bool),
    /// The note was taken.
    Noted,
    /// The switch was tried; whether it was made.
    Rotated(bool),
    /// The worker was launched, or not.
    Launched(bool),
}

/// The heartbeat of one host. It goes by the pool as it stood at the beginning.
#[derive(Debug)]
pub struct HostTick {
    host: String,
    pool: PoolState,
    rotation_check: bool,
    now: u64,
    phase: TickPhase,
}

/// What a heartbeat says.
#[verifier::ext_equal]
pub struct TickView {
    pub host: Seq<char>,
    pub pool: PoolView,
    pub rotation_check: bool,
    pub now: u64,
    pub phase: TickPhase,
}

impl View for HostTick {
    type V = TickView;

    closed spec fn view(&self) -> TickView {
        TickView {
            host: self.host@,
            pool: self.pool@,
            rotation_check: self.rotation_check,
            now: self.now,
            phase: self.phase,
        }
    }
}

/// Where a step of the heartbeat leads: the records, what it waits for and what
/// it asks for.
#[verifier::ext_equal]
pub struct TickStep {
    pub managers: ManagersView,
    pub st: StateView,
    pub phase: TickPhase,
    pub ask: TickAsk,
}

/// The heartbeat is over.
pub open spec fn tick_over(m: ManagersView, st: StateView) -> TickStep {
    TickStep { managers: m, st, phase: TickPhase::Over, ask: TickAsk::Done }
}

/// The registry with the login of a slot claimed.
pub open spec fn claimed(m: ManagersView, host: Seq<char>, slot: usize) -> ManagersView {
    ManagersView { starting: m.starting.insert((host, slot)), ..m }
}

/// The registry with the login of a slot released.
pub open spec fn released(m: ManagersView, host: Seq<char>, slot: usize) -> ManagersView {
    ManagersView { starting: m.starting.remove((host, slot)), ..m }
}

/// The host records once a slot is marked dead.
pub open spec fn dead_noted(st: StateView, host: Seq<char>, slot: usize) -> StateView {
    edit_host(
        st,
        host,
        |h: HostView|
            if h.pool_index == slot {
                HostView {
                    is_master_ready: false,
                    status: "Reconnecting"@,
                    last_msg: "Slot "@ + dec(slot as nat) + " dead — reconnecting"@,
                    ..h
                }
            } else {
                h
            },
    )
}

/// Go on to slot `slot`: check it where it was ever started, else judge it as it
/// is. After the last slot comes the look for a rotation, where it is due.
pub open spec fn tick_from(t: TickView, m: ManagersView, st: StateView, slot: int) -> TickStep
    decreases POOL_SIZE - slot, 2int,
{
    if slot < 0 || slot >= POOL_SIZE {
        if t.rotation_check {
            TickStep { managers: m, st, phase: TickPhase::RotationCheck, ask: TickAsk::TryRotate }
        } else {
            tick_over(m, st)
        }
    } else if t.pool.slot_status[slot] != SlotStatus::Init {
        TickStep {
            managers: m,
            st,
            phase: TickPhase::Checking { slot: slot as usize },
            ask: TickAsk::Check { slot: slot as usize },
        }
    } else {
        tick_act(t, m, st, slot, None)
    }
}

/// Act on a slot whose check found `check`.
pub open spec fn tick_act(
    t: TickView,
    m: ManagersView,
    st: StateView,
    slot: int,
    check: Option<bool>,
) -> TickStep
    decreases POOL_SIZE - slot, 1int,
{
    if slot < 0 || slot >= POOL_SIZE {
        tick_over(m, st)
    } else {
        match slot_action(t.pool, slot, true, check, t.now) {
            MaintenanceAction::Restart => if t.pool.slot_status[slot] == SlotStatus::Ready {
                TickStep {
                    managers: m,
                    st,
                    phase: TickPhase::NotingDrop { slot: slot as usize },
                    ask: TickAsk::NoteDropped { slot: slot as usize },
                }
            } else {
                tick_restart(t, m, st, slot)
            },
            MaintenanceAction::WarmSlot1 => if m.starting.contains((t.host, 1)) {
                tick_from(t, m, st, slot + 1)
            } else {
                TickStep {
                    managers: claimed(m, t.host, 1),
                    st,
                    phase: TickPhase::Launching { slot: 1 },
                    ask: TickAsk::Warm,
                }
            },
            MaintenanceAction::Rotate => TickStep {
                managers: m,
                st,
                phase: TickPhase::Rotating { slot: slot as usize },
                ask: TickAsk::TryRotate,
            },
            MaintenanceAction::Healthy | MaintenanceAction::Skip => tick_from(t, m, st, slot + 1),
        }
    }
}

/// Mark a slot dead, say so on the host, and have it logged in again unless a
/// login is under way.
pub open spec fn tick_restart(t: TickView, m: ManagersView, st: StateView, slot: int) -> TickStep
    decreases POOL_SIZE - slot, 0int,
{
    if slot < 0 || slot >= POOL_SIZE {
        tick_over(m, st)
    } else {
        let n = slot as usize;
        let marked = with_pool(m, t.host, slot_dead(pool_of(m, t.host), slot));
        let st1 = dead_noted(st, t.host, n);
        if m.starting.contains((t.host, n)) {
            tick_from(t, claimed(marked, t.host, n), st1, slot + 1)
        } else {
            TickStep {
                managers: claimed(marked, t.host, n),
                st: st1,
                phase: TickPhase::Launching { slot: n },
                ask: TickAsk::Restart { slot: n },
            }
        }
    }
}

/// The host records in cooldown: the status says for how long.
pub open spec fn cooling(st: StateView, host: Seq<char>, left_ms: int) -> StateView {
    edit_host(
        st,
        host,
        |h: HostView|
            HostView { status: "Cooldown ("@ + dec((left_ms / 1000) as nat) + "s)"@, ..h },
    )
}

/// The host records after a switch away from a dead slot.
pub open spec fn switched(st: StateView, m: ManagersView, host: Seq<char>) -> StateView {
    edit_host(
        st,
        host,
        |h: HostView|
            HostView {
                pool_index: slot_in_use(m, host) as u8,
                is_master_ready: true,
                status: "Connected"@,
                last_msg: "Rotated to slot "@ + dec(slot_in_use(m, host) as nat),
                ..h
            },
    )
}

/// The host records after the periodic look switched slots.
pub open spec fn shifted(st: StateView, m: ManagersView, host: Seq<char>) -> StateView {
    edit_host(
        st,
        host,
        |h: HostView|
            HostView {
                pool_index: slot_in_use(m, host) as u8,
                last_msg: "Rotated to slot "@ + dec(slot_in_use(m, host) as nat),
                ..h
            },
    )
}

/// The heartbeat's step on an event. An event it does not wait for ends it.
pub open spec fn tick_step(t: TickView, m: ManagersView, st: StateView, e: TickEvent) -> TickStep {
    match (t.phase, e) {
        (TickPhase::Fresh, TickEvent::Begin) => match t.pool.cooldown_until {
            Some(until) => if t.now < until {
                tick_over(m, cooling(st, t.host, until - t.now))
            } else {
                tick_from(t, m, st, 0)
            },
            None => tick_from(t, m, st, 0),
        },
        (TickPhase::Checking { slot }, TickEvent::Checked(alive)) => if slot >= POOL_SIZE {
            tick_over(m, st)
        } else if alive && t.pool.slot_status[slot as int] == SlotStatus::Ready {
            TickStep {
                managers: m,
                st,
                phase: TickPhase::NotingAlive { slot },
                ask: TickAsk::NoteAlive { slot },
            }
        } else {
            tick_act(t, m, st, slot as int, Some(alive))
        },
        (TickPhase::NotingAlive { slot }, TickEvent::Noted) => tick_act(
            t,
            m,
            st,
            slot as int,
            Some(true),
        ),
        (TickPhase::NotingDrop { slot }, TickEvent::Noted) => tick_restart(t, m, st, slot as int),
        (TickPhase::Launching { slot }, TickEvent::Launched(ok)) => tick_from(
            t,
            if ok {
                m
            } else {
                released(m, t.host, slot)
            },
            st,
            slot + 1,
        ),
        (TickPhase::Rotating { slot }, TickEvent::Rotated(_)) => tick_from(
            t,
            m,
            switched(st, m, t.host),
            slot + 1,
        ),
        (TickPhase::RotationCheck, TickEvent::Rotated(done)) => tick_over(
            m,
            if done {
                shifted(st, m, t.host)
            } else {
                st
            },
        ),
        _ => tick_over(m, st),
    }
}

impl HostTick {
    /// The heartbeat of `host`, whose pool is `pool`.
    pub fn new(host: &str, pool: PoolState, rotation_check: bool, now: u64) -> (t: HostTick)
        ensures
            t@ == (TickView {
                host: host@,
                pool: pool@,
                rotation_check,
                now,
                phase: TickPhase::Fresh,
            }),
    {
        HostTick { host: host.to_owned(), pool, rotation_check, now, phase: TickPhase::Fresh }
    }

    fn go_on(&self, slot: usize, managers: &mut HostManagers, state: &mut State) -> (r: (
        TickPhase,
        TickAsk,
    ))
        requires
            self@.pool.active_index < POOL_SIZE,
        ensures
            tick_from(self@, old(managers)@, old(state)@, slot as int) == (TickStep {
                managers: final(managers)@,
                st: final(state)@,
                phase: r.0,
                ask: r.1,
            }),
        decreases POOL_SIZE - slot, 2int,
    {
        if slot >= POOL_SIZE {
            if self.rotation_check {
                (TickPhase::RotationCheck, TickAsk::TryRotate)
            } else {
                (TickPhase::Over, TickAsk::Done)
            }
        } else if self.pool.slot_status[slot] != SlotStatus::Init {
            (TickPhase::Checking { slot }, TickAsk::Check { slot })
        } else {
            self.act(slot, None, managers, state)
        }
    }

    fn act(
        &self,
        slot: usize,
        check: Option<bool>,
        managers: &mut HostManagers,
        state: &mut State,
    ) -> (r: (TickPhase, TickAsk))
        requires
            self@.pool.active_index < POOL_SIZE,
            slot < POOL_SIZE,
        ensures
            tick_act(self@, old(managers)@, old(state)@, slot as int, check) == (TickStep {
                managers: final(managers)@,
                st: final(state)@,
                phase: r.0,
                ask: r.1,
            }),
        decreases POOL_SIZE - slot, 1int,
    {
        match next_action(&self.pool, slot, true, check, self.now) {
            MaintenanceAction::Restart => {
                if self.pool.slot_status[slot] == SlotStatus::Ready {
                    (TickPhase::NotingDrop { slot }, TickAsk::NoteDropped { slot })
                } else {
                    self.restart(slot, managers, state)
                }
            },
            MaintenanceAction::WarmSlot1 => {
                let ghost m0 = managers@;
                if managers.try_begin_start(self.host.as_str(), 1) {
                    (TickPhase::Launching { slot: 1 }, TickAsk::Warm)
                } else {
                    proof {
                        assert(managers@.starting =~= m0.starting);
                    }
                    self.go_on(slot + 1, managers, state)
                }
            },
            MaintenanceAction::Rotate => (TickPhase::Rotating { slot }, TickAsk::TryRotate),
            MaintenanceAction::Healthy | MaintenanceAction::Skip => self.go_on(
                slot + 1,
                managers,
                state,
            ),
        }
    }

    fn restart(&self, slot: usize, managers: &mut HostManagers, state: &mut State) -> (r: (
        TickPhase,
        TickAsk,
    ))
        requires
            self@.pool.active_index < POOL_SIZE,
            slot < POOL_SIZE,
        ensures
            tick_restart(self@, old(managers)@, old(state)@, slot as int) == (TickStep {
                managers: final(managers)@,
                st: final(state)@,
                phase: r.0,
                ask: r.1,
            }),
        decreases POOL_SIZE - slot, 0int,
    {
        if begin_restart(self.host.as_str(), slot, managers, state) {
            (TickPhase::Launching { slot }, TickAsk::Restart { slot })
        } else {
            self.go_on(slot + 1, managers, state)
        }
    }

    /// Take an event, change the records accordingly and say what is to be done
    /// next.
    pub fn step(&mut self, e: TickEvent, managers: &mut HostManagers, state: &mut State) -> (ask:
        TickAsk)
        requires
            old(self)@.pool.active_index < POOL_SIZE,
        ensures
            tick_step(old(self)@, old(managers)@, old(state)@, e) == (TickStep {
                managers: final(managers)@,
                st: final(state)@,
                phase: final(self)@.phase,
                ask,
            }),
            final(self)@ == (TickView { phase: final(self)@.phase, ..old(self)@ }),
    {
        let (phase, ask): (TickPhase, TickAsk) = match (self.phase, e) {
            (TickPhase::Fresh, TickEvent::Begin) => {
                let cooling_until: Option<u64> = self.pool.cooldown_until;
                match cooling_until {
                    Some(until) => {
                        if self.now < until {
                            if let Some(i) = state.find_host(self.host.as_str()) {
                                let h: &mut Host = state.host_mut(i);
                                h.status = cat3(
                                    "Cooldown (",
                                    decimal((until - self.now) / 1000).as_str(),
                                    "s)",
                                );
                            }
                            (TickPhase::Over, TickAsk::Done)
                        } else {
                            self.go_on(0, managers, state)
                        }
                    },
                    None => self.go_on(0, managers, state),
                }
            },
            (TickPhase::Checking { slot }, TickEvent::Checked(alive)) => {
                if slot >= POOL_SIZE {
                    (TickPhase::Over, TickAsk::Done)
                } else if alive && self.pool.slot_status[slot] == SlotStatus::Ready {
                    (TickPhase::NotingAlive { slot }, TickAsk::NoteAlive { slot })
                } else {
                    self.act(slot, Some(alive), managers, state)
                }
            },
            (TickPhase::NotingAlive { slot }, TickEvent::Noted) => {
                if slot >= POOL_SIZE {
                    (TickPhase::Over, TickAsk::Done)
                } else {
                    self.act(slot, Some(true), managers, state)
                }
            },
            (TickPhase::NotingDrop { slot }, TickEvent::Noted) => {
                if slot >= POOL_SIZE {
                    (TickPhase::Over, TickAsk::Done)
                } else {
                    self.restart(slot, managers, state)
                }
            },
            (TickPhase::Launching { slot }, TickEvent::Launched(ok)) => {
                if !ok {
                    managers.end_start(self.host.as_str(), slot);
                }
                let next: usize = if slot >= POOL_SIZE {
                    slot
                } else {
                    slot + 1
                };
                self.go_on(next, managers, state)
            },
            (TickPhase::Rotating { slot }, TickEvent::Rotated(_)) => {
                rotated(self.host.as_str(), managers, state);
                let next: usize = if slot >= POOL_SIZE {
                    slot
                } else {
                    slot + 1
                };
                self.go_on(next, managers, state)
            },
            (TickPhase::RotationCheck, TickEvent::Rotated(done)) => {
                if done {
                    rotation_check_finished(self.host.as_str(), managers, state);
                }
                (TickPhase::Over, TickAsk::Done)
            },
            _ => (TickPhase::Over, TickAsk::Done),
        };
        self.phase = phase;
        ask
    }
}

/// A login is launched only for a slot that has none under way, and the slot is
/// claimed with it.
pub proof fn law_no_slot_is_logged_in_twice(t: TickView, m: ManagersView, st: StateView, e: TickEvent)
    ensures
        ({
            let next = tick_step(t, m, st, e);
            &&& next.ask matches TickAsk::Restart { slot } ==> {
                &&& !m.starting.contains((t.host, slot))
                &&& next.managers.starting.contains((t.host, slot))
            }
            &&& next.ask == TickAsk::Warm ==> {
                &&& !m.starting.contains((t.host, 1))
                &&& next.managers.starting.contains((t.host, 1))
            }
        }),
{
    reveal_with_fuel(tick_from, 4);
    reveal_with_fuel(tick_act, 4);
    reveal_with_fuel(tick_restart, 4);
}

/// The heartbeat of a host in cooldown does nothing but say for how long.
pub proof fn law_a_cooling_host_is_left_alone(t: TickView, m: ManagersView, st: StateView)
    requires
        t.phase == TickPhase::Fresh,
        t.pool.cooldown_until is Some,
        t.now < t.pool.cooldown_until->Some_0,
    ensures
        ({
            let next = tick_step(t, m, st, TickEvent::Begin);
            &&& next.ask == TickAsk::Done
            &&& next.managers == m
            &&& next.st == cooling(st, t.host, t.pool.cooldown_until->Some_0 - t.now)
        }),
{
}

/// A connection that drops is noticed. Where the check of a ready slot finds that it
/// does not answer, and no cooldown or back-off says to wait, the drop is noted for
/// that very slot. Once that is noted, the slot is dead in the registry, the host
/// that uses it is shown as reconnecting and not ready, and the slot is logged in
/// again unless a login of it is under way.
pub proof fn law_a_dropped_connection_is_logged_in_again(
    t: TickView,
    m: ManagersView,
    st: StateView,
    slot: usize,
    m1: ManagersView,
    st1: StateView,
)
    requires
        t.phase == (TickPhase::Checking { slot }),
        slot < t.pool.slot_status.len(),
        t.pool.slot_status.len() == POOL_SIZE,
        t.pool.active_index < POOL_SIZE,
        t.pool.slot_status[slot as int] == SlotStatus::Ready,
        t.pool.cooldown_until matches Some(until) ==> until <= t.now,
        t.pool.probe_backoff_until matches Some(until) ==> until <= t.now,
        t.pool.flap_backoff_until matches Some(until) ==> until <= t.now,
        m1.pools.contains_key(t.host) ==> m1.pools[t.host].slot_status.len() == POOL_SIZE,
    ensures
        ({
            let noticed = tick_step(t, m, st, TickEvent::Checked(false));
            let next = tick_step(
                TickView { phase: noticed.phase, ..t },
                m1,
                st1,
                TickEvent::Noted,
            );
            &&& noticed.ask == (TickAsk::NoteDropped { slot })
            &&& noticed.managers == m
            &&& noticed.st == st
            &&& next.managers.pools.contains_key(t.host)
            &&& next.managers.pools[t.host].slot_status[slot as int] == SlotStatus::Dead
            &&& next.managers.starting.contains((t.host, slot))
            &&& next.ask == (TickAsk::Restart { slot }) <==> !m1.starting.contains((t.host, slot))
            &&& next.st.hosts.len() == st1.hosts.len()
            &&& next.st.tunnels == st1.tunnels
            &&& forall|i: int|
                0 <= i < st1.hosts.len() && (#[trigger] st1.hosts[i]).host == t.host
                    && st1.hosts[i].pool_index == slot && (forall|j: int|
                    0 <= j < i ==> (#[trigger] st1.hosts[j]).host != t.host) ==> {
                    &&& !next.st.hosts[i].is_master_ready
                    &&& next.st.hosts[i].status == "Reconnecting"@
                }
            &&& forall|i: int|
                0 <= i < st1.hosts.len() && ((#[trigger] st1.hosts[i]).host != t.host
                    || st1.hosts[i].pool_index != slot) ==> next.st.hosts[i] == st1.hosts[i]
        }),
{
    reveal_with_fuel(tick_from, 4);
    reveal_with_fuel(tick_act, 4);
    reveal_with_fuel(tick_restart, 4);
    lemma_first(host_names(st1.hosts), t.host);
    assert forall|i: int|
        0 <= i < st1.hosts.len() && (#[trigger] st1.hosts[i]).host == t.host && (forall|j: int|
            0 <= j < i ==> (#[trigger] st1.hosts[j]).host != t.host) implies host_at(st1, t.host)
        == Some(i) by {
        assert forall|j: int| 0 <= j < i implies host_names(st1.hosts)[j] != t.host by {
            assert(st1.hosts[j].host != t.host);
        }
        lemma_first_is(host_names(st1.hosts), t.host, i);
    }
}

/// A connection that answers is noted as alive, and nothing of the host is changed,
/// logged in or switched away from on its account.
pub proof fn law_an_answering_connection_is_kept(
    t: TickView,
    m: ManagersView,
    st: StateView,
    slot: usize,
    m1: ManagersView,
    st1: StateView,
)
    requires
        t.phase == (TickPhase::Checking { slot }),
        t.pool.slot_status.len() == POOL_SIZE,
        t.pool.active_index < POOL_SIZE,
        slot < POOL_SIZE,
        t.pool.slot_status[slot as int] == SlotStatus::Ready,
    ensures
        ({
            let noticed = tick_step(t, m, st, TickEvent::Checked(true));
            let next = tick_step(
                TickView { phase: noticed.phase, ..t },
                m1,
                st1,
                TickEvent::Noted,
            );
            &&& noticed.ask == (TickAsk::NoteAlive { slot })
            &&& noticed.managers == m && noticed.st == st
            &&& next.st == st1
            &&& next.managers.pools == m1.pools
            &&& next.ask != (TickAsk::Restart { slot })
            &&& next.ask != (TickAsk::NoteDropped { slot })
            &&& next.phase != (TickPhase::Rotating { slot })
        }),
{
    reveal_with_fuel(tick_from, 4);
    reveal_with_fuel(tick_act, 4);
    reveal_with_fuel(tick_restart, 4);
}

/// A slot that is down is not left so. Where nothing says to wait, the heartbeat
/// switches away from a dead slot in use where the other is ready; any other slot
/// that is dead or failed is marked dead, and logged in again unless a login of it is
/// under way. What the check of such a slot found does not matter.
pub proof fn law_a_down_slot_is_left_or_logged_in_again(
    t: TickView,
    m: ManagersView,
    st: StateView,
    slot: usize,
    alive: bool,
)
    requires
        t.phase == (TickPhase::Checking { slot }),
        t.pool.slot_status.len() == POOL_SIZE,
        t.pool.active_index < POOL_SIZE,
        slot < POOL_SIZE,
        t.pool.slot_status[slot as int] == SlotStatus::Dead || t.pool.slot_status[slot as int]
            == SlotStatus::Failed,
        t.pool.cooldown_until matches Some(until) ==> until <= t.now,
        t.pool.probe_backoff_until matches Some(until) ==> until <= t.now,
        t.pool.flap_backoff_until matches Some(until) ==> until <= t.now,
        m.pools.contains_key(t.host) ==> m.pools[t.host].slot_status.len() == POOL_SIZE,
    ensures
        ({
            let next = tick_step(t, m, st, TickEvent::Checked(alive));
            let left = t.pool.active_index == slot && t.pool.slot_status[slot as int]
                == SlotStatus::Dead && t.pool.slot_status[1 - slot] == SlotStatus::Ready;
            if left {
                &&& next.ask == TickAsk::TryRotate
                &&& next.managers == m
                &&& next.st == st
            } else {
                &&& next.managers.pools.contains_key(t.host)
                &&& next.managers.pools[t.host].slot_status[slot as int] == SlotStatus::Dead
                &&& next.managers.starting.contains((t.host, slot))
                &&& next.ask == (TickAsk::Restart { slot }) <==> !m.starting.contains(
                    (t.host, slot),
                )
            }
        }),
{
    reveal_with_fuel(tick_from, 4);
    reveal_with_fuel(tick_act, 4);
    reveal_with_fuel(tick_restart, 4);
}

/// While a cooldown or a back-off lies ahead, no slot is logged in again or noted as
/// dropped, whatever its check finds.
pub proof fn law_no_login_while_waiting(
    t: TickView,
    m: ManagersView,
    st: StateView,
    slot: usize,
    alive: bool,
    until: u64,
)
    requires
        t.phase == (TickPhase::Checking { slot }),
        t.pool.slot_status.len() == POOL_SIZE,
        t.pool.active_index < POOL_SIZE,
        t.now < until,
        t.pool.cooldown_until == Some(until) || t.pool.probe_backoff_until == Some(until)
            || t.pool.flap_backoff_until == Some(until),
    ensures
        ({
            let next = tick_step(t, m, st, TickEvent::Checked(alive));
            &&& !(next.ask is Restart)
            &&& !(next.ask is NoteDropped)
            &&& next.managers.pools == m.pools
            &&& next.st == st
        }),
{
    reveal_with_fuel(tick_from, 4);
    reveal_with_fuel(tick_act, 4);
    reveal_with_fuel(tick_restart, 4);
}

/// Every slot that was ever started is checked: the heartbeat of a host that is not
/// cooling off begins with the first, and whatever it did for the first, it goes on
/// to the second.
pub proof fn law_every_started_slot_is_checked(
    t: TickView,
    m: ManagersView,
    st: StateView,
    made: bool,
)
    requires
        t.pool.slot_status.len() == POOL_SIZE,
        t.pool.active_index < POOL_SIZE,
        t.pool.cooldown_until matches Some(until) ==> until <= t.now,
        t.pool.slot_status[0] != SlotStatus::Init,
        t.pool.slot_status[1] != SlotStatus::Init,
    ensures
        tick_step(TickView { phase: TickPhase::Fresh, ..t }, m, st, TickEvent::Begin).ask
            == (TickAsk::Check { slot: 0 }),
        t.pool.slot_status[0] == SlotStatus::Ready ==> tick_step(
            TickView { phase: TickPhase::NotingAlive { slot: 0 }, ..t },
            m,
            st,
            TickEvent::Noted,
        ).ask == (TickAsk::Check { slot: 1 }),
        tick_step(
            TickView { phase: TickPhase::Launching { slot: 0 }, ..t },
            m,
            st,
            TickEvent::Launched(made),
        ).ask == (TickAsk::Check { slot: 1 }),
        tick_step(
            TickView { phase: TickPhase::Rotating { slot: 0 }, ..t },
            m,
            st,
            TickEvent::Rotated(made),
        ).ask == (TickAsk::Check { slot: 1 }),
{
    reveal_with_fuel(tick_from, 4);
    reveal_with_fuel(tick_act, 4);
    reveal_with_fuel(tick_restart, 4);
}

/// A spare slot that was never started is started once the first is ready, unless a
/// start of it is under way, and not before.
pub proof fn law_the_spare_slot_is_warmed(t: TickView, m: ManagersView, st: StateView, made: bool)
    requires
        t.phase == (TickPhase::Launching { slot: 0 }),
        t.pool.slot_status.len() == POOL_SIZE,
        t.pool.active_index < POOL_SIZE,
        t.pool.slot_status[1] == SlotStatus::Init,
        t.pool.cooldown_until matches Some(until) ==> until <= t.now,
    ensures
        tick_step(t, m, st, TickEvent::Launched(made)).ask == TickAsk::Warm <==> (
        t.pool.slot_status[0] == SlotStatus::Ready && !m.starting.contains((t.host, 1))),
{
    reveal_with_fuel(tick_from, 4);
    reveal_with_fuel(tick_act, 4);
    reveal_with_fuel(tick_restart, 4);
}

/// A worker that could not be launched does not keep the login of its slot claimed;
/// one that was launched does.
pub proof fn law_a_failed_launch_lets_go(
    t: TickView,
    m: ManagersView,
    st: StateView,
    slot: usize,
)
    requires
        t.phase == (TickPhase::Launching { slot }),
        slot < POOL_SIZE,
        t.pool.slot_status.len() == POOL_SIZE,
        t.pool.active_index < POOL_SIZE,
        slot == 0 ==> t.pool.slot_status[1] != SlotStatus::Init,
        m.starting.contains((t.host, slot)),
    ensures
        tick_step(t, m, st, TickEvent::Launched(true)).managers.starting.contains((t.host, slot)),
        !tick_step(t, m, st, TickEvent::Launched(false)).managers.starting.contains((t.host, slot)),
        forall|other: (Seq<char>, usize)|
            other != (t.host, slot) ==> (tick_step(
                t,
                m,
                st,
                TickEvent::Launched(false),
            ).managers.starting.contains(other) <==> #[trigger] m.starting.contains(other)),
{
    reveal_with_fuel(tick_from, 4);
    reveal_with_fuel(tick_act, 4);
    reveal_with_fuel(tick_restart, 4);
}

/// A host that was switched away from a dead slot is shown as connected, on the slot
/// that its pool then uses; other hosts stay as they were.
pub proof fn law_a_switch_is_shown(
    t: TickView,
    m: ManagersView,
    st: StateView,
    slot: usize,
    made: bool,
    i: int,
)
    requires
        t.phase == (TickPhase::Rotating { slot }),
        slot < POOL_SIZE,
        t.pool.slot_status.len() == POOL_SIZE,
        t.pool.active_index < POOL_SIZE,
        slot == 0 ==> t.pool.slot_status[1] != SlotStatus::Init,
        m.pools.contains_key(t.host),
        m.pools[t.host].active_index < POOL_SIZE,
        0 <= i < st.hosts.len(),
    ensures
        ({
            let next = tick_step(t, m, st, TickEvent::Rotated(made)).st;
            &&& next.hosts.len() == st.hosts.len()
            &&& next.tunnels == st.tunnels
            &&& st.hosts[i].host != t.host ==> next.hosts[i] == st.hosts[i]
            &&& st.hosts[i].host == t.host && (forall|j: int|
                0 <= j < i ==> (#[trigger] st.hosts[j]).host != t.host) ==> {
                &&& next.hosts[i].is_master_ready
                &&& next.hosts[i].pool_index == m.pools[t.host].active_index
                &&& next.hosts[i].status == "Connected"@
                &&& next.hosts[i].host == st.hosts[i].host
                &&& next.hosts[i].active == st.hosts[i].active
            }
        }),
{
    reveal_with_fuel(tick_from, 4);
    reveal_with_fuel(tick_act, 4);
    reveal_with_fuel(tick_restart, 4);
    lemma_first(host_names(st.hosts), t.host);
    if st.hosts[i].host == t.host && (forall|j: int|
        0 <= j < i ==> (#[trigger] st.hosts[j]).host != t.host) {
        assert forall|j: int| 0 <= j < i implies host_names(st.hosts)[j] != t.host by {
            assert(st.hosts[j].host != t.host);
        }
        lemma_first_is(host_names(st.hosts), t.host, i);
    }
}

/// The slot in use of a host is that of its pool, and the first where it has none.
pub proof fn law_the_first_slot_is_used_first(m: ManagersView, host: Seq<char>)
    ensures
        !m.pools.contains_key(host) ==> slot_in_use(m, host) == 0,
        m.pools.contains_key(host) ==> slot_in_use(m, host) == m.pools[host].active_index,
{
}

/// A switch of slots that the periodic look made is shown on the record of the host:
/// the slot now in use. Whether the host is connected or enabled stays as it was, and
/// no other record changes.
pub proof fn law_a_periodic_switch_is_shown(
    st: StateView,
    m: ManagersView,
    host: Seq<char>,
    i: int,
)
    requires
        m.pools.contains_key(host),
        m.pools[host].active_index < POOL_SIZE,
        0 <= i < st.hosts.len(),
        st.hosts[i].host == host,
        forall|j: int| 0 <= j < i ==> (#[trigger] st.hosts[j]).host != host,
    ensures
        ({
            let after = shifted(st, m, host);
            let h = after.hosts[i];
            &&& h.pool_index == m.pools[host].active_index
            &&& h.host == host && h.active == st.hosts[i].active
            &&& h.is_master_ready == st.hosts[i].is_master_ready
            &&& h.status == st.hosts[i].status
            &&& after.hosts.len() == st.hosts.len() && after.tunnels == st.tunnels
            &&& forall|j: int|
                0 <= j < st.hosts.len() && j != i ==> #[trigger] after.hosts[j] == st.hosts[j]
        }),
{
    law_a_name_addresses_the_first_host(st, host, i);
}

} // verus!
