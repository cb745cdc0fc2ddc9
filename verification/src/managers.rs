//! The per-host connection pools: the maintenance decision for a pool slot, the
//! registry that keeps every pool for the daemon's lifetime, and what a heartbeat
//! or a finished login changes in the host records.
//!
//! Pool times are milliseconds of a clock that only moves forward.
use crate::model::{Host, HostView, State, StateView, edit_host, host_at};
use crate::names::NameMap;
use crate::text::{cat3, dec, decimal, same_text, texts};
use vstd::prelude::*;

verus! {

/// How many slots a pool has.
pub const POOL_SIZE: usize = 2;

/// How often the heartbeat runs.
pub const HEARTBEAT_INTERVAL_SEC: u64 = 3;

/// How often the heartbeat looks for a slot to rotate to.
pub const ROTATION_CHECK_INTERVAL_SEC: u64 = 5;

/// How long a restart of a dead slot waits.
pub const RESTART_THROTTLE_SEC: u64 = 2;

/// How long the start of the spare slot waits.
pub const SLOT1_STAGGER_SEC: u64 = 5;

/// Where a pool slot stands.
#[derive(Debug, Clone, Copy, PartialEq, Eq, Structural)]
pub enum SlotStatus {
    /// Never started.
    Init,
    Ready,
    Dead,
    Failed,
}

/// The connection pool of one host.
#[derive(Debug)]
pub struct PoolState {
    pub host: String,
    pub slot_status: [SlotStatus; 2],
    pub active_index: usize,
    pub consecutive_login_failures: u32,
    pub cooldown_until: Option<u64>,
    pub last_rotate: Option<u64>,
    pub probe_backoff_until: Option<u64>,
    pub slot_ready_since: [Option<u64>; 2],
    pub flap_count: u32,
    pub flap_backoff_until: Option<u64>,
}

/// What a pool says.
#[verifier::ext_equal]
pub struct PoolView {
    pub host: Seq<char>,
    pub slot_status: Seq<SlotStatus>,
    pub active_index: usize,
    pub consecutive_login_failures: u32,
    pub cooldown_until: Option<u64>,
    pub last_rotate: Option<u64>,
    pub probe_backoff_until: Option<u64>,
    pub slot_ready_since: Seq<Option<u64>>,
    pub flap_count: u32,
    pub flap_backoff_until: Option<u64>,
}

impl View for PoolState {
    type V = PoolView;

    open spec fn view(&self) -> PoolView {
        PoolView {
            host: self.host@,
            slot_status: self.slot_status@,
            active_index: self.active_index,
            consecutive_login_failures: self.consecutive_login_failures,
            cooldown_until: self.cooldown_until,
            last_rotate: self.last_rotate,
            probe_backoff_until: self.probe_backoff_until,
            slot_ready_since: self.slot_ready_since@,
            flap_count: self.flap_count,
            flap_backoff_until: self.flap_backoff_until,
        }
    }
}

/// The pool of a host that was never connected.
pub open spec fn fresh_pool(host: Seq<char>) -> PoolView {
    PoolView {
        host,
        slot_status: seq![SlotStatus::Init, SlotStatus::Init],
        active_index: 0,
        consecutive_login_failures: 0,
        cooldown_until: None,
        last_rotate: None,
        probe_backoff_until: None,
        slot_ready_since: seq![None, None],
        flap_count: 0,
        flap_backoff_until: None,
    }
}

/// Whether a deadline lies ahead.
pub open spec fn ahead(deadline: Option<u64>, now: u64) -> bool {
    match deadline {
        Some(t) => now < t,
        None => false,
    }
}

fn is_ahead(deadline: Option<u64>, now: u64) -> (r: bool)
    ensures
        r == ahead(deadline, now),
{
    match deadline {
        Some(t) => now < t,
        None => false,
    }
}

impl PoolState {
    /// The pool of a host that was never connected.
    pub fn new(host: &str) -> (p: PoolState)
        ensures
            p@ == fresh_pool(host@),
    {
        let p: PoolState = PoolState {
            host: host.to_owned(),
            slot_status: [SlotStatus::Init, SlotStatus::Init],
            active_index: 0,
            consecutive_login_failures: 0,
            cooldown_until: None,
            last_rotate: None,
            probe_backoff_until: None,
            slot_ready_since: [None, None],
            flap_count: 0,
            flap_backoff_until: None,
        };
        proof {
            assert(p@.slot_status =~= seq![SlotStatus::Init, SlotStatus::Init]);
            assert(p@.slot_ready_since =~= seq![None, None]);
        }
        p
    }

    /// Whether logins are suspended.
    pub fn in_cooldown(&self, now: u64) -> (r: bool)
        ensures
            r == ahead(self.cooldown_until, now),
    {
        is_ahead(self.cooldown_until, now)
    }

    /// Whether rotation is suspended.
    pub fn in_probe_backoff(&self, now: u64) -> (r: bool)
        ensures
            r == ahead(self.probe_backoff_until, now),
    {
        is_ahead(self.probe_backoff_until, now)
    }

    /// Whether restarts are suspended because the connection keeps dropping.
    pub fn in_flap_backoff(&self, now: u64) -> (r: bool)
        ensures
            r == ahead(self.flap_backoff_until, now),
    {
        is_ahead(self.flap_backoff_until, now)
    }

    /// A copy.
    pub fn copy(&self) -> (p: PoolState)
        ensures
            p@ == self@,
    {
        PoolState {
            host: self.host.clone(),
            slot_status: self.slot_status,
            active_index: self.active_index,
            consecutive_login_failures: self.consecutive_login_failures,
            cooldown_until: self.cooldown_until,
            last_rotate: self.last_rotate,
            probe_backoff_until: self.probe_backoff_until,
            slot_ready_since: self.slot_ready_since,
            flap_count: self.flap_count,
            flap_backoff_until: self.flap_backoff_until,
        }
    }
}

/// What the heartbeat does with one slot of a host.
#[derive(Debug, Clone, Copy, PartialEq, Eq, Structural)]
pub enum MaintenanceAction {
    /// The host is inactive or in cooldown.
    Skip,
    /// Nothing to do.
    Healthy,
    /// The slot is dead: restart it.
    Restart,
    /// The spare slot was never started while the first is ready: start it.
    WarmSlot1,
    /// The slot in use is dead and the other is ready: switch over.
    Rotate,
}

/// Whether a slot is down: marked so, or ready but with a failed check.
pub open spec fn slot_down(s: SlotStatus, check_alive: Option<bool>) -> bool {
    match s {
        SlotStatus::Dead | SlotStatus::Failed => true,
        SlotStatus::Init => false,
        SlotStatus::Ready => check_alive == Some(false),
    }
}

/// The heartbeat's decision for a slot, as a rule.
pub open spec fn slot_action(
    pool: PoolView,
    slot: int,
    active: bool,
    check_alive: Option<bool>,
    now: u64,
) -> MaintenanceAction {
    let used = pool.active_index as int;
    if !active || ahead(pool.cooldown_until, now) {
        MaintenanceAction::Skip
    } else if slot == 1 && pool.slot_status[0] == SlotStatus::Ready && pool.slot_status[1]
        == SlotStatus::Init {
        MaintenanceAction::WarmSlot1
    } else if slot == used && pool.slot_status[used] == SlotStatus::Dead && pool.slot_status[1
        - used] == SlotStatus::Ready && !ahead(pool.probe_backoff_until, now) {
        MaintenanceAction::Rotate
    } else if slot_down(pool.slot_status[slot], check_alive) && !ahead(
        pool.probe_backoff_until,
        now,
    ) && !ahead(pool.flap_backoff_until, now) {
        MaintenanceAction::Restart
    } else {
        MaintenanceAction::Healthy
    }
}

/// Decide what the heartbeat does with a slot. `check_alive` is what a check of
/// the slot's connection found, where there was one.
pub fn next_action(
    pool: &PoolState,
    slot: usize,
    active: bool,
    check_alive: Option<bool>,
    now: u64,
) -> (action: MaintenanceAction)
    requires
        slot < POOL_SIZE,
        pool.active_index < POOL_SIZE,
    ensures
        action == slot_action(pool@, slot as int, active, check_alive, now),
{
    if !active {
        return MaintenanceAction::Skip;
    }
    if pool.in_cooldown(now) {
        return MaintenanceAction::Skip;
    }
    if slot == 1 && pool.slot_status[0] == SlotStatus::Ready && pool.slot_status[1]
        == SlotStatus::Init {
        return MaintenanceAction::WarmSlot1;
    }
    let other: usize = (pool.active_index + 1) % POOL_SIZE;
    if pool.slot_status[pool.active_index] == SlotStatus::Dead && pool.slot_status[other]
        == SlotStatus::Ready && !pool.in_probe_backoff(now) {
        if slot == pool.active_index {
            return MaintenanceAction::Rotate;
        }
    }
    let needs_restart: bool = match pool.slot_status[slot] {
        SlotStatus::Dead | SlotStatus::Failed => true,
        SlotStatus::Init => false,
        SlotStatus::Ready => match check_alive {
            Some(alive) => !alive,
            None => false,
        },
    };
    if needs_restart && !pool.in_probe_backoff(now) && !pool.in_flap_backoff(now) {
        return MaintenanceAction::Restart;
    }
    MaintenanceAction::Healthy
}

/// The pools of all hosts, and the slots with a login under way.
#[derive(Debug)]
pub struct HostManagers {
    map: NameMap<PoolState>,
    starting: Vec<(String, usize)>,
}

/// What the registry says.
#[verifier::ext_equal]
pub struct ManagersView {
    pub pools: Map<Seq<char>, PoolView>,
    pub starting: Set<(Seq<char>, usize)>,
}

/// The pairs of a list, as a set.
pub open spec fn claims(s: Seq<(String, usize)>) -> Set<(Seq<char>, usize)> {
    Set::new(
        |p: (Seq<char>, usize)|
            exists|i: int| 0 <= i < s.len() && (#[trigger] s[i]).0@ == p.0 && s[i].1 == p.1,
    )
}

impl View for HostManagers {
    type V = ManagersView;

    closed spec fn view(&self) -> ManagersView {
        ManagersView {
            pools: self.map@.map_values(|p: PoolState| p@),
            starting: claims(self.starting@),
        }
    }
}

/// The pool of `host`; a fresh one where it has none yet.
pub open spec fn pool_of(v: ManagersView, host: Seq<char>) -> PoolView {
    if v.pools.contains_key(host) {
        v.pools[host]
    } else {
        fresh_pool(host)
    }
}

/// `v` with another pool for `host`.
pub open spec fn with_pool(v: ManagersView, host: Seq<char>, p: PoolView) -> ManagersView {
    ManagersView { pools: v.pools.insert(host, p), ..v }
}

/// The stored pool after a worker reports back: slot states, failures, cooldown
/// and rotation back-off are the worker's; the rest stays.
pub open spec fn written_back(stored: PoolView, src: PoolView) -> PoolView {
    PoolView {
        slot_status: src.slot_status,
        consecutive_login_failures: src.consecutive_login_failures,
        cooldown_until: src.cooldown_until,
        probe_backoff_until: src.probe_backoff_until,
        ..stored
    }
}

/// Whether `x` is what `f` can give for a pool that says `v`.
pub open spec fn answers<R, F: FnOnce(PoolState) -> R>(f: F, v: PoolView, x: R) -> bool {
    exists|p: PoolState| #[trigger] call_ensures(f, (p,), x) && p@ == v
}

impl HostManagers {
    /// No pool, nothing under way.
    pub fn new() -> (m: HostManagers)
        ensures
            m@ == (ManagersView { pools: Map::empty(), starting: Set::empty() }),
    {
        let m: HostManagers = HostManagers { map: NameMap::new(), starting: Vec::new() };
        proof {
            assert(m@.pools =~= Map::empty());
            assert(m@.starting =~= Set::empty());
        }
        m
    }

    fn find_claim(&self, host: &str, slot: usize) -> (r: Option<usize>)
        ensures
            match r {
                Some(i) => i < self.starting@.len() && self.starting@[i as int].0@ == host@
                    && self.starting@[i as int].1 == slot,
                None => !self@.starting.contains((host@, slot)),
            },
    {
        let mut i: usize = 0;
        while i < self.starting.len()
            invariant
                i <= self.starting@.len(),
                forall|j: int|
                    0 <= j < i ==> !((#[trigger] self.starting@[j]).0@ == host@
                        && self.starting@[j].1 == slot),
            decreases self.starting@.len() - i,
        {
            if self.starting[i].1 == slot && same_text(self.starting[i].0.as_str(), host) {
                return Some(i);
            }
            i += 1;
        }
        None
    }

    /// Claim the login of a slot. `false` where one is under way already.
    pub fn try_begin_start(&mut self, host: &str, slot: usize) -> (claimed: bool)
        ensures
            claimed == !old(self)@.starting.contains((host@, slot)),
            final(self)@ == (ManagersView {
                starting: old(self)@.starting.insert((host@, slot)),
                ..old(self)@
            }),
    {
        match self.find_claim(host, slot) {
            Some(i) => {
                proof {
                    assert(self@.starting.contains((host@, slot)));
                    assert(self@.starting =~= self@.starting.insert((host@, slot)));
                }
                false
            },
            None => {
                let ghost before = self.starting@;
                self.starting.push((host.to_owned(), slot));
                proof {
                    let after = self.starting@;
                    assert forall|p: (Seq<char>, usize)| #[trigger]
                        claims(after).contains(p) == claims(before).insert((host@, slot)).contains(
                        p,
                    ) by {
                        if claims(before).contains(p) {
                            let i = choose|i: int|
                                0 <= i < before.len() && (#[trigger] before[i]).0@ == p.0
                                    && before[i].1 == p.1;
                            assert(after[i] == before[i]);
                        }
                        if p == (host@, slot) {
                            assert(after[before.len() as int].0@ == p.0);
                        }
                        if claims(after).contains(p) {
                            let i = choose|i: int|
                                0 <= i < after.len() && (#[trigger] after[i]).0@ == p.0
                                    && after[i].1 == p.1;
                            if i < before.len() {
                                assert(before[i] == after[i]);
                            }
                        }
                    }
                    assert(claims(after) =~= claims(before).insert((host@, slot)));
                }
                true
            },
        }
    }

    /// Release the login of a slot; nothing happens where none is claimed.
    pub fn end_start(&mut self, host: &str, slot: usize)
        ensures
            final(self)@ == (ManagersView {
                starting: old(self)@.starting.remove((host@, slot)),
                ..old(self)@
            }),
    {
        let ghost all = self.starting@;
        let mut rest: Vec<(String, usize)> = Vec::new();
        let mut kept: Vec<(String, usize)> = Vec::new();
        std::mem::swap(&mut rest, &mut self.starting);
        let ghost mut done: int = 0;
        proof {
            assert(all.skip(0) =~= all);
            assert(claims(kept@) =~= claims(all.take(0)).remove((host@, slot)));
        }
        while rest.len() > 0
            invariant
                0 <= done <= all.len(),
                rest@ == all.skip(done),
                claims(kept@) == claims(all.take(done)).remove((host@, slot)),
            decreases all.len() - done,
        {
            let pair: (String, usize) = rest.remove(0);
            proof {
                assert(pair == all[done]);
                assert(rest@ =~= all.skip(done + 1));
                lemma_claims_push(all.take(done), pair);
                assert(all.take(done + 1) =~= all.take(done).push(pair));
            }
            if pair.1 == slot && same_text(pair.0.as_str(), host) {
                proof {
                    assert(claims(kept@) =~= claims(all.take(done + 1)).remove((host@, slot)));
                }
            } else {
                proof {
                    lemma_claims_push(kept@, pair);
                    assert(claims(kept@.push(pair)) =~= claims(all.take(done + 1)).remove(
                        (host@, slot),
                    ));
                }
                kept.push(pair);
            }
            proof {
                done = done + 1;
            }
        }
        proof {
            assert(all.take(done) =~= all);
        }
        self.starting = kept;
    }

    /// The pool of `host`, a fresh one where it has none yet.
    fn peek(&self, host: &str) -> (p: PoolState)
        ensures
            p@ == pool_of(self@, host@),
    {
        match self.map.get(host) {
            Some(p) => p.copy(),
            None => PoolState::new(host),
        }
    }

    /// Set the pool of `host`.
    pub fn put_pool(&mut self, host: &str, p: PoolState)
        ensures
            final(self)@ == with_pool(old(self)@, host@, p@),
    {
        self.map.insert(host, p);
        proof {
            assert(self@.pools =~= old(self)@.pools.insert(host@, p@));
        }
    }

    /// Change the pool of `host` by `f`, which starts from a fresh one where it
    /// has none yet.
    pub fn with_pool_mut<R, F: FnOnce(PoolState) -> (PoolState, R)>(
        &mut self,
        host: &str,
        f: F,
    ) -> (r: R)
        requires
            forall|p: PoolState| p@ == pool_of(old(self)@, host@) ==> call_requires(f, (p,)),
        ensures
            exists|p: PoolState, q: PoolState| #[trigger]
                call_ensures(f, (p,), (q, r)) && p@ == pool_of(old(self)@, host@) && final(self)@
                    == with_pool(old(self)@, host@, q@),
    {
        let p: PoolState = self.peek(host);
        let (q, r): (PoolState, R) = f(p);
        self.put_pool(host, q);
        r
    }

    /// The pool of `host`, where it has one.
    pub fn pool(&self, host: &str) -> (r: Option<&PoolState>)
        ensures
            match r {
                Some(p) => self@.pools.contains_key(host@) && self@.pools[host@] == p@,
                None => !self@.pools.contains_key(host@),
            },
    {
        self.map.get(host)
    }

    /// Read a copy of the pool of `host`; `None` where it has none yet.
    pub fn with_pool<R, F: FnOnce(PoolState) -> R>(&self, host: &str, f: F) -> (r: Option<R>)
        requires
            forall|p: PoolState|
                self@.pools.contains_key(host@) && p@ == self@.pools[host@] ==> call_requires(
                    f,
                    (p,),
                ),
        ensures
            match r {
                Some(x) => self@.pools.contains_key(host@) && answers(f, self@.pools[host@], x),
                None => !self@.pools.contains_key(host@),
            },
    {
        match self.map.get(host) {
            Some(p) => {
                let q: PoolState = p.copy();
                let ghost given = q;
                let x: R = f(q);
                proof {
                    assert(call_ensures(f, (given,), x) && given@ == self@.pools[host@]);
                }
                Some(x)
            },
            None => None,
        }
    }

    /// A copy of the pool of `host`, which is made where there is none yet.
    pub fn snapshot(&mut self, host: &str) -> (p: PoolState)
        ensures
            p@ == pool_of(old(self)@, host@),
            final(self)@ == with_pool(old(self)@, host@, p@),
    {
        let p: PoolState = self.peek(host);
        let q: PoolState = p.copy();
        self.put_pool(host, p);
        q
    }

    /// Take over what a worker may change of a pool: slot states, failures,
    /// cooldown and rotation back-off. The host name, the slot in use and the
    /// rest stay as stored.
    pub fn write_back(&mut self, host: &str, src: &PoolState)
        ensures
            final(self)@ == with_pool(
                old(self)@,
                host@,
                written_back(pool_of(old(self)@, host@), src@),
            ),
    {
        let mut p: PoolState = self.peek(host);
        p.slot_status = src.slot_status;
        p.consecutive_login_failures = src.consecutive_login_failures;
        p.cooldown_until = src.cooldown_until;
        p.probe_backoff_until = src.probe_backoff_until;
        self.put_pool(host, p);
    }

    /// Drop the pool of `host`, so that a host added later under the name
    /// starts fresh.
    pub fn forget(&mut self, host: &str)
        ensures
            final(self)@ == (ManagersView {
                pools: old(self)@.pools.remove(host@),
                ..old(self)@
            }),
    {
        self.map.remove(host);
        proof {
            assert(self@.pools =~= old(self)@.pools.remove(host@));
        }
    }
}

/// The registry after some pools were reported back, one after another, each
/// under its own host name.
pub open spec fn all_written(v: ManagersView, pools: Seq<PoolView>) -> ManagersView
    decreases pools.len(),
{
    if pools.len() == 0 {
        v
    } else {
        let before = all_written(v, pools.drop_last());
        let p = pools.last();
        with_pool(before, p.host, written_back(pool_of(before, p.host), p))
    }
}

/// What a list of pools says.
pub open spec fn pools_view(s: Seq<PoolState>) -> Seq<PoolView> {
    s.map_values(|p: PoolState| p@)
}

impl HostManagers {
    /// Copies of all pools, to be stopped.
    pub fn pools(&self) -> (r: Vec<PoolState>)
        ensures
            exists|hosts: Seq<Seq<char>>|
                {
                    &&& #[trigger] hosts.no_duplicates()
                    &&& hosts.len() == r@.len()
                    &&& forall|k: Seq<char>| #[trigger]
                        hosts.contains(k) <==> self@.pools.contains_key(k)
                    &&& forall|i: int|
                        0 <= i < r@.len() ==> pools_view(r@)[i] == self@.pools[#[trigger] hosts[i]]
                },
    {
        let hosts: Vec<String> = self.map.keys();
        let mut r: Vec<PoolState> = Vec::new();
        let mut i: usize = 0;
        proof {
            assert forall|k: Seq<char>| #[trigger]
                texts(hosts@).contains(k) <==> self@.pools.contains_key(k) by {}
        }
        while i < hosts.len()
            invariant
                i <= hosts@.len(),
                r@.len() == i,
                forall|k: Seq<char>| #[trigger]
                    texts(hosts@).contains(k) <==> self@.pools.contains_key(k),
                forall|j: int|
                    0 <= j < i ==> pools_view(r@)[j] == self@.pools[#[trigger] texts(hosts@)[j]],
            decreases hosts@.len() - i,
        {
            let p: PoolState = self.peek(hosts[i].as_str());
            proof {
                assert(texts(hosts@)[i as int] == hosts@[i as int]@);
                assert(texts(hosts@).contains(hosts@[i as int]@));
            }
            let ghost before = r@;
            r.push(p);
            proof {
                assert(pools_view(r@) =~= pools_view(before).push(p@));
            }
            i += 1;
        }
        r
    }

    /// Take over, pool by pool, what stopping the connections changed.
    pub fn teardown_all(&mut self, stopped: &Vec<PoolState>)
        ensures
            final(self)@ == all_written(old(self)@, pools_view(stopped@)),
    {
        let ghost v0 = self@;
        let mut i: usize = 0;
        while i < stopped.len()
            invariant
                i <= stopped@.len(),
                self@ == all_written(v0, pools_view(stopped@).take(i as int)),
            decreases stopped@.len() - i,
        {
            proof {
                assert(pools_view(stopped@).take(i + 1).drop_last() =~= pools_view(stopped@).take(
                    i as int,
                ));
                assert(pools_view(stopped@).take(i + 1).last() == stopped@[i as int]@);
            }
            self.write_back(stopped[i].host.as_str(), &stopped[i]);
            i += 1;
        }
        proof {
            assert(pools_view(stopped@).take(i as int) =~= pools_view(stopped@));
        }
    }
}

proof fn lemma_claims_push(s: Seq<(String, usize)>, p: (String, usize))
    ensures
        claims(s.push(p)) == claims(s).insert((p.0@, p.1)),
{
    let t = s.push(p);
    assert forall|q: (Seq<char>, usize)| #[trigger]
        claims(t).contains(q) == claims(s).insert((p.0@, p.1)).contains(q) by {
        if claims(s).contains(q) {
            let i = choose|i: int| 0 <= i < s.len() && (#[trigger] s[i]).0@ == q.0 && s[i].1 == q.1;
            assert(t[i] == s[i]);
        }
        if q == (p.0@, p.1) {
            assert(t[s.len() as int].0@ == q.0);
        }
        if claims(t).contains(q) {
            let i = choose|i: int| 0 <= i < t.len() && (#[trigger] t[i]).0@ == q.0 && t[i].1 == q.1;
            if i < s.len() {
                assert(s[i] == t[i]);
            }
        }
    }
    assert(claims(t) =~= claims(s).insert((p.0@, p.1)));
}

/// Credentials worth keeping: neither part is empty.
pub open spec fn complete(creds: (Seq<char>, Seq<char>)) -> bool {
    creds.0.len() > 0 && creds.1.len() > 0
}

/// Whether both the password and the secret are there.
pub fn creds_complete(creds: &(String, String)) -> (r: bool)
    ensures
        r == complete((creds.0@, creds.1@)),
{
    !creds.0.as_str().is_empty() && !creds.1.as_str().is_empty()
}

/// The credentials read so far, by host: a password and a one-time-code secret
/// each.
#[derive(Debug)]
pub struct CredsCache {
    map: NameMap<(String, String)>,
}

impl View for CredsCache {
    type V = Map<Seq<char>, (Seq<char>, Seq<char>)>;

    closed spec fn view(&self) -> Map<Seq<char>, (Seq<char>, Seq<char>)> {
        self.map@.map_values(|c: (String, String)| (c.0@, c.1@))
    }
}

/// Only complete credentials are kept.
pub open spec fn only_complete(m: Map<Seq<char>, (Seq<char>, Seq<char>)>) -> bool {
    forall|h: Seq<char>| #[trigger] m.contains_key(h) ==> complete(m[h])
}

impl CredsCache {
    /// Nothing read yet.
    pub fn new() -> (c: CredsCache)
        ensures
            c@ == Map::<Seq<char>, (Seq<char>, Seq<char>)>::empty(),
    {
        let c: CredsCache = CredsCache { map: NameMap::new() };
        proof {
            assert(c@ =~= Map::empty());
        }
        c
    }

    /// The credentials kept for `host`.
    pub fn get(&self, host: &str) -> (r: Option<(String, String)>)
        ensures
            match r {
                Some(c) => self@.contains_key(host@) && self@[host@] == (c.0@, c.1@),
                None => !self@.contains_key(host@),
            },
    {
        match self.map.get(host) {
            Some(c) => Some((c.0.clone(), c.1.clone())),
            None => None,
        }
    }

    /// Keep the credentials of `host` where they are complete.
    pub fn keep(&mut self, host: &str, creds: &(String, String))
        ensures
            final(self)@ == (if complete((creds.0@, creds.1@)) {
                old(self)@.insert(host@, (creds.0@, creds.1@))
            } else {
                old(self)@
            }),
    {
        if creds_complete(creds) {
            self.map.insert(host, (creds.0.clone(), creds.1.clone()));
            proof {
                assert(self@ =~= old(self)@.insert(host@, (creds.0@, creds.1@)));
            }
        }
    }
}

/// Forget the credentials of `host`, so that the next login reads them again.
pub fn invalidate_creds_cache(cache: &mut CredsCache, host: &str)
    ensures
        final(cache)@ == old(cache)@.remove(host@),
{
    cache.map.remove(host);
    proof {
        assert(cache@ =~= old(cache)@.remove(host@));
    }
}

/// The credentials of `host`: those kept, or else those that `read` gives, which
/// are kept from then on where they are complete.
pub fn load_creds<F: FnOnce() -> (String, String)>(
    cache: &mut CredsCache,
    host: &str,
    read: F,
) -> (creds: (String, String))
    requires
        call_requires(read, ()),
    ensures
        if old(cache)@.contains_key(host@) {
            &&& (creds.0@, creds.1@) == old(cache)@[host@]
            &&& final(cache)@ == old(cache)@
        } else {
            &&& call_ensures(read, (), creds)
            &&& final(cache)@ == (if complete((creds.0@, creds.1@)) {
                old(cache)@.insert(host@, (creds.0@, creds.1@))
            } else {
                old(cache)@
            })
        },
{
    match cache.get(host) {
        Some(creds) => creds,
        None => {
            let creds: (String, String) = read();
            cache.keep(host, &creds);
            creds
        },
    }
}

/// The names of the enabled hosts, in order.
pub open spec fn active_names(hs: Seq<HostView>) -> Seq<Seq<char>>
    decreases hs.len(),
{
    if hs.len() == 0 {
        Seq::empty()
    } else if hs.last().active {
        active_names(hs.drop_last()).push(hs.last().host)
    } else {
        active_names(hs.drop_last())
    }
}

/// The names of the enabled hosts, in order.
pub fn active_host_names(state: &State) -> (r: Vec<String>)
    ensures
        texts(r@) == active_names(state@.hosts),
{
    let mut r: Vec<String> = Vec::new();
    let mut i: usize = 0;
    proof {
        assert(texts(r@) =~= active_names(state@.hosts.take(0)));
    }
    while i < state.hosts.len()
        invariant
            i <= state.hosts@.len(),
            texts(r@) == active_names(state@.hosts.take(i as int)),
        decreases state.hosts@.len() - i,
    {
        let h: &Host = &state.hosts[i];
        proof {
            assert(state@.hosts.take(i + 1).drop_last() =~= state@.hosts.take(i as int));
            assert(state@.hosts.take(i + 1).last() == h@);
        }
        if h.active {
            let ghost before = r@;
            r.push(h.host.clone());
            proof {
                assert(texts(r@) =~= texts(before).push(h@.host));
            }
        }
        i += 1;
    }
    proof {
        assert(state@.hosts.take(i as int) =~= state@.hosts);
    }
    r
}

/// Whether some enabled host has the name.
pub open spec fn is_enabled(st: StateView, name: Seq<char>) -> bool {
    exists|i: int|
        0 <= i < st.hosts.len() && (#[trigger] st.hosts[i]).host == name && st.hosts[i].active
}

/// The enabled ones of some host names, in order.
pub open spec fn enabled_among(names: Seq<Seq<char>>, st: StateView) -> Seq<Seq<char>>
    decreases names.len(),
{
    if names.len() == 0 {
        Seq::empty()
    } else if is_enabled(st, names.last()) {
        enabled_among(names.drop_last(), st).push(names.last())
    } else {
        enabled_among(names.drop_last(), st)
    }
}

fn has_enabled(state: &State, name: &str) -> (r: bool)
    ensures
        r == is_enabled(state@, name@),
{
    let mut i: usize = 0;
    while i < state.hosts.len()
        invariant
            i <= state.hosts@.len(),
            forall|j: int|
                0 <= j < i ==> !((#[trigger] state@.hosts[j]).host == name@
                    && state@.hosts[j].active),
        decreases state.hosts@.len() - i,
    {
        proof {
            assert(state@.hosts[i as int] == state.hosts@[i as int]@);
        }
        if state.hosts[i].active && same_text(state.hosts[i].host.as_str(), name) {
            return true;
        }
        i += 1;
    }
    false
}

/// The hosts among `hosts` whose connection is to be rebuilt: the enabled ones.
/// Their number is the number of rebuilds.
pub fn rebuild_masters(hosts: &Vec<String>, state: &State) -> (r: Vec<String>)
    ensures
        texts(r@) == enabled_among(texts(hosts@), state@),
{
    let mut r: Vec<String> = Vec::new();
    let mut i: usize = 0;
    proof {
        assert(texts(r@) =~= enabled_among(texts(hosts@).take(0), state@));
    }
    while i < hosts.len()
        invariant
            i <= hosts@.len(),
            texts(r@) == enabled_among(texts(hosts@).take(i as int), state@),
        decreases hosts@.len() - i,
    {
        proof {
            assert(texts(hosts@).take(i + 1).drop_last() =~= texts(hosts@).take(i as int));
            assert(texts(hosts@).take(i + 1).last() == hosts@[i as int]@);
        }
        if has_enabled(state, hosts[i].as_str()) {
            let ghost before = r@;
            r.push(hosts[i].clone());
            proof {
                assert(texts(r@) =~= texts(before).push(hosts@[i as int]@));
            }
        }
        i += 1;
    }
    proof {
        assert(texts(hosts@).take(i as int) =~= texts(hosts@));
    }
    r
}

/// Whether the host that a name addresses is enabled.
pub fn still_active(state: &State, host: &str) -> (r: bool)
    ensures
        r == (match host_at(state@, host@) {
            Some(i) => state@.hosts[i].active,
            None => false,
        }),
{
    match state.find_host(host) {
        Some(i) => {
            proof {
                assert(state@.hosts[i as int] == state.hosts@[i as int]@);
            }
            state.hosts[i].active
        },
        None => false,
    }
}

/// The record of a host whose slot is connected.
pub open spec fn connected(h: HostView, slot: usize, msg: Seq<char>) -> HostView {
    HostView {
        is_master_ready: true,
        pool_alive: 1,
        pool_index: slot as u8,
        status: "Connected"@,
        last_msg: msg,
        ..h
    }
}

/// The record of a host whose login failed.
pub open spec fn login_failed(h: HostView, in_cooldown: bool, msg: Seq<char>) -> HostView {
    HostView {
        is_master_ready: false,
        status: if in_cooldown {
            "Cooldown"@
        } else {
            "Failed"@
        },
        last_msg: msg,
        ..h
    }
}

pub(crate) fn set_connected(h: &mut Host, slot: usize, msg: String)
    ensures
        final(h)@ == connected(old(h)@, slot, msg@),
{
    h.is_master_ready = true;
    h.pool_alive = 1;
    h.pool_index = #[verifier::truncate] (slot as u8);
    h.status = "Connected".to_owned();
    h.last_msg = msg;
}

fn set_login_failed(h: &mut Host, in_cooldown: bool, msg: String)
    ensures
        final(h)@ == login_failed(old(h)@, in_cooldown, msg@),
{
    h.is_master_ready = false;
    h.status = if in_cooldown {
        "Cooldown".to_owned()
    } else {
        "Failed".to_owned()
    };
    h.last_msg = msg;
}

/// Write down how the login of a slot came out.
pub fn managed_start_finished(
    host: &str,
    slot: usize,
    ready: bool,
    in_cooldown: bool,
    state: &mut State,
)
    ensures
        final(state)@ == edit_host(
            old(state)@,
            host@,
            |h: HostView|
                if ready {
                    connected(h, slot, "Master slot "@ + dec(slot as nat) + " ready"@)
                } else {
                    login_failed(
                        h,
                        in_cooldown,
                        "Master slot "@ + dec(slot as nat) + " login failed"@,
                    )
                },
        ),
        host_at(old(state)@, host@) matches Some(i) ==> {
            let h = final(state)@.hosts[i];
            &&& h.is_master_ready == ready
            &&& ready ==> h.pool_index == slot as u8 && h.pool_alive == 1 && h.status
                == "Connected"@
            &&& !ready && in_cooldown ==> h.status == "Cooldown"@
            &&& !ready && !in_cooldown ==> h.status == "Failed"@
            &&& h.host == host@ && h.active == old(state)@.hosts[i].active
        },
{
    if let Some(i) = state.find_host(host) {
        let number: String = decimal(slot as u64);
        if ready {
            set_connected(state.host_mut(i), slot, cat3("Master slot ", number.as_str(), " ready"));
        } else {
            set_login_failed(
                state.host_mut(i),
                in_cooldown,
                cat3("Master slot ", number.as_str(), " login failed"),
            );
        }
    }
}

/// A rebuild of the host's connection has begun.
pub fn rebuild_begun(host: &str, state: &mut State)
    ensures
        final(state)@ == edit_host(
            old(state)@,
            host@,
            |h: HostView|
                HostView {
                    is_master_ready: false,
                    pool_alive: 0,
                    status: "Reconnecting"@,
                    last_msg: "Master rebuild in progress"@,
                    ..h
                },
        ),
        host_at(old(state)@, host@) matches Some(i) ==> {
            let h = final(state)@.hosts[i];
            &&& !h.is_master_ready && h.pool_alive == 0 && h.status == "Reconnecting"@
            &&& h.host == host@ && h.active == old(state)@.hosts[i].active
        },
{
    if let Some(i) = state.find_host(host) {
        let h: &mut Host = state.host_mut(i);
        h.is_master_ready = false;
        h.pool_alive = 0;
        h.status = "Reconnecting".to_owned();
        h.last_msg = "Master rebuild in progress".to_owned();
    }
}

/// Write down how a rebuild came out.
pub fn rebuild_finished(host: &str, ready: bool, in_cooldown: bool, state: &mut State)
    ensures
        final(state)@ == edit_host(
            old(state)@,
            host@,
            |h: HostView|
                if ready {
                    connected(h, 0, "Master rebuilt (slot 0 ready)"@)
                } else {
                    login_failed(h, in_cooldown, "Master rebuild failed (slot 0)"@)
                },
        ),
        host_at(old(state)@, host@) matches Some(i) ==> {
            let h = final(state)@.hosts[i];
            &&& h.is_master_ready == ready
            &&& ready ==> h.pool_index == 0 && h.pool_alive == 1 && h.status == "Connected"@
            &&& !ready && in_cooldown ==> h.status == "Cooldown"@
            &&& !ready && !in_cooldown ==> h.status == "Failed"@
            &&& h.host == host@ && h.active == old(state)@.hosts[i].active
        },
{
    if let Some(i) = state.find_host(host) {
        if ready {
            set_connected(state.host_mut(i), 0, "Master rebuilt (slot 0 ready)".to_owned());
        } else {
            set_login_failed(
                state.host_mut(i),
                in_cooldown,
                "Master rebuild failed (slot 0)".to_owned(),
            );
        }
    }
}

/// The record of a host whose connection was stopped.
pub open spec fn stopped_host(h: HostView) -> HostView {
    HostView {
        is_master_ready: false,
        pool_alive: 0,
        active: false,
        status: "Idle"@,
        last_msg: "Stopped"@,
        ..h
    }
}

/// The host's connection was stopped.
pub fn managed_stop_finished(host: &str, state: &mut State)
    ensures
        final(state)@ == edit_host(old(state)@, host@, |h: HostView| stopped_host(h)),
        host_at(old(state)@, host@) matches Some(i) ==> {
            let h = final(state)@.hosts[i];
            !h.is_master_ready && !h.active && h.pool_alive == 0 && h.host == host@
        },
{
    if let Some(i) = state.find_host(host) {
        let h: &mut Host = state.host_mut(i);
        h.is_master_ready = false;
        h.pool_alive = 0;
        h.active = false;
        h.status = "Idle".to_owned();
        h.last_msg = "Stopped".to_owned();
    }
}

/// The pool of a host whose live connection was taken over on slot `slot`: that
/// slot is ready and in use.
pub open spec fn taken_over(p: PoolView, slot: usize) -> PoolView {
    PoolView {
        slot_status: p.slot_status.update(slot as int, SlotStatus::Ready),
        active_index: slot,
        ..p
    }
}

/// Connect a host at boot. `adopted` is the slot on which a connection that an
/// earlier run left was taken over; such a host needs no login. Where there is
/// none, a login of the host is to be started.
pub fn boot_host(
    host: &str,
    adopted: Option<usize>,
    managers: &mut HostManagers,
    state: &mut State,
) -> (start: bool)
    requires
        adopted is Some ==> adopted->Some_0 < POOL_SIZE,
    ensures
        start == (adopted is None),
        match adopted {
            Some(slot) => {
                &&& final(managers)@ == with_pool(
                    old(managers)@,
                    host@,
                    taken_over(pool_of(old(managers)@, host@), slot),
                )
                &&& final(state)@ == edit_host(
                    old(state)@,
                    host@,
                    |h: HostView| connected(h, slot, "Adopted live master (no login)"@),
                )
            },
            None => {
                &&& final(managers)@ == old(managers)@
                &&& final(state)@ == edit_host(
                    old(state)@,
                    host@,
                    |h: HostView|
                        HostView { status: "Connecting"@, last_msg: "Boot auto-connecting…"@, ..h },
                )
            },
        },
        adopted matches Some(slot) ==> {
            &&& final(managers)@.pools.contains_key(host@)
            &&& final(managers)@.pools[host@].active_index == slot
            &&& final(managers)@.pools[host@].slot_status[slot as int] == SlotStatus::Ready
            &&& host_at(old(state)@, host@) matches Some(i) ==> {
                &&& final(state)@.hosts[i].is_master_ready
                &&& final(state)@.hosts[i].pool_index == slot as u8
            }
        },
        final(managers)@.starting == old(managers)@.starting,
{
    match adopted {
        Some(slot) => {
            let mut p: PoolState = managers.peek(host);
            let ghost q = p@;
            p.slot_status[slot] = SlotStatus::Ready;
            p.active_index = slot;
            proof {
                assert(p@ =~= taken_over(q, slot));
            }
            managers.put_pool(host, p);
            if let Some(i) = state.find_host(host) {
                set_connected(state.host_mut(i), slot, "Adopted live master (no login)".to_owned());
            }
            false
        },
        None => {
            if let Some(i) = state.find_host(host) {
                let h: &mut Host = state.host_mut(i);
                h.last_msg = "Boot auto-connecting…".to_owned();
                h.status = "Connecting".to_owned();
            }
            true
        },
    }
}

/// A host whose connection was taken over at boot is left alone by the heartbeat
/// as long as that connection answers: neither logged in nor switched away from.
pub proof fn law_an_adopted_host_is_not_logged_in(
    v: ManagersView,
    host: Seq<char>,
    slot: usize,
    active: bool,
    now: u64,
)
    requires
        slot < POOL_SIZE,
        pool_of(v, host).slot_status.len() == POOL_SIZE,
    ensures
        ({
            let p = taken_over(pool_of(v, host), slot);
            let a = slot_action(p, slot as int, active, Some(true), now);
            a == MaintenanceAction::Healthy || a == MaintenanceAction::Skip
        }),
{
}

/// What a worker reports of failures, cooldown and slots outlives the next one:
/// the next snapshot shows it. The slot in use and the last rotation stay, and so
/// do the pools of other hosts.
pub proof fn law_reports_survive(v: ManagersView, host: Seq<char>, src: PoolView, other: Seq<char>)
    ensures
        ({
            let after = with_pool(v, host, written_back(pool_of(v, host), src));
            let p = pool_of(after, host);
            &&& p.consecutive_login_failures == src.consecutive_login_failures
            &&& p.cooldown_until == src.cooldown_until
            &&& p.slot_status == src.slot_status
            &&& p.probe_backoff_until == src.probe_backoff_until
            &&& p.active_index == pool_of(v, host).active_index
            &&& p.last_rotate == pool_of(v, host).last_rotate
            &&& other != host ==> pool_of(after, other) == pool_of(v, other)
            &&& after.starting == v.starting
        }),
{
}

/// A host in cooldown, and one that is switched off, are left alone by the
/// heartbeat; a slot is restarted only where nothing tells it to wait, and left
/// only for one that is ready.
pub proof fn law_heartbeats_respect_the_breakers(
    pool: PoolView,
    slot: int,
    active: bool,
    check_alive: Option<bool>,
    now: u64,
)
    ensures
        ({
            let a = slot_action(pool, slot, active, check_alive, now);
            &&& !active || ahead(pool.cooldown_until, now) ==> a == MaintenanceAction::Skip
            &&& a == MaintenanceAction::Restart ==> !ahead(pool.probe_backoff_until, now)
                && !ahead(pool.flap_backoff_until, now)
            &&& a == MaintenanceAction::Rotate ==> pool.slot_status[1 - pool.active_index]
                == SlotStatus::Ready && pool.slot_status[pool.active_index as int]
                == SlotStatus::Dead
        }),
{
}

/// The cache never holds half of a host's credentials.
pub proof fn law_the_cache_holds_only_complete_credentials(
    m: Map<Seq<char>, (Seq<char>, Seq<char>)>,
    host: Seq<char>,
    creds: (Seq<char>, Seq<char>),
)
    requires
        only_complete(m),
    ensures
        only_complete(m.remove(host)),
        complete(creds) ==> only_complete(m.insert(host, creds)),
{
}

/// The enabled hosts are listed, and no others.
pub proof fn lemma_active_names(hs: Seq<HostView>)
    ensures
        forall|i: int|
            0 <= i < hs.len() && (#[trigger] hs[i]).active ==> active_names(hs).contains(
                hs[i].host,
            ),
        forall|n: Seq<char>| #[trigger]
            active_names(hs).contains(n) ==> exists|i: int|
                0 <= i < hs.len() && (#[trigger] hs[i]).host == n && hs[i].active,
    decreases hs.len(),
{
    if hs.len() > 0 {
        let front = hs.drop_last();
        let last = hs.len() - 1;
        lemma_active_names(front);
        let before = active_names(front);
        let found = active_names(hs);
        assert forall|i: int| 0 <= i < hs.len() && (#[trigger] hs[i]).active implies found.contains(
            hs[i].host,
        ) by {
            if i < last {
                assert(front[i] == hs[i]);
                let k = choose|k: int| 0 <= k < before.len() && before[k] == hs[i].host;
                assert(found[k] == hs[i].host);
            } else {
                assert(found[found.len() - 1] == hs[i].host);
            }
        }
        assert forall|n: Seq<char>| #[trigger] found.contains(n) implies exists|i: int|
            0 <= i < hs.len() && (#[trigger] hs[i]).host == n && hs[i].active by {
            let k = choose|k: int| 0 <= k < found.len() && found[k] == n;
            if k < before.len() {
                assert(before[k] == n);
                assert(before.contains(n));
                let i = choose|i: int|
                    0 <= i < front.len() && (#[trigger] front[i]).host == n && front[i].active;
                assert(hs[i] == front[i]);
            } else {
                assert(hs[last].host == n);
            }
        }
    }
}

/// Of some names those are kept that an enabled host carries, and no others.
pub proof fn lemma_enabled_among(names: Seq<Seq<char>>, st: StateView)
    ensures
        forall|n: Seq<char>| #[trigger]
            enabled_among(names, st).contains(n) <==> names.contains(n) && exists|i: int|
                0 <= i < st.hosts.len() && (#[trigger] st.hosts[i]).host == n && st.hosts[i].active,
    decreases names.len(),
{
    if names.len() > 0 {
        let front = names.drop_last();
        lemma_enabled_among(front, st);
        let before = enabled_among(front, st);
        let found = enabled_among(names, st);
        assert forall|n: Seq<char>| #[trigger] found.contains(n) <==> names.contains(n) && exists|
            i: int,
        |
            0 <= i < st.hosts.len() && (#[trigger] st.hosts[i]).host == n && st.hosts[i].active by {
            if found.contains(n) {
                let k = choose|k: int| 0 <= k < found.len() && found[k] == n;
                if k < before.len() {
                    assert(before[k] == n);
                    assert(before.contains(n));
                    let m = choose|m: int| 0 <= m < front.len() && front[m] == n;
                    assert(names[m] == n);
                } else {
                    assert(names[names.len() - 1] == n);
                }
            }
            if names.contains(n) && is_enabled(st, n) {
                let k = choose|k: int| 0 <= k < names.len() && names[k] == n;
                if k < front.len() {
                    assert(front[k] == n);
                    assert(before.contains(n));
                    let m = choose|m: int| 0 <= m < before.len() && before[m] == n;
                    assert(found[m] == n);
                } else {
                    assert(found[found.len() - 1] == n);
                }
            }
        }
    }
}

/// A rebuild is made for exactly those of the given hosts that are enabled.
pub proof fn law_only_enabled_hosts_are_rebuilt(names: Seq<Seq<char>>, st: StateView)
    ensures
        forall|n: Seq<char>| #[trigger]
            enabled_among(names, st).contains(n) <==> names.contains(n) && exists|i: int|
                0 <= i < st.hosts.len() && (#[trigger] st.hosts[i]).host == n && st.hosts[i].active,
{
    lemma_enabled_among(names, st);
}

/// A login that came out well shows its host as connected on the slot it was made for,
/// and one that failed shows it as not ready; a stopped host is neither ready nor
/// enabled. Its name, and whether a login leaves it enabled, do not change.
pub proof fn law_host_records_say_how_logins_came_out(
    h: HostView,
    slot: usize,
    in_cooldown: bool,
    msg: Seq<char>,
)
    requires
        slot < POOL_SIZE,
    ensures
        connected(h, slot, msg).is_master_ready,
        connected(h, slot, msg).pool_index == slot,
        connected(h, slot, msg).host == h.host,
        connected(h, slot, msg).active == h.active,
        !login_failed(h, in_cooldown, msg).is_master_ready,
        login_failed(h, in_cooldown, msg).host == h.host,
        login_failed(h, in_cooldown, msg).active == h.active,
        !stopped_host(h).is_master_ready,
        !stopped_host(h).active,
        stopped_host(h).host == h.host,
        connected(h, slot, msg).last_msg == msg && connected(h, slot, msg).status == "Connected"@,
        connected(h, slot, msg).pool_alive == 1,
        stopped_host(h).pool_alive == 0 && stopped_host(h).status == "Idle"@,
        login_failed(h, in_cooldown, msg).last_msg == msg,
        login_failed(h, true, msg).status == "Cooldown"@,
        login_failed(h, false, msg).status == "Failed"@,
{
}

/// A connection that was taken over at boot is the one in use, and ready; the other
/// slot, the failures and the cooldown stay as they were.
pub proof fn law_a_taken_over_connection_is_in_use(p: PoolView, slot: usize)
    requires
        slot < POOL_SIZE,
        p.slot_status.len() == POOL_SIZE,
    ensures
        taken_over(p, slot).active_index == slot,
        taken_over(p, slot).slot_status[slot as int] == SlotStatus::Ready,
        taken_over(p, slot).slot_status[1 - slot] == p.slot_status[1 - slot],
        taken_over(p, slot).consecutive_login_failures == p.consecutive_login_failures,
        taken_over(p, slot).cooldown_until == p.cooldown_until,
{
}

/// The action for a slot of an enabled host outside of every cooldown and back-off is
/// what its state calls for: a spare that was never started is warmed where the first
/// is ready; a dead slot in use is left where the other is ready; one that is dead,
/// failed, or ready but not answering is restarted; anything else is left as it is.
pub proof fn law_the_action_is_what_the_slot_calls_for(
    pool: PoolView,
    slot: int,
    check_alive: Option<bool>,
    now: u64,
)
    requires
        pool.slot_status.len() == POOL_SIZE,
        pool.active_index < POOL_SIZE,
        0 <= slot < POOL_SIZE,
        pool.cooldown_until matches Some(until) ==> until <= now,
        pool.probe_backoff_until matches Some(until) ==> until <= now,
        pool.flap_backoff_until matches Some(until) ==> until <= now,
    ensures
        ({
            let a = slot_action(pool, slot, true, check_alive, now);
            match pool.slot_status[slot] {
                SlotStatus::Ready => a == (if check_alive == Some(false) {
                    MaintenanceAction::Restart
                } else {
                    MaintenanceAction::Healthy
                }),
                SlotStatus::Failed => a == MaintenanceAction::Restart,
                SlotStatus::Dead => a == (if slot == pool.active_index && pool.slot_status[1 - slot]
                    == SlotStatus::Ready {
                    MaintenanceAction::Rotate
                } else {
                    MaintenanceAction::Restart
                }),
                SlotStatus::Init => a == (if slot == 1 && pool.slot_status[0] == SlotStatus::Ready {
                    MaintenanceAction::WarmSlot1
                } else {
                    MaintenanceAction::Healthy
                }),
            }
        }),
{
}

/// What stopping all connections changed is kept of each pool: its slot states, its
/// failures and its cooldown are those that were reported last under its name.
pub proof fn law_reports_of_all_pools_are_kept(v: ManagersView, pools: Seq<PoolView>, i: int)
    requires
        0 <= i < pools.len(),
        forall|j: int| i < j < pools.len() ==> (#[trigger] pools[j]).host != pools[i].host,
    ensures
        ({
            let p = all_written(v, pools).pools[pools[i].host];
            &&& all_written(v, pools).pools.contains_key(pools[i].host)
            &&& p.slot_status == pools[i].slot_status
            &&& p.cooldown_until == pools[i].cooldown_until
            &&& p.consecutive_login_failures == pools[i].consecutive_login_failures
        }),
    decreases pools.len(),
{
    if i < pools.len() - 1 {
        let front = pools.drop_last();
        assert forall|j: int| i < j < front.len() implies (#[trigger] front[j]).host
            != front[i].host by {
            assert(front[j] == pools[j]);
        }
        law_reports_of_all_pools_are_kept(v, front, i);
        assert(pools[pools.len() - 1].host != pools[i].host);
    }
}

/// Credentials are complete exactly where neither the password nor the secret is empty.
pub proof fn law_what_complete_credentials_are(creds: (Seq<char>, Seq<char>))
    ensures
        complete(creds) <==> creds.0.len() > 0 && creds.1.len() > 0,
{
}

/// A host that was never connected has a pool whose slots were never started, with the
/// first in use, no failures and nothing to wait for.
pub proof fn law_a_fresh_pool_waits_for_nothing(host: Seq<char>, now: u64)
    ensures
        ({
            let p = fresh_pool(host);
            &&& p.host == host
            &&& p.slot_status.len() == 2
            &&& p.slot_status[0] == SlotStatus::Init && p.slot_status[1] == SlotStatus::Init
            &&& p.active_index == 0
            &&& p.consecutive_login_failures == 0 && p.flap_count == 0
            &&& p.cooldown_until is None && p.probe_backoff_until is None
                && p.flap_backoff_until is None
        }),
{
}

/// A deadline lies ahead exactly where there is one and it has not come.
pub proof fn law_when_a_deadline_lies_ahead(deadline: Option<u64>, now: u64)
    ensures
        ahead(deadline, now) <==> (deadline matches Some(t) && now < t),
{
}

} // verus!
