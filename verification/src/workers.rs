//! One-time codes shared between hosts, and what a finished host or tunnel
//! worker changes in the records.
//!
//! Hosts with one secret get one code at a time, and a server takes a code only
//! once: submissions are grouped by secret, and a code that a group has just
//! submitted is held back until the next time window.
use crate::model::{State, StateView, Tunnel, TunnelStatus, TunnelView, edit_tunnel};
use crate::names::NameMap;
use crate::text::{cat2, cat5, decimal, hex, hex16, opt_text, same_text};
use crate::tunnel_maintenance::{
    OutcomeView, StartOutcome, came_up, connected_text, is_still_wanted, lemma_tunnel_is, start_failed,
    still_wanted,
};
use crate::tunnel_runtime::{
    RuntimeView, TunnelRtState, TunnelRuntime, child_of, recorded, rt_of, with_rt,
};
use vstd::prelude::*;

verus! {

/// Length of a one-time code's time window.
pub const TOTP_WINDOW_SEC: u64 = 30;

/// How long a submitted code is held back: its window and a margin.
pub const REPLAY_GUARD_SEC: u64 = 35;

/// The start value of the group hash: that of FNV.
pub const HASH_OFFSET: u64 = 14_695_981_039_346_656_037;

/// The multiplier of the group hash: the prime of FNV.
pub const HASH_PRIME: u64 = 1_099_511_628_211;

/// The group hash of some bytes, by FNV-1a: each byte is mixed into the hash of
/// those before it, and the outcome is multiplied.
pub open spec fn hash_of(bytes: Seq<u8>) -> u64
    decreases bytes.len(),
{
    if bytes.len() == 0 {
        HASH_OFFSET
    } else {
        (((hash_of(bytes.drop_last()) ^ (bytes.last() as u64)) * HASH_PRIME)
            % 0x1_0000_0000_0000_0000) as u64
    }
}

/// The key of the group of hosts that share a secret.
pub open spec fn group_key(secret: Seq<char>) -> Seq<char> {
    hex(hash_of(vstd::utf8::encode_utf8(secret)) as nat, 16)
}

/// The key of the group of hosts that share `secret`: sixteen hexadecimal
/// digits.
pub fn otp_group_key(secret: &str) -> (key: String)
    ensures
        key@ == group_key(secret@),
{
    let bytes: &[u8] = secret.as_bytes();
    let mut h: u64 = HASH_OFFSET;
    let mut i: usize = 0;
    while i < bytes.len()
        invariant
            i <= bytes@.len(),
            bytes@ == vstd::utf8::encode_utf8(secret@),
            h == hash_of(bytes@.take(i as int)),
        decreases bytes@.len() - i,
    {
        proof {
            assert(bytes@.take(i + 1).drop_last() =~= bytes@.take(i as int));
        }
        h = (h ^ (bytes[i] as u64)).wrapping_mul(HASH_PRIME);
        i += 1;
    }
    proof {
        assert(bytes@.take(i as int) =~= bytes@);
    }
    hex16(h)
}

/// What a group has submitted last: the code and when.
#[derive(Debug)]
pub struct OtpGroupState {
    pub last_submitted: Option<(String, u64)>,
}

/// What a group's state says.
pub open spec fn group_view(g: OtpGroupState) -> Option<(Seq<char>, u64)> {
    match g.last_submitted {
        Some(p) => Some((p.0@, p.1)),
        None => None,
    }
}

/// The groups, by their keys.
#[derive(Debug)]
pub struct OtpRegistry {
    groups: NameMap<OtpGroupState>,
}

impl View for OtpRegistry {
    type V = Map<Seq<char>, Option<(Seq<char>, u64)>>;

    closed spec fn view(&self) -> Map<Seq<char>, Option<(Seq<char>, u64)>> {
        self.groups@.map_values(|g: OtpGroupState| group_view(g))
    }
}

/// What the group of `key` has submitted last.
pub open spec fn last_of(
    m: Map<Seq<char>, Option<(Seq<char>, u64)>>,
    key: Seq<char>,
) -> Option<(Seq<char>, u64)> {
    if m.contains_key(key) {
        m[key]
    } else {
        None
    }
}

/// Whether submitting `code` at `now` would replay the last submission.
pub open spec fn would_replay(last: Option<(Seq<char>, u64)>, code: Seq<char>, now: u64) -> bool {
    match last {
        Some(p) => p.0 == code && now - p.1 < REPLAY_GUARD_SEC * 1000,
        None => false,
    }
}

/// How many seconds to wait for the next time window, and one more.
pub open spec fn wait_for_window(now: u64) -> nat {
    (TOTP_WINDOW_SEC - now / 1000 % TOTP_WINDOW_SEC + 1) as nat
}

/// What to do with a code.
#[derive(Debug, Clone, Copy, PartialEq, Eq, Structural)]
pub enum OtpStep {
    /// Submit it.
    Submit,
    /// Wait so many seconds, then ask with the code of that time.
    Wait(u64),
}

impl OtpRegistry {
    /// No group yet.
    pub fn new() -> (r: OtpRegistry)
        ensures
            r@ == Map::<Seq<char>, Option<(Seq<char>, u64)>>::empty(),
    {
        let r: OtpRegistry = OtpRegistry { groups: NameMap::new() };
        proof {
            assert(r@ =~= Map::empty());
        }
        r
    }

    /// The key of the group of `secret`, which is made where there is none yet.
    pub fn get_group(&mut self, secret: &str) -> (key: String)
        ensures
            key@ == group_key(secret@),
            final(self)@ == old(self)@.insert(key@, last_of(old(self)@, key@)),
    {
        let key: String = otp_group_key(secret);
        if !self.groups.contains(key.as_str()) {
            self.groups.insert(key.as_str(), OtpGroupState { last_submitted: None });
        }
        proof {
            assert(self@ =~= old(self)@.insert(key@, last_of(old(self)@, key@)));
        }
        key
    }

    /// Ask whether a host with `secret` may submit `code` now. Where it may, the
    /// code counts as submitted by the group.
    pub fn otp_step(&mut self, secret: &str, code: &str, now: u64) -> (step: OtpStep)
        ensures
            ({
                let key = group_key(secret@);
                let last = last_of(old(self)@, key);
                if would_replay(last, code@, now) {
                    &&& step == OtpStep::Wait(wait_for_window(now) as u64)
                    &&& final(self)@ == old(self)@
                } else {
                    &&& step == OtpStep::Submit
                    &&& final(self)@ == old(self)@.insert(key, Some((code@, now)))
                }
            }),
            step == OtpStep::Submit ==> {
                &&& final(self)@.contains_key(group_key(secret@))
                &&& final(self)@[group_key(secret@)] == Some((code@, now))
            },
            step != OtpStep::Submit ==> final(self)@ == old(self)@,
    {
        let key: String = otp_group_key(secret);
        let replay: bool = match self.groups.get(key.as_str()) {
            Some(g) => match &g.last_submitted {
                Some(p) => same_text(p.0.as_str(), code) && (now < p.1 || now - p.1
                    < REPLAY_GUARD_SEC * 1000),
                None => false,
            },
            None => false,
        };
        if replay {
            OtpStep::Wait(TOTP_WINDOW_SEC - (now / 1000) % TOTP_WINDOW_SEC + 1)
        } else {
            self.groups.insert(
                key.as_str(),
                OtpGroupState { last_submitted: Some((code.to_owned(), now)) },
            );
            proof {
                assert(self@ =~= old(self)@.insert(key@, Some((code@, now))));
            }
            OtpStep::Submit
        }
    }
}

/// How a tunnel start came out.
#[derive(Debug)]
pub struct TunnelStartResult {
    pub name: String,
    pub ok: bool,
    pub msg: String,
    pub active_jump: Option<String>,
}

/// What a result says.
#[verifier::ext_equal]
pub struct ResultView {
    pub name: Seq<char>,
    pub ok: bool,
    pub msg: Seq<char>,
    pub active_jump: Option<Seq<char>>,
}

impl View for TunnelStartResult {
    type V = ResultView;

    open spec fn view(&self) -> ResultView {
        ResultView {
            name: self.name@,
            ok: self.ok,
            msg: self.msg@,
            active_jump: opt_text(self.active_jump),
        }
    }
}

/// The message of a start that a user asked for and that failed.
pub open spec fn asked_failure_text(o: OutcomeView) -> Seq<char> {
    match o {
        OutcomeView::SpawnFailed(e) => "spawn failed: "@ + e,
        OutcomeView::ProbeError(e) => "probe error: "@ + e,
        _ => "probe timed out"@,
    }
}

/// The records after a start that a user asked for came out so, the process to
/// be stopped, and the result. A forward that came up after its tunnel was
/// stopped or deleted is itself to be stopped; another displaces the one before.
pub open spec fn asked_finished(
    st: StateView,
    rt: RuntimeView,
    name: Seq<char>,
    jump: Seq<char>,
    node: Seq<char>,
    remote_port: u16,
    o: OutcomeView,
    now: u64,
) -> (StateView, RuntimeView, Option<u64>, ResultView) {
    match o {
        OutcomeView::Ready(child) => if !still_wanted(st, name) {
            (
                st,
                recorded(rt, name, now, "start aborted by user stop"@),
                Some(child),
                ResultView {
                    name,
                    ok: false,
                    msg: "start aborted by user stop"@,
                    active_jump: None,
                },
            )
        } else {
            (
                edit_tunnel(st, name, |t: TunnelView| came_up(t, jump, now)),
                recorded(
                    with_rt(
                        RuntimeView { children: rt.children.insert(name, child), ..rt },
                        name,
                        TunnelRtState { alive_since: Some(now), ..rt_of(rt, name) },
                    ),
                    name,
                    now,
                    connected_text(jump, node, remote_port),
                ),
                child_of(rt, name),
                ResultView { name, ok: true, msg: "via "@ + jump, active_jump: Some(jump) },
            )
        },
        _ => {
            let msg = asked_failure_text(o);
            (
                edit_tunnel(
                    st,
                    name,
                    |t: TunnelView|
                        if o is SpawnFailed {
                            TunnelView { fail_count: t.fail_count, ..start_failed(t, msg) }
                        } else {
                            start_failed(t, msg)
                        },
                ),
                recorded(rt, name, now, msg),
                None,
                ResultView { name, ok: false, msg, active_jump: None },
            )
        },
    }
}

/// Write down how a start that a user asked for came out. Returns the process to
/// be stopped, and the result: where the tunnel was stopped or deleted meanwhile,
/// the start is undone.
pub fn tunnel_start_finished(
    name: &str,
    jump: &str,
    node: &str,
    remote_port: u16,
    o: &StartOutcome,
    state: &mut State,
    runtime: &mut TunnelRuntime,
    now: u64,
) -> (r: (Option<u64>, TunnelStartResult))
    ensures
        (final(state)@, final(runtime)@, r.0, r.1@) == asked_finished(
            old(state)@,
            old(runtime)@,
            name@,
            jump@,
            node@,
            remote_port,
            o@,
            now,
        ),
{
    let mut launched: bool = true;
    let msg: String = match o {
        StartOutcome::Ready(child) => {
            if !is_still_wanted(name, state) {
                runtime.record(name, now, "start aborted by user stop");
                let result: TunnelStartResult = TunnelStartResult {
                    name: name.to_owned(),
                    ok: false,
                    msg: "start aborted by user stop".to_owned(),
                    active_jump: None,
                };
                return (Some(*child), result);
            }
            let stale: Option<u64> = runtime.store_child(name, *child);
            let mut s: TunnelRtState = runtime.get_rt(name);
            s.alive_since = Some(now);
            runtime.put_rt(name, s);
            let note: String = cat5(
                "connected via ",
                jump,
                " → ",
                node,
                cat2(":", decimal(remote_port as u64).as_str()).as_str(),
            );
            proof {
                assert(note@ =~= connected_text(jump@, node@, remote_port));
            }
            runtime.record(name, now, note.as_str());
            if let Some(i) = state.find_tunnel(name) {
                let t: &mut Tunnel = state.tunnel_mut(i);
                t.status = TunnelStatus::Alive;
                t.wants_alive = true;
                t.last_alive_at = now;
                t.connect_count = t.connect_count.saturating_add(1);
                t.active_jump = Some(jump.to_owned());
                t.last_msg = cat2("via ", jump);
            }
            let result: TunnelStartResult = TunnelStartResult {
                name: name.to_owned(),
                ok: true,
                msg: cat2("via ", jump),
                active_jump: Some(jump.to_owned()),
            };
            return (stale, result);
        },
        StartOutcome::SpawnFailed(e) => {
            launched = false;
            cat2("spawn failed: ", e.as_str())
        },
        StartOutcome::ProbeError(e) => cat2("probe error: ", e.as_str()),
        StartOutcome::TimedOut | StartOutcome::ChildExited => "probe timed out".to_owned(),
    };
    runtime.record(name, now, msg.as_str());
    if let Some(i) = state.find_tunnel(name) {
        let t: &mut Tunnel = state.tunnel_mut(i);
        if launched {
            t.fail_count = t.fail_count.saturating_add(1);
        }
        t.status = TunnelStatus::Failed;
        t.last_msg = msg.clone();
        t.active_jump = None;
    }
    (None, TunnelStartResult { name: name.to_owned(), ok: false, msg, active_jump: None })
}

/// A start that a user asked for and that comes up after its tunnel was stopped or
/// deleted changes no record of it, and its forward is to be stopped.
pub proof fn law_a_late_asked_start_is_undone(
    st: StateView,
    rt: RuntimeView,
    name: Seq<char>,
    jump: Seq<char>,
    node: Seq<char>,
    remote_port: u16,
    child: u64,
    now: u64,
)
    requires
        !still_wanted(st, name),
    ensures
        ({
            let (st1, rt1, stop, result) = asked_finished(
                st,
                rt,
                name,
                jump,
                node,
                remote_port,
                OutcomeView::Ready(child),
                now,
            );
            &&& st1 == st
            &&& rt1.children == rt.children
            &&& rt1.rt == rt.rt
            &&& stop == Some(child)
            &&& !result.ok
            &&& result.active_jump is None
        }),
{
}

/// A code that a group has submitted is not submitted again by any host of the
/// group while a server might still take it for a replay, and is free after that.
pub proof fn law_no_code_is_submitted_twice(
    m: Map<Seq<char>, Option<(Seq<char>, u64)>>,
    secret: Seq<char>,
    code: Seq<char>,
    then: u64,
    now: u64,
)
    requires
        then <= now,
    ensures
        would_replay(
            last_of(m.insert(group_key(secret), Some((code, then))), group_key(secret)),
            code,
            now,
        ) <==> now - then < REPLAY_GUARD_SEC * 1000,
{
}

/// Another code, and a host with a secret of another group, need not wait.
pub proof fn law_other_codes_and_groups_go_ahead(
    m: Map<Seq<char>, Option<(Seq<char>, u64)>>,
    key: Seq<char>,
    other: Seq<char>,
    code: Seq<char>,
    fresh: Seq<char>,
    then: u64,
    now: u64,
)
    requires
        key != other,
        code != fresh,
    ensures
        !would_replay(last_of(m.insert(key, Some((code, then))), key), fresh, now),
        last_of(m.insert(key, Some((code, then))), other) == last_of(m, other),
{
}

/// A wait ends in the next time window, within two seconds of its beginning.
pub proof fn law_a_wait_ends_in_the_next_window(now: u64)
    ensures
        ({
            let sec = (now / 1000) as int;
            let window = TOTP_WINDOW_SEC as int;
            let end = sec + wait_for_window(now);
            &&& end / window == sec / window + 1
            &&& end % window == 1
            &&& wait_for_window(now) <= window + 1
        }),
{
    let sec = (now / 1000) as int;
    let rest = sec % 30;
    assert(wait_for_window(now) == 31 - rest);
    assert(sec == 30 * (sec / 30) + rest);
    assert((30 * (sec / 30 + 1) + 1) / 30 == sec / 30 + 1);
}

/// A start that a user asked for and that did not come up leaves its tunnel down:
/// failed, without a jump host, and with the result saying so; a failure is counted
/// once the forward was launched. Only a forward that is ready makes the tunnel alive,
/// and only one that is still wanted; its process is then the one that is registered,
/// and the one before it is to be stopped.
pub proof fn law_only_a_ready_asked_forward_makes_a_tunnel_alive(
    st: StateView,
    rt: RuntimeView,
    name: Seq<char>,
    jump: Seq<char>,
    node: Seq<char>,
    remote_port: u16,
    o: OutcomeView,
    now: u64,
    i: int,
)
    requires
        0 <= i < st.tunnels.len(),
        st.tunnels[i].name == name,
        forall|j: int| 0 <= j < i ==> (#[trigger] st.tunnels[j]).name != name,
    ensures
        ({
            let (after, rt1, stop, result) = asked_finished(
                st,
                rt,
                name,
                jump,
                node,
                remote_port,
                o,
                now,
            );
            let t = st.tunnels[i];
            let t1 = after.tunnels[i];
            &&& result.name == name
            &&& result.ok <==> o is Ready && t.wants_alive
            &&& !(o is Ready) ==> {
                &&& t1.status == TunnelStatus::Failed
                &&& t1.active_jump is None
                &&& t1.connect_count == t.connect_count
                &&& t1.wants_alive == t.wants_alive
                &&& t1.fail_count == (if o is SpawnFailed || t.fail_count == u64::MAX {
                    t.fail_count as int
                } else {
                    t.fail_count + 1
                })
                &&& stop is None
                &&& rt1.children == rt.children && rt1.rt == rt.rt
                &&& result.active_jump is None
            }
            &&& o matches OutcomeView::Ready(child) ==> {
                &&& t.wants_alive ==> {
                    &&& t1.status == TunnelStatus::Alive
                    &&& t1.wants_alive
                    &&& t1.active_jump == Some(jump) && result.active_jump == Some(jump)
                    &&& t1.last_alive_at == now
                    &&& t1.fail_count == t.fail_count
                    &&& t1.connect_count == (if t.connect_count == u64::MAX {
                        t.connect_count as int
                    } else {
                        t.connect_count + 1
                    })
                    &&& rt1.children.contains_key(name) && rt1.children[name] == child
                    &&& rt1.rt.contains_key(name) && rt1.rt[name].alive_since == Some(now)
                    &&& stop == (if rt.children.contains_key(name) {
                        Some(rt.children[name])
                    } else {
                        None
                    })
                }
                &&& !t.wants_alive ==> after == st && rt1.children == rt.children && stop == Some(
                    child,
                )
            }
            &&& after.hosts == st.hosts
            &&& after.tunnels.len() == st.tunnels.len()
            &&& t1.name == t.name && t1.last_node == t.last_node && t1.local_port == t.local_port
            &&& forall|j: int|
                0 <= j < st.tunnels.len() && j != i ==> #[trigger] after.tunnels[j] == st.tunnels[j]
        }),
{
    lemma_tunnel_is(st, name, i);
}

/// A code is held back exactly where the group of its secret submitted the same code
/// less than 35 s ago; the wait is as long as the time window of 30 s has left, and
/// one second more.
pub proof fn law_when_a_code_is_held_back(
    m: Map<Seq<char>, Option<(Seq<char>, u64)>>,
    secret: Seq<char>,
    code: Seq<char>,
    now: u64,
)
    ensures
        ({
            let key = group_key(secret);
            would_replay(last_of(m, key), code, now) <==> m.contains_key(key) && (m[key] matches Some(
                p,
            ) && p.0 == code && now - p.1 < 35_000)
        }),
        wait_for_window(now) == 31 - (now / 1000) % 30,
        1 < wait_for_window(now) <= 31,
{
}

} // verus!
