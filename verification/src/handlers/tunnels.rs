//! Requests about tunnels.
//!
//! A handler changes the records and says what is to be done outside: save the
//! tunnel list, kill a process, launch a forward.
use crate::handlers::{Effects, EffectsView, Reply, ReplyView, answered, refused, saved};
use crate::handlers::discovery::local_ports;
use crate::json::{
    Fields, Items, Json, JsonView, bool_at, opt_json, seconds_json, str_at, texts_json, uint_at,
};
use crate::model::{
    Error, ErrorView, State, StateView, Tunnel, TunnelStatus, TunnelView,
    law_a_name_addresses_the_first_tunnel, lemma_first, since, status_name, tunnel_at, tunnel_names,
    with_tunnel,
};
use crate::starts::{
    OrderView, SpecView, StartOrder, begin_start, begun, law_a_start_is_put_off_only_for_want_of_something,
    law_an_order_goes_where_its_tunnel_says,
};
use crate::text::{
    cat2, cat3, chars_of, dec, decimal, find_stop, lemma_next_stop, next_stop, opt_text, same_text,
    starts_with_char, trim, trimmed,
};
use crate::tunnel_maintenance::{OutcomeView, accumulate_uptime, finished, kind_of, run_closed};
use crate::tunnel_runtime::{
    EventView, RuntimeView, TunnelAction, TunnelEvent, TunnelRtState, TunnelRuntime, capped_sum,
    child_of, childless, decided, events_of, events_view, removed, rt_of, with_rt,
};
use crate::workers::asked_finished;
use vstd::prelude::*;

verus! {

/// The uptime of a tunnel, its current run included.
pub open spec fn live_uptime(t: TunnelView, now: u64) -> u64 {
    if t.status == TunnelStatus::Alive && t.last_alive_at > 0 {
        capped_sum(t.total_uptime_ms, since(now, t.last_alive_at))
    } else {
        t.total_uptime_ms
    }
}

/// An optional list of texts as JSON.
pub open spec fn opt_texts_json(o: Option<Seq<Seq<char>>>) -> JsonView {
    match o {
        Some(s) => texts_json(s),
        None => JsonView::Null,
    }
}

/// A tunnel in a reply.
pub open spec fn tunnel_json(t: TunnelView, now: u64) -> JsonView {
    JsonView::Obj(
        Map::empty().insert("name"@, JsonView::Str(t.name)).insert(
            "local_port"@,
            JsonView::Uint(t.local_port as u64),
        ).insert("remote_port"@, JsonView::Uint(t.remote_port as u64)).insert(
            "jump_candidates"@,
            opt_texts_json(t.jump_candidates),
        ).insert("last_node"@, opt_json(t.last_node)).insert(
            "last_user"@,
            opt_json(t.last_user),
        ).insert("direct_host"@, opt_json(t.direct_host)).insert(
            "auto_start"@,
            JsonView::Bool(t.auto_start),
        ).insert("post_connect_cmd"@, opt_json(t.post_connect_cmd)).insert(
            "tags"@,
            texts_json(t.tags),
        ).insert("url_path"@, opt_json(t.url_path)).insert(
            "active_jump"@,
            opt_json(t.active_jump),
        ).insert("status"@, JsonView::Str(status_name(t.status))).insert(
            "last_msg"@,
            JsonView::Str(t.last_msg),
        ).insert("last_alive_at"@, seconds_json(t.last_alive_at as nat)).insert(
            "total_uptime_sec"@,
            seconds_json(live_uptime(t, now) as nat),
        ).insert("connect_count"@, JsonView::Uint(t.connect_count)).insert(
            "fail_count"@,
            JsonView::Uint(t.fail_count),
        ),
    )
}

/// A tunnel in a reply. The uptime of a live tunnel includes its current run.
pub fn tunnel_snapshot(t: &Tunnel, now: u64) -> (j: Json)
    ensures
        j@ == tunnel_json(t@, now),
{
    let uptime: u64 = if t.status == TunnelStatus::Alive && t.last_alive_at > 0 {
        t.total_uptime_ms.saturating_add(now.saturating_sub(t.last_alive_at))
    } else {
        t.total_uptime_ms
    };
    let candidates: Json = match &t.jump_candidates {
        Some(list) => Json::list(list),
        None => Json::Null,
    };
    let mut f: Fields = Fields::new();
    f.put("name", Json::text(t.name.as_str()));
    f.put("local_port", Json::Uint(t.local_port as u64));
    f.put("remote_port", Json::Uint(t.remote_port as u64));
    f.put("jump_candidates", candidates);
    f.put("last_node", Json::opt(&t.last_node));
    f.put("last_user", Json::opt(&t.last_user));
    f.put("direct_host", Json::opt(&t.direct_host));
    f.put("auto_start", Json::Bool(t.auto_start));
    f.put("post_connect_cmd", Json::opt(&t.post_connect_cmd));
    f.put("tags", Json::list(&t.tags));
    f.put("url_path", Json::opt(&t.url_path));
    f.put("active_jump", Json::opt(&t.active_jump));
    f.put("status", Json::text(t.status.name()));
    f.put("last_msg", Json::text(t.last_msg.as_str()));
    f.put("last_alive_at", Json::from_seconds(t.last_alive_at));
    f.put("total_uptime_sec", Json::from_seconds(uptime));
    f.put("connect_count", Json::Uint(t.connect_count));
    f.put("fail_count", Json::Uint(t.fail_count));
    f.done()
}

/// All tunnels in a reply, in order.
pub open spec fn tunnels_json(st: StateView, now: u64) -> JsonView {
    JsonView::Arr(st.tunnels.map_values(|t: TunnelView| tunnel_json(t, now)))
}

/// All tunnels, in order.
pub fn list_tunnels(state: &State, now: u64) -> (j: Json)
    ensures
        j@ == tunnels_json(state@, now),
{
    let mut out: Items = Items::new();
    let mut i: usize = 0;
    proof {
        assert(out@ =~= state@.tunnels.take(0).map_values(|t: TunnelView| tunnel_json(t, now)));
    }
    while i < state.tunnels.len()
        invariant
            i <= state.tunnels@.len(),
            out@ == state@.tunnels.take(i as int).map_values(
                |t: TunnelView| tunnel_json(t, now),
            ),
        decreases state.tunnels@.len() - i,
    {
        out.push(tunnel_snapshot(&state.tunnels[i], now));
        proof {
            assert(out@ =~= state@.tunnels.take(i + 1).map_values(
                |t: TunnelView| tunnel_json(t, now),
            ));
        }
        i += 1;
    }
    proof {
        assert(state@.tunnels.take(i as int) =~= state@.tunnels);
    }
    out.done()
}

/// Whether a port can be forwarded locally without privilege.
pub fn is_valid_port(p: u16) -> (r: bool)
    ensures
        r == (p >= 1024),
{
    p >= 1024
}

/// The text under `key` without surrounding white space; `None` where there is
/// none, or nothing is left of it.
pub open spec fn opt_trimmed(params: JsonView, key: Seq<char>) -> Option<Seq<char>> {
    match str_at(params, key) {
        Some(s) => if trimmed(s).len() == 0 {
            None
        } else {
            Some(trimmed(s))
        },
        None => None,
    }
}

/// The text under `key` without surrounding white space, where something is
/// left of it.
pub fn opt_trimmed_at(params: &Json, key: &str) -> (r: Option<String>)
    ensures
        opt_text(r) == opt_trimmed(params@, key@),
{
    match params.str_at(key) {
        Some(s) => {
            let t: String = trim(s.as_str());
            if t.as_str().is_empty() {
                None
            } else {
                Some(t)
            }
        },
        None => None,
    }
}

/// The record of a new tunnel.
pub open spec fn new_tunnel(
    name: Seq<char>,
    local_port: u16,
    remote_port: u16,
    direct_host: Option<Seq<char>>,
) -> TunnelView {
    TunnelView {
        name,
        local_port,
        remote_port,
        jump_candidates: None,
        last_node: None,
        last_user: None,
        direct_host,
        auto_start: false,
        post_connect_cmd: None,
        tags: Seq::empty(),
        url_path: None,
        wants_alive: false,
        status: TunnelStatus::Idle,
        active_jump: None,
        last_msg: "Added"@,
        last_alive_at: 0,
        total_uptime_ms: 0,
        connect_count: 0,
        fail_count: 0,
    }
}

/// The tunnel that a request asks to add, or what is wrong with the request.
pub open spec fn add_request(params: JsonView) -> Result<TunnelView, ErrorView> {
    match str_at(params, "name"@) {
        None => Err(ErrorView::BadParams("name required"@)),
        Some(name) => match uint_at(params, "local_port"@) {
            None => Err(ErrorView::BadParams("local_port required (1024..65535)"@)),
            Some(p) => if p > 65535 {
                Err(ErrorView::BadParams("local_port required (1024..65535)"@))
            } else if p < 1024 {
                Err(
                    ErrorView::BadParams(
                        "local_port "@ + dec(p as nat) + " out of range (1024..65535)"@,
                    ),
                )
            } else {
                match uint_at(params, "remote_port"@) {
                    Some(q) if q > 65535 => Err(
                        ErrorView::BadParams(
                            "remote_port "@ + dec(q as nat) + " out of range (max 65535)"@,
                        ),
                    ),
                    remote => match opt_trimmed(params, "direct_host"@) {
                        Some(h) if h[0] == '-' => Err(
                            ErrorView::BadParams(
                                "invalid direct_host '"@ + h + "': must not start with '-'"@,
                            ),
                        ),
                        direct => Ok(
                            new_tunnel(
                                name,
                                p as u16,
                                match remote {
                                    Some(q) => q as u16,
                                    None => p as u16,
                                },
                                direct,
                            ),
                        ),
                    },
                }
            },
        },
    }
}

/// The tunnel that a request asks to add, or why it cannot be added to `st`, as
/// far as that does not depend on the machine's ports.
pub open spec fn add_allowed(st: StateView, params: JsonView) -> Result<TunnelView, ErrorView> {
    match add_request(params) {
        Err(e) => Err(e),
        Ok(t) => if tunnel_at(st, t.name) is Some {
            Err(ErrorView::Duplicate("tunnel '"@ + t.name + "' already exists"@))
        } else if holds_port(st, t.local_port) {
            Err(ErrorView::PortInUse(t.local_port))
        } else {
            Ok(t)
        },
    }
}

/// Whether some tunnel has the local port.
pub open spec fn holds_port(st: StateView, port: u16) -> bool {
    exists|i: int| 0 <= i < st.tunnels.len() && (#[trigger] st.tunnels[i]).local_port == port
}

fn port_taken(state: &State, port: u16) -> (r: bool)
    ensures
        r == holds_port(state@, port),
{
    let mut i: usize = 0;
    while i < state.tunnels.len()
        invariant
            i <= state.tunnels@.len(),
            forall|j: int| 0 <= j < i ==> (#[trigger] state@.tunnels[j]).local_port != port,
        decreases state.tunnels@.len() - i,
    {
        proof {
            assert(state@.tunnels[i as int] == state.tunnels@[i as int]@);
        }
        if state.tunnels[i].local_port == port {
            return true;
        }
        i += 1;
    }
    false
}

/// The tunnel that a request asks to add.
fn read_add(params: &Json) -> (r: Result<Tunnel, Error>)
    ensures
        match r {
            Ok(t) => add_request(params@) == Ok::<TunnelView, ErrorView>(t@),
            Err(e) => add_request(params@) == Err::<TunnelView, ErrorView>(e@),
        },
{
    let name: String = match params.str_at("name") {
        Some(s) => s,
        None => {
            return Err(Error::bad("name required"));
        },
    };
    let wide: u64 = match params.uint_at("local_port") {
        Some(p) => p,
        None => {
            return Err(Error::bad("local_port required (1024..65535)"));
        },
    };
    if wide > 65535 {
        return Err(Error::bad("local_port required (1024..65535)"));
    }
    let local_port: u16 = wide as u16;
    if !is_valid_port(local_port) {
        return Err(
            Error::BadParams(
                cat3("local_port ", decimal(wide).as_str(), " out of range (1024..65535)"),
            ),
        );
    }
    let remote_port: u16 = match params.uint_at("remote_port") {
        Some(q) => {
            if q > 65535 {
                return Err(
                    Error::BadParams(
                        cat3("remote_port ", decimal(q).as_str(), " out of range (max 65535)"),
                    ),
                );
            }
            q as u16
        },
        None => local_port,
    };
    let direct_host: Option<String> = opt_trimmed_at(params, "direct_host");
    match &direct_host {
        Some(h) => {
            if starts_with_char(h.as_str(), '-') {
                return Err(
                    Error::BadParams(
                        cat3("invalid direct_host '", h.as_str(), "': must not start with '-'"),
                    ),
                );
            }
        },
        None => {},
    }
    let t: Tunnel = Tunnel {
        name,
        local_port,
        remote_port,
        jump_candidates: None,
        last_node: None,
        last_user: None,
        direct_host,
        auto_start: false,
        post_connect_cmd: None,
        tags: Vec::new(),
        url_path: None,
        wants_alive: false,
        status: TunnelStatus::Idle,
        active_jump: None,
        last_msg: "Added".to_owned(),
        last_alive_at: 0,
        total_uptime_ms: 0,
        connect_count: 0,
        fail_count: 0,
    };
    proof {
        assert(t@.tags =~= Seq::empty());
    }
    Ok(t)
}

/// `st` with one more tunnel.
pub open spec fn with_new_tunnel(st: StateView, t: TunnelView) -> StateView {
    StateView { tunnels: st.tunnels.push(t), ..st }
}

/// What a request to add a tunnel does, by what the machine says of the port.
pub open spec fn add_asked<P: Fn(u16) -> bool>(
    st: StateView,
    params: JsonView,
    port_in_use: P,
    now: u64,
    st1: StateView,
    r: ReplyView,
) -> bool {
    match add_allowed(st, params) {
        Err(e) => r == refused(e) && st1 == st,
        Ok(t) => {
            ||| {
                &&& call_ensures(port_in_use, (t.local_port,), true)
                &&& r == refused(ErrorView::PortInUse(t.local_port))
                &&& st1 == st
            }
            ||| {
                &&& call_ensures(port_in_use, (t.local_port,), false)
                &&& r == saved(tunnel_json(t, now))
                &&& st1 == with_new_tunnel(st, t)
            }
        },
    }
}

/// Add a tunnel. `port_in_use` looks whether a local port is bound; it is asked
/// about the tunnel's port alone, once everything else is in order.
pub fn tunnel_add<P: Fn(u16) -> bool>(
    state: &mut State,
    params: &Json,
    port_in_use: P,
    now: u64,
) -> (r: Reply)
    requires
        forall|p: u16| call_requires(port_in_use, (p,)),
    ensures
        add_asked(old(state)@, params@, port_in_use, now, final(state)@, r@),
{
    let t: Tunnel = match read_add(params) {
        Ok(t) => t,
        Err(e) => {
            return Reply::refused(e);
        },
    };
    if state.find_tunnel(t.name.as_str()).is_some() {
        return Reply::refused(
            Error::Duplicate(cat3("tunnel '", t.name.as_str(), "' already exists")),
        );
    }
    if port_taken(state, t.local_port) {
        return Reply::refused(Error::PortInUse(t.local_port));
    }
    if port_in_use(t.local_port) {
        return Reply::refused(Error::PortInUse(t.local_port));
    }
    let snap: Json = tunnel_snapshot(&t, now);
    let ghost before = state@;
    state.tunnels.push(t);
    proof {
        assert(state@.tunnels =~= before.tunnels.push(t@));
    }
    Reply::saved(snap)
}

/// A reply with no content that has a forward launched, where there is one.
pub open spec fn launching(o: Option<OrderView>) -> ReplyView {
    ReplyView {
        result: Ok(JsonView::Null),
        effects: EffectsView { persist: false, kill: None, start: o },
    }
}

/// The records after the start of `name`, and the reply. A tunnel that is up or
/// coming up stays as it is. One to a host itself waits for that host; one to a
/// compute node needs a node, a jump host and an account.
pub open spec fn start_of(st: StateView, name: Seq<char>, default_user: Seq<char>) -> (
    StateView,
    ReplyView,
) {
    match tunnel_at(st, name) {
        None => (st, refused(ErrorView::NotFound(name))),
        Some(i) => {
            let t = st.tunnels[i];
            if t.status == TunnelStatus::Alive || t.status == TunnelStatus::Starting {
                (st, answered(JsonView::Null))
            } else {
                let b = begun(st, i, default_user);
                (b.0, launching(b.1))
            }
        },
    }
}

/// Start the tunnel `name`.
pub(crate) fn start_named(state: &mut State, name: &str, default_user: &str) -> (r: Reply)
    ensures
        (final(state)@, r@) == start_of(old(state)@, name@, default_user@),
{
    let i: usize = match state.find_tunnel(name) {
        Some(i) => i,
        None => {
            return Reply::refused(Error::missing(name));
        },
    };
    proof {
        assert(state@.tunnels[i as int] == state.tunnels@[i as int]@);
    }
    let status: TunnelStatus = state.tunnels[i].status;
    if status == TunnelStatus::Alive || status == TunnelStatus::Starting {
        return Reply::answered(Json::Null);
    }
    let start: Option<StartOrder> = begin_start(state, i, default_user);
    Reply { result: Ok(Json::Null), effects: Effects { persist: false, kill: None, start } }
}

/// What a request to start a tunnel does.
pub open spec fn start_asked(
    st: StateView,
    params: JsonView,
    default_user: Seq<char>,
) -> (StateView, ReplyView) {
    match str_at(params, "name"@) {
        None => (st, refused(ErrorView::BadParams("name required"@))),
        Some(name) => start_of(st, name, default_user),
    }
}

/// Start a tunnel. `default_user` is the account for a tunnel that has none.
pub fn tunnel_start(state: &mut State, params: &Json, default_user: &str) -> (r: Reply)
    ensures
        (final(state)@, r@) == start_asked(old(state)@, params@, default_user@),
{
    match params.str_at("name") {
        None => Reply::refused(Error::bad("name required")),
        Some(name) => start_named(state, name.as_str(), default_user),
    }
}

/// The record of a tunnel that a user stopped.
pub open spec fn stopped(t: TunnelView) -> TunnelView {
    TunnelView {
        wants_alive: false,
        status: TunnelStatus::Idle,
        last_msg: "Stopped"@,
        active_jump: None,
        ..t
    }
}

/// The records after a user's stop of `name`, and the reply. The record of a
/// tunnel that is idle and not wanted stays as it is. The run that ends goes to
/// the tunnel's uptime.
pub open spec fn stop_of(st: StateView, rt: RuntimeView, name: Seq<char>, now: u64) -> (
    StateView,
    RuntimeView,
    ReplyView,
) {
    match tunnel_at(st, name) {
        None => (st, rt, refused(ErrorView::NotFound(name))),
        Some(i) => if st.tunnels[i].status == TunnelStatus::Idle && !st.tunnels[i].wants_alive {
            (st, childless(rt, name), killing(child_of(rt, name), false))
        } else {
            let closed = run_closed(
                with_tunnel(st, i, stopped(st.tunnels[i])),
                childless(rt, name),
                name,
                now,
            );
            (closed.0, closed.1, killing(child_of(rt, name), true))
        },
    }
}

/// A reply with no content that has a process killed, where there is one.
pub open spec fn killing(kill: Option<u64>, persist: bool) -> ReplyView {
    ReplyView {
        result: Ok(JsonView::Null),
        effects: EffectsView { persist, kill, start: None },
    }
}

/// Stop the tunnel `name`.
pub(crate) fn stop_named(
    state: &mut State,
    runtime: &mut TunnelRuntime,
    name: &str,
    now: u64,
) -> (r: Reply)
    ensures
        (final(state)@, final(runtime)@, r@) == stop_of(old(state)@, old(runtime)@, name@, now),
{
    let i: usize = match state.find_tunnel(name) {
        Some(i) => i,
        None => {
            return Reply::refused(Error::missing(name));
        },
    };
    proof {
        assert(state@.tunnels[i as int] == state.tunnels@[i as int]@);
    }
    let kill: Option<u64> = runtime.kill_child(name);
    if state.tunnels[i].status == TunnelStatus::Idle && !state.tunnels[i].wants_alive {
        return Reply {
            result: Ok(Json::Null),
            effects: Effects { persist: false, kill, start: None },
        };
    }
    let t: &mut Tunnel = state.tunnel_mut(i);
    t.wants_alive = false;
    t.status = TunnelStatus::Idle;
    t.last_msg = "Stopped".to_owned();
    t.active_jump = None;
    accumulate_uptime(name, state, runtime, now);
    Reply { result: Ok(Json::Null), effects: Effects { persist: true, kill, start: None } }
}

/// What a request to stop a tunnel does.
pub open spec fn stop_asked(
    st: StateView,
    rt: RuntimeView,
    params: JsonView,
    now: u64,
) -> (StateView, RuntimeView, ReplyView) {
    match str_at(params, "name"@) {
        None => (
            st,
            rt,
            refused(ErrorView::BadParams("name required"@)),
        ),
        Some(name) => stop_of(st, rt, name, now),
    }
}

/// Stop a tunnel, whatever its status. It is no longer wanted, so that no tick and
/// no start under way brings it back, and its process is to be killed.
pub fn tunnel_stop(state: &mut State, params: &Json, runtime: &mut TunnelRuntime, now: u64) -> (r:
    Reply)
    ensures
        (final(state)@, final(runtime)@, r@) == stop_asked(
            old(state)@,
            old(runtime)@,
            params@,
            now,
        ),
{
    match params.str_at("name") {
        None => Reply::refused(Error::bad("name required")),
        Some(name) => stop_named(state, runtime, name.as_str(), now),
    }
}

/// Whether a tunnel is up or coming up.
pub open spec fn is_up(t: TunnelView) -> bool {
    t.status == TunnelStatus::Alive || t.status == TunnelStatus::Starting
}

/// The records after a toggle of `name`, and the reply: a tunnel that is up or
/// coming up is stopped, another started.
pub open spec fn toggle_of(
    st: StateView,
    rt: RuntimeView,
    name: Seq<char>,
    default_user: Seq<char>,
    now: u64,
) -> (StateView, RuntimeView, ReplyView) {
    match tunnel_at(st, name) {
        None => (st, rt, refused(ErrorView::NotFound(name))),
        Some(i) => if is_up(st.tunnels[i]) {
            stop_of(st, rt, name, now)
        } else {
            let s = start_of(st, name, default_user);
            (s.0, rt, s.1)
        },
    }
}

/// What a request to toggle a tunnel does.
pub open spec fn toggle_asked(
    st: StateView,
    rt: RuntimeView,
    params: JsonView,
    default_user: Seq<char>,
    now: u64,
) -> (StateView, RuntimeView, ReplyView) {
    match str_at(params, "name"@) {
        None => (
            st,
            rt,
            refused(ErrorView::BadParams("name required"@)),
        ),
        Some(name) => toggle_of(st, rt, name, default_user, now),
    }
}

/// Stop a tunnel that is up or coming up; start another.
pub fn tunnel_toggle(
    state: &mut State,
    params: &Json,
    runtime: &mut TunnelRuntime,
    default_user: &str,
    now: u64,
) -> (r: Reply)
    ensures
        (final(state)@, final(runtime)@, r@) == toggle_asked(
            old(state)@,
            old(runtime)@,
            params@,
            default_user@,
            now,
        ),
{
    let name: String = match params.str_at("name") {
        None => {
            return Reply::refused(Error::bad("name required"));
        },
        Some(name) => name,
    };
    match state.find_tunnel(name.as_str()) {
        None => Reply::refused(Error::missing(name.as_str())),
        Some(i) => {
            proof {
                assert(state@.tunnels[i as int] == state.tunnels@[i as int]@);
            }
            let status: TunnelStatus = state.tunnels[i].status;
            if status == TunnelStatus::Alive || status == TunnelStatus::Starting {
                stop_named(state, runtime, name.as_str(), now)
            } else {
                start_named(state, name.as_str(), default_user)
            }
        },
    }
}

/// What a request to remove a tunnel does. The process of the name is to be killed
/// even where no tunnel has it.
pub open spec fn remove_asked(st: StateView, rt: RuntimeView, params: JsonView) -> (
    StateView,
    RuntimeView,
    ReplyView,
) {
    match str_at(params, "name"@) {
        None => (st, rt, refused(ErrorView::BadParams("name required"@))),
        Some(name) => match tunnel_at(st, name) {
            None => (
                st,
                with_rt(
                    childless(rt, name),
                    name,
                    TunnelRtState { last_recovery_attempt_ts: 0, ..rt_of(rt, name) },
                ),
                ReplyView {
                    result: Err(ErrorView::NotFound(name)),
                    effects: EffectsView { persist: false, kill: child_of(rt, name), start: None },
                },
            ),
            Some(i) => (
                StateView { tunnels: st.tunnels.remove(i), ..st },
                removed(rt, name),
                ReplyView {
                    result: Ok(JsonView::Null),
                    effects: EffectsView { persist: true, kill: child_of(rt, name), start: None },
                },
            ),
        },
    }
}

/// Remove a tunnel and everything kept of it while it ran. Its process is to be
/// killed even where no tunnel has the name.
pub fn tunnel_remove(state: &mut State, params: &Json, runtime: &mut TunnelRuntime) -> (r: Reply)
    ensures
        (final(state)@, final(runtime)@, r@) == remove_asked(old(state)@, old(runtime)@, params@),
{
    let name: String = match params.str_at("name") {
        None => {
            return Reply::refused(Error::bad("name required"));
        },
        Some(name) => name,
    };
    let ghost rt0 = runtime@;
    let kill: Option<u64> = runtime.kill_child(name.as_str());
    let mut s: TunnelRtState = runtime.get_rt(name.as_str());
    s.last_recovery_attempt_ts = 0;
    runtime.put_rt(name.as_str(), s);
    match state.find_tunnel(name.as_str()) {
        None => Reply {
            result: Err(Error::NotFound(name)),
            effects: Effects { persist: false, kill, start: None },
        },
        Some(i) => {
            let ghost before = state@;
            state.tunnels.remove(i);
            proof {
                assert(state@.tunnels =~= before.tunnels.remove(i as int));
            }
            runtime.remove(name.as_str());
            proof {
                assert(runtime@ =~= removed(rt0, name@));
            }
            Reply { result: Ok(Json::Null), effects: Effects { persist: true, kill, start: None } }
        },
    }
}

/// The first node of a node list: what stands before a bracket, and the first
/// entry in it. A plain name is its own first node.
pub open spec fn first_node(s: Seq<char>) -> Seq<char> {
    let open = next_stop(s, 0, seq!['[']);
    if open >= s.len() {
        s
    } else {
        s.take(open) + s.subrange(open + 1, next_stop(s, open + 1, seq![',', '-', ']']))
    }
}

/// The first node of a node list, and whether the list was one with a bracket.
pub fn expand_first_node(raw: &str) -> (r: (String, bool))
    ensures
        r.0@ == first_node(raw@),
        r.1 == raw@.contains('['),
{
    let v: Vec<char> = chars_of(raw);
    let bracket: Vec<char> = vec!['['];
    let ends: Vec<char> = vec![',', '-', ']'];
    proof {
        assert(bracket@ =~= seq!['[']);
        assert(ends@ =~= seq![',', '-', ']']);
        lemma_next_stop(raw@, 0, bracket@);
    }
    let open: usize = find_stop(&v, 0, &bracket);
    if open >= v.len() {
        proof {
            assert forall|j: int| 0 <= j < raw@.len() implies raw@[j] != '[' by {
                assert(bracket@[0] == '[');
            }
        }
        (raw.to_owned(), false)
    } else {
        let end: usize = find_stop(&v, open + 1, &ends);
        let head: &str = raw.substring_char(0, open);
        let first: &str = raw.substring_char(open + 1, end);
        proof {
            assert(raw@[open as int] == '[');
            assert(raw@.subrange(0, open as int) =~= raw@.take(open as int));
        }
        (cat2(head, first), true)
    }
}

/// The record of a tunnel with another node.
pub open spec fn node_set(t: TunnelView, node: Seq<char>, user: Seq<char>) -> TunnelView {
    TunnelView {
        last_node: Some(node),
        last_user: if user.len() > 0 {
            Some(user)
        } else {
            t.last_user
        },
        last_msg: "Node set to "@ + node,
        ..t
    }
}

/// The text under `key`, or the empty text.
pub open spec fn str_or_empty(params: JsonView, key: Seq<char>) -> Seq<char> {
    match str_at(params, key) {
        Some(s) => s,
        None => Seq::empty(),
    }
}

/// The records once a tunnel has another node, and the reply. The misses counted
/// against the old node are forgotten. Unless the request says not to, a tunnel
/// that is down is started, and one that is up is restarted where the node is
/// another.
pub open spec fn node_change(
    st: StateView,
    rt: RuntimeView,
    name: Seq<char>,
    node: Seq<char>,
    user: Seq<char>,
    do_start: bool,
    default_user: Seq<char>,
    now: u64,
) -> (StateView, RuntimeView, ReplyView) {
    match tunnel_at(st, name) {
        None => (st, rt, refused(ErrorView::NotFound(name))),
        Some(i) => {
            let t = st.tunnels[i];
            let st1 = with_tunnel(st, i, node_set(t, node, user));
            let rt1 = with_rt(
                rt,
                name,
                TunnelRtState { consecutive_squeue_misses: 0, ..rt_of(rt, name) },
            );
            if !do_start || (is_up(t) && t.last_node == Some(node)) {
                (st1, rt1, saved(JsonView::Null))
            } else if is_up(t) {
                let s = stop_of(st1, rt1, name, now);
                let g = start_of(s.0, name, default_user);
                (
                    g.0,
                    s.1,
                    ReplyView {
                        result: Ok(JsonView::Null),
                        effects: EffectsView {
                            persist: true,
                            kill: s.2.effects.kill,
                            start: g.1.effects.start,
                        },
                    },
                )
            } else {
                let g = start_of(st1, name, default_user);
                (
                    g.0,
                    rt1,
                    ReplyView {
                        result: Ok(JsonView::Null),
                        effects: EffectsView {
                            persist: true,
                            kill: None,
                            start: g.1.effects.start,
                        },
                    },
                )
            }
        },
    }
}

/// What a request to give a tunnel another node does.
pub open spec fn node_asked(
    st: StateView,
    rt: RuntimeView,
    params: JsonView,
    default_user: Seq<char>,
    now: u64,
) -> (StateView, RuntimeView, ReplyView) {
    match str_at(params, "name"@) {
        None => (
            st,
            rt,
            refused(ErrorView::BadParams("name required"@)),
        ),
        Some(name) => match str_at(params, "node"@) {
            None => (
                st,
                rt,
                refused(ErrorView::BadParams("node required"@)),
            ),
            Some(raw) => node_change(
                st,
                rt,
                name,
                first_node(raw),
                str_or_empty(params, "user"@),
                bool_at(params, "start"@) != Some(false),
                default_user,
                now,
            ),
        },
    }
}

/// Give a tunnel another node, and an account where the request has one.
pub fn tunnel_set_node(
    state: &mut State,
    params: &Json,
    runtime: &mut TunnelRuntime,
    default_user: &str,
    now: u64,
) -> (r: Reply)
    ensures
        (final(state)@, final(runtime)@, r@) == node_asked(
            old(state)@,
            old(runtime)@,
            params@,
            default_user@,
            now,
        ),
{
    let name: String = match params.str_at("name") {
        None => {
            return Reply::refused(Error::bad("name required"));
        },
        Some(name) => name,
    };
    let raw: String = match params.str_at("node") {
        None => {
            return Reply::refused(Error::bad("node required"));
        },
        Some(raw) => raw,
    };
    let (node, _ranged): (String, bool) = expand_first_node(raw.as_str());
    let user: String = match params.str_at("user") {
        Some(u) => u,
        None => String::new(),
    };
    let do_start: bool = match params.bool_at("start") {
        Some(b) => b,
        None => true,
    };
    let i: usize = match state.find_tunnel(name.as_str()) {
        None => {
            return Reply::refused(Error::NotFound(name));
        },
        Some(i) => i,
    };
    let ghost st0 = state@;
    proof {
        assert(state@.tunnels[i as int] == state.tunnels@[i as int]@);
    }
    let status: TunnelStatus = state.tunnels[i].status;
    let same: bool = match &state.tunnels[i].last_node {
        Some(n) => same_text(n.as_str(), node.as_str()),
        None => false,
    };
    let up: bool = status == TunnelStatus::Alive || status == TunnelStatus::Starting;
    let t: &mut Tunnel = state.tunnel_mut(i);
    t.last_node = Some(node.clone());
    if !user.as_str().is_empty() {
        t.last_user = Some(user);
    }
    t.last_msg = cat2("Node set to ", node.as_str());
    let mut s: TunnelRtState = runtime.get_rt(name.as_str());
    s.consecutive_squeue_misses = 0;
    runtime.put_rt(name.as_str(), s);
    proof {
        lemma_same_place(st0, state@, i as int, name@);
    }
    if !do_start || (up && same) {
        return Reply::saved(Json::Null);
    }
    let mut kill: Option<u64> = None;
    if up {
        let stop: Reply = stop_named(state, runtime, name.as_str(), now);
        kill = stop.effects.kill;
    }
    let go: Reply = start_named(state, name.as_str(), default_user);
    Reply {
        result: Ok(Json::Null),
        effects: Effects { persist: true, kill, start: go.effects.start },
    }
}

/// A change of record `i` that keeps its name leaves every name where it was.
proof fn lemma_same_place(st: StateView, st2: StateView, i: int, name: Seq<char>)
    requires
        0 <= i < st.tunnels.len(),
        st2.tunnels.len() == st.tunnels.len(),
        forall|j: int|
            0 <= j < st.tunnels.len() ==> (#[trigger] st2.tunnels[j]).name == st.tunnels[j].name,
    ensures
        tunnel_at(st2, name) == tunnel_at(st, name),
{
    assert(tunnel_names(st2.tunnels) =~= tunnel_names(st.tunnels));
}

/// An event in a reply.
pub open spec fn event_json(e: EventView) -> JsonView {
    JsonView::Obj(
        Map::empty().insert("ts"@, seconds_json(e.ts as nat)).insert("msg"@, JsonView::Str(e.msg)),
    )
}

/// What a request for the events of a tunnel gets.
pub open spec fn events_asked(st: StateView, rt: RuntimeView, params: JsonView) -> ReplyView {
    match str_at(params, "name"@) {
        None => refused(ErrorView::BadParams("name required"@)),
        Some(name) => match tunnel_at(st, name) {
            None => refused(ErrorView::NotFound(name)),
            Some(_) => answered(
                JsonView::Obj(
                    Map::empty().insert(
                        "events"@,
                        JsonView::Arr(
                            events_of(rt, name).map_values(|e: EventView| event_json(e)),
                        ),
                    ),
                ),
            ),
        },
    }
}

/// The events of a tunnel, oldest first.
pub fn tunnel_events(state: &State, params: &Json, runtime: &TunnelRuntime) -> (r: Reply)
    ensures
        r@ == events_asked(state@, runtime@, params@),
{
    let name: String = match params.str_at("name") {
        None => {
            return Reply::refused(Error::bad("name required"));
        },
        Some(name) => name,
    };
    if state.find_tunnel(name.as_str()).is_none() {
        return Reply::refused(Error::NotFound(name));
    }
    let events: Vec<TunnelEvent> = runtime.events(name.as_str());
    let ghost seen = events_view(events@);
    let mut out: Items = Items::new();
    let mut i: usize = 0;
    proof {
        assert(out@ =~= seen.take(0).map_values(|e: EventView| event_json(e)));
    }
    while i < events.len()
        invariant
            i <= events@.len(),
            seen == events_view(events@),
            out@ == seen.take(i as int).map_values(|e: EventView| event_json(e)),
        decreases events@.len() - i,
    {
        let mut f: Fields = Fields::new();
        f.put("ts", Json::from_seconds(events[i].ts));
        f.put("msg", Json::text(events[i].msg.as_str()));
        out.push(f.done());
        proof {
            assert(out@ =~= seen.take(i + 1).map_values(|e: EventView| event_json(e)));
        }
        i += 1;
    }
    proof {
        assert(seen.take(i as int) =~= seen);
    }
    let mut f: Fields = Fields::new();
    f.put("events", out.done());
    Reply::answered(f.done())
}

/// A tunnel that may be added takes neither a name nor a local port that another
/// has, so both stay distinct.
pub proof fn law_an_added_tunnel_is_distinct(st: StateView, params: JsonView)
    requires
        tunnel_names(st.tunnels).no_duplicates(),
        local_ports(st.tunnels).no_duplicates(),
        add_allowed(st, params) is Ok,
    ensures
        ({
            let after = with_new_tunnel(st, add_allowed(st, params)->Ok_0);
            &&& tunnel_names(after.tunnels).no_duplicates()
            &&& local_ports(after.tunnels).no_duplicates()
        }),
{
    let t = add_allowed(st, params)->Ok_0;
    let after = with_new_tunnel(st, t);
    lemma_first(tunnel_names(st.tunnels), t.name);
    assert(tunnel_names(after.tunnels) =~= tunnel_names(st.tunnels).push(t.name));
    assert(local_ports(after.tunnels) =~= local_ports(st.tunnels).push(t.local_port));
    if local_ports(st.tunnels).contains(t.local_port) {
        let k = choose|k: int|
            0 <= k < local_ports(st.tunnels).len() && local_ports(st.tunnels)[k] == t.local_port;
        assert(st.tunnels[k].local_port == t.local_port);
    }
}

/// Once a user stopped a tunnel, it is idle and no longer wanted and has no
/// process, the other tunnels and the hosts are as they were, a second stop
/// changes nothing, and every tick leaves it down.
pub proof fn law_a_stopped_tunnel_stays_down(
    st: StateView,
    rt: RuntimeView,
    name: Seq<char>,
    now: u64,
    later: u64,
    child_alive: Option<bool>,
    port_bound: bool,
    jump_active: Option<bool>,
    last_recovery_ts: u64,
    last_squeue_ts: u64,
    is_direct: bool,
)
    requires
        tunnel_at(st, name) is Some,
    ensures
        ({
            let i = tunnel_at(st, name)->Some_0;
            let (after, rt1, reply) = stop_of(st, rt, name, now);
            let t = after.tunnels[i];
            &&& tunnel_at(after, name) == Some(i)
            &&& t.status == TunnelStatus::Idle
            &&& !t.wants_alive
            &&& child_of(rt1, name) is None
            &&& reply.result == Ok::<_, ErrorView>(JsonView::Null)
            &&& reply.effects.kill == child_of(rt, name)
            &&& after.hosts == st.hosts
            &&& after.tunnels.len() == st.tunnels.len()
            &&& forall|j: int|
                0 <= j < st.tunnels.len() && j != i ==> #[trigger] after.tunnels[j]
                    == st.tunnels[j]
            &&& stop_of(after, rt1, name, later) == (after, rt1, answered(JsonView::Null))
            &&& decided(
                kind_of(t.status),
                t.wants_alive,
                child_alive,
                port_bound,
                jump_active,
                last_recovery_ts,
                last_squeue_ts,
                later,
                is_direct,
            ) == TunnelAction::Skip
        }),
{
    let i = tunnel_at(st, name)->Some_0;
    lemma_first(tunnel_names(st.tunnels), name);
    let halted = with_tunnel(st, i, stopped(st.tunnels[i]));
    assert(tunnel_names(halted.tunnels) =~= tunnel_names(st.tunnels));
    let (after, rt1, reply) = stop_of(st, rt, name, now);
    assert(tunnel_names(after.tunnels) =~= tunnel_names(st.tunnels));
    assert(rt1.children.remove(name) =~= rt1.children);
}

/// Stopping a tunnel aborts an attempt to start it: where the forward comes up
/// after the stop, the tunnel stays stopped and the forward is to be stopped,
/// whether a user asked for the start or a recovery did.
pub proof fn law_a_stop_aborts_a_start(
    st: StateView,
    rt: RuntimeView,
    name: Seq<char>,
    now: u64,
    jump: Seq<char>,
    node: Seq<char>,
    local_port: u16,
    remote_port: u16,
    child: u64,
    later: u64,
)
    requires
        tunnel_at(st, name) is Some,
    ensures
        ({
            let (after, rt1, _) = stop_of(st, rt, name, now);
            let up = OutcomeView::Ready(child);
            let asked = asked_finished(after, rt1, name, jump, node, remote_port, up, later);
            let recovered = finished(
                after,
                rt1,
                name,
                jump,
                node,
                local_port,
                remote_port,
                up,
                later,
            );
            &&& asked.0 == after && recovered.st == after
            &&& child_of(asked.1, name) is None && child_of(recovered.rt, name) is None
            &&& asked.2 == Some(child) && recovered.kill == Some(child)
            &&& !asked.3.ok && !recovered.up
        }),
{
    law_a_stopped_tunnel_stays_down(
        st,
        rt,
        name,
        now,
        later,
        None,
        false,
        None,
        0,
        0,
        false,
    );
}

/// Removing a tunnel aborts an attempt to start it: where the forward comes up
/// after the removal, no tunnel comes back and the forward is to be stopped.
pub proof fn law_a_removal_aborts_a_start(
    st: StateView,
    rt: RuntimeView,
    params: JsonView,
    name: Seq<char>,
    jump: Seq<char>,
    node: Seq<char>,
    local_port: u16,
    remote_port: u16,
    child: u64,
    later: u64,
)
    requires
        str_at(params, "name"@) == Some(name),
        tunnel_at(st, name) is Some,
        tunnel_names(st.tunnels).no_duplicates(),
    ensures
        ({
            let (after, rt1, _) = remove_asked(st, rt, params);
            let up = OutcomeView::Ready(child);
            let asked = asked_finished(after, rt1, name, jump, node, remote_port, up, later);
            let recovered = finished(
                after,
                rt1,
                name,
                jump,
                node,
                local_port,
                remote_port,
                up,
                later,
            );
            &&& tunnel_at(after, name) is None
            &&& asked.0 == after && recovered.st == after
            &&& child_of(asked.1, name) is None && child_of(recovered.rt, name) is None
            &&& asked.2 == Some(child) && recovered.kill == Some(child)
            &&& !asked.3.ok && !recovered.up
        }),
{
    let i = tunnel_at(st, name)->Some_0;
    let after = remove_asked(st, rt, params).0;
    let names = tunnel_names(st.tunnels);
    lemma_first(names, name);
    lemma_first(tunnel_names(after.tunnels), name);
    assert(tunnel_names(after.tunnels) =~= names.remove(i));
    if tunnel_names(after.tunnels).contains(name) {
        let k = choose|k: int|
            0 <= k < names.remove(i).len() && names.remove(i)[k] == name;
        let j = if k < i {
            k
        } else {
            k + 1
        };
        assert(names[j] == names[i]);
    }
}

/// Starting a tunnel that is up or coming up changes nothing.
pub proof fn law_starting_what_is_up_changes_nothing(
    st: StateView,
    name: Seq<char>,
    default_user: Seq<char>,
)
    requires
        tunnel_at(st, name) is Some,
        is_up(st.tunnels[tunnel_at(st, name)->Some_0]),
    ensures
        start_of(st, name, default_user) == (st, answered(JsonView::Null)),
{
}

/// Whether a request names a tunnel: the first in the list that carries the name.
pub open spec fn asks_for(st: StateView, m: Map<Seq<char>, JsonView>, name: Seq<char>, i: int) -> bool {
    &&& m.contains_key("name"@)
    &&& m["name"@] == JsonView::Str(name)
    &&& 0 <= i < st.tunnels.len()
    &&& st.tunnels[i].name == name
    &&& forall|j: int| 0 <= j < i ==> (#[trigger] st.tunnels[j]).name != name
}

/// A request to start a tunnel that is down orders its forward: straight to its host
/// where it has one, and else to its node through a connected jump host, one of its
/// candidates where it has any. The tunnel is then starting and wanted. Nothing is
/// killed, and no other record changes; a tunnel that is up stays as it is.
pub proof fn law_a_start_goes_where_its_tunnel_says(
    st: StateView,
    m: Map<Seq<char>, JsonView>,
    name: Seq<char>,
    i: int,
    default_user: Seq<char>,
)
    requires
        asks_for(st, m, name, i),
    ensures
        ({
            let t = st.tunnels[i];
            let (after, r) = start_asked(st, JsonView::Obj(m), default_user);
            let t1 = after.tunnels[i];
            &&& r.result is Ok
            &&& r.effects.kill is None && !r.effects.persist
            &&& after.hosts == st.hosts
            &&& after.tunnels.len() == st.tunnels.len()
            &&& forall|j: int|
                0 <= j < st.tunnels.len() && j != i ==> #[trigger] after.tunnels[j] == st.tunnels[j]
            &&& t.status == TunnelStatus::Alive || t.status == TunnelStatus::Starting ==> after == st
                && r.effects.start is None
            &&& r.effects.start matches Some(o) ==> {
                &&& o.name == name
                &&& o.local_port == t.local_port
                &&& o.remote_port == t.remote_port
                &&& t1.status == TunnelStatus::Starting
                &&& t1.wants_alive
                &&& match o.spec {
                    SpecView::Direct { host } => t.direct_host == Some(host) && t1.active_jump
                        == Some(host),
                    SpecView::Compute { jump, user, node } => {
                        &&& t.direct_host is None
                        &&& t.last_node == Some(node)
                        &&& t.last_user == Some(user) || (t.last_user is None && user
                            == default_user)
                        &&& t1.active_jump == Some(jump)
                        &&& t.jump_candidates matches Some(cs) ==> cs.contains(jump)
                        &&& exists|k: int|
                            0 <= k < st.hosts.len() && (#[trigger] st.hosts[k]).host == jump
                                && st.hosts[k].is_master_ready
                    },
                }
            }
            &&& r.effects.start is None ==> t1.status == t.status || t1.status == TunnelStatus::Idle
                || t1.status == TunnelStatus::Failed
        }),
{
    law_a_name_addresses_the_first_tunnel(st, name, i);
    if begun(st, i, default_user).1 is Some {
        law_an_order_goes_where_its_tunnel_says(st, i, default_user);
    }
}

/// A request to start a tunnel that is down is not put off where it has what it needs:
/// its own host, or a node, an account and a candidate, with a connection.
pub proof fn law_a_start_that_can_go_goes(
    st: StateView,
    m: Map<Seq<char>, JsonView>,
    name: Seq<char>,
    i: int,
    default_user: Seq<char>,
    k: int,
)
    requires
        asks_for(st, m, name, i),
        st.tunnels[i].status != TunnelStatus::Alive,
        st.tunnels[i].status != TunnelStatus::Starting,
        0 <= k < st.hosts.len(),
        st.hosts[k].is_master_ready,
        ({
            let t = st.tunnels[i];
            ||| t.direct_host == Some(st.hosts[k].host)
            ||| {
                &&& t.direct_host is None
                &&& t.last_node is Some
                &&& t.jump_candidates matches Some(cs) ==> cs.contains(st.hosts[k].host)
                &&& match t.last_user {
                    Some(u) => u.len() > 0,
                    None => default_user.len() > 0,
                }
            }
        }),
    ensures
        start_asked(st, JsonView::Obj(m), default_user).1.effects.start is Some,
{
    law_a_name_addresses_the_first_tunnel(st, name, i);
    law_a_start_is_put_off_only_for_want_of_something(st, i, default_user, k);
}

/// A request to stop a tunnel leaves it idle, not wanted and without a process, which
/// is to be killed; the run that ends is added to its uptime. Its target, ports and
/// settings stay, and no other record changes.
pub proof fn law_a_stop_stops_one_tunnel(
    st: StateView,
    rt: RuntimeView,
    m: Map<Seq<char>, JsonView>,
    name: Seq<char>,
    i: int,
    now: u64,
)
    requires
        asks_for(st, m, name, i),
    ensures
        ({
            let t = st.tunnels[i];
            let (after, rt1, r) = stop_asked(st, rt, JsonView::Obj(m), now);
            let t1 = after.tunnels[i];
            &&& r.result is Ok
            &&& r.effects.start is None
            &&& r.effects.kill == (if rt.children.contains_key(name) {
                Some(rt.children[name])
            } else {
                None
            })
            &&& !rt1.children.contains_key(name)
            &&& forall|n: Seq<char>|
                n != name && #[trigger] rt.children.contains_key(n) ==> rt1.children.contains_key(n)
                    && rt1.children[n] == rt.children[n]
            &&& t1.status == TunnelStatus::Idle
            &&& !t1.wants_alive
            &&& t.status != TunnelStatus::Idle || t.wants_alive ==> t1.active_jump is None
                && r.effects.persist
            &&& t1.name == name && t1.local_port == t.local_port && t1.remote_port == t.remote_port
            &&& t1.last_node == t.last_node && t1.last_user == t.last_user && t1.jump_candidates
                == t.jump_candidates && t1.direct_host == t.direct_host && t1.auto_start
                == t.auto_start
            &&& t1.fail_count == t.fail_count && t1.connect_count == t.connect_count
            &&& t.status == TunnelStatus::Alive && rt.rt.contains_key(name)
                && rt.rt[name].alive_since is Some ==> {
                let began = rt.rt[name].alive_since->Some_0;
                began <= now && t.total_uptime_ms + now - began <= u64::MAX ==> t1.total_uptime_ms
                    == t.total_uptime_ms + now - began
            }
            &&& t1.total_uptime_ms >= t.total_uptime_ms
            &&& after.hosts == st.hosts
            &&& after.tunnels.len() == st.tunnels.len()
            &&& forall|j: int|
                0 <= j < st.tunnels.len() && j != i ==> #[trigger] after.tunnels[j] == st.tunnels[j]
        }),
{
    law_a_name_addresses_the_first_tunnel(st, name, i);
    let halted = with_tunnel(st, i, stopped(st.tunnels[i]));
    assert(tunnel_names(halted.tunnels) =~= tunnel_names(st.tunnels));
}

/// A toggle stops a tunnel that is alive or starting and starts any other: the one
/// does what a request to stop it does, the other what a request to start it does.
pub proof fn law_a_toggle_stops_or_starts(
    st: StateView,
    rt: RuntimeView,
    m: Map<Seq<char>, JsonView>,
    name: Seq<char>,
    i: int,
    default_user: Seq<char>,
    now: u64,
)
    requires
        asks_for(st, m, name, i),
    ensures
        ({
            let t = st.tunnels[i];
            let (after, rt1, r) = toggle_asked(st, rt, JsonView::Obj(m), default_user, now);
            if t.status == TunnelStatus::Alive || t.status == TunnelStatus::Starting {
                &&& (after, rt1, r) == stop_asked(st, rt, JsonView::Obj(m), now)
                &&& after.tunnels[i].status == TunnelStatus::Idle
                &&& !after.tunnels[i].wants_alive
                &&& r.effects.start is None
                &&& !rt1.children.contains_key(name)
            } else {
                &&& (after, r) == start_asked(st, JsonView::Obj(m), default_user)
                &&& rt1 == rt
                &&& r.effects.kill is None
                &&& r.effects.start is Some ==> after.tunnels[i].status == TunnelStatus::Starting
            }
        }),
{
    law_a_name_addresses_the_first_tunnel(st, name, i);
    law_a_stop_stops_one_tunnel(st, rt, m, name, i, now);
    law_a_start_goes_where_its_tunnel_says(st, m, name, i, default_user);
}

/// A removed tunnel is gone from the list, and the others stay in their order; its
/// process is to be killed, and nothing is kept of it.
pub proof fn law_a_removal_takes_one_tunnel(
    st: StateView,
    rt: RuntimeView,
    m: Map<Seq<char>, JsonView>,
    name: Seq<char>,
    i: int,
)
    requires
        asks_for(st, m, name, i),
    ensures
        ({
            let (after, rt1, r) = remove_asked(st, rt, JsonView::Obj(m));
            &&& r.result is Ok
            &&& r.effects.persist
            &&& r.effects.start is None
            &&& r.effects.kill == (if rt.children.contains_key(name) {
                Some(rt.children[name])
            } else {
                None
            })
            &&& !rt1.children.contains_key(name) && !rt1.rt.contains_key(name)
                && !rt1.events.contains_key(name)
            &&& after.hosts == st.hosts
            &&& after.tunnels.len() == st.tunnels.len() - 1
            &&& forall|j: int| 0 <= j < i ==> #[trigger] after.tunnels[j] == st.tunnels[j]
            &&& forall|j: int|
                i <= j < after.tunnels.len() ==> #[trigger] after.tunnels[j] == st.tunnels[j + 1]
        }),
{
    law_a_name_addresses_the_first_tunnel(st, name, i);
}

/// A request about a tunnel that is not known is refused as such, whatever it asks for,
/// and changes no tunnel; only a process left under the name is still killed where a
/// removal is asked for.
pub proof fn law_an_unknown_tunnel_is_refused(
    st: StateView,
    rt: RuntimeView,
    m: Map<Seq<char>, JsonView>,
    name: Seq<char>,
    default_user: Seq<char>,
    now: u64,
)
    requires
        m.contains_key("name"@),
        m["name"@] == JsonView::Str(name),
        forall|j: int| 0 <= j < st.tunnels.len() ==> (#[trigger] st.tunnels[j]).name != name,
    ensures
        ({
            let p = JsonView::Obj(m);
            let missing = Err::<JsonView, _>(ErrorView::NotFound(name));
            &&& start_asked(st, p, default_user).0 == st
            &&& start_asked(st, p, default_user).1.result == missing
            &&& start_asked(st, p, default_user).1.effects.start is None
            &&& stop_asked(st, rt, p, now).0 == st && stop_asked(st, rt, p, now).1 == rt
            &&& stop_asked(st, rt, p, now).2.result == missing
            &&& toggle_asked(st, rt, p, default_user, now).0 == st
            &&& toggle_asked(st, rt, p, default_user, now).2.result == missing
            &&& remove_asked(st, rt, p).0 == st
            &&& remove_asked(st, rt, p).2.result == missing
            &&& !remove_asked(st, rt, p).2.effects.persist && !stop_asked(st, rt, p, now).2.effects.persist
            &&& remove_asked(st, rt, p).2.effects.start is None
            &&& rt.children.contains_key(name) ==> remove_asked(st, rt, p).2.effects.kill == Some(
                rt.children[name],
            )
            &&& events_asked(st, rt, p).result == missing
            &&& m.contains_key("node"@) && m["node"@] is Str ==> {
                &&& node_asked(st, rt, p, default_user, now).0 == st
                &&& node_asked(st, rt, p, default_user, now).1 == rt
                &&& node_asked(st, rt, p, default_user, now).2.result == missing
            }
        }),
{
    law_a_name_addresses_the_first_tunnel(st, name, 0);
}

/// A tunnel that is given another node goes there from then on: the node is on its
/// record, the account too where the request has one, the misses of the old node are
/// forgotten and the list is saved. Where the request does not say to leave it, a
/// tunnel that was up over another node loses its process, and a forward that is
/// ordered goes to the new node, through a candidate. Told not to start, the tunnel
/// keeps its status and its process.
pub proof fn law_a_new_node_is_gone_to(
    st: StateView,
    rt: RuntimeView,
    m: Map<Seq<char>, JsonView>,
    name: Seq<char>,
    i: int,
    raw: Seq<char>,
    default_user: Seq<char>,
    now: u64,
)
    requires
        asks_for(st, m, name, i),
        m.contains_key("node"@),
        m["node"@] == JsonView::Str(raw),
        !raw.contains('['),
    ensures
        ({
            let t = st.tunnels[i];
            let (after, rt1, r) = node_asked(st, rt, JsonView::Obj(m), default_user, now);
            let t1 = after.tunnels[i];
            let up = t.status == TunnelStatus::Alive || t.status == TunnelStatus::Starting;
            let told_not_to = m.contains_key("start"@) && m["start"@] == JsonView::Bool(false);
            &&& r.result is Ok
            &&& r.effects.persist
            &&& t1.last_node == Some(raw)
            &&& t1.name == name && t1.local_port == t.local_port && t1.jump_candidates
                == t.jump_candidates
            &&& rt1.rt.contains_key(name) && rt1.rt[name].consecutive_squeue_misses == 0
            &&& (m.contains_key("user"@) && m["user"@] is Str && m["user"@]->Str_0.len() > 0
                ==> t1.last_user == Some(m["user"@]->Str_0))
            &&& !m.contains_key("user"@) ==> t1.last_user == t.last_user
            &&& told_not_to || (up && t.last_node == Some(raw)) ==> {
                &&& r.effects.kill is None && r.effects.start is None
                &&& t1.status == t.status && t1.wants_alive == t.wants_alive
                &&& rt1.children == rt.children
            }
            &&& !told_not_to && up && t.last_node != Some(raw) ==> {
                &&& r.effects.kill == (if rt.children.contains_key(name) {
                    Some(rt.children[name])
                } else {
                    None
                })
                &&& !rt1.children.contains_key(name)
            }
            &&& !told_not_to && !up ==> r.effects.kill is None && rt1.children == rt.children
            &&& r.effects.start matches Some(o) ==> {
                &&& o.name == name
                &&& t1.status == TunnelStatus::Starting
                &&& t1.wants_alive
                &&& o.spec matches SpecView::Compute { jump, user, node } ==> {
                    &&& node == raw
                    &&& t.jump_candidates matches Some(cs) ==> cs.contains(jump)
                }
            }
            &&& after.hosts == st.hosts
            &&& after.tunnels.len() == st.tunnels.len()
            &&& forall|j: int|
                0 <= j < st.tunnels.len() && j != i ==> #[trigger] after.tunnels[j] == st.tunnels[j]
        }),
{
    let t = st.tunnels[i];
    law_a_name_addresses_the_first_tunnel(st, name, i);
    law_the_first_node_of_a_list(raw, Seq::empty(), Seq::empty(), Seq::empty());
    let user = str_or_empty(JsonView::Obj(m), "user"@);
    let st1 = with_tunnel(st, i, node_set(t, raw, user));
    let rt1 = with_rt(rt, name, TunnelRtState { consecutive_squeue_misses: 0, ..rt_of(rt, name) });
    lemma_same_place(st, st1, i, name);
    if begun(st1, i, default_user).1 is Some {
        law_an_order_goes_where_its_tunnel_says(st1, i, default_user);
    }
    let halted = with_tunnel(st1, i, stopped(st1.tunnels[i]));
    lemma_same_place(st, halted, i, name);
    let s = stop_of(st1, rt1, name, now);
    lemma_same_place(st, s.0, i, name);
    if begun(s.0, i, default_user).1 is Some {
        law_an_order_goes_where_its_tunnel_says(s.0, i, default_user);
    }
}

/// A name without a bracket is its own first node. Of a list with a bracket the first
/// node is what stands before it, followed by what stands in it up to the first comma,
/// dash or closing bracket.
pub proof fn law_the_first_node_of_a_list(
    plain: Seq<char>,
    head: Seq<char>,
    first: Seq<char>,
    rest: Seq<char>,
)
    ensures
        !plain.contains('[') ==> first_node(plain) == plain,
        !head.contains('[') && !first.contains(',') && !first.contains('-') && !first.contains(']')
            && (rest.len() > 0 ==> rest[0] == ',' || rest[0] == '-' || rest[0] == ']')
            ==> first_node(head + seq!['['] + first + rest) == head + first,
{
    let bracket = seq!['['];
    let ends = seq![',', '-', ']'];
    if !plain.contains('[') {
        lemma_next_stop(plain, 0, bracket);
        let open = next_stop(plain, 0, bracket);
        if open < plain.len() {
            assert(bracket.contains(plain[open]));
            assert(plain[open] == '[');
        }
    }
    if !head.contains('[') && !first.contains(',') && !first.contains('-') && !first.contains(']')
        && (rest.len() > 0 ==> rest[0] == ',' || rest[0] == '-' || rest[0] == ']') {
        let s = head + seq!['['] + first + rest;
        let h = head.len() as int;
        let e = h + 1 + first.len();
        lemma_next_stop(s, 0, bracket);
        let open = next_stop(s, 0, bracket);
        assert(s[h] == '[');
        assert(bracket[0] == '[');
        assert(bracket.contains(s[h]));
        if open < h {
            assert(bracket.contains(s[open]));
            assert(s[open] == head[open]);
            assert(head.contains('['));
        }
        assert(open == h);
        lemma_next_stop(s, h + 1, ends);
        let end = next_stop(s, h + 1, ends);
        assert(ends[0] == ',' && ends[1] == '-' && ends[2] == ']');
        if end < e {
            assert(ends.contains(s[end]));
            assert(s[end] == first[end - h - 1]);
        }
        if rest.len() > 0 {
            assert(s[e] == rest[0]);
            assert(ends.contains(s[e]));
        }
        assert(end == e);
        assert(s.take(h) =~= head);
        assert(s.subrange(h + 1, e) =~= first);
    }
}

/// A tunnel is added as its request says: under its name, on its local port, to its
/// remote port or else the same one, and to its host where it names one. It begins
/// idle, not wanted, and without a node or a jump host. That is granted exactly where
/// the ports are in range and neither the name nor the local port is another tunnel's.
pub proof fn law_a_tunnel_is_added_as_asked(
    st: StateView,
    m: Map<Seq<char>, JsonView>,
    name: Seq<char>,
    port: u64,
)
    requires
        m.contains_key("name"@),
        m["name"@] == JsonView::Str(name),
        m.contains_key("local_port"@),
        m["local_port"@] == JsonView::Uint(port),
        !m.contains_key("direct_host"@),
        m.contains_key("remote_port"@) ==> m["remote_port"@] is Uint,
    ensures
        ({
            let r = add_allowed(st, JsonView::Obj(m));
            &&& r is Ok <==> {
                &&& 1024 <= port <= 65535
                &&& m.contains_key("remote_port"@) ==> m["remote_port"@]->Uint_0 <= 65535
                &&& forall|j: int|
                    0 <= j < st.tunnels.len() ==> (#[trigger] st.tunnels[j]).name != name
                        && st.tunnels[j].local_port != port
            }
            &&& r matches Ok(t) ==> {
                &&& t.name == name
                &&& t.local_port == port
                &&& t.remote_port == (if m.contains_key("remote_port"@) {
                    m["remote_port"@]->Uint_0
                } else {
                    port
                })
                &&& t.direct_host is None && t.last_node is None && t.jump_candidates is None
                    && t.active_jump is None
                &&& t.status == TunnelStatus::Idle && !t.wants_alive && !t.auto_start
                &&& t.connect_count == 0 && t.fail_count == 0 && t.total_uptime_ms == 0
                &&& t.last_alive_at == 0
            }
            &&& 1024 <= port <= 65535 && (m.contains_key("remote_port"@)
                ==> m["remote_port"@]->Uint_0 <= 65535) && (exists|j: int|
                0 <= j < st.tunnels.len() && (#[trigger] st.tunnels[j]).name == name) ==> (
            r matches Err(ErrorView::Duplicate(_)))
        }),
{
    law_a_name_addresses_the_first_tunnel(st, name, 0);
    if exists|j: int| 0 <= j < st.tunnels.len() && (#[trigger] st.tunnels[j]).local_port == port {
        assert(holds_port(st, port as u16));
    }
}

/// Adding a tunnel puts it at the end of the list and saves the list; a request that
/// is refused, by the records or for a port in use, changes nothing.
pub proof fn law_an_addition_adds_one_tunnel<P: Fn(u16) -> bool>(
    st: StateView,
    params: JsonView,
    port_in_use: P,
    now: u64,
    after: StateView,
    r: ReplyView,
)
    requires
        add_asked(st, params, port_in_use, now, after, r),
    ensures
        after.hosts == st.hosts,
        r.effects.kill is None && r.effects.start is None,
        r.result is Err ==> after == st && !r.effects.persist,
        r.result is Ok ==> {
            &&& r.effects.persist
            &&& after.tunnels.len() == st.tunnels.len() + 1
            &&& forall|j: int|
                0 <= j < st.tunnels.len() ==> #[trigger] after.tunnels[j] == st.tunnels[j]
            &&& str_at(params, "name"@) == Some(after.tunnels[st.tunnels.len() as int].name)
            &&& uint_at(params, "local_port"@) == Some(
                after.tunnels[st.tunnels.len() as int].local_port as u64,
            )
            &&& call_ensures(
                port_in_use,
                (after.tunnels[st.tunnels.len() as int].local_port,),
                false,
            )
        },
        add_allowed(st, params) is Err ==> r.result is Err,
        add_allowed(st, params) is Ok && r.result is Err ==> call_ensures(
            port_in_use,
            ((add_allowed(st, params)->Ok_0).local_port,),
            true,
        ),
{
}

/// A tunnel is listed as it is recorded, field by field; its uptime includes the run
/// of a live one.
pub proof fn law_a_tunnel_is_listed_as_recorded(t: TunnelView, now: u64)
    ensures
        tunnel_json(t, now) matches JsonView::Obj(f) && {
            &&& f["name"@] == JsonView::Str(t.name) && f.contains_key("name"@)
            &&& f["local_port"@] == JsonView::Uint(t.local_port as u64) && f.contains_key(
                "local_port"@,
            )
            &&& f["remote_port"@] == JsonView::Uint(t.remote_port as u64) && f.contains_key(
                "remote_port"@,
            )
            &&& f.contains_key("last_node"@) && (match t.last_node {
                Some(n) => f["last_node"@] == JsonView::Str(n),
                None => f["last_node"@] == JsonView::Null,
            })
            &&& f.contains_key("last_user"@) && (match t.last_user {
                Some(n) => f["last_user"@] == JsonView::Str(n),
                None => f["last_user"@] == JsonView::Null,
            })
            &&& f.contains_key("direct_host"@) && (match t.direct_host {
                Some(n) => f["direct_host"@] == JsonView::Str(n),
                None => f["direct_host"@] == JsonView::Null,
            })
            &&& f.contains_key("active_jump"@) && (match t.active_jump {
                Some(n) => f["active_jump"@] == JsonView::Str(n),
                None => f["active_jump"@] == JsonView::Null,
            })
            &&& f.contains_key("post_connect_cmd"@) && (match t.post_connect_cmd {
                Some(n) => f["post_connect_cmd"@] == JsonView::Str(n),
                None => f["post_connect_cmd"@] == JsonView::Null,
            })
            &&& f.contains_key("url_path"@) && (match t.url_path {
                Some(n) => f["url_path"@] == JsonView::Str(n),
                None => f["url_path"@] == JsonView::Null,
            })
            &&& f["auto_start"@] == JsonView::Bool(t.auto_start) && f.contains_key("auto_start"@)
            &&& f.contains_key("status"@) && f["status"@] == JsonView::Str(
                match t.status {
                    TunnelStatus::Idle => "idle"@,
                    TunnelStatus::Failed => "failed"@,
                    TunnelStatus::Stale => "stale"@,
                    TunnelStatus::PortBusy => "port_busy"@,
                    TunnelStatus::Starting => "starting"@,
                    TunnelStatus::Alive => "alive"@,
                },
            )
            &&& f["last_msg"@] == JsonView::Str(t.last_msg) && f.contains_key("last_msg"@)
            &&& f["connect_count"@] == JsonView::Uint(t.connect_count) && f.contains_key(
                "connect_count"@,
            )
            &&& f["fail_count"@] == JsonView::Uint(t.fail_count) && f.contains_key("fail_count"@)
            &&& f.contains_key("tags"@) && (f["tags"@] matches JsonView::Arr(items) && items.len()
                == t.tags.len() && forall|k: int|
                0 <= k < t.tags.len() ==> #[trigger] items[k] == JsonView::Str(t.tags[k]))
            &&& f.contains_key("jump_candidates"@) && (match t.jump_candidates {
                Some(cs) => f["jump_candidates"@] matches JsonView::Arr(items) && items.len()
                    == cs.len() && forall|k: int|
                    0 <= k < cs.len() ==> #[trigger] items[k] == JsonView::Str(cs[k]),
                None => f["jump_candidates"@] == JsonView::Null,
            })
            &&& f["last_alive_at"@] == seconds_json(t.last_alive_at as nat)
            &&& f["total_uptime_sec"@] == seconds_json(live_uptime(t, now) as nat)
        },
        t.status != TunnelStatus::Alive ==> live_uptime(t, now) == t.total_uptime_ms,
        t.status == TunnelStatus::Alive && 0 < t.last_alive_at <= now && t.total_uptime_ms + now
            - t.last_alive_at <= u64::MAX ==> live_uptime(t, now) == t.total_uptime_ms + now
            - t.last_alive_at,
{
    reveal_strlit("name");
    reveal_strlit("local_port");
    reveal_strlit("remote_port");
    reveal_strlit("jump_candidates");
    reveal_strlit("last_node");
    reveal_strlit("last_user");
    reveal_strlit("direct_host");
    reveal_strlit("auto_start");
    reveal_strlit("post_connect_cmd");
    reveal_strlit("tags");
    reveal_strlit("url_path");
    reveal_strlit("active_jump");
    reveal_strlit("status");
    reveal_strlit("last_msg");
    reveal_strlit("last_alive_at");
    reveal_strlit("total_uptime_sec");
    reveal_strlit("connect_count");
    reveal_strlit("fail_count");
    assert("name"@.len() == 4);
    assert("local_port"@.len() == 10);
    assert("remote_port"@.len() == 11);
    assert("jump_candidates"@.len() == 15);
    assert("last_node"@.len() == 9);
    assert("last_user"@.len() == 9);
    assert("direct_host"@.len() == 11);
    assert("auto_start"@.len() == 10);
    assert("post_connect_cmd"@.len() == 16);
    assert("tags"@.len() == 4);
    assert("url_path"@.len() == 8);
    assert("active_jump"@.len() == 11);
    assert("status"@.len() == 6);
    assert("last_msg"@.len() == 8);
    assert("last_alive_at"@.len() == 13);
    assert("total_uptime_sec"@.len() == 16);
    assert("connect_count"@.len() == 13);
    assert("fail_count"@.len() == 10);
    assert("name"@[0] == 'n' && "tags"@[0] == 't');
    assert("local_port"@[0] == 'l' && "auto_start"@[0] == 'a' && "fail_count"@[0] == 'f');
    assert("remote_port"@[0] == 'r' && "direct_host"@[0] == 'd' && "active_jump"@[0] == 'a');
    assert("last_node"@[5] == 'n' && "last_user"@[5] == 'u');
    assert("post_connect_cmd"@[0] == 'p' && "total_uptime_sec"@[0] == 't');
    assert("url_path"@[0] == 'u' && "last_msg"@[0] == 'l');
    assert("last_alive_at"@[0] == 'l' && "connect_count"@[0] == 'c');
}

/// All tunnels are listed, in their order; and so are the events of a tunnel, oldest
/// first.
pub proof fn law_lists_are_complete_and_in_order(
    st: StateView,
    rt: RuntimeView,
    m: Map<Seq<char>, JsonView>,
    name: Seq<char>,
    i: int,
    now: u64,
)
    requires
        asks_for(st, m, name, i),
        rt.events.contains_key(name),
    ensures
        tunnels_json(st, now) matches JsonView::Arr(items) && items.len() == st.tunnels.len()
            && forall|k: int|
            0 <= k < st.tunnels.len() ==> #[trigger] items[k] == tunnel_json(st.tunnels[k], now),
        events_asked(st, rt, JsonView::Obj(m)).result matches Ok(JsonView::Obj(f))
            && f.contains_key("events"@) && (f["events"@] matches JsonView::Arr(items)
            && items.len() == rt.events[name].len() && forall|k: int|
            0 <= k < items.len() ==> ((#[trigger] items[k]) matches JsonView::Obj(e)
                && e.contains_key("msg"@) && e["msg"@] == JsonView::Str(rt.events[name][k].msg)
                && e.contains_key("ts"@) && e["ts"@] == seconds_json(rt.events[name][k].ts as nat))),
{
    law_a_name_addresses_the_first_tunnel(st, name, i);
    reveal_strlit("ts");
    reveal_strlit("msg");
    assert("ts"@.len() != "msg"@.len());
}

/// The uptime of a tunnel that is shown takes in the run under way: a tunnel that has
/// been alive since some moment shows that much more than is recorded; any other shows
/// what is recorded.
pub proof fn law_the_uptime_takes_in_the_run_under_way(t: TunnelView, now: u64)
    requires
        t.last_alive_at <= now,
        t.total_uptime_ms + now <= u64::MAX,
    ensures
        t.status != TunnelStatus::Alive ==> live_uptime(t, now) == t.total_uptime_ms,
        t.last_alive_at == 0 ==> live_uptime(t, now) == t.total_uptime_ms,
        t.status == TunnelStatus::Alive && t.last_alive_at > 0 ==> live_uptime(t, now)
            == t.total_uptime_ms + (now - t.last_alive_at),
{
}

/// A tunnel to a host itself is added with that host, without white space around the
/// name; a host whose name begins with a dash is refused.
pub proof fn law_a_direct_tunnel_is_added_as_asked(
    m: Map<Seq<char>, JsonView>,
    name: Seq<char>,
    port: u64,
    host: Seq<char>,
)
    requires
        m.contains_key("name"@),
        m["name"@] == JsonView::Str(name),
        m.contains_key("local_port"@),
        m["local_port"@] == JsonView::Uint(port),
        1024 <= port <= 65535,
        !m.contains_key("remote_port"@),
        m.contains_key("direct_host"@),
        m["direct_host"@] == JsonView::Str(host),
        trimmed(host).len() > 0,
    ensures
        ({
            let r = add_request(JsonView::Obj(m));
            &&& r is Err <==> trimmed(host)[0] == '-'
            &&& r matches Ok(t) ==> t.direct_host == Some(trimmed(host)) && t.name == name
                && t.local_port == port && t.remote_port == port
        }),
{
}

} // verus!
