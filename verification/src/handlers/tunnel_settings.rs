//! Requests that change the settings of a tunnel.
use crate::handlers::{Effects, EffectsView, Reply, ReplyView, answered, refused, saved};
use crate::handlers::discovery::local_ports;
use crate::handlers::tunnels::{
    asks_for, is_up, opt_trimmed, opt_trimmed_at, tunnel_json, tunnel_snapshot,
};
use crate::json::{
    Json, JsonView, bool_at, field, lemma_strings_in, str_at, strings_in, strings_of,
};
use crate::model::{
    Error, ErrorView, State, StateView, Tunnel, TunnelStatus, TunnelView, host_names,
    law_a_name_addresses_the_first_tunnel, lemma_first, opt_texts, tunnel_at, tunnel_names, with_tunnel,
};
use crate::text::{cat2, cat3, cat4, cat5, dec, decimal, opt_text, same_text, texts, trim, trimmed};
use crate::tunnel_runtime::{RuntimeView, TunnelRuntime, child_of, childless, renamed};
use vstd::prelude::*;

verus! {

/// The records after one field of `name` was set, and the reply: the tunnel as
/// it is then.
pub open spec fn set_field(
    st: StateView,
    name: Seq<char>,
    change: spec_fn(TunnelView) -> TunnelView,
    now: u64,
) -> (StateView, ReplyView) {
    match tunnel_at(st, name) {
        None => (st, refused(ErrorView::NotFound(name))),
        Some(i) => (
            with_tunnel(st, i, change(st.tunnels[i])),
            saved(tunnel_json(change(st.tunnels[i]), now)),
        ),
    }
}

/// What a request about the start at boot does.
pub open spec fn autostart_asked(
    st: StateView,
    params: JsonView,
    now: u64,
) -> (StateView, ReplyView) {
    match str_at(params, "name"@) {
        None => (st, refused(ErrorView::BadParams("name required"@))),
        Some(name) => set_field(
            st,
            name,
            |t: TunnelView|
                TunnelView { auto_start: bool_at(params, "value"@) == Some(true), ..t },
            now,
        ),
    }
}

/// Set whether a tunnel is started at boot.
pub fn tunnel_set_autostart(state: &mut State, params: &Json, now: u64) -> (r: Reply)
    ensures
        (final(state)@, r@) == autostart_asked(old(state)@, params@, now),
{
    let name: String = match params.str_at("name") {
        None => {
            return Reply::refused(Error::bad("name required"));
        },
        Some(name) => name,
    };
    let value: bool = match params.bool_at("value") {
        Some(b) => b,
        None => false,
    };
    match state.find_tunnel(name.as_str()) {
        None => Reply::refused(Error::NotFound(name)),
        Some(i) => {
            let t: &mut Tunnel = state.tunnel_mut(i);
            t.auto_start = value;
            Reply::saved(tunnel_snapshot(t, now))
        },
    }
}

/// What a request about the command of a tunnel does.
pub open spec fn post_connect_asked(
    st: StateView,
    params: JsonView,
    now: u64,
) -> (StateView, ReplyView) {
    match str_at(params, "name"@) {
        None => (st, refused(ErrorView::BadParams("name required"@))),
        Some(name) => set_field(
            st,
            name,
            |t: TunnelView|
                TunnelView { post_connect_cmd: opt_trimmed(params, "cmd"@), ..t },
            now,
        ),
    }
}

/// Set the command that runs once a tunnel is up; none where the request has no
/// text.
pub fn tunnel_set_post_connect(state: &mut State, params: &Json, now: u64) -> (r: Reply)
    ensures
        (final(state)@, r@) == post_connect_asked(old(state)@, params@, now),
{
    let name: String = match params.str_at("name") {
        None => {
            return Reply::refused(Error::bad("name required"));
        },
        Some(name) => name,
    };
    let cmd: Option<String> = opt_trimmed_at(params, "cmd");
    match state.find_tunnel(name.as_str()) {
        None => Reply::refused(Error::NotFound(name)),
        Some(i) => {
            let t: &mut Tunnel = state.tunnel_mut(i);
            t.post_connect_cmd = cmd;
            Reply::saved(tunnel_snapshot(t, now))
        },
    }
}

/// What a request about the path of a tunnel does.
pub open spec fn url_path_asked(
    st: StateView,
    params: JsonView,
    now: u64,
) -> (StateView, ReplyView) {
    match str_at(params, "name"@) {
        None => (st, refused(ErrorView::BadParams("name required"@))),
        Some(name) => set_field(
            st,
            name,
            |t: TunnelView| TunnelView { url_path: opt_trimmed(params, "path"@), ..t },
            now,
        ),
    }
}

/// Set the path that a browser opens on a tunnel; none where the request has no
/// text.
pub fn tunnel_set_url_path(state: &mut State, params: &Json, now: u64) -> (r: Reply)
    ensures
        (final(state)@, r@) == url_path_asked(old(state)@, params@, now),
{
    let name: String = match params.str_at("name") {
        None => {
            return Reply::refused(Error::bad("name required"));
        },
        Some(name) => name,
    };
    let path: Option<String> = opt_trimmed_at(params, "path");
    match state.find_tunnel(name.as_str()) {
        None => Reply::refused(Error::NotFound(name)),
        Some(i) => {
            let t: &mut Tunnel = state.tunnel_mut(i);
            t.url_path = path;
            Reply::saved(tunnel_snapshot(t, now))
        },
    }
}

/// The texts of a list without surrounding white space, the blank ones left out.
pub open spec fn trimmed_all(s: Seq<Seq<char>>) -> Seq<Seq<char>>
    decreases s.len(),
{
    if s.len() == 0 {
        Seq::empty()
    } else if trimmed(s.last()).len() == 0 {
        trimmed_all(s.drop_last())
    } else {
        trimmed_all(s.drop_last()).push(trimmed(s.last()))
    }
}

fn trim_all(v: &Vec<String>) -> (r: Vec<String>)
    ensures
        texts(r@) == trimmed_all(texts(v@)),
{
    let mut r: Vec<String> = Vec::new();
    let mut i: usize = 0;
    proof {
        assert(texts(r@) =~= trimmed_all(texts(v@).take(0)));
    }
    while i < v.len()
        invariant
            i <= v@.len(),
            texts(r@) == trimmed_all(texts(v@).take(i as int)),
        decreases v@.len() - i,
    {
        proof {
            assert(texts(v@).take(i + 1).drop_last() =~= texts(v@).take(i as int));
            assert(texts(v@).take(i + 1).last() == v@[i as int]@);
        }
        let t: String = trim(v[i].as_str());
        if !t.as_str().is_empty() {
            let ghost before = r@;
            r.push(t);
            proof {
                assert(texts(r@) =~= texts(before).push(t@));
            }
        }
        i += 1;
    }
    proof {
        assert(texts(v@).take(i as int) =~= texts(v@));
    }
    r
}

/// The list of texts under `key`, absent or `null` counting as `None`; what is
/// neither is refused with `msg`.
pub open spec fn list_at(params: JsonView, key: Seq<char>, msg: Seq<char>) -> Result<
    Option<Seq<Seq<char>>>,
    ErrorView,
> {
    match field(params, key) {
        None => Ok(None),
        Some(JsonView::Null) => Ok(None),
        Some(JsonView::Arr(items)) => Ok(Some(strings_in(items))),
        Some(_) => Err(ErrorView::BadParams(msg)),
    }
}

pub(crate) fn read_list(
    params: &Json,
    key: &str,
    msg: &str,
) -> (r: Result<Option<Vec<String>>, Error>)
    ensures
        match r {
            Ok(o) => list_at(params@, key@, msg@) == Ok::<Option<Seq<Seq<char>>>, ErrorView>(
                opt_texts(o),
            ),
            Err(e) => list_at(params@, key@, msg@) == Err::<Option<Seq<Seq<char>>>, ErrorView>(e@),
        },
{
    match params.get(key) {
        None => Ok(None),
        Some(Json::Null) => Ok(None),
        Some(Json::Arr(items)) => Ok(Some(strings_of(items))),
        Some(_) => Err(Error::bad(msg)),
    }
}

/// What a request about the tags of a tunnel does.
pub open spec fn tags_asked(st: StateView, params: JsonView, now: u64) -> (StateView, ReplyView) {
    match str_at(params, "name"@) {
        None => (st, refused(ErrorView::BadParams("name required"@))),
        Some(name) => match list_at(params, "tags"@, "tags must be a list of strings"@) {
            Err(e) => (st, refused(e)),
            Ok(list) => set_field(
                st,
                name,
                |t: TunnelView|
                    TunnelView {
                        tags: match list {
                            Some(tags) => trimmed_all(tags),
                            None => Seq::empty(),
                        },
                        ..t
                    },
                now,
            ),
        },
    }
}

/// Set the tags of a tunnel.
pub fn tunnel_set_tags(state: &mut State, params: &Json, now: u64) -> (r: Reply)
    ensures
        (final(state)@, r@) == tags_asked(old(state)@, params@, now),
{
    let name: String = match params.str_at("name") {
        None => {
            return Reply::refused(Error::bad("name required"));
        },
        Some(name) => name,
    };
    let tags: Vec<String> = match read_list(params, "tags", "tags must be a list of strings") {
        Err(e) => {
            return Reply::refused(e);
        },
        Ok(Some(list)) => trim_all(&list),
        Ok(None) => Vec::new(),
    };
    proof {
        assert(texts(Seq::<String>::empty()) =~= Seq::empty());
    }
    match state.find_tunnel(name.as_str()) {
        None => Reply::refused(Error::NotFound(name)),
        Some(i) => {
            let t: &mut Tunnel = state.tunnel_mut(i);
            t.tags = tags;
            Reply::saved(tunnel_snapshot(t, now))
        },
    }
}

/// The names that are hosts of `st`, in order.
pub open spec fn known_among(names: Seq<Seq<char>>, st: StateView) -> Seq<Seq<char>>
    decreases names.len(),
{
    if names.len() == 0 {
        Seq::empty()
    } else if host_names(st.hosts).contains(names.last()) {
        known_among(names.drop_last(), st).push(names.last())
    } else {
        known_among(names.drop_last(), st)
    }
}

fn keep_known(v: &Vec<String>, state: &State) -> (r: Vec<String>)
    ensures
        texts(r@) == known_among(texts(v@), state@),
{
    let mut r: Vec<String> = Vec::new();
    let mut i: usize = 0;
    proof {
        assert(texts(r@) =~= known_among(texts(v@).take(0), state@));
    }
    while i < v.len()
        invariant
            i <= v@.len(),
            texts(r@) == known_among(texts(v@).take(i as int), state@),
        decreases v@.len() - i,
    {
        proof {
            assert(texts(v@).take(i + 1).drop_last() =~= texts(v@).take(i as int));
            assert(texts(v@).take(i + 1).last() == v@[i as int]@);
            lemma_first(host_names(state@.hosts), v@[i as int]@);
        }
        if state.find_host(v[i].as_str()).is_some() {
            let ghost before = r@;
            r.push(v[i].clone());
            proof {
                assert(texts(r@) =~= texts(before).push(v@[i as int]@));
            }
        }
        i += 1;
    }
    proof {
        assert(texts(v@).take(i as int) =~= texts(v@));
    }
    r
}

/// What a request about the jump hosts of a tunnel does.
pub open spec fn candidates_asked(
    st: StateView,
    params: JsonView,
    now: u64,
) -> (StateView, ReplyView) {
    match str_at(params, "name"@) {
        None => (st, refused(ErrorView::BadParams("name required"@))),
        Some(name) => match list_at(
            params,
            "candidates"@,
            "candidates must be list or null"@,
        ) {
            Err(e) => (st, refused(e)),
            Ok(list) => set_field(
                st,
                name,
                |t: TunnelView|
                    TunnelView {
                        jump_candidates: match list {
                            Some(cs) => Some(known_among(cs, st)),
                            None => None,
                        },
                        ..t
                    },
                now,
            ),
        },
    }
}

/// Set the hosts that a tunnel may go through; any where the request has none.
/// Names that are no hosts are left out.
pub fn tunnel_set_jump_candidates(state: &mut State, params: &Json, now: u64) -> (r: Reply)
    ensures
        (final(state)@, r@) == candidates_asked(old(state)@, params@, now),
{
    let name: String = match params.str_at("name") {
        None => {
            return Reply::refused(Error::bad("name required"));
        },
        Some(name) => name,
    };
    let candidates: Option<Vec<String>> = match read_list(
        params,
        "candidates",
        "candidates must be list or null",
    ) {
        Err(e) => {
            return Reply::refused(e);
        },
        Ok(Some(list)) => Some(keep_known(&list, state)),
        Ok(None) => None,
    };
    match state.find_tunnel(name.as_str()) {
        None => Reply::refused(Error::NotFound(name)),
        Some(i) => {
            let t: &mut Tunnel = state.tunnel_mut(i);
            t.jump_candidates = candidates;
            Reply::saved(tunnel_snapshot(t, now))
        },
    }
}

/// The port under `key`; `None` where it is absent or `null`. What is no port is
/// refused.
pub open spec fn port_at(params: JsonView, key: Seq<char>) -> Result<Option<u16>, ErrorView> {
    match field(params, key) {
        None => Ok(None),
        Some(JsonView::Null) => Ok(None),
        Some(JsonView::Uint(n)) => if 1 <= n <= 65535 {
            Ok(Some(n as u16))
        } else {
            Err(ErrorView::BadParams(key + " "@ + dec(n as nat) + " out of range (1-65535)"@))
        },
        Some(_) => Err(ErrorView::BadParams(key + " must be a number"@)),
    }
}

/// Read an optional port.
pub fn parse_port_param(params: &Json, key: &str) -> (r: Result<Option<u16>, Error>)
    ensures
        match r {
            Ok(o) => port_at(params@, key@) == Ok::<Option<u16>, ErrorView>(o),
            Err(e) => port_at(params@, key@) == Err::<Option<u16>, ErrorView>(e@),
        },
{
    match params.get(key) {
        None => Ok(None),
        Some(Json::Null) => Ok(None),
        Some(Json::Uint(n)) => {
            if 1 <= *n && *n <= 65535 {
                Ok(Some(*n as u16))
            } else {
                Err(
                    Error::BadParams(
                        cat4(key, " ", decimal(*n).as_str(), " out of range (1-65535)"),
                    ),
                )
            }
        },
        Some(_) => Err(Error::BadParams(cat2(key, " must be a number"))),
    }
}

/// What a change of ports asks for: the tunnel, its new local port and its new
/// remote port.
pub open spec fn ports_request(params: JsonView) -> Result<
    (Seq<char>, Option<u16>, Option<u16>),
    ErrorView,
> {
    match str_at(params, "name"@) {
        None => Err(ErrorView::BadParams("name required"@)),
        Some(name) => match port_at(params, "local_port"@) {
            Err(e) => Err(e),
            Ok(local) => match port_at(params, "remote_port"@) {
                Err(e) => Err(e),
                Ok(remote) => if local is None && remote is None {
                    Err(
                        ErrorView::BadParams(
                            "nothing to change — pass 'local_port' and/or 'remote_port'"@,
                        ),
                    )
                } else {
                    Ok((name, local, remote))
                },
            },
        },
    }
}

/// The first tunnel from place `i` on with another name that has the local port.
pub open spec fn other_holder(
    ts: Seq<TunnelView>,
    name: Seq<char>,
    port: u16,
    i: int,
) -> Option<Seq<char>>
    decreases ts.len() - i,
{
    if i < 0 || i >= ts.len() {
        None
    } else if ts[i].name != name && ts[i].local_port == port {
        Some(ts[i].name)
    } else {
        other_holder(ts, name, port, i + 1)
    }
}

fn find_other_holder(state: &State, name: &str, port: u16) -> (r: Option<String>)
    ensures
        opt_text(r) == other_holder(state@.tunnels, name@, port, 0),
{
    let mut i: usize = 0;
    while i < state.tunnels.len()
        invariant
            i <= state.tunnels@.len(),
            other_holder(state@.tunnels, name@, port, 0) == other_holder(
                state@.tunnels,
                name@,
                port,
                i as int,
            ),
        decreases state.tunnels@.len() - i,
    {
        proof {
            assert(state@.tunnels[i as int] == state.tunnels@[i as int]@);
        }
        if state.tunnels[i].local_port == port && !same_text(state.tunnels[i].name.as_str(), name) {
            return Some(state.tunnels[i].name.clone());
        }
        i += 1;
    }
    None
}

/// Whether a tunnel of the name has the local port.
pub open spec fn own_port(st: StateView, name: Seq<char>, port: u16) -> bool {
    exists|i: int|
        0 <= i < st.tunnels.len() && (#[trigger] st.tunnels[i]).name == name
            && st.tunnels[i].local_port == port
}

fn is_own_port(state: &State, name: &str, port: u16) -> (r: bool)
    ensures
        r == own_port(state@, name@, port),
{
    let mut i: usize = 0;
    while i < state.tunnels.len()
        invariant
            i <= state.tunnels@.len(),
            forall|j: int|
                0 <= j < i ==> !((#[trigger] state@.tunnels[j]).name == name@
                    && state@.tunnels[j].local_port == port),
        decreases state.tunnels@.len() - i,
    {
        proof {
            assert(state@.tunnels[i as int] == state.tunnels@[i as int]@);
        }
        if state.tunnels[i].local_port == port && same_text(state.tunnels[i].name.as_str(), name) {
            return true;
        }
        i += 1;
    }
    false
}

/// Whether a tunnel counts as running when its ports change.
pub open spec fn was_running(t: TunnelView) -> bool {
    is_up(t) || t.status == TunnelStatus::Stale
}

/// The record of a tunnel with other ports. A running one is stopped, and stays
/// wanted if it was.
pub open spec fn ports_set(t: TunnelView, local: Option<u16>, remote: Option<u16>) -> TunnelView {
    TunnelView {
        local_port: match local {
            Some(p) => p,
            None => t.local_port,
        },
        remote_port: match remote {
            Some(p) => p,
            None => t.remote_port,
        },
        status: if was_running(t) {
            TunnelStatus::Idle
        } else {
            t.status
        },
        last_msg: if was_running(t) {
            "Ports changed — restarting"@
        } else {
            t.last_msg
        },
        ..t
    }
}

/// The records after a change of ports that nothing stands against, and the
/// reply.
pub open spec fn ports_changed(
    st: StateView,
    rt: RuntimeView,
    name: Seq<char>,
    local: Option<u16>,
    remote: Option<u16>,
    now: u64,
) -> (StateView, RuntimeView, ReplyView) {
    match tunnel_at(st, name) {
        None => (st, rt, refused(ErrorView::NotFound(name))),
        Some(i) => {
            let t = st.tunnels[i];
            let t2 = ports_set(t, local, remote);
            (
                with_tunnel(st, i, t2),
                if was_running(t) {
                    childless(rt, name)
                } else {
                    rt
                },
                ReplyView {
                    result: Ok(tunnel_json(t2, now)),
                    effects: EffectsView {
                        persist: true,
                        kill: if was_running(t) {
                            child_of(rt, name)
                        } else {
                            None
                        },
                        start: None,
                    },
                },
            )
        },
    }
}

/// Whether the machine is to be asked about the new local port: it is not the
/// tunnel's own.
pub open spec fn asks_machine(st: StateView, name: Seq<char>, local: Option<u16>) -> bool {
    match local {
        Some(p) => !own_port(st, name, p),
        None => false,
    }
}

/// What a request about the ports of a tunnel does, by what the machine says of
/// the port.
pub open spec fn ports_asked<P: Fn(u16) -> bool>(
    st: StateView,
    rt: RuntimeView,
    params: JsonView,
    port_in_use: P,
    now: u64,
    st1: StateView,
    rt1: RuntimeView,
    r: ReplyView,
) -> bool {
    match ports_request(params) {
        Err(e) => {
            &&& r == refused(e)
            &&& st1 == st
            &&& rt1 == rt
        },
        Ok((name, local, remote)) => {
            let taken = match local {
                Some(p) => other_holder(st.tunnels, name, p, 0),
                None => None,
            };
            if tunnel_at(st, name) is None {
                &&& r == refused(ErrorView::NotFound(name))
                &&& st1 == st
                &&& rt1 == rt
            } else if taken is Some {
                &&& r == refused(
                    ErrorView::BadParams(
                        "local port "@ + dec(local->0 as nat) + " is already used by tunnel '"@
                            + taken->0 + "'"@,
                    ),
                )
                &&& st1 == st
                &&& rt1 == rt
            } else if asks_machine(st, name, local) {
                ||| {
                    &&& call_ensures(port_in_use, (local->0,), true)
                    &&& r == refused(ErrorView::PortInUse(local->0))
                    &&& st1 == st
                    &&& rt1 == rt
                }
                ||| {
                    &&& call_ensures(port_in_use, (local->0,), false)
                    &&& (st1, rt1, r) == ports_changed(
                        st,
                        rt,
                        name,
                        local,
                        remote,
                        now,
                    )
                }
            } else {
                (st1, rt1, r) == ports_changed(
                    st,
                    rt,
                    name,
                    local,
                    remote,
                    now,
                )
            }
        },
    }
}

/// Change a tunnel's ports. A refused request changes nothing. `port_in_use`
/// looks whether a local port is bound; it is asked only about a new local port
/// that no other tunnel has.
pub fn tunnel_set_ports<P: Fn(u16) -> bool>(
    state: &mut State,
    params: &Json,
    runtime: &mut TunnelRuntime,
    port_in_use: P,
    now: u64,
) -> (r: Reply)
    requires
        forall|p: u16| call_requires(port_in_use, (p,)),
    ensures
        ports_asked(
            old(state)@,
            old(runtime)@,
            params@,
            port_in_use,
            now,
            final(state)@,
            final(runtime)@,
            r@,
        ),
{
    let name: String = match params.str_at("name") {
        None => {
            return Reply::refused(Error::bad("name required"));
        },
        Some(name) => name,
    };
    let local: Option<u16> = match parse_port_param(params, "local_port") {
        Err(e) => {
            return Reply::refused(e);
        },
        Ok(o) => o,
    };
    let remote: Option<u16> = match parse_port_param(params, "remote_port") {
        Err(e) => {
            return Reply::refused(e);
        },
        Ok(o) => o,
    };
    if local.is_none() && remote.is_none() {
        return Reply::refused(
            Error::bad("nothing to change — pass 'local_port' and/or 'remote_port'"),
        );
    }
    let i: usize = match state.find_tunnel(name.as_str()) {
        None => {
            return Reply::refused(Error::NotFound(name));
        },
        Some(i) => i,
    };
    if let Some(port) = local {
        match find_other_holder(state, name.as_str(), port) {
            Some(other) => {
                return Reply::refused(
                    Error::BadParams(
                        cat5(
                            "local port ",
                            decimal(port as u64).as_str(),
                            " is already used by tunnel '",
                            other.as_str(),
                            "'",
                        ),
                    ),
                );
            },
            None => {},
        }
        if !is_own_port(state, name.as_str(), port) {
            if port_in_use(port) {
                return Reply::refused(Error::PortInUse(port));
            }
        }
    }
    proof {
        assert(state@.tunnels[i as int] == state.tunnels@[i as int]@);
    }
    let status: TunnelStatus = state.tunnels[i].status;
    let running: bool = status == TunnelStatus::Alive || status == TunnelStatus::Starting || status
        == TunnelStatus::Stale;
    let mut kill: Option<u64> = None;
    if running {
        kill = runtime.kill_child(name.as_str());
    }
    let t: &mut Tunnel = state.tunnel_mut(i);
    if let Some(p) = local {
        t.local_port = p;
    }
    if let Some(p) = remote {
        t.remote_port = p;
    }
    if running {
        t.status = TunnelStatus::Idle;
        t.last_msg = "Ports changed — restarting".to_owned();
    }
    let snap: Json = tunnel_snapshot(t, now);
    Reply { result: Ok(snap), effects: Effects { persist: true, kill, start: None } }
}

/// The records after a renaming, and the reply.
pub open spec fn rename_of(
    st: StateView,
    rt: RuntimeView,
    old_name: Seq<char>,
    new_name: Seq<char>,
    now: u64,
) -> (StateView, RuntimeView, ReplyView) {
    if old_name == new_name {
        match tunnel_at(st, old_name) {
            None => (st, rt, refused(ErrorView::NotFound(old_name))),
            Some(i) => (st, rt, answered(tunnel_json(st.tunnels[i], now))),
        }
    } else if tunnel_at(st, new_name) is Some {
        (st, rt, refused(ErrorView::Duplicate("tunnel '"@ + new_name + "' already exists"@)))
    } else {
        match tunnel_at(st, old_name) {
            None => (st, rt, refused(ErrorView::NotFound(old_name))),
            Some(i) => {
                let t2 = TunnelView { name: new_name, ..st.tunnels[i] };
                (
                    with_tunnel(st, i, t2),
                    renamed(rt, old_name, new_name),
                    saved(tunnel_json(t2, now)),
                )
            },
        }
    }
}

/// What a request to rename a tunnel does.
pub open spec fn rename_asked(
    st: StateView,
    rt: RuntimeView,
    params: JsonView,
    now: u64,
) -> (StateView, RuntimeView, ReplyView) {
    match str_at(params, "old"@) {
        None => (
            st,
            rt,
            refused(ErrorView::BadParams("old name required"@)),
        ),
        Some(old_name) => match opt_trimmed(params, "new"@) {
            None => (
                st,
                rt,
                refused(ErrorView::BadParams("new name required"@)),
            ),
            Some(new_name) => rename_of(
                st,
                rt,
                old_name,
                new_name,
                now,
            ),
        },
    }
}

/// Rename a tunnel. What is kept of it while it runs goes along, so that a live
/// tunnel runs on under its new name.
pub fn tunnel_rename(state: &mut State, params: &Json, runtime: &mut TunnelRuntime, now: u64) -> (r:
    Reply)
    ensures
        (final(state)@, final(runtime)@, r@) == rename_asked(
            old(state)@,
            old(runtime)@,
            params@,
            now,
        ),
{
    let old_name: String = match params.str_at("old") {
        None => {
            return Reply::refused(Error::bad("old name required"));
        },
        Some(name) => name,
    };
    let new_name: String = match opt_trimmed_at(params, "new") {
        None => {
            return Reply::refused(Error::bad("new name required"));
        },
        Some(name) => name,
    };
    if same_text(old_name.as_str(), new_name.as_str()) {
        return match state.find_tunnel(old_name.as_str()) {
            None => Reply::refused(Error::NotFound(old_name)),
            Some(i) => {
                proof {
                    assert(state@.tunnels[i as int] == state.tunnels@[i as int]@);
                }
                Reply::answered(tunnel_snapshot(&state.tunnels[i], now))
            },
        };
    }
    if state.find_tunnel(new_name.as_str()).is_some() {
        return Reply::refused(
            Error::Duplicate(cat3("tunnel '", new_name.as_str(), "' already exists")),
        );
    }
    match state.find_tunnel(old_name.as_str()) {
        None => Reply::refused(Error::NotFound(old_name)),
        Some(i) => {
            let t: &mut Tunnel = state.tunnel_mut(i);
            t.name = new_name.clone();
            let snap: Json = tunnel_snapshot(t, now);
            runtime.rename_entry(old_name.as_str(), new_name.as_str());
            Reply::saved(snap)
        },
    }
}

/// A rename keeps names distinct, whether it is made or refused, and a refused
/// one changes nothing.
pub proof fn law_a_rename_keeps_names_distinct(
    st: StateView,
    rt: RuntimeView,
    old_name: Seq<char>,
    new_name: Seq<char>,
    now: u64,
)
    requires
        tunnel_names(st.tunnels).no_duplicates(),
    ensures
        ({
            let (after, rt1, reply) = rename_of(st, rt, old_name, new_name, now);
            &&& tunnel_names(after.tunnels).no_duplicates()
            &&& reply.result is Err ==> after == st && rt1 == rt
        }),
{
    lemma_first(tunnel_names(st.tunnels), old_name);
    lemma_first(tunnel_names(st.tunnels), new_name);
    let after = rename_of(st, rt, old_name, new_name, now).0;
    if let Some(i) = tunnel_at(st, old_name) {
        if old_name != new_name && tunnel_at(st, new_name) is None {
            assert(tunnel_names(after.tunnels) =~= tunnel_names(st.tunnels).update(i, new_name));
        }
    }
}

proof fn lemma_no_other_holder(ts: Seq<TunnelView>, name: Seq<char>, port: u16, i: int)
    requires
        0 <= i,
        other_holder(ts, name, port, i) is None,
    ensures
        forall|j: int|
            i <= j < ts.len() && (#[trigger] ts[j]).name != name ==> ts[j].local_port != port,
    decreases ts.len() - i,
{
    if i < ts.len() {
        lemma_no_other_holder(ts, name, port, i + 1);
    }
}

/// A change of ports that no other tunnel stands against keeps local ports
/// distinct.
pub proof fn law_changed_ports_stay_distinct(
    st: StateView,
    rt: RuntimeView,
    name: Seq<char>,
    local: Option<u16>,
    remote: Option<u16>,
    now: u64,
)
    requires
        tunnel_names(st.tunnels).no_duplicates(),
        local_ports(st.tunnels).no_duplicates(),
        local is Some ==> other_holder(st.tunnels, name, local->Some_0, 0) is None,
    ensures
        local_ports(ports_changed(st, rt, name, local, remote, now).0.tunnels).no_duplicates(),
{
    lemma_first(tunnel_names(st.tunnels), name);
    let after = ports_changed(st, rt, name, local, remote, now).0;
    if let Some(i) = tunnel_at(st, name) {
        if let Some(p) = local {
            lemma_no_other_holder(st.tunnels, name, p, 0);
            let ports = local_ports(st.tunnels);
            assert(local_ports(after.tunnels) =~= ports.update(i, p));
            assert forall|j: int| 0 <= j < ports.len() && j != i implies #[trigger] ports[j] != p by {
                assert(tunnel_names(st.tunnels)[j] != tunnel_names(st.tunnels)[i]);
                assert(st.tunnels[j].name != name);
            }
        } else {
            assert(local_ports(after.tunnels) =~= local_ports(st.tunnels));
        }
    }
}

/// Whether `after` is `st` but for the record of tunnel `i`, which is then `t`, and the
/// reply shows it and has the list saved.
pub open spec fn only_changed(
    st: StateView,
    after: StateView,
    i: int,
    t: TunnelView,
    r: ReplyView,
    now: u64,
) -> bool {
    &&& after.hosts == st.hosts
    &&& after.tunnels == st.tunnels.update(i, t)
    &&& r.result == Ok::<_, ErrorView>(tunnel_json(t, now))
    &&& r.effects.persist
    &&& r.effects.kill is None
    &&& r.effects.start is None
}

/// A request about the start at boot, the command or the path of a tunnel sets that
/// field of that tunnel to what the request says, and changes nothing else.
pub proof fn law_a_setting_sets_its_field_alone(
    st: StateView,
    m: Map<Seq<char>, JsonView>,
    name: Seq<char>,
    i: int,
    now: u64,
)
    requires
        asks_for(st, m, name, i),
    ensures
        ({
            let t = st.tunnels[i];
            let p = JsonView::Obj(m);
            let boot = autostart_asked(st, p, now);
            let cmd = post_connect_asked(st, p, now);
            let path = url_path_asked(st, p, now);
            &&& only_changed(
                st,
                boot.0,
                i,
                TunnelView {
                    auto_start: m.contains_key("value"@) && m["value"@] == JsonView::Bool(true),
                    ..t
                },
                boot.1,
                now,
            )
            &&& exists|c: Option<Seq<char>>|
                {
                    &&& #[trigger] only_changed(
                        st,
                        cmd.0,
                        i,
                        TunnelView { post_connect_cmd: c, ..t },
                        cmd.1,
                        now,
                    )
                    &&& !m.contains_key("cmd"@) ==> c is None
                    &&& m.contains_key("cmd"@) && m["cmd"@] is Str ==> {
                        let s = trimmed(m["cmd"@]->Str_0);
                        c == (if s.len() > 0 {
                            Some(s)
                        } else {
                            None
                        })
                    }
                }
            &&& exists|c: Option<Seq<char>>|
                {
                    &&& #[trigger] only_changed(
                        st,
                        path.0,
                        i,
                        TunnelView { url_path: c, ..t },
                        path.1,
                        now,
                    )
                    &&& !m.contains_key("path"@) ==> c is None
                    &&& m.contains_key("path"@) && m["path"@] is Str ==> {
                        let s = trimmed(m["path"@]->Str_0);
                        c == (if s.len() > 0 {
                            Some(s)
                        } else {
                            None
                        })
                    }
                }
        }),
{
    law_a_name_addresses_the_first_tunnel(st, name, i);
    let t = st.tunnels[i];
    let p = JsonView::Obj(m);
    let cmd = post_connect_asked(st, p, now);
    let path = url_path_asked(st, p, now);
    let c = opt_trimmed(p, "cmd"@);
    let u = opt_trimmed(p, "path"@);
    assert(only_changed(st, cmd.0, i, TunnelView { post_connect_cmd: c, ..t }, cmd.1, now));
    assert(only_changed(st, path.0, i, TunnelView { url_path: u, ..t }, path.1, now));
}

proof fn lemma_known_among(names: Seq<Seq<char>>, st: StateView)
    ensures
        forall|n: Seq<char>| #[trigger]
            known_among(names, st).contains(n) <==> names.contains(n) && exists|k: int|
                0 <= k < st.hosts.len() && (#[trigger] st.hosts[k]).host == n,
    decreases names.len(),
{
    if names.len() > 0 {
        let front = names.drop_last();
        lemma_known_among(front, st);
        let before = known_among(front, st);
        let found = known_among(names, st);
        assert forall|n: Seq<char>| #[trigger] host_names(st.hosts).contains(n) <==> exists|k: int|
            0 <= k < st.hosts.len() && (#[trigger] st.hosts[k]).host == n by {
            if host_names(st.hosts).contains(n) {
                let k = choose|k: int|
                    0 <= k < host_names(st.hosts).len() && host_names(st.hosts)[k] == n;
                assert(st.hosts[k].host == n);
            }
            if exists|k: int| 0 <= k < st.hosts.len() && (#[trigger] st.hosts[k]).host == n {
                let k = choose|k: int| 0 <= k < st.hosts.len() && (#[trigger] st.hosts[k]).host == n;
                assert(host_names(st.hosts)[k] == n);
            }
        }
        assert forall|n: Seq<char>| #[trigger] found.contains(n) <==> names.contains(n) && exists|
            k: int,
        | 0 <= k < st.hosts.len() && (#[trigger] st.hosts[k]).host == n by {
            assert(host_names(st.hosts).contains(n) <==> exists|k: int|
                0 <= k < st.hosts.len() && (#[trigger] st.hosts[k]).host == n);
            assert(before.contains(n) <==> front.contains(n) && host_names(st.hosts).contains(n));
            if found.contains(n) {
                let k = choose|k: int| 0 <= k < found.len() && found[k] == n;
                if k < before.len() {
                    assert(before[k] == n);
                    let j = choose|j: int| 0 <= j < front.len() && front[j] == n;
                    assert(names[j] == n);
                } else {
                    assert(names[names.len() - 1] == n);
                }
            }
            if names.contains(n) && host_names(st.hosts).contains(n) {
                let j = choose|j: int| 0 <= j < names.len() && names[j] == n;
                if j < front.len() {
                    assert(front[j] == n);
                    let k = choose|k: int| 0 <= k < before.len() && before[k] == n;
                    assert(found[k] == n);
                } else {
                    assert(found[found.len() - 1] == n);
                }
            }
        }
    }
}

/// The hosts that a tunnel may go through are, after a request that lists some, those
/// of the listed texts that are names of hosts; after one that lists none, any. Nothing
/// else changes.
pub proof fn law_candidates_are_the_listed_hosts(
    st: StateView,
    m: Map<Seq<char>, JsonView>,
    name: Seq<char>,
    i: int,
    now: u64,
)
    requires
        asks_for(st, m, name, i),
    ensures
        ({
            let t = st.tunnels[i];
            let (after, r) = candidates_asked(st, JsonView::Obj(m), now);
            &&& !m.contains_key("candidates"@) || m["candidates"@] is Null ==> only_changed(
                st,
                after,
                i,
                TunnelView { jump_candidates: None, ..t },
                r,
                now,
            )
            &&& m.contains_key("candidates"@) && m["candidates"@] is Arr ==> {
                let items = m["candidates"@]->Arr_0;
                exists|cs: Seq<Seq<char>>|
                    {
                        &&& #[trigger] only_changed(
                            st,
                            after,
                            i,
                            TunnelView { jump_candidates: Some(cs), ..t },
                            r,
                            now,
                        )
                        &&& forall|n: Seq<char>| #[trigger]
                            cs.contains(n) <==> items.contains(JsonView::Str(n)) && exists|k: int|
                                0 <= k < st.hosts.len() && (#[trigger] st.hosts[k]).host == n
                    }
            }
            &&& m.contains_key("candidates"@) && !(m["candidates"@] is Arr) && !(
            m["candidates"@] is Null) ==> after == st && r.result is Err
        }),
{
    law_a_name_addresses_the_first_tunnel(st, name, i);
    let t = st.tunnels[i];
    let (after, r) = candidates_asked(st, JsonView::Obj(m), now);
    if m.contains_key("candidates"@) && m["candidates"@] is Arr {
        let items = m["candidates"@]->Arr_0;
        lemma_strings_in(items);
        lemma_known_among(strings_in(items), st);
        let cs = known_among(strings_in(items), st);
        assert(only_changed(st, after, i, TunnelView { jump_candidates: Some(cs), ..t }, r, now));
    }
}

proof fn lemma_trimmed_all(s: Seq<Seq<char>>)
    ensures
        forall|n: Seq<char>| #[trigger]
            trimmed_all(s).contains(n) <==> n.len() > 0 && exists|k: int|
                0 <= k < s.len() && trimmed(#[trigger] s[k]) == n,
    decreases s.len(),
{
    if s.len() > 0 {
        let front = s.drop_last();
        lemma_trimmed_all(front);
        let before = trimmed_all(front);
        let found = trimmed_all(s);
        assert forall|n: Seq<char>| #[trigger] found.contains(n) <==> n.len() > 0 && exists|k: int|
            0 <= k < s.len() && trimmed(#[trigger] s[k]) == n by {
            assert(before.contains(n) <==> n.len() > 0 && exists|k: int|
                0 <= k < front.len() && trimmed(#[trigger] front[k]) == n);
            if found.contains(n) {
                let k = choose|k: int| 0 <= k < found.len() && found[k] == n;
                if k < before.len() {
                    assert(before[k] == n);
                    let j = choose|j: int| 0 <= j < front.len() && trimmed(#[trigger] front[j]) == n;
                    assert(trimmed(s[j]) == n);
                } else {
                    assert(trimmed(s[s.len() - 1]) == n);
                }
            }
            if n.len() > 0 && exists|k: int| 0 <= k < s.len() && trimmed(#[trigger] s[k]) == n {
                let j = choose|j: int| 0 <= j < s.len() && trimmed(#[trigger] s[j]) == n;
                if j < front.len() {
                    assert(trimmed(front[j]) == n);
                    let k = choose|k: int| 0 <= k < before.len() && before[k] == n;
                    assert(found[k] == n);
                } else {
                    assert(found[found.len() - 1] == n);
                }
            }
        }
    }
}

/// The tags of a tunnel are, after a request that lists some, the trimmed texts of the
/// list, the blank ones left out; after one that lists none, there are none. Nothing
/// else changes.
pub proof fn law_tags_are_the_listed_texts(
    st: StateView,
    m: Map<Seq<char>, JsonView>,
    name: Seq<char>,
    i: int,
    now: u64,
)
    requires
        asks_for(st, m, name, i),
    ensures
        ({
            let t = st.tunnels[i];
            let (after, r) = tags_asked(st, JsonView::Obj(m), now);
            &&& !m.contains_key("tags"@) ==> only_changed(
                st,
                after,
                i,
                TunnelView { tags: Seq::empty(), ..t },
                r,
                now,
            )
            &&& m.contains_key("tags"@) && m["tags"@] is Arr ==> {
                let items = m["tags"@]->Arr_0;
                exists|tags: Seq<Seq<char>>|
                    {
                        &&& #[trigger] only_changed(
                            st,
                            after,
                            i,
                            TunnelView { tags, ..t },
                            r,
                            now,
                        )
                        &&& forall|n: Seq<char>| #[trigger] tags.contains(n) ==> n.len() > 0
                        &&& forall|s: Seq<char>| #[trigger]
                            items.contains(JsonView::Str(s)) && trimmed(s).len() > 0
                                ==> tags.contains(trimmed(s))
                    }
            }
        }),
{
    law_a_name_addresses_the_first_tunnel(st, name, i);
    let t = st.tunnels[i];
    let (after, r) = tags_asked(st, JsonView::Obj(m), now);
    if m.contains_key("tags"@) && m["tags"@] is Arr {
        let items = m["tags"@]->Arr_0;
        lemma_strings_in(items);
        let listed = strings_in(items);
        lemma_trimmed_all(listed);
        let tags = trimmed_all(listed);
        assert(only_changed(st, after, i, TunnelView { tags, ..t }, r, now));
        assert forall|s: Seq<char>| #[trigger]
            items.contains(JsonView::Str(s)) && trimmed(s).len() > 0 implies tags.contains(
            trimmed(s),
        ) by {
            assert(listed.contains(s));
            let k = choose|k: int| 0 <= k < listed.len() && listed[k] == s;
            assert(trimmed(listed[k]) == trimmed(s));
        }
    }
}

proof fn lemma_other_holder(ts: Seq<TunnelView>, name: Seq<char>, port: u16, i: int)
    requires
        0 <= i,
    ensures
        other_holder(ts, name, port, i) is Some <==> exists|j: int|
            i <= j < ts.len() && (#[trigger] ts[j]).name != name && ts[j].local_port == port,
    decreases ts.len() - i,
{
    if i < ts.len() {
        lemma_other_holder(ts, name, port, i + 1);
    }
}

/// A change of ports gives a tunnel the ports of the request and keeps those it does
/// not name. A tunnel that was running goes idle, stays as much wanted as it was, and
/// its process is to be killed; another keeps its status and process. A local port of
/// another tunnel is refused, as is one in use, and a refusal changes nothing.
pub proof fn law_ports_become_those_of_the_request<P: Fn(u16) -> bool>(
    st: StateView,
    rt: RuntimeView,
    m: Map<Seq<char>, JsonView>,
    name: Seq<char>,
    i: int,
    port_in_use: P,
    now: u64,
    after: StateView,
    rt1: RuntimeView,
    r: ReplyView,
)
    requires
        asks_for(st, m, name, i),
        ports_asked(st, rt, JsonView::Obj(m), port_in_use, now, after, rt1, r),
    ensures
        ({
            let t = st.tunnels[i];
            let t1 = after.tunnels[i];
            let running = t.status == TunnelStatus::Alive || t.status == TunnelStatus::Starting
                || t.status == TunnelStatus::Stale;
            &&& r.result is Err ==> after == st && rt1 == rt && !r.effects.persist
                && r.effects.kill is None
            &&& !m.contains_key("local_port"@) && !m.contains_key("remote_port"@) ==> r.result is Err
            &&& (exists|j: int|
                0 <= j < st.tunnels.len() && (#[trigger] st.tunnels[j]).name != name
                    && m.contains_key("local_port"@) && m["local_port"@] == JsonView::Uint(
                    st.tunnels[j].local_port as u64,
                )) ==> r.result is Err
            &&& m.contains_key("local_port"@) && (m["local_port"@] matches JsonView::Uint(n) && (n
                == 0 || n > 65535)) ==> r.result is Err
            &&& r.result is Ok ==> {
                &&& t1.local_port == (if m.contains_key("local_port"@) && m["local_port"@] is Uint {
                    m["local_port"@]->Uint_0
                } else {
                    t.local_port as u64
                })
                &&& t1.remote_port == (if m.contains_key("remote_port"@)
                    && m["remote_port"@] is Uint {
                    m["remote_port"@]->Uint_0
                } else {
                    t.remote_port as u64
                })
                &&& t1.name == name && t1.wants_alive == t.wants_alive && t1.last_node
                    == t.last_node
                &&& r.effects.persist && r.effects.start is None
                &&& running ==> {
                    &&& t1.status == TunnelStatus::Idle
                    &&& !rt1.children.contains_key(name)
                    &&& rt.children.contains_key(name) ==> r.effects.kill == Some(
                        rt.children[name],
                    )
                }
                &&& !running ==> t1.status == t.status && rt1 == rt && r.effects.kill is None
                &&& after.hosts == st.hosts
                &&& after.tunnels.len() == st.tunnels.len()
                &&& forall|j: int|
                    0 <= j < st.tunnels.len() && j != i ==> #[trigger] after.tunnels[j]
                        == st.tunnels[j]
            }
        }),
{
    law_a_name_addresses_the_first_tunnel(st, name, i);
    if m.contains_key("local_port"@) && m["local_port"@] is Uint {
        let n = m["local_port"@]->Uint_0;
        lemma_other_holder(st.tunnels, name, n as u16, 0);
    }
}

/// A renamed tunnel has its new name and is otherwise as it was; its process, its
/// counters and its events go along. A name that another tunnel has is refused, and a
/// refusal changes nothing.
pub proof fn law_a_renamed_tunnel_runs_on(
    st: StateView,
    rt: RuntimeView,
    m: Map<Seq<char>, JsonView>,
    old_name: Seq<char>,
    new_name: Seq<char>,
    i: int,
    now: u64,
)
    requires
        m.contains_key("old"@),
        m["old"@] == JsonView::Str(old_name),
        m.contains_key("new"@),
        m["new"@] == JsonView::Str(new_name),
        trimmed(new_name) == new_name,
        new_name.len() > 0,
        old_name != new_name,
        0 <= i < st.tunnels.len(),
        st.tunnels[i].name == old_name,
        forall|j: int| 0 <= j < i ==> (#[trigger] st.tunnels[j]).name != old_name,
    ensures
        ({
            let (after, rt1, r) = rename_asked(st, rt, JsonView::Obj(m), now);
            let taken = exists|j: int|
                0 <= j < st.tunnels.len() && (#[trigger] st.tunnels[j]).name == new_name;
            &&& taken ==> after == st && rt1 == rt && (r.result matches Err(
                ErrorView::Duplicate(_),
            ))
            &&& !taken ==> {
                &&& r.result == Ok::<_, ErrorView>(tunnel_json(after.tunnels[i], now))
                &&& r.effects.persist && r.effects.kill is None && r.effects.start is None
                &&& after.hosts == st.hosts
                &&& after.tunnels == st.tunnels.update(
                    i,
                    TunnelView { name: new_name, ..st.tunnels[i] },
                )
                &&& rt.children.contains_key(old_name) ==> rt1.children.contains_key(new_name)
                    && rt1.children[new_name] == rt.children[old_name]
                &&& rt.rt.contains_key(old_name) ==> rt1.rt.contains_key(new_name)
                    && rt1.rt[new_name] == rt.rt[old_name]
                &&& rt.events.contains_key(old_name) ==> rt1.events.contains_key(new_name)
                    && rt1.events[new_name] == rt.events[old_name]
                &&& !rt1.children.contains_key(old_name) && !rt1.rt.contains_key(old_name)
                    && !rt1.events.contains_key(old_name)
            }
        }),
{
    law_a_name_addresses_the_first_tunnel(st, old_name, i);
    law_a_name_addresses_the_first_tunnel(st, new_name, 0);
}

/// Before a tunnel gets another local port the machine is asked about it, and a port
/// in use is refused. The port that the tunnel has is not asked about.
pub proof fn law_the_machine_is_asked_about_a_new_port<P: Fn(u16) -> bool>(
    st: StateView,
    rt: RuntimeView,
    m: Map<Seq<char>, JsonView>,
    name: Seq<char>,
    i: int,
    p: u16,
    port_in_use: P,
    now: u64,
    after: StateView,
    rt1: RuntimeView,
    r: ReplyView,
)
    requires
        asks_for(st, m, name, i),
        ports_asked(st, rt, JsonView::Obj(m), port_in_use, now, after, rt1, r),
        m.contains_key("local_port"@) && m["local_port"@] == JsonView::Uint(p as u64),
        p > 0,
        !m.contains_key("remote_port"@),
        forall|j: int|
            0 <= j < st.tunnels.len() && (#[trigger] st.tunnels[j]).name != name
                ==> st.tunnels[j].local_port != p,
    ensures
        (forall|j: int| 0 <= j < st.tunnels.len() ==> (#[trigger] st.tunnels[j]).local_port != p)
            ==> {
            &&& r.result is Ok ==> call_ensures(port_in_use, (p,), false)
            &&& r.result is Err ==> call_ensures(port_in_use, (p,), true) && r.result
                == Err::<JsonView, _>(ErrorView::PortInUse(p))
        },
        st.tunnels[i].local_port == p ==> r.result is Ok,
{
    law_a_name_addresses_the_first_tunnel(st, name, i);
    lemma_other_holder(st.tunnels, name, p, 0);
    reveal_strlit("local_port");
    reveal_strlit("remote_port");
    assert("local_port"@.len() == 10 && "remote_port"@.len() == 11);
}

} // verus!
