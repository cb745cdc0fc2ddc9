//! Requests about login hosts.
use crate::handlers::{Reply, ReplyView, answered, refused};
use crate::json::{Fields, Items, Json, JsonView, bool_at, field, str_at};
use crate::managers::{CredsCache, HostManagers, ManagersView, invalidate_creds_cache};
use crate::model::{
    Error, ErrorView, Host, HostView, State, StateView, Tunnel, TunnelView, edit_host, host_at,
    host_names, hosts_view, lemma_first, lemma_first_is, opt_texts, outcome,
};
use crate::paths::one_name;
use crate::text::{
    cat2, cat3, chars_of, contains_part, copy_texts, has_part, has_text, opt_text, same_text, texts,
    trim, trimmed,
};
use vstd::prelude::*;

verus! {

/// A host in a reply.
pub open spec fn host_json(h: HostView) -> JsonView {
    JsonView::Obj(
        Map::empty().insert("host"@, JsonView::Str(h.host)).insert(
            "status"@,
            JsonView::Str(h.status),
        ).insert("active"@, JsonView::Bool(h.active)).insert(
            "is_master_ready"@,
            JsonView::Bool(h.is_master_ready),
        ).insert("pool_index"@, JsonView::Uint(h.pool_index as u64)).insert(
            "pool_alive"@,
            JsonView::Uint(h.pool_alive as u64),
        ).insert("is_mounted"@, JsonView::Bool(h.is_mounted)).insert(
            "last_msg"@,
            JsonView::Str(h.last_msg),
        ),
    )
}

/// A host in a reply.
pub fn host_snapshot(h: &Host) -> (j: Json)
    ensures
        j@ == host_json(h@),
{
    let mut f: Fields = Fields::new();
    f.put("host", Json::text(h.host.as_str()));
    f.put("status", Json::text(h.status.as_str()));
    f.put("active", Json::Bool(h.active));
    f.put("is_master_ready", Json::Bool(h.is_master_ready));
    f.put("pool_index", Json::Uint(h.pool_index as u64));
    f.put("pool_alive", Json::Uint(h.pool_alive as u64));
    f.put("is_mounted", Json::Bool(h.is_mounted));
    f.put("last_msg", Json::text(h.last_msg.as_str()));
    f.done()
}

/// The answer of a daemon that lives.
pub open spec fn ping_json(pid: u32) -> JsonView {
    JsonView::Obj(
        Map::empty().insert("ok"@, JsonView::Bool(true)).insert("pid"@, JsonView::Uint(pid as u64)),
    )
}

/// The daemon lives, and this is its process.
pub fn ping(pid: u32) -> (j: Json)
    ensures
        j@ == ping_json(pid),
        field(j@, "ok"@) == Some(JsonView::Bool(true)),
        field(j@, "pid"@) == Some(JsonView::Uint(pid as u64)),
{
    proof {
        reveal_strlit("ok");
        reveal_strlit("pid");
        assert("ok"@.len() == 2 && "pid"@.len() == 3);
    }
    let mut f: Fields = Fields::new();
    f.put("ok", Json::Bool(true));
    f.put("pid", Json::Uint(pid as u64));
    f.done()
}

/// All hosts in a reply, in order.
pub open spec fn hosts_json(st: StateView) -> JsonView {
    JsonView::Arr(st.hosts.map_values(|h: HostView| host_json(h)))
}

/// All hosts, in order.
pub fn list_hosts(state: &State) -> (j: Json)
    ensures
        j@ == hosts_json(state@),
{
    let mut out: Items = Items::new();
    let mut i: usize = 0;
    proof {
        assert(out@ =~= state@.hosts.take(0).map_values(|h: HostView| host_json(h)));
    }
    while i < state.hosts.len()
        invariant
            i <= state.hosts@.len(),
            out@ == state@.hosts.take(i as int).map_values(|h: HostView| host_json(h)),
        decreases state.hosts@.len() - i,
    {
        out.push(host_snapshot(&state.hosts[i]));
        proof {
            assert(out@ =~= state@.hosts.take(i + 1).map_values(|h: HostView| host_json(h)));
        }
        i += 1;
    }
    proof {
        assert(state@.hosts.take(i as int) =~= state@.hosts);
    }
    out.done()
}

/// The host that a request names.
pub open spec fn host_named(params: JsonView) -> Result<Seq<char>, ErrorView> {
    match str_at(params, "host"@) {
        Some(host) => Ok(host),
        None => Err(ErrorView::BadParams("host required"@)),
    }
}

/// What a text or an error says.
pub open spec fn text_result(r: Result<String, Error>) -> Result<Seq<char>, ErrorView> {
    match r {
        Ok(s) => Ok(s@),
        Err(e) => Err(e@),
    }
}

/// The host that a request names.
pub fn named_host(params: &Json) -> (r: Result<String, Error>)
    ensures
        text_result(r) == host_named(params@),
{
    match params.str_at("host") {
        Some(host) => Ok(host),
        None => Err(Error::bad("host required")),
    }
}

/// Whether a character may stand in a host name.
pub open spec fn host_char(c: char) -> bool {
    ('a' <= c <= 'z') || ('A' <= c <= 'Z') || ('0' <= c <= '9') || c == '.' || c == '_' || c == '-'
}

/// Whether a host name is safe as an argument, an account key and a file name.
pub open spec fn safe_host(host: Seq<char>) -> bool {
    &&& host.len() > 0
    &&& host[0] != '-'
    &&& host[0] != '.'
    &&& !has_part(host, ".."@)
    &&& forall|i: int| 0 <= i < host.len() ==> host_char(#[trigger] host[i])
}

/// Whether a host name is safe as an argument, an account key and a file name.
pub fn valid_host_name(host: &str) -> (r: bool)
    ensures
        r == safe_host(host@),
{
    let v: Vec<char> = chars_of(host);
    if v.len() == 0 || v[0] == '-' || v[0] == '.' {
        return false;
    }
    let mut i: usize = 0;
    while i < v.len()
        invariant
            v@ == host@,
            i <= v@.len(),
            forall|j: int| 0 <= j < i ==> host_char(#[trigger] host@[j]),
        decreases v@.len() - i,
    {
        let c: char = v[i];
        let fits: bool = ('a' <= c && c <= 'z') || ('A' <= c && c <= 'Z') || ('0' <= c && c <= '9')
            || c == '.' || c == '_' || c == '-';
        if !fits {
            proof {
                assert(!host_char(host@[i as int]));
            }
            return false;
        }
        i += 1;
    }
    !contains_part(host, "..")
}

/// The safe host that a request names.
pub open spec fn host_of(params: JsonView) -> Result<Seq<char>, ErrorView> {
    match host_named(params) {
        Ok(host) => if safe_host(host) {
            Ok(host)
        } else {
            Err(
                ErrorView::BadParams(
                    "invalid host name (letters, digits, '.', '-', '_' only; no '/' or '..')"@,
                ),
            )
        },
        Err(e) => Err(e),
    }
}

/// The safe host that a request names.
pub fn host_param(params: &Json) -> (r: Result<String, Error>)
    ensures
        text_result(r) == host_of(params@),
{
    match named_host(params) {
        Ok(host) => {
            if valid_host_name(host.as_str()) {
                Ok(host)
            } else {
                Err(
                    Error::bad(
                        "invalid host name (letters, digits, '.', '-', '_' only; no '/' or '..')",
                    ),
                )
            }
        },
        Err(e) => Err(e),
    }
}

/// The error for a host that is not known.
pub open spec fn no_host(host: Seq<char>) -> ErrorView {
    ErrorView::NotFound("host "@ + host)
}

/// The host must be known.
pub fn require_host(state: &State, host: &str) -> (r: Result<(), Error>)
    ensures
        match r {
            Ok(_) => host_at(state@, host@) is Some,
            Err(e) => host_at(state@, host@) is None && e@ == no_host(host@),
        },
{
    match state.find_host(host) {
        Some(_) => Ok(()),
        None => Err(Error::NotFound(cat2("host ", host))),
    }
}

/// What an optional text or an error says.
pub open spec fn opt_result(r: Result<Option<String>, Error>) -> Result<
    Option<Seq<char>>,
    ErrorView,
> {
    match r {
        Ok(o) => Ok(opt_text(o)),
        Err(e) => Err(e@),
    }
}

/// What kind of value stands where a text should.
pub open spec fn kind_text(j: JsonView) -> Seq<char> {
    match j {
        JsonView::Bool(_) => "a boolean"@,
        JsonView::Arr(_) => "an array"@,
        JsonView::Obj(_) => "an object"@,
        JsonView::Uint(_) => "a number"@,
        JsonView::Number(_) => "a number"@,
        _ => "another type"@,
    }
}

/// An optional text of a request: absent and `null` are none, anything else but a
/// text is refused.
pub open spec fn opt_str_of(params: JsonView, key: Seq<char>) -> Result<
    Option<Seq<char>>,
    ErrorView,
> {
    match field(params, key) {
        None => Ok(None),
        Some(JsonView::Null) => Ok(None),
        Some(JsonView::Str(s)) => Ok(Some(s)),
        Some(j) => Err(ErrorView::BadParams(key + " must be a string, got "@ + kind_text(j))),
    }
}

/// An optional text of a request: absent and `null` are none, anything else but a
/// text is refused.
pub fn opt_str(params: &Json, key: &str) -> (r: Result<Option<String>, Error>)
    ensures
        opt_result(r) == opt_str_of(params@, key@),
{
    let kind: &str = match params.get(key) {
        None => return Ok(None),
        Some(j) => match j {
            Json::Null => return Ok(None),
            Json::Str(s) => return Ok(Some(s.clone())),
            Json::Bool(_) => "a boolean",
            Json::Arr(_) => "an array",
            Json::Obj(_) => "an object",
            Json::Uint(_) => "a number",
            Json::Number(_) => "a number",
        },
    };
    Err(Error::BadParams(cat3(key, " must be a string, got ", kind)))
}

/// What a yes or no or an error says.
pub open spec fn flag_result(r: Result<bool, Error>) -> Result<bool, ErrorView> {
    match r {
        Ok(b) => Ok(b),
        Err(e) => Err(e@),
    }
}

/// An optional flag of a request: absent and `null` are no, anything else but a
/// boolean is refused.
pub open spec fn opt_bool_of(params: JsonView, key: Seq<char>) -> Result<bool, ErrorView> {
    match field(params, key) {
        None => Ok(false),
        Some(JsonView::Null) => Ok(false),
        Some(JsonView::Bool(b)) => Ok(b),
        Some(_) => Err(ErrorView::BadParams(key + " must be a boolean"@)),
    }
}

/// An optional flag of a request: absent and `null` are no, anything else but a
/// boolean is refused.
pub fn opt_bool(params: &Json, key: &str) -> (r: Result<bool, Error>)
    ensures
        flag_result(r) == opt_bool_of(params@, key@),
{
    match params.get(key) {
        None => Ok(false),
        Some(j) => match j {
            Json::Null => Ok(false),
            Json::Bool(b) => Ok(*b),
            _ => Err(Error::BadParams(cat2(key, " must be a boolean"))),
        },
    }
}

/// What is left to do outside once a host was switched on or off.
#[derive(Debug, PartialEq)]
pub struct ToggleWork {
    pub host: String,
    /// Connect the host, or else disconnect it.
    pub connect: bool,
    /// Whether its pool is managed: the switch is then remembered, and the
    /// breakers are cleared before a connection.
    pub managed: bool,
}

/// The answer to a switch.
#[derive(Debug, PartialEq)]
pub struct ToggleReply {
    pub result: Result<Json, Error>,
    pub work: Option<ToggleWork>,
}

/// A host switched on.
pub open spec fn switched_on(h: HostView, managed: bool) -> HostView {
    HostView {
        active: true,
        last_msg: "Connecting…"@,
        status: if managed {
            "Connecting"@
        } else {
            h.status
        },
        ..h
    }
}

/// A host switched off.
pub open spec fn switched_off(h: HostView) -> HostView {
    HostView { active: false, last_msg: "Deactivating…"@, ..h }
}

/// A host switched the other way.
pub open spec fn flipped(h: HostView, managed: bool) -> HostView {
    if h.active {
        switched_off(h)
    } else {
        switched_on(h, managed)
    }
}

/// The state once a request has switched a host.
pub open spec fn toggled(st: StateView, params: JsonView, managed: bool) -> StateView {
    match host_named(params) {
        Ok(host) => edit_host(st, host, |h: HostView| flipped(h, managed)),
        Err(_) => st,
    }
}

/// The answer to a switch.
pub open spec fn toggle_result(st: StateView, params: JsonView, managed: bool) -> Result<
    JsonView,
    ErrorView,
> {
    match host_named(params) {
        Ok(host) => match host_at(st, host) {
            Some(i) => Ok(host_json(flipped(st.hosts[i], managed))),
            None => Err(no_host(host)),
        },
        Err(e) => Err(e),
    }
}

/// Whether work is left is as the switch was made: the addressed host is to be
/// connected where it was off, and disconnected where it was on.
pub open spec fn toggle_work(
    st: StateView,
    params: JsonView,
    managed: bool,
    work: Option<ToggleWork>,
) -> bool {
    match host_named(params) {
        Ok(host) => match host_at(st, host) {
            Some(i) => match work {
                Some(w) => w.host@ == host && w.connect == !st.hosts[i].active && w.managed
                    == managed,
                None => false,
            },
            None => work is None,
        },
        Err(_) => work is None,
    }
}

/// Switch a host on or off. Where no pool of it is managed, its records alone are
/// changed.
pub fn host_toggle_managed(state: &mut State, params: &Json, managed: bool) -> (r: ToggleReply)
    ensures
        outcome(r.result) == toggle_result(old(state)@, params@, managed),
        final(state)@ == toggled(old(state)@, params@, managed),
        toggle_work(old(state)@, params@, managed, r.work),
{
    let host: String = match named_host(params) {
        Ok(host) => host,
        Err(e) => return ToggleReply { result: Err(e), work: None },
    };
    match state.find_host(host.as_str()) {
        None => {
            let e: Error = Error::NotFound(cat2("host ", host.as_str()));
            ToggleReply { result: Err(e), work: None }
        },
        Some(i) => {
            let h: &mut Host = state.host_mut(i);
            let connect: bool = !h.active;
            if connect {
                h.active = true;
                h.last_msg = "Connecting…".to_owned();
                if managed {
                    h.status = "Connecting".to_owned();
                }
            } else {
                h.active = false;
                h.last_msg = "Deactivating…".to_owned();
            }
            let snap: Json = host_snapshot(h);
            ToggleReply { result: Ok(snap), work: Some(ToggleWork { host, connect, managed }) }
        },
    }
}

/// Switch a host on or off without a managed pool.
pub fn host_toggle_with_registry(state: &mut State, params: &Json) -> (r: ToggleReply)
    ensures
        outcome(r.result) == toggle_result(old(state)@, params@, false),
        final(state)@ == toggled(old(state)@, params@, false),
        toggle_work(old(state)@, params@, false, r.work),
{
    host_toggle_managed(state, params, false)
}

/// Switch a host on or off without a managed pool.
pub fn host_toggle(state: &mut State, params: &Json) -> (r: ToggleReply)
    ensures
        outcome(r.result) == toggle_result(old(state)@, params@, false),
        final(state)@ == toggled(old(state)@, params@, false),
        toggle_work(old(state)@, params@, false, r.work),
{
    host_toggle_with_registry(state, params)
}

/// Whether an active host carries the name.
pub open spec fn some_active(hs: Seq<HostView>, name: Seq<char>) -> bool {
    exists|i: int| 0 <= i < hs.len() && (#[trigger] hs[i]).host == name && hs[i].active
}

/// What a request to rotate a host gets.
pub open spec fn rotate_asked(st: StateView, params: JsonView) -> ReplyView {
    match host_named(params) {
        Ok(host) => if some_active(st.hosts, host) {
            answered(JsonView::Null)
        } else {
            refused(ErrorView::NotFound("host not active"@))
        },
        Err(e) => refused(e),
    }
}

/// A rotation by hand changes nothing, as each host has one connection. It is
/// refused where the host is not active.
pub fn host_rotate(state: &State, params: &Json) -> (r: Reply)
    ensures
        r@ == rotate_asked(state@, params@),
{
    let host: String = match named_host(params) {
        Ok(host) => host,
        Err(e) => return Reply::refused(e),
    };
    let mut i: usize = 0;
    while i < state.hosts.len()
        invariant
            host_named(params@) == Ok::<_, ErrorView>(host@),
            i <= state.hosts@.len(),
            forall|j: int|
                0 <= j < i ==> !((#[trigger] state@.hosts[j]).host == host@
                    && state@.hosts[j].active),
        decreases state.hosts@.len() - i,
    {
        proof {
            assert(state@.hosts[i as int] == state.hosts@[i as int]@);
        }
        if state.hosts[i].active && same_text(state.hosts[i].host.as_str(), host.as_str()) {
            proof {
                assert(some_active(state@.hosts, host@));
            }
            return Reply::answered(Json::Null);
        }
        i += 1;
    }
    Reply::refused(Error::missing("host not active"))
}

/// The text under a key of a request, or the empty one.
pub open spec fn text_or_empty(params: JsonView, key: Seq<char>) -> Seq<char> {
    match str_at(params, key) {
        Some(s) => s,
        None => Seq::empty(),
    }
}

fn text_at(params: &Json, key: &str) -> (r: String)
    ensures
        r@ == text_or_empty(params@, key@),
{
    match params.str_at(key) {
        Some(s) => s,
        None => {
            proof {
                reveal_strlit("");
                assert(""@ =~= Seq::<char>::empty());
            }
            "".to_owned()
        },
    }
}

/// A host to be added.
#[derive(Debug, PartialEq)]
pub struct NewHost {
    pub host: String,
    pub password: String,
    /// The address of the one-time code secret; empty where logins need none.
    pub otpauth_url: String,
    pub auto_connect: bool,
}

/// What a host to be added says.
#[verifier::ext_equal]
pub struct NewHostView {
    pub host: Seq<char>,
    pub password: Seq<char>,
    pub otpauth_url: Seq<char>,
    pub auto_connect: bool,
}

impl View for NewHost {
    type V = NewHostView;

    open spec fn view(&self) -> NewHostView {
        NewHostView {
            host: self.host@,
            password: self.password@,
            otpauth_url: self.otpauth_url@,
            auto_connect: self.auto_connect,
        }
    }
}

/// What a request to add a host asks for.
pub open spec fn new_host_of(params: JsonView) -> Result<NewHostView, ErrorView> {
    match host_of(params) {
        Ok(host) => Ok(
            NewHostView {
                host,
                password: text_or_empty(params, "password"@),
                otpauth_url: trimmed(text_or_empty(params, "otpauth_url"@)),
                auto_connect: bool_at(params, "auto_connect"@) == Some(true),
            },
        ),
        Err(e) => Err(e),
    }
}

/// What a request to add a host asks for.
pub fn new_host(params: &Json) -> (r: Result<NewHost, Error>)
    ensures
        match r {
            Ok(n) => new_host_of(params@) == Ok::<_, ErrorView>(n@),
            Err(e) => new_host_of(params@) == Err::<NewHostView, _>(e@),
        },
        r matches Ok(n) ==> {
            &&& str_at(params@, "host"@) == Some(n.host@)
            &&& str_at(params@, "password"@) matches Some(p) ==> n.password@ == p
            &&& str_at(params@, "password"@) is None ==> n.password@.len() == 0
            &&& str_at(params@, "otpauth_url"@) matches Some(u) ==> n.otpauth_url@ == trimmed(u)
            &&& str_at(params@, "otpauth_url"@) is None ==> n.otpauth_url@.len() == 0
            &&& n.auto_connect <==> bool_at(params@, "auto_connect"@) == Some(true)
        },
{
    let host: String = match host_param(params) {
        Ok(host) => host,
        Err(e) => return Err(e),
    };
    let password: String = text_at(params, "password");
    let url: String = text_at(params, "otpauth_url");
    let otpauth_url: String = trim(url.as_str());
    let auto_connect: bool = match params.bool_at("auto_connect") {
        Some(b) => b,
        None => false,
    };
    Ok(NewHost { host, password, otpauth_url, auto_connect })
}

/// Whether a host may be added: its code secret can be read from the address,
/// where there is one, and its name is free.
pub open spec fn add_refusal(
    st: StateView,
    n: NewHostView,
    secret: Result<Seq<char>, Seq<char>>,
) -> Option<ErrorView> {
    if n.otpauth_url.len() > 0 && secret is Err {
        Some(ErrorView::BadParams("invalid otpauth URL: "@ + secret->Err_0))
    } else if host_at(st, n.host) is Some {
        Some(ErrorView::Duplicate("host "@ + n.host + " already exists"@))
    } else {
        None
    }
}

/// What reading a secret gave.
pub open spec fn secret_view(r: Result<String, String>) -> Result<Seq<char>, Seq<char>> {
    match r {
        Ok(s) => Ok(s@),
        Err(e) => Err(e@),
    }
}

/// Check that a host may be added. `secret` is what reading the address of its
/// code secret gave; without an address it does not matter. The answer says
/// whether the host is the first.
pub fn host_add(state: &State, n: &NewHost, secret: &Result<String, String>) -> (r: Result<
    bool,
    Error,
>)
    ensures
        match r {
            Ok(first) => add_refusal(state@, n@, secret_view(*secret)) is None && first == (
            state@.hosts.len() == 0),
            Err(e) => add_refusal(state@, n@, secret_view(*secret)) == Some(e@),
        },
{
    if n.otpauth_url.as_str().unicode_len() > 0 {
        match secret {
            Ok(_) => {},
            Err(why) => return Err(Error::BadParams(cat2("invalid otpauth URL: ", why.as_str()))),
        }
    }
    if state.find_host(n.host.as_str()).is_some() {
        return Err(Error::Duplicate(cat3("host ", n.host.as_str(), " already exists")));
    }
    Ok(state.hosts.len() == 0)
}

/// The record of a host just added.
pub open spec fn added_host(n: NewHostView) -> HostView {
    HostView {
        host: n.host,
        status: "Idle"@,
        active: n.auto_connect,
        is_master_ready: false,
        pool_index: 0,
        pool_alive: 0,
        is_mounted: false,
        last_msg: "Added"@,
    }
}

/// Add a host whose credentials were stored. The answer is its record; it is to be
/// connected where the request asked for that.
pub fn host_add_finish(state: &mut State, cache: &mut CredsCache, n: &NewHost) -> (j: Json)
    ensures
        final(state)@ == (StateView {
            hosts: old(state)@.hosts.push(added_host(n@)),
            ..old(state)@
        }),
        final(cache)@ == old(cache)@.remove(n@.host),
        j@ == host_json(added_host(n@)),
{
    invalidate_creds_cache(cache, n.host.as_str());
    let h: Host = Host {
        host: n.host.clone(),
        status: "Idle".to_owned(),
        active: n.auto_connect,
        is_master_ready: false,
        pool_index: 0,
        pool_alive: 0,
        is_mounted: false,
        last_msg: "Added".to_owned(),
    };
    let snap: Json = host_snapshot(&h);
    state.hosts.push(h);
    proof {
        assert(state@.hosts =~= old(state)@.hosts.push(added_host(n@)));
    }
    snap
}

/// The names but `host`, in order.
pub open spec fn others(names: Seq<Seq<char>>, host: Seq<char>) -> Seq<Seq<char>> {
    names.filter(|n: Seq<char>| n != host)
}

/// The hosts that a tunnel may go through once `host` is gone: the others, or any
/// where none is left.
pub open spec fn pins_without(pins: Option<Seq<Seq<char>>>, host: Seq<char>) -> Option<
    Seq<Seq<char>>,
> {
    match pins {
        Some(list) => if !list.contains(host) {
            Some(list)
        } else if others(list, host).len() == 0 {
            None
        } else {
            Some(others(list, host))
        },
        None => None,
    }
}

/// The hosts that a tunnel may go through once `host` is gone: the others, or any
/// where none is left.
pub fn jump_candidates_without(candidates: &Option<Vec<String>>, host: &str) -> (r: Option<
    Vec<String>,
>)
    ensures
        opt_texts(r) == pins_without(opt_texts(*candidates), host@),
{
    match candidates {
        None => None,
        Some(list) => {
            if !has_text(list, host) {
                return Some(copy_texts(list));
            }
            let ghost all = texts(list@);
            let ghost keeps = |n: Seq<char>| n != host@;
            let mut kept: Vec<String> = Vec::new();
            let mut i: usize = 0;
            proof {
                reveal(Seq::filter);
                assert(texts(kept@) =~= all.take(0).filter(keeps));
            }
            while i < list.len()
                invariant
                    all == texts(list@),
                    keeps == (|n: Seq<char>| n != host@),
                    i <= list@.len(),
                    texts(kept@) == all.take(i as int).filter(keeps),
                decreases list@.len() - i,
            {
                proof {
                    reveal(Seq::filter);
                    assert(all.take(i + 1).drop_last() =~= all.take(i as int));
                    assert(all.take(i + 1).last() == list@[i as int]@);
                }
                if !same_text(list[i].as_str(), host) {
                    let ghost before = texts(kept@);
                    let name: String = list[i].clone();
                    kept.push(name);
                    proof {
                        assert(texts(kept@) =~= before.push(name@));
                    }
                }
                i += 1;
            }
            proof {
                assert(all.take(i as int) =~= all);
                assert(texts(kept@).len() == kept@.len());
            }
            if kept.len() == 0 {
                None
            } else {
                Some(kept)
            }
        },
    }
}

/// The note on a tunnel that was pinned to a removed host.
pub open spec fn released_text(host: Seq<char>) -> Seq<char> {
    "jump host '"@ + host + "' was removed — using any ready host"@
}

/// A tunnel once `host` is gone.
pub open spec fn unpinned(t: TunnelView, host: Seq<char>) -> TunnelView {
    if t.jump_candidates is Some && t.jump_candidates->Some_0.contains(host) {
        TunnelView {
            jump_candidates: pins_without(t.jump_candidates, host),
            last_msg: released_text(host),
            ..t
        }
    } else {
        t
    }
}

/// The hosts but those called `host`, in order.
pub open spec fn other_hosts(hs: Seq<HostView>, host: Seq<char>) -> Seq<HostView> {
    hs.filter(|h: HostView| h.host != host)
}

/// The state without a host.
pub open spec fn without_host(st: StateView, host: Seq<char>) -> StateView {
    StateView {
        hosts: other_hosts(st.hosts, host),
        tunnels: st.tunnels.map_values(|t: TunnelView| unpinned(t, host)),
    }
}

/// Whether some tunnel is pinned to a host.
pub open spec fn pinned_to(ts: Seq<TunnelView>, host: Seq<char>) -> bool {
    exists|i: int|
        0 <= i < ts.len() && (#[trigger] ts[i]).jump_candidates is Some
            && ts[i].jump_candidates->Some_0.contains(host)
}

/// Begin to remove a host: it is no longer to be connected.
pub fn host_remove(state: &mut State, params: &Json) -> (r: Result<String, Error>)
    ensures
        match host_of(params@) {
            Ok(host) => if host_at(old(state)@, host) is Some {
                &&& text_result(r) == Ok::<_, ErrorView>(host)
                &&& final(state)@ == edit_host(
                    old(state)@,
                    host,
                    |h: HostView| HostView { active: false, last_msg: "Removing…"@, ..h },
                )
            } else {
                &&& text_result(r) == Err::<Seq<char>, _>(no_host(host))
                &&& final(state)@ == old(state)@
            },
            Err(e) => {
                &&& text_result(r) == Err::<Seq<char>, _>(e)
                &&& final(state)@ == old(state)@
            },
        },
        r matches Ok(host) ==> {
            &&& str_at(params@, "host"@) == Some(host@)
            &&& final(state)@.hosts.len() == old(state)@.hosts.len()
            &&& final(state)@.tunnels == old(state)@.tunnels
            &&& exists|i: int|
                {
                    &&& 0 <= i < old(state)@.hosts.len()
                    &&& (#[trigger] old(state)@.hosts[i]).host == host@
                    &&& !final(state)@.hosts[i].active
                    &&& final(state)@.hosts[i].host == host@
                    &&& forall|j: int|
                        0 <= j < old(state)@.hosts.len() && j != i
                            ==> #[trigger] final(state)@.hosts[j] == old(state)@.hosts[j]
                }
        },
{
    let host: String = match host_param(params) {
        Ok(host) => host,
        Err(e) => return Err(e),
    };
    match state.find_host(host.as_str()) {
        None => Err(Error::NotFound(cat2("host ", host.as_str()))),
        Some(i) => {
            proof {
                assert(old(state)@.hosts[i as int].host == host@);
            }
            let h: &mut Host = state.host_mut(i);
            h.active = false;
            h.last_msg = "Removing…".to_owned();
            Ok(host)
        },
    }
}

fn drop_host(state: &mut State, host: &str)
    ensures
        final(state)@.hosts == other_hosts(old(state)@.hosts, host@),
        final(state)@.tunnels == old(state)@.tunnels,
{
    let mut hosts: Vec<Host> = Vec::new();
    std::mem::swap(&mut hosts, &mut state.hosts);
    let ghost all = hosts_view(hosts@);
    let ghost stays = |h: HostView| h.host != host@;
    let mut kept: Vec<Host> = Vec::new();
    proof {
        reveal(Seq::filter);
        assert(hosts_view(kept@) =~= all.take(0).filter(stays));
    }
    let n: usize = hosts.len();
    let mut i: usize = 0;
    while i < n
        invariant
            n == all.len(),
            i <= n,
            hosts@.len() == n - i,
            hosts_view(hosts@) == all.skip(i as int),
            stays == (|h: HostView| h.host != host@),
            hosts_view(kept@) == all.take(i as int).filter(stays),
        decreases n - i,
    {
        let ghost rest = hosts@;
        let h: Host = hosts.remove(0);
        proof {
            reveal(Seq::filter);
            assert(hosts_view(rest)[0] == h@);
            assert(all[i as int] == h@);
            assert forall|j: int| 0 <= j < hosts@.len() implies hosts_view(hosts@)[j]
                == #[trigger] all.skip(i + 1)[j] by {
                assert(hosts_view(rest)[j + 1] == all.skip(i as int)[j + 1]);
            }
            assert(hosts_view(hosts@) =~= all.skip(i + 1));
            assert(all.take(i + 1).drop_last() =~= all.take(i as int));
            assert(all.take(i + 1).last() == h@);
        }
        if !same_text(h.host.as_str(), host) {
            let ghost before = hosts_view(kept@);
            kept.push(h);
            proof {
                assert(hosts_view(kept@) =~= before.push(h@));
            }
        }
        i += 1;
    }
    proof {
        assert(all.take(i as int) =~= all);
    }
    state.hosts = kept;
}

fn release_pins(state: &mut State, host: &str) -> (released: bool)
    ensures
        final(state)@.hosts == old(state)@.hosts,
        final(state)@.tunnels == old(state)@.tunnels.map_values(
            |t: TunnelView| unpinned(t, host@),
        ),
        released == pinned_to(old(state)@.tunnels, host@),
{
    let ghost st0 = state@;
    let mut released: bool = false;
    let mut i: usize = 0;
    while i < state.tunnels.len()
        invariant
            i <= state.tunnels@.len(),
            state@.hosts == st0.hosts,
            state.tunnels@.len() == st0.tunnels.len(),
            forall|j: int|
                0 <= j < i ==> #[trigger] state@.tunnels[j] == unpinned(st0.tunnels[j], host@),
            forall|j: int|
                i <= j < st0.tunnels.len() ==> #[trigger] state@.tunnels[j] == st0.tunnels[j],
            released == pinned_to(st0.tunnels.take(i as int), host@),
        decreases st0.tunnels.len() - i,
    {
        proof {
            assert(state@.tunnels[i as int] == st0.tunnels[i as int]);
            assert forall|j: int| 0 <= j < i implies st0.tunnels.take(i as int)[j]
                == st0.tunnels.take(i + 1)[j] by {}
        }
        let pinned: bool = match &state.tunnels[i].jump_candidates {
            Some(list) => has_text(list, host),
            None => false,
        };
        let ghost was = released;
        if pinned {
            let pins: Option<Vec<String>> = jump_candidates_without(
                &state.tunnels[i].jump_candidates,
                host,
            );
            let t: &mut Tunnel = state.tunnel_mut(i);
            t.jump_candidates = pins;
            t.last_msg = cat3("jump host '", host, "' was removed — using any ready host");
            released = true;
        }
        proof {
            assert(state@.tunnels.len() == state.tunnels@.len());
            let now = st0.tunnels.take(i + 1);
            let past = st0.tunnels.take(i as int);
            assert(now[i as int] == st0.tunnels[i as int]);
            if was {
                let k = choose|k: int|
                    0 <= k < past.len() && (#[trigger] past[k]).jump_candidates is Some
                        && past[k].jump_candidates->Some_0.contains(host@);
                assert(now[k] == past[k]);
            }
            if pinned_to(now, host@) && !pinned {
                let k = choose|k: int|
                    0 <= k < now.len() && (#[trigger] now[k]).jump_candidates is Some
                        && now[k].jump_candidates->Some_0.contains(host@);
                assert(past[k] == now[k]);
            }
        }
        i += 1;
    }
    proof {
        assert(st0.tunnels.take(i as int) =~= st0.tunnels);
        assert(state@.tunnels =~= st0.tunnels.map_values(|t: TunnelView| unpinned(t, host@)));
    }
    released
}

/// What is left to do outside once a host was removed.
#[derive(Debug, PartialEq)]
pub struct RemoveOrders {
    pub reply: Json,
    /// Whether the tunnel list is to be saved.
    pub persist: bool,
}

/// Remove a host whose connection and mounts were taken down, and release the
/// tunnels that were pinned to it. `credentials_deleted` says whether its
/// credentials could be deleted.
pub fn host_remove_finish(
    state: &mut State,
    cache: &mut CredsCache,
    managers: &mut HostManagers,
    host: &str,
    credentials_deleted: bool,
) -> (o: RemoveOrders)
    ensures
        final(state)@ == without_host(old(state)@, host@),
        final(cache)@ == old(cache)@.remove(host@),
        final(managers)@ == (ManagersView {
            pools: old(managers)@.pools.remove(host@),
            ..old(managers)@
        }),
        o.persist == pinned_to(old(state)@.tunnels, host@),
        o.reply@ == JsonView::Obj(
            Map::empty().insert("ok"@, JsonView::Bool(true)).insert(
                "host"@,
                JsonView::Str(host@),
            ).insert("credentials_deleted"@, JsonView::Bool(credentials_deleted)),
        ),
{
    invalidate_creds_cache(cache, host);
    drop_host(state, host);
    let persist: bool = release_pins(state, host);
    managers.forget(host);
    let mut f: Fields = Fields::new();
    f.put("ok", Json::Bool(true));
    f.put("host", Json::text(host));
    f.put("credentials_deleted", Json::Bool(credentials_deleted));
    RemoveOrders { reply: f.done(), persist }
}

proof fn lemma_filtered_hosts(hs: Seq<HostView>, host: Seq<char>)
    ensures
        forall|i: int|
            0 <= i < other_hosts(hs, host).len() ==> (#[trigger] other_hosts(hs, host)[i]).host
                != host,
        forall|i: int|
            0 <= i < hs.len() && (#[trigger] hs[i]).host != host ==> other_hosts(
                hs,
                host,
            ).contains(hs[i]),
    decreases hs.len(),
{
    reveal(Seq::filter);
    if hs.len() > 0 {
        let front = hs.drop_last();
        lemma_filtered_hosts(front, host);
        let kept = other_hosts(hs, host);
        let before = other_hosts(front, host);
        assert forall|i: int| 0 <= i < hs.len() && (#[trigger] hs[i]).host != host implies kept.contains(
            hs[i],
        ) by {
            if i < front.len() {
                assert(front[i] == hs[i]);
                let k = choose|k: int| 0 <= k < before.len() && before[k] == front[i];
                assert(kept[k] == hs[i]);
            } else {
                assert(kept[kept.len() - 1] == hs[i]);
            }
        }
        assert forall|i: int| 0 <= i < kept.len() implies (#[trigger] kept[i]).host != host by {
            if i < before.len() {
                assert(kept[i] == before[i]);
            }
        }
    }
}

proof fn lemma_others(names: Seq<Seq<char>>, host: Seq<char>)
    ensures
        !others(names, host).contains(host),
        forall|n: Seq<char>|
            n != host ==> (#[trigger] others(names, host).contains(n) == names.contains(n)),
    decreases names.len(),
{
    reveal(Seq::filter);
    if names.len() > 0 {
        let front = names.drop_last();
        lemma_others(front, host);
        let before = others(front, host);
        let kept = others(names, host);
        assert forall|n: Seq<char>| n != host implies (#[trigger] kept.contains(n)
            == names.contains(n)) by {
            assert(before.contains(n) == front.contains(n));
            if kept.contains(n) {
                let k = choose|k: int| 0 <= k < kept.len() && kept[k] == n;
                if k < before.len() {
                    assert(before[k] == n);
                    let m = choose|m: int| 0 <= m < front.len() && front[m] == n;
                    assert(names[m] == n);
                } else {
                    assert(names[names.len() - 1] == n);
                }
            }
            if names.contains(n) {
                let k = choose|k: int| 0 <= k < names.len() && names[k] == n;
                if k < front.len() {
                    assert(front[k] == n);
                    let m = choose|m: int| 0 <= m < before.len() && before[m] == n;
                    assert(kept[m] == n);
                } else {
                    assert(kept[kept.len() - 1] == n);
                }
            }
        }
        if kept.contains(host) {
            let k = choose|k: int| 0 <= k < kept.len() && kept[k] == host;
            assert(before[k] == host);
        }
    }
}

/// A pin to a removed host is dropped and the others stay. A pin that would be
/// left empty becomes no pin at all, so the tunnel can go through any host.
pub proof fn law_pins_survive_a_removal(pins: Option<Seq<Seq<char>>>, host: Seq<char>)
    ensures
        match pins_without(pins, host) {
            Some(kept) => {
                &&& pins is Some
                &&& !kept.contains(host)
                &&& kept.len() == 0 ==> pins->Some_0.len() == 0
                &&& forall|n: Seq<char>|
                    n != host ==> (#[trigger] kept.contains(n) == pins->Some_0.contains(n))
            },
            None => pins is Some ==> forall|n: Seq<char>|
                #[trigger] pins->Some_0.contains(n) ==> n == host,
        },
{
    if let Some(list) = pins {
        lemma_others(list, host);
        if pins_without(pins, host) is None {
            assert forall|n: Seq<char>| #[trigger] list.contains(n) implies n == host by {
                if n != host {
                    assert(others(list, host).contains(n));
                }
            }
        }
    }
}

/// Once a host was removed it is not listed, no tunnel is pinned to it, and the
/// other hosts are listed as before.
pub proof fn law_a_removed_host_is_gone(st: StateView, host: Seq<char>)
    ensures
        ({
            let left = without_host(st, host);
            &&& host_at(left, host) is None
            &&& !pinned_to(left.tunnels, host)
            &&& forall|i: int|
                0 <= i < st.hosts.len() && (#[trigger] st.hosts[i]).host != host
                    ==> left.hosts.contains(st.hosts[i])
        }),
{
    let left = without_host(st, host);
    lemma_filtered_hosts(st.hosts, host);
    lemma_first(host_names(left.hosts), host);
    if host_names(left.hosts).contains(host) {
        let k = choose|k: int|
            0 <= k < host_names(left.hosts).len() && host_names(left.hosts)[k] == host;
        assert(left.hosts[k].host != host);
    }
    assert forall|i: int| 0 <= i < left.tunnels.len() implies !((
    #[trigger] left.tunnels[i]).jump_candidates is Some
        && left.tunnels[i].jump_candidates->Some_0.contains(host)) by {
        assert(left.tunnels[i] == unpinned(st.tunnels[i], host));
        law_pins_survive_a_removal(st.tunnels[i].jump_candidates, host);
    }
}

/// A host switched twice is on as before.
pub proof fn law_switching_twice_keeps_active(h: HostView, managed: bool)
    ensures
        flipped(flipped(h, managed), managed).active == h.active,
        flipped(h, managed).active == !h.active,
{
}

/// A safe host name is one name in a path.
pub proof fn law_a_safe_host_name_is_one_folder(host: Seq<char>)
    requires
        safe_host(host),
    ensures
        one_name(host),
{
    if host.contains('/') {
        let k = choose|k: int| 0 <= k < host.len() && host[k] == '/';
        assert(host_char(host[k]));
    }
    assert(host[0] != '.');
}

/// A new host is what its request says: the name under "host", the password under
/// "password" as given, the trimmed address under "otpauth_url", the last two empty
/// where there is none, and whether to connect it at once. A request that differs in
/// the password alone gives a host that differs in the password alone.
pub proof fn law_a_new_host_is_what_its_request_says(
    m: Map<Seq<char>, JsonView>,
    host: Seq<char>,
    other: Seq<char>,
)
    requires
        m.contains_key("host"@),
        m["host"@] == JsonView::Str(host),
        safe_host(host),
    ensures
        new_host_of(JsonView::Obj(m)) matches Ok(n) && {
            &&& n.host == host
            &&& m.contains_key("password"@) ==> (m["password"@] matches JsonView::Str(p)
                ==> n.password == p)
            &&& !m.contains_key("password"@) ==> n.password.len() == 0
            &&& m.contains_key("otpauth_url"@) ==> (m["otpauth_url"@] matches JsonView::Str(u)
                ==> n.otpauth_url == trimmed(u))
            &&& n.auto_connect <==> m.contains_key("auto_connect"@) && m["auto_connect"@]
                == JsonView::Bool(true)
            &&& new_host_of(
                JsonView::Obj(m.insert("password"@, JsonView::Str(other))),
            ) matches Ok(n2) && n2 == (NewHostView { password: other, ..n })
        },
        !m.remove("host"@).contains_key("host"@) ==> new_host_of(
            JsonView::Obj(m.remove("host"@)),
        ) is Err,
{
    reveal_strlit("host");
    reveal_strlit("password");
    reveal_strlit("otpauth_url");
    reveal_strlit("auto_connect");
    assert("password"@[0] != "host"@[0]);
    assert("password"@[0] != "otpauth_url"@[0]);
    assert("password"@[0] != "auto_connect"@[0]);
}

/// A host name is safe only where it is made of letters, digits, dots, dashes and
/// underscores, begins with neither a dash nor a dot, and holds no two dots in a row.
/// Every non-empty name of letters and digits is safe.
pub proof fn law_safe_host_names(host: Seq<char>)
    ensures
        safe_host(host) ==> {
            &&& host.len() > 0
            &&& host[0] != '-' && host[0] != '.'
            &&& !host.contains('/') && !host.contains(' ') && !host.contains('\n')
            &&& forall|i: int|
                0 <= i < host.len() - 1 ==> !(#[trigger] host[i] == '.' && host[i + 1] == '.')
        },
        host.len() > 0 && (forall|i: int|
            0 <= i < host.len() ==> ('a' <= #[trigger] host[i] <= 'z') || ('A' <= host[i] <= 'Z')
                || ('0' <= host[i] <= '9')) ==> safe_host(host),
        forall|e: ErrorView| #[trigger]
            host_of(JsonView::Obj(Map::empty().insert("host"@, JsonView::Str(host)))) == Err::<
                Seq<char>,
                _,
            >(e) ==> !safe_host(host),
{
    reveal_strlit("..");
    if safe_host(host) {
        if host.contains('/') || host.contains(' ') || host.contains('\n') {
            let k = choose|k: int|
                0 <= k < host.len() && (host[k] == '/' || host[k] == ' ' || host[k] == '\n');
            assert(host_char(host[k]));
        }
        assert forall|i: int| 0 <= i < host.len() - 1 implies !(#[trigger] host[i] == '.' && host[i
            + 1] == '.') by {
            if host[i] == '.' && host[i + 1] == '.' {
                assert(host.subrange(i, i + 2) =~= ".."@);
                assert(has_part(host, ".."@));
            }
        }
    }
    if host.len() > 0 && (forall|i: int|
        0 <= i < host.len() ==> ('a' <= #[trigger] host[i] <= 'z') || ('A' <= host[i] <= 'Z') || (
        '0' <= host[i] <= '9')) {
        assert(('a' <= host[0] <= 'z') || ('A' <= host[0] <= 'Z') || ('0' <= host[0] <= '9'));
        if has_part(host, ".."@) {
            let i = choose|i: int|
                0 <= i <= host.len() - ".."@.len() && #[trigger] host.subrange(i, i + ".."@.len())
                    == ".."@;
            assert(host.subrange(i, i + 2)[0] == host[i]);
            assert(host[i] == '.');
        }
    }
}

/// A switch turns the addressed host the other way, says so in the reply, and has it
/// connected where it is now on and disconnected where it is now off. Nothing else
/// changes; a host that is not known is refused.
pub proof fn law_a_switch_turns_one_host(
    st: StateView,
    m: Map<Seq<char>, JsonView>,
    host: Seq<char>,
    managed: bool,
    i: int,
)
    requires
        m.contains_key("host"@),
        m["host"@] == JsonView::Str(host),
        0 <= i < st.hosts.len(),
        st.hosts[i].host == host,
        forall|j: int| 0 <= j < i ==> (#[trigger] st.hosts[j]).host != host,
    ensures
        ({
            let params = JsonView::Obj(m);
            let after = toggled(st, params, managed);
            &&& after.hosts.len() == st.hosts.len()
            &&& after.tunnels == st.tunnels
            &&& after.hosts[i].active == !st.hosts[i].active
            &&& after.hosts[i].host == host
            &&& after.hosts[i].is_master_ready == st.hosts[i].is_master_ready
            &&& after.hosts[i].pool_index == st.hosts[i].pool_index
            &&& !st.hosts[i].active && managed ==> after.hosts[i].status == "Connecting"@
            &&& forall|j: int|
                0 <= j < st.hosts.len() && j != i ==> #[trigger] after.hosts[j] == st.hosts[j]
            &&& toggle_result(st, params, managed) matches Ok(JsonView::Obj(f)) && f.contains_key(
                "active"@,
            ) && f["active"@] == JsonView::Bool(!st.hosts[i].active) && f.contains_key("host"@)
                && f["host"@] == JsonView::Str(host)
            &&& forall|work: Option<ToggleWork>| #[trigger]
                toggle_work(st, params, managed, work) ==> (work matches Some(w) && w.host@ == host
                    && w.connect == !st.hosts[i].active && w.managed == managed)
        }),
{
    lemma_host_is(st, host, i);
    law_a_host_is_listed_as_recorded(flipped(st.hosts[i], managed));
}

/// A request about a host that is not known is refused and changes nothing.
pub proof fn law_an_unknown_host_is_not_switched(
    st: StateView,
    m: Map<Seq<char>, JsonView>,
    host: Seq<char>,
    managed: bool,
)
    requires
        m.contains_key("host"@),
        m["host"@] == JsonView::Str(host),
        forall|j: int| 0 <= j < st.hosts.len() ==> (#[trigger] st.hosts[j]).host != host,
    ensures
        toggled(st, JsonView::Obj(m), managed) == st,
        toggle_result(st, JsonView::Obj(m), managed) matches Err(ErrorView::NotFound(_)),
        forall|work: Option<ToggleWork>| #[trigger]
            toggle_work(st, JsonView::Obj(m), managed, work) ==> work is None,
{
    lemma_first(host_names(st.hosts), host);
    if host_names(st.hosts).contains(host) {
        let k = choose|k: int| 0 <= k < host_names(st.hosts).len() && host_names(st.hosts)[k] == host;
        assert(st.hosts[k].host == host);
    }
}

/// The first host that carries a name is the one it addresses.
pub proof fn lemma_host_is(st: StateView, host: Seq<char>, i: int)
    requires
        0 <= i < st.hosts.len(),
        st.hosts[i].host == host,
        forall|j: int| 0 <= j < i ==> (#[trigger] st.hosts[j]).host != host,
    ensures
        host_at(st, host) == Some(i),
{
    let names = host_names(st.hosts);
    assert forall|j: int| 0 <= j < i implies names[j] != host by {
        assert(st.hosts[j].host != host);
    }
    lemma_first_is(names, host, i);
}

/// A host is listed as it is recorded, field by field.
pub proof fn law_a_host_is_listed_as_recorded(h: HostView)
    ensures
        host_json(h) matches JsonView::Obj(f) && {
            &&& f.contains_key("host"@) && f["host"@] == JsonView::Str(h.host)
            &&& f.contains_key("status"@) && f["status"@] == JsonView::Str(h.status)
            &&& f.contains_key("active"@) && f["active"@] == JsonView::Bool(h.active)
            &&& f.contains_key("is_master_ready"@) && f["is_master_ready"@] == JsonView::Bool(
                h.is_master_ready,
            )
            &&& f.contains_key("pool_index"@) && f["pool_index"@] == JsonView::Uint(
                h.pool_index as u64,
            )
            &&& f.contains_key("pool_alive"@) && f["pool_alive"@] == JsonView::Uint(
                h.pool_alive as u64,
            )
            &&& f.contains_key("is_mounted"@) && f["is_mounted"@] == JsonView::Bool(h.is_mounted)
            &&& f.contains_key("last_msg"@) && f["last_msg"@] == JsonView::Str(h.last_msg)
        },
{
    reveal_strlit("host");
    reveal_strlit("status");
    reveal_strlit("active");
    reveal_strlit("is_master_ready");
    reveal_strlit("pool_index");
    reveal_strlit("pool_alive");
    reveal_strlit("is_mounted");
    reveal_strlit("last_msg");
    assert("host"@.len() == 4);
    assert("status"@[0] == 's' && "active"@[0] == 'a' && "last_msg"@[0] == 'l');
    assert("pool_index"@[5] == 'i' && "pool_alive"@[5] == 'a');
    assert("is_master_ready"@.len() == 15 && "is_mounted"@.len() == 10);
    assert("is_mounted"@[0] == 'i' && "pool_index"@[0] == 'p' && "pool_alive"@[0] == 'p');
}

/// All hosts are listed, in their order.
pub proof fn law_all_hosts_are_listed(st: StateView)
    ensures
        hosts_json(st) matches JsonView::Arr(items) && items.len() == st.hosts.len() && forall|
            i: int,
        |
            0 <= i < st.hosts.len() ==> #[trigger] items[i] == host_json(st.hosts[i]),
{
}

/// A host is added only under a name that no host carries, and only where its secret
/// can be read or it has none; then it is. It begins idle and not connected, under the
/// name asked for, and enabled exactly where it is to be connected at once.
pub proof fn law_a_host_is_added_once(
    st: StateView,
    n: NewHostView,
    secret: Result<Seq<char>, Seq<char>>,
)
    ensures
        add_refusal(st, n, secret) is None <==> {
            &&& forall|i: int| 0 <= i < st.hosts.len() ==> (#[trigger] st.hosts[i]).host != n.host
            &&& n.otpauth_url.len() == 0 || secret is Ok
        },
        (exists|i: int| 0 <= i < st.hosts.len() && (#[trigger] st.hosts[i]).host == n.host)
            && secret is Ok ==> (add_refusal(st, n, secret) matches Some(ErrorView::Duplicate(_))),
        n.otpauth_url.len() > 0 && secret is Err ==> (add_refusal(st, n, secret) matches Some(
            ErrorView::BadParams(_),
        )),
        ({
            let h = added_host(n);
            &&& h.host == n.host
            &&& h.active == n.auto_connect
            &&& !h.is_master_ready && h.pool_alive == 0 && !h.is_mounted
            &&& h.status == "Idle"@
        }),
{
    let names = host_names(st.hosts);
    lemma_first(names, n.host);
    if host_at(st, n.host) is Some {
        let k = host_at(st, n.host)->Some_0;
        assert(st.hosts[k].host == n.host);
    } else {
        assert forall|i: int| 0 <= i < st.hosts.len() implies (#[trigger] st.hosts[i]).host
            != n.host by {
            assert(names[i] == st.hosts[i].host);
        }
    }
}

/// Removing a host changes no tunnel but for the hosts it may go through and its
/// message, and keeps every other host as it was.
pub proof fn law_a_removal_touches_only_pins(st: StateView, host: Seq<char>)
    ensures
        ({
            let left = without_host(st, host);
            &&& left.tunnels.len() == st.tunnels.len()
            &&& forall|i: int|
                0 <= i < st.tunnels.len() ==> {
                    let t = #[trigger] left.tunnels[i];
                    &&& t == (TunnelView {
                        jump_candidates: t.jump_candidates,
                        last_msg: t.last_msg,
                        ..st.tunnels[i]
                    })
                    &&& t.jump_candidates matches Some(cs) ==> !cs.contains(host)
                    &&& (st.tunnels[i].jump_candidates is None) ==> t == st.tunnels[i]
                    &&& st.tunnels[i].jump_candidates matches Some(cs) ==> !cs.contains(host) ==> t
                        == st.tunnels[i]
                }
            &&& forall|i: int| 0 <= i < left.hosts.len() ==> (#[trigger] left.hosts[i]).host != host
            &&& forall|i: int|
                0 <= i < left.hosts.len() ==> st.hosts.contains(#[trigger] left.hosts[i])
            &&& forall|i: int|
                0 <= i < st.hosts.len() && (#[trigger] st.hosts[i]).host != host
                    ==> left.hosts.contains(st.hosts[i])
        }),
{
    let left = without_host(st, host);
    lemma_filtered_hosts(st.hosts, host);
    assert forall|i: int| 0 <= i < left.hosts.len() implies st.hosts.contains(
        #[trigger] left.hosts[i],
    ) by {
        lemma_filtered_from(st.hosts, host, i);
    }
    assert forall|i: int| 0 <= i < st.tunnels.len() implies ((
    #[trigger] left.tunnels[i]).jump_candidates matches Some(cs) ==> !cs.contains(host)) by {
        law_pins_survive_a_removal(st.tunnels[i].jump_candidates, host);
    }
}

proof fn lemma_filtered_from(hs: Seq<HostView>, host: Seq<char>, i: int)
    requires
        0 <= i < other_hosts(hs, host).len(),
    ensures
        hs.contains(other_hosts(hs, host)[i]),
    decreases hs.len(),
{
    reveal(Seq::filter);
    if hs.len() > 0 {
        let front = hs.drop_last();
        let before = other_hosts(front, host);
        if i < before.len() {
            lemma_filtered_from(front, host, i);
            let k = choose|k: int| 0 <= k < front.len() && front[k] == before[i];
            assert(hs[k] == before[i]);
        } else {
            assert(hs[hs.len() - 1] == other_hosts(hs, host)[i]);
        }
    }
}

/// A rotation by hand is granted exactly where an enabled host carries the name; it
/// does nothing else.
pub proof fn law_when_a_rotation_is_granted(
    st: StateView,
    m: Map<Seq<char>, JsonView>,
    host: Seq<char>,
)
    requires
        m.contains_key("host"@),
        m["host"@] == JsonView::Str(host),
    ensures
        ({
            let r = rotate_asked(st, JsonView::Obj(m));
            &&& r.result is Ok <==> exists|i: int|
                0 <= i < st.hosts.len() && (#[trigger] st.hosts[i]).host == host
                    && st.hosts[i].active
            &&& !r.effects.persist && r.effects.kill is None && r.effects.start is None
        }),
{
}

/// An optional text or flag of a request is the one that it has under the key; absent
/// and `null` count as none, and another kind of value is refused.
pub proof fn law_optional_fields_are_read_as_given(m: Map<Seq<char>, JsonView>, key: Seq<char>)
    ensures
        !m.contains_key(key) || m[key] is Null ==> {
            &&& opt_str_of(JsonView::Obj(m), key) == Ok::<Option<Seq<char>>, ErrorView>(None)
            &&& opt_bool_of(JsonView::Obj(m), key) == Ok::<bool, ErrorView>(false)
        },
        m.contains_key(key) && m[key] is Str ==> {
            &&& opt_str_of(JsonView::Obj(m), key) == Ok::<_, ErrorView>(Some(m[key]->Str_0))
            &&& opt_bool_of(JsonView::Obj(m), key) is Err
        },
        m.contains_key(key) && m[key] is Bool ==> {
            &&& opt_bool_of(JsonView::Obj(m), key) == Ok::<_, ErrorView>(m[key]->Bool_0)
            &&& opt_str_of(JsonView::Obj(m), key) is Err
        },
        m.contains_key(key) && m[key] is Uint ==> {
            &&& opt_bool_of(JsonView::Obj(m), key) is Err
            &&& opt_str_of(JsonView::Obj(m), key) is Err
        },
{
}

/// A name of letters, digits, dots, underscores and dashes that begins with neither a
/// dot nor a dash and has no two dots in a row names a host.
pub proof fn law_which_names_name_a_host(host: Seq<char>)
    requires
        host.len() > 0,
        host[0] != '-' && host[0] != '.',
        forall|i: int|
            0 <= i < host.len() ==> ('a' <= #[trigger] host[i] <= 'z') || ('A' <= host[i] <= 'Z')
                || ('0' <= host[i] <= '9') || host[i] == '.' || host[i] == '_' || host[i] == '-',
        forall|i: int|
            0 <= i < host.len() - 1 ==> !(#[trigger] host[i] == '.' && host[i + 1] == '.'),
    ensures
        safe_host(host),
{
    reveal_strlit("..");
    if has_part(host, ".."@) {
        let i = choose|i: int|
            0 <= i <= host.len() - ".."@.len() && #[trigger] host.subrange(i, i + ".."@.len())
                == ".."@;
        assert(host.subrange(i, i + 2)[0] == host[i] && host.subrange(i, i + 2)[1] == host[i + 1]);
    }
}

/// A host just added is idle and not connected: its first slot is the one to use, no
/// slot is alive, nothing is mounted, and it is enabled where the request says so.
pub proof fn law_an_added_host_is_not_connected(n: NewHostView)
    ensures
        ({
            let h = added_host(n);
            &&& h.host == n.host && h.active == n.auto_connect
            &&& h.status == "Idle"@ && h.last_msg == "Added"@
            &&& !h.is_master_ready && !h.is_mounted
            &&& h.pool_index == 0 && h.pool_alive == 0
        }),
{
}

/// A switch that is refused leaves no work; one that is made leaves the connection or
/// the disconnection of the host to be done.
pub proof fn law_a_switch_leaves_its_work(
    st: StateView,
    params: JsonView,
    managed: bool,
    work: Option<ToggleWork>,
)
    requires
        toggle_work(st, params, managed, work),
    ensures
        toggle_result(st, params, managed) is Ok <==> work is Some,
        work matches Some(w) ==> host_named(params) == Ok::<_, ErrorView>(w.host@) && w.managed
            == managed,
{
}

} // verus!
