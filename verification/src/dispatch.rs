//! From a request line to a reply line.
use crate::handlers::{Effects, Reply, ReplyView, answered};
use crate::handlers::discovery::{port_asked, port_suggest};
use crate::handlers::hosts::{
    ToggleReply, ToggleWork, host_rotate, host_toggle_managed, hosts_json, list_hosts, ping,
    ping_json, rotate_asked, toggle_result, toggle_work, toggled,
};
use crate::handlers::system::{
    ResetOrders, ResetView, reset_all, reset_asked, subscribe_events_ack, subscribed_json,
};
use crate::handlers::tunnel_settings::{
    autostart_asked, candidates_asked, ports_asked, post_connect_asked, rename_asked, tags_asked,
    tunnel_rename, tunnel_set_autostart, tunnel_set_jump_candidates, tunnel_set_ports,
    tunnel_set_post_connect, tunnel_set_tags, tunnel_set_url_path, url_path_asked,
};
use crate::handlers::tunnels::{
    add_asked, events_asked, list_tunnels, node_asked, remove_asked, start_asked, stop_asked,
    toggle_asked, tunnel_add, tunnel_events, tunnel_remove, tunnel_set_node, tunnel_start,
    tunnel_stop, tunnel_toggle, tunnels_json,
};
use crate::json::{
    Fields, Json, JsonView, bool_at, field, parse_json, parsed, render_json, rendered, simple,
    uint_at,
};
use crate::model::{Error, ErrorView, State, StateView, error_code, error_text, outcome};
use crate::text::{cat2, cat3, same_text, texts, trim_end, trim_end_of};
use crate::tunnel_runtime::{RuntimeView, TunnelRuntime};
use vstd::prelude::*;
use vstd::utf8::{decode_utf8, valid_utf8};

verus! {

/// What can be asked for.
#[derive(Debug, Clone, Copy, PartialEq, Eq, Structural)]
pub enum Method {
    Ping,
    LogTail,
    WakeRecover,
    ResetAll,
    SubscribeEvents,
    ListHosts,
    HostToggle,
    HostMountToggle,
    HostMounts,
    HostMountRepair,
    HostRotate,
    HostAdd,
    HostRemove,
    HostTestCredentials,
    HostTotp,
    HostListDir,
    HostCredentials,
    HostRevealCredentials,
    HostSetCredentials,
    CredentialsConsolidate,
    ListTunnels,
    PortSuggest,
    TunnelEvents,
    TunnelAdd,
    TunnelRemove,
    TunnelStart,
    TunnelStop,
    TunnelToggle,
    TunnelSetNode,
    TunnelSetAutostart,
    TunnelSetJumpCandidates,
    TunnelSetPostConnect,
    TunnelSetTags,
    TunnelSetUrlPath,
    TunnelSetPorts,
    TunnelRename,
    TunnelsBatch,
    DiscoverNodes,
}

/// The method that a name stands for.
pub open spec fn method_named(name: Seq<char>) -> Option<Method> {
    if name == "ping"@ {
        Some(Method::Ping)
    } else if name == "log_tail"@ {
        Some(Method::LogTail)
    } else if name == "wake_recover"@ {
        Some(Method::WakeRecover)
    } else if name == "reset_all"@ {
        Some(Method::ResetAll)
    } else if name == "subscribe_events"@ {
        Some(Method::SubscribeEvents)
    } else if name == "list_hosts"@ {
        Some(Method::ListHosts)
    } else if name == "host_toggle"@ {
        Some(Method::HostToggle)
    } else if name == "host_mount_toggle"@ {
        Some(Method::HostMountToggle)
    } else if name == "host_mounts"@ {
        Some(Method::HostMounts)
    } else if name == "host_mount_repair"@ {
        Some(Method::HostMountRepair)
    } else if name == "host_rotate"@ {
        Some(Method::HostRotate)
    } else if name == "host_add"@ {
        Some(Method::HostAdd)
    } else if name == "host_remove"@ {
        Some(Method::HostRemove)
    } else if name == "host_test_credentials"@ {
        Some(Method::HostTestCredentials)
    } else if name == "host_totp"@ {
        Some(Method::HostTotp)
    } else if name == "host_list_dir"@ {
        Some(Method::HostListDir)
    } else if name == "host_credentials"@ {
        Some(Method::HostCredentials)
    } else if name == "host_reveal_credentials"@ {
        Some(Method::HostRevealCredentials)
    } else if name == "host_set_credentials"@ {
        Some(Method::HostSetCredentials)
    } else if name == "credentials_consolidate"@ {
        Some(Method::CredentialsConsolidate)
    } else if name == "list_tunnels"@ {
        Some(Method::ListTunnels)
    } else if name == "port_suggest"@ {
        Some(Method::PortSuggest)
    } else if name == "tunnel_events"@ {
        Some(Method::TunnelEvents)
    } else if name == "tunnel_add"@ {
        Some(Method::TunnelAdd)
    } else if name == "tunnel_remove"@ {
        Some(Method::TunnelRemove)
    } else if name == "tunnel_start"@ {
        Some(Method::TunnelStart)
    } else if name == "tunnel_stop"@ {
        Some(Method::TunnelStop)
    } else if name == "tunnel_toggle"@ {
        Some(Method::TunnelToggle)
    } else if name == "tunnel_set_node"@ {
        Some(Method::TunnelSetNode)
    } else if name == "tunnel_set_autostart"@ {
        Some(Method::TunnelSetAutostart)
    } else if name == "tunnel_set_jump_candidates"@ {
        Some(Method::TunnelSetJumpCandidates)
    } else if name == "tunnel_set_post_connect"@ {
        Some(Method::TunnelSetPostConnect)
    } else if name == "tunnel_set_tags"@ {
        Some(Method::TunnelSetTags)
    } else if name == "tunnel_set_url_path"@ {
        Some(Method::TunnelSetUrlPath)
    } else if name == "tunnel_set_ports"@ {
        Some(Method::TunnelSetPorts)
    } else if name == "tunnel_rename"@ {
        Some(Method::TunnelRename)
    } else if name == "tunnels_batch"@ {
        Some(Method::TunnelsBatch)
    } else if name == "discover_nodes"@ {
        Some(Method::DiscoverNodes)
    } else {
        None
    }
}

impl Method {
    /// The method that a name stands for.
    pub fn from_str(name: &str) -> (r: Option<Method>)
        ensures
            r == method_named(name@),
    {
        if same_text(name, "ping") {
            Some(Method::Ping)
        } else if same_text(name, "log_tail") {
            Some(Method::LogTail)
        } else if same_text(name, "wake_recover") {
            Some(Method::WakeRecover)
        } else if same_text(name, "reset_all") {
            Some(Method::ResetAll)
        } else if same_text(name, "subscribe_events") {
            Some(Method::SubscribeEvents)
        } else if same_text(name, "list_hosts") {
            Some(Method::ListHosts)
        } else if same_text(name, "host_toggle") {
            Some(Method::HostToggle)
        } else if same_text(name, "host_mount_toggle") {
            Some(Method::HostMountToggle)
        } else if same_text(name, "host_mounts") {
            Some(Method::HostMounts)
        } else if same_text(name, "host_mount_repair") {
            Some(Method::HostMountRepair)
        } else if same_text(name, "host_rotate") {
            Some(Method::HostRotate)
        } else if same_text(name, "host_add") {
            Some(Method::HostAdd)
        } else if same_text(name, "host_remove") {
            Some(Method::HostRemove)
        } else if same_text(name, "host_test_credentials") {
            Some(Method::HostTestCredentials)
        } else if same_text(name, "host_totp") {
            Some(Method::HostTotp)
        } else if same_text(name, "host_list_dir") {
            Some(Method::HostListDir)
        } else if same_text(name, "host_credentials") {
            Some(Method::HostCredentials)
        } else if same_text(name, "host_reveal_credentials") {
            Some(Method::HostRevealCredentials)
        } else if same_text(name, "host_set_credentials") {
            Some(Method::HostSetCredentials)
        } else if same_text(name, "credentials_consolidate") {
            Some(Method::CredentialsConsolidate)
        } else if same_text(name, "list_tunnels") {
            Some(Method::ListTunnels)
        } else if same_text(name, "port_suggest") {
            Some(Method::PortSuggest)
        } else if same_text(name, "tunnel_events") {
            Some(Method::TunnelEvents)
        } else if same_text(name, "tunnel_add") {
            Some(Method::TunnelAdd)
        } else if same_text(name, "tunnel_remove") {
            Some(Method::TunnelRemove)
        } else if same_text(name, "tunnel_start") {
            Some(Method::TunnelStart)
        } else if same_text(name, "tunnel_stop") {
            Some(Method::TunnelStop)
        } else if same_text(name, "tunnel_toggle") {
            Some(Method::TunnelToggle)
        } else if same_text(name, "tunnel_set_node") {
            Some(Method::TunnelSetNode)
        } else if same_text(name, "tunnel_set_autostart") {
            Some(Method::TunnelSetAutostart)
        } else if same_text(name, "tunnel_set_jump_candidates") {
            Some(Method::TunnelSetJumpCandidates)
        } else if same_text(name, "tunnel_set_post_connect") {
            Some(Method::TunnelSetPostConnect)
        } else if same_text(name, "tunnel_set_tags") {
            Some(Method::TunnelSetTags)
        } else if same_text(name, "tunnel_set_url_path") {
            Some(Method::TunnelSetUrlPath)
        } else if same_text(name, "tunnel_set_ports") {
            Some(Method::TunnelSetPorts)
        } else if same_text(name, "tunnel_rename") {
            Some(Method::TunnelRename)
        } else if same_text(name, "tunnels_batch") {
            Some(Method::TunnelsBatch)
        } else if same_text(name, "discover_nodes") {
            Some(Method::DiscoverNodes)
        } else {
            None
        }
    }
}

/// `String::from_utf8`. The claim: it succeeds exactly on UTF-8, with the text
/// that the bytes encode.
#[verifier::external_body]
fn text_of(bytes: Vec<u8>) -> (r: Option<String>)
    ensures
        match r {
            Some(s) => valid_utf8(bytes@) && s@ == decode_utf8(bytes@),
            None => !valid_utf8(bytes@),
        },
{
    String::from_utf8(bytes).ok()
}

/// The object that a request line holds, or what is wrong with the line.
pub open spec fn line_object(line: Seq<u8>) -> Result<JsonView, Seq<char>> {
    if !valid_utf8(line) {
        Err("invalid UTF-8"@)
    } else {
        match parsed(trim_end_of(decode_utf8(line))) {
            None => Err("bad JSON"@),
            Some(j) => if j is Obj {
                Ok(j)
            } else {
                Err("request must be a JSON object"@)
            },
        }
    }
}

/// The object that a request line holds, or what is wrong with the line.
pub fn read_line(line: Vec<u8>) -> (r: Result<Json, String>)
    ensures
        match r {
            Ok(j) => line_object(line@) == Ok::<_, Seq<char>>(j@),
            Err(e) => line_object(line@) == Err::<JsonView, _>(e@),
        },
{
    match text_of(line) {
        None => Err("invalid UTF-8".to_owned()),
        Some(text) => match parse_json(trim_end(text.as_str()).as_str()) {
            None => Err("bad JSON".to_owned()),
            Some(j) => match j {
                Json::Obj(_) => Ok(j),
                _ => Err("request must be a JSON object".to_owned()),
            },
        },
    }
}

/// A request.
#[derive(Debug, PartialEq)]
pub struct Call {
    pub id: String,
    pub method: Method,
    pub params: Json,
}

/// What a request says.
#[verifier::ext_equal]
pub struct CallView {
    pub id: Seq<char>,
    pub method: Method,
    pub params: JsonView,
}

impl View for Call {
    type V = CallView;

    open spec fn view(&self) -> CallView {
        CallView { id: self.id@, method: self.method, params: self.params@ }
    }
}

/// Why a line is no request: the id as far as it is known, a code and a text.
#[derive(Debug, PartialEq)]
pub struct Unreadable {
    pub id: String,
    pub code: String,
    pub text: String,
}

/// What a refusal of a line says.
#[verifier::ext_equal]
pub struct UnreadableView {
    pub id: Seq<char>,
    pub code: Seq<char>,
    pub text: Seq<char>,
}

impl View for Unreadable {
    type V = UnreadableView;

    open spec fn view(&self) -> UnreadableView {
        UnreadableView { id: self.id@, code: self.code@, text: self.text@ }
    }
}

/// A line that is malformed.
pub open spec fn malformed(text: Seq<char>) -> UnreadableView {
    UnreadableView { id: Seq::empty(), code: "invalid_request"@, text }
}

/// The text that a request has under a key, or what is wrong there.
pub open spec fn needed_text(j: JsonView, key: Seq<char>) -> Result<Seq<char>, Seq<char>> {
    match field(j, key) {
        Some(JsonView::Str(s)) => Ok(s),
        Some(_) => Err("invalid type in field `"@ + key + "`, expected a string"@),
        None => Err("missing field `"@ + key + "`"@),
    }
}

/// What a line asks for, or why it is no request.
pub open spec fn call_of(line: Seq<u8>) -> Result<CallView, UnreadableView> {
    match line_object(line) {
        Err(text) => Err(malformed(text)),
        Ok(j) => match needed_text(j, "id"@) {
            Err(text) => Err(malformed(text)),
            Ok(id) => match needed_text(j, "method"@) {
                Err(text) => Err(malformed(text)),
                Ok(name) => match method_named(name) {
                    None => Err(
                        UnreadableView {
                            id,
                            code: "unknown_method"@,
                            text: "unknown method "@ + name,
                        },
                    ),
                    Some(method) => Ok(
                        CallView {
                            id,
                            method,
                            params: match field(j, "params"@) {
                                Some(p) => p,
                                None => JsonView::Null,
                            },
                        },
                    ),
                },
            },
        },
    }
}

fn malformed_line(text: String) -> (u: Unreadable)
    ensures
        u@ == malformed(text@),
{
    proof {
        reveal_strlit("");
        assert(""@ =~= Seq::<char>::empty());
    }
    Unreadable { id: "".to_owned(), code: "invalid_request".to_owned(), text }
}

fn text_needed(j: &Json, key: &str) -> (r: Result<String, String>)
    ensures
        match r {
            Ok(s) => needed_text(j@, key@) == Ok::<_, Seq<char>>(s@),
            Err(e) => needed_text(j@, key@) == Err::<Seq<char>, _>(e@),
        },
{
    match j.get(key) {
        Some(v) => match v {
            Json::Str(s) => Ok(s.clone()),
            _ => Err(cat3("invalid type in field `", key, "`, expected a string")),
        },
        None => Err(cat3("missing field `", key, "`")),
    }
}

/// What a line asks for, or why it is no request.
pub fn read_call(line: Vec<u8>) -> (r: Result<Call, Unreadable>)
    ensures
        match r {
            Ok(c) => call_of(line@) == Ok::<_, UnreadableView>(c@),
            Err(u) => call_of(line@) == Err::<CallView, _>(u@),
        },
{
    let j: Json = match read_line(line) {
        Ok(j) => j,
        Err(text) => return Err(malformed_line(text)),
    };
    let id: String = match text_needed(&j, "id") {
        Ok(id) => id,
        Err(text) => return Err(malformed_line(text)),
    };
    let name: String = match text_needed(&j, "method") {
        Ok(name) => name,
        Err(text) => return Err(malformed_line(text)),
    };
    let method: Method = match Method::from_str(name.as_str()) {
        Some(m) => m,
        None => {
            let text: String = cat2("unknown method ", name.as_str());
            return Err(Unreadable { id, code: "unknown_method".to_owned(), text });
        },
    };
    let params: Json = match j.take("params") {
        Some(p) => p,
        None => Json::Null,
    };
    Ok(Call { id, method, params })
}

/// A reply with a result.
pub open spec fn response_json(id: Seq<char>, result: JsonView) -> JsonView {
    JsonView::Obj(
        Map::empty().insert("id"@, JsonView::Str(id)).insert("result"@, result),
    )
}

/// A reply with an error.
pub open spec fn error_json(id: Seq<char>, code: Seq<char>, text: Seq<char>) -> JsonView {
    JsonView::Obj(
        Map::empty().insert("id"@, JsonView::Str(id)).insert(
            "error"@,
            JsonView::Obj(
                Map::empty().insert("code"@, JsonView::Str(code)).insert(
                    "message"@,
                    JsonView::Str(text),
                ),
            ),
        ),
    )
}

/// The line that a value is sent as.
pub open spec fn wire(j: JsonView) -> Seq<char> {
    rendered(j) + "\n"@
}

/// Whether a line is one value and ends where its only line feed stands.
pub open spec fn one_line(line: Seq<char>) -> bool {
    line.len() > 0 && line.last() == '\n' && !line.drop_last().contains('\n')
}

fn wire_line(j: Json) -> (line: String)
    ensures
        line@ == wire(j@),
        one_line(line@),
        simple(j@, 100) ==> parsed(line@.drop_last()) == Some(j@),
{
    let text: String = render_json(j);
    let line: String = cat2(text.as_str(), "\n");
    proof {
        reveal_strlit("\n");
        assert(line@.drop_last() =~= text@);
    }
    line
}

/// The line of a reply with a result. Where the result holds no number but `u64`
/// and is not nested too deep, the client reads the id and the result back.
pub fn encode_response(id: &str, result: Json) -> (line: String)
    ensures
        line@ == wire(response_json(id@, result@)),
        one_line(line@),
        simple(result@, 99) ==> parsed(line@.drop_last()) == Some(response_json(id@, result@)),
{
    let ghost value = result@;
    let mut f: Fields = Fields::new();
    f.put("id", Json::text(id));
    f.put("result", result);
    proof {
        reveal_with_fuel(simple, 2);
        assert(simple(value, 99) ==> simple(response_json(id@, value), 100));
    }
    wire_line(f.done())
}

/// The line of a reply with an error. The client reads id, code and text back.
pub fn encode_error(id: &str, code: &str, text: &str) -> (line: String)
    ensures
        line@ == wire(error_json(id@, code@, text@)),
        one_line(line@),
        parsed(line@.drop_last()) == Some(error_json(id@, code@, text@)),
{
    let mut e: Fields = Fields::new();
    e.put("code", Json::text(code));
    e.put("message", Json::text(text));
    let mut f: Fields = Fields::new();
    f.put("id", Json::text(id));
    f.put("error", e.done());
    proof {
        reveal_with_fuel(simple, 4);
        assert(simple(error_json(id@, code@, text@), 100));
    }
    wire_line(f.done())
}

/// The line that answers a request.
pub open spec fn reply_wire(id: Seq<char>, r: Result<JsonView, ErrorView>) -> Seq<char> {
    match r {
        Ok(j) => wire(response_json(id, j)),
        Err(e) => wire(error_json(id, error_code(e), error_text(e))),
    }
}

/// The line that answers a request.
pub fn reply_line(id: &str, r: Result<Json, Error>) -> (line: String)
    ensures
        line@ == reply_wire(id@, outcome(r)),
        one_line(line@),
{
    match r {
        Ok(j) => encode_response(id, j),
        Err(e) => {
            let text: String = e.text();
            encode_error(id, e.code(), text.as_str())
        },
    }
}

/// What a request goes by besides the records.
#[derive(Debug, Clone)]
pub struct Env {
    /// The process of the daemon.
    pub pid: u32,
    /// The account for a tunnel that has none.
    pub default_user: String,
    /// The time, in Unix milliseconds.
    pub now: u64,
    /// Whether pools are managed.
    pub managed: bool,
}

/// What is left to do outside once a request was handled.
#[derive(Debug, PartialEq)]
pub enum Work {
    /// What a handler asks for.
    Effects(Effects),
    /// What a switch of a host asks for.
    Toggle(Option<ToggleWork>),
    /// What a reset asks for: the processes to kill, and the hosts whose masters
    /// are to be rebuilt.
    Reset { kills: Vec<u64>, rebuild: Vec<String> },
}

/// Whether a request was answered like this.
pub open spec fn replied(r: Option<(Result<Json, Error>, Work)>, reply: ReplyView) -> bool {
    match r {
        Some((result, Work::Effects(e))) => outcome(result) == reply.result && e@ == reply.effects,
        _ => false,
    }
}

/// Whether a request was handled as its method says. Methods that need something
/// from outside before they can answer are left alone.
pub open spec fn routed<P: Fn(u16) -> bool, Q: Fn(u16) -> bool>(
    c: CallView,
    st: StateView,
    rt: RuntimeView,
    env: Env,
    port_in_use: P,
    is_free: Q,
    st1: StateView,
    rt1: RuntimeView,
    r: Option<(Result<Json, Error>, Work)>,
) -> bool {
    let user = env.default_user@;
    let now = env.now;
    match c.method {
        Method::Ping => st1 == st && rt1 == rt && replied(r, answered(ping_json(env.pid))),
        Method::SubscribeEvents => st1 == st && rt1 == rt && replied(
            r,
            answered(subscribed_json(true)),
        ),
        Method::ListHosts => st1 == st && rt1 == rt && replied(r, answered(hosts_json(st))),
        Method::HostRotate => st1 == st && rt1 == rt && replied(r, rotate_asked(st, c.params)),
        Method::HostToggle => {
            &&& rt1 == rt
            &&& st1 == toggled(st, c.params, env.managed)
            &&& match r {
                Some((result, Work::Toggle(w))) => outcome(result) == toggle_result(
                    st,
                    c.params,
                    env.managed,
                ) && toggle_work(st, c.params, env.managed, w),
                _ => false,
            }
        },
        Method::ResetAll => match r {
            Some((Ok(j), Work::Reset { kills, rebuild })) => reset_asked(st, rt) == (
                st1,
                rt1,
                ResetView { reply: j@, kills: kills@, rebuild: texts(rebuild@) },
            ),
            _ => false,
        },
        Method::ListTunnels => st1 == st && rt1 == rt && replied(
            r,
            answered(tunnels_json(st, now)),
        ),
        Method::TunnelEvents => st1 == st && rt1 == rt && replied(
            r,
            events_asked(st, rt, c.params),
        ),
        Method::PortSuggest => st1 == st && rt1 == rt && exists|v: ReplyView| #[trigger]
            port_asked(st, c.params, is_free, v) && replied(r, v),
        Method::TunnelAdd => rt1 == rt && exists|v: ReplyView| #[trigger]
            add_asked(st, c.params, port_in_use, now, st1, v) && replied(r, v),
        Method::TunnelSetPorts => exists|v: ReplyView| #[trigger]
            ports_asked(st, rt, c.params, port_in_use, now, st1, rt1, v) && replied(r, v),
        Method::TunnelStart => rt1 == rt && st1 == start_asked(st, c.params, user).0 && replied(
            r,
            start_asked(st, c.params, user).1,
        ),
        Method::TunnelSetAutostart => rt1 == rt && st1 == autostart_asked(st, c.params, now).0
            && replied(r, autostart_asked(st, c.params, now).1),
        Method::TunnelSetJumpCandidates => rt1 == rt && st1 == candidates_asked(
            st,
            c.params,
            now,
        ).0 && replied(r, candidates_asked(st, c.params, now).1),
        Method::TunnelSetPostConnect => rt1 == rt && st1 == post_connect_asked(st, c.params, now).0
            && replied(r, post_connect_asked(st, c.params, now).1),
        Method::TunnelSetTags => rt1 == rt && st1 == tags_asked(st, c.params, now).0 && replied(
            r,
            tags_asked(st, c.params, now).1,
        ),
        Method::TunnelSetUrlPath => rt1 == rt && st1 == url_path_asked(st, c.params, now).0
            && replied(r, url_path_asked(st, c.params, now).1),
        Method::TunnelRemove => replied_with(r, st1, rt1, remove_asked(st, rt, c.params)),
        Method::TunnelStop => replied_with(r, st1, rt1, stop_asked(st, rt, c.params, now)),
        Method::TunnelToggle => replied_with(
            r,
            st1,
            rt1,
            toggle_asked(st, rt, c.params, user, now),
        ),
        Method::TunnelSetNode => replied_with(
            r,
            st1,
            rt1,
            node_asked(st, rt, c.params, user, now),
        ),
        Method::TunnelRename => replied_with(r, st1, rt1, rename_asked(st, rt, c.params, now)),
        _ => r is None && st1 == st && rt1 == rt,
    }
}

/// Whether a request led to these records and was answered like this.
pub open spec fn replied_with(
    r: Option<(Result<Json, Error>, Work)>,
    st1: StateView,
    rt1: RuntimeView,
    done: (StateView, RuntimeView, ReplyView),
) -> bool {
    st1 == done.0 && rt1 == done.1 && replied(r, done.2)
}

fn handled(r: Reply) -> (h: Option<(Result<Json, Error>, Work)>)
    ensures
        replied(h, r@),
{
    Some((r.result, Work::Effects(r.effects)))
}

/// Handle a request by its method. `None` where the method needs something from
/// outside before it can answer. `port_in_use` and `is_free` look whether a local
/// port is bound.
pub fn route<P: Fn(u16) -> bool, Q: Fn(u16) -> bool>(
    c: &Call,
    state: &mut State,
    runtime: &mut TunnelRuntime,
    env: &Env,
    port_in_use: P,
    is_free: Q,
) -> (r: Option<(Result<Json, Error>, Work)>)
    requires
        forall|p: u16| call_requires(port_in_use, (p,)),
        forall|p: u16| call_requires(is_free, (p,)),
    ensures
        routed(
            c@,
            old(state)@,
            old(runtime)@,
            *env,
            port_in_use,
            is_free,
            final(state)@,
            final(runtime)@,
            r,
        ),
{
    let params: &Json = &c.params;
    let user: &str = env.default_user.as_str();
    let now: u64 = env.now;
    match c.method {
        Method::Ping => handled(Reply::answered(ping(env.pid))),
        Method::SubscribeEvents => handled(Reply::answered(subscribe_events_ack(true))),
        Method::ListHosts => handled(Reply::answered(list_hosts(state))),
        Method::HostRotate => handled(host_rotate(state, params)),
        Method::HostToggle => {
            let t: ToggleReply = host_toggle_managed(state, params, env.managed);
            Some((t.result, Work::Toggle(t.work)))
        },
        Method::ResetAll => {
            let o: ResetOrders = reset_all(state, runtime);
            Some((Ok(o.reply), Work::Reset { kills: o.kills, rebuild: o.rebuild }))
        },
        Method::ListTunnels => handled(Reply::answered(list_tunnels(state, now))),
        Method::TunnelEvents => handled(tunnel_events(state, params, runtime)),
        Method::PortSuggest => {
            let reply: Reply = port_suggest(state, params, is_free);
            proof {
                assert(port_asked(state@, c@.params, is_free, reply@));
            }
            handled(reply)
        },
        Method::TunnelAdd => {
            let ghost st = state@;
            let reply: Reply = tunnel_add(state, params, port_in_use, now);
            proof {
                assert(add_asked(st, c@.params, port_in_use, now, state@, reply@));
            }
            handled(reply)
        },
        Method::TunnelSetPorts => {
            let ghost st = state@;
            let ghost rt = runtime@;
            let reply: Reply = tunnel_set_ports(state, params, runtime, port_in_use, now);
            proof {
                assert(ports_asked(
                    st,
                    rt,
                    c@.params,
                    port_in_use,
                    now,
                    state@,
                    runtime@,
                    reply@,
                ));
            }
            handled(reply)
        },
        Method::TunnelStart => handled(tunnel_start(state, params, user)),
        Method::TunnelSetAutostart => handled(tunnel_set_autostart(state, params, now)),
        Method::TunnelSetJumpCandidates => handled(tunnel_set_jump_candidates(state, params, now)),
        Method::TunnelSetPostConnect => handled(tunnel_set_post_connect(state, params, now)),
        Method::TunnelSetTags => handled(tunnel_set_tags(state, params, now)),
        Method::TunnelSetUrlPath => handled(tunnel_set_url_path(state, params, now)),
        Method::TunnelRemove => handled(tunnel_remove(state, params, runtime)),
        Method::TunnelStop => handled(tunnel_stop(state, params, runtime, now)),
        Method::TunnelToggle => handled(tunnel_toggle(state, params, runtime, user, now)),
        Method::TunnelSetNode => handled(tunnel_set_node(state, params, runtime, user, now)),
        Method::TunnelRename => handled(tunnel_rename(state, params, runtime, now)),
        _ => None,
    }
}

/// What became of a request line.
#[derive(Debug, PartialEq)]
pub enum Dispatched {
    /// It was answered.
    Line { text: String, work: Option<Work> },
    /// It needs something from outside before it can be answered.
    Outside(Call),
}

/// Answer a request line, as far as that needs nothing from outside.
pub fn dispatch<P: Fn(u16) -> bool, Q: Fn(u16) -> bool>(
    line: Vec<u8>,
    state: &mut State,
    runtime: &mut TunnelRuntime,
    env: &Env,
    port_in_use: P,
    is_free: Q,
) -> (d: Dispatched)
    requires
        forall|p: u16| call_requires(port_in_use, (p,)),
        forall|p: u16| call_requires(is_free, (p,)),
    ensures
        d matches Dispatched::Line { text, .. } ==> one_line(text@),
        match call_of(line@) {
            Err(u) => {
                &&& final(state)@ == old(state)@
                &&& final(runtime)@ == old(runtime)@
                &&& d matches Dispatched::Line { text, work }
                &&& text@ == wire(error_json(u.id, u.code, u.text))
                &&& work is None
            },
            Ok(c) => match d {
                Dispatched::Line { text, work } => exists|r: (Result<Json, Error>, Work)| #[trigger]
                    routed(
                        c,
                        old(state)@,
                        old(runtime)@,
                        *env,
                        port_in_use,
                        is_free,
                        final(state)@,
                        final(runtime)@,
                        Some(r),
                    ) && text@ == reply_wire(c.id, outcome(r.0)) && work == Some(r.1),
                Dispatched::Outside(call) => call@ == c && routed(
                    c,
                    old(state)@,
                    old(runtime)@,
                    *env,
                    port_in_use,
                    is_free,
                    final(state)@,
                    final(runtime)@,
                    None,
                ),
            },
        },
{
    let ghost st = state@;
    let ghost rt = runtime@;
    match read_call(line) {
        Err(u) => Dispatched::Line {
            text: encode_error(u.id.as_str(), u.code.as_str(), u.text.as_str()),
            work: None,
        },
        Ok(c) => match route(&c, state, runtime, env, port_in_use, is_free) {
            None => Dispatched::Outside(c),
            Some((result, work)) => {
                let ghost r = (result, work);
                let text: String = reply_line(c.id.as_str(), result);
                proof {
                    assert(routed(
                        c@,
                        st,
                        rt,
                        *env,
                        port_in_use,
                        is_free,
                        state@,
                        runtime@,
                        Some(r),
                    ));
                }
                Dispatched::Line { text, work: Some(work) }
            },
        },
    }
}

/// Each method is asked for by its own name.
pub proof fn law_methods_go_by_their_names()
    ensures
        method_named("ping"@) == Some(Method::Ping),
        method_named("log_tail"@) == Some(Method::LogTail),
        method_named("wake_recover"@) == Some(Method::WakeRecover),
        method_named("reset_all"@) == Some(Method::ResetAll),
        method_named("subscribe_events"@) == Some(Method::SubscribeEvents),
        method_named("list_hosts"@) == Some(Method::ListHosts),
        method_named("host_toggle"@) == Some(Method::HostToggle),
        method_named("host_mount_toggle"@) == Some(Method::HostMountToggle),
        method_named("host_mounts"@) == Some(Method::HostMounts),
        method_named("host_mount_repair"@) == Some(Method::HostMountRepair),
        method_named("host_rotate"@) == Some(Method::HostRotate),
        method_named("host_add"@) == Some(Method::HostAdd),
        method_named("host_remove"@) == Some(Method::HostRemove),
        method_named("host_test_credentials"@) == Some(Method::HostTestCredentials),
        method_named("host_totp"@) == Some(Method::HostTotp),
        method_named("host_list_dir"@) == Some(Method::HostListDir),
        method_named("host_credentials"@) == Some(Method::HostCredentials),
        method_named("host_reveal_credentials"@) == Some(Method::HostRevealCredentials),
        method_named("host_set_credentials"@) == Some(Method::HostSetCredentials),
        method_named("credentials_consolidate"@) == Some(Method::CredentialsConsolidate),
        method_named("list_tunnels"@) == Some(Method::ListTunnels),
        method_named("port_suggest"@) == Some(Method::PortSuggest),
        method_named("tunnel_events"@) == Some(Method::TunnelEvents),
        method_named("tunnel_add"@) == Some(Method::TunnelAdd),
        method_named("tunnel_remove"@) == Some(Method::TunnelRemove),
        method_named("tunnel_start"@) == Some(Method::TunnelStart),
        method_named("tunnel_stop"@) == Some(Method::TunnelStop),
        method_named("tunnel_toggle"@) == Some(Method::TunnelToggle),
        method_named("tunnel_set_node"@) == Some(Method::TunnelSetNode),
        method_named("tunnel_set_autostart"@) == Some(Method::TunnelSetAutostart),
        method_named("tunnel_set_jump_candidates"@) == Some(Method::TunnelSetJumpCandidates),
        method_named("tunnel_set_post_connect"@) == Some(Method::TunnelSetPostConnect),
        method_named("tunnel_set_tags"@) == Some(Method::TunnelSetTags),
        method_named("tunnel_set_url_path"@) == Some(Method::TunnelSetUrlPath),
        method_named("tunnel_set_ports"@) == Some(Method::TunnelSetPorts),
        method_named("tunnel_rename"@) == Some(Method::TunnelRename),
        method_named("tunnels_batch"@) == Some(Method::TunnelsBatch),
        method_named("discover_nodes"@) == Some(Method::DiscoverNodes),
{
    reveal_strlit("ping");
    reveal_strlit("log_tail");
    reveal_strlit("wake_recover");
    reveal_strlit("reset_all");
    reveal_strlit("subscribe_events");
    reveal_strlit("list_hosts");
    reveal_strlit("host_toggle");
    reveal_strlit("host_mount_toggle");
    reveal_strlit("host_mounts");
    reveal_strlit("host_mount_repair");
    reveal_strlit("host_rotate");
    reveal_strlit("host_add");
    reveal_strlit("host_remove");
    reveal_strlit("host_test_credentials");
    reveal_strlit("host_totp");
    reveal_strlit("host_list_dir");
    reveal_strlit("host_credentials");
    reveal_strlit("host_reveal_credentials");
    reveal_strlit("host_set_credentials");
    reveal_strlit("credentials_consolidate");
    reveal_strlit("list_tunnels");
    reveal_strlit("port_suggest");
    reveal_strlit("tunnel_events");
    reveal_strlit("tunnel_add");
    reveal_strlit("tunnel_remove");
    reveal_strlit("tunnel_start");
    reveal_strlit("tunnel_stop");
    reveal_strlit("tunnel_toggle");
    reveal_strlit("tunnel_set_node");
    reveal_strlit("tunnel_set_autostart");
    reveal_strlit("tunnel_set_jump_candidates");
    reveal_strlit("tunnel_set_post_connect");
    reveal_strlit("tunnel_set_tags");
    reveal_strlit("tunnel_set_url_path");
    reveal_strlit("tunnel_set_ports");
    reveal_strlit("tunnel_rename");
    reveal_strlit("tunnels_batch");
    reveal_strlit("discover_nodes");
    assert("ping"@.len() == 4);
    assert("log_tail"@.len() == 8);
    assert("wake_recover"@.len() == 12);
    assert("reset_all"@.len() == 9);
    assert("subscribe_events"@.len() == 16);
    assert("list_hosts"@.len() == 10);
    assert("host_toggle"@.len() == 11);
    assert("host_mount_toggle"@.len() == 17);
    assert("host_mounts"@.len() == 11);
    assert("host_mount_repair"@.len() == 17);
    assert("host_rotate"@.len() == 11);
    assert("host_add"@.len() == 8);
    assert("host_remove"@.len() == 11);
    assert("host_test_credentials"@.len() == 21);
    assert("host_totp"@.len() == 9);
    assert("host_list_dir"@.len() == 13);
    assert("host_credentials"@.len() == 16);
    assert("host_reveal_credentials"@.len() == 23);
    assert("host_set_credentials"@.len() == 20);
    assert("credentials_consolidate"@.len() == 23);
    assert("list_tunnels"@.len() == 12);
    assert("port_suggest"@.len() == 12);
    assert("tunnel_events"@.len() == 13);
    assert("tunnel_add"@.len() == 10);
    assert("tunnel_remove"@.len() == 13);
    assert("tunnel_start"@.len() == 12);
    assert("tunnel_stop"@.len() == 11);
    assert("tunnel_toggle"@.len() == 13);
    assert("tunnel_set_node"@.len() == 15);
    assert("tunnel_set_autostart"@.len() == 20);
    assert("tunnel_set_jump_candidates"@.len() == 26);
    assert("tunnel_set_post_connect"@.len() == 23);
    assert("tunnel_set_tags"@.len() == 15);
    assert("tunnel_set_url_path"@.len() == 19);
    assert("tunnel_set_ports"@.len() == 16);
    assert("tunnel_rename"@.len() == 13);
    assert("tunnels_batch"@.len() == 13);
    assert("discover_nodes"@.len() == 14);
    assert("host_mounts"@[5] != "host_toggle"@[5]);
    assert("host_mount_repair"@[11] != "host_mount_toggle"@[11]);
    assert("host_rotate"@[5] != "host_toggle"@[5]);
    assert("host_rotate"@[5] != "host_mounts"@[5]);
    assert("host_add"@[0] != "log_tail"@[0]);
    assert("host_remove"@[5] != "host_toggle"@[5]);
    assert("host_remove"@[5] != "host_mounts"@[5]);
    assert("host_remove"@[6] != "host_rotate"@[6]);
    assert("host_totp"@[0] != "reset_all"@[0]);
    assert("host_credentials"@[0] != "subscribe_events"@[0]);
    assert("credentials_consolidate"@[0] != "host_reveal_credentials"@[0]);
    assert("list_tunnels"@[0] != "wake_recover"@[0]);
    assert("port_suggest"@[0] != "wake_recover"@[0]);
    assert("port_suggest"@[0] != "list_tunnels"@[0]);
    assert("tunnel_events"@[0] != "host_list_dir"@[0]);
    assert("tunnel_add"@[0] != "list_hosts"@[0]);
    assert("tunnel_remove"@[0] != "host_list_dir"@[0]);
    assert("tunnel_remove"@[7] != "tunnel_events"@[7]);
    assert("tunnel_start"@[0] != "wake_recover"@[0]);
    assert("tunnel_start"@[0] != "list_tunnels"@[0]);
    assert("tunnel_start"@[0] != "port_suggest"@[0]);
    assert("tunnel_stop"@[0] != "host_toggle"@[0]);
    assert("tunnel_stop"@[0] != "host_mounts"@[0]);
    assert("tunnel_stop"@[0] != "host_rotate"@[0]);
    assert("tunnel_stop"@[0] != "host_remove"@[0]);
    assert("tunnel_toggle"@[0] != "host_list_dir"@[0]);
    assert("tunnel_toggle"@[7] != "tunnel_events"@[7]);
    assert("tunnel_toggle"@[7] != "tunnel_remove"@[7]);
    assert("tunnel_set_autostart"@[0] != "host_set_credentials"@[0]);
    assert("tunnel_set_post_connect"@[0] != "host_reveal_credentials"@[0]);
    assert("tunnel_set_post_connect"@[0] != "credentials_consolidate"@[0]);
    assert("tunnel_set_tags"@[11] != "tunnel_set_node"@[11]);
    assert("tunnel_set_ports"@[0] != "subscribe_events"@[0]);
    assert("tunnel_set_ports"@[0] != "host_credentials"@[0]);
    assert("tunnel_rename"@[0] != "host_list_dir"@[0]);
    assert("tunnel_rename"@[7] != "tunnel_events"@[7]);
    assert("tunnel_rename"@[9] != "tunnel_remove"@[9]);
    assert("tunnel_rename"@[7] != "tunnel_toggle"@[7]);
    assert("tunnels_batch"@[0] != "host_list_dir"@[0]);
    assert("tunnels_batch"@[6] != "tunnel_events"@[6]);
    assert("tunnels_batch"@[6] != "tunnel_remove"@[6]);
    assert("tunnels_batch"@[6] != "tunnel_toggle"@[6]);
    assert("tunnels_batch"@[6] != "tunnel_rename"@[6]);
}

/// A request is what its line holds: the id, the method of the name, and the
/// parameters, `null` where there are none. A line without an id or a method, or with a
/// name that no method has, is no request.
pub proof fn law_a_request_is_what_its_line_holds(
    line: Seq<u8>,
    m: Map<Seq<char>, JsonView>,
    id: Seq<char>,
    name: Seq<char>,
)
    requires
        valid_utf8(line),
        parsed(trim_end_of(decode_utf8(line))) == Some(JsonView::Obj(m)),
    ensures
        m.contains_key("id"@) && m["id"@] == JsonView::Str(id) && m.contains_key("method"@)
            && m["method"@] == JsonView::Str(name) ==> {
            &&& method_named(name) matches Some(method) ==> (call_of(line) matches Ok(c) && c.id
                == id && c.method == method && c.params == (if m.contains_key("params"@) {
                m["params"@]
            } else {
                JsonView::Null
            }))
            &&& method_named(name) is None ==> (call_of(line) matches Err(u) && u.id == id && u.code
                == "unknown_method"@)
        },
        !m.contains_key("id"@) || !m.contains_key("method"@) ==> (call_of(line) matches Err(u)
            && u.code == "invalid_request"@),
{
}

/// A reply carries the id of its request, and the result or else the code and the text
/// of the error; a result and an error never go together.
pub proof fn law_a_reply_carries_its_id(
    id: Seq<char>,
    result: JsonView,
    code: Seq<char>,
    text: Seq<char>,
)
    ensures
        field(response_json(id, result), "id"@) == Some(JsonView::Str(id)),
        field(response_json(id, result), "result"@) == Some(result),
        field(response_json(id, result), "error"@) is None,
        field(error_json(id, code, text), "id"@) == Some(JsonView::Str(id)),
        field(error_json(id, code, text), "result"@) is None,
        field(error_json(id, code, text), "error"@) matches Some(e) && field(e, "code"@) == Some(
            JsonView::Str(code),
        ) && field(e, "message"@) == Some(JsonView::Str(text)),
{
    reveal_strlit("id");
    reveal_strlit("result");
    reveal_strlit("error");
    reveal_strlit("code");
    reveal_strlit("message");
    assert("id"@[0] == 'i' && "result"@[0] == 'r' && "error"@[0] == 'e' && "code"@[0] == 'c'
        && "message"@[0] == 'm');
}

/// Each request about a tunnel does what its method says and nothing else: it leads to
/// the records of that operation, and its result and effects are the answer.
pub proof fn law_a_tunnel_request_does_what_its_method_says<P: Fn(u16) -> bool, Q: Fn(u16) -> bool>(
    c: CallView,
    st: StateView,
    rt: RuntimeView,
    env: Env,
    port_in_use: P,
    is_free: Q,
    st1: StateView,
    rt1: RuntimeView,
    result: Result<Json, Error>,
    work: Work,
)
    requires
        routed(c, st, rt, env, port_in_use, is_free, st1, rt1, Some((result, work))),
    ensures
        ({
            let user = env.default_user@;
            let now = env.now;
            let said = |v: ReplyView|
                outcome(result) == v.result && (work matches Work::Effects(e) && e@ == v.effects);
            &&& c.method == Method::TunnelStart ==> {
                let d = start_asked(st, c.params, user);
                st1 == d.0 && rt1 == rt && said(d.1)
            }
            &&& c.method == Method::TunnelStop ==> {
                let d = stop_asked(st, rt, c.params, now);
                st1 == d.0 && rt1 == d.1 && said(d.2)
            }
            &&& c.method == Method::TunnelToggle ==> {
                let d = toggle_asked(st, rt, c.params, user, now);
                st1 == d.0 && rt1 == d.1 && said(d.2)
            }
            &&& c.method == Method::TunnelRemove ==> {
                let d = remove_asked(st, rt, c.params);
                st1 == d.0 && rt1 == d.1 && said(d.2)
            }
            &&& c.method == Method::TunnelSetNode ==> {
                let d = node_asked(st, rt, c.params, user, now);
                st1 == d.0 && rt1 == d.1 && said(d.2)
            }
            &&& c.method == Method::TunnelRename ==> {
                let d = rename_asked(st, rt, c.params, now);
                st1 == d.0 && rt1 == d.1 && said(d.2)
            }
            &&& c.method == Method::TunnelSetAutostart ==> {
                let d = autostart_asked(st, c.params, now);
                st1 == d.0 && rt1 == rt && said(d.1)
            }
            &&& c.method == Method::TunnelSetJumpCandidates ==> {
                let d = candidates_asked(st, c.params, now);
                st1 == d.0 && rt1 == rt && said(d.1)
            }
            &&& c.method == Method::TunnelSetPostConnect ==> {
                let d = post_connect_asked(st, c.params, now);
                st1 == d.0 && rt1 == rt && said(d.1)
            }
            &&& c.method == Method::TunnelSetTags ==> {
                let d = tags_asked(st, c.params, now);
                st1 == d.0 && rt1 == rt && said(d.1)
            }
            &&& c.method == Method::TunnelSetUrlPath ==> {
                let d = url_path_asked(st, c.params, now);
                st1 == d.0 && rt1 == rt && said(d.1)
            }
            &&& c.method == Method::TunnelAdd ==> rt1 == rt && exists|v: ReplyView| #[trigger]
                add_asked(st, c.params, port_in_use, now, st1, v) && said(v)
            &&& c.method == Method::TunnelSetPorts ==> exists|v: ReplyView| #[trigger]
                ports_asked(st, rt, c.params, port_in_use, now, st1, rt1, v) && said(v)
            &&& c.method == Method::PortSuggest ==> st1 == st && rt1 == rt && exists|v: ReplyView|
                #[trigger] port_asked(st, c.params, is_free, v) && said(v)
            &&& c.method == Method::TunnelEvents ==> st1 == st && rt1 == rt && said(
                events_asked(st, rt, c.params),
            )
            &&& c.method == Method::ListTunnels ==> st1 == st && rt1 == rt && (outcome(
                result,
            ) matches Ok(JsonView::Arr(items)) && items.len() == st.tunnels.len())
        }),
{
    if c.method == Method::TunnelAdd {
        let v = choose|v: ReplyView| #[trigger]
            add_asked(st, c.params, port_in_use, env.now, st1, v) && replied(
                Some((result, work)),
                v,
            );
        assert(add_asked(st, c.params, port_in_use, env.now, st1, v));
    }
    if c.method == Method::TunnelSetPorts {
        let v = choose|v: ReplyView| #[trigger]
            ports_asked(st, rt, c.params, port_in_use, env.now, st1, rt1, v) && replied(
                Some((result, work)),
                v,
            );
        assert(ports_asked(st, rt, c.params, port_in_use, env.now, st1, rt1, v));
    }
    if c.method == Method::PortSuggest {
        let v = choose|v: ReplyView| #[trigger]
            port_asked(st, c.params, is_free, v) && replied(Some((result, work)), v);
        assert(port_asked(st, c.params, is_free, v));
    }
}

/// Each request about hosts or the daemon that is answered here does what its method
/// says; one that only asks changes no record.
pub proof fn law_a_host_request_does_what_its_method_says<P: Fn(u16) -> bool, Q: Fn(u16) -> bool>(
    c: CallView,
    st: StateView,
    rt: RuntimeView,
    env: Env,
    port_in_use: P,
    is_free: Q,
    st1: StateView,
    rt1: RuntimeView,
    result: Result<Json, Error>,
    work: Work,
)
    requires
        routed(c, st, rt, env, port_in_use, is_free, st1, rt1, Some((result, work))),
    ensures
        c.method == Method::Ping ==> st1 == st && rt1 == rt && (outcome(result) matches Ok(j)
            && bool_at(j, "ok"@) == Some(true) && uint_at(j, "pid"@) == Some(env.pid as u64)),
        c.method == Method::ListHosts ==> st1 == st && rt1 == rt && (outcome(result) matches Ok(
            JsonView::Arr(items),
        ) && items.len() == st.hosts.len()),
        c.method == Method::SubscribeEvents ==> st1 == st && rt1 == rt && (outcome(
            result,
        ) matches Ok(j) && bool_at(j, "subscribed"@) == Some(true)),
        c.method == Method::HostRotate ==> st1 == st && rt1 == rt,
        c.method == Method::HostToggle ==> rt1 == rt && st1 == toggled(st, c.params, env.managed)
            && outcome(result) == toggle_result(st, c.params, env.managed) && (
        work matches Work::Toggle(w) && toggle_work(st, c.params, env.managed, w)),
        c.method == Method::ResetAll ==> (work matches Work::Reset { kills, rebuild } && result is Ok
            && reset_asked(st, rt).0 == st1 && reset_asked(st, rt).1 == rt1 && reset_asked(
            st,
            rt,
        ).2.kills == kills@ && reset_asked(st, rt).2.rebuild == texts(rebuild@)),
{
    reveal_strlit("ok");
    reveal_strlit("pid");
    assert("ok"@.len() == 2 && "pid"@.len() == 3);
}

} // verus!
