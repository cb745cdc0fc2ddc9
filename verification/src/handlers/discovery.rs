//! What a new tunnel can use: the nodes of running jobs, and a free local port.
use crate::handlers::{Reply, ReplyView, answered};
use crate::json::{Fields, Items, Json, JsonView, str_at, uint_at};
use crate::model::{
    Error, ErrorView, State, StateView, TunnelView, host_at, law_a_name_addresses_the_first_host,
};
use crate::text::{cat2, opt_text};
use vstd::prelude::*;

verus! {

/// A job of the cluster's queue.
#[derive(Debug)]
pub struct Job {
    pub jobid: String,
    pub partition: String,
    pub name: String,
    pub state: String,
    pub time: String,
    pub time_left: String,
    pub node: String,
}

/// A job in a reply.
pub open spec fn job_json(j: Job) -> JsonView {
    JsonView::Obj(
        Map::empty().insert("jobid"@, JsonView::Str(j.jobid@)).insert(
            "partition"@,
            JsonView::Str(j.partition@),
        ).insert("name"@, JsonView::Str(j.name@)).insert("state"@, JsonView::Str(j.state@)).insert(
            "time"@,
            JsonView::Str(j.time@),
        ).insert("time_left"@, JsonView::Str(j.time_left@)).insert(
            "node"@,
            JsonView::Str(j.node@),
        ),
    )
}

/// Whom to ask for the jobs, and of which account: a connected host, and a
/// non-empty account where the request has one.
pub open spec fn discovery_target(st: StateView, params: JsonView) -> Result<
    (Seq<char>, Option<Seq<char>>),
    ErrorView,
> {
    match str_at(params, "host"@) {
        None => Err(ErrorView::BadParams("host required"@)),
        Some(host) => match host_at(st, host) {
            None => Err(ErrorView::NotFound(host)),
            Some(i) => if !st.hosts[i].is_master_ready {
                Err(ErrorView::Discovery(host + " master not ready"@))
            } else {
                Ok(
                    (
                        host,
                        match str_at(params, "user"@) {
                            Some(u) => if u.len() > 0 {
                                Some(u)
                            } else {
                                None
                            },
                            None => None,
                        },
                    ),
                )
            },
        },
    }
}

/// Find whom to ask for the jobs, and of which account.
pub fn discover_nodes(state: &State, params: &Json) -> (r: Result<(String, Option<String>), Error>)
    ensures
        match r {
            Ok(p) => discovery_target(state@, params@) == Ok::<
                (Seq<char>, Option<Seq<char>>),
                ErrorView,
            >((p.0@, opt_text(p.1))),
            Err(e) => discovery_target(state@, params@) == Err::<
                (Seq<char>, Option<Seq<char>>),
                ErrorView,
            >(e@),
        },
{
    let host: String = match params.str_at("host") {
        None => {
            return Err(Error::bad("host required"));
        },
        Some(h) => h,
    };
    match state.find_host(host.as_str()) {
        None => Err(Error::NotFound(host)),
        Some(i) => {
            proof {
                assert(state@.hosts[i as int] == state.hosts@[i as int]@);
            }
            if !state.hosts[i].is_master_ready {
                return Err(Error::Discovery(cat2(host.as_str(), " master not ready")));
            }
            let user: Option<String> = match params.str_at("user") {
                Some(u) => {
                    if u.as_str().is_empty() {
                        None
                    } else {
                        Some(u)
                    }
                },
                None => None,
            };
            Ok((host, user))
        },
    }
}

/// The jobs as a reply.
pub fn jobs_reply(jobs: &Vec<Job>) -> (j: Json)
    ensures
        j@ == JsonView::Arr(jobs@.map_values(|x: Job| job_json(x))),
{
    let mut out: Items = Items::new();
    let mut i: usize = 0;
    proof {
        assert(out@ =~= jobs@.take(0).map_values(|x: Job| job_json(x)));
    }
    while i < jobs.len()
        invariant
            i <= jobs@.len(),
            out@ == jobs@.take(i as int).map_values(|x: Job| job_json(x)),
        decreases jobs@.len() - i,
    {
        let x: &Job = &jobs[i];
        let mut f: Fields = Fields::new();
        f.put("jobid", Json::text(x.jobid.as_str()));
        f.put("partition", Json::text(x.partition.as_str()));
        f.put("name", Json::text(x.name.as_str()));
        f.put("state", Json::text(x.state.as_str()));
        f.put("time", Json::text(x.time.as_str()));
        f.put("time_left", Json::text(x.time_left.as_str()));
        f.put("node", Json::text(x.node.as_str()));
        out.push(f.done());
        proof {
            assert(out@ =~= jobs@.take(i + 1).map_values(|x: Job| job_json(x)));
        }
        i += 1;
    }
    proof {
        assert(jobs@.take(i as int) =~= jobs@);
    }
    out.done()
}

/// Whether a port was passed over: it is taken, or a look found it bound.
pub open spec fn passed_over<P: Fn(u16) -> bool>(p: u16, taken: Seq<u16>, is_free: P) -> bool {
    taken.contains(p) || call_ensures(is_free, (p,), false)
}

/// Whether `port` is an outcome of the search from `base` on: the lowest port
/// from there (and from 1024) to 65535 that is not taken and that a look found
/// free; `base` itself where there is none.
pub open spec fn free_port<P: Fn(u16) -> bool>(
    base: u16,
    taken: Seq<u16>,
    is_free: P,
    port: u16,
) -> bool {
    let start = if base < 1024 {
        1024u16
    } else {
        base
    };
    ||| {
        &&& start <= port <= 65535
        &&& !taken.contains(port)
        &&& call_ensures(is_free, (port,), true)
        &&& forall|p: u16| start <= p < port ==> #[trigger] passed_over(p, taken, is_free)
    }
    ||| {
        &&& port == base
        &&& forall|p: u16| start <= p <= 65535 ==> #[trigger] passed_over(p, taken, is_free)
    }
}

fn has_port(v: &Vec<u16>, p: u16) -> (r: bool)
    ensures
        r == v@.contains(p),
{
    let mut i: usize = 0;
    while i < v.len()
        invariant
            i <= v@.len(),
            forall|j: int| 0 <= j < i ==> v@[j] != p,
        decreases v@.len() - i,
    {
        if v[i] == p {
            return true;
        }
        i += 1;
    }
    false
}

/// Search for a free local port. `is_free` looks whether a port can be bound.
pub fn find_free_port<P: Fn(u16) -> bool>(base: u16, taken: &Vec<u16>, is_free: P) -> (port: u16)
    requires
        forall|p: u16| call_requires(is_free, (p,)),
    ensures
        free_port(base, taken@, is_free, port),
{
    let start: u16 = if base < 1024 {
        1024
    } else {
        base
    };
    let mut p: u16 = start;
    loop
        invariant_except_break
            start <= p,
            start == (if base < 1024 {
                1024u16
            } else {
                base
            }),
            forall|q: u16| call_requires(is_free, (q,)),
            forall|q: u16| start <= q < p ==> #[trigger] passed_over(q, taken@, is_free),
        ensures
            forall|q: u16| start <= q <= 65535 ==> #[trigger] passed_over(q, taken@, is_free),
        decreases 65535 - p,
    {
        if !has_port(taken, p) {
            if is_free(p) {
                return p;
            }
        }
        proof {
            assert(passed_over(p, taken@, is_free));
        }
        if p == 65535 {
            break;
        }
        p += 1;
    }
    base
}

/// The port to search from.
pub open spec fn base_port(params: JsonView) -> u16 {
    match uint_at(params, "base"@) {
        Some(p) => if p <= 65535 {
            p as u16
        } else {
            8888
        },
        None => 8888,
    }
}

/// The local ports of some tunnels.
pub open spec fn local_ports(ts: Seq<TunnelView>) -> Seq<u16> {
    ts.map_values(|t: TunnelView| t.local_port)
}

/// What a request for a free port gets, by what the machine says of the ports.
pub open spec fn port_asked<P: Fn(u16) -> bool>(
    st: StateView,
    params: JsonView,
    is_free: P,
    r: ReplyView,
) -> bool {
    exists|port: u16| #[trigger]
        free_port(
            base_port(params),
            local_ports(st.tunnels),
            is_free,
            port,
        ) && r == answered(
            JsonView::Obj(Map::empty().insert("port"@, JsonView::Uint(port as u64))),
        )
}

/// Suggest a free local port that no tunnel has.
pub fn port_suggest<P: Fn(u16) -> bool>(state: &State, params: &Json, is_free: P) -> (r: Reply)
    requires
        forall|p: u16| call_requires(is_free, (p,)),
    ensures
        port_asked(state@, params@, is_free, r@),
{
    let base: u16 = match params.uint_at("base") {
        Some(p) => {
            if p <= 65535 {
                p as u16
            } else {
                8888
            }
        },
        None => 8888,
    };
    let mut taken: Vec<u16> = Vec::new();
    let mut i: usize = 0;
    let ghost ports = local_ports(state@.tunnels);
    while i < state.tunnels.len()
        invariant
            i <= state.tunnels@.len(),
            ports == local_ports(state@.tunnels),
            taken@ == ports.take(i as int),
        decreases state.tunnels@.len() - i,
    {
        taken.push(state.tunnels[i].local_port);
        proof {
            assert(taken@ =~= ports.take(i + 1));
        }
        i += 1;
    }
    proof {
        assert(taken@ =~= ports);
    }
    let port: u16 = find_free_port(base, &taken, is_free);
    let mut f: Fields = Fields::new();
    f.put("port", Json::Uint(port as u64));
    let r: Reply = Reply::answered(f.done());
    proof {
        assert(free_port(base_port(params@), local_ports(state@.tunnels), is_free, port) && r@
            == answered(JsonView::Obj(Map::empty().insert("port"@, JsonView::Uint(port as u64)))));
    }
    r
}

/// A suggested port is one that no tunnel has, unless every port was passed over.
pub proof fn law_a_suggested_port_is_not_taken<P: Fn(u16) -> bool>(
    base: u16,
    taken: Seq<u16>,
    is_free: P,
    port: u16,
)
    requires
        free_port(base, taken, is_free, port),
    ensures
        !taken.contains(port) || forall|p: u16|
            base <= p <= 65535 && 1024 <= p ==> #[trigger] passed_over(p, taken, is_free),
{
}

/// The jobs are asked for at the host that the request names, of the account that it
/// names where that is not empty, and only where that host is known and connected.
pub proof fn law_jobs_are_asked_for_where_the_request_says(
    st: StateView,
    m: Map<Seq<char>, JsonView>,
    host: Seq<char>,
    i: int,
)
    requires
        m.contains_key("host"@),
        m["host"@] == JsonView::Str(host),
    ensures
        (forall|j: int| 0 <= j < st.hosts.len() ==> (#[trigger] st.hosts[j]).host != host)
            ==> discovery_target(st, JsonView::Obj(m)) == Err::<(Seq<char>, Option<Seq<char>>), _>(
            ErrorView::NotFound(host),
        ),
        0 <= i < st.hosts.len() && st.hosts[i].host == host && (forall|j: int|
            0 <= j < i ==> (#[trigger] st.hosts[j]).host != host) ==> {
            let r = discovery_target(st, JsonView::Obj(m));
            &&& r is Ok <==> st.hosts[i].is_master_ready
            &&& r is Err ==> (r matches Err(ErrorView::Discovery(_)))
            &&& r matches Ok(p) ==> {
                &&& p.0 == host
                &&& !m.contains_key("user"@) ==> p.1 is None
                &&& m.contains_key("user"@) && m["user"@] is Str ==> p.1 == (if m[
                    "user"@
                ]->Str_0.len() > 0 {
                    Some(m["user"@]->Str_0)
                } else {
                    None
                })
            }
        },
{
    law_a_name_addresses_the_first_host(st, host, i);
}

/// A suggested port is at least the base that was asked for, 8888 where none was, and
/// never below 1024; it was looked at and found free, no tunnel has it, and no lower
/// one would do. Only where every port was passed over is it the base itself.
pub proof fn law_a_suggested_port_is_the_lowest_free_one<P: Fn(u16) -> bool>(
    st: StateView,
    m: Map<Seq<char>, JsonView>,
    is_free: P,
    r: ReplyView,
)
    requires
        port_asked(st, JsonView::Obj(m), is_free, r),
    ensures
        ({
            let base: int = if m.contains_key("base"@) && m["base"@] is Uint && m[
                "base"@
            ]->Uint_0 <= 65535 {
                m["base"@]->Uint_0 as int
            } else {
                8888
            };
            let start: int = if base < 1024 {
                1024
            } else {
                base
            };
            &&& r.effects.persist == false && r.effects.kill is None && r.effects.start is None
            &&& r.result matches Ok(JsonView::Obj(f)) && f.contains_key("port"@) && (f[
                "port"@
            ] matches JsonView::Uint(n) && n <= 65535 && {
                ||| {
                    &&& start <= n
                    &&& call_ensures(is_free, (n as u16,), true)
                    &&& forall|j: int|
                        0 <= j < st.tunnels.len() ==> (#[trigger] st.tunnels[j]).local_port != n
                    &&& forall|p: u16|
                        start <= p < n ==> (#[trigger] call_ensures(is_free, (p,), false)) || exists|
                            j: int,
                        |
                            0 <= j < st.tunnels.len() && (#[trigger] st.tunnels[j]).local_port == p
                }
                ||| {
                    &&& n == base
                    &&& forall|p: u16|
                        start <= p <= 65535 ==> (#[trigger] call_ensures(is_free, (p,), false))
                            || exists|j: int|
                            0 <= j < st.tunnels.len() && (#[trigger] st.tunnels[j]).local_port == p
                }
            })
        }),
{
    let taken = local_ports(st.tunnels);
    let base = base_port(JsonView::Obj(m));
    let port = choose|port: u16| #[trigger]
        free_port(base, taken, is_free, port) && r == answered(
            JsonView::Obj(Map::empty().insert("port"@, JsonView::Uint(port as u64))),
        );
    assert(free_port(base, taken, is_free, port));
    assert forall|p: u16| #[trigger] passed_over(p, taken, is_free) implies call_ensures(
        is_free,
        (p,),
        false,
    ) || exists|j: int| 0 <= j < st.tunnels.len() && (#[trigger] st.tunnels[j]).local_port == p by {
        if taken.contains(p) {
            let j = choose|j: int| 0 <= j < taken.len() && taken[j] == p;
            assert(st.tunnels[j].local_port == p);
        }
    }
    let start = if base < 1024 {
        1024u16
    } else {
        base
    };
    if !taken.contains(port) {
        assert forall|j: int| 0 <= j < st.tunnels.len() implies (
        #[trigger] st.tunnels[j]).local_port != port by {
            assert(taken[j] == st.tunnels[j].local_port);
        }
    }
    if start <= port && !taken.contains(port) && call_ensures(is_free, (port,), true) && (forall|
        p: u16,
    | start <= p < port ==> #[trigger] passed_over(p, taken, is_free)) {
        assert forall|p: u16| start <= p < port implies (#[trigger] call_ensures(
            is_free,
            (p,),
            false,
        )) || exists|j: int|
            0 <= j < st.tunnels.len() && (#[trigger] st.tunnels[j]).local_port == p by {
            assert(passed_over(p, taken, is_free));
        }
    } else {
        assert forall|p: u16| start <= p <= 65535 implies (#[trigger] call_ensures(
            is_free,
            (p,),
            false,
        )) || exists|j: int|
            0 <= j < st.tunnels.len() && (#[trigger] st.tunnels[j]).local_port == p by {
            assert(passed_over(p, taken, is_free));
        }
    }
}

/// A job is listed as it is, field by field.
pub proof fn law_a_job_is_listed_as_it_is(j: Job)
    ensures
        job_json(j) matches JsonView::Obj(f) && {
            &&& f.contains_key("jobid"@) && f["jobid"@] == JsonView::Str(j.jobid@)
            &&& f.contains_key("partition"@) && f["partition"@] == JsonView::Str(j.partition@)
            &&& f.contains_key("name"@) && f["name"@] == JsonView::Str(j.name@)
            &&& f.contains_key("state"@) && f["state"@] == JsonView::Str(j.state@)
            &&& f.contains_key("time"@) && f["time"@] == JsonView::Str(j.time@)
            &&& f.contains_key("time_left"@) && f["time_left"@] == JsonView::Str(j.time_left@)
            &&& f.contains_key("node"@) && f["node"@] == JsonView::Str(j.node@)
        },
{
    reveal_strlit("jobid");
    reveal_strlit("partition");
    reveal_strlit("name");
    reveal_strlit("state");
    reveal_strlit("time");
    reveal_strlit("time_left");
    reveal_strlit("node");
    assert("jobid"@[0] == 'j' && "partition"@[0] == 'p' && "state"@[0] == 's');
    assert("name"@[1] == 'a' && "node"@[1] == 'o' && "name"@[0] == 'n' && "node"@[0] == 'n');
    assert("time"@.len() == 4 && "time_left"@.len() == 9 && "time"@[0] == 't' && "time_left"@[0]
        == 't');
}

} // verus!
