//! Where a tunnel start goes: the jump host it takes, and the order that the
//! process launcher gets.
use crate::model::{
    Host, HostView, State, StateView, Tunnel, TunnelStatus, TunnelView, opt_texts, with_tunnel,
};
use crate::text::{cat2, copy_opt, has_text, opt_text, same_text, texts};
use vstd::prelude::*;

verus! {

/// The target of a forward.
#[derive(Debug, Clone, PartialEq)]
pub enum ForwardSpec {
    /// A port of the host itself.
    Direct { host: String },
    /// A port of a compute node, reached as `user` through `jump`.
    Compute { jump: String, user: String, node: String },
}

/// What a target says.
#[verifier::ext_equal]
pub enum SpecView {
    Direct { host: Seq<char> },
    Compute { jump: Seq<char>, user: Seq<char>, node: Seq<char> },
}

impl View for ForwardSpec {
    type V = SpecView;

    open spec fn view(&self) -> SpecView {
        match self {
            ForwardSpec::Direct { host } => SpecView::Direct { host: host@ },
            ForwardSpec::Compute { jump, user, node } => SpecView::Compute {
                jump: jump@,
                user: user@,
                node: node@,
            },
        }
    }
}

/// The host that a forward goes through and the node that it goes to: for a port
/// of the host itself, that host and what it calls itself.
pub open spec fn route_of(spec: SpecView) -> (Seq<char>, Seq<char>) {
    match spec {
        SpecView::Direct { host } => (host, "localhost"@),
        SpecView::Compute { jump, user, node } => (jump, node),
    }
}

impl ForwardSpec {
    /// The host that the forward goes through and the node that it goes to.
    pub fn route(&self) -> (r: (String, String))
        ensures
            (r.0@, r.1@) == route_of(self@),
    {
        match self {
            ForwardSpec::Direct { host } => (host.clone(), "localhost".to_owned()),
            ForwardSpec::Compute { jump, user: _, node } => (jump.clone(), node.clone()),
        }
    }
}

/// A forward to launch.
#[derive(Debug, Clone, PartialEq)]
pub struct StartOrder {
    pub name: String,
    pub spec: ForwardSpec,
    pub local_port: u16,
    pub remote_port: u16,
    pub post_connect_cmd: Option<String>,
}

/// What an order says.
#[verifier::ext_equal]
pub struct OrderView {
    pub name: Seq<char>,
    pub spec: SpecView,
    pub local_port: u16,
    pub remote_port: u16,
    pub post_connect_cmd: Option<Seq<char>>,
}

impl View for StartOrder {
    type V = OrderView;

    open spec fn view(&self) -> OrderView {
        OrderView {
            name: self.name@,
            spec: self.spec@,
            local_port: self.local_port,
            remote_port: self.remote_port,
            post_connect_cmd: opt_text(self.post_connect_cmd),
        }
    }
}

/// What an optional order says.
pub open spec fn opt_order(o: Option<StartOrder>) -> Option<OrderView> {
    match o {
        Some(s) => Some(s@),
        None => None,
    }
}

/// What a list of orders says.
pub open spec fn orders_view(s: Seq<StartOrder>) -> Seq<OrderView> {
    s.map_values(|o: StartOrder| o@)
}

/// The order for a tunnel and a target.
pub open spec fn order_for(t: TunnelView, spec: SpecView) -> OrderView {
    OrderView {
        name: t.name,
        spec,
        local_port: t.local_port,
        remote_port: t.remote_port,
        post_connect_cmd: t.post_connect_cmd,
    }
}

/// Write the order for a tunnel and a target.
pub fn make_order(t: &Tunnel, spec: ForwardSpec) -> (o: StartOrder)
    ensures
        o@ == order_for(t@, spec@),
{
    StartOrder {
        name: t.name.clone(),
        spec,
        local_port: t.local_port,
        remote_port: t.remote_port,
        post_connect_cmd: copy_opt(&t.post_connect_cmd),
    }
}

/// Whether a host can carry a tunnel with these jump candidates.
pub open spec fn usable_jump(h: HostView, cands: Option<Seq<Seq<char>>>) -> bool {
    h.is_master_ready && match cands {
        Some(cs) => cs.contains(h.host),
        None => true,
    }
}

/// The first usable jump host from place `i` on.
pub open spec fn ready_jump_from(
    hs: Seq<HostView>,
    cands: Option<Seq<Seq<char>>>,
    i: int,
) -> Option<Seq<char>>
    decreases hs.len() - i,
{
    if i < 0 || i >= hs.len() {
        None
    } else if usable_jump(hs[i], cands) {
        Some(hs[i].host)
    } else {
        ready_jump_from(hs, cands, i + 1)
    }
}

/// The first usable jump host.
pub open spec fn ready_jump(st: StateView, cands: Option<Seq<Seq<char>>>) -> Option<Seq<char>> {
    ready_jump_from(st.hosts, cands, 0)
}

/// The first host that is connected and among the candidates; any connected
/// host where there are none.
pub fn pick_ready_jump(state: &State, cands: &Option<Vec<String>>) -> (r: Option<String>)
    ensures
        opt_text(r) == ready_jump(state@, opt_texts(*cands)),
        match r {
            Some(j) => {
                &&& exists|i: int|
                    0 <= i < state.hosts@.len() && (#[trigger] state.hosts@[i]).host@ == j@
                        && state.hosts@[i].is_master_ready
                &&& cands matches Some(list) ==> texts(list@).contains(j@)
            },
            None => forall|i: int|
                0 <= i < state.hosts@.len() && (#[trigger] state.hosts@[i]).is_master_ready ==> (
                cands matches Some(list) && !texts(list@).contains(state.hosts@[i].host@)),
        },
{
    let ghost cs = opt_texts(*cands);
    let mut i: usize = 0;
    while i < state.hosts.len()
        invariant
            i <= state.hosts@.len(),
            cs == opt_texts(*cands),
            ready_jump(state@, cs) == ready_jump_from(state@.hosts, cs, i as int),
            forall|j: int|
                0 <= j < i && (#[trigger] state.hosts@[j]).is_master_ready ==> (
                cands matches Some(list) && !texts(list@).contains(state.hosts@[j].host@)),
        decreases state.hosts@.len() - i,
    {
        let h: &Host = &state.hosts[i];
        let wanted: bool = match cands {
            Some(list) => has_text(list, h.host.as_str()),
            None => true,
        };
        proof {
            assert(state@.hosts[i as int] == h@);
        }
        if h.is_master_ready && wanted {
            return Some(h.host.clone());
        }
        i += 1;
    }
    None
}

/// How the start of a tunnel to a compute node comes out.
#[derive(Debug, PartialEq)]
pub enum Resolved {
    /// The tunnel has no node.
    NoNode,
    /// No usable jump host is connected.
    NoJump,
    /// No account to log in with is known.
    NoUser,
    /// It goes this way.
    Go { jump: String, user: String, node: String },
}

/// What a resolution says.
#[verifier::ext_equal]
pub enum ResolvedView {
    NoNode,
    NoJump,
    NoUser,
    Go { jump: Seq<char>, user: Seq<char>, node: Seq<char> },
}

impl View for Resolved {
    type V = ResolvedView;

    open spec fn view(&self) -> ResolvedView {
        match self {
            Resolved::NoNode => ResolvedView::NoNode,
            Resolved::NoJump => ResolvedView::NoJump,
            Resolved::NoUser => ResolvedView::NoUser,
            Resolved::Go { jump, user, node } => ResolvedView::Go {
                jump: jump@,
                user: user@,
                node: node@,
            },
        }
    }
}

/// The account a tunnel logs in with.
pub open spec fn user_of(t: TunnelView, default_user: Seq<char>) -> Seq<char> {
    match t.last_user {
        Some(u) => u,
        None => default_user,
    }
}

/// How a start to a compute node comes out: a node is needed first, then a jump
/// host, then an account.
pub open spec fn resolved(st: StateView, t: TunnelView, default_user: Seq<char>) -> ResolvedView {
    match t.last_node {
        None => ResolvedView::NoNode,
        Some(node) => match ready_jump(st, t.jump_candidates) {
            None => ResolvedView::NoJump,
            Some(jump) => if user_of(t, default_user).len() == 0 {
                ResolvedView::NoUser
            } else {
                ResolvedView::Go { jump, user: user_of(t, default_user), node }
            },
        },
    }
}

/// Find out how a start of tunnel `i` to its compute node comes out.
pub fn resolve(state: &State, i: usize, default_user: &str) -> (r: Resolved)
    requires
        i < state.tunnels@.len(),
    ensures
        r@ == resolved(state@, state@.tunnels[i as int], default_user@),
{
    let t: &Tunnel = &state.tunnels[i];
    proof {
        assert(state@.tunnels[i as int] == t@);
    }
    match &t.last_node {
        None => Resolved::NoNode,
        Some(node) => {
            match pick_ready_jump(state, &t.jump_candidates) {
                None => Resolved::NoJump,
                Some(jump) => {
                    let user: String = match &t.last_user {
                        Some(u) => u.clone(),
                        None => default_user.to_owned(),
                    };
                    if user.as_str().is_empty() {
                        Resolved::NoUser
                    } else {
                        Resolved::Go { jump, user, node: node.clone() }
                    }
                },
            }
        },
    }
}

/// The record of a tunnel whose start comes out so; `wanted` is what
/// `wants_alive` becomes where the start goes ahead.
pub open spec fn start_record(t: TunnelView, r: ResolvedView, wanted: bool) -> TunnelView {
    match r {
        ResolvedView::NoNode => TunnelView {
            status: TunnelStatus::Idle,
            last_msg: "no node — press Enter to pick"@,
            ..t
        },
        ResolvedView::NoJump => TunnelView {
            status: TunnelStatus::Idle,
            last_msg: "waiting for jump host"@,
            ..t
        },
        ResolvedView::NoUser => TunnelView {
            status: TunnelStatus::Failed,
            last_msg: "no user (set last_user in tunnels.json)"@,
            ..t
        },
        ResolvedView::Go { jump, user, node } => TunnelView {
            status: TunnelStatus::Starting,
            active_jump: Some(jump),
            last_msg: "starting via "@ + jump,
            wants_alive: wanted,
            ..t
        },
    }
}

/// The order of a tunnel whose start comes out so.
pub open spec fn start_order(t: TunnelView, r: ResolvedView) -> Option<OrderView> {
    match r {
        ResolvedView::Go { jump, user, node } => Some(
            order_for(t, SpecView::Compute { jump, user, node }),
        ),
        _ => None,
    }
}

/// Put down how the start of a tunnel comes out, and write its order.
pub fn enter_start(t: &mut Tunnel, r: Resolved, wanted: bool) -> (o: Option<StartOrder>)
    ensures
        final(t)@ == start_record(old(t)@, r@, wanted),
        opt_order(o) == start_order(old(t)@, r@),
{
    match r {
        Resolved::NoNode => {
            t.status = TunnelStatus::Idle;
            t.last_msg = "no node — press Enter to pick".to_owned();
            None
        },
        Resolved::NoJump => {
            t.status = TunnelStatus::Idle;
            t.last_msg = "waiting for jump host".to_owned();
            None
        },
        Resolved::NoUser => {
            t.status = TunnelStatus::Failed;
            t.last_msg = "no user (set last_user in tunnels.json)".to_owned();
            None
        },
        Resolved::Go { jump, user, node } => {
            t.status = TunnelStatus::Starting;
            t.active_jump = Some(jump.clone());
            t.last_msg = cat2("starting via ", jump.as_str());
            t.wants_alive = wanted;
            Some(make_order(t, ForwardSpec::Compute { jump, user, node }))
        },
    }
}

/// Whether some connected host has the name.
pub open spec fn host_ready(st: StateView, name: Seq<char>) -> bool {
    exists|i: int|
        0 <= i < st.hosts.len() && (#[trigger] st.hosts[i]).host == name
            && st.hosts[i].is_master_ready
}

/// Whether some connected host has the name.
pub fn is_host_ready(state: &State, name: &str) -> (r: bool)
    ensures
        r == host_ready(state@, name@),
{
    let mut i: usize = 0;
    while i < state.hosts.len()
        invariant
            i <= state.hosts@.len(),
            forall|j: int|
                0 <= j < i ==> !((#[trigger] state@.hosts[j]).host == name@
                    && state@.hosts[j].is_master_ready),
        decreases state.hosts@.len() - i,
    {
        proof {
            assert(state@.hosts[i as int] == state.hosts@[i as int]@);
        }
        if state.hosts[i].is_master_ready && same_text(state.hosts[i].host.as_str(), name) {
            return true;
        }
        i += 1;
    }
    false
}

/// The records once the start of tunnel `i` has begun, and the order to launch. A
/// tunnel to a host itself waits for that host; one to a compute node needs a
/// node, a jump host and an account.
pub open spec fn begun(st: StateView, i: int, default_user: Seq<char>) -> (
    StateView,
    Option<OrderView>,
) {
    let t = st.tunnels[i];
    match t.direct_host {
        Some(host) => if host_ready(st, host) {
            (
                with_tunnel(
                    st,
                    i,
                    TunnelView {
                        status: TunnelStatus::Starting,
                        active_jump: Some(host),
                        last_msg: "starting direct to "@ + host,
                        wants_alive: true,
                        ..t
                    },
                ),
                Some(order_for(t, SpecView::Direct { host })),
            )
        } else {
            (
                with_tunnel(
                    st,
                    i,
                    TunnelView {
                        status: TunnelStatus::Idle,
                        last_msg: "waiting for host "@ + host,
                        active_jump: Some(host),
                        wants_alive: true,
                        ..t
                    },
                ),
                None,
            )
        },
        None => {
            let r = resolved(st, t, default_user);
            (with_tunnel(st, i, start_record(t, r, true)), start_order(t, r))
        },
    }
}

/// Begin the start of tunnel `i`: find its way and mark it starting, or say on its
/// record what is missing.
pub fn begin_start(state: &mut State, i: usize, default_user: &str) -> (o: Option<StartOrder>)
    requires
        i < old(state).tunnels@.len(),
    ensures
        (final(state)@, opt_order(o)) == begun(old(state)@, i as int, default_user@),
{
    proof {
        assert(state@.tunnels[i as int] == state.tunnels@[i as int]@);
    }
    let direct: Option<String> = copy_opt(&state.tunnels[i].direct_host);
    match direct {
        Some(host) => {
            let ready: bool = is_host_ready(state, host.as_str());
            let t: &mut Tunnel = state.tunnel_mut(i);
            t.active_jump = Some(host.clone());
            t.wants_alive = true;
            if ready {
                t.status = TunnelStatus::Starting;
                t.last_msg = cat2("starting direct to ", host.as_str());
                Some(make_order(t, ForwardSpec::Direct { host }))
            } else {
                t.status = TunnelStatus::Idle;
                t.last_msg = cat2("waiting for host ", host.as_str());
                None
            }
        },
        None => {
            let r: Resolved = resolve(state, i, default_user);
            enter_start(state.tunnel_mut(i), r, true)
        },
    }
}

proof fn lemma_ready_jump_from(hs: Seq<HostView>, cands: Option<Seq<Seq<char>>>, i: int)
    requires
        0 <= i,
    ensures
        match ready_jump_from(hs, cands, i) {
            Some(j) => exists|k: int|
                {
                    &&& i <= k < hs.len()
                    &&& (#[trigger] hs[k]).host == j
                    &&& hs[k].is_master_ready
                    &&& cands matches Some(cs) ==> cs.contains(j)
                    &&& forall|b: int|
                        i <= b < k && (#[trigger] hs[b]).is_master_ready ==> (cands matches Some(
                            cs,
                        ) && !cs.contains(hs[b].host))
                },
            None => forall|k: int|
                i <= k < hs.len() && (#[trigger] hs[k]).is_master_ready ==> (cands matches Some(cs)
                    && !cs.contains(hs[k].host)),
        },
    decreases hs.len() - i,
{
    if i < hs.len() {
        if usable_jump(hs[i], cands) {
            assert(hs[i].host == hs[i].host);
        } else {
            lemma_ready_jump_from(hs, cands, i + 1);
            if let Some(j) = ready_jump_from(hs, cands, i + 1) {
                let k = choose|k: int|
                    {
                        &&& i + 1 <= k < hs.len()
                        &&& (#[trigger] hs[k]).host == j
                        &&& hs[k].is_master_ready
                        &&& cands matches Some(cs) ==> cs.contains(j)
                        &&& forall|b: int|
                            i + 1 <= b < k && (#[trigger] hs[b]).is_master_ready ==> (
                            cands matches Some(cs) && !cs.contains(hs[b].host))
                    };
                assert(hs[k].host == j);
            }
        }
    }
}

/// A jump host that is picked is a connected host of the state, one of the
/// candidates where there are any, and the first such; none is picked only where no
/// connected host is a candidate.
pub proof fn law_a_picked_jump_is_connected_and_a_candidate(
    st: StateView,
    cands: Option<Seq<Seq<char>>>,
)
    ensures
        match ready_jump(st, cands) {
            Some(j) => exists|k: int|
                {
                    &&& 0 <= k < st.hosts.len()
                    &&& (#[trigger] st.hosts[k]).host == j
                    &&& st.hosts[k].is_master_ready
                    &&& cands matches Some(cs) ==> cs.contains(j)
                    &&& forall|b: int|
                        0 <= b < k && (#[trigger] st.hosts[b]).is_master_ready ==> (
                        cands matches Some(cs) && !cs.contains(st.hosts[b].host))
                },
            None => forall|k: int|
                0 <= k < st.hosts.len() && (#[trigger] st.hosts[k]).is_master_ready ==> (
                cands matches Some(cs) && !cs.contains(st.hosts[k].host)),
        },
{
    lemma_ready_jump_from(st.hosts, cands, 0);
}

/// A start that is ordered goes where its tunnel says: straight to its host where it
/// has one, and else to its node, as its account or else the default one, through a
/// connected jump host that is among its candidates; always with its own name, ports
/// and command. The record then says that the tunnel is starting that way and wanted.
pub proof fn law_an_order_goes_where_its_tunnel_says(
    st: StateView,
    i: int,
    default_user: Seq<char>,
)
    requires
        0 <= i < st.tunnels.len(),
        begun(st, i, default_user).1 is Some,
    ensures
        ({
            let t = st.tunnels[i];
            let (st1, order) = begun(st, i, default_user);
            let o = order->Some_0;
            let t1 = st1.tunnels[i];
            &&& o.name == t.name
            &&& o.local_port == t.local_port
            &&& o.remote_port == t.remote_port
            &&& o.post_connect_cmd == t.post_connect_cmd
            &&& t1.status == TunnelStatus::Starting
            &&& t1.wants_alive
            &&& t1.name == t.name && t1.local_port == t.local_port && t1.remote_port
                == t.remote_port
            &&& t1.last_node == t.last_node && t1.jump_candidates == t.jump_candidates
            &&& match o.spec {
                SpecView::Direct { host } => {
                    &&& t.direct_host == Some(host)
                    &&& t1.active_jump == Some(host)
                    &&& exists|k: int|
                        0 <= k < st.hosts.len() && (#[trigger] st.hosts[k]).host == host
                            && st.hosts[k].is_master_ready
                },
                SpecView::Compute { jump, user, node } => {
                    &&& t.direct_host is None
                    &&& t.last_node == Some(node)
                    &&& user.len() > 0
                    &&& t.last_user == Some(user) || (t.last_user is None && user == default_user)
                    &&& t1.active_jump == Some(jump)
                    &&& t.jump_candidates matches Some(cs) ==> cs.contains(jump)
                    &&& exists|k: int|
                        0 <= k < st.hosts.len() && (#[trigger] st.hosts[k]).host == jump
                            && st.hosts[k].is_master_ready
                },
            }
        }),
{
    let t = st.tunnels[i];
    law_a_picked_jump_is_connected_and_a_candidate(st, t.jump_candidates);
    if t.direct_host is None {
        let j = ready_jump(st, t.jump_candidates)->Some_0;
        let k = choose|k: int|
            {
                &&& 0 <= k < st.hosts.len()
                &&& (#[trigger] st.hosts[k]).host == j
                &&& st.hosts[k].is_master_ready
                &&& t.jump_candidates matches Some(cs) ==> cs.contains(j)
                &&& forall|b: int|
                    0 <= b < k && (#[trigger] st.hosts[b]).is_master_ready ==> (
                    t.jump_candidates matches Some(cs) && !cs.contains(st.hosts[b].host))
            };
        assert(st.hosts[k].host == j);
    }
}

/// A start is put off only for want of something: a tunnel to a host itself whose host
/// is connected, and one to a node that has a node, a connected candidate and an
/// account, are ordered. One that is put off is not starting, and no other tunnel and
/// no host is touched either way.
pub proof fn law_a_start_is_put_off_only_for_want_of_something(
    st: StateView,
    i: int,
    default_user: Seq<char>,
    k: int,
)
    requires
        0 <= i < st.tunnels.len(),
        0 <= k < st.hosts.len(),
        st.hosts[k].is_master_ready,
    ensures
        ({
            let t = st.tunnels[i];
            let (st1, order) = begun(st, i, default_user);
            &&& t.direct_host == Some(st.hosts[k].host) ==> order is Some
            &&& t.direct_host is None && t.last_node is Some && (t.jump_candidates matches Some(cs)
                ==> cs.contains(st.hosts[k].host)) && (match t.last_user {
                Some(u) => u.len() > 0,
                None => default_user.len() > 0,
            }) ==> order is Some
            &&& order is None ==> st1.tunnels[i].status != TunnelStatus::Starting
                && st1.tunnels[i].status != TunnelStatus::Alive
            &&& st1.hosts == st.hosts
            &&& st1.tunnels.len() == st.tunnels.len()
            &&& forall|j: int|
                0 <= j < st.tunnels.len() && j != i ==> #[trigger] st1.tunnels[j] == st.tunnels[j]
        }),
{
    law_a_picked_jump_is_connected_and_a_candidate(st, st.tunnels[i].jump_candidates);
}

/// The start of a tunnel to a host itself makes it wanted, and it goes ahead exactly
/// where a host of that name is connected; else the tunnel waits, idle. The start of a
/// tunnel to a node that lacks something leaves it as much wanted as it was.
pub proof fn law_a_start_makes_a_tunnel_wanted(st: StateView, i: int, default_user: Seq<char>)
    requires
        0 <= i < st.tunnels.len(),
    ensures
        ({
            let t = st.tunnels[i];
            let (after, order) = begun(st, i, default_user);
            let t1 = after.tunnels[i];
            &&& t1.name == t.name && t1.last_node == t.last_node && t1.last_user == t.last_user
            &&& t1.direct_host == t.direct_host && t1.jump_candidates == t.jump_candidates
            &&& order is Some ==> t1.status == TunnelStatus::Starting && t1.wants_alive
            &&& t.direct_host matches Some(host) ==> {
                &&& t1.wants_alive && t1.active_jump == Some(host)
                &&& order is Some <==> exists|k: int|
                    0 <= k < st.hosts.len() && (#[trigger] st.hosts[k]).host == host
                        && st.hosts[k].is_master_ready
                &&& order is None ==> t1.status == TunnelStatus::Idle
            }
            &&& t.direct_host is None && order is None ==> {
                &&& t1.wants_alive == t.wants_alive
                &&& t1.active_jump == t.active_jump
                &&& t1.status == TunnelStatus::Idle || t1.status == TunnelStatus::Failed
            }
        }),
{
}

} // verus!
