//! The daemon's data: hosts, tunnels, the state that holds them, and the errors
//! that a request can meet. Times are Unix milliseconds; zero means "never".
use crate::json::{Json, JsonView};
use crate::text::{cat3, dec, decimal, opt_text, same_text, texts};
use vstd::prelude::*;

verus! {

/// Where a tunnel stands.
#[derive(Debug, Clone, Copy, PartialEq, Eq, Structural)]
pub enum TunnelStatus {
    Idle,
    Failed,
    Stale,
    PortBusy,
    Starting,
    Alive,
}

/// The name of a status in requests and replies.
pub open spec fn status_name(s: TunnelStatus) -> Seq<char> {
    match s {
        TunnelStatus::Idle => "idle"@,
        TunnelStatus::Failed => "failed"@,
        TunnelStatus::Stale => "stale"@,
        TunnelStatus::PortBusy => "port_busy"@,
        TunnelStatus::Starting => "starting"@,
        TunnelStatus::Alive => "alive"@,
    }
}

impl TunnelStatus {
    /// The name of the status in requests and replies.
    pub fn name(self) -> (r: &'static str)
        ensures
            r@ == status_name(self),
    {
        match self {
            TunnelStatus::Idle => "idle",
            TunnelStatus::Failed => "failed",
            TunnelStatus::Stale => "stale",
            TunnelStatus::PortBusy => "port_busy",
            TunnelStatus::Starting => "starting",
            TunnelStatus::Alive => "alive",
        }
    }
}

/// A login host and its connection.
#[derive(Debug, Clone, PartialEq)]
pub struct Host {
    pub host: String,
    pub status: String,
    pub active: bool,
    pub is_master_ready: bool,
    pub pool_index: u8,
    pub pool_alive: u32,
    pub is_mounted: bool,
    pub last_msg: String,
}

/// What a host record says.
#[verifier::ext_equal]
pub struct HostView {
    pub host: Seq<char>,
    pub status: Seq<char>,
    pub active: bool,
    pub is_master_ready: bool,
    pub pool_index: u8,
    pub pool_alive: u32,
    pub is_mounted: bool,
    pub last_msg: Seq<char>,
}

impl View for Host {
    type V = HostView;

    open spec fn view(&self) -> HostView {
        HostView {
            host: self.host@,
            status: self.status@,
            active: self.active,
            is_master_ready: self.is_master_ready,
            pool_index: self.pool_index,
            pool_alive: self.pool_alive,
            is_mounted: self.is_mounted,
            last_msg: self.last_msg@,
        }
    }
}

/// A port forward: to a compute node through a jump host, or straight to
/// `direct_host`.
#[derive(Debug, Clone, PartialEq)]
pub struct Tunnel {
    pub name: String,
    pub local_port: u16,
    pub remote_port: u16,
    pub jump_candidates: Option<Vec<String>>,
    pub last_node: Option<String>,
    pub last_user: Option<String>,
    pub direct_host: Option<String>,
    pub auto_start: bool,
    pub post_connect_cmd: Option<String>,
    pub tags: Vec<String>,
    pub url_path: Option<String>,
    pub wants_alive: bool,
    pub status: TunnelStatus,
    pub active_jump: Option<String>,
    pub last_msg: String,
    pub last_alive_at: u64,
    pub total_uptime_ms: u64,
    pub connect_count: u64,
    pub fail_count: u64,
}

/// What a tunnel record says.
#[verifier::ext_equal]
pub struct TunnelView {
    pub name: Seq<char>,
    pub local_port: u16,
    pub remote_port: u16,
    pub jump_candidates: Option<Seq<Seq<char>>>,
    pub last_node: Option<Seq<char>>,
    pub last_user: Option<Seq<char>>,
    pub direct_host: Option<Seq<char>>,
    pub auto_start: bool,
    pub post_connect_cmd: Option<Seq<char>>,
    pub tags: Seq<Seq<char>>,
    pub url_path: Option<Seq<char>>,
    pub wants_alive: bool,
    pub status: TunnelStatus,
    pub active_jump: Option<Seq<char>>,
    pub last_msg: Seq<char>,
    pub last_alive_at: u64,
    pub total_uptime_ms: u64,
    pub connect_count: u64,
    pub fail_count: u64,
}

/// The texts of an optional list.
pub open spec fn opt_texts(o: Option<Vec<String>>) -> Option<Seq<Seq<char>>> {
    match o {
        Some(v) => Some(texts(v@)),
        None => None,
    }
}

impl View for Tunnel {
    type V = TunnelView;

    open spec fn view(&self) -> TunnelView {
        TunnelView {
            name: self.name@,
            local_port: self.local_port,
            remote_port: self.remote_port,
            jump_candidates: opt_texts(self.jump_candidates),
            last_node: opt_text(self.last_node),
            last_user: opt_text(self.last_user),
            direct_host: opt_text(self.direct_host),
            auto_start: self.auto_start,
            post_connect_cmd: opt_text(self.post_connect_cmd),
            tags: texts(self.tags@),
            url_path: opt_text(self.url_path),
            wants_alive: self.wants_alive,
            status: self.status,
            active_jump: opt_text(self.active_jump),
            last_msg: self.last_msg@,
            last_alive_at: self.last_alive_at,
            total_uptime_ms: self.total_uptime_ms,
            connect_count: self.connect_count,
            fail_count: self.fail_count,
        }
    }
}

/// Everything the daemon knows of its hosts and tunnels, in list order.
#[derive(Debug)]
pub struct State {
    pub hosts: Vec<Host>,
    pub tunnels: Vec<Tunnel>,
}

/// What a state says.
#[verifier::ext_equal]
pub struct StateView {
    pub hosts: Seq<HostView>,
    pub tunnels: Seq<TunnelView>,
}

/// What host records say.
pub open spec fn hosts_view(s: Seq<Host>) -> Seq<HostView> {
    s.map_values(|h: Host| h@)
}

/// What tunnel records say.
pub open spec fn tunnels_view(s: Seq<Tunnel>) -> Seq<TunnelView> {
    s.map_values(|t: Tunnel| t@)
}

impl View for State {
    type V = StateView;

    open spec fn view(&self) -> StateView {
        StateView { hosts: hosts_view(self.hosts@), tunnels: tunnels_view(self.tunnels@) }
    }
}

/// `n + 1`, or `n` where that is the greatest number.
pub open spec fn bumped(n: u64) -> u64 {
    if n == u64::MAX {
        n
    } else {
        (n + 1) as u64
    }
}

/// `a - b`, or zero where `b` is greater.
pub open spec fn since(a: u64, b: u64) -> u64 {
    if a >= b {
        (a - b) as u64
    } else {
        0
    }
}

/// The first place of `name` in a list of names.
pub open spec fn first_at(names: Seq<Seq<char>>, name: Seq<char>) -> Option<int> {
    if names.contains(name) {
        Some(choose|i: int| is_first_at(names, name, i))
    } else {
        None
    }
}

/// Whether `i` is the first place of `name`.
pub open spec fn is_first_at(names: Seq<Seq<char>>, name: Seq<char>, i: int) -> bool {
    &&& 0 <= i < names.len()
    &&& names[i] == name
    &&& forall|j: int| 0 <= j < i ==> names[j] != name
}

/// Only one place is the first.
pub proof fn lemma_first_is(names: Seq<Seq<char>>, name: Seq<char>, i: int)
    requires
        is_first_at(names, name, i),
    ensures
        first_at(names, name) == Some(i),
{
    assert(names.contains(name));
    let k = choose|k: int| is_first_at(names, name, k);
    assert(is_first_at(names, name, k));
    if k < i {
        assert(names[k] != name);
    }
    if i < k {
        assert(names[i] != name);
    }
}

/// A name in the list has a first place.
pub proof fn lemma_first(names: Seq<Seq<char>>, name: Seq<char>)
    ensures
        match first_at(names, name) {
            Some(i) => is_first_at(names, name, i),
            None => !names.contains(name),
        },
{
    if names.contains(name) {
        let i = choose|i: int| 0 <= i < names.len() && names[i] == name;
        lemma_first_below(names, name, i);
    }
}

proof fn lemma_first_below(names: Seq<Seq<char>>, name: Seq<char>, i: int)
    requires
        0 <= i < names.len(),
        names[i] == name,
    ensures
        exists|k: int| is_first_at(names, name, k),
    decreases i,
{
    if exists|j: int| 0 <= j < i && names[j] == name {
        let j = choose|j: int| 0 <= j < i && names[j] == name;
        lemma_first_below(names, name, j);
    } else {
        assert(is_first_at(names, name, i));
    }
}

/// The names of some tunnels.
pub open spec fn tunnel_names(ts: Seq<TunnelView>) -> Seq<Seq<char>> {
    ts.map_values(|t: TunnelView| t.name)
}

/// The names of some hosts.
pub open spec fn host_names(hs: Seq<HostView>) -> Seq<Seq<char>> {
    hs.map_values(|h: HostView| h.host)
}

/// The place of the tunnel that a name addresses: the first that carries it.
pub open spec fn tunnel_at(st: StateView, name: Seq<char>) -> Option<int> {
    first_at(tunnel_names(st.tunnels), name)
}

/// The place of the host that a name addresses: the first that carries it.
pub open spec fn host_at(st: StateView, name: Seq<char>) -> Option<int> {
    first_at(host_names(st.hosts), name)
}

/// `st` with another record for tunnel `i`.
pub open spec fn with_tunnel(st: StateView, i: int, t: TunnelView) -> StateView {
    StateView { tunnels: st.tunnels.update(i, t), ..st }
}

/// `st` with another record for host `i`.
pub open spec fn with_host(st: StateView, i: int, h: HostView) -> StateView {
    StateView { hosts: st.hosts.update(i, h), ..st }
}

/// `st` with a change made to the tunnel that `name` addresses, if there is one.
pub open spec fn edit_tunnel(
    st: StateView,
    name: Seq<char>,
    change: spec_fn(TunnelView) -> TunnelView,
) -> StateView {
    match tunnel_at(st, name) {
        Some(i) => with_tunnel(st, i, change(st.tunnels[i])),
        None => st,
    }
}

/// `st` with a change made to the host that `name` addresses, if there is one.
pub open spec fn edit_host(
    st: StateView,
    name: Seq<char>,
    change: spec_fn(HostView) -> HostView,
) -> StateView {
    match host_at(st, name) {
        Some(i) => with_host(st, i, change(st.hosts[i])),
        None => st,
    }
}

impl State {
    /// A state with these tunnels and no host.
    pub fn with_tunnels(tunnels: Vec<Tunnel>) -> (s: State)
        ensures
            s@ == (StateView { hosts: Seq::empty(), tunnels: tunnels_view(tunnels@) }),
    {
        let s: State = State { hosts: Vec::new(), tunnels };
        proof {
            assert(s@.hosts =~= Seq::empty());
        }
        s
    }

    /// The place of the tunnel that `name` addresses.
    pub fn find_tunnel(&self, name: &str) -> (r: Option<usize>)
        ensures
            match r {
                Some(i) => {
                    &&& tunnel_at(self@, name@) == Some(i as int)
                    &&& i < self.tunnels@.len()
                    &&& self@.tunnels[i as int].name == name@
                },
                None => tunnel_at(self@, name@) is None,
            },
    {
        let ghost names = tunnel_names(self@.tunnels);
        let mut i: usize = 0;
        while i < self.tunnels.len()
            invariant
                names == tunnel_names(self@.tunnels),
                i <= self.tunnels@.len(),
                forall|j: int| 0 <= j < i ==> #[trigger] names[j] != name@,
            decreases self.tunnels@.len() - i,
        {
            if same_text(self.tunnels[i].name.as_str(), name) {
                proof {
                    assert(names[i as int] == name@);
                    lemma_first_is(names, name@, i as int);
                }
                return Some(i);
            }
            proof {
                assert(names[i as int] == self.tunnels@[i as int].name@);
            }
            i += 1;
        }
        proof {
            assert(!names.contains(name@));
        }
        None
    }

    /// The place of the host that `name` addresses.
    pub fn find_host(&self, name: &str) -> (r: Option<usize>)
        ensures
            match r {
                Some(i) => {
                    &&& host_at(self@, name@) == Some(i as int)
                    &&& i < self.hosts@.len()
                    &&& self@.hosts[i as int].host == name@
                },
                None => host_at(self@, name@) is None,
            },
    {
        let ghost names = host_names(self@.hosts);
        let mut i: usize = 0;
        while i < self.hosts.len()
            invariant
                names == host_names(self@.hosts),
                i <= self.hosts@.len(),
                forall|j: int| 0 <= j < i ==> #[trigger] names[j] != name@,
            decreases self.hosts@.len() - i,
        {
            if same_text(self.hosts[i].host.as_str(), name) {
                proof {
                    assert(names[i as int] == name@);
                    lemma_first_is(names, name@, i as int);
                }
                return Some(i);
            }
            proof {
                assert(names[i as int] == self.hosts@[i as int].host@);
            }
            i += 1;
        }
        proof {
            assert(!names.contains(name@));
        }
        None
    }

    /// Tunnel `i`, to be changed in place.
    pub fn tunnel_mut(&mut self, i: usize) -> (t: &mut Tunnel)
        requires
            i < old(self).tunnels@.len(),
        ensures
            t@ == old(self)@.tunnels[i as int],
            final(self)@ == with_tunnel(old(self)@, i as int, final(t)@),
    {
        &mut self.tunnels[i]
    }

    /// Host `i`, to be changed in place.
    pub fn host_mut(&mut self, i: usize) -> (h: &mut Host)
        requires
            i < old(self).hosts@.len(),
        ensures
            h@ == old(self)@.hosts[i as int],
            final(self)@ == with_host(old(self)@, i as int, final(h)@),
    {
        &mut self.hosts[i]
    }
}

/// Why a request is refused.
#[derive(Debug, PartialEq)]
pub enum Error {
    BadParams(String),
    NotFound(String),
    Duplicate(String),
    PortInUse(u16),
    Discovery(String),
    Internal(String),
}

/// What an error says.
#[verifier::ext_equal]
pub enum ErrorView {
    BadParams(Seq<char>),
    NotFound(Seq<char>),
    Duplicate(Seq<char>),
    PortInUse(u16),
    Discovery(Seq<char>),
    Internal(Seq<char>),
}

impl View for Error {
    type V = ErrorView;

    open spec fn view(&self) -> ErrorView {
        match self {
            Error::BadParams(m) => ErrorView::BadParams(m@),
            Error::NotFound(m) => ErrorView::NotFound(m@),
            Error::Duplicate(m) => ErrorView::Duplicate(m@),
            Error::PortInUse(p) => ErrorView::PortInUse(*p),
            Error::Discovery(m) => ErrorView::Discovery(m@),
            Error::Internal(m) => ErrorView::Internal(m@),
        }
    }
}

/// The text of an error in a reply.
pub open spec fn error_text(e: ErrorView) -> Seq<char> {
    match e {
        ErrorView::BadParams(m) => m,
        ErrorView::NotFound(m) => m,
        ErrorView::Duplicate(m) => m,
        ErrorView::PortInUse(p) => "port "@ + dec(p as nat) + " is in use"@,
        ErrorView::Discovery(m) => m,
        ErrorView::Internal(m) => m,
    }
}

/// The code of an error in a reply.
pub open spec fn error_code(e: ErrorView) -> Seq<char> {
    match e {
        ErrorView::BadParams(_) => "bad_params"@,
        ErrorView::NotFound(_) => "not_found"@,
        ErrorView::Duplicate(_) => "duplicate"@,
        ErrorView::PortInUse(_) => "port_in_use"@,
        ErrorView::Discovery(_) => "discovery_failed"@,
        ErrorView::Internal(_) => "internal_error"@,
    }
}

impl Error {
    /// A malformed request.
    pub fn bad(msg: &str) -> (e: Error)
        ensures
            e@ == ErrorView::BadParams(msg@),
    {
        Error::BadParams(msg.to_owned())
    }

    /// Something addressed is not there.
    pub fn missing(msg: &str) -> (e: Error)
        ensures
            e@ == ErrorView::NotFound(msg@),
    {
        Error::NotFound(msg.to_owned())
    }

    /// The text of the error in a reply.
    pub fn text(&self) -> (r: String)
        ensures
            r@ == error_text(self@),
    {
        match self {
            Error::BadParams(m) => m.clone(),
            Error::NotFound(m) => m.clone(),
            Error::Duplicate(m) => m.clone(),
            Error::PortInUse(p) => cat3("port ", decimal(*p as u64).as_str(), " is in use"),
            Error::Discovery(m) => m.clone(),
            Error::Internal(m) => m.clone(),
        }
    }

    /// The code of the error in a reply.
    pub fn code(&self) -> (r: &'static str)
        ensures
            r@ == error_code(self@),
    {
        match self {
            Error::BadParams(_) => "bad_params",
            Error::NotFound(_) => "not_found",
            Error::Duplicate(_) => "duplicate",
            Error::PortInUse(_) => "port_in_use",
            Error::Discovery(_) => "discovery_failed",
            Error::Internal(_) => "internal_error",
        }
    }
}

/// What a handler's result says.
pub open spec fn outcome(r: Result<Json, Error>) -> Result<JsonView, ErrorView> {
    match r {
        Ok(j) => Ok(j@),
        Err(e) => Err(e@),
    }
}

/// A name addresses the first tunnel that carries it, and nothing where none does.
pub proof fn law_a_name_addresses_the_first_tunnel(st: StateView, name: Seq<char>, i: int)
    ensures
        tunnel_at(st, name) == Some(i) <==> {
            &&& 0 <= i < st.tunnels.len()
            &&& st.tunnels[i].name == name
            &&& forall|j: int| 0 <= j < i ==> (#[trigger] st.tunnels[j]).name != name
        },
        tunnel_at(st, name) is None <==> forall|j: int|
            0 <= j < st.tunnels.len() ==> (#[trigger] st.tunnels[j]).name != name,
{
    let names = tunnel_names(st.tunnels);
    lemma_first(names, name);
    assert forall|j: int| 0 <= j < st.tunnels.len() implies (#[trigger] st.tunnels[j]).name
        == names[j] by {}
    if 0 <= i < st.tunnels.len() && st.tunnels[i].name == name && (forall|j: int|
        0 <= j < i ==> (#[trigger] st.tunnels[j]).name != name) {
        assert forall|j: int| 0 <= j < i implies names[j] != name by {
            assert(st.tunnels[j].name != name);
        }
        lemma_first_is(names, name, i);
    }
    if tunnel_at(st, name) is None {
        assert forall|j: int| 0 <= j < st.tunnels.len() implies (#[trigger] st.tunnels[j]).name
            != name by {
            assert(names[j] == st.tunnels[j].name);
        }
    } else {
        let k = tunnel_at(st, name)->Some_0;
        assert(st.tunnels[k].name == name);
        assert forall|j: int| 0 <= j < k implies (#[trigger] st.tunnels[j]).name != name by {
            assert(names[j] != name);
        }
    }
}

/// A name addresses the first host that carries it, and nothing where none does.
pub proof fn law_a_name_addresses_the_first_host(st: StateView, name: Seq<char>, i: int)
    ensures
        host_at(st, name) == Some(i) <==> {
            &&& 0 <= i < st.hosts.len()
            &&& st.hosts[i].host == name
            &&& forall|j: int| 0 <= j < i ==> (#[trigger] st.hosts[j]).host != name
        },
        host_at(st, name) is None <==> forall|j: int|
            0 <= j < st.hosts.len() ==> (#[trigger] st.hosts[j]).host != name,
{
    let names = host_names(st.hosts);
    lemma_first(names, name);
    if 0 <= i < st.hosts.len() && st.hosts[i].host == name && (forall|j: int|
        0 <= j < i ==> (#[trigger] st.hosts[j]).host != name) {
        assert forall|j: int| 0 <= j < i implies names[j] != name by {
            assert(st.hosts[j].host != name);
        }
        lemma_first_is(names, name, i);
    }
    if host_at(st, name) is None {
        assert forall|j: int| 0 <= j < st.hosts.len() implies (#[trigger] st.hosts[j]).host != name by {
            assert(names[j] == st.hosts[j].host);
        }
    } else {
        let k = host_at(st, name)->Some_0;
        assert(st.hosts[k].host == name);
        assert forall|j: int| 0 <= j < k implies (#[trigger] st.hosts[j]).host != name by {
            assert(names[j] != name);
        }
    }
}

/// A change to one tunnel leaves the others, and all hosts, as they were; so does a
/// change to one host.
pub proof fn law_a_change_touches_one_record(
    st: StateView,
    name: Seq<char>,
    tunnel: spec_fn(TunnelView) -> TunnelView,
    host: spec_fn(HostView) -> HostView,
)
    ensures
        ({
            let a = edit_tunnel(st, name, tunnel);
            &&& a.hosts == st.hosts
            &&& a.tunnels.len() == st.tunnels.len()
            &&& forall|i: int|
                0 <= i < st.tunnels.len() && (#[trigger] st.tunnels[i]).name != name ==> a.tunnels[i]
                    == st.tunnels[i]
            &&& forall|i: int|
                0 <= i < st.tunnels.len() && (#[trigger] st.tunnels[i]).name == name && (forall|
                    j: int,
                |
                    0 <= j < i ==> (#[trigger] st.tunnels[j]).name != name) ==> a.tunnels[i]
                    == tunnel(st.tunnels[i])
        }),
        ({
            let a = edit_host(st, name, host);
            &&& a.tunnels == st.tunnels
            &&& a.hosts.len() == st.hosts.len()
            &&& forall|i: int|
                0 <= i < st.hosts.len() && (#[trigger] st.hosts[i]).host != name ==> a.hosts[i]
                    == st.hosts[i]
            &&& forall|i: int|
                0 <= i < st.hosts.len() && (#[trigger] st.hosts[i]).host == name && (forall|j: int|
                    0 <= j < i ==> (#[trigger] st.hosts[j]).host != name) ==> a.hosts[i] == host(
                    st.hosts[i],
                )
        }),
{
    lemma_first(tunnel_names(st.tunnels), name);
    lemma_first(host_names(st.hosts), name);
    assert forall|i: int|
        0 <= i < st.tunnels.len() && (#[trigger] st.tunnels[i]).name == name && (forall|j: int|
            0 <= j < i ==> (#[trigger] st.tunnels[j]).name != name) implies tunnel_at(st, name)
        == Some(i) by {
        law_a_name_addresses_the_first_tunnel(st, name, i);
    }
    assert forall|i: int|
        0 <= i < st.hosts.len() && (#[trigger] st.hosts[i]).host == name && (forall|j: int|
            0 <= j < i ==> (#[trigger] st.hosts[j]).host != name) implies host_at(st, name) == Some(
        i,
    ) by {
        law_a_name_addresses_the_first_host(st, name, i);
    }
}

/// The names of statuses, and the codes of errors, tell them apart.
pub proof fn law_names_tell_statuses_and_errors_apart(
    a: TunnelStatus,
    b: TunnelStatus,
    d: ErrorView,
    e: ErrorView,
)
    ensures
        status_name(a) == status_name(b) ==> a == b,
        error_code(d) == error_code(e) ==> {
            &&& d is BadParams == e is BadParams
            &&& d is NotFound == e is NotFound
            &&& d is Duplicate == e is Duplicate
            &&& d is PortInUse == e is PortInUse
            &&& d is Discovery == e is Discovery
            &&& d is Internal == e is Internal
        },
{
    reveal_strlit("idle");
    reveal_strlit("failed");
    reveal_strlit("stale");
    reveal_strlit("port_busy");
    reveal_strlit("starting");
    reveal_strlit("alive");
    assert("idle"@[0] == 'i' && "failed"@[0] == 'f' && "port_busy"@[0] == 'p' && "alive"@[0] == 'a');
    assert("stale"@.len() == 5 && "starting"@.len() == 8 && "stale"@[0] == 's' && "starting"@[0]
        == 's');
    reveal_strlit("bad_params");
    reveal_strlit("not_found");
    reveal_strlit("duplicate");
    reveal_strlit("port_in_use");
    reveal_strlit("discovery_failed");
    reveal_strlit("internal_error");
    assert("bad_params"@[0] == 'b' && "not_found"@[0] == 'n' && "port_in_use"@[0] == 'p'
        && "internal_error"@[0] == 'i');
    assert("duplicate"@.len() == 9 && "discovery_failed"@.len() == 16 && "duplicate"@[0] == 'd'
        && "discovery_failed"@[0] == 'd');
}

/// An error is reported with the text it carries; one about a port names the port.
pub proof fn law_an_error_says_what_it_carries(m: Seq<char>, p: u16)
    ensures
        error_text(ErrorView::BadParams(m)) == m,
        error_text(ErrorView::NotFound(m)) == m,
        error_text(ErrorView::Duplicate(m)) == m,
        error_text(ErrorView::Discovery(m)) == m,
        error_text(ErrorView::Internal(m)) == m,
        error_text(ErrorView::PortInUse(p)) == "port "@ + dec(p as nat) + " is in use"@,
        error_code(ErrorView::BadParams(m)) == "bad_params"@,
        error_code(ErrorView::NotFound(m)) == "not_found"@,
        error_code(ErrorView::Duplicate(m)) == "duplicate"@,
        error_code(ErrorView::PortInUse(p)) == "port_in_use"@,
{
}

/// Counting goes up by one and does not wrap; the time since a moment is the
/// difference, and none where the moment lies ahead.
pub proof fn law_counts_and_times_do_not_wrap(n: u64, a: u64, b: u64)
    ensures
        n < u64::MAX ==> bumped(n) == n + 1,
        bumped(u64::MAX) == u64::MAX,
        b <= a ==> since(a, b) == a - b,
        a < b ==> since(a, b) == 0,
{
}

} // verus!
