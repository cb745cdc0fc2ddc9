//! Starting or stopping many tunnels in one request.
use crate::handlers::Reply;
use crate::handlers::tunnel_settings::{list_at, read_list};
use crate::handlers::tunnels::{
    asks_for, law_a_stop_stops_one_tunnel, start_named, start_of, stop_asked, stop_named, stop_of,
    str_or_empty,
};
use crate::json::{Fields, Items, Json, JsonView, field, lemma_strings_in};
use crate::model::{
    Error, ErrorView, State, StateView, TunnelStatus, error_text,
    law_a_name_addresses_the_first_tunnel, outcome, tunnel_at, tunnel_names,
};
use crate::starts::{
    OrderView, StartOrder, begun, law_an_order_goes_where_its_tunnel_says, orders_view,
};
use crate::text::{same_text, texts};
use crate::tunnel_runtime::{RuntimeView, TunnelRuntime};
use vstd::prelude::*;

verus! {

/// How many starts of a batch are made at once.
pub const BATCH_START_CONCURRENCY: usize = 4;

/// The result of one name of a batch.
pub open spec fn batch_item(name: Seq<char>, r: Result<JsonView, ErrorView>) -> JsonView {
    match r {
        Ok(_) => JsonView::Obj(
            Map::empty().insert("name"@, JsonView::Str(name)).insert("ok"@, JsonView::Bool(true)),
        ),
        Err(e) => JsonView::Obj(
            Map::empty().insert("name"@, JsonView::Str(name)).insert(
                "ok"@,
                JsonView::Bool(false),
            ).insert("error"@, JsonView::Str(error_text(e))),
        ),
    }
}

fn make_batch_item(name: &str, r: &Result<Json, Error>) -> (j: Json)
    ensures
        j@ == batch_item(name@, outcome(*r)),
{
    let mut f: Fields = Fields::new();
    f.put("name", Json::text(name));
    match r {
        Ok(_) => {
            f.put("ok", Json::Bool(true));
        },
        Err(e) => {
            f.put("ok", Json::Bool(false));
            f.put("error", Json::Str(e.text()));
        },
    }
    f.done()
}

/// The records after some names of a batch, one after another, their results and
/// what is to be done outside.
#[verifier::ext_equal]
pub struct BatchFold {
    pub st: StateView,
    pub rt: RuntimeView,
    pub results: Seq<JsonView>,
    pub kills: Seq<u64>,
    pub starts: Seq<OrderView>,
    pub persist: bool,
}

/// `s` with one more item, where there is one.
pub open spec fn push_opt<T>(s: Seq<T>, o: Option<T>) -> Seq<T> {
    match o {
        Some(x) => s.push(x),
        None => s,
    }
}

/// Start or stop the tunnels of some names, one after another.
pub open spec fn batch_fold(
    names: Seq<Seq<char>>,
    start: bool,
    st: StateView,
    rt: RuntimeView,
    default_user: Seq<char>,
    now: u64,
) -> BatchFold
    decreases names.len(),
{
    if names.len() == 0 {
        BatchFold {
            st,
            rt,
            results: Seq::empty(),
            kills: Seq::empty(),
            starts: Seq::empty(),
            persist: false,
        }
    } else {
        let b = batch_fold(names.drop_last(), start, st, rt, default_user, now);
        let name = names.last();
        let (st1, rt1, reply) = if start {
            let g = start_of(b.st, name, default_user);
            (g.0, b.rt, g.1)
        } else {
            stop_of(b.st, b.rt, name, now)
        };
        BatchFold {
            st: st1,
            rt: rt1,
            results: b.results.push(batch_item(name, reply.result)),
            kills: push_opt(b.kills, reply.effects.kill),
            starts: push_opt(b.starts, reply.effects.start),
            persist: b.persist || reply.effects.persist,
        }
    }
}

/// What a batch request asks for: whether to start, and the names.
pub open spec fn batch_request(params: JsonView) -> Result<(bool, Seq<Seq<char>>), ErrorView> {
    let action = str_or_empty(params, "action"@);
    if action != "start"@ && action != "stop"@ {
        Err(ErrorView::BadParams("action must be 'start' or 'stop'"@))
    } else {
        match list_at(params, "names"@, "names must be an array"@) {
            Err(e) => Err(e),
            Ok(Some(names)) => Ok((action == "start"@, names)),
            Ok(None) => Ok((action == "start"@, Seq::empty())),
        }
    }
}

/// A batch under way. Starts are made a few at a time, with a pause in between
/// that the caller makes; stops are made all at once.
#[derive(Debug)]
pub struct BatchRun {
    start: bool,
    names: Vec<String>,
    next: usize,
    results: Items,
}

/// What a batch says.
#[verifier::ext_equal]
pub struct BatchView {
    pub start: bool,
    pub names: Seq<Seq<char>>,
    pub next: int,
    pub results: Seq<JsonView>,
}

impl View for BatchRun {
    type V = BatchView;

    closed spec fn view(&self) -> BatchView {
        BatchView {
            start: self.start,
            names: texts(self.names@),
            next: self.next as int,
            results: self.results@,
        }
    }
}

/// What a part of a batch asks for outside.
#[derive(Debug)]
pub struct BatchOrders {
    pub kills: Vec<u64>,
    pub starts: Vec<StartOrder>,
    pub persist: bool,
}

/// Where the next part of a batch ends.
pub open spec fn chunk_end(b: BatchView) -> int {
    if b.start && b.next + BATCH_START_CONCURRENCY < b.names.len() {
        b.next + BATCH_START_CONCURRENCY
    } else {
        b.names.len() as int
    }
}

/// Read a batch request.
pub fn tunnels_batch(params: &Json) -> (r: Result<BatchRun, Error>)
    ensures
        match r {
            Err(e) => batch_request(params@) == Err::<(bool, Seq<Seq<char>>), ErrorView>(e@),
            Ok(b) => {
                &&& batch_request(params@) == Ok::<(bool, Seq<Seq<char>>), ErrorView>(
                    (b@.start, b@.names),
                )
                &&& b@.next == 0
                &&& b@.results == Seq::<JsonView>::empty()
            },
        },
{
    let action: String = match params.str_at("action") {
        Some(s) => s,
        None => String::new(),
    };
    let start: bool = same_text(action.as_str(), "start");
    if !start && !same_text(action.as_str(), "stop") {
        return Err(Error::bad("action must be 'start' or 'stop'"));
    }
    match read_list(params, "names", "names must be an array") {
        Err(e) => Err(e),
        Ok(o) => {
            let names: Vec<String> = match o {
                Some(v) => v,
                None => Vec::new(),
            };
            proof {
                assert(texts(Seq::<String>::empty()) =~= Seq::empty());
            }
            Ok(BatchRun { start, names, next: 0, results: Items::new() })
        },
    }
}

impl BatchRun {
    #[verifier::type_invariant]
    spec fn in_range(self) -> bool {
        self.next <= self.names@.len()
    }

    /// Whether every name was handled.
    pub fn is_done(&self) -> (r: bool)
        ensures
            r == (self@.next >= self@.names.len()),
    {
        self.next >= self.names.len()
    }

    /// Handle the next names.
    pub fn next_chunk(
        &mut self,
        state: &mut State,
        runtime: &mut TunnelRuntime,
        default_user: &str,
        now: u64,
    ) -> (o: BatchOrders)
        ensures
            ({
                let b = old(self)@;
                let f = batch_fold(
                    b.names.subrange(b.next, chunk_end(b)),
                    b.start,
                    old(state)@,
                    old(runtime)@,
                    default_user@,
                    now,
                );
                &&& final(state)@ == f.st
                &&& final(runtime)@ == f.rt
                &&& o.kills@ == f.kills
                &&& orders_view(o.starts@) == f.starts
                &&& o.persist == f.persist
                &&& final(self)@ == (BatchView {
                    next: chunk_end(b),
                    results: b.results + f.results,
                    ..b
                })
            }),
    {
        proof {
            use_type_invariant(&*self);
        }
        let ghost b = self@;
        let ghost st0 = state@;
        let ghost rt0 = runtime@;
        let from: usize = self.next;
        let end: usize = if self.start && self.names.len() - from > BATCH_START_CONCURRENCY {
            from + BATCH_START_CONCURRENCY
        } else {
            self.names.len()
        };
        let mut o: BatchOrders = BatchOrders {
            kills: Vec::new(),
            starts: Vec::new(),
            persist: false,
        };
        let mut results: Items = Items::new();
        std::mem::swap(&mut results, &mut self.results);
        let mut k: usize = from;
        proof {
            let f = batch_fold(b.names.subrange(b.next, k as int), b.start, st0, rt0, default_user@, now);
            assert(b.results + f.results =~= b.results);
            assert(orders_view(o.starts@) =~= f.starts);
        }
        while k < end
            invariant
                from <= k <= end <= self.names@.len(),
                from == b.next,
                end == chunk_end(b),
                b.names == texts(self.names@),
                b.start == self.start,
                self.next == from,
                ({
                    let f = batch_fold(
                        b.names.subrange(b.next, k as int),
                        b.start,
                        st0,
                        rt0,
                        default_user@,
                        now,
                    );
                    &&& state@ == f.st
                    &&& runtime@ == f.rt
                    &&& o.kills@ == f.kills
                    &&& orders_view(o.starts@) == f.starts
                    &&& o.persist == f.persist
                    &&& results@ == b.results + f.results
                }),
            decreases end - k,
        {
            let ghost seen = b.names.subrange(b.next, k + 1);
            proof {
                assert(seen.drop_last() =~= b.names.subrange(b.next, k as int));
                assert(seen.last() == self.names@[k as int]@);
            }
            let name: String = self.names[k].clone();
            let reply: Reply = if self.start {
                start_named(state, name.as_str(), default_user)
            } else {
                stop_named(state, runtime, name.as_str(), now)
            };
            let ghost said = reply@;
            results.push(make_batch_item(name.as_str(), &reply.result));
            proof {
                let f0 = batch_fold(seen.drop_last(), b.start, st0, rt0, default_user@, now);
                assert(b.results + f0.results.push(batch_item(name@, said.result)) =~= (b.results
                    + f0.results).push(batch_item(name@, said.result)));
            }
            if reply.effects.persist {
                o.persist = true;
            }
            if let Some(c) = reply.effects.kill {
                o.kills.push(c);
            }
            if let Some(order) = reply.effects.start {
                let ghost prior = o.starts@;
                o.starts.push(order);
                proof {
                    assert(orders_view(o.starts@) =~= orders_view(prior).push(order@));
                }
            }
            k += 1;
        }
        self.results = results;
        self.next = end;
        o
    }

    /// The reply of a batch, once every name was handled.
    pub fn finish(self) -> (j: Json)
        ensures
            j@ == JsonView::Obj(Map::empty().insert("results"@, JsonView::Arr(self@.results))),
    {
        let mut f: Fields = Fields::new();
        f.put("results", self.results.done());
        f.done()
    }
}

/// A batch has one result for each name, in their order, with the name in it.
pub proof fn law_a_batch_answers_every_name(
    names: Seq<Seq<char>>,
    start: bool,
    st: StateView,
    rt: RuntimeView,
    default_user: Seq<char>,
    now: u64,
)
    ensures
        ({
            let results = batch_fold(names, start, st, rt, default_user, now).results;
            &&& results.len() == names.len()
            &&& forall|i: int|
                0 <= i < names.len() ==> field(#[trigger] results[i], "name"@) == Some(
                    JsonView::Str(names[i]),
                )
        }),
    decreases names.len(),
{
    if names.len() > 0 {
        let front = names.drop_last();
        law_a_batch_answers_every_name(front, start, st, rt, default_user, now);
        let before = batch_fold(front, start, st, rt, default_user, now).results;
        let results = batch_fold(names, start, st, rt, default_user, now).results;
        lemma_batch_item_name(names, start, st, rt, default_user, now);
        assert forall|i: int| 0 <= i < names.len() implies field(#[trigger] results[i], "name"@)
            == Some(JsonView::Str(names[i])) by {
            if i < front.len() {
                assert(results[i] == before[i]);
                assert(front[i] == names[i]);
            }
        }
    }
}

proof fn lemma_batch_item_name(
    names: Seq<Seq<char>>,
    start: bool,
    st: StateView,
    rt: RuntimeView,
    default_user: Seq<char>,
    now: u64,
)
    requires
        names.len() > 0,
    ensures
        field(batch_fold(names, start, st, rt, default_user, now).results.last(), "name"@) == Some(
            JsonView::Str(names.last()),
        ),
{
    reveal_strlit("name");
    reveal_strlit("ok");
    reveal_strlit("error");
    assert("name"@[0] == 'n');
    assert("ok"@[0] == 'o');
    assert("error"@[0] == 'e');
}

/// One name of a batch leaves the name of every tunnel as it was.
proof fn lemma_batch_names(
    names: Seq<Seq<char>>,
    start: bool,
    st: StateView,
    rt: RuntimeView,
    default_user: Seq<char>,
    now: u64,
)
    ensures
        ({
            let f = batch_fold(names, start, st, rt, default_user, now);
            &&& f.st.hosts == st.hosts
            &&& f.st.tunnels.len() == st.tunnels.len()
            &&& forall|j: int|
                0 <= j < st.tunnels.len() ==> (#[trigger] f.st.tunnels[j]).name
                    == st.tunnels[j].name
        }),
    decreases names.len(),
{
    if names.len() > 0 {
        let front = names.drop_last();
        lemma_batch_names(front, start, st, rt, default_user, now);
        let b = batch_fold(front, start, st, rt, default_user, now);
        let name = names.last();
        if let Some(i) = tunnel_at(b.st, name) {
            law_a_name_addresses_the_first_tunnel(b.st, name, i);
            if !start {
                lemma_stop_named(b.st, b.rt, name, i, now);
            }
        }
    }
}

proof fn lemma_stop_named(st: StateView, rt: RuntimeView, name: Seq<char>, i: int, now: u64)
    requires
        tunnel_at(st, name) == Some(i),
    ensures
        ({
            let (after, rt1, r) = stop_of(st, rt, name, now);
            &&& 0 <= i < st.tunnels.len()
            &&& after.hosts == st.hosts
            &&& after.tunnels.len() == st.tunnels.len()
            &&& after.tunnels[i].status == TunnelStatus::Idle
            &&& !after.tunnels[i].wants_alive
            &&& after.tunnels[i].name == name
            &&& st.tunnels[i].name == name
            &&& forall|j: int|
                0 <= j < st.tunnels.len() && j != i ==> #[trigger] after.tunnels[j] == st.tunnels[j]
            &&& rt1.children == rt.children.remove(name)
            &&& r.effects.kill == (if rt.children.contains_key(name) {
                Some(rt.children[name])
            } else {
                None
            })
        }),
{
    law_a_name_addresses_the_first_tunnel(st, name, i);
    let m = Map::<Seq<char>, JsonView>::empty().insert("name"@, JsonView::Str(name));
    assert(asks_for(st, m, name, i));
    law_a_stop_stops_one_tunnel(st, rt, m, name, i, now);
    assert(stop_asked(st, rt, JsonView::Obj(m), now) == stop_of(st, rt, name, now));
}

/// A batch that stops leaves every tunnel that it names idle, not wanted and without a
/// process, and has each of those processes killed; it starts nothing, and a tunnel
/// that it does not name stays as it was.
pub proof fn law_a_batch_stops_what_it_names(
    names: Seq<Seq<char>>,
    st: StateView,
    rt: RuntimeView,
    default_user: Seq<char>,
    now: u64,
)
    requires
        tunnel_names(st.tunnels).no_duplicates(),
    ensures
        ({
            let f = batch_fold(names, false, st, rt, default_user, now);
            &&& f.starts.len() == 0
            &&& f.st.hosts == st.hosts
            &&& f.st.tunnels.len() == st.tunnels.len()
            &&& forall|j: int|
                0 <= j < st.tunnels.len() && names.contains((#[trigger] st.tunnels[j]).name) ==> {
                    &&& f.st.tunnels[j].status == TunnelStatus::Idle
                    &&& !f.st.tunnels[j].wants_alive
                    &&& !f.rt.children.contains_key(st.tunnels[j].name)
                    &&& rt.children.contains_key(st.tunnels[j].name) ==> f.kills.contains(
                        rt.children[st.tunnels[j].name],
                    )
                }
            &&& forall|j: int|
                0 <= j < st.tunnels.len() && !names.contains((#[trigger] st.tunnels[j]).name)
                    ==> f.st.tunnels[j] == st.tunnels[j]
            &&& forall|n: Seq<char>|
                !names.contains(n) ==> #[trigger] f.rt.children.contains_key(n)
                    == rt.children.contains_key(n)
            &&& forall|n: Seq<char>|
                #[trigger] f.rt.children.contains_key(n) ==> rt.children.contains_key(n)
                    && f.rt.children[n] == rt.children[n]
        }),
    decreases names.len(),
{
    if names.len() > 0 {
        let front = names.drop_last();
        let name = names.last();
        law_a_batch_stops_what_it_names(front, st, rt, default_user, now);
        lemma_batch_names(front, false, st, rt, default_user, now);
        let b = batch_fold(front, false, st, rt, default_user, now);
        let f = batch_fold(names, false, st, rt, default_user, now);
        assert forall|n: Seq<char>| #[trigger] names.contains(n) == (front.contains(n) || n == name) by {
            if names.contains(n) {
                let k = choose|k: int| 0 <= k < names.len() && names[k] == n;
                if k < front.len() {
                    assert(front[k] == n);
                }
            }
            if front.contains(n) {
                let k = choose|k: int| 0 <= k < front.len() && front[k] == n;
                assert(names[k] == n);
            }
            assert(names[names.len() - 1] == name);
        }
        law_a_name_addresses_the_first_tunnel(b.st, name, 0);
        if let Some(i) = tunnel_at(b.st, name) {
            lemma_stop_named(b.st, b.rt, name, i, now);
            assert forall|j: int| 0 <= j < st.tunnels.len() && j != i implies (
            #[trigger] st.tunnels[j]).name != name by {
                assert(b.st.tunnels[i].name == st.tunnels[i].name);
                assert(tunnel_names(st.tunnels)[j] == st.tunnels[j].name);
                assert(tunnel_names(st.tunnels)[i] == st.tunnels[i].name);
            }
        } else {
            assert forall|j: int| 0 <= j < st.tunnels.len() implies (#[trigger] st.tunnels[j]).name
                != name by {
                assert(b.st.tunnels[j].name == st.tunnels[j].name);
            }
            assert(f.rt == b.rt);
        }
        assert forall|c: u64| b.kills.contains(c) implies #[trigger] f.kills.contains(c) by {
            let k = choose|k: int| 0 <= k < b.kills.len() && b.kills[k] == c;
            assert(f.kills[k] == c);
        }
        assert forall|j: int|
            0 <= j < st.tunnels.len() && names.contains(
                (#[trigger] st.tunnels[j]).name,
            ) && rt.children.contains_key(st.tunnels[j].name) implies f.kills.contains(
            rt.children[st.tunnels[j].name],
        ) by {
            if !front.contains(st.tunnels[j].name) {
                assert(b.rt.children.contains_key(name));
                assert(f.kills[f.kills.len() - 1] == rt.children[name]);
            } else {
                assert(b.kills.contains(rt.children[st.tunnels[j].name]));
            }
        }
        if !front.contains(name) && rt.children.contains_key(name) {
            assert(b.rt.children.contains_key(name));
        }
    }
}

/// A batch that starts kills nothing and forgets no process, and each of its orders is
/// for a tunnel that it names. Every result says whether a tunnel of the name is there.
pub proof fn law_a_batch_starts_what_it_names(
    names: Seq<Seq<char>>,
    start: bool,
    st: StateView,
    rt: RuntimeView,
    default_user: Seq<char>,
    now: u64,
)
    ensures
        ({
            let f = batch_fold(names, start, st, rt, default_user, now);
            &&& start ==> f.kills.len() == 0 && f.rt == rt && !f.persist
            &&& forall|k: int|
                0 <= k < f.starts.len() ==> names.contains((#[trigger] f.starts[k]).name)
            &&& f.results.len() == names.len()
            &&& forall|k: int|
                0 <= k < names.len() ==> ((#[trigger] f.results[k]) matches JsonView::Obj(m)
                    && m.contains_key("ok"@) && m["ok"@] == JsonView::Bool(
                    exists|j: int|
                        0 <= j < st.tunnels.len() && (#[trigger] st.tunnels[j]).name == names[k],
                ))
        }),
    decreases names.len(),
{
    if names.len() > 0 {
        let front = names.drop_last();
        let name = names.last();
        law_a_batch_starts_what_it_names(front, start, st, rt, default_user, now);
        lemma_batch_names(front, start, st, rt, default_user, now);
        let b = batch_fold(front, start, st, rt, default_user, now);
        let f = batch_fold(names, start, st, rt, default_user, now);
        law_a_name_addresses_the_first_tunnel(b.st, name, 0);
        let known = exists|j: int|
            0 <= j < st.tunnels.len() && (#[trigger] st.tunnels[j]).name == name;
        assert(known == (tunnel_at(b.st, name) is Some)) by {
            if known {
                let j = choose|j: int|
                    0 <= j < st.tunnels.len() && (#[trigger] st.tunnels[j]).name == name;
                assert(b.st.tunnels[j].name == name);
            }
            if let Some(j) = tunnel_at(b.st, name) {
                law_a_name_addresses_the_first_tunnel(b.st, name, j);
                assert(b.st.tunnels[j].name == st.tunnels[j].name);
                assert(st.tunnels[j].name == name);
            }
        }
        if let Some(i) = tunnel_at(b.st, name) {
            law_a_name_addresses_the_first_tunnel(b.st, name, i);
            if begun(b.st, i, default_user).1 is Some {
                law_an_order_goes_where_its_tunnel_says(b.st, i, default_user);
            }
        }
        reveal_strlit("name");
        reveal_strlit("ok");
        reveal_strlit("error");
        assert("name"@[0] == 'n' && "ok"@[0] == 'o' && "error"@[0] == 'e');
        assert forall|k: int| 0 <= k < f.starts.len() implies names.contains(
            (#[trigger] f.starts[k]).name,
        ) by {
            if k < b.starts.len() {
                assert(f.starts[k] == b.starts[k]);
                let j = choose|j: int| 0 <= j < front.len() && front[j] == b.starts[k].name;
                assert(names[j] == b.starts[k].name);
            } else {
                assert(names[names.len() - 1] == name);
            }
        }
        assert forall|k: int| 0 <= k < names.len() implies ((
        #[trigger] f.results[k]) matches JsonView::Obj(m) && m.contains_key("ok"@) && m["ok"@]
            == JsonView::Bool(
            exists|j: int| 0 <= j < st.tunnels.len() && (#[trigger] st.tunnels[j]).name == names[k],
        )) by {
            if k < front.len() {
                assert(f.results[k] == b.results[k]);
                assert(front[k] == names[k]);
            } else {
                assert(names[k] == name);
            }
        }
    }
}

/// A batch request is one to start or one to stop, by its action, and for the texts of
/// its list of names; any other action is refused.
pub proof fn law_a_batch_does_what_its_action_says(m: Map<Seq<char>, JsonView>)
    ensures
        ({
            let r = batch_request(JsonView::Obj(m));
            let start = m.contains_key("action"@) && m["action"@] == JsonView::Str("start"@);
            let stop = m.contains_key("action"@) && m["action"@] == JsonView::Str("stop"@);
            &&& r is Ok ==> start || stop
            &&& r matches Ok(p) ==> p.0 == start
            &&& (start || stop) && m.contains_key("names"@) && m["names"@] is Arr ==> (
            r matches Ok(p) && forall|n: Seq<char>| #[trigger]
                p.1.contains(n) <==> m["names"@]->Arr_0.contains(JsonView::Str(n)))
        }),
{
    reveal_strlit("start");
    reveal_strlit("stop");
    assert("start"@.len() == 5 && "stop"@.len() == 4);
    if m.contains_key("names"@) && m["names"@] is Arr {
        lemma_strings_in(m["names"@]->Arr_0);
    }
}

/// A batch makes progress until it is done: a part that stops takes all names that are
/// left, and one that starts takes up to four.
pub proof fn law_a_batch_makes_progress(b: BatchView)
    requires
        0 <= b.next < b.names.len(),
    ensures
        b.next < chunk_end(b) <= b.names.len(),
        b.start ==> chunk_end(b) - b.next <= 4,
        b.start && b.names.len() - b.next >= 4 ==> chunk_end(b) - b.next == 4,
        !b.start ==> chunk_end(b) == b.names.len(),
{
}

/// A batch of stops is to be saved exactly where it stops a tunnel that was not idle or
/// was wanted.
pub proof fn law_a_batch_is_saved_where_it_changes_something(
    names: Seq<Seq<char>>,
    st: StateView,
    rt: RuntimeView,
    default_user: Seq<char>,
    now: u64,
)
    requires
        tunnel_names(st.tunnels).no_duplicates(),
    ensures
        batch_fold(names, false, st, rt, default_user, now).persist <==> exists|j: int|
            0 <= j < st.tunnels.len() && names.contains((#[trigger] st.tunnels[j]).name) && (
            st.tunnels[j].status != TunnelStatus::Idle || st.tunnels[j].wants_alive),
    decreases names.len(),
{
    if names.len() > 0 {
        let front = names.drop_last();
        let name = names.last();
        law_a_batch_is_saved_where_it_changes_something(front, st, rt, default_user, now);
        law_a_batch_stops_what_it_names(front, st, rt, default_user, now);
        lemma_batch_names(front, false, st, rt, default_user, now);
        let b = batch_fold(front, false, st, rt, default_user, now);
        let f = batch_fold(names, false, st, rt, default_user, now);
        assert forall|n: Seq<char>| #[trigger] names.contains(n) == (front.contains(n) || n == name) by {
            if names.contains(n) {
                let k = choose|k: int| 0 <= k < names.len() && names[k] == n;
                if k < front.len() {
                    assert(front[k] == n);
                }
            }
            if front.contains(n) {
                let k = choose|k: int| 0 <= k < front.len() && front[k] == n;
                assert(names[k] == n);
            }
            assert(names[names.len() - 1] == name);
        }
        law_a_name_addresses_the_first_tunnel(b.st, name, 0);
        let at = tunnel_at(b.st, name);
        if let Some(i) = at {
            law_a_name_addresses_the_first_tunnel(b.st, name, i);
            assert(b.st.tunnels[i].name == st.tunnels[i].name);
            assert(names.contains(st.tunnels[i].name));
            assert forall|j: int| 0 <= j < st.tunnels.len() && j != i implies (
            #[trigger] st.tunnels[j]).name != name by {
                assert(tunnel_names(st.tunnels)[j] == st.tunnels[j].name);
                assert(tunnel_names(st.tunnels)[i] == st.tunnels[i].name);
            }
        } else {
            assert forall|j: int| 0 <= j < st.tunnels.len() implies (#[trigger] st.tunnels[j]).name
                != name by {
                assert(b.st.tunnels[j].name == st.tunnels[j].name);
            }
        }
    }
}

} // verus!
