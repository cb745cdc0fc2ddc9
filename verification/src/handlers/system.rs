//! Requests about the daemon as a whole: its log, the restart of everything, the
//! recovery after a wake-up, and the subscription to events.
use crate::json::{Fields, Json, JsonView, field, texts_json, uint_at};
use crate::managers::{
    active_host_names, active_names, enabled_among, lemma_active_names, lemma_enabled_among,
    rebuild_masters,
};
use crate::model::{
    State, StateView, Tunnel, TunnelStatus, TunnelView, edit_tunnel, lemma_first, tunnel_at,
    tunnel_names,
};
use crate::split::{lemma_pieces_head, lemma_pieces_join, lemma_pieces_some, pieces};
use crate::text::{copy_opt, decode_lossy, has_text, lossy, opt_text, texts};
use crate::tunnel_runtime::{RuntimeView, TunnelRuntime, child_of, childless};
use vstd::prelude::*;

verus! {

/// Least time between the end of one wake-up recovery and the next.
pub const WAKE_RECOVER_MIN_INTERVAL_SECS: u64 = 12;

/// Whether a wake-up recovery runs, and when the last one ended (Unix seconds;
/// zero means never).
#[derive(Debug)]
pub struct WakeRecoverGuard {
    in_flight: bool,
    last_completed: u64,
}

/// What the guard says.
#[verifier::ext_equal]
pub struct GuardView {
    pub in_flight: bool,
    pub last_completed: u64,
}

impl View for WakeRecoverGuard {
    type V = GuardView;

    closed spec fn view(&self) -> GuardView {
        GuardView { in_flight: self.in_flight, last_completed: self.last_completed }
    }
}

/// The right to run one wake-up recovery.
#[derive(Debug)]
pub struct WakeRecoverClaim {
    _held: (),
}

/// Whether a wake-up recovery at `now` is one too many.
pub open spec fn coalesces(g: GuardView, now: u64) -> bool {
    g.in_flight || (g.last_completed != 0 && now - g.last_completed < WAKE_RECOVER_MIN_INTERVAL_SECS)
}

impl WakeRecoverGuard {
    /// No recovery ran yet.
    pub fn new() -> (g: WakeRecoverGuard)
        ensures
            g@ == (GuardView { in_flight: false, last_completed: 0 }),
    {
        WakeRecoverGuard { in_flight: false, last_completed: 0 }
    }

    /// Claim a recovery. `None` where one runs, or the last one ended a moment
    /// ago.
    pub fn try_claim(&mut self, now: u64) -> (claim: Option<WakeRecoverClaim>)
        ensures
            claim is None <==> coalesces(old(self)@, now),
            final(self)@ == (GuardView {
                in_flight: old(self)@.in_flight || claim is Some,
                ..old(self)@
            }),
    {
        if self.in_flight {
            return None;
        }
        if self.last_completed != 0 && now.saturating_sub(self.last_completed)
            < WAKE_RECOVER_MIN_INTERVAL_SECS {
            return None;
        }
        self.in_flight = true;
        Some(WakeRecoverClaim { _held: () })
    }

    /// A claimed recovery has ended.
    pub fn complete(&mut self, _claim: WakeRecoverClaim, now: u64)
        ensures
            final(self)@ == (GuardView { in_flight: false, last_completed: now }),
    {
        self.in_flight = false;
        self.last_completed = now;
    }
}

/// Most lines of the log that one request gets.
pub const MAX_TAIL_LINES: u64 = 10_000;

/// How many bytes of the log are read at a time.
pub const TAIL_BLOCK: u64 = 4096;

/// How many lines of the log a request asks for.
pub open spec fn tail_lines(params: JsonView) -> u64 {
    match uint_at(params, "lines"@) {
        Some(n) => if n < MAX_TAIL_LINES {
            n
        } else {
            MAX_TAIL_LINES
        },
        None => 200,
    }
}

/// How many lines of the log a request asks for.
pub fn log_tail(params: &Json) -> (n: usize)
    ensures
        n == tail_lines(params@),
{
    let n: u64 = match params.uint_at("lines") {
        Some(n) => n,
        None => 200,
    };
    if n < MAX_TAIL_LINES {
        n as usize
    } else {
        MAX_TAIL_LINES as usize
    }
}

/// The byte that ends a line.
pub const LINE_FEED: u8 = 10;

/// The lines of some bytes: the pieces between line feeds.
pub open spec fn lines_of(b: Seq<u8>) -> Seq<Seq<u8>> {
    pieces(b, LINE_FEED)
}

/// The bytes of each piece of a list.
pub open spec fn bytes_of(s: Seq<Vec<u8>>) -> Seq<Seq<u8>> {
    s.map_values(|v: Vec<u8>| v@)
}

fn split_lines(b: &Vec<u8>) -> (r: Vec<Vec<u8>>)
    ensures
        bytes_of(r@) == lines_of(b@),
{
    let mut r: Vec<Vec<u8>> = Vec::new();
    let mut cur: Vec<u8> = Vec::new();
    let mut i: usize = 0;
    proof {
        assert(bytes_of(r@).push(cur@) =~= lines_of(b@.take(0)));
    }
    while i < b.len()
        invariant
            i <= b@.len(),
            bytes_of(r@).push(cur@) == lines_of(b@.take(i as int)),
        decreases b@.len() - i,
    {
        let ghost before = bytes_of(r@);
        let ghost piece = cur@;
        proof {
            assert(b@.take(i + 1).drop_last() =~= b@.take(i as int));
            assert(before.push(piece).drop_last() =~= before);
        }
        if b[i] == LINE_FEED {
            let ghost prior = r@;
            r.push(cur);
            cur = Vec::new();
            proof {
                assert(bytes_of(r@) =~= before.push(piece));
                assert(bytes_of(r@).push(cur@) =~= lines_of(b@.take(i + 1)));
            }
        } else {
            cur.push(b[i]);
            proof {
                assert(before.push(cur@) =~= lines_of(b@.take(i + 1)));
            }
        }
        i += 1;
    }
    proof {
        assert(b@.take(i as int) =~= b@);
    }
    let ghost prior = bytes_of(r@);
    r.push(cur);
    proof {
        assert(bytes_of(r@) =~= prior.push(cur@));
    }
    r
}

/// The non-empty ones of some lines, as texts.
pub open spec fn shown(lines: Seq<Seq<u8>>) -> Seq<Seq<char>>
    decreases lines.len(),
{
    if lines.len() == 0 {
        Seq::empty()
    } else if lines.last().len() == 0 {
        shown(lines.drop_last())
    } else {
        shown(lines.drop_last()).push(lossy(lines.last()))
    }
}

/// The last `n` items of a list.
pub open spec fn last_of<T>(s: Seq<T>, n: nat) -> Seq<T> {
    if s.len() > n {
        s.skip(s.len() - n)
    } else {
        s
    }
}

/// The end of a file, read backwards block by block until it holds more than
/// `n` lines or the file begins.
pub struct TailReader {
    n: usize,
    lines: Vec<Vec<u8>>,
    carry: Vec<u8>,
    read: Ghost<Seq<u8>>,
}

/// How many lines are wanted, and the end of the file as read so far.
#[verifier::ext_equal]
pub struct TailView {
    pub n: nat,
    pub read: Seq<u8>,
}

impl View for TailReader {
    type V = TailView;

    closed spec fn view(&self) -> TailView {
        TailView { n: self.n as nat, read: self.read@ }
    }
}

/// What a reader shows of the end of a file: the non-empty lines, at most `n` of
/// them, the newest ones. The first piece counts only where the file begins with
/// it: elsewhere it may be the end of a longer line.
pub open spec fn tail_of(v: TailView, from_start: bool) -> Seq<Seq<char>> {
    last_of(
        shown(
            if from_start {
                lines_of(v.read)
            } else {
                lines_of(v.read).skip(1)
            },
        ),
        v.n,
    )
}

impl TailReader {
    #[verifier::type_invariant]
    spec fn split(self) -> bool {
        lines_of(self.read@) == seq![self.carry@] + bytes_of(self.lines@)
    }

    /// Nothing read yet.
    pub fn new(n: usize) -> (t: TailReader)
        ensures
            t@ == (TailView { n: n as nat, read: Seq::empty() }),
    {
        let lines: Vec<Vec<u8>> = Vec::new();
        let carry: Vec<u8> = Vec::new();
        proof {
            assert(seq![carry@] + bytes_of(lines@) =~= lines_of(Seq::empty()));
        }
        TailReader { n, lines, carry, read: Ghost(Seq::empty()) }
    }

    /// How many bytes to read before place `offset` of the file; `None` where
    /// enough was read.
    pub fn next_read(&self, offset: u64) -> (r: Option<u64>)
        ensures
            r == (if offset > 0 && lines_of(self@.read).len() - 1 <= self@.n {
                Some(
                    if offset < TAIL_BLOCK {
                        offset
                    } else {
                        TAIL_BLOCK
                    },
                )
            } else {
                None
            }),
    {
        proof {
            use_type_invariant(self);
        }
        if offset > 0 && self.lines.len() <= self.n {
            if offset < TAIL_BLOCK {
                Some(offset)
            } else {
                Some(TAIL_BLOCK)
            }
        } else {
            None
        }
    }

    /// Take the block before what was read.
    pub fn feed(self, block: &Vec<u8>) -> (t: TailReader)
        ensures
            t@ == (TailView { n: self@.n, read: block@ + self@.read }),
    {
        proof {
            use_type_invariant(&self);
        }
        let TailReader { n, mut lines, carry, read } = self;
        let ghost seen = read@;
        let mut buf: Vec<u8> = Vec::new();
        copy_bytes(&mut buf, block);
        copy_bytes(&mut buf, &carry);
        let ghost rest = lines@;
        let ghost joined = buf@;
        proof {
            assert(joined =~= block@ + carry@);
        }
        let mut parts: Vec<Vec<u8>> = split_lines(&buf);
        let ghost split = bytes_of(parts@);
        proof {
            lemma_pieces_some(joined, LINE_FEED);
        }
        let first: Vec<u8> = parts.remove(0);
        let ghost front = parts@;
        parts.append(&mut lines);
        proof {
            assert(bytes_of(front) =~= split.skip(1));
            assert(bytes_of(parts@) =~= bytes_of(front) + bytes_of(rest));
            assert(lines_of(seen)[0] == carry@);
            assert(lines_of(seen).skip(1) =~= bytes_of(rest));
            lemma_pieces_join(block@, seen, LINE_FEED);
            lemma_pieces_some(block@, LINE_FEED);
            lemma_pieces_head(carry@, seen, LINE_FEED);
            lemma_pieces_join(block@, carry@, LINE_FEED);
            assert(lines_of(carry@).skip(1) =~= Seq::empty());
            assert(seq![first@] + bytes_of(parts@) =~= split + bytes_of(rest));
            assert(split + bytes_of(rest) =~= lines_of(block@ + seen));
        }
        TailReader { n, lines: parts, carry: first, read: Ghost(block@ + seen) }
    }

    /// The lines that were read, as texts.
    pub fn finish(self, from_start: bool) -> (r: Vec<String>)
        ensures
            texts(r@) == tail_of(self@, from_start),
    {
        proof {
            use_type_invariant(&self);
        }
        let ghost all = lines_of(self@.read);
        let mut out: Vec<String> = Vec::new();
        proof {
            assert(all.skip(1) =~= bytes_of(self.lines@));
            assert(texts(out@) =~= Seq::empty());
            assert(seq![self.carry@].drop_last() =~= Seq::empty());
        }
        if from_start && self.carry.len() > 0 {
            let line: String = decode_lossy(&self.carry);
            out.push(line);
            proof {
                assert(texts(out@) =~= Seq::empty().push(line@));
            }
        }
        let ghost base: Seq<Seq<u8>> = if from_start {
            seq![self.carry@]
        } else {
            Seq::empty()
        };
        proof {
            assert(base + bytes_of(self.lines@).take(0) =~= base);
            if from_start {
                assert(shown(base.drop_last()) == Seq::<Seq<char>>::empty());
                assert(base.last() == self.carry@);
            }
            assert(texts(out@) =~= shown(base));
        }
        let mut i: usize = 0;
        while i < self.lines.len()
            invariant
                i <= self.lines@.len(),
                texts(out@) == shown(base + bytes_of(self.lines@).take(i as int)),
            decreases self.lines@.len() - i,
        {
            let ghost seen = bytes_of(self.lines@);
            proof {
                assert((base + seen.take(i + 1)).drop_last() =~= base + seen.take(i as int));
                assert((base + seen.take(i + 1)).last() == self.lines@[i as int]@);
            }
            if self.lines[i].len() > 0 {
                let ghost before = out@;
                let line: String = decode_lossy(&self.lines[i]);
                out.push(line);
                proof {
                    assert(texts(out@) =~= texts(before).push(line@));
                }
            }
            i += 1;
        }
        proof {
            assert(base + bytes_of(self.lines@).take(i as int) =~= (if from_start {
                all
            } else {
                all.skip(1)
            }));
        }
        let ghost full = texts(out@);
        if out.len() > self.n {
            let k: usize = out.len() - self.n;
            let kept: Vec<String> = out.split_off(k);
            proof {
                assert(texts(kept@) =~= full.skip(k as int));
            }
            kept
        } else {
            out
        }
    }
}

fn copy_bytes(to: &mut Vec<u8>, from: &Vec<u8>)
    ensures
        final(to)@ == old(to)@ + from@,
{
    let ghost before = to@;
    let mut i: usize = 0;
    while i < from.len()
        invariant
            i <= from@.len(),
            to@ == before + from@.take(i as int),
        decreases from@.len() - i,
    {
        to.push(from[i]);
        proof {
            assert(to@ =~= before + from@.take(i + 1));
        }
        i += 1;
    }
    proof {
        assert(from@.take(i as int) =~= from@);
    }
}

/// The reply with some lines of the log.
pub fn log_reply(lines: &Vec<String>) -> (j: Json)
    ensures
        j@ == JsonView::Obj(Map::empty().insert("lines"@, texts_json(texts(lines@)))),
        field(j@, "lines"@) matches Some(JsonView::Arr(items)) && items.len() == lines@.len()
            && forall|k: int|
            0 <= k < lines@.len() ==> #[trigger] items[k] == JsonView::Str(lines@[k]@),
{
    let mut f: Fields = Fields::new();
    f.put("lines", Json::list(lines));
    f.done()
}

/// The lines of a joined list are those of its parts.
proof fn lemma_shown_join(a: Seq<Seq<u8>>, b: Seq<Seq<u8>>)
    ensures
        shown(a + b) == shown(a) + shown(b),
    decreases b.len(),
{
    if b.len() == 0 {
        assert(a + b =~= a);
        assert(shown(a) + shown(b) =~= shown(a));
    } else {
        lemma_shown_join(a, b.drop_last());
        assert((a + b).drop_last() =~= a + b.drop_last());
        assert((a + b).last() == b.last());
        assert(shown(a + b) =~= shown(a) + shown(b));
    }
}

/// Reading only the end of a file loses nothing: where the end that was read
/// holds enough lines, they are the last ones of the whole file.
pub proof fn law_tail_of_the_end_is_tail_of_the_file(head: Seq<u8>, read: Seq<u8>, n: nat)
    requires
        shown(lines_of(read).skip(1)).len() >= n,
    ensures
        tail_of(TailView { n, read }, false) == tail_of(TailView { n, read: head + read }, true),
{
    lemma_pieces_join(head, read, LINE_FEED);
    lemma_pieces_some(head, LINE_FEED);
    lemma_pieces_some(read, LINE_FEED);
    let front = lines_of(head).drop_last() + seq![lines_of(head).last() + lines_of(read)[0]];
    let tail = lines_of(read).skip(1);
    lemma_shown_join(front, tail);
    assert(last_of(shown(front) + shown(tail), n) =~= last_of(shown(tail), n));
}

/// Where no line but a last one is empty, a list of lines shows all but that one.
proof fn lemma_shown_full(s: Seq<Seq<u8>>)
    requires
        forall|i: int| 0 <= i < s.len() - 1 ==> #[trigger] s[i].len() > 0,
    ensures
        shown(s).len() >= s.len() - 1,
        s.len() > 0 && s.last().len() > 0 ==> shown(s).len() == s.len(),
    decreases s.len(),
{
    if s.len() > 0 {
        lemma_shown_full(s.drop_last());
    }
}

/// Of a file without empty lines, the reader stops only when it has the last `n`
/// lines of the file, or the whole file.
pub proof fn law_tail_stops_with_enough_lines(head: Seq<u8>, read: Seq<u8>, n: nat)
    requires
        lines_of(read).len() - 1 > n,
        forall|i: int| 0 < i < lines_of(read).len() - 1 ==> #[trigger] lines_of(read)[i].len() > 0,
    ensures
        tail_of(TailView { n, read }, false) == tail_of(TailView { n, read: head + read }, true),
{
    let tail = lines_of(read).skip(1);
    assert forall|i: int| 0 <= i < tail.len() - 1 implies #[trigger] tail[i].len() > 0 by {
        assert(tail[i] == lines_of(read)[i + 1]);
    }
    lemma_shown_full(tail);
    law_tail_of_the_end_is_tail_of_the_file(head, read, n);
}

/// Whether a tunnel runs, or did until a moment ago.
pub open spec fn in_use(t: TunnelView) -> bool {
    t.status is Alive || t.status is Starting || t.status is Stale
}

/// The tunnels in use, by name, with the jump host of each.
pub open spec fn used_tunnels(ts: Seq<TunnelView>) -> Seq<(Seq<char>, Option<Seq<char>>)>
    decreases ts.len(),
{
    if ts.len() == 0 {
        Seq::empty()
    } else if in_use(ts.last()) {
        used_tunnels(ts.drop_last()).push((ts.last().name, ts.last().active_jump))
    } else {
        used_tunnels(ts.drop_last())
    }
}

/// What a list of names with jump hosts says.
pub open spec fn jumps_view(s: Seq<(String, Option<String>)>) -> Seq<
    (Seq<char>, Option<Seq<char>>),
> {
    s.map_values(|p: (String, Option<String>)| (p.0@, opt_text(p.1)))
}

/// The tunnels in use, by name, with the jump host of each.
pub fn tunnels_in_use(state: &State) -> (r: Vec<(String, Option<String>)>)
    ensures
        jumps_view(r@) == used_tunnels(state@.tunnels),
{
    let mut r: Vec<(String, Option<String>)> = Vec::new();
    let ghost all = state@.tunnels;
    let mut i: usize = 0;
    proof {
        assert(jumps_view(r@) =~= used_tunnels(all.take(0)));
    }
    while i < state.tunnels.len()
        invariant
            all == state@.tunnels,
            i <= state.tunnels@.len(),
            jumps_view(r@) == used_tunnels(all.take(i as int)),
        decreases state.tunnels@.len() - i,
    {
        proof {
            assert(all.take(i + 1).drop_last() =~= all.take(i as int));
            assert(all.take(i + 1).last() == state.tunnels@[i as int]@);
        }
        let t: &Tunnel = &state.tunnels[i];
        if matches!(t.status, TunnelStatus::Alive | TunnelStatus::Starting | TunnelStatus::Stale) {
            let ghost before = jumps_view(r@);
            r.push((t.name.clone(), copy_opt(&t.active_jump)));
            proof {
                assert(jumps_view(r@) =~= before.push((t@.name, t@.active_jump)));
            }
        }
        i += 1;
    }
    proof {
        assert(all.take(i as int) =~= all);
    }
    r
}

/// The names of a list of names with jump hosts.
pub open spec fn used_names(s: Seq<(Seq<char>, Option<Seq<char>>)>) -> Seq<Seq<char>> {
    s.map_values(|p: (Seq<char>, Option<Seq<char>>)| p.0)
}

/// A tunnel taken down: idle, over no jump host, and wanted as before or not.
pub open spec fn taken_down(t: TunnelView, keep_wanted: bool, msg: Seq<char>) -> TunnelView {
    TunnelView {
        status: TunnelStatus::Idle,
        active_jump: None,
        wants_alive: t.wants_alive && keep_wanted,
        last_msg: msg,
        ..t
    }
}

/// The state with each of these tunnels taken down.
pub open spec fn all_down(
    st: StateView,
    names: Seq<Seq<char>>,
    keep_wanted: bool,
    msg: Seq<char>,
) -> StateView
    decreases names.len(),
{
    if names.len() == 0 {
        st
    } else {
        edit_tunnel(
            all_down(st, names.drop_last(), keep_wanted, msg),
            names.last(),
            |t: TunnelView| taken_down(t, keep_wanted, msg),
        )
    }
}

/// The runtime without the processes of these tunnels.
pub open spec fn all_childless(rt: RuntimeView, names: Seq<Seq<char>>) -> RuntimeView
    decreases names.len(),
{
    if names.len() == 0 {
        rt
    } else {
        childless(all_childless(rt, names.drop_last()), names.last())
    }
}

/// The processes of these tunnels, in their order.
pub open spec fn children_among(rt: RuntimeView, names: Seq<Seq<char>>) -> Seq<u64>
    decreases names.len(),
{
    if names.len() == 0 {
        Seq::empty()
    } else {
        let found = children_among(rt, names.drop_last());
        match child_of(all_childless(rt, names.drop_last()), names.last()) {
            Some(c) => found.push(c),
            None => found,
        }
    }
}

fn take_down(
    names: &Vec<String>,
    keep_wanted: bool,
    msg: &str,
    state: &mut State,
    runtime: &mut TunnelRuntime,
) -> (kills: Vec<u64>)
    ensures
        final(state)@ == all_down(old(state)@, texts(names@), keep_wanted, msg@),
        final(runtime)@ == all_childless(old(runtime)@, texts(names@)),
        kills@ == children_among(old(runtime)@, texts(names@)),
{
    let ghost all = texts(names@);
    let ghost st0 = state@;
    let ghost rt0 = runtime@;
    let mut kills: Vec<u64> = Vec::new();
    let mut i: usize = 0;
    while i < names.len()
        invariant
            i <= names@.len(),
            all == texts(names@),
            state@ == all_down(st0, all.take(i as int), keep_wanted, msg@),
            runtime@ == all_childless(rt0, all.take(i as int)),
            kills@ == children_among(rt0, all.take(i as int)),
        decreases names@.len() - i,
    {
        proof {
            assert(all.take(i + 1).drop_last() =~= all.take(i as int));
            assert(all.take(i + 1).last() == names@[i as int]@);
        }
        if let Some(k) = state.find_tunnel(names[i].as_str()) {
            let t: &mut Tunnel = state.tunnel_mut(k);
            t.status = TunnelStatus::Idle;
            if !keep_wanted {
                t.wants_alive = false;
            }
            t.active_jump = None;
            t.last_msg = msg.to_owned();
        }
        if let Some(c) = runtime.kill_child(names[i].as_str()) {
            kills.push(c);
        }
        i += 1;
    }
    proof {
        assert(all.take(i as int) =~= all);
    }
    kills
}

/// What is left to do outside once everything was reset.
#[derive(Debug)]
pub struct ResetOrders {
    pub reply: Json,
    /// The processes to kill.
    pub kills: Vec<u64>,
    /// The hosts whose masters are to be rebuilt, their breakers cleared.
    pub rebuild: Vec<String>,
}

/// What reset orders say.
#[verifier::ext_equal]
pub struct ResetView {
    pub reply: JsonView,
    pub kills: Seq<u64>,
    pub rebuild: Seq<Seq<char>>,
}

impl View for ResetOrders {
    type V = ResetView;

    open spec fn view(&self) -> ResetView {
        ResetView { reply: self.reply@, kills: self.kills@, rebuild: texts(self.rebuild@) }
    }
}

/// What a request to reset everything does.
pub open spec fn reset_asked(st: StateView, rt: RuntimeView) -> (
    StateView,
    RuntimeView,
    ResetView,
) {
    let names = used_names(used_tunnels(st.tunnels));
    let down = all_down(st, names, false, "Stopped (reset_all)"@);
    let rebuild = enabled_among(active_names(down.hosts), down);
    (
        down,
        all_childless(rt, names),
        ResetView {
            reply: JsonView::Obj(
                Map::empty().insert("tunnels_stopped"@, JsonView::Uint(names.len() as u64)).insert(
                    "masters_rebuilt"@,
                    JsonView::Uint(rebuild.len() as u64),
                ),
            ),
            kills: children_among(rt, names),
            rebuild,
        },
    )
}

/// Stop every tunnel in use and have the master of every enabled host rebuilt.
pub fn reset_all(state: &mut State, runtime: &mut TunnelRuntime) -> (o: ResetOrders)
    ensures
        (final(state)@, final(runtime)@, o@) == reset_asked(old(state)@, old(runtime)@),
{
    let used: Vec<(String, Option<String>)> = tunnels_in_use(state);
    let names: Vec<String> = names_of(&used);
    let kills: Vec<u64> = take_down(&names, false, "Stopped (reset_all)", state, runtime);
    let hosts: Vec<String> = active_host_names(state);
    let rebuild: Vec<String> = rebuild_masters(&hosts, state);
    let mut f: Fields = Fields::new();
    f.put("tunnels_stopped", Json::Uint(names.len() as u64));
    f.put("masters_rebuilt", Json::Uint(rebuild.len() as u64));
    ResetOrders { reply: f.done(), kills, rebuild }
}

fn names_of(used: &Vec<(String, Option<String>)>) -> (r: Vec<String>)
    ensures
        texts(r@) == used_names(jumps_view(used@)),
{
    let mut r: Vec<String> = Vec::new();
    let ghost all = used_names(jumps_view(used@));
    let mut i: usize = 0;
    while i < used.len()
        invariant
            i <= used@.len(),
            all == used_names(jumps_view(used@)),
            texts(r@) == all.take(i as int),
        decreases used@.len() - i,
    {
        let ghost before = texts(r@);
        r.push(used[i].0.clone());
        proof {
            assert(all[i as int] == used@[i as int].0@);
            assert(texts(r@) =~= before.push(used@[i as int].0@));
            assert(texts(r@) =~= all.take(i + 1));
        }
        i += 1;
    }
    proof {
        assert(all.take(i as int) =~= all);
    }
    r
}

/// What a recovery after a wake-up has to look at.
#[derive(Debug)]
pub struct WakeLook {
    pub claim: WakeRecoverClaim,
    /// The tunnels in use, by name, with the jump host of each.
    pub tunnels: Vec<(String, Option<String>)>,
    /// The hosts whose masters are to be checked.
    pub hosts: Vec<String>,
}

/// The reply to a wake-up.
pub open spec fn wake_json(restarting: Seq<Seq<char>>, coalesced: bool) -> JsonView {
    JsonView::Obj(
        Map::empty().insert("tunnels_restarting"@, texts_json(restarting)).insert(
            "coalesced"@,
            JsonView::Bool(coalesced),
        ),
    )
}

fn wake_reply(restarting: &Vec<String>, coalesced: bool) -> (j: Json)
    ensures
        j@ == wake_json(texts(restarting@), coalesced),
{
    let mut f: Fields = Fields::new();
    f.put("tunnels_restarting", Json::list(restarting));
    f.put("coalesced", Json::Bool(coalesced));
    f.done()
}

/// Begin the recovery after a wake-up: what to look at, or the reply where one
/// runs already or has just ended.
pub fn wake_recover(guard: &mut WakeRecoverGuard, state: &State, now: u64) -> (r: Result<
    WakeLook,
    Json,
>)
    ensures
        match r {
            Ok(look) => {
                &&& !coalesces(old(guard)@, now)
                &&& final(guard)@ == (GuardView { in_flight: true, ..old(guard)@ })
                &&& jumps_view(look.tunnels@) == used_tunnels(state@.tunnels)
                &&& texts(look.hosts@) == active_names(state@.hosts)
            },
            Err(reply) => {
                &&& coalesces(old(guard)@, now)
                &&& final(guard)@ == old(guard)@
                &&& reply@ == wake_json(Seq::empty(), true)
            },
        },
{
    match guard.try_claim(now) {
        Some(claim) => Ok(
            WakeLook { claim, tunnels: tunnels_in_use(state), hosts: active_host_names(state) },
        ),
        None => {
            let none: Vec<String> = Vec::new();
            proof {
                assert(texts(none@) =~= Seq::empty());
            }
            Err(wake_reply(&none, true))
        },
    }
}

/// Whether a tunnel is to be restarted: the master of its jump host failed, or
/// its process is not known to live.
pub open spec fn wake_restarts(
    t: (Seq<char>, Option<Seq<char>>),
    failed: Seq<Seq<char>>,
    alive: Option<bool>,
) -> bool {
    (t.1 is Some && failed.contains(t.1->Some_0)) || alive != Some(true)
}

/// The tunnels to be restarted.
pub open spec fn restarts_among(
    ts: Seq<(Seq<char>, Option<Seq<char>>)>,
    failed: Seq<Seq<char>>,
    alive: Seq<Option<bool>>,
) -> Seq<Seq<char>>
    decreases ts.len(),
{
    if ts.len() == 0 {
        Seq::empty()
    } else {
        let found = restarts_among(ts.drop_last(), failed, alive);
        if wake_restarts(ts.last(), failed, alive[ts.len() - 1]) {
            found.push(ts.last().0)
        } else {
            found
        }
    }
}

/// What is left to do outside once a recovery was decided.
#[derive(Debug)]
pub struct WakeOrders {
    pub reply: Json,
    /// The processes to kill.
    pub kills: Vec<u64>,
    /// The hosts whose masters are to be rebuilt, their breakers left as they
    /// are.
    pub rebuild: Vec<String>,
}

/// Decide a recovery. `failed` are the hosts whose masters did not answer, and
/// `alive` says of each tunnel looked at whether its process lives. What is to be
/// restarted goes idle and stays wanted: maintenance brings it back.
pub fn wake_recover_finish(
    guard: &mut WakeRecoverGuard,
    look: WakeLook,
    failed: &Vec<String>,
    alive: &Vec<Option<bool>>,
    state: &mut State,
    runtime: &mut TunnelRuntime,
    now: u64,
) -> (o: WakeOrders)
    requires
        alive@.len() == look.tunnels@.len(),
    ensures
        ({
            let names = restarts_among(jumps_view(look.tunnels@), texts(failed@), alive@);
            &&& final(guard)@ == (GuardView { in_flight: false, last_completed: now })
            &&& final(state)@ == all_down(old(state)@, names, true, "wake_recover: restarting"@)
            &&& final(runtime)@ == all_childless(old(runtime)@, names)
            &&& o.kills@ == children_among(old(runtime)@, names)
            &&& texts(o.rebuild@) == enabled_among(texts(failed@), old(state)@)
            &&& o.reply@ == wake_json(names, false)
        }),
{
    let rebuild: Vec<String> = rebuild_masters(failed, state);
    let mut names: Vec<String> = Vec::new();
    let ghost all = jumps_view(look.tunnels@);
    let mut i: usize = 0;
    proof {
        assert(texts(names@) =~= restarts_among(all.take(0), texts(failed@), alive@));
    }
    while i < look.tunnels.len()
        invariant
            i <= look.tunnels@.len(),
            alive@.len() == look.tunnels@.len(),
            all == jumps_view(look.tunnels@),
            texts(names@) == restarts_among(all.take(i as int), texts(failed@), alive@),
        decreases look.tunnels@.len() - i,
    {
        proof {
            assert(all.take(i + 1).drop_last() =~= all.take(i as int));
            assert(all.take(i + 1).last() == (
                look.tunnels@[i as int].0@,
                opt_text(look.tunnels@[i as int].1),
            ));
        }
        let jump_failed: bool = match &look.tunnels[i].1 {
            Some(j) => has_text(failed, j.as_str()),
            None => false,
        };
        if jump_failed || !matches!(alive[i], Some(true)) {
            let ghost before = texts(names@);
            let name: String = look.tunnels[i].0.clone();
            names.push(name);
            proof {
                assert(texts(names@) =~= before.push(name@));
            }
        }
        i += 1;
    }
    proof {
        assert(all.take(i as int) =~= all);
    }
    let kills: Vec<u64> = take_down(&names, true, "wake_recover: restarting", state, runtime);
    guard.complete(look.claim, now);
    WakeOrders { reply: wake_reply(&names, false), kills, rebuild }
}

/// The reply to a subscription; whether it stands.
pub open spec fn subscribed_json(subscribed: bool) -> JsonView {
    JsonView::Obj(Map::empty().insert("subscribed"@, JsonView::Bool(subscribed)))
}

/// The reply to a subscription.
pub fn subscribe_events_ack(subscribed: bool) -> (j: Json)
    ensures
        j@ == subscribed_json(subscribed),
{
    let mut f: Fields = Fields::new();
    f.put("subscribed", Json::Bool(subscribed));
    f.done()
}

/// Where each name is carried once, taking tunnels down changes the named ones and
/// no others.
proof fn lemma_all_down(st: StateView, names: Seq<Seq<char>>, keep_wanted: bool, msg: Seq<char>)
    requires
        tunnel_names(st.tunnels).no_duplicates(),
    ensures
        ({
            let down = all_down(st, names, keep_wanted, msg);
            &&& down.hosts == st.hosts
            &&& down.tunnels.len() == st.tunnels.len()
            &&& tunnel_names(down.tunnels) == tunnel_names(st.tunnels)
            &&& forall|i: int|
                0 <= i < st.tunnels.len() ==> #[trigger] down.tunnels[i] == (if names.contains(
                    st.tunnels[i].name,
                ) {
                    taken_down(st.tunnels[i], keep_wanted, msg)
                } else {
                    st.tunnels[i]
                })
        }),
    decreases names.len(),
{
    let down = all_down(st, names, keep_wanted, msg);
    if names.len() > 0 {
        let before = names.drop_last();
        let mid = all_down(st, before, keep_wanted, msg);
        let last = names.last();
        lemma_all_down(st, before, keep_wanted, msg);
        lemma_first(tunnel_names(mid.tunnels), last);
        assert(names =~= before.push(last));
        assert forall|n: Seq<char>| #[trigger] names.contains(n) == (before.contains(n) || n == last) by {
            if names.contains(n) {
                let k = choose|k: int| 0 <= k < names.len() && names[k] == n;
                if k < before.len() {
                    assert(before[k] == n);
                }
            }
            if before.contains(n) {
                let k = choose|k: int| 0 <= k < before.len() && before[k] == n;
                assert(names[k] == n);
            }
            assert(names[names.len() - 1] == last);
        }
        match tunnel_at(mid, last) {
            Some(k) => {
                assert(tunnel_names(mid.tunnels)[k] == mid.tunnels[k].name);
                assert forall|i: int| 0 <= i < st.tunnels.len() implies #[trigger] down.tunnels[i]
                    == (if names.contains(st.tunnels[i].name) {
                    taken_down(st.tunnels[i], keep_wanted, msg)
                } else {
                    st.tunnels[i]
                }) by {
                    assert(tunnel_names(st.tunnels)[i] == st.tunnels[i].name);
                    assert(tunnel_names(mid.tunnels)[i] == mid.tunnels[i].name);
                }
                assert(tunnel_names(down.tunnels) =~= tunnel_names(st.tunnels)) by {
                    assert forall|i: int| 0 <= i < st.tunnels.len() implies tunnel_names(
                        down.tunnels,
                    )[i] == tunnel_names(st.tunnels)[i] by {
                        assert(tunnel_names(mid.tunnels)[i] == mid.tunnels[i].name);
                    }
                }
            },
            None => {
                assert forall|i: int| 0 <= i < st.tunnels.len() implies #[trigger] down.tunnels[i]
                    == (if names.contains(st.tunnels[i].name) {
                    taken_down(st.tunnels[i], keep_wanted, msg)
                } else {
                    st.tunnels[i]
                }) by {
                    assert(tunnel_names(mid.tunnels)[i] == mid.tunnels[i].name);
                    assert(tunnel_names(st.tunnels)[i] == st.tunnels[i].name);
                }
            },
        }
    }
}

/// A tunnel in use is listed as such, and so is only one that is.
proof fn lemma_used(ts: Seq<TunnelView>, i: int)
    requires
        0 <= i < ts.len(),
        in_use(ts[i]),
    ensures
        used_names(used_tunnels(ts)).contains(ts[i].name),
    decreases ts.len(),
{
    let before = used_tunnels(ts.drop_last());
    let now = used_tunnels(ts);
    if i == ts.len() - 1 {
        assert(used_names(now)[now.len() - 1] == ts[i].name);
    } else {
        lemma_used(ts.drop_last(), i);
        let k = choose|k: int|
            0 <= k < used_names(before).len() && used_names(before)[k] == ts[i].name;
        assert(used_names(now)[k] == ts[i].name);
    }
}

/// Once everything was reset no tunnel is in use, and none that was is wanted;
/// the others and the hosts are as they were.
pub proof fn law_reset_stops_every_tunnel(st: StateView, msg: Seq<char>)
    requires
        tunnel_names(st.tunnels).no_duplicates(),
    ensures
        ({
            let down = all_down(st, used_names(used_tunnels(st.tunnels)), false, msg);
            &&& down.hosts == st.hosts
            &&& down.tunnels.len() == st.tunnels.len()
            &&& forall|i: int|
                0 <= i < st.tunnels.len() ==> #[trigger] down.tunnels[i] == (if in_use(
                    st.tunnels[i],
                ) {
                    taken_down(st.tunnels[i], false, msg)
                } else {
                    st.tunnels[i]
                })
            &&& forall|i: int| 0 <= i < st.tunnels.len() ==> !in_use(#[trigger] down.tunnels[i])
        }),
{
    let names = used_names(used_tunnels(st.tunnels));
    lemma_all_down(st, names, false, msg);
    assert forall|i: int| 0 <= i < st.tunnels.len() implies names.contains(
        #[trigger] st.tunnels[i].name,
    ) == in_use(st.tunnels[i]) by {
        if in_use(st.tunnels[i]) {
            lemma_used(st.tunnels, i);
        }
        if names.contains(st.tunnels[i].name) {
            let k = choose|k: int| 0 <= k < names.len() && names[k] == st.tunnels[i].name;
            lemma_used_is(st.tunnels, k);
            let j = choose|j: int|
                0 <= j < st.tunnels.len() && in_use(st.tunnels[j]) && st.tunnels[j].name
                    == names[k];
            assert(tunnel_names(st.tunnels)[i] == tunnel_names(st.tunnels)[j]);
        }
    }
}

proof fn lemma_used_is(ts: Seq<TunnelView>, k: int)
    requires
        0 <= k < used_tunnels(ts).len(),
    ensures
        exists|j: int|
            0 <= j < ts.len() && in_use(#[trigger] ts[j]) && ts[j].name == used_names(
                used_tunnels(ts),
            )[k],
    decreases ts.len(),
{
    if ts.len() > 0 {
        let front = ts.drop_last();
        if in_use(ts.last()) && k == used_tunnels(ts).len() - 1 {
            assert(ts[ts.len() - 1].name == used_names(used_tunnels(ts))[k]);
        } else {
            lemma_used_is(front, k);
            let j = choose|j: int|
                0 <= j < front.len() && in_use(#[trigger] front[j]) && front[j].name == used_names(
                    used_tunnels(front),
                )[k];
            assert(ts[j] == front[j]);
        }
    }
}

/// A recovery after a wake-up leaves every tunnel as much wanted as it was.
pub proof fn law_wake_keeps_what_is_wanted(st: StateView, names: Seq<Seq<char>>, msg: Seq<char>)
    requires
        tunnel_names(st.tunnels).no_duplicates(),
    ensures
        forall|i: int|
            0 <= i < st.tunnels.len() ==> (#[trigger] all_down(
                st,
                names,
                true,
                msg,
            ).tunnels[i]).wants_alive == st.tunnels[i].wants_alive,
{
    lemma_all_down(st, names, true, msg);
}

/// Of wake-ups that come close together only one recovers: while it runs none
/// other may, nor for a while after it ended; then one may again.
pub proof fn law_wake_ups_coalesce(g: GuardView, now: u64, done: u64, later: u64)
    requires
        !coalesces(g, now),
        done > 0,
    ensures
        coalesces(GuardView { in_flight: true, ..g }, later),
        ({
            let after = GuardView { in_flight: false, last_completed: done };
            coalesces(after, later) <==> later < done + WAKE_RECOVER_MIN_INTERVAL_SECS
        }),
{
}

proof fn lemma_restarts(
    ts: Seq<(Seq<char>, Option<Seq<char>>)>,
    failed: Seq<Seq<char>>,
    alive: Seq<Option<bool>>,
)
    requires
        alive.len() >= ts.len(),
    ensures
        forall|i: int|
            #![trigger ts[i]]
            0 <= i < ts.len() && (alive[i] != Some(true) || (ts[i].1 matches Some(j)
                && failed.contains(j))) ==> restarts_among(ts, failed, alive).contains(ts[i].0),
        forall|n: Seq<char>| #[trigger]
            restarts_among(ts, failed, alive).contains(n) ==> exists|i: int|
                #![trigger ts[i]]
                0 <= i < ts.len() && ts[i].0 == n && (alive[i] != Some(true) || (
                ts[i].1 matches Some(j) && failed.contains(j))),
    decreases ts.len(),
{
    if ts.len() > 0 {
        let front = ts.drop_last();
        let last = ts.len() - 1;
        lemma_restarts(front, failed, alive);
        let before = restarts_among(front, failed, alive);
        let found = restarts_among(ts, failed, alive);
        assert forall|i: int|
            #![trigger ts[i]]
            0 <= i < ts.len() && (alive[i] != Some(true) || (ts[i].1 matches Some(j)
                && failed.contains(j))) implies found.contains(ts[i].0) by {
            if i < last {
                assert(front[i] == ts[i]);
                let k = choose|k: int| 0 <= k < before.len() && before[k] == ts[i].0;
                assert(found[k] == ts[i].0);
            } else {
                assert(found[found.len() - 1] == ts[i].0);
            }
        }
        assert forall|n: Seq<char>| #[trigger] found.contains(n) implies exists|i: int|
            #![trigger ts[i]]
            0 <= i < ts.len() && ts[i].0 == n && (alive[i] != Some(true) || (
            ts[i].1 matches Some(j) && failed.contains(j))) by {
            let k = choose|k: int| 0 <= k < found.len() && found[k] == n;
            if k < before.len() {
                assert(before[k] == n);
                assert(before.contains(n));
                let i = choose|i: int|
                    #![trigger front[i]]
                    0 <= i < front.len() && front[i].0 == n && (alive[i] != Some(true) || (
                    front[i].1 matches Some(j) && failed.contains(j)));
                assert(ts[i] == front[i]);
            } else {
                assert(ts[last].0 == n);
            }
        }
    }
}

/// After a wake-up exactly those of the looked-at tunnels are restarted whose process
/// was not seen alive or whose jump host failed. Each of them is named in the reply,
/// goes idle, stays as much wanted as it was and loses its process; a tunnel that is
/// not restarted keeps its record and its process.
pub proof fn law_wake_restarts_exactly_what_is_down(
    ts: Seq<(Seq<char>, Option<Seq<char>>)>,
    failed: Seq<Seq<char>>,
    alive: Seq<Option<bool>>,
    st: StateView,
    rt: RuntimeView,
)
    requires
        alive.len() == ts.len(),
        tunnel_names(st.tunnels).no_duplicates(),
    ensures
        ({
            let names = restarts_among(ts, failed, alive);
            let down = all_down(st, names, true, "wake_recover: restarting"@);
            let after = all_childless(rt, names);
            &&& forall|i: int|
                #![trigger ts[i]]
                0 <= i < ts.len() && alive[i] != Some(true) ==> names.contains(ts[i].0)
            &&& forall|i: int|
                #![trigger ts[i]]
                0 <= i < ts.len() && ts[i].1 is Some && failed.contains(ts[i].1->Some_0)
                    ==> names.contains(ts[i].0)
            &&& forall|n: Seq<char>|
                #[trigger] names.contains(n) ==> exists|i: int|
                    #![trigger ts[i]]
                    0 <= i < ts.len() && ts[i].0 == n && (alive[i] != Some(true) || (
                    ts[i].1 matches Some(j) && failed.contains(j)))
            &&& wake_json(names, false) matches JsonView::Obj(m) && m.contains_key(
                "tunnels_restarting"@,
            ) && (m["tunnels_restarting"@] matches JsonView::Arr(items) && items.len()
                == names.len() && forall|k: int|
                0 <= k < names.len() ==> #[trigger] items[k] == JsonView::Str(names[k]))
                && m.contains_key("coalesced"@) && m["coalesced"@] == JsonView::Bool(false)
            &&& down.hosts == st.hosts
            &&& down.tunnels.len() == st.tunnels.len()
            &&& forall|k: int|
                0 <= k < st.tunnels.len() ==> {
                    let t = #[trigger] down.tunnels[k];
                    if names.contains(st.tunnels[k].name) {
                        &&& t.status == TunnelStatus::Idle
                        &&& t.active_jump is None
                        &&& t.wants_alive == st.tunnels[k].wants_alive
                        &&& t.name == st.tunnels[k].name
                        &&& t.last_node == st.tunnels[k].last_node
                        &&& t.jump_candidates == st.tunnels[k].jump_candidates
                        &&& t.last_msg == "wake_recover: restarting"@
                    } else {
                        t == st.tunnels[k]
                    }
                }
            &&& forall|n: Seq<char>| #[trigger]
                after.children.contains_key(n) <==> rt.children.contains_key(n) && !names.contains(n)
            &&& forall|n: Seq<char>| #[trigger]
                after.children.contains_key(n) ==> after.children[n] == rt.children[n]
            &&& forall|n: Seq<char>|
                names.contains(n) && #[trigger] rt.children.contains_key(n) ==> children_among(
                    rt,
                    names,
                ).contains(rt.children[n])
            &&& forall|c: u64| #[trigger]
                children_among(rt, names).contains(c) ==> exists|n: Seq<char>|
                    names.contains(n) && #[trigger] rt.children.contains_key(n) && rt.children[n]
                        == c
        }),
{
    let names = restarts_among(ts, failed, alive);
    lemma_restarts(ts, failed, alive);
    lemma_all_down(st, names, true, "wake_recover: restarting"@);
    lemma_children(rt, names);
    reveal_strlit("tunnels_restarting");
    reveal_strlit("coalesced");
    assert("tunnels_restarting"@[0] != "coalesced"@[0]);
}

proof fn lemma_children(rt: RuntimeView, names: Seq<Seq<char>>)
    ensures
        forall|n: Seq<char>| #[trigger]
            all_childless(rt, names).children.contains_key(n) <==> rt.children.contains_key(n)
                && !names.contains(n),
        forall|n: Seq<char>| #[trigger]
            all_childless(rt, names).children.contains_key(n) ==> all_childless(
                rt,
                names,
            ).children[n] == rt.children[n],
        all_childless(rt, names).rt == rt.rt,
        all_childless(rt, names).events == rt.events,
        forall|n: Seq<char>|
            names.contains(n) && #[trigger] rt.children.contains_key(n) ==> children_among(
                rt,
                names,
            ).contains(rt.children[n]),
        forall|c: u64| #[trigger]
            children_among(rt, names).contains(c) ==> exists|n: Seq<char>|
                names.contains(n) && #[trigger] rt.children.contains_key(n) && rt.children[n] == c,
    decreases names.len(),
{
    if names.len() > 0 {
        let front = names.drop_last();
        let last = names.last();
        lemma_children(rt, front);
        let mid = all_childless(rt, front);
        let before = children_among(rt, front);
        let found = children_among(rt, names);
        assert forall|n: Seq<char>| #[trigger] names.contains(n) == (front.contains(n) || n == last) by {
            if names.contains(n) {
                let k = choose|k: int| 0 <= k < names.len() && names[k] == n;
                if k < front.len() {
                    assert(front[k] == n);
                }
            }
            if front.contains(n) {
                let k = choose|k: int| 0 <= k < front.len() && front[k] == n;
                assert(names[k] == n);
            }
            assert(names[names.len() - 1] == last);
        }
        assert forall|n: Seq<char>|
            names.contains(n) && #[trigger] rt.children.contains_key(n) implies found.contains(
            rt.children[n],
        ) by {
            if front.contains(n) {
                let k = choose|k: int| 0 <= k < before.len() && before[k] == rt.children[n];
                assert(found[k] == rt.children[n]);
            } else {
                assert(mid.children.contains_key(n));
                assert(found[found.len() - 1] == rt.children[n]);
            }
        }
        assert forall|c: u64| #[trigger] found.contains(c) implies exists|n: Seq<char>|
            names.contains(n) && #[trigger] rt.children.contains_key(n) && rt.children[n] == c by {
            let k = choose|k: int| 0 <= k < found.len() && found[k] == c;
            if k < before.len() {
                assert(before[k] == c);
                assert(before.contains(c));
                let n = choose|n: Seq<char>|
                    front.contains(n) && #[trigger] rt.children.contains_key(n) && rt.children[n]
                        == c;
                assert(names.contains(n));
            } else {
                assert(mid.children.contains_key(last));
                assert(names.contains(last));
                assert(rt.children.contains_key(last) && rt.children[last] == c);
            }
        }
    }
}

proof fn lemma_used_pairs(ts: Seq<TunnelView>)
    ensures
        forall|i: int|
            0 <= i < ts.len() && ((#[trigger] ts[i]).status == TunnelStatus::Alive || ts[i].status
                == TunnelStatus::Starting || ts[i].status == TunnelStatus::Stale)
                ==> used_tunnels(ts).contains((ts[i].name, ts[i].active_jump)),
        forall|p: (Seq<char>, Option<Seq<char>>)| #[trigger]
            used_tunnels(ts).contains(p) ==> exists|i: int|
                {
                    &&& 0 <= i < ts.len()
                    &&& (#[trigger] ts[i]).name == p.0
                    &&& ts[i].active_jump == p.1
                    &&& ts[i].status == TunnelStatus::Alive || ts[i].status
                        == TunnelStatus::Starting || ts[i].status == TunnelStatus::Stale
                },
    decreases ts.len(),
{
    if ts.len() > 0 {
        let front = ts.drop_last();
        let last = ts.len() - 1;
        lemma_used_pairs(front);
        let before = used_tunnels(front);
        let found = used_tunnels(ts);
        assert forall|i: int|
            0 <= i < ts.len() && ((#[trigger] ts[i]).status == TunnelStatus::Alive || ts[i].status
                == TunnelStatus::Starting || ts[i].status == TunnelStatus::Stale) implies found.contains(
            (ts[i].name, ts[i].active_jump),
        ) by {
            if i < last {
                assert(front[i] == ts[i]);
                let k = choose|k: int|
                    0 <= k < before.len() && before[k] == (ts[i].name, ts[i].active_jump);
                assert(found[k] == before[k]);
            } else {
                assert(found[found.len() - 1] == (ts[i].name, ts[i].active_jump));
            }
        }
        assert forall|p: (Seq<char>, Option<Seq<char>>)| #[trigger]
            found.contains(p) implies exists|i: int|
            {
                &&& 0 <= i < ts.len()
                &&& (#[trigger] ts[i]).name == p.0
                &&& ts[i].active_jump == p.1
                &&& ts[i].status == TunnelStatus::Alive || ts[i].status == TunnelStatus::Starting
                    || ts[i].status == TunnelStatus::Stale
            } by {
            let k = choose|k: int| 0 <= k < found.len() && found[k] == p;
            if k < before.len() {
                assert(before[k] == p);
                assert(before.contains(p));
                let i = choose|i: int|
                    {
                        &&& 0 <= i < front.len()
                        &&& (#[trigger] front[i]).name == p.0
                        &&& front[i].active_jump == p.1
                        &&& front[i].status == TunnelStatus::Alive || front[i].status
                            == TunnelStatus::Starting || front[i].status == TunnelStatus::Stale
                    };
                assert(ts[i] == front[i]);
            } else {
                assert(ts[last].name == p.0);
            }
        }
    }
}

/// A wake-up looks at every tunnel that is alive, starting or stale, with the jump
/// host it goes through, and at no other; and at the connection of every enabled host,
/// and of no other.
pub proof fn law_wake_looks_at_everything_in_use(st: StateView)
    ensures
        forall|i: int|
            0 <= i < st.tunnels.len() && ((#[trigger] st.tunnels[i]).status == TunnelStatus::Alive
                || st.tunnels[i].status == TunnelStatus::Starting || st.tunnels[i].status
                == TunnelStatus::Stale) ==> used_tunnels(st.tunnels).contains(
                (st.tunnels[i].name, st.tunnels[i].active_jump),
            ),
        forall|p: (Seq<char>, Option<Seq<char>>)| #[trigger]
            used_tunnels(st.tunnels).contains(p) ==> exists|i: int|
                {
                    &&& 0 <= i < st.tunnels.len()
                    &&& (#[trigger] st.tunnels[i]).name == p.0
                    &&& st.tunnels[i].active_jump == p.1
                    &&& st.tunnels[i].status == TunnelStatus::Alive || st.tunnels[i].status
                        == TunnelStatus::Starting || st.tunnels[i].status == TunnelStatus::Stale
                },
        forall|i: int|
            0 <= i < st.hosts.len() && (#[trigger] st.hosts[i]).active ==> active_names(
                st.hosts,
            ).contains(st.hosts[i].host),
        forall|n: Seq<char>| #[trigger]
            active_names(st.hosts).contains(n) ==> exists|i: int|
                0 <= i < st.hosts.len() && (#[trigger] st.hosts[i]).host == n && st.hosts[i].active,
{
    lemma_used_pairs(st.tunnels);
    lemma_active_names(st.hosts);
}

/// A reset leaves no tunnel running and nothing running wanted: each tunnel that was
/// alive, starting or stale goes idle, is no longer wanted, has no jump host and no
/// process; the others stay as they were. The connections of all enabled hosts, and
/// of no others, are rebuilt, and the reply counts both.
pub proof fn law_reset_stops_what_runs_and_rebuilds_what_is_enabled(
    st: StateView,
    rt: RuntimeView,
)
    requires
        tunnel_names(st.tunnels).no_duplicates(),
        st.tunnels.len() <= u64::MAX,
        st.hosts.len() <= u64::MAX,
    ensures
        ({
            let (down, after, orders) = reset_asked(st, rt);
            &&& down.hosts == st.hosts
            &&& down.tunnels.len() == st.tunnels.len()
            &&& forall|i: int|
                0 <= i < st.tunnels.len() ==> {
                    let t = #[trigger] down.tunnels[i];
                    if st.tunnels[i].status == TunnelStatus::Alive || st.tunnels[i].status
                        == TunnelStatus::Starting || st.tunnels[i].status == TunnelStatus::Stale {
                        &&& t.status == TunnelStatus::Idle
                        &&& !t.wants_alive
                        &&& t.active_jump is None
                        &&& t.name == st.tunnels[i].name
                        &&& t.last_node == st.tunnels[i].last_node
                        &&& !after.children.contains_key(st.tunnels[i].name)
                        &&& rt.children.contains_key(st.tunnels[i].name) ==> orders.kills.contains(
                            rt.children[st.tunnels[i].name],
                        )
                    } else {
                        &&& t == st.tunnels[i]
                        &&& after.children.contains_key(st.tunnels[i].name)
                            == rt.children.contains_key(st.tunnels[i].name)
                    }
                }
            &&& forall|i: int|
                0 <= i < st.hosts.len() && (#[trigger] st.hosts[i]).active
                    ==> orders.rebuild.contains(st.hosts[i].host)
            &&& forall|n: Seq<char>| #[trigger]
                orders.rebuild.contains(n) ==> exists|i: int|
                    0 <= i < st.hosts.len() && (#[trigger] st.hosts[i]).host == n
                        && st.hosts[i].active
            &&& orders.reply matches JsonView::Obj(m) && m.contains_key("masters_rebuilt"@)
                && m["masters_rebuilt"@] == JsonView::Uint(orders.rebuild.len() as u64)
                && m.contains_key("tunnels_stopped"@) && m["tunnels_stopped"@] == JsonView::Uint(
                used_tunnels(st.tunnels).len() as u64,
            )
        }),
{
    let names = used_names(used_tunnels(st.tunnels));
    let down = all_down(st, names, false, "Stopped (reset_all)"@);
    law_reset_stops_every_tunnel(st, "Stopped (reset_all)"@);
    lemma_all_down(st, names, false, "Stopped (reset_all)"@);
    lemma_children(rt, names);
    lemma_active_names(down.hosts);
    lemma_enabled_among(active_names(down.hosts), down);
    assert forall|i: int| 0 <= i < st.tunnels.len() implies names.contains(
        #[trigger] st.tunnels[i].name,
    ) == in_use(st.tunnels[i]) by {
        if in_use(st.tunnels[i]) {
            lemma_used(st.tunnels, i);
        }
        if names.contains(st.tunnels[i].name) {
            let k = choose|k: int| 0 <= k < names.len() && names[k] == st.tunnels[i].name;
            lemma_used_is(st.tunnels, k);
            let j = choose|j: int|
                0 <= j < st.tunnels.len() && in_use(st.tunnels[j]) && st.tunnels[j].name
                    == names[k];
            assert(tunnel_names(st.tunnels)[i] == tunnel_names(st.tunnels)[j]);
        }
    }
    reveal_strlit("tunnels_stopped");
    reveal_strlit("masters_rebuilt");
    assert("tunnels_stopped"@[0] != "masters_rebuilt"@[0]);
}

/// A request for the log gets as many lines as it asks for, at most ten thousand, and
/// two hundred where it does not say.
pub proof fn law_how_many_lines_a_request_gets(m: Map<Seq<char>, JsonView>, n: u64)
    ensures
        !m.contains_key("lines"@) ==> tail_lines(JsonView::Obj(m)) == 200,
        m.contains_key("lines"@) && m["lines"@] == JsonView::Uint(n) ==> tail_lines(
            JsonView::Obj(m),
        ) == (if n <= 10_000 {
            n
        } else {
            10_000
        }),
{
}

/// The lines that are shown are the non-empty ones, in their order: one more line is
/// shown after the others, unless it is empty; and of those at most the last `n`.
pub proof fn law_shown_lines_are_the_last_full_ones(
    lines: Seq<Seq<u8>>,
    line: Seq<u8>,
    v: TailView,
    from_start: bool,
)
    ensures
        line.len() > 0 ==> shown(lines.push(line)) == shown(lines).push(lossy(line)),
        line.len() == 0 ==> shown(lines.push(line)) == shown(lines),
        shown(Seq::empty()).len() == 0,
        tail_of(v, from_start).len() <= v.n,
        ({
            let all = shown(
                if from_start {
                    pieces(v.read, 10u8)
                } else {
                    pieces(v.read, 10u8).skip(1)
                },
            );
            &&& all.len() <= v.n ==> tail_of(v, from_start) == all
            &&& all.len() > v.n ==> tail_of(v, from_start).len() == v.n && forall|k: int|
                0 <= k < v.n ==> #[trigger] tail_of(v, from_start)[k] == all[all.len() - v.n + k]
        }),
{
    assert(lines.push(line).drop_last() =~= lines);
}

/// A wake-up recovery is one too many exactly while one runs, or within twelve seconds
/// of the end of the last.
pub proof fn law_when_a_wake_up_is_one_too_many(g: GuardView, now: u64)
    ensures
        coalesces(g, now) <==> g.in_flight || (g.last_completed > 0 && now < g.last_completed + 12),
{
}

} // verus!
