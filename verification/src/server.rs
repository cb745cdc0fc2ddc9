//! The daemon's boot, its connections, and the lines that come over them.
use crate::dispatch::{
    Method, encode_error, encode_response, error_json, law_methods_go_by_their_names, line_object,
    method_named, read_line, response_json, wire,
};
use crate::handlers::discovery::local_ports;
use crate::handlers::system::{subscribe_events_ack, subscribed_json};
use crate::json::{Json, JsonView, bool_at, str_at};
use crate::model::{State, StateView, host_names};
use crate::paths::{is_same_path, join_path, joined, same_path};
use crate::text::{cat3, cat5, opt_text, same_text, texts};
use vstd::prelude::*;

verus! {

/// The home folder, or where things go without one.
pub open spec fn home_of(home: Option<Seq<char>>) -> Seq<char> {
    match home {
        Some(h) => h,
        None => "/tmp"@,
    }
}

/// A file of the daemon: the one given, or the one of this name in its folder.
pub open spec fn own_file(
    given: Option<Seq<char>>,
    home: Option<Seq<char>>,
    name: Seq<char>,
) -> Seq<
    char,
> {
    match given {
        Some(p) => p,
        None => joined(joined(home_of(home), ".ssh2fa"@), name),
    }
}

fn file_path(given: &Option<String>, home: &Option<String>, name: &str) -> (r: String)
    ensures
        r@ == own_file(opt_text(*given), opt_text(*home), name@),
{
    match given {
        Some(p) => p.clone(),
        None => {
            let dir: String = match home {
                Some(h) => join_path(h.as_str(), ".ssh2fa"),
                None => join_path("/tmp", ".ssh2fa"),
            };
            join_path(dir.as_str(), name)
        },
    }
}

/// Where the daemon listens: the place given, or the usual one.
pub fn socket_path(given: &Option<String>, home: &Option<String>) -> (r: String)
    ensures
        r@ == own_file(opt_text(*given), opt_text(*home), "ssh2fa.sock"@),
{
    file_path(given, home, "ssh2fa.sock")
}

/// The file that keeps a second daemon from running: the one given, or the usual
/// one.
pub fn lock_path(given: &Option<String>, home: &Option<String>) -> (r: String)
    ensures
        r@ == own_file(opt_text(*given), opt_text(*home), "lock"@),
{
    file_path(given, home, "lock")
}

/// Why a daemon must not start. One with a socket of its own is there to try
/// things out: it must have a configuration of its own, and credentials of its
/// own or none.
pub open spec fn isolation_refusal(
    sock: Seq<char>,
    overridden: bool,
    cfg: Seq<char>,
    user_cfg: Seq<char>,
    creds_isolated: bool,
) -> Option<Seq<char>> {
    if !overridden {
        None
    } else if same_path(cfg, user_cfg) {
        Some(
            "refusing to start: AUTO2FA_SOCK is set (socket "@ + sock
                + "), which means this is a test/dev daemon, but the config directory is still the REAL one ("@
                + user_cfg
                + "). It would sweep the user's live ControlMasters, read their Keychain, and log in to their servers. Set SSH_CONFIG_PATH to a temporary directory."@,
        )
    } else if !creds_isolated {
        Some(
            "refusing to start: AUTO2FA_SOCK is set (socket "@ + sock
                + ") but neither SSH2FA_DISABLE_KEYCHAIN=1 nor SSH2FA_VAULT=file is set. A test/dev daemon would still access the user's REAL system credential store even with an isolated config directory. Use SSH2FA_DISABLE_KEYCHAIN=1 for no credentials at all, or SSH2FA_VAULT=file to keep them in the isolated config directory."@,
        )
    } else {
        None
    }
}

/// Check that a daemon may start. `overridden` is whether its socket is not the
/// usual one, `cfg` its configuration folder and `user_cfg` the user's.
pub fn validate_test_isolation(
    sock: &str,
    overridden: bool,
    cfg: &str,
    user_cfg: &str,
    creds_isolated: bool,
) -> (r: Result<(), String>)
    ensures
        match r {
            Ok(_) => isolation_refusal(sock@, overridden, cfg@, user_cfg@, creds_isolated) is None,
            Err(e) => isolation_refusal(sock@, overridden, cfg@, user_cfg@, creds_isolated) == Some(
                e@,
            ),
        },
{
    if !overridden {
        return Ok(());
    }
    if is_same_path(cfg, user_cfg) {
        return Err(
            cat5(
                "refusing to start: AUTO2FA_SOCK is set (socket ",
                sock,
                "), which means this is a test/dev daemon, but the config directory is still the REAL one (",
                user_cfg,
                "). It would sweep the user's live ControlMasters, read their Keychain, and log in to their servers. Set SSH_CONFIG_PATH to a temporary directory.",
            ),
        );
    }
    if !creds_isolated {
        return Err(
            cat3(
                "refusing to start: AUTO2FA_SOCK is set (socket ",
                sock,
                ") but neither SSH2FA_DISABLE_KEYCHAIN=1 nor SSH2FA_VAULT=file is set. A test/dev daemon would still access the user's REAL system credential store even with an isolated config directory. Use SSH2FA_DISABLE_KEYCHAIN=1 for no credentials at all, or SSH2FA_VAULT=file to keep them in the isolated config directory.",
            ),
        );
    }
    Ok(())
}

/// What the daemon was started with.
#[derive(Debug, Clone)]
pub struct Surroundings {
    /// The socket and the lock file that were given, if any.
    pub sock: Option<String>,
    pub lock: Option<String>,
    pub home: Option<String>,
    /// The configuration folder.
    pub config_dir: String,
    /// Whether the credential store is switched off.
    pub keychain_disabled: bool,
    /// The kind of credential store that was asked for, if any.
    pub vault: Option<String>,
}

/// The user's own configuration folder.
pub open spec fn real_config(s: Surroundings) -> Seq<char> {
    joined(home_of(opt_text(s.home)), ".ssh"@)
}

/// Why the daemon must not start in these surroundings.
pub open spec fn start_refusal(s: Surroundings) -> Option<Seq<char>> {
    isolation_refusal(
        own_file(opt_text(s.sock), opt_text(s.home), "ssh2fa.sock"@),
        s.sock is Some,
        s.config_dir@,
        real_config(s),
        s.keychain_disabled || opt_text(s.vault) == Some("file"@),
    )
}

/// Check that the daemon may start in these surroundings.
pub fn guard_test_isolation(s: &Surroundings) -> (r: Result<(), String>)
    ensures
        match r {
            Ok(_) => start_refusal(*s) is None,
            Err(e) => start_refusal(*s) == Some(e@),
        },
{
    let sock: String = socket_path(&s.sock, &s.home);
    let user_cfg: String = match &s.home {
        Some(h) => join_path(h.as_str(), ".ssh"),
        None => join_path("/tmp", ".ssh"),
    };
    let vault_is_file: bool = match &s.vault {
        Some(v) => same_text(v.as_str(), "file"),
        None => false,
    };
    validate_test_isolation(
        sock.as_str(),
        s.sock.is_some(),
        s.config_dir.as_str(),
        user_cfg.as_str(),
        s.keychain_disabled || vault_is_file,
    )
}

/// Most connections that are served at a time.
pub const MAX_CONNS: usize = 128;

/// How many connections are being served.
#[derive(Debug)]
pub struct ConnCount {
    live: usize,
}

impl View for ConnCount {
    type V = nat;

    closed spec fn view(&self) -> nat {
        self.live as nat
    }
}

/// The right to serve one connection.
#[derive(Debug)]
pub struct ConnGuard {
    _held: (),
}

impl ConnCount {
    #[verifier::type_invariant]
    spec fn capped(self) -> bool {
        self.live <= MAX_CONNS
    }

    /// No connection is served.
    pub fn none() -> (c: ConnCount)
        ensures
            c@ == 0,
    {
        ConnCount { live: 0 }
    }

    /// Begin to serve a connection. `None` where too many are being served.
    pub fn enter(&mut self) -> (g: Option<ConnGuard>)
        ensures
            g is Some <==> old(self)@ < MAX_CONNS,
            final(self)@ == (if g is Some {
                old(self)@ + 1
            } else {
                old(self)@
            }),
            final(self)@ <= MAX_CONNS,
            old(self)@ < 128 <==> g is Some,
    {
        proof {
            use_type_invariant(&*self);
        }
        if self.live >= MAX_CONNS {
            return None;
        }
        self.live = self.live + 1;
        Some(ConnGuard { _held: () })
    }

    /// A connection is no longer served.
    pub fn leave(&mut self, _g: ConnGuard)
        ensures
            final(self)@ == (if old(self)@ > 0 {
                (old(self)@ - 1) as nat
            } else {
                0
            }),
    {
        proof {
            use_type_invariant(&*self);
        }
        self.live = self.live.saturating_sub(1);
    }
}

/// Most bytes of one request line.
pub const MAX_LINE_BYTES: usize = 1_048_576;

/// How many bytes may be read into a line that holds `n` already.
pub open spec fn line_budget(n: nat) -> nat {
    if n <= MAX_LINE_BYTES {
        (MAX_LINE_BYTES + 1 - n) as nat
    } else {
        0
    }
}

/// Where a connection stands: what it waits for.
#[derive(Debug)]
pub enum ConnPhase {
    /// Bytes of a request line.
    Reading,
    /// The registration of a subscriber, for the request with this id.
    Registering { id: String },
    /// The answer to a request line.
    Dispatching,
    /// The writing of a reply.
    Writing,
    /// Nothing more.
    Closed,
}

/// What a phase says.
#[verifier::ext_equal]
pub enum ConnPhaseView {
    Reading,
    Registering { id: Seq<char> },
    Dispatching,
    Writing,
    Closed,
}

impl View for ConnPhase {
    type V = ConnPhaseView;

    open spec fn view(&self) -> ConnPhaseView {
        match self {
            ConnPhase::Reading => ConnPhaseView::Reading,
            ConnPhase::Registering { id } => ConnPhaseView::Registering { id: id@ },
            ConnPhase::Dispatching => ConnPhaseView::Dispatching,
            ConnPhase::Writing => ConnPhaseView::Writing,
            ConnPhase::Closed => ConnPhaseView::Closed,
        }
    }
}

/// What came of an ask.
#[derive(Debug)]
pub enum ConnEvent {
    /// Some bytes, up to and with a line feed, or as many as there were.
    Read(Vec<u8>),
    /// The client is gone.
    Eof,
    /// No byte came in time.
    Timeout,
    /// The connection broke.
    Failed,
    /// The subscriber was registered, or refused.
    Registered(bool),
    /// The answer to the line.
    Answer(String),
    /// The answer could not be found, as the handler broke down.
    Panicked,
    /// The reply was written.
    Written,
}

/// What is to be done next.
#[derive(Debug, PartialEq)]
pub enum ConnAsk {
    /// Read on, at most so many bytes and no further than a line feed.
    Read { budget: usize },
    /// Register a subscriber.
    Register,
    /// Find the answer to a line.
    Dispatch(Vec<u8>),
    /// Write a reply.
    Write(String),
    /// Close the connection.
    Close,
}

/// What an ask says.
#[verifier::ext_equal]
pub enum ConnAskView {
    Read { budget: nat },
    Register,
    Dispatch(Seq<u8>),
    Write(Seq<char>),
    Close,
}

impl View for ConnAsk {
    type V = ConnAskView;

    open spec fn view(&self) -> ConnAskView {
        match self {
            ConnAsk::Read { budget } => ConnAskView::Read { budget: *budget as nat },
            ConnAsk::Register => ConnAskView::Register,
            ConnAsk::Dispatch(line) => ConnAskView::Dispatch(line@),
            ConnAsk::Write(text) => ConnAskView::Write(text@),
            ConnAsk::Close => ConnAskView::Close,
        }
    }
}

/// One connection: the part of a line that came so far, and whether its client
/// subscribed to events.
#[derive(Debug)]
pub struct Connection {
    raw: Vec<u8>,
    subscribed: bool,
    phase: ConnPhase,
}

/// What a connection says.
#[verifier::ext_equal]
pub struct ConnView {
    pub raw: Seq<u8>,
    pub subscribed: bool,
    pub phase: ConnPhaseView,
}

impl View for Connection {
    type V = ConnView;

    closed spec fn view(&self) -> ConnView {
        ConnView { raw: self.raw@, subscribed: self.subscribed, phase: self.phase@ }
    }
}

/// The id of a line that is a subscription.
pub open spec fn subscription(line: Seq<u8>) -> Option<Seq<char>> {
    match line_object(line) {
        Err(_) => None,
        Ok(j) => match str_at(j, "method"@) {
            None => None,
            Some(name) => if method_named(name) == Some(Method::SubscribeEvents) {
                Some(
                    match str_at(j, "id"@) {
                        Some(id) => id,
                        None => Seq::empty(),
                    },
                )
            } else {
                None
            },
        },
    }
}

fn copy_line(line: &Vec<u8>) -> (r: Vec<u8>)
    ensures
        r@ == line@,
{
    let mut r: Vec<u8> = Vec::new();
    let mut i: usize = 0;
    while i < line.len()
        invariant
            i <= line@.len(),
            r@ == line@.take(i as int),
        decreases line@.len() - i,
    {
        r.push(line[i]);
        proof {
            assert(r@ =~= line@.take(i + 1));
        }
        i += 1;
    }
    proof {
        assert(line@.take(i as int) =~= line@);
    }
    r
}

/// The id of a line that is a subscription.
pub fn subscription_id(line: &Vec<u8>) -> (r: Option<String>)
    ensures
        opt_text(r) == subscription(line@),
{
    let j: Json = match read_line(copy_line(line)) {
        Ok(j) => j,
        Err(_) => return None,
    };
    let name: String = match j.str_at("method") {
        Some(name) => name,
        None => return None,
    };
    match Method::from_str(name.as_str()) {
        Some(Method::SubscribeEvents) => match j.str_at("id") {
            Some(id) => Some(id),
            None => {
                proof {
                    reveal_strlit("");
                    assert(""@ =~= Seq::<char>::empty());
                }
                Some("".to_owned())
            },
        },
        _ => None,
    }
}

/// The connection reads on.
pub open spec fn reads_on(c: ConnView) -> (ConnView, ConnAskView) {
    (
        ConnView { phase: ConnPhaseView::Reading, ..c },
        ConnAskView::Read { budget: line_budget(c.raw.len()) },
    )
}

/// The connection is closed.
pub open spec fn closes(c: ConnView) -> (ConnView, ConnAskView) {
    (ConnView { phase: ConnPhaseView::Closed, ..c }, ConnAskView::Close)
}

/// The connection writes a reply.
pub open spec fn writes(c: ConnView, text: Seq<char>) -> (ConnView, ConnAskView) {
    (ConnView { phase: ConnPhaseView::Writing, ..c }, ConnAskView::Write(text))
}

/// The reply to a subscription.
pub open spec fn ack_line(id: Seq<char>, subscribed: bool) -> Seq<char> {
    wire(response_json(id, subscribed_json(subscribed)))
}

/// The step on a whole line: a subscription is registered once, and another line
/// is answered.
pub open spec fn on_line(c: ConnView, line: Seq<u8>) -> (ConnView, ConnAskView) {
    match subscription(line) {
        Some(id) => if c.subscribed {
            writes(c, ack_line(id, true))
        } else {
            (ConnView { phase: ConnPhaseView::Registering { id }, ..c }, ConnAskView::Register)
        },
        None => (
            ConnView { phase: ConnPhaseView::Dispatching, ..c },
            ConnAskView::Dispatch(line),
        ),
    }
}

/// The step on some bytes: a line that is whole is taken, one that is too long
/// ends the connection.
pub open spec fn on_bytes(c: ConnView, bytes: Seq<u8>) -> (ConnView, ConnAskView) {
    let raw = c.raw + bytes;
    if raw.len() > 0 && raw.last() == 10 {
        on_line(ConnView { raw: Seq::empty(), ..c }, raw)
    } else if raw.len() > MAX_LINE_BYTES {
        closes(ConnView { raw, ..c })
    } else {
        reads_on(ConnView { raw, ..c })
    }
}

/// The step on an event. An event that is not waited for ends the connection.
pub open spec fn conn_step(c: ConnView, e: ConnEvent) -> (ConnView, ConnAskView) {
    match (c.phase, e) {
        (ConnPhaseView::Reading, ConnEvent::Read(bytes)) => if bytes@.len() == 0 {
            closes(c)
        } else {
            on_bytes(c, bytes@)
        },
        (ConnPhaseView::Reading, ConnEvent::Timeout) => reads_on(c),
        (ConnPhaseView::Registering { id }, ConnEvent::Registered(ok)) => writes(
            ConnView { subscribed: ok, ..c },
            ack_line(id, ok),
        ),
        (ConnPhaseView::Dispatching, ConnEvent::Answer(text)) => writes(c, text@),
        (ConnPhaseView::Dispatching, ConnEvent::Panicked) => writes(
            c,
            wire(error_json(Seq::empty(), "internal_error"@, "internal error"@)),
        ),
        (ConnPhaseView::Writing, ConnEvent::Written) => reads_on(c),
        _ => closes(c),
    }
}

impl Connection {
    /// A connection just made.
    pub fn new() -> (c: Connection)
        ensures
            c@ == (ConnView {
                raw: Seq::empty(),
                subscribed: false,
                phase: ConnPhaseView::Reading,
            }),
    {
        Connection { raw: Vec::new(), subscribed: false, phase: ConnPhase::Reading }
    }

    fn read_on(&mut self) -> (ask: ConnAsk)
        ensures
            (final(self)@, ask@) == reads_on(old(self)@),
    {
        self.phase = ConnPhase::Reading;
        let n: usize = self.raw.len();
        let budget: usize = if n <= MAX_LINE_BYTES {
            MAX_LINE_BYTES + 1 - n
        } else {
            0
        };
        ConnAsk::Read { budget }
    }

    fn close(&mut self) -> (ask: ConnAsk)
        ensures
            (final(self)@, ask@) == closes(old(self)@),
    {
        self.phase = ConnPhase::Closed;
        ConnAsk::Close
    }

    fn write(&mut self, text: String) -> (ask: ConnAsk)
        ensures
            (final(self)@, ask@) == writes(old(self)@, text@),
    {
        self.phase = ConnPhase::Writing;
        ConnAsk::Write(text)
    }

    fn take_line(&mut self, line: Vec<u8>) -> (ask: ConnAsk)
        ensures
            (final(self)@, ask@) == on_line(old(self)@, line@),
    {
        match subscription_id(&line) {
            Some(id) => {
                if self.subscribed {
                    self.write(encode_response(id.as_str(), subscribe_events_ack(true)))
                } else {
                    self.phase = ConnPhase::Registering { id };
                    ConnAsk::Register
                }
            },
            None => {
                self.phase = ConnPhase::Dispatching;
                ConnAsk::Dispatch(line)
            },
        }
    }

    fn take_bytes(&mut self, bytes: &Vec<u8>) -> (ask: ConnAsk)
        ensures
            (final(self)@, ask@) == on_bytes(old(self)@, bytes@),
    {
        let ghost before = self.raw@;
        let mut i: usize = 0;
        while i < bytes.len()
            invariant
                i <= bytes@.len(),
                self.raw@ == before + bytes@.take(i as int),
                self.subscribed == old(self).subscribed,
                self.phase == old(self).phase,
            decreases bytes@.len() - i,
        {
            self.raw.push(bytes[i]);
            proof {
                assert(self.raw@ =~= before + bytes@.take(i + 1));
            }
            i += 1;
        }
        proof {
            assert(bytes@.take(i as int) =~= bytes@);
        }
        let n: usize = self.raw.len();
        if n > 0 && self.raw[n - 1] == 10 {
            let mut line: Vec<u8> = Vec::new();
            std::mem::swap(&mut line, &mut self.raw);
            proof {
                assert(self.raw@ =~= Seq::<u8>::empty());
            }
            self.take_line(line)
        } else if n > MAX_LINE_BYTES {
            self.close()
        } else {
            self.read_on()
        }
    }

    /// What to ask for first.
    pub fn start(&mut self) -> (ask: ConnAsk)
        ensures
            (final(self)@, ask@) == reads_on(old(self)@),
    {
        self.read_on()
    }

    /// Take an event and say what is to be done next.
    pub fn step(&mut self, e: ConnEvent) -> (ask: ConnAsk)
        ensures
            (final(self)@, ask@) == conn_step(old(self)@, e),
    {
        let mut phase: ConnPhase = ConnPhase::Closed;
        std::mem::swap(&mut phase, &mut self.phase);
        match (phase, e) {
            (ConnPhase::Reading, ConnEvent::Read(bytes)) => {
                self.phase = ConnPhase::Reading;
                if bytes.len() == 0 {
                    self.close()
                } else {
                    self.take_bytes(&bytes)
                }
            },
            (ConnPhase::Reading, ConnEvent::Timeout) => self.read_on(),
            (ConnPhase::Registering { id }, ConnEvent::Registered(ok)) => {
                self.subscribed = ok;
                self.write(encode_response(id.as_str(), subscribe_events_ack(ok)))
            },
            (ConnPhase::Dispatching, ConnEvent::Answer(text)) => self.write(text),
            (ConnPhase::Dispatching, ConnEvent::Panicked) => {
                proof {
                    reveal_strlit("");
                    assert(""@ =~= Seq::<char>::empty());
                }
                self.write(encode_error("", "internal_error", "internal error"))
            },
            (ConnPhase::Writing, ConnEvent::Written) => self.read_on(),
            _ => self.close(),
        }
    }
}

/// While a connection is open, what it holds of a line never exceeds the limit,
/// as long as it gets no more bytes than it asked for.
pub proof fn law_a_line_never_grows_beyond_the_limit(c: ConnView, e: ConnEvent)
    requires
        c.raw.len() <= MAX_LINE_BYTES,
        e matches ConnEvent::Read(bytes) ==> bytes@.len() <= line_budget(c.raw.len()),
    ensures
        ({
            let (next, ask) = conn_step(c, e);
            &&& next.raw.len() <= MAX_LINE_BYTES + 1
            &&& !(ask is Close) ==> next.raw.len() <= MAX_LINE_BYTES
            &&& ask matches ConnAskView::Dispatch(line) ==> line.len() <= MAX_LINE_BYTES + 1
        }),
{
}

/// A client that keeps a line waiting loses nothing of it.
pub proof fn law_a_timeout_keeps_the_line(c: ConnView)
    requires
        c.phase is Reading,
    ensures
        conn_step(c, ConnEvent::Timeout).0 == c,
{
}

/// A line that comes in parts is the same line.
pub proof fn law_parts_make_the_line(c: ConnView, a: Vec<u8>, b: Vec<u8>, whole: Vec<u8>)
    requires
        c.phase is Reading,
        a@.len() > 0,
        b@.len() > 0,
        whole@ == a@ + b@,
        a@.last() != 10,
        c.raw.len() + a@.len() <= MAX_LINE_BYTES,
    ensures
        conn_step(conn_step(c, ConnEvent::Read(a)).0, ConnEvent::Read(b)) == conn_step(
            c,
            ConnEvent::Read(whole),
        ),
{
    assert((c.raw + a@).last() == a@.last());
    assert(c.raw + a@ + b@ =~= c.raw + whole@);
}

/// A client that subscribed is registered once: no second registration is asked
/// for on its connection.
pub proof fn law_a_connection_subscribes_once(c: ConnView, e: ConnEvent)
    requires
        c.subscribed,
        !(c.phase is Registering),
    ensures
        !(conn_step(c, e).1 is Register),
        conn_step(c, e).0.subscribed,
        !(conn_step(c, e).0.phase is Registering),
{
}

/// A daemon with a socket of its own that may start touches neither the user's
/// configuration nor the user's credential store.
pub proof fn law_a_trial_daemon_is_isolated(s: Surroundings)
    requires
        s.sock is Some,
        start_refusal(s) is None,
    ensures
        !same_path(s.config_dir@, real_config(s)),
        s.keychain_disabled || opt_text(s.vault) == Some("file"@),
{
}

/// Where the boot stands: what it waits for.
#[derive(Debug, Clone, Copy, PartialEq, Eq, Structural)]
pub enum BootPhase {
    /// The lock that keeps a second daemon from running.
    Locking,
    /// The socket.
    Binding,
    /// The move of old credentials into the credential store.
    Migrating,
    /// The storing of what the move left of the old file.
    Committing,
    /// The records.
    Loading,
    /// Where the connections of each host are.
    Resolving,
    /// The end of connections that belong to no host.
    Sweeping,
    /// The end of forwards that an earlier daemon left.
    Reaping,
    /// The start of what runs beside the requests.
    Starting,
    /// Nothing more.
    Over,
}

/// How the move of old credentials ended.
#[derive(Debug, Clone, Copy, PartialEq, Eq, Structural)]
pub enum MigrationEnd {
    /// All were moved; what is left of the old file is to be stored.
    Moved,
    /// There was nothing to move.
    Nothing,
    /// It failed.
    Failed,
    /// It took too long. Nothing may be stored, as it may still run.
    TimedOut,
    /// It could not be begun.
    NotStarted,
}

/// What came of an ask.
#[derive(Debug)]
pub enum BootEvent {
    /// The lock was taken, or is held by another daemon.
    Locked(bool),
    /// The move of old credentials has ended.
    Migrated(MigrationEnd),
    /// Of each host where its connections are, and whether that is certain.
    Resolved(Vec<(String, bool)>),
    /// It was done.
    Done,
}

/// What is to be done next.
#[derive(Debug, PartialEq)]
pub enum BootAsk {
    /// Take the lock.
    Lock { path: String },
    /// Remove a socket that is left over, and listen.
    Bind { path: String },
    /// Move old credentials into the credential store.
    Migrate,
    /// Store what the move left of the old file.
    Commit,
    /// Load the records.
    Load,
    /// Find out where the connections of each host are.
    Resolve { hosts: Vec<String> },
    /// End the connections that are at none of these places.
    SweepStrays { bases: Vec<String> },
    /// End the forwards of an earlier daemon on these ports.
    ReapForwards { ports: Vec<u16> },
    /// Start what runs beside the requests.
    Start,
    /// Serve requests.
    Serve,
    /// Leave: another daemon runs.
    Exit,
}

/// What an ask says.
#[verifier::ext_equal]
pub enum BootAskView {
    Lock { path: Seq<char> },
    Bind { path: Seq<char> },
    Migrate,
    Commit,
    Load,
    Resolve { hosts: Seq<Seq<char>> },
    SweepStrays { bases: Seq<Seq<char>> },
    ReapForwards { ports: Seq<u16> },
    Start,
    Serve,
    Exit,
}

impl View for BootAsk {
    type V = BootAskView;

    open spec fn view(&self) -> BootAskView {
        match self {
            BootAsk::Lock { path } => BootAskView::Lock { path: path@ },
            BootAsk::Bind { path } => BootAskView::Bind { path: path@ },
            BootAsk::Migrate => BootAskView::Migrate,
            BootAsk::Commit => BootAskView::Commit,
            BootAsk::Load => BootAskView::Load,
            BootAsk::Resolve { hosts } => BootAskView::Resolve { hosts: texts(hosts@) },
            BootAsk::SweepStrays { bases } => BootAskView::SweepStrays { bases: texts(bases@) },
            BootAsk::ReapForwards { ports } => BootAskView::ReapForwards { ports: ports@ },
            BootAsk::Start => BootAskView::Start,
            BootAsk::Serve => BootAskView::Serve,
            BootAsk::Exit => BootAskView::Exit,
        }
    }
}

/// The boot of the daemon.
#[derive(Debug)]
pub struct Boot {
    sock: String,
    phase: BootPhase,
}

/// What a boot says.
#[verifier::ext_equal]
pub struct BootView {
    pub sock: Seq<char>,
    pub phase: BootPhase,
}

impl View for Boot {
    type V = BootView;

    closed spec fn view(&self) -> BootView {
        BootView { sock: self.sock@, phase: self.phase }
    }
}

/// The places in a list of places.
pub open spec fn bases_of(s: Seq<(String, bool)>) -> Seq<Seq<char>> {
    s.map_values(|p: (String, bool)| p.0@)
}

/// Whether every place in a list of places is certain.
pub open spec fn all_certain(s: Seq<(String, bool)>) -> bool {
    forall|i: int| 0 <= i < s.len() ==> (#[trigger] s[i]).1
}

/// The local ports of the tunnels, in order.
pub open spec fn forward_ports(st: StateView) -> Seq<u16> {
    local_ports(st.tunnels)
}

/// Whether an event is the one that is waited for.
pub open spec fn boot_awaits(phase: BootPhase, e: BootEvent) -> bool {
    match phase {
        BootPhase::Locking => e is Locked,
        BootPhase::Migrating => e is Migrated,
        BootPhase::Resolving => e is Resolved,
        BootPhase::Over => false,
        _ => e is Done,
    }
}

/// The step on an event that is waited for. `st` are the records as far as they
/// are loaded. Connections are ended only where it is certain of every host where
/// its own are.
pub open spec fn boot_step(b: BootView, st: StateView, e: BootEvent) -> (BootPhase, BootAskView) {
    match (b.phase, e) {
        (BootPhase::Locking, BootEvent::Locked(true)) => (
            BootPhase::Binding,
            BootAskView::Bind { path: b.sock },
        ),
        (BootPhase::Locking, _) => (BootPhase::Over, BootAskView::Exit),
        (BootPhase::Binding, _) => (BootPhase::Migrating, BootAskView::Migrate),
        (BootPhase::Migrating, BootEvent::Migrated(MigrationEnd::Moved)) => (
            BootPhase::Committing,
            BootAskView::Commit,
        ),
        (BootPhase::Migrating, _) => (BootPhase::Loading, BootAskView::Load),
        (BootPhase::Committing, _) => (BootPhase::Loading, BootAskView::Load),
        (BootPhase::Loading, _) => (
            BootPhase::Resolving,
            BootAskView::Resolve { hosts: host_names(st.hosts) },
        ),
        (BootPhase::Resolving, BootEvent::Resolved(places)) => if all_certain(places@) {
            (BootPhase::Sweeping, BootAskView::SweepStrays { bases: bases_of(places@) })
        } else {
            (BootPhase::Reaping, BootAskView::ReapForwards { ports: forward_ports(st) })
        },
        (BootPhase::Resolving, _) => (BootPhase::Over, BootAskView::Exit),
        (BootPhase::Sweeping, _) => (
            BootPhase::Reaping,
            BootAskView::ReapForwards { ports: forward_ports(st) },
        ),
        (BootPhase::Reaping, _) => (BootPhase::Starting, BootAskView::Start),
        (BootPhase::Starting, _) => (BootPhase::Over, BootAskView::Serve),
        (BootPhase::Over, _) => (BootPhase::Over, BootAskView::Exit),
    }
}

fn names_of_hosts(state: &State) -> (r: Vec<String>)
    ensures
        texts(r@) == host_names(state@.hosts),
{
    let ghost all = host_names(state@.hosts);
    let mut r: Vec<String> = Vec::new();
    let mut i: usize = 0;
    while i < state.hosts.len()
        invariant
            all == host_names(state@.hosts),
            i <= state.hosts@.len(),
            texts(r@) == all.take(i as int),
        decreases state.hosts@.len() - i,
    {
        let ghost before = texts(r@);
        let name: String = state.hosts[i].host.clone();
        r.push(name);
        proof {
            assert(all[i as int] == state.hosts@[i as int].host@);
            assert(texts(r@) =~= before.push(name@));
            assert(texts(r@) =~= all.take(i + 1));
        }
        i += 1;
    }
    proof {
        assert(all.take(i as int) =~= all);
    }
    r
}

fn ports_of_forwards(state: &State) -> (r: Vec<u16>)
    ensures
        r@ == forward_ports(state@),
{
    let ghost all = forward_ports(state@);
    let mut r: Vec<u16> = Vec::new();
    let mut i: usize = 0;
    while i < state.tunnels.len()
        invariant
            all == forward_ports(state@),
            i <= state.tunnels@.len(),
            r@ == all.take(i as int),
        decreases state.tunnels@.len() - i,
    {
        r.push(state.tunnels[i].local_port);
        proof {
            assert(all[i as int] == state.tunnels@[i as int].local_port);
            assert(r@ =~= all.take(i + 1));
        }
        i += 1;
    }
    proof {
        assert(all.take(i as int) =~= all);
    }
    r
}

/// The places of all hosts, where every one is certain.
fn certain_bases(places: &Vec<(String, bool)>) -> (r: Option<Vec<String>>)
    ensures
        match r {
            Some(bases) => all_certain(places@) && texts(bases@) == bases_of(places@),
            None => !all_certain(places@),
        },
{
    let ghost all = bases_of(places@);
    let mut r: Vec<String> = Vec::new();
    let mut i: usize = 0;
    while i < places.len()
        invariant
            all == bases_of(places@),
            i <= places@.len(),
            texts(r@) == all.take(i as int),
            forall|j: int| 0 <= j < i ==> (#[trigger] places@[j]).1,
        decreases places@.len() - i,
    {
        if !places[i].1 {
            proof {
                assert(!places@[i as int].1);
            }
            return None;
        }
        let ghost before = texts(r@);
        let base: String = places[i].0.clone();
        r.push(base);
        proof {
            assert(all[i as int] == places@[i as int].0@);
            assert(texts(r@) =~= before.push(base@));
            assert(texts(r@) =~= all.take(i + 1));
        }
        i += 1;
    }
    proof {
        assert(all.take(i as int) =~= all);
    }
    Some(r)
}

impl Boot {
    /// Begin the boot, unless the daemon must not start in these surroundings.
    pub fn new(s: &Surroundings) -> (r: Result<(Boot, BootAsk), String>)
        ensures
            match r {
                Ok((b, ask)) => {
                    &&& start_refusal(*s) is None
                    &&& b@ == (BootView {
                        sock: own_file(opt_text(s.sock), opt_text(s.home), "ssh2fa.sock"@),
                        phase: BootPhase::Locking,
                    })
                    &&& ask@ == BootAskView::Lock {
                        path: own_file(opt_text(s.lock), opt_text(s.home), "lock"@),
                    }
                },
                Err(e) => start_refusal(*s) == Some(e@),
            },
    {
        match guard_test_isolation(s) {
            Ok(_) => {
                let sock: String = socket_path(&s.sock, &s.home);
                let path: String = lock_path(&s.lock, &s.home);
                Ok((Boot { sock, phase: BootPhase::Locking }, BootAsk::Lock { path }))
            },
            Err(e) => Err(e),
        }
    }

    /// Take the event that is waited for and say what is to be done next.
    pub fn step(&mut self, e: BootEvent, state: &State) -> (ask: BootAsk)
        requires
            boot_awaits(old(self)@.phase, e),
        ensures
            (final(self)@.phase, ask@) == boot_step(old(self)@, state@, e),
            final(self)@.sock == old(self)@.sock,
    {
        let (phase, ask): (BootPhase, BootAsk) = match (self.phase, e) {
            (BootPhase::Locking, BootEvent::Locked(true)) => (
                BootPhase::Binding,
                BootAsk::Bind { path: self.sock.clone() },
            ),
            (BootPhase::Locking, _) => (BootPhase::Over, BootAsk::Exit),
            (BootPhase::Binding, _) => (BootPhase::Migrating, BootAsk::Migrate),
            (BootPhase::Migrating, BootEvent::Migrated(MigrationEnd::Moved)) => (
                BootPhase::Committing,
                BootAsk::Commit,
            ),
            (BootPhase::Migrating, _) => (BootPhase::Loading, BootAsk::Load),
            (BootPhase::Committing, _) => (BootPhase::Loading, BootAsk::Load),
            (BootPhase::Loading, _) => (
                BootPhase::Resolving,
                BootAsk::Resolve { hosts: names_of_hosts(state) },
            ),
            (BootPhase::Resolving, BootEvent::Resolved(places)) => match certain_bases(&places) {
                Some(bases) => (BootPhase::Sweeping, BootAsk::SweepStrays { bases }),
                None => (
                    BootPhase::Reaping,
                    BootAsk::ReapForwards { ports: ports_of_forwards(state) },
                ),
            },
            (BootPhase::Resolving, _) => (BootPhase::Over, BootAsk::Exit),
            (BootPhase::Sweeping, _) => (
                BootPhase::Reaping,
                BootAsk::ReapForwards { ports: ports_of_forwards(state) },
            ),
            (BootPhase::Reaping, _) => (BootPhase::Starting, BootAsk::Start),
            (BootPhase::Starting, _) => (BootPhase::Over, BootAsk::Serve),
            (BootPhase::Over, _) => (BootPhase::Over, BootAsk::Exit),
        };
        self.phase = phase;
        ask
    }
}

/// Where the place of one host is not certain, no connection is ended at boot.
pub proof fn law_strays_are_swept_only_when_certain(b: BootView, st: StateView, e: BootEvent)
    requires
        boot_awaits(b.phase, e),
    ensures
        boot_step(b, st, e).1 is SweepStrays ==> (e matches BootEvent::Resolved(places)
            && all_certain(places@)),
{
}

/// A daemon that does not get the lock leaves at once.
pub proof fn law_a_second_daemon_leaves(b: BootView, st: StateView)
    requires
        b.phase == BootPhase::Locking,
    ensures
        boot_step(b, st, BootEvent::Locked(false)) == (BootPhase::Over, BootAskView::Exit),
{
}

/// The old file is replaced only once all credentials were moved.
pub proof fn law_the_old_file_stays_until_all_is_moved(b: BootView, st: StateView, e: BootEvent)
    requires
        boot_awaits(b.phase, e),
    ensures
        boot_step(b, st, e).1 is Commit ==> (e matches BootEvent::Migrated(m) && m
            == MigrationEnd::Moved),
{
}

/// A file of the daemon is the one that was given, and else the one of its name in the
/// folder of the daemon in the home folder.
pub proof fn law_a_given_file_is_used(
    given: Seq<char>,
    home: Seq<char>,
    name: Seq<char>,
)
    requires
        home.len() > 0,
        home.last() != '/',
        name.len() > 0,
        name[0] != '/',
    ensures
        own_file(Some(given), Some(home), name) == given,
        own_file(None, Some(home), name) == home + seq!['/'] + ".ssh2fa"@ + seq!['/'] + name,
{
    reveal_strlit(".ssh2fa");
    assert(".ssh2fa"@.len() == 7 && ".ssh2fa"@[0] == '.' && ".ssh2fa"@[6] == 'a');
    let dir = home + seq!['/'] + ".ssh2fa"@;
    assert(dir.last() == 'a');
}

/// The daemon with the usual socket may start. One with a socket of its own may exactly
/// where its configuration is not the user's, and the credential store is off or a file.
pub proof fn law_when_a_daemon_may_start(s: Surroundings)
    ensures
        s.sock is None ==> start_refusal(s) is None,
        s.sock is Some ==> (start_refusal(s) is None <==> !same_path(
            s.config_dir@,
            joined(
                match s.home {
                    Some(h) => h@,
                    None => "/tmp"@,
                },
                ".ssh"@,
            ),
        ) && (s.keychain_disabled || (s.vault matches Some(v) && v@ == "file"@))),
{
}

/// A whole line is answered as it came: its bytes are handed on, what was read before
/// them first, and nothing of them is kept. Bytes without a line feed are kept for the
/// rest of the line. The answer is what is written, and after it the next line is read.
pub proof fn law_a_line_is_answered_as_it_came(c: ConnView, bytes: Vec<u8>, answer: String)
    requires
        c.phase is Reading,
        bytes@.len() > 0,
    ensures
        ({
            let raw = c.raw + bytes@;
            let (next, ask) = conn_step(c, ConnEvent::Read(bytes));
            &&& bytes@.last() == 10 ==> next.raw.len() == 0
            &&& bytes@.last() == 10 && subscription(raw) is None ==> ask == ConnAskView::Dispatch(
                raw,
            ) && conn_step(next, ConnEvent::Answer(answer)).1 == ConnAskView::Write(answer@)
                && conn_step(
                conn_step(next, ConnEvent::Answer(answer)).0,
                ConnEvent::Written,
            ).1 is Read
            &&& bytes@.last() == 10 && subscription(raw) is Some && !c.subscribed
                ==> ask is Register
            &&& bytes@.last() == 10 && subscription(raw) is Some && c.subscribed ==> ask is Write
            &&& bytes@.last() != 10 && raw.len() <= 1_048_576 ==> {
                &&& next.raw == raw
                &&& next.phase is Reading
                &&& ask == ConnAskView::Read { budget: (1_048_577 - raw.len()) as nat }
            }
            &&& bytes@.last() != 10 && raw.len() > 1_048_576 ==> ask is Close
            &&& next.subscribed == c.subscribed
        }),
{
    assert((c.raw + bytes@).last() == bytes@.last());
}

/// A client is subscribed exactly where its registration worked, and is told so. A
/// connection that breaks, or whose client is gone, is closed.
pub proof fn law_a_subscription_is_acknowledged(c: ConnView, id: Seq<char>, ok: bool)
    requires
        c.phase == (ConnPhaseView::Registering { id }),
    ensures
        ({
            let (next, ask) = conn_step(c, ConnEvent::Registered(ok));
            &&& next.subscribed == ok
            &&& ask == ConnAskView::Write(wire(response_json(id, subscribed_json(ok))))
            &&& bool_at(subscribed_json(ok), "subscribed"@) == Some(ok)
        }),
        conn_step(c, ConnEvent::Eof).1 is Close,
        conn_step(c, ConnEvent::Failed).1 is Close,
        conn_step(ConnView { phase: ConnPhaseView::Reading, ..c }, ConnEvent::Eof).1 is Close,
        conn_step(ConnView { phase: ConnPhaseView::Reading, ..c }, ConnEvent::Failed).1 is Close,
{
}

/// The daemon boots in order: the lock, the socket, the move of old credentials, the
/// records, the places of the connections of all hosts, the strays where all places are
/// certain, the forwards of an earlier daemon on the ports of all tunnels, what runs
/// beside the requests, and only then the requests.
pub proof fn law_the_boot_goes_in_order(
    b: BootView,
    st: StateView,
    places: Vec<(String, bool)>,
    end: MigrationEnd,
)
    ensures
        b.phase == BootPhase::Locking ==> boot_step(b, st, BootEvent::Locked(true)) == (
            BootPhase::Binding,
            BootAskView::Bind { path: b.sock },
        ),
        b.phase == BootPhase::Binding ==> boot_step(b, st, BootEvent::Done).1 is Migrate,
        b.phase == BootPhase::Migrating ==> boot_step(b, st, BootEvent::Migrated(end)).1 == (if end
            == MigrationEnd::Moved {
            BootAskView::Commit
        } else {
            BootAskView::Load
        }),
        b.phase == BootPhase::Committing ==> boot_step(b, st, BootEvent::Done).1 is Load,
        b.phase == BootPhase::Loading ==> (boot_step(b, st, BootEvent::Done).1 matches
            BootAskView::Resolve { hosts } && hosts.len() == st.hosts.len() && forall|i: int|
            0 <= i < st.hosts.len() ==> #[trigger] hosts[i] == st.hosts[i].host),
        b.phase == BootPhase::Resolving && (forall|i: int|
            0 <= i < places@.len() ==> (#[trigger] places@[i]).1) ==> (boot_step(
            b,
            st,
            BootEvent::Resolved(places),
        ).1 matches BootAskView::SweepStrays { bases } && bases.len() == places@.len() && forall|
            i: int,
        |
            0 <= i < places@.len() ==> #[trigger] bases[i] == places@[i].0@),
        b.phase == BootPhase::Sweeping || (b.phase == BootPhase::Resolving && exists|i: int|
            0 <= i < places@.len() && !(#[trigger] places@[i]).1) ==> (boot_step(
            b,
            st,
            if b.phase == BootPhase::Sweeping {
                BootEvent::Done
            } else {
                BootEvent::Resolved(places)
            },
        ).1 matches BootAskView::ReapForwards { ports } && ports.len() == st.tunnels.len()
            && forall|i: int|
            0 <= i < st.tunnels.len() ==> #[trigger] ports[i] == st.tunnels[i].local_port),
        b.phase == BootPhase::Reaping ==> boot_step(b, st, BootEvent::Done).1 is Start,
        b.phase == BootPhase::Starting ==> boot_step(b, st, BootEvent::Done).1 is Serve,
        forall|e: BootEvent| #[trigger]
            boot_step(b, st, e).1 is Serve ==> b.phase == BootPhase::Starting,
{
}

/// A line is a subscription exactly where it is an object whose method is that of the
/// subscription; the id is the one it holds.
pub proof fn law_what_a_subscription_is(line: Seq<u8>, m: Map<Seq<char>, JsonView>)
    requires
        line_object(line) == Ok::<_, Seq<char>>(JsonView::Obj(m)),
    ensures
        m.contains_key("method"@) && m["method"@] == JsonView::Str("subscribe_events"@) ==> {
            &&& subscription(line) is Some
            &&& m.contains_key("id"@) && m["id"@] is Str ==> subscription(line) == Some(
                m["id"@]->Str_0,
            )
        },
        m.contains_key("method"@) && m["method"@] == JsonView::Str("tunnel_stop"@)
            ==> subscription(line) is None,
        !m.contains_key("method"@) ==> subscription(line) is None,
{
    law_methods_go_by_their_names();
}

/// A connection that closes is closed for good; one that reads waits for bytes, one
/// that writes for the end of that, after which it reads on. Only a registration
/// changes whether events are sent.
pub proof fn law_a_connection_goes_on_or_ends(c: ConnView, e: ConnEvent)
    ensures
        ({
            let (c1, ask) = conn_step(c, e);
            &&& ask is Close <==> c1.phase is Closed
            &&& ask is Read <==> c1.phase is Reading
            &&& ask is Write <==> c1.phase is Writing
            &&& ask is Dispatch <==> c1.phase is Dispatching
            &&& ask is Register <==> c1.phase is Registering
            &&& c.phase is Closed ==> ask is Close
            &&& c.phase is Reading && e is Timeout ==> ask is Read && c1.raw == c.raw
            &&& c.phase is Reading && (e matches ConnEvent::Read(b) && b@.len() == 0) ==> ask is Close
            &&& c.phase is Writing && e is Written ==> ask is Read && c1.raw == c.raw
            &&& c.phase is Writing && !(e is Written) ==> ask is Close
            &&& !(c.phase is Registering) ==> c1.subscribed == c.subscribed
            &&& c.phase is Registering ==> (e matches ConnEvent::Registered(ok) ==> c1.subscribed
                == ok)
        }),
{
}

/// A connection that has its events asks for no second registration: another
/// subscription is acknowledged at once, under the id of the request. One that has none
/// registers first.
pub proof fn law_a_second_subscription_is_acknowledged(c: ConnView, line: Seq<u8>)
    requires
        subscription(line) is Some,
    ensures
        c.subscribed ==> on_line(c, line).1 == ConnAskView::Write(
            wire(response_json(subscription(line)->Some_0, subscribed_json(true))),
        ) && on_line(c, line).0.subscribed,
        !c.subscribed ==> on_line(c, line).1 is Register && on_line(c, line).0.phase == (
        ConnPhaseView::Registering { id: subscription(line)->Some_0 }),
{
}

/// What is read of a line and what may still be read of it make one byte more than the
/// most that a line may hold; past that, nothing may be read.
pub proof fn law_how_much_of_a_line_is_read(n: nat)
    ensures
        n <= 1_048_576 ==> n + line_budget(n) == 1_048_577,
        n > 1_048_576 ==> line_budget(n) == 0,
{
}

} // verus!
