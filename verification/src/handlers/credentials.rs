//! Requests about stored credentials: testing, showing and changing them.
use crate::handlers::hosts::{
    host_named, host_of, host_param, named_host, no_host, opt_bool, opt_bool_of, opt_str,
    opt_str_of, require_host, safe_host, secret_view, text_or_empty, text_result, valid_host_name,
};
use crate::json::{Fields, Json, JsonView, bool_at, field, opt_json, str_at, texts_json, uint_at};
use crate::latch::Latch;
use crate::managers::{CredsCache, invalidate_creds_cache};
use crate::model::{
    Error, ErrorView, State, StateView, error_text, host_at, host_names,
    law_a_name_addresses_the_first_host,
};
use crate::text::{cat2, cat3, cat4, copy_texts, opt_text, texts, trim, trimmed};
use vstd::prelude::*;

verus! {

/// Which credentials a trial login uses.
#[derive(Debug, PartialEq)]
pub enum CredsUnderTest {
    /// Those stored for the host.
    Stored,
    /// Those given; an empty address stands for a login without codes.
    Supplied { password: String, otpauth_url: String },
}

/// What a choice of credentials says.
#[verifier::ext_equal]
pub enum CredsView {
    Stored,
    Supplied { password: Seq<char>, otpauth_url: Seq<char> },
}

impl View for CredsUnderTest {
    type V = CredsView;

    open spec fn view(&self) -> CredsView {
        match self {
            CredsUnderTest::Stored => CredsView::Stored,
            CredsUnderTest::Supplied { password, otpauth_url } => CredsView::Supplied {
                password: password@,
                otpauth_url: otpauth_url@,
            },
        }
    }
}

/// Which credentials a request has tested: both given, or neither. One alone is
/// refused.
pub open spec fn chosen_creds(params: JsonView) -> Result<CredsView, Seq<char>> {
    match (str_at(params, "password"@), str_at(params, "otpauth_url"@)) {
        (None, None) => Ok(CredsView::Stored),
        (Some(password), Some(otpauth_url)) => Ok(CredsView::Supplied { password, otpauth_url }),
        _ => Err(
            "send both 'password' and 'otpauth_url' (use \"\" for a host with no 2FA), or neither to test the stored credentials"@,
        ),
    }
}

/// What a choice of credentials or its refusal says.
pub open spec fn choice_result(r: Result<CredsUnderTest, String>) -> Result<CredsView, Seq<char>> {
    match r {
        Ok(c) => Ok(c@),
        Err(e) => Err(e@),
    }
}

/// Which credentials a request has tested.
pub fn creds_under_test(params: &Json) -> (r: Result<CredsUnderTest, String>)
    ensures
        choice_result(r) == chosen_creds(params@),
{
    match (params.str_at("password"), params.str_at("otpauth_url")) {
        (None, None) => Ok(CredsUnderTest::Stored),
        (Some(password), Some(otpauth_url)) => Ok(
            CredsUnderTest::Supplied { password, otpauth_url },
        ),
        _ => Err(
            "send both 'password' and 'otpauth_url' (use \"\" for a host with no 2FA), or neither to test the stored credentials".to_owned(),
        ),
    }
}

/// The outcome of a trial login in a reply.
pub open spec fn test_json(ok: bool, reason: Seq<char>) -> JsonView {
    JsonView::Obj(
        Map::empty().insert("ok"@, JsonView::Bool(ok)).insert("reason"@, JsonView::Str(reason)),
    )
}

/// The outcome of a trial login in a reply.
pub fn test_reply(ok: bool, reason: &str) -> (j: Json)
    ensures
        j@ == test_json(ok, reason@),
{
    let mut f: Fields = Fields::new();
    f.put("ok", Json::Bool(ok));
    f.put("reason", Json::text(reason));
    f.done()
}

/// A trial login to be made.
#[derive(Debug, PartialEq)]
pub struct TestPlan {
    pub host: String,
    pub creds: CredsUnderTest,
}

/// What a trial login needs, or why there is none.
pub open spec fn test_plan(params: JsonView) -> Result<(Seq<char>, CredsView), Seq<char>> {
    let host = text_or_empty(params, "host"@);
    if host.len() == 0 {
        Err("host required"@)
    } else if !safe_host(host) {
        Err("invalid host name (use letters/digits/._- , not starting with '-' or '.')"@)
    } else {
        match chosen_creds(params) {
            Ok(creds) => Ok((host, creds)),
            Err(reason) => Err(reason),
        }
    }
}

/// Plan a trial login. Where there is none, the error is the reply.
pub fn host_test_credentials(params: &Json) -> (r: Result<TestPlan, Json>)
    ensures
        match r {
            Ok(p) => test_plan(params@) == Ok::<_, Seq<char>>((p.host@, p.creds@)),
            Err(j) => test_plan(params@) is Err && j@ == test_json(
                false,
                test_plan(params@)->Err_0,
            ),
        },
{
    let host: String = match params.str_at("host") {
        Some(host) => host,
        None => return Err(test_reply(false, "host required")),
    };
    if host.as_str().unicode_len() == 0 {
        return Err(test_reply(false, "host required"));
    }
    if !valid_host_name(host.as_str()) {
        return Err(
            test_reply(
                false,
                "invalid host name (use letters/digits/._- , not starting with '-' or '.')",
            ),
        );
    }
    match creds_under_test(params) {
        Ok(creds) => Ok(TestPlan { host, creds }),
        Err(reason) => Err(test_reply(false, reason.as_str())),
    }
}

/// The stored credentials to test, as they were read. Where nothing is stored,
/// or the read failed, the error is the reply.
pub fn stored_under_test(host: &str, read: Result<(String, String), Error>) -> (r: Result<
    (String, String),
    Json,
>)
    ensures
        match read {
            Ok(c) => if c.0@.len() > 0 || trimmed(c.1@).len() > 0 {
                r is Ok && r->Ok_0.0@ == c.0@ && r->Ok_0.1@ == c.1@
            } else {
                r is Err && r->Err_0@ == test_json(
                    false,
                    "no credentials stored for "@ + host@,
                )
            },
            Err(e) => r is Err && r->Err_0@ == test_json(false, error_text(e@)),
        },
{
    match read {
        Ok((password, otpauth)) => {
            if password.as_str().unicode_len() > 0 || trim(otpauth.as_str()).as_str().unicode_len()
                > 0 {
                Ok((password, otpauth))
            } else {
                Err(test_reply(false, cat2("no credentials stored for ", host).as_str()))
            }
        },
        Err(e) => Err(test_reply(false, e.text().as_str())),
    }
}

/// The code secret to test with. An empty address means that logins need no code;
/// else `secret` is what reading the address gave. Where it cannot be read, the
/// error is the reply.
pub fn secret_under_test(otpauth_url: &str, secret: Result<String, String>) -> (r: Result<
    String,
    Json,
>)
    ensures
        if trimmed(otpauth_url@).len() == 0 {
            r is Ok && r->Ok_0@.len() == 0
        } else {
            match secret_view(secret) {
                Ok(s) => r is Ok && r->Ok_0@ == s,
                Err(e) => r is Err && r->Err_0@ == test_json(
                    false,
                    "invalid otpauth URL: "@ + e,
                ),
            }
        },
{
    if trim(otpauth_url).as_str().unicode_len() == 0 {
        proof {
            reveal_strlit("");
        }
        return Ok("".to_owned());
    }
    match secret {
        Ok(s) => Ok(s),
        Err(e) => Err(test_reply(false, cat2("invalid otpauth URL: ", e.as_str()).as_str())),
    }
}

/// The arguments of a trial login. No connection of the pool is reused, so the
/// credentials themselves are tried.
pub open spec fn test_args(
    managed: Seq<Seq<char>>,
    log_path: Seq<char>,
    host: Seq<char>,
    marker: Seq<char>,
) -> Seq<Seq<char>> {
    managed + seq![
        "-v"@,
        "-E"@,
        log_path,
        "-o"@,
        "StrictHostKeyChecking=no"@,
        "-o"@,
        "UserKnownHostsFile=/dev/null"@,
        "-o"@,
        "ConnectTimeout=10"@,
        "-o"@,
        "PreferredAuthentications=keyboard-interactive,password"@,
        "-o"@,
        "ControlMaster=no"@,
        "-o"@,
        "ControlPath=none"@,
        host,
        "echo"@,
        marker,
    ]
}

fn push_text(v: &mut Vec<String>, s: &str)
    ensures
        texts(final(v)@) == texts(old(v)@).push(s@),
{
    v.push(s.to_owned());
    proof {
        assert(texts(v@) =~= texts(old(v)@).push(s@));
    }
}

/// The arguments of a trial login.
pub fn test_login_args(managed: &Vec<String>, log_path: &str, host: &str, marker: &str) -> (r: Vec<
    String,
>)
    ensures
        texts(r@) == test_args(texts(managed@), log_path@, host@, marker@),
{
    let mut v: Vec<String> = copy_texts(managed);
    push_text(&mut v, "-v");
    push_text(&mut v, "-E");
    push_text(&mut v, log_path);
    push_text(&mut v, "-o");
    push_text(&mut v, "StrictHostKeyChecking=no");
    push_text(&mut v, "-o");
    push_text(&mut v, "UserKnownHostsFile=/dev/null");
    push_text(&mut v, "-o");
    push_text(&mut v, "ConnectTimeout=10");
    push_text(&mut v, "-o");
    push_text(&mut v, "PreferredAuthentications=keyboard-interactive,password");
    push_text(&mut v, "-o");
    push_text(&mut v, "ControlMaster=no");
    push_text(&mut v, "-o");
    push_text(&mut v, "ControlPath=none");
    push_text(&mut v, host);
    push_text(&mut v, "echo");
    push_text(&mut v, marker);
    proof {
        assert(texts(v@) =~= test_args(texts(managed@), log_path@, host@, marker@));
    }
    v
}

/// What is said of a trial login that ran out of time: nothing was heard, or the
/// last that was.
pub open spec fn silence_text(output: Seq<char>, ssh_log: Seq<char>, last: Seq<char>) -> Seq<char> {
    if trimmed(output).len() == 0 && trimmed(ssh_log).len() == 0 {
        "Connection timed out"@
    } else {
        "Login timed out; last SSH message: "@ + last
    }
}

fn timeout_detail(output: &str, ssh_log: &str, last: &str) -> (r: String)
    ensures
        r@ == silence_text(output@, ssh_log@, last@),
{
    if trim(output).as_str().unicode_len() == 0 && trim(ssh_log).as_str().unicode_len() == 0 {
        "Connection timed out".to_owned()
    } else {
        cat2("Login timed out; last SSH message: ", last)
    }
}

/// How a trial login ended.
#[derive(Debug, PartialEq)]
pub enum LoginEnd {
    Success,
    /// The server refused the credentials.
    AuthFailed { reason: String },
    /// The server fell silent, after this output.
    Timeout { output: String },
    /// The connection ended, after this output.
    Eof { output: String },
    /// The login could not be tried.
    Error(String),
}

/// Why a trial login failed; `None` where it did not. `last` is the last that was
/// heard of it.
pub open spec fn login_reason(end: LoginEnd, ssh_log: Seq<char>, last: Seq<char>) -> Option<
    Seq<char>,
> {
    match end {
        LoginEnd::Success => None,
        LoginEnd::AuthFailed { reason } => Some(reason@),
        LoginEnd::Timeout { output } => Some(silence_text(output@, ssh_log, last)),
        LoginEnd::Eof { output: _ } => Some(last),
        LoginEnd::Error(e) => Some(e@),
    }
}

/// Why a trial login failed; `None` where it did not. `last` is the last that was
/// heard of it.
pub fn test_login(end: LoginEnd, ssh_log: &str, last: &str) -> (r: Option<String>)
    ensures
        opt_text(r) == login_reason(end, ssh_log@, last@),
{
    match end {
        LoginEnd::Success => None,
        LoginEnd::AuthFailed { reason } => Some(reason),
        LoginEnd::Timeout { output } => Some(timeout_detail(output.as_str(), ssh_log, last)),
        LoginEnd::Eof { output: _ } => Some(last.to_owned()),
        LoginEnd::Error(e) => Some(e),
    }
}

/// The name under which an operation on a host's stored credentials is latched.
pub open spec fn keychain_key(op: Seq<char>, host: Seq<char>) -> Seq<char> {
    op + ":"@ + host
}

/// Claim an operation on a host's stored credentials: the name that it holds, or
/// the error that one runs.
pub fn begin_keychain(latch: &mut Latch, op: &str, host: &str) -> (r: Result<String, Error>)
    ensures
        ({
            let key = keychain_key(op@, host@);
            if old(latch)@.contains(key) {
                &&& text_result(r) == Err::<Seq<char>, _>(
                    ErrorView::Internal(
                        op@ + " already in flight for "@ + host@ + " — try again"@,
                    ),
                )
                &&& final(latch)@ == old(latch)@
            } else {
                &&& text_result(r) == Ok::<_, ErrorView>(key)
                &&& final(latch)@ == old(latch)@.insert(key)
            }
        }),
{
    let key: String = cat3(op, ":", host);
    if latch.try_claim(key.as_str()) {
        Ok(key)
    } else {
        proof {
            assert(latch@ =~= old(latch)@);
        }
        Err(Error::Internal(cat4(op, " already in flight for ", host, " — try again")))
    }
}

/// How an operation on stored credentials can come to nothing.
#[derive(Debug, Clone, Copy, PartialEq, Eq, Structural)]
pub enum KeychainEnd {
    /// No worker could be started.
    NotStarted,
    /// The worker died.
    Died,
    /// The worker took too long.
    TimedOut,
}

/// The error for an operation on stored credentials that came to nothing.
pub fn keychain_error(op: &str, host: &str, end: KeychainEnd) -> (e: Error)
    ensures
        e@ == ErrorView::Internal(
            match end {
                KeychainEnd::NotStarted => op@ + " could not start for "@ + host@
                    + " — try again"@,
                KeychainEnd::Died => op@ + " failed unexpectedly for "@ + host@ + " — try again"@,
                KeychainEnd::TimedOut => op@ + " timed out for "@ + host@
                    + " (is the login Keychain locked?) — try again"@,
            },
        ),
{
    match end {
        KeychainEnd::NotStarted => Error::Internal(
            cat4(op, " could not start for ", host, " — try again"),
        ),
        KeychainEnd::Died => Error::Internal(
            cat4(op, " failed unexpectedly for ", host, " — try again"),
        ),
        KeychainEnd::TimedOut => Error::Internal(
            cat4(op, " timed out for ", host, " (is the login Keychain locked?) — try again"),
        ),
    }
}

/// The error for the credentials of a new host that were not stored.
pub fn store_error(host: &str, end: KeychainEnd) -> (e: Error)
    ensures
        e@ == ErrorView::Internal(
            if end == KeychainEnd::NotStarted {
                "could not start credential store for "@ + host@ + " — try again"@
            } else {
                "Keychain write timed out (is the login Keychain locked?) — try again"@
            },
        ),
{
    match end {
        KeychainEnd::NotStarted => Error::Internal(
            cat3("could not start credential store for ", host, " — try again"),
        ),
        KeychainEnd::Died | KeychainEnd::TimedOut => Error::Internal(
            "Keychain write timed out (is the login Keychain locked?) — try again".to_owned(),
        ),
    }
}

/// The known host that a request names, whatever its name.
pub open spec fn known_named(st: StateView, params: JsonView) -> Result<Seq<char>, ErrorView> {
    match host_named(params) {
        Ok(host) => if host_at(st, host) is Some {
            Ok(host)
        } else {
            Err(no_host(host))
        },
        Err(e) => Err(e),
    }
}

/// The known host with a safe name that a request names.
pub open spec fn known_host(st: StateView, params: JsonView) -> Result<Seq<char>, ErrorView> {
    match host_of(params) {
        Ok(host) => if host_at(st, host) is Some {
            Ok(host)
        } else {
            Err(no_host(host))
        },
        Err(e) => Err(e),
    }
}

fn find_known(state: &State, params: &Json) -> (r: Result<String, Error>)
    ensures
        text_result(r) == known_host(state@, params@),
{
    match host_param(params) {
        Ok(host) => match require_host(state, host.as_str()) {
            Ok(_) => Ok(host),
            Err(e) => Err(e),
        },
        Err(e) => Err(e),
    }
}

/// The host whose current one-time code is asked for.
pub fn host_totp(state: &State, params: &Json) -> (r: Result<String, Error>)
    ensures
        text_result(r) == known_named(state@, params@),
{
    match named_host(params) {
        Ok(host) => match require_host(state, host.as_str()) {
            Ok(_) => Ok(host),
            Err(e) => Err(e),
        },
        Err(e) => Err(e),
    }
}

/// The address of a host's code secret, as it was read; an error where there is
/// none.
pub fn totp_address(host: &str, stored: Option<String>) -> (r: Result<String, Error>)
    ensures
        match opt_text(stored) {
            Some(url) if trimmed(url).len() > 0 => text_result(r) == Ok::<_, ErrorView>(url),
            _ => text_result(r) == Err::<Seq<char>, _>(
                ErrorView::NotFound("no 2FA secret for "@ + host@),
            ),
        },
{
    match stored {
        Some(url) => {
            if trim(url.as_str()).as_str().unicode_len() > 0 {
                Ok(url)
            } else {
                Err(Error::NotFound(cat2("no 2FA secret for ", host)))
            }
        },
        None => Err(Error::NotFound(cat2("no 2FA secret for ", host))),
    }
}

/// The current one-time code in a reply.
pub fn totp_reply(code: &str, period: u64, seconds_remaining: u64) -> (j: Json)
    ensures
        j@ == JsonView::Obj(
            Map::empty().insert("code"@, JsonView::Str(code@)).insert(
                "period"@,
                JsonView::Uint(period),
            ).insert("seconds_remaining"@, JsonView::Uint(seconds_remaining)),
        ),
        str_at(j@, "code"@) == Some(code@),
        uint_at(j@, "period"@) == Some(period),
        uint_at(j@, "seconds_remaining"@) == Some(seconds_remaining),
{
    proof {
        reveal_strlit("code");
        reveal_strlit("period");
        reveal_strlit("seconds_remaining");
        assert("code"@[0] == 'c' && "period"@[0] == 'p' && "seconds_remaining"@[0] == 's');
    }
    let mut f: Fields = Fields::new();
    f.put("code", Json::text(code));
    f.put("period", Json::Uint(period));
    f.put("seconds_remaining", Json::Uint(seconds_remaining));
    f.done()
}

/// Whether the credentials are being moved into one store.
#[derive(Debug)]
pub struct UpgradeGuard {
    running: bool,
}

impl View for UpgradeGuard {
    type V = bool;

    closed spec fn view(&self) -> bool {
        self.running
    }
}

impl UpgradeGuard {
    /// No move runs.
    pub fn new() -> (g: UpgradeGuard)
        ensures
            !g@,
    {
        UpgradeGuard { running: false }
    }

    /// The move has ended.
    pub fn complete(&mut self)
        ensures
            !final(self)@,
    {
        self.running = false;
    }
}

/// Begin to move all credentials into one store: the hosts that have any, or the
/// error that a move runs.
pub fn credentials_consolidate(guard: &mut UpgradeGuard, state: &State) -> (r: Result<
    Vec<String>,
    Error,
>)
    ensures
        final(guard)@,
        match r {
            Ok(hosts) => !old(guard)@ && texts(hosts@) == host_names(state@.hosts),
            Err(e) => old(guard)@ && e@ == ErrorView::Internal(
                "The one-time secure storage update is already running"@,
            ),
        },
{
    if guard.running {
        return Err(
            Error::Internal("The one-time secure storage update is already running".to_owned()),
        );
    }
    guard.running = true;
    let ghost all = host_names(state@.hosts);
    let mut hosts: Vec<String> = Vec::new();
    let mut i: usize = 0;
    while i < state.hosts.len()
        invariant
            all == host_names(state@.hosts),
            i <= state.hosts@.len(),
            texts(hosts@) == all.take(i as int),
        decreases state.hosts@.len() - i,
    {
        let ghost before = texts(hosts@);
        let name: String = state.hosts[i].host.clone();
        hosts.push(name);
        proof {
            assert(all[i as int] == state.hosts@[i as int].host@);
            assert(texts(hosts@) =~= before.push(name@));
            assert(texts(hosts@) =~= all.take(i + 1));
        }
        i += 1;
    }
    proof {
        assert(all.take(i as int) =~= all);
    }
    Ok(hosts)
}

/// The cache without these hosts.
pub open spec fn cache_without(
    cache: Map<Seq<char>, (Seq<char>, Seq<char>)>,
    hosts: Seq<Seq<char>>,
) -> Map<Seq<char>, (Seq<char>, Seq<char>)>
    decreases hosts.len(),
{
    if hosts.len() == 0 {
        cache
    } else {
        cache_without(cache, hosts.drop_last()).remove(hosts.last())
    }
}

/// The credentials of these hosts were moved: the cache forgets them, and the
/// reply gives the counts.
pub fn consolidation_reply(
    cache: &mut CredsCache,
    hosts: &Vec<String>,
    migrated: u64,
    already: u64,
    missing: u64,
) -> (j: Json)
    ensures
        final(cache)@ == cache_without(old(cache)@, texts(hosts@)),
        j@ == JsonView::Obj(
            Map::empty().insert("migrated"@, JsonView::Uint(migrated)).insert(
                "already"@,
                JsonView::Uint(already),
            ).insert("missing"@, JsonView::Uint(missing)).insert(
                "total_hosts"@,
                JsonView::Uint(hosts@.len() as u64),
            ),
        ),
        uint_at(j@, "migrated"@) == Some(migrated),
        uint_at(j@, "already"@) == Some(already),
        uint_at(j@, "missing"@) == Some(missing),
        uint_at(j@, "total_hosts"@) == Some(hosts@.len() as u64),
{
    proof {
        reveal_strlit("migrated");
        reveal_strlit("already");
        reveal_strlit("missing");
        reveal_strlit("total_hosts");
        assert("already"@[0] == 'a' && "total_hosts"@[0] == 't' && "migrated"@[0] == 'm');
        assert("missing"@[2] == 's' && "migrated"@[2] == 'g' && "missing"@[0] == 'm');
    }
    let ghost all = texts(hosts@);
    let ghost c0 = cache@;
    let mut i: usize = 0;
    while i < hosts.len()
        invariant
            all == texts(hosts@),
            i <= hosts@.len(),
            cache@ == cache_without(c0, all.take(i as int)),
        decreases hosts@.len() - i,
    {
        proof {
            assert(all.take(i + 1).drop_last() =~= all.take(i as int));
            assert(all.take(i + 1).last() == hosts@[i as int]@);
        }
        invalidate_creds_cache(cache, hosts[i].as_str());
        i += 1;
    }
    proof {
        assert(all.take(i as int) =~= all);
    }
    let mut f: Fields = Fields::new();
    f.put("migrated", Json::Uint(migrated));
    f.put("already", Json::Uint(already));
    f.put("missing", Json::Uint(missing));
    f.put("total_hosts", Json::Uint(hosts.len() as u64));
    f.done()
}

/// What a code secret is for.
#[derive(Debug, PartialEq)]
pub struct OtpInfo {
    pub issuer: Option<String>,
    pub account: Option<String>,
    pub algorithm: String,
    pub digits: u64,
    pub period: u64,
}

/// A code secret in a reply, without the secret.
pub open spec fn otp_json(o: OtpInfo) -> JsonView {
    JsonView::Obj(
        Map::empty().insert("issuer"@, opt_json(opt_text(o.issuer))).insert(
            "account"@,
            opt_json(opt_text(o.account)),
        ).insert("algorithm"@, JsonView::Str(o.algorithm@)).insert(
            "digits"@,
            JsonView::Uint(o.digits),
        ).insert("period"@, JsonView::Uint(o.period)),
    )
}

/// The host whose stored credentials are to be described.
pub fn host_credentials(state: &State, params: &Json) -> (r: Result<String, Error>)
    ensures
        text_result(r) == known_host(state@, params@),
{
    find_known(state, params)
}

/// The description of stored credentials, without a secret. `otp` is what reading
/// the address of the code secret gave; without an address it does not matter.
pub open spec fn described(
    host: Seq<char>,
    password: Seq<char>,
    otpauth: Seq<char>,
    otp: Result<OtpInfo, String>,
    auto_connect: bool,
) -> JsonView {
    let has_otp = trimmed(otpauth).len() > 0;
    JsonView::Obj(
        Map::empty().insert("host"@, JsonView::Str(host)).insert(
            "has_password"@,
            JsonView::Bool(password.len() > 0),
        ).insert("password_length"@, JsonView::Uint(password.len() as u64)).insert(
            "has_otp_secret"@,
            JsonView::Bool(has_otp),
        ).insert(
            "otp"@,
            if has_otp && otp is Ok {
                otp_json(otp->Ok_0)
            } else {
                JsonView::Obj(Map::empty())
            },
        ).insert(
            "otp_error"@,
            if has_otp && otp is Err {
                JsonView::Str(otp->Err_0@)
            } else {
                JsonView::Null
            },
        ).insert("auto_connect"@, JsonView::Bool(auto_connect)),
    )
}

/// The description of stored credentials, without a secret. `otp` is what reading
/// the address of the code secret gave; without an address it does not matter.
pub fn credentials_reply(
    host: &str,
    password: &str,
    otpauth: &str,
    otp: &Result<OtpInfo, String>,
    auto_connect: bool,
) -> (j: Json)
    ensures
        j@ == described(host@, password@, otpauth@, *otp, auto_connect),
{
    let length: usize = password.unicode_len();
    let has_otp: bool = trim(otpauth).as_str().unicode_len() > 0;
    let mut about: Fields = Fields::new();
    let mut problem: Json = Json::Null;
    if has_otp {
        match otp {
            Ok(o) => {
                about.put("issuer", Json::opt(&o.issuer));
                about.put("account", Json::opt(&o.account));
                about.put("algorithm", Json::text(o.algorithm.as_str()));
                about.put("digits", Json::Uint(o.digits));
                about.put("period", Json::Uint(o.period));
            },
            Err(e) => {
                problem = Json::text(e.as_str());
            },
        }
    }
    let mut f: Fields = Fields::new();
    f.put("host", Json::text(host));
    f.put("has_password", Json::Bool(length > 0));
    f.put("password_length", Json::Uint(length as u64));
    f.put("has_otp_secret", Json::Bool(has_otp));
    f.put("otp", about.done());
    f.put("otp_error", problem);
    f.put("auto_connect", Json::Bool(auto_connect));
    f.done()
}

/// The host whose stored credentials are to be shown.
pub fn host_reveal_credentials(state: &State, params: &Json) -> (r: Result<String, Error>)
    ensures
        text_result(r) == known_host(state@, params@),
{
    find_known(state, params)
}

/// The stored credentials in a reply.
pub fn reveal_reply(
    host: &str,
    password: &Option<String>,
    otpauth_url: &Option<String>,
) -> (j: Json)
    ensures
        j@ == JsonView::Obj(
            Map::empty().insert("host"@, JsonView::Str(host@)).insert(
                "password"@,
                opt_json(opt_text(*password)),
            ).insert("otpauth_url"@, opt_json(opt_text(*otpauth_url))),
        ),
        str_at(j@, "host"@) == Some(host@),
        str_at(j@, "password"@) == opt_text(*password),
        str_at(j@, "otpauth_url"@) == opt_text(*otpauth_url),
{
    proof {
        reveal_strlit("host");
        reveal_strlit("password");
        reveal_strlit("otpauth_url");
        assert("host"@[0] == 'h' && "password"@[0] == 'p' && "otpauth_url"@[0] == 'o');
    }
    let mut f: Fields = Fields::new();
    f.put("host", Json::text(host));
    f.put("password", Json::opt(password));
    f.put("otpauth_url", Json::opt(otpauth_url));
    f.done()
}

/// A change of stored credentials.
#[derive(Debug, PartialEq)]
pub struct CredsChange {
    pub host: String,
    pub password: Option<String>,
    pub otpauth_url: Option<String>,
    pub clear_otp: bool,
}

/// What a change of credentials says.
#[verifier::ext_equal]
pub struct ChangeView {
    pub host: Seq<char>,
    pub password: Option<Seq<char>>,
    pub otpauth_url: Option<Seq<char>>,
    pub clear_otp: bool,
}

impl View for CredsChange {
    type V = ChangeView;

    open spec fn view(&self) -> ChangeView {
        ChangeView {
            host: self.host@,
            password: opt_text(self.password),
            otpauth_url: opt_text(self.otpauth_url),
            clear_otp: self.clear_otp,
        }
    }
}

/// An optional text without white space around it.
pub open spec fn trimmed_opt(o: Option<Seq<char>>) -> Option<Seq<char>> {
    match o {
        Some(s) => Some(trimmed(s)),
        None => None,
    }
}

/// Which change of credentials a request asks for. A code secret goes only where
/// that is asked for in so many words; an empty address is refused.
pub open spec fn change_of(st: StateView, params: JsonView) -> Result<ChangeView, ErrorView> {
    match known_host(st, params) {
        Err(e) => Err(e),
        Ok(host) => match opt_str_of(params, "password"@) {
            Err(e) => Err(e),
            Ok(password) => match opt_bool_of(params, "clear_otp_secret"@) {
                Err(e) => Err(e),
                Ok(clear_otp) => match opt_str_of(params, "otpauth_url"@) {
                    Err(e) => Err(e),
                    Ok(url) => {
                        let otpauth_url = trimmed_opt(url);
                        if otpauth_url is Some && clear_otp {
                            Err(
                                ErrorView::BadParams(
                                    "pass either 'otpauth_url' or 'clear_otp_secret', not both"@,
                                ),
                            )
                        } else if password is None && otpauth_url is None && !clear_otp {
                            Err(
                                ErrorView::BadParams(
                                    "nothing to change — pass 'password', 'otpauth_url' and/or 'clear_otp_secret'"@,
                                ),
                            )
                        } else if otpauth_url is Some && otpauth_url->Some_0.len() == 0 {
                            Err(
                                ErrorView::BadParams(
                                    "otpauth_url is empty — omit the field to keep the current 2FA secret, or pass clear_otp_secret to remove it"@,
                                ),
                            )
                        } else {
                            Ok(ChangeView { host, password, otpauth_url, clear_otp })
                        }
                    },
                },
            },
        },
    }
}

/// Which change of credentials a request asks for.
pub fn creds_change(state: &State, params: &Json) -> (r: Result<CredsChange, Error>)
    ensures
        match r {
            Ok(c) => change_of(state@, params@) == Ok::<_, ErrorView>(c@),
            Err(e) => change_of(state@, params@) == Err::<ChangeView, _>(e@),
        },
{
    let host: String = match find_known(state, params) {
        Ok(host) => host,
        Err(e) => return Err(e),
    };
    let password: Option<String> = match opt_str(params, "password") {
        Ok(p) => p,
        Err(e) => return Err(e),
    };
    let clear_otp: bool = match opt_bool(params, "clear_otp_secret") {
        Ok(b) => b,
        Err(e) => return Err(e),
    };
    let otpauth_url: Option<String> = match opt_str(params, "otpauth_url") {
        Ok(Some(url)) => Some(trim(url.as_str())),
        Ok(None) => None,
        Err(e) => return Err(e),
    };
    if otpauth_url.is_some() && clear_otp {
        return Err(Error::bad("pass either 'otpauth_url' or 'clear_otp_secret', not both"));
    }
    if password.is_none() && otpauth_url.is_none() && !clear_otp {
        return Err(
            Error::bad(
                "nothing to change — pass 'password', 'otpauth_url' and/or 'clear_otp_secret'",
            ),
        );
    }
    if let Some(url) = &otpauth_url {
        if url.as_str().unicode_len() == 0 {
            return Err(
                Error::bad(
                    "otpauth_url is empty — omit the field to keep the current 2FA secret, or pass clear_otp_secret to remove it",
                ),
            );
        }
    }
    Ok(CredsChange { host, password, otpauth_url, clear_otp })
}

/// Why a change of credentials is refused once its address was read: the address
/// is of no use, or the password is empty.
pub open spec fn change_refusal(c: ChangeView, secret: Result<Seq<char>, Seq<char>>) -> Option<
    ErrorView,
> {
    if c.otpauth_url is Some && secret is Err {
        Some(ErrorView::BadParams("invalid otpauth URL: "@ + secret->Err_0))
    } else if c.password is Some && c.password->Some_0.len() == 0 {
        Some(
            ErrorView::BadParams(
                "password is empty — omit the field to keep the current password"@,
            ),
        )
    } else {
        None
    }
}

/// Check a change of credentials before anything is stored. `secret` is what
/// reading the new address gave; without one it does not matter.
pub fn host_set_credentials(c: &CredsChange, secret: &Result<String, String>) -> (r: Result<
    (),
    Error,
>)
    ensures
        match r {
            Ok(_) => change_refusal(c@, secret_view(*secret)) is None,
            Err(e) => change_refusal(c@, secret_view(*secret)) == Some(e@),
        },
{
    if c.otpauth_url.is_some() {
        match secret {
            Ok(_) => {},
            Err(why) => return Err(Error::BadParams(cat2("invalid otpauth URL: ", why.as_str()))),
        }
    }
    if let Some(p) = &c.password {
        if p.as_str().unicode_len() == 0 {
            return Err(
                Error::bad("password is empty — omit the field to keep the current password"),
            );
        }
    }
    Ok(())
}

/// What is stored once a change was made to what is stored now.
pub open spec fn stored_after(c: ChangeView, current: (Seq<char>, Seq<char>)) -> (
    Seq<char>,
    Seq<char>,
) {
    (
        match c.password {
            Some(p) => p,
            None => current.0,
        },
        if c.clear_otp {
            Seq::empty()
        } else {
            match c.otpauth_url {
                Some(url) => url,
                None => current.1,
            }
        },
    )
}

/// Which of the stored credentials a change leaves as they are, so that they have to
/// be read: the password, and the address.
pub fn stored_needed(c: &CredsChange) -> (r: (bool, bool))
    ensures
        r.0 == (c@.password is None),
        r.1 == (c@.otpauth_url is None && !c@.clear_otp),
{
    (c.password.is_none(), c.otpauth_url.is_none() && !c.clear_otp)
}

/// The password and the address to store. `current` are those stored now.
pub fn credentials_to_store(c: &CredsChange, current: (String, String)) -> (r: (String, String))
    ensures
        (r.0@, r.1@) == stored_after(c@, (current.0@, current.1@)),
{
    let (password0, otpauth0): (String, String) = current;
    let password: String = match &c.password {
        Some(p) => p.clone(),
        None => password0,
    };
    let otpauth: String = if c.clear_otp {
        proof {
            reveal_strlit("");
            assert(""@ =~= Seq::<char>::empty());
        }
        "".to_owned()
    } else {
        match &c.otpauth_url {
            Some(url) => url.clone(),
            None => otpauth0,
        }
    };
    (password, otpauth)
}

/// What a change of credentials has changed, in words.
pub open spec fn changes(c: ChangeView) -> Seq<Seq<char>> {
    (if c.password is Some {
        seq!["password"@]
    } else {
        Seq::empty()
    }) + (if c.otpauth_url is Some {
        seq!["otp_secret"@]
    } else {
        Seq::empty()
    }) + (if c.clear_otp {
        seq!["otp_secret removed"@]
    } else {
        Seq::empty()
    })
}

/// Whether a host that is connected, or to be, still uses the old credentials.
pub open spec fn needs_reconnect(st: StateView, host: Seq<char>) -> bool {
    match host_at(st, host) {
        Some(i) => st.hosts[i].active || st.hosts[i].is_master_ready,
        None => false,
    }
}

/// The changed credentials were stored: the cache forgets the old ones, and the
/// reply says what was changed.
pub fn set_credentials_reply(state: &State, cache: &mut CredsCache, c: &CredsChange) -> (j: Json)
    ensures
        final(cache)@ == old(cache)@.remove(c@.host),
        j@ == JsonView::Obj(
            Map::empty().insert("ok"@, JsonView::Bool(true)).insert(
                "host"@,
                JsonView::Str(c@.host),
            ).insert("changed"@, texts_json(changes(c@))).insert(
                "reconnect_required"@,
                JsonView::Bool(needs_reconnect(state@, c@.host)),
            ),
        ),
        bool_at(j@, "ok"@) == Some(true),
        str_at(j@, "host"@) == Some(c@.host),
        bool_at(j@, "reconnect_required"@) == Some(needs_reconnect(state@, c@.host)),
        !final(cache)@.contains_key(c@.host),
{
    proof {
        reveal_strlit("ok");
        reveal_strlit("host");
        reveal_strlit("changed");
        reveal_strlit("reconnect_required");
        assert("ok"@[0] == 'o' && "host"@[0] == 'h' && "changed"@[0] == 'c'
            && "reconnect_required"@[0] == 'r');
    }
    let mut changed: Vec<String> = Vec::new();
    proof {
        assert(texts(changed@) =~= Seq::empty());
    }
    if c.password.is_some() {
        push_text(&mut changed, "password");
    }
    if c.otpauth_url.is_some() {
        push_text(&mut changed, "otp_secret");
    }
    if c.clear_otp {
        push_text(&mut changed, "otp_secret removed");
    }
    proof {
        assert(texts(changed@) =~= changes(c@));
    }
    invalidate_creds_cache(cache, c.host.as_str());
    let reconnect: bool = match state.find_host(c.host.as_str()) {
        Some(i) => state.hosts[i].active || state.hosts[i].is_master_ready,
        None => false,
    };
    let mut f: Fields = Fields::new();
    f.put("ok", Json::Bool(true));
    f.put("host", Json::text(c.host.as_str()));
    f.put("changed", Json::list(&changed));
    f.put("reconnect_required", Json::Bool(reconnect));
    f.done()
}

/// What a change does not name stays as it is stored, and the code secret goes
/// only where that is asked for.
pub proof fn law_unnamed_credentials_stay(c: ChangeView, current: (Seq<char>, Seq<char>))
    requires
        change_refusal(c, Ok(Seq::empty())) is None,
        c.otpauth_url is Some ==> c.otpauth_url->Some_0.len() > 0,
    ensures
        c.password is None ==> stored_after(c, current).0 == current.0,
        c.otpauth_url is None && !c.clear_otp ==> stored_after(c, current).1 == current.1,
        !c.clear_otp && current.1.len() > 0 ==> stored_after(c, current).1.len() > 0,
        current.0.len() > 0 ==> stored_after(c, current).0.len() > 0,
{
}

/// What a change replaces need not be read: what is stored afterwards does not
/// depend on it.
pub proof fn law_replaced_credentials_do_not_matter(
    c: ChangeView,
    a: (Seq<char>, Seq<char>),
    b: (Seq<char>, Seq<char>),
)
    requires
        c.password is None ==> a.0 == b.0,
        c.otpauth_url is None && !c.clear_otp ==> a.1 == b.1,
    ensures
        stored_after(c, a) == stored_after(c, b),
{
}

/// A description of stored credentials depends on the password by its length
/// alone.
pub proof fn law_descriptions_hide_the_password(
    host: Seq<char>,
    a: Seq<char>,
    b: Seq<char>,
    otpauth: Seq<char>,
    otp: Result<OtpInfo, String>,
    auto_connect: bool,
)
    requires
        a.len() == b.len(),
    ensures
        described(host, a, otpauth, otp, auto_connect) == described(
            host,
            b,
            otpauth,
            otp,
            auto_connect,
        ),
{
}

/// Operations of different kinds on one host are latched apart.
pub proof fn law_operations_are_latched_apart(a: Seq<char>, b: Seq<char>, host: Seq<char>)
    requires
        a != b,
    ensures
        keychain_key(a, host) != keychain_key(b, host),
{
    if keychain_key(a, host) == keychain_key(b, host) {
        let x = keychain_key(a, host);
        let y = keychain_key(b, host);
        assert(x.len() == a.len() + ":"@.len() + host.len());
        assert(y.len() == b.len() + ":"@.len() + host.len());
        assert(x.take(a.len() as int) =~= a);
        assert(y.take(b.len() as int) =~= b);
    }
}

/// A change of credentials is what its request says: of the known host that it names,
/// with the password as given, the trimmed address, and the wish to drop the secret.
/// What the request does not name, the change does not name. One that names nothing,
/// or an empty address, or both an address and that wish, is refused.
pub proof fn law_a_change_is_what_its_request_says(
    st: StateView,
    m: Map<Seq<char>, JsonView>,
    host: Seq<char>,
    k: int,
)
    requires
        m.contains_key("host"@),
        m["host"@] == JsonView::Str(host),
        safe_host(host),
        0 <= k < st.hosts.len(),
        st.hosts[k].host == host,
        m.contains_key("password"@) ==> m["password"@] is Str,
        m.contains_key("otpauth_url"@) ==> m["otpauth_url"@] is Str,
        m.contains_key("clear_otp_secret"@) ==> m["clear_otp_secret"@] is Bool,
    ensures
        ({
            let r = change_of(st, JsonView::Obj(m));
            let clear = m.contains_key("clear_otp_secret"@) && m["clear_otp_secret"@]
                == JsonView::Bool(true);
            let url = m.contains_key("otpauth_url"@);
            let password = m.contains_key("password"@);
            &&& r is Ok <==> (password || url || clear) && !(url && clear) && (url ==> trimmed(
                m["otpauth_url"@]->Str_0,
            ).len() > 0)
            &&& r matches Ok(c) ==> {
                &&& c.host == host
                &&& c.password == (if password {
                    Some(m["password"@]->Str_0)
                } else {
                    None
                })
                &&& c.otpauth_url == (if url {
                    Some(trimmed(m["otpauth_url"@]->Str_0))
                } else {
                    None
                })
                &&& c.clear_otp == clear
            }
        }),
{
    law_a_name_addresses_the_first_host(st, host, k);
}

/// What is stored after a change: the new password where it names one, and else the
/// stored one; no address where it drops the secret, the new one where it names one,
/// and else the stored one.
pub proof fn law_a_change_stores_what_it_names(c: ChangeView, current: (Seq<char>, Seq<char>))
    ensures
        c.password matches Some(p) ==> stored_after(c, current).0 == p,
        c.password is None ==> stored_after(c, current).0 == current.0,
        c.clear_otp ==> stored_after(c, current).1.len() == 0,
        !c.clear_otp ==> (c.otpauth_url matches Some(url) ==> stored_after(c, current).1 == url),
        !c.clear_otp && c.otpauth_url is None ==> stored_after(c, current).1 == current.1,
        change_refusal(c, Ok(Seq::empty())) is None <==> !(c.password matches Some(p) && p.len()
            == 0),
        c.otpauth_url is Some ==> change_refusal(c, Err(Seq::empty())) is Some,
{
}

/// A trial login is of the host that its request names, with both credentials of the
/// request or, where it has neither, with those stored; one of the two alone is refused.
pub proof fn law_a_trial_uses_what_its_request_gives(
    m: Map<Seq<char>, JsonView>,
    host: Seq<char>,
)
    requires
        m.contains_key("host"@),
        m["host"@] == JsonView::Str(host),
        m.contains_key("password"@) ==> m["password"@] is Str,
        m.contains_key("otpauth_url"@) ==> m["otpauth_url"@] is Str,
    ensures
        ({
            let r = test_plan(JsonView::Obj(m));
            &&& r is Ok <==> safe_host(host) && (m.contains_key("password"@) <==> m.contains_key(
                "otpauth_url"@,
            ))
            &&& r matches Ok(p) ==> {
                &&& p.0 == host
                &&& !m.contains_key("password"@) ==> p.1 is Stored
                &&& m.contains_key("password"@) ==> p.1 == (CredsView::Supplied {
                    password: m["password"@]->Str_0,
                    otpauth_url: m["otpauth_url"@]->Str_0,
                })
            }
        }),
{
}

/// A trial login that is said to have failed did, and the reason is the server's where
/// it gave one.
pub proof fn law_a_failed_trial_has_a_reason(end: LoginEnd, ssh_log: Seq<char>, last: Seq<char>)
    ensures
        login_reason(end, ssh_log, last) is None <==> end is Success,
        end matches LoginEnd::AuthFailed { reason } ==> login_reason(end, ssh_log, last) == Some(
            reason@,
        ),
        end matches LoginEnd::Error(e) ==> login_reason(end, ssh_log, last) == Some(e@),
        end is Eof ==> login_reason(end, ssh_log, last) == Some(last),
{
}

/// Stored credentials are described by what there is: whether there is a password, how
/// long it is, and whether there is a secret; neither is in the description.
pub proof fn law_a_description_says_what_there_is(
    host: Seq<char>,
    password: Seq<char>,
    otpauth: Seq<char>,
    otp: Result<OtpInfo, String>,
    auto_connect: bool,
)
    requires
        password.len() <= u64::MAX,
    ensures
        ({
            let d = described(host, password, otpauth, otp, auto_connect);
            &&& str_at(d, "host"@) == Some(host)
            &&& bool_at(d, "has_password"@) == Some(password.len() > 0)
            &&& uint_at(d, "password_length"@) == Some(password.len() as u64)
            &&& bool_at(d, "has_otp_secret"@) == Some(trimmed(otpauth).len() > 0)
            &&& bool_at(d, "auto_connect"@) == Some(auto_connect)
            &&& str_at(d, "password"@) is None
            &&& str_at(d, "otpauth_url"@) is None
            &&& trimmed(otpauth).len() > 0 ==> match otp {
                Ok(o) => {
                    &&& field(d, "otp_error"@) == Some(JsonView::Null)
                    &&& field(d, "otp"@) == Some(otp_json(o))
                },
                Err(e) => {
                    &&& field(d, "otp_error"@) == Some(JsonView::Str(e@))
                    &&& field(d, "otp"@) == Some(JsonView::Obj(Map::empty()))
                },
            }
            &&& trimmed(otpauth).len() == 0 ==> field(d, "otp_error"@) == Some(JsonView::Null)
                && field(d, "otp"@) == Some(JsonView::Obj(Map::empty()))
        }),
{
    reveal_strlit("host");
    reveal_strlit("has_password");
    reveal_strlit("password_length");
    reveal_strlit("has_otp_secret");
    reveal_strlit("otp");
    reveal_strlit("otp_error");
    reveal_strlit("auto_connect");
    reveal_strlit("password");
    reveal_strlit("otpauth_url");
    assert("host"@.len() == 4 && "has_password"@.len() == 12 && "password_length"@.len() == 15
        && "has_otp_secret"@.len() == 14 && "otp"@.len() == 3 && "otp_error"@.len() == 9
        && "auto_connect"@.len() == 12 && "password"@.len() == 8 && "otpauth_url"@.len() == 11);
    assert("has_password"@[0] == 'h' && "auto_connect"@[0] == 'a');
}

/// After the credentials of some hosts were moved, the cache holds none of theirs, and
/// those of other hosts as before.
pub proof fn law_moved_credentials_are_forgotten(
    cache: Map<Seq<char>, (Seq<char>, Seq<char>)>,
    hosts: Seq<Seq<char>>,
)
    ensures
        forall|h: Seq<char>| #[trigger]
            cache_without(cache, hosts).contains_key(h) <==> cache.contains_key(h)
                && !hosts.contains(h),
        forall|h: Seq<char>| #[trigger]
            cache_without(cache, hosts).contains_key(h) ==> cache_without(cache, hosts)[h]
                == cache[h],
    decreases hosts.len(),
{
    if hosts.len() > 0 {
        let front = hosts.drop_last();
        law_moved_credentials_are_forgotten(cache, front);
        assert forall|h: Seq<char>| #[trigger] hosts.contains(h) == (front.contains(h) || h
            == hosts.last()) by {
            if hosts.contains(h) {
                let k = choose|k: int| 0 <= k < hosts.len() && hosts[k] == h;
                if k < front.len() {
                    assert(front[k] == h);
                }
            }
            if front.contains(h) {
                let k = choose|k: int| 0 <= k < front.len() && front[k] == h;
                assert(hosts[k] == h);
            }
            assert(hosts[hosts.len() - 1] == hosts.last());
        }
        let before = cache_without(cache, front);
        let after = cache_without(cache, hosts);
        assert(after == before.remove(hosts.last()));
        assert forall|h: Seq<char>| #[trigger] after.contains_key(h) <==> cache.contains_key(h)
            && !hosts.contains(h) by {
            assert(before.contains_key(h) <==> cache.contains_key(h) && !front.contains(h));
        }
        assert forall|h: Seq<char>| #[trigger] after.contains_key(h) implies after[h]
            == cache[h] by {
            assert(before.contains_key(h));
        }
    }
}

/// A request for stored credentials or a code is granted for a known host alone, and
/// for the one that it names. A host needs a new connection after a change exactly
/// where it is enabled or connected.
pub proof fn law_credentials_are_those_of_the_named_host(
    st: StateView,
    m: Map<Seq<char>, JsonView>,
    host: Seq<char>,
    k: int,
)
    requires
        m.contains_key("host"@),
        m["host"@] == JsonView::Str(host),
    ensures
        (forall|j: int| 0 <= j < st.hosts.len() ==> (#[trigger] st.hosts[j]).host != host) ==> {
            &&& known_named(st, JsonView::Obj(m)) is Err
            &&& known_host(st, JsonView::Obj(m)) is Err
            &&& !needs_reconnect(st, host)
        },
        0 <= k < st.hosts.len() && st.hosts[k].host == host && (forall|j: int|
            0 <= j < k ==> (#[trigger] st.hosts[j]).host != host) ==> {
            &&& known_named(st, JsonView::Obj(m)) == Ok::<_, ErrorView>(host)
            &&& safe_host(host) ==> known_host(st, JsonView::Obj(m)) == Ok::<_, ErrorView>(host)
            &&& !safe_host(host) ==> known_host(st, JsonView::Obj(m)) is Err
            &&& needs_reconnect(st, host) <==> st.hosts[k].active || st.hosts[k].is_master_ready
        },
{
    law_a_name_addresses_the_first_host(st, host, k);
}

/// A change is reported by what it changed, in so many words.
pub proof fn law_a_change_is_reported(c: ChangeView)
    ensures
        changes(c).contains("password"@) <==> c.password is Some,
        changes(c).contains("otp_secret"@) <==> c.otpauth_url is Some,
        changes(c).contains("otp_secret removed"@) <==> c.clear_otp,
{
    reveal_strlit("password");
    reveal_strlit("otp_secret");
    reveal_strlit("otp_secret removed");
    assert("password"@.len() == 8 && "otp_secret"@.len() == 10 && "otp_secret removed"@.len() == 18);
    let w = changes(c);
    let a: int = if c.password is Some {
        1
    } else {
        0
    };
    let b: int = if c.otpauth_url is Some {
        1
    } else {
        0
    };
    if c.password is Some {
        assert(w[0] == "password"@);
    }
    if c.otpauth_url is Some {
        assert(w[a] == "otp_secret"@);
    }
    if c.clear_otp {
        assert(w[a + b] == "otp_secret removed"@);
    }
}

/// The arguments of a trial login end with the host and the command whose output shows
/// that it worked, after switches that keep it off the connections of the pool.
pub proof fn law_a_trial_login_is_on_its_own(
    managed: Seq<Seq<char>>,
    log_path: Seq<char>,
    host: Seq<char>,
    marker: Seq<char>,
)
    ensures
        ({
            let a = test_args(managed, log_path, host, marker);
            &&& a.len() == managed.len() + 18
            &&& a[a.len() - 3] == host
            &&& a[a.len() - 2] == "echo"@
            &&& a[a.len() - 1] == marker
            &&& a.contains("ControlMaster=no"@)
            &&& a.contains("ControlPath=none"@)
            &&& forall|k: int| 0 <= k < managed.len() ==> #[trigger] a[k] == managed[k]
        }),
{
    let a = test_args(managed, log_path, host, marker);
    let n = managed.len() as int;
    assert(a[n + 12] == "ControlMaster=no"@);
    assert(a[n + 14] == "ControlPath=none"@);
}

} // verus!
