//! Requests about mounted remote folders.
use crate::handlers::hosts::{
    host_named, host_of, host_param, named_host, no_host, opt_str, opt_str_of, safe_host,
    valid_host_name,
};
use crate::json::{Fields, Items, Json, JsonView, bool_at, str_at, uint_at};
use crate::latch::Latch;
use crate::model::{
    Error, ErrorView, Host, HostView, State, StateView, edit_host, host_at,
    law_a_name_addresses_the_first_host, outcome,
};
use crate::paths::{
    is_inside, is_same_path, join_path, joined, lemma_join_steps, one_name, path_is_inside,
    same_path, steps,
};
use crate::split::{pieces, split_text, split_words, words};
use crate::text::{
    cat2, cat3, chars_of, contains_part, copy_texts, decode_lossy, has_part, is_control,
    is_control_char, lossy, opt_text, same_text, starts_with_char, texts, trim, trimmed,
};
use vstd::prelude::*;

verus! {

/// The first line of a text that is not blank, without white space around it; the
/// empty text where there is none.
pub open spec fn first_full(lines: Seq<Seq<char>>) -> Seq<char>
    decreases lines.len(),
{
    if lines.len() == 0 {
        Seq::empty()
    } else if trimmed(lines[0]).len() > 0 {
        trimmed(lines[0])
    } else {
        first_full(lines.skip(1))
    }
}

/// A line cut so that it fits a status row, with a sign that it was cut.
pub open spec fn capped_line(line: Seq<char>) -> Seq<char> {
    if line.len() > 120 {
        line.take(117) + "…"@
    } else {
        line
    }
}

/// The first line of a text that is not blank, cut so that it fits a status row.
pub fn first_line(s: &str) -> (r: String)
    ensures
        r@ == capped_line(first_full(pieces(s@, '\n'))),
{
    let lines: Vec<String> = split_text(s, '\n');
    let ghost all = texts(lines@);
    proof {
        reveal_strlit("");
        assert(""@ =~= Seq::<char>::empty());
        assert(all.skip(0) =~= all);
    }
    let mut line: String = "".to_owned();
    let mut i: usize = 0;
    let mut found: bool = false;
    while i < lines.len() && !found
        invariant
            all == texts(lines@),
            i <= lines@.len(),
            !found ==> line@.len() == 0 && first_full(all.skip(i as int)) == first_full(all),
            found ==> line@ == first_full(all),
        decreases lines@.len() - i + (if found {
            0int
        } else {
            1int
        }),
    {
        proof {
            assert(all.skip(i as int)[0] == lines@[i as int]@);
            assert(all.skip(i as int).skip(1) =~= all.skip(i + 1));
        }
        let t: String = trim(lines[i].as_str());
        if t.as_str().unicode_len() > 0 {
            line = t;
            found = true;
        } else {
            i += 1;
        }
    }
    proof {
        if !found {
            assert(all.skip(i as int) =~= Seq::empty());
            assert(line@ =~= first_full(all));
        }
    }
    if line.as_str().unicode_len() > 120 {
        let cut: &str = line.as_str().substring_char(0, 117);
        proof {
            assert(cut@ =~= line@.take(117));
        }
        cat2(cut, "…")
    } else {
        line
    }
}

/// A text as `format!("{:?}")` writes it: in quotes, with escapes.
pub uninterp spec fn debug_quoted(s: Seq<char>) -> Seq<char>;

/// `format!` with `{:?}` on a text. The claim: what it writes depends on the text
/// alone.
#[verifier::external_body]
fn quote(s: &str) -> (r: String)
    ensures
        r@ == debug_quoted(s@),
{
    format!("{s:?}")
}

/// Why a remote path cannot be mounted.
pub open spec fn path_refusal(path: Seq<char>) -> Option<ErrorView> {
    if path.len() == 0 || path[0] != '/' {
        Some(
            ErrorView::BadParams(
                "remote path must be absolute (start with '/'), got "@ + debug_quoted(path),
            ),
        )
    } else if exists|i: int| 0 <= i < path.len() && is_control(#[trigger] path[i]) {
        Some(ErrorView::BadParams("remote path must not contain control characters"@))
    } else {
        None
    }
}

/// Check that a remote path can be mounted: it is absolute and holds no control
/// character.
pub fn validate_remote_path(path: &str) -> (r: Result<(), Error>)
    ensures
        match r {
            Ok(_) => path_refusal(path@) is None,
            Err(e) => path_refusal(path@) == Some(e@),
        },
{
    if !starts_with_char(path, '/') {
        return Err(
            Error::BadParams(
                cat2(
                    "remote path must be absolute (start with '/'), got ",
                    quote(path).as_str(),
                ),
            ),
        );
    }
    let v: Vec<char> = chars_of(path);
    let mut i: usize = 0;
    while i < v.len()
        invariant
            v@ == path@,
            path@.len() > 0,
            path@[0] == '/',
            i <= v@.len(),
            forall|j: int| 0 <= j < i ==> !is_control(#[trigger] path@[j]),
        decreases v@.len() - i,
    {
        if is_control_char(v[i]) {
            proof {
                assert(is_control(path@[i as int]));
            }
            return Err(Error::bad("remote path must not contain control characters"));
        }
        i += 1;
    }
    Ok(())
}

/// A path of a request: the one given without white space around it, or the root.
pub open spec fn path_or_root(o: Option<Seq<char>>) -> Seq<char> {
    match o {
        Some(s) => if trimmed(s).len() > 0 {
            trimmed(s)
        } else {
            "/"@
        },
        None => "/"@,
    }
}

fn path_given(o: Option<String>) -> (r: String)
    ensures
        r@ == path_or_root(opt_text(o)),
{
    if let Some(s) = o {
        let t: String = trim(s.as_str());
        if t.as_str().unicode_len() > 0 {
            return t;
        }
    }
    "/".to_owned()
}

/// A folder that is mounted, as the system's table of mounts shows it. `slug` is
/// the part below the host's folder, empty where the host's folder is itself the
/// mount.
#[derive(Debug, Clone, PartialEq)]
pub struct Mount {
    pub host: String,
    pub slug: String,
    pub mount_point: String,
    pub source: String,
}

/// What a mount says.
#[verifier::ext_equal]
pub struct MountView {
    pub host: Seq<char>,
    pub slug: Seq<char>,
    pub mount_point: Seq<char>,
    pub source: Seq<char>,
}

impl View for Mount {
    type V = MountView;

    open spec fn view(&self) -> MountView {
        MountView {
            host: self.host@,
            slug: self.slug@,
            mount_point: self.mount_point@,
            source: self.source@,
        }
    }
}

/// What a table of mounts says.
pub open spec fn mounts_view(s: Seq<Mount>) -> Seq<MountView> {
    s.map_values(|m: Mount| m@)
}

/// Whether something is mounted at a path.
pub open spec fn mounted_at(ms: Seq<MountView>, point: Seq<char>) -> bool {
    exists|i: int| 0 <= i < ms.len() && same_path((#[trigger] ms[i]).mount_point, point)
}

/// Whether a folder of a host is mounted.
pub open spec fn host_mounted(ms: Seq<MountView>, host: Seq<char>) -> bool {
    exists|i: int| 0 <= i < ms.len() && (#[trigger] ms[i]).host == host
}

/// Whether a folder of a host is mounted anywhere but at a path.
pub open spec fn mounted_elsewhere(ms: Seq<MountView>, host: Seq<char>, point: Seq<char>) -> bool {
    exists|i: int|
        0 <= i < ms.len() && (#[trigger] ms[i]).host == host && !same_path(
            ms[i].mount_point,
            point,
        )
}

/// Whether a host's own folder is a mount.
pub open spec fn legacy_mounted(ms: Seq<MountView>, host: Seq<char>) -> bool {
    exists|i: int| 0 <= i < ms.len() && (#[trigger] ms[i]).host == host && ms[i].slug.len() == 0
}

fn is_mounted_at(ms: &Vec<Mount>, point: &str) -> (r: bool)
    ensures
        r == mounted_at(mounts_view(ms@), point@),
{
    let mut i: usize = 0;
    while i < ms.len()
        invariant
            i <= ms@.len(),
            forall|j: int|
                0 <= j < i ==> !same_path((#[trigger] mounts_view(ms@)[j]).mount_point, point@),
        decreases ms@.len() - i,
    {
        proof {
            assert(mounts_view(ms@)[i as int] == ms@[i as int]@);
        }
        if is_same_path(ms[i].mount_point.as_str(), point) {
            return true;
        }
        i += 1;
    }
    false
}

fn is_host_mounted(ms: &Vec<Mount>, host: &str) -> (r: bool)
    ensures
        r == host_mounted(mounts_view(ms@), host@),
{
    let mut i: usize = 0;
    while i < ms.len()
        invariant
            i <= ms@.len(),
            forall|j: int| 0 <= j < i ==> (#[trigger] mounts_view(ms@)[j]).host != host@,
        decreases ms@.len() - i,
    {
        proof {
            assert(mounts_view(ms@)[i as int] == ms@[i as int]@);
        }
        if same_text(ms[i].host.as_str(), host) {
            return true;
        }
        i += 1;
    }
    false
}

fn is_mounted_elsewhere(ms: &Vec<Mount>, host: &str, point: &str) -> (r: bool)
    ensures
        r == mounted_elsewhere(mounts_view(ms@), host@, point@),
{
    let mut i: usize = 0;
    while i < ms.len()
        invariant
            i <= ms@.len(),
            forall|j: int|
                0 <= j < i ==> !((#[trigger] mounts_view(ms@)[j]).host == host@ && !same_path(
                    mounts_view(ms@)[j].mount_point,
                    point@,
                )),
        decreases ms@.len() - i,
    {
        proof {
            assert(mounts_view(ms@)[i as int] == ms@[i as int]@);
        }
        if same_text(ms[i].host.as_str(), host) && !is_same_path(
            ms[i].mount_point.as_str(),
            point,
        ) {
            return true;
        }
        i += 1;
    }
    false
}

fn is_legacy_mounted(ms: &Vec<Mount>, host: &str) -> (r: bool)
    ensures
        r == legacy_mounted(mounts_view(ms@), host@),
{
    let mut i: usize = 0;
    while i < ms.len()
        invariant
            i <= ms@.len(),
            forall|j: int|
                0 <= j < i ==> !((#[trigger] mounts_view(ms@)[j]).host == host@ && mounts_view(
                    ms@,
                )[j].slug.len() == 0),
        decreases ms@.len() - i,
    {
        proof {
            assert(mounts_view(ms@)[i as int] == ms@[i as int]@);
        }
        if same_text(ms[i].host.as_str(), host) && ms[i].slug.as_str().unicode_len() == 0 {
            return true;
        }
        i += 1;
    }
    false
}

/// The folder under which everything is mounted, in the home folder.
pub open spec fn root_of(home: Option<Seq<char>>) -> Seq<char> {
    joined(
        match home {
            Some(h) => h,
            None => "/tmp"@,
        },
        "Mounts"@,
    )
}

/// The folder under which everything is mounted, in the home folder.
pub fn mounts_root(home: &Option<String>) -> (r: String)
    ensures
        r@ == root_of(opt_text(*home)),
{
    match home {
        Some(h) => join_path(h.as_str(), "Mounts"),
        None => join_path("/tmp", "Mounts"),
    }
}

/// Where a folder of a host is mounted. `slug` is a name made of the remote path.
pub open spec fn point_for(root: Seq<char>, host: Seq<char>, slug: Seq<char>) -> Seq<char> {
    joined(joined(root, host), slug)
}

/// Where a folder of a host is mounted. `slug` is a name made of the remote path.
pub fn mount_point_for(root: &str, host: &str, slug: &str) -> (r: String)
    ensures
        r@ == point_for(root@, host@, slug@),
{
    join_path(join_path(root, host).as_str(), slug)
}

/// A request to mount a folder, or to unmount one.
#[derive(Debug, PartialEq)]
pub struct MountRequest {
    pub host: String,
    pub remote_path: String,
    /// The mount to be taken down, where the request addresses one.
    pub mount_point: Option<String>,
}

/// What a mount request says.
#[verifier::ext_equal]
pub struct MountRequestView {
    pub host: Seq<char>,
    pub remote_path: Seq<char>,
    pub mount_point: Option<Seq<char>>,
}

impl View for MountRequest {
    type V = MountRequestView;

    open spec fn view(&self) -> MountRequestView {
        MountRequestView {
            host: self.host@,
            remote_path: self.remote_path@,
            mount_point: opt_text(self.mount_point),
        }
    }
}

/// What a mount request asks for. Only a mount inside the mounts folder may be
/// addressed.
pub open spec fn mount_request_of(params: JsonView, root: Seq<char>) -> Result<
    MountRequestView,
    ErrorView,
> {
    match host_named(params) {
        Err(e) => Err(e),
        Ok(host) => match opt_str_of(params, "remote_path"@) {
            Err(e) => Err(e),
            Ok(given) => {
                let remote_path = path_or_root(given);
                match path_refusal(remote_path) {
                    Some(e) => Err(e),
                    None => match opt_str_of(params, "mount_point"@) {
                        Err(e) => Err(e),
                        Ok(mount_point) => if mount_point is Some && !is_inside(
                            mount_point->Some_0,
                            root,
                        ) {
                            Err(
                                ErrorView::BadParams(
                                    "mount_point must be inside the SSH2FA mounts folder"@,
                                ),
                            )
                        } else {
                            Ok(MountRequestView { host, remote_path, mount_point })
                        },
                    },
                }
            },
        },
    }
}

/// What a mount request asks for.
pub fn mount_request(params: &Json, root: &str) -> (r: Result<MountRequest, Error>)
    ensures
        match r {
            Ok(q) => mount_request_of(params@, root@) == Ok::<_, ErrorView>(q@),
            Err(e) => mount_request_of(params@, root@) == Err::<MountRequestView, _>(e@),
        },
{
    let host: String = match named_host(params) {
        Ok(host) => host,
        Err(e) => return Err(e),
    };
    let remote_path: String = match opt_str(params, "remote_path") {
        Ok(o) => path_given(o),
        Err(e) => return Err(e),
    };
    match validate_remote_path(remote_path.as_str()) {
        Ok(_) => {},
        Err(e) => return Err(e),
    }
    let mount_point: Option<String> = match opt_str(params, "mount_point") {
        Ok(o) => o,
        Err(e) => return Err(e),
    };
    if let Some(p) = &mount_point {
        if !path_is_inside(p.as_str(), root) {
            return Err(Error::bad("mount_point must be inside the SSH2FA mounts folder"));
        }
    }
    Ok(MountRequest { host, remote_path, mount_point })
}

/// Where the mounting or unmounting of a folder stands: what it waits for.
#[derive(Debug, Clone, Copy, PartialEq, Eq, Structural)]
pub enum MountPhase {
    /// The table of mounts, to decide what to do.
    Looking,
    /// The unmount of the folder.
    Unmounting,
    /// The table of mounts, to see whether the unmount worked.
    Checking,
    /// The removal of empty folders.
    Tidying,
    /// The unmount of the host's own folder, which is in the way.
    Clearing,
    /// The search for the mounting program.
    Locating,
    /// The run of the mounting program.
    Running,
    /// The table of mounts, to see whether the mount worked.
    Judging,
    /// The removal of what a failed mount left.
    Reaping,
    /// The table of mounts, for the reply.
    Closing,
    /// Nothing more.
    Over,
}

/// What the mounting program did.
#[derive(Debug, Clone, PartialEq)]
pub struct RunOutput {
    pub exit_ok: bool,
    /// How it ended, in words.
    pub status: String,
    pub stdout: Vec<u8>,
    pub stderr: Vec<u8>,
}

/// What came of an ask.
#[derive(Debug, PartialEq)]
pub enum MountEvent {
    /// The table of mounts.
    Mounts(Vec<Mount>),
    /// It was done, well or not.
    Done,
    /// Where the mounting program was found: by its name, or at the first or the
    /// second of the usual places.
    Found { by_name: bool, first: bool, second: bool },
    /// The mounting program has ended; `None` where it took too long.
    Ran(Option<RunOutput>),
}

/// What is to be done next.
#[derive(Debug, PartialEq)]
pub enum MountAsk {
    /// Read the table of mounts.
    List,
    /// Unmount a folder.
    Unmount { point: String },
    /// Remove the folder of the mount and the host's folder, where they are
    /// empty.
    Tidy { point: String, host_dir: String },
    /// Search the mounting program: by its name, and at two places.
    Locate { first: String, second: String },
    /// Make the folder and run the mounting program.
    Run { program: String, source: String, point: String, options: String },
    /// Remove what a failed mount left.
    Reap { point: String },
    /// Answer the request.
    Reply(Result<Json, Error>),
}

/// What an ask says.
#[verifier::ext_equal]
pub enum MountAskView {
    List,
    Unmount { point: Seq<char> },
    Tidy { point: Seq<char>, host_dir: Seq<char> },
    Locate { first: Seq<char>, second: Seq<char> },
    Run { program: Seq<char>, source: Seq<char>, point: Seq<char>, options: Seq<char> },
    Reap { point: Seq<char> },
    Reply(Result<JsonView, ErrorView>),
}

impl View for MountAsk {
    type V = MountAskView;

    open spec fn view(&self) -> MountAskView {
        match self {
            MountAsk::List => MountAskView::List,
            MountAsk::Unmount { point } => MountAskView::Unmount { point: point@ },
            MountAsk::Tidy { point, host_dir } => MountAskView::Tidy {
                point: point@,
                host_dir: host_dir@,
            },
            MountAsk::Locate { first, second } => MountAskView::Locate {
                first: first@,
                second: second@,
            },
            MountAsk::Run { program, source, point, options } => MountAskView::Run {
                program: program@,
                source: source@,
                point: point@,
                options: options@,
            },
            MountAsk::Reap { point } => MountAskView::Reap { point: point@ },
            MountAsk::Reply(r) => MountAskView::Reply(outcome(*r)),
        }
    }
}

/// The mounting or unmounting of one folder.
#[derive(Debug)]
pub struct MountRun {
    host: String,
    remote_path: String,
    point: String,
    addressed: bool,
    host_dir: String,
    options: String,
    macos: bool,
    phase: MountPhase,
    exit_ok: bool,
    failure: String,
}

/// What a run says. `addressed` is whether the request named an existing mount;
/// `failure` is why a mount did not work.
#[verifier::ext_equal]
pub struct MountRunView {
    pub host: Seq<char>,
    pub remote_path: Seq<char>,
    pub point: Seq<char>,
    pub addressed: bool,
    pub host_dir: Seq<char>,
    pub options: Seq<char>,
    pub macos: bool,
    pub phase: MountPhase,
    pub exit_ok: bool,
    pub failure: Seq<char>,
}

impl View for MountRun {
    type V = MountRunView;

    closed spec fn view(&self) -> MountRunView {
        MountRunView {
            host: self.host@,
            remote_path: self.remote_path@,
            point: self.point@,
            addressed: self.addressed,
            host_dir: self.host_dir@,
            options: self.options@,
            macos: self.macos,
            phase: self.phase,
            exit_ok: self.exit_ok,
            failure: self.failure@,
        }
    }
}

/// The options of the mounting program; some depend on the system.
pub open spec fn mount_options(of_system: Seq<char>) -> Seq<char> {
    "reconnect,ConnectTimeout=10,ServerAliveInterval=15,ServerAliveCountMax=3,"@ + of_system
        + "StrictHostKeyChecking=no,UserKnownHostsFile=/dev/null"@
}

/// Why a mount request is refused, once it was read.
pub open spec fn mount_refusal(
    latch: Set<Seq<char>>,
    st: StateView,
    host: Seq<char>,
) -> Option<ErrorView> {
    if latch.contains(host) {
        Some(ErrorView::Internal("mount/unmount already in progress for "@ + host))
    } else if host_at(st, host) is None {
        Some(no_host(host))
    } else if host.len() == 0 || host.contains('/') || has_part(host, ".."@) {
        Some(ErrorView::BadParams("invalid host name for mount"@))
    } else {
        None
    }
}

/// A run at its beginning.
pub open spec fn new_run(
    q: MountRequestView,
    root: Seq<char>,
    slug: Seq<char>,
    of_system: Seq<char>,
    macos: bool,
) -> MountRunView {
    MountRunView {
        host: q.host,
        remote_path: q.remote_path,
        point: match q.mount_point {
            Some(p) => p,
            None => point_for(root, q.host, slug),
        },
        addressed: q.mount_point is Some,
        host_dir: joined(root, q.host),
        options: mount_options(of_system),
        macos,
        phase: MountPhase::Looking,
        exit_ok: false,
        failure: Seq::empty(),
    }
}

fn has_char(s: &str, c: char) -> (r: bool)
    ensures
        r == s@.contains(c),
{
    let v: Vec<char> = chars_of(s);
    let mut i: usize = 0;
    while i < v.len()
        invariant
            v@ == s@,
            i <= v@.len(),
            forall|j: int| 0 <= j < i ==> #[trigger] s@[j] != c,
        decreases v@.len() - i,
    {
        if v[i] == c {
            proof {
                assert(s@[i as int] == c);
            }
            return true;
        }
        i += 1;
    }
    false
}

/// Begin to mount a folder, or to unmount one. The host stays latched until the
/// reply. `slug` is a name made of the remote path, `of_system` the mount options
/// that the system needs.
pub fn host_mount_toggle(
    latch: &mut Latch,
    state: &State,
    q: MountRequest,
    root: &str,
    slug: &str,
    of_system: &str,
    macos: bool,
) -> (r: Result<MountRun, Error>)
    ensures
        match r {
            Ok(run) => {
                &&& mount_refusal(old(latch)@, state@, q@.host) is None
                &&& run@ == new_run(q@, root@, slug@, of_system@, macos)
                &&& final(latch)@ == old(latch)@.insert(q@.host)
            },
            Err(e) => {
                &&& mount_refusal(old(latch)@, state@, q@.host) == Some(e@)
                &&& final(latch)@ == old(latch)@
            },
        },
{
    if latch.contains(q.host.as_str()) {
        return Err(
            Error::Internal(cat2("mount/unmount already in progress for ", q.host.as_str())),
        );
    }
    if state.find_host(q.host.as_str()).is_none() {
        return Err(Error::NotFound(cat2("host ", q.host.as_str())));
    }
    if q.host.as_str().unicode_len() == 0 || has_char(q.host.as_str(), '/') || contains_part(
        q.host.as_str(),
        "..",
    ) {
        return Err(Error::bad("invalid host name for mount"));
    }
    latch.try_claim(q.host.as_str());
    let MountRequest { host, remote_path, mount_point } = q;
    let addressed: bool = mount_point.is_some();
    let point: String = match mount_point {
        Some(p) => p,
        None => mount_point_for(root, host.as_str(), slug),
    };
    let host_dir: String = join_path(root, host.as_str());
    let options: String = cat3(
        "reconnect,ConnectTimeout=10,ServerAliveInterval=15,ServerAliveCountMax=3,",
        of_system,
        "StrictHostKeyChecking=no,UserKnownHostsFile=/dev/null",
    );
    proof {
        reveal_strlit("");
        assert(""@ =~= Seq::<char>::empty());
    }
    Ok(
        MountRun {
            host,
            remote_path,
            point,
            addressed,
            host_dir,
            options,
            macos,
            phase: MountPhase::Looking,
            exit_ok: false,
            failure: "".to_owned(),
        },
    )
}

/// The usual places of the program that mounts, the likelier one first.
pub open spec fn usual_places(macos: bool) -> (Seq<char>, Seq<char>) {
    if macos {
        ("/usr/local/bin/sshfs"@, "/opt/homebrew/bin/sshfs"@)
    } else {
        ("/usr/bin/sshfs"@, "/usr/local/bin/sshfs"@)
    }
}

fn places(macos: bool) -> (r: (&'static str, &'static str))
    ensures
        (r.0@, r.1@) == usual_places(macos),
{
    if macos {
        ("/usr/local/bin/sshfs", "/opt/homebrew/bin/sshfs")
    } else {
        ("/usr/bin/sshfs", "/usr/local/bin/sshfs")
    }
}

/// The program that mounts, by where it was found.
pub open spec fn mount_program(macos: bool, by_name: bool, first: bool, second: bool) -> Option<
    Seq<char>,
> {
    if by_name {
        Some("sshfs"@)
    } else if first {
        Some(usual_places(macos).0)
    } else if second {
        Some(usual_places(macos).1)
    } else {
        None
    }
}

/// How to get the program that mounts.
pub open spec fn mount_program_missing(macos: bool) -> ErrorView {
    ErrorView::Internal(
        if macos {
            "sshfs not installed — install macFUSE + sshfs to use this feature"@
        } else {
            "sshfs not installed — install it (Debian/Ubuntu: sudo apt install sshfs) to use this feature"@
        },
    )
}

/// The program that mounts, by where it was found, or how to get it.
pub fn locate_sshfs(macos: bool, by_name: bool, first: bool, second: bool) -> (r: Result<
    String,
    Error,
>)
    ensures
        match r {
            Ok(program) => mount_program(macos, by_name, first, second) == Some(program@),
            Err(e) => mount_program(macos, by_name, first, second) is None && e@
                == mount_program_missing(macos),
        },
{
    let program: &str = if by_name {
        "sshfs"
    } else if first {
        places(macos).0
    } else if second {
        places(macos).1
    } else {
        return Err(
            Error::Internal(
                if macos {
                    "sshfs not installed — install macFUSE + sshfs to use this feature".to_owned()
                } else {
                    "sshfs not installed — install it (Debian/Ubuntu: sudo apt install sshfs) to use this feature".to_owned()
                },
            ),
        );
    };
    Ok(program.to_owned())
}

/// What the mounting program said, or what is said of it where it kept silent.
pub open spec fn program_said(
    exit_ok: bool,
    status: Seq<char>,
    stdout: Seq<char>,
    stderr: Seq<char>,
) -> Seq<char> {
    if trimmed(stderr).len() > 0 {
        trimmed(stderr)
    } else if trimmed(stdout).len() > 0 {
        trimmed(stdout)
    } else if exit_ok {
        "sshfs exited 0 but no mount appeared"@
    } else {
        "sshfs exited with "@ + status
    }
}

/// What the mounting program said, or what is said of it where it kept silent.
pub fn said_by(exit_ok: bool, status: &str, stdout: &str, stderr: &str) -> (r: String)
    ensures
        r@ == program_said(exit_ok, status@, stdout@, stderr@),
{
    let err: String = trim(stderr);
    if err.as_str().unicode_len() > 0 {
        return err;
    }
    let out: String = trim(stdout);
    if out.as_str().unicode_len() > 0 {
        return out;
    }
    if exit_ok {
        "sshfs exited 0 but no mount appeared".to_owned()
    } else {
        cat2("sshfs exited with ", status)
    }
}

/// What the mounting program said, by its output.
pub open spec fn output_said(o: RunOutput) -> Seq<char> {
    program_said(o.exit_ok, o.status@, lossy(o.stdout@), lossy(o.stderr@))
}

fn output_text(o: &RunOutput) -> (r: String)
    ensures
        r@ == output_said(*o),
{
    let stdout: String = decode_lossy(&o.stdout);
    let stderr: String = decode_lossy(&o.stderr);
    said_by(o.exit_ok, o.status.as_str(), stdout.as_str(), stderr.as_str())
}

/// The remote folder as the mounting program is given it.
pub open spec fn mount_source(v: MountRunView) -> Seq<char> {
    v.host + ":"@ + v.remote_path
}

/// The answer where the addressed mount is gone already.
pub open spec fn already_unmounted(v: MountRunView) -> JsonView {
    JsonView::Obj(
        Map::empty().insert("host"@, JsonView::Str(v.host)).insert(
            "mounted"@,
            JsonView::Bool(false),
        ).insert("mount_point"@, JsonView::Str(v.point)).insert(
            "remote_path"@,
            JsonView::Str(v.remote_path),
        ).insert("note"@, JsonView::Str("already unmounted"@)),
    )
}

/// The answer at the end. It speaks of the addressed place alone, and says why a
/// mount did not work.
pub open spec fn mount_answer(v: MountRunView, active: Seq<MountView>) -> JsonView {
    let base = Map::empty().insert("host"@, JsonView::Str(v.host)).insert(
        "mounted"@,
        JsonView::Bool(mounted_at(active, v.point)),
    ).insert("mount_point"@, JsonView::Str(v.point)).insert(
        "remote_path"@,
        JsonView::Str(v.remote_path),
    ).insert(
        "host_has_other_mounts"@,
        JsonView::Bool(mounted_elsewhere(active, v.host, v.point)),
    );
    JsonView::Obj(
        if v.failure.len() > 0 {
            base.insert("error"@, JsonView::Str(v.failure))
        } else {
            base
        },
    )
}

/// The host records with another note.
pub open spec fn noted(st: StateView, host: Seq<char>, msg: Seq<char>) -> StateView {
    edit_host(st, host, |h: HostView| HostView { last_msg: msg, ..h })
}

/// The host records with another note and mark of a mount.
pub open spec fn marked(
    st: StateView,
    host: Seq<char>,
    mounted: bool,
    msg: Seq<char>,
) -> StateView {
    edit_host(st, host, |h: HostView| HostView { is_mounted: mounted, last_msg: msg, ..h })
}

/// Where a step leads.
#[verifier::ext_equal]
pub struct MountStep {
    pub run: MountRunView,
    pub latch: Set<Seq<char>>,
    pub st: StateView,
    pub ask: MountAskView,
}

/// Go on to a phase, asking for something.
pub open spec fn go_on(
    v: MountRunView,
    latch: Set<Seq<char>>,
    st: StateView,
    phase: MountPhase,
    ask: MountAskView,
) -> MountStep {
    MountStep { run: MountRunView { phase, ..v }, latch, st, ask }
}

/// Answer the request and release the host.
pub open spec fn mount_over(
    v: MountRunView,
    latch: Set<Seq<char>>,
    st: StateView,
    r: Result<JsonView, ErrorView>,
) -> MountStep {
    go_on(v, latch.remove(v.host), st, MountPhase::Over, MountAskView::Reply(r))
}

/// Whether an event is the one that is waited for.
pub open spec fn awaited(phase: MountPhase, e: MountEvent) -> bool {
    match phase {
        MountPhase::Looking => e is Mounts,
        MountPhase::Unmounting => e is Done,
        MountPhase::Checking => e is Mounts,
        MountPhase::Tidying => e is Done,
        MountPhase::Clearing => e is Done,
        MountPhase::Locating => e is Found,
        MountPhase::Running => e is Ran,
        MountPhase::Judging => e is Mounts,
        MountPhase::Reaping => e is Done,
        MountPhase::Closing => e is Mounts,
        MountPhase::Over => false,
    }
}

/// Ask for the program that mounts.
pub open spec fn locate_ask(v: MountRunView) -> MountAskView {
    MountAskView::Locate { first: usual_places(v.macos).0, second: usual_places(v.macos).1 }
}

/// What to do, by the table of mounts: unmount what is mounted, and else mount,
/// unless the request addressed a mount that is gone.
pub open spec fn mount_look(
    v: MountRunView,
    latch: Set<Seq<char>>,
    st: StateView,
    active: Seq<MountView>,
) -> MountStep {
    if mounted_at(active, v.point) {
        go_on(
            v,
            latch,
            noted(st, v.host, "Unmounting…"@),
            MountPhase::Unmounting,
            MountAskView::Unmount { point: v.point },
        )
    } else if v.addressed {
        mount_over(v, latch, st, Ok(already_unmounted(v)))
    } else if legacy_mounted(active, v.host) {
        go_on(
            v,
            latch,
            st,
            MountPhase::Clearing,
            MountAskView::Unmount { point: v.host_dir },
        )
    } else {
        go_on(v, latch, st, MountPhase::Locating, locate_ask(v))
    }
}

/// A mount has failed: what it left is removed.
pub open spec fn mount_failed(
    v: MountRunView,
    latch: Set<Seq<char>>,
    st: StateView,
    why: Seq<char>,
) -> MountStep {
    go_on(
        MountRunView { failure: why, ..v },
        latch,
        st,
        MountPhase::Reaping,
        MountAskView::Reap { point: v.point },
    )
}

/// The step on an event that is waited for. Whether something is mounted is
/// judged by the table of mounts, never by how a program ended.
pub open spec fn mount_step(
    v: MountRunView,
    latch: Set<Seq<char>>,
    st: StateView,
    e: MountEvent,
) -> MountStep {
    match (v.phase, e) {
        (MountPhase::Looking, MountEvent::Mounts(ms)) => mount_look(
            v,
            latch,
            st,
            mounts_view(ms@),
        ),
        (MountPhase::Unmounting, _) => go_on(
            v,
            latch,
            st,
            MountPhase::Checking,
            MountAskView::List,
        ),
        (MountPhase::Checking, MountEvent::Mounts(ms)) => {
            let still = mounts_view(ms@);
            if mounted_at(still, v.point) {
                go_on(
                    v,
                    latch,
                    marked(st, v.host, host_mounted(still, v.host), "Unmount failed"@),
                    MountPhase::Closing,
                    MountAskView::List,
                )
            } else {
                go_on(
                    v,
                    latch,
                    marked(st, v.host, host_mounted(still, v.host), "Unmounted"@),
                    MountPhase::Tidying,
                    MountAskView::Tidy { point: v.point, host_dir: v.host_dir },
                )
            }
        },
        (MountPhase::Tidying, _) => go_on(v, latch, st, MountPhase::Closing, MountAskView::List),
        (MountPhase::Clearing, _) => go_on(
            v,
            latch,
            st,
            MountPhase::Locating,
            locate_ask(v),
        ),
        (MountPhase::Locating, MountEvent::Found { by_name, first, second }) => match mount_program(
            v.macos,
            by_name,
            first,
            second,
        ) {
            Some(program) => go_on(
                v,
                latch,
                noted(st, v.host, "Mounting…"@),
                MountPhase::Running,
                MountAskView::Run {
                    program,
                    source: mount_source(v),
                    point: v.point,
                    options: v.options,
                },
            ),
            None => mount_over(v, latch, st, Err(mount_program_missing(v.macos))),
        },
        (MountPhase::Running, MountEvent::Ran(None)) => mount_failed(
            v,
            latch,
            st,
            "sshfs did not finish within 45s (mounting "@ + mount_source(v) + ")"@,
        ),
        (MountPhase::Running, MountEvent::Ran(Some(o))) => go_on(
            MountRunView { exit_ok: o.exit_ok, failure: output_said(o), ..v },
            latch,
            st,
            MountPhase::Judging,
            MountAskView::List,
        ),
        (MountPhase::Judging, MountEvent::Mounts(ms)) => if v.exit_ok && mounted_at(
            mounts_view(ms@),
            v.point,
        ) {
            go_on(
                MountRunView { failure: Seq::empty(), ..v },
                latch,
                marked(st, v.host, true, "Mounted "@ + v.remote_path),
                MountPhase::Closing,
                MountAskView::List,
            )
        } else {
            mount_failed(v, latch, st, v.failure)
        },
        (MountPhase::Reaping, _) => go_on(
            v,
            latch,
            marked(
                st,
                v.host,
                false,
                "Mount failed — "@ + capped_line(first_full(pieces(v.failure, '\n'))),
            ),
            MountPhase::Closing,
            MountAskView::List,
        ),
        (MountPhase::Closing, MountEvent::Mounts(ms)) => mount_over(
            v,
            latch,
            st,
            Ok(mount_answer(v, mounts_view(ms@))),
        ),
        _ => go_on(v, latch, st, MountPhase::Over, MountAskView::List),
    }
}

fn note(state: &mut State, host: &str, msg: &str)
    ensures
        final(state)@ == noted(old(state)@, host@, msg@),
{
    if let Some(i) = state.find_host(host) {
        let h: &mut Host = state.host_mut(i);
        h.last_msg = msg.to_owned();
    }
}

fn mark(state: &mut State, host: &str, mounted: bool, msg: &str)
    ensures
        final(state)@ == marked(old(state)@, host@, mounted, msg@),
{
    if let Some(i) = state.find_host(host) {
        let h: &mut Host = state.host_mut(i);
        h.is_mounted = mounted;
        h.last_msg = msg.to_owned();
    }
}

impl MountRun {
    fn source(&self) -> (r: String)
        ensures
            r@ == mount_source(self@),
    {
        cat3(self.host.as_str(), ":", self.remote_path.as_str())
    }

    fn locate(&mut self) -> (ask: MountAsk)
        ensures
            final(self)@ == (MountRunView { phase: MountPhase::Locating, ..old(self)@ }),
            ask@ == locate_ask(old(self)@),
    {
        let (first, second): (&str, &str) = places(self.macos);
        self.phase = MountPhase::Locating;
        MountAsk::Locate { first: first.to_owned(), second: second.to_owned() }
    }

    fn look(&mut self, ms: &Vec<Mount>, latch: &mut Latch, state: &mut State) -> (ask: MountAsk)
        ensures
            mount_look(old(self)@, old(latch)@, old(state)@, mounts_view(ms@)) == (MountStep {
                run: final(self)@,
                latch: final(latch)@,
                st: final(state)@,
                ask: ask@,
            }),
    {
        if is_mounted_at(ms, self.point.as_str()) {
            note(state, self.host.as_str(), "Unmounting…");
            self.phase = MountPhase::Unmounting;
            MountAsk::Unmount { point: self.point.clone() }
        } else if self.addressed {
            let mut f: Fields = Fields::new();
            f.put("host", Json::text(self.host.as_str()));
            f.put("mounted", Json::Bool(false));
            f.put("mount_point", Json::text(self.point.as_str()));
            f.put("remote_path", Json::text(self.remote_path.as_str()));
            f.put("note", Json::text("already unmounted"));
            latch.release(self.host.as_str());
            self.phase = MountPhase::Over;
            MountAsk::Reply(Ok(f.done()))
        } else if is_legacy_mounted(ms, self.host.as_str()) {
            self.phase = MountPhase::Clearing;
            MountAsk::Unmount { point: self.host_dir.clone() }
        } else {
            self.locate()
        }
    }

    fn answer(&self, ms: &Vec<Mount>) -> (j: Json)
        ensures
            j@ == mount_answer(self@, mounts_view(ms@)),
    {
        let mut f: Fields = Fields::new();
        f.put("host", Json::text(self.host.as_str()));
        f.put("mounted", Json::Bool(is_mounted_at(ms, self.point.as_str())));
        f.put("mount_point", Json::text(self.point.as_str()));
        f.put("remote_path", Json::text(self.remote_path.as_str()));
        f.put(
            "host_has_other_mounts",
            Json::Bool(is_mounted_elsewhere(ms, self.host.as_str(), self.point.as_str())),
        );
        if self.failure.as_str().unicode_len() > 0 {
            f.put("error", Json::text(self.failure.as_str()));
        }
        f.done()
    }

    /// What to ask for first.
    pub fn start(&self) -> (ask: MountAsk)
        ensures
            ask@ == MountAskView::List,
    {
        MountAsk::List
    }

    /// Take the event that is waited for, change the records accordingly and say
    /// what is to be done next.
    pub fn step(&mut self, e: MountEvent, latch: &mut Latch, state: &mut State) -> (ask: MountAsk)
        requires
            awaited(old(self)@.phase, e),
        ensures
            mount_step(old(self)@, old(latch)@, old(state)@, e) == (MountStep {
                run: final(self)@,
                latch: final(latch)@,
                st: final(state)@,
                ask: ask@,
            }),
    {
        match (self.phase, e) {
            (MountPhase::Looking, MountEvent::Mounts(ms)) => self.look(&ms, latch, state),
            (MountPhase::Unmounting, _) => {
                self.phase = MountPhase::Checking;
                MountAsk::List
            },
            (MountPhase::Checking, MountEvent::Mounts(ms)) => {
                let host_still: bool = is_host_mounted(&ms, self.host.as_str());
                if is_mounted_at(&ms, self.point.as_str()) {
                    mark(state, self.host.as_str(), host_still, "Unmount failed");
                    self.phase = MountPhase::Closing;
                    MountAsk::List
                } else {
                    mark(state, self.host.as_str(), host_still, "Unmounted");
                    self.phase = MountPhase::Tidying;
                    MountAsk::Tidy { point: self.point.clone(), host_dir: self.host_dir.clone() }
                }
            },
            (MountPhase::Tidying, _) => {
                self.phase = MountPhase::Closing;
                MountAsk::List
            },
            (MountPhase::Clearing, _) => {
                self.locate()
            },
            (MountPhase::Locating, MountEvent::Found { by_name, first, second }) => {
                match locate_sshfs(self.macos, by_name, first, second) {
                    Ok(program) => {
                        note(state, self.host.as_str(), "Mounting…");
                        self.phase = MountPhase::Running;
                        MountAsk::Run {
                            program,
                            source: self.source(),
                            point: self.point.clone(),
                            options: self.options.clone(),
                        }
                    },
                    Err(e) => {
                        latch.release(self.host.as_str());
                        self.phase = MountPhase::Over;
                        MountAsk::Reply(Err(e))
                    },
                }
            },
            (MountPhase::Running, MountEvent::Ran(None)) => {
                self.failure = cat3(
                    "sshfs did not finish within 45s (mounting ",
                    self.source().as_str(),
                    ")",
                );
                self.phase = MountPhase::Reaping;
                MountAsk::Reap { point: self.point.clone() }
            },
            (MountPhase::Running, MountEvent::Ran(Some(o))) => {
                self.exit_ok = o.exit_ok;
                self.failure = output_text(&o);
                self.phase = MountPhase::Judging;
                MountAsk::List
            },
            (MountPhase::Judging, MountEvent::Mounts(ms)) => {
                if self.exit_ok && is_mounted_at(&ms, self.point.as_str()) {
                    proof {
                        reveal_strlit("");
                        assert(""@ =~= Seq::<char>::empty());
                    }
                    self.failure = "".to_owned();
                    let msg: String = cat2("Mounted ", self.remote_path.as_str());
                    mark(state, self.host.as_str(), true, msg.as_str());
                    self.phase = MountPhase::Closing;
                    MountAsk::List
                } else {
                    self.phase = MountPhase::Reaping;
                    MountAsk::Reap { point: self.point.clone() }
                }
            },
            (MountPhase::Reaping, _) => {
                let why: String = first_line(self.failure.as_str());
                let msg: String = cat2("Mount failed — ", why.as_str());
                mark(state, self.host.as_str(), false, msg.as_str());
                self.phase = MountPhase::Closing;
                MountAsk::List
            },
            (MountPhase::Closing, MountEvent::Mounts(ms)) => {
                let reply: Json = self.answer(&ms);
                latch.release(self.host.as_str());
                self.phase = MountPhase::Over;
                MountAsk::Reply(Ok(reply))
            },
            _ => {
                self.phase = MountPhase::Over;
                MountAsk::List
            },
        }
    }
}

/// A command by its program and the first of its arguments.
pub open spec fn commands_view(s: Seq<(String, Vec<String>)>) -> Seq<(Seq<char>, Seq<Seq<char>>)> {
    s.map_values(|c: (String, Vec<String>)| (c.0@, texts(c.1@)))
}

/// What a forced unmount asks for.
#[derive(Debug, PartialEq)]
pub enum UnmountAsk {
    /// Run a command.
    Run { program: String, args: Vec<String> },
    /// Nothing more; whether a command worked.
    Done(bool),
}

/// What an ask says.
#[verifier::ext_equal]
pub enum UnmountAskView {
    Run { program: Seq<char>, args: Seq<Seq<char>> },
    Done(bool),
}

impl View for UnmountAsk {
    type V = UnmountAskView;

    open spec fn view(&self) -> UnmountAskView {
        match self {
            UnmountAsk::Run { program, args } => UnmountAskView::Run {
                program: program@,
                args: texts(args@),
            },
            UnmountAsk::Done(worked) => UnmountAskView::Done(*worked),
        }
    }
}

/// The forced unmount of a folder: one command after another, until one works.
#[derive(Debug)]
pub struct ForcedUnmount {
    commands: Vec<(String, Vec<String>)>,
    point: String,
    next: usize,
}

/// What a forced unmount says: its commands, the folder, and which command comes
/// next.
#[verifier::ext_equal]
pub struct ForcedView {
    pub commands: Seq<(Seq<char>, Seq<Seq<char>>)>,
    pub point: Seq<char>,
    pub next: nat,
}

impl View for ForcedUnmount {
    type V = ForcedView;

    closed spec fn view(&self) -> ForcedView {
        ForcedView {
            commands: commands_view(self.commands@),
            point: self.point@,
            next: self.next as nat,
        }
    }
}

/// The step of a forced unmount, by whether the last command worked: the next
/// command, with the folder as its last argument, unless that one worked or none
/// is left.
pub open spec fn unmount_step(v: ForcedView, worked: bool) -> (ForcedView, UnmountAskView) {
    if worked {
        (v, UnmountAskView::Done(true))
    } else if v.next < v.commands.len() {
        (
            ForcedView { next: v.next + 1, ..v },
            UnmountAskView::Run {
                program: v.commands[v.next as int].0,
                args: v.commands[v.next as int].1.push(v.point),
            },
        )
    } else {
        (v, UnmountAskView::Done(false))
    }
}

impl ForcedUnmount {
    /// The forced unmount of `point` by these commands.
    pub fn new(commands: Vec<(String, Vec<String>)>, point: &str) -> (f: ForcedUnmount)
        ensures
            f@ == (ForcedView { commands: commands_view(commands@), point: point@, next: 0 }),
    {
        ForcedUnmount { commands, point: point.to_owned(), next: 0 }
    }

    /// Say what is to be done next. `worked` is whether the last command did; none
    /// did at the beginning.
    pub fn step(&mut self, worked: bool) -> (ask: UnmountAsk)
        ensures
            (final(self)@, ask@) == unmount_step(old(self)@, worked),
    {
        if worked {
            return UnmountAsk::Done(true);
        }
        if self.next >= self.commands.len() {
            return UnmountAsk::Done(false);
        }
        let k: usize = self.next;
        let program: String = self.commands[k].0.clone();
        let mut args: Vec<String> = copy_texts(&self.commands[k].1);
        let ghost lead = texts(args@);
        args.push(self.point.clone());
        proof {
            assert(texts(args@) =~= lead.push(self.point@));
        }
        self.next = k + 1;
        UnmountAsk::Run { program, args }
    }
}

/// A mount in a reply.
pub open spec fn mount_json(m: MountView) -> JsonView {
    JsonView::Obj(
        Map::empty().insert("host"@, JsonView::Str(m.host)).insert(
            "mount_point"@,
            JsonView::Str(m.mount_point),
        ).insert("source"@, JsonView::Str(m.source)).insert(
            "legacy"@,
            JsonView::Bool(m.slug.len() == 0),
        ),
    )
}

/// The mounts of one host, or all, in a reply.
pub open spec fn mounts_shown(ms: Seq<MountView>, only: Option<Seq<char>>) -> Seq<JsonView>
    decreases ms.len(),
{
    if ms.len() == 0 {
        Seq::empty()
    } else if only is None || ms.last().host == only->Some_0 {
        mounts_shown(ms.drop_last(), only).push(mount_json(ms.last()))
    } else {
        mounts_shown(ms.drop_last(), only)
    }
}

/// The host records with the mark of a mount as the table of mounts has it.
pub open spec fn mounts_marked(st: StateView, ms: Seq<MountView>) -> StateView {
    StateView {
        hosts: st.hosts.map_values(
            |h: HostView| HostView { is_mounted: host_mounted(ms, h.host), ..h },
        ),
        ..st
    }
}

/// The host to which a request restricts a list of mounts.
pub open spec fn mounts_filter(params: JsonView) -> Result<Option<Seq<char>>, ErrorView> {
    match opt_str_of(params, "host"@) {
        Ok(Some(host)) => if safe_host(host) {
            Ok(Some(host))
        } else {
            Err(ErrorView::BadParams("invalid host name"@))
        },
        r => r,
    }
}

fn mark_mounts(state: &mut State, ms: &Vec<Mount>)
    ensures
        final(state)@ == mounts_marked(old(state)@, mounts_view(ms@)),
{
    let ghost st0 = state@;
    let ghost all = mounts_view(ms@);
    let mut i: usize = 0;
    while i < state.hosts.len()
        invariant
            all == mounts_view(ms@),
            i <= state.hosts@.len(),
            state@.tunnels == st0.tunnels,
            state.hosts@.len() == st0.hosts.len(),
            forall|j: int|
                0 <= j < i ==> #[trigger] state@.hosts[j] == (HostView {
                    is_mounted: host_mounted(all, st0.hosts[j].host),
                    ..st0.hosts[j]
                }),
            forall|j: int| i <= j < st0.hosts.len() ==> #[trigger] state@.hosts[j] == st0.hosts[j],
        decreases st0.hosts.len() - i,
    {
        proof {
            assert(state@.hosts[i as int] == st0.hosts[i as int]);
        }
        let mounted: bool = is_host_mounted(ms, state.hosts[i].host.as_str());
        let h: &mut Host = state.host_mut(i);
        h.is_mounted = mounted;
        proof {
            assert(state@.hosts.len() == state.hosts@.len());
        }
        i += 1;
    }
    proof {
        assert(state@.hosts =~= mounts_marked(st0, all).hosts);
    }
}

/// List what is mounted. `active` is the table of mounts; the host records are
/// brought in line with it.
pub fn host_mounts(
    state: &mut State,
    params: &Json,
    active: &Vec<Mount>,
) -> (r: Result<Json, Error>)
    ensures
        match mounts_filter(params@) {
            Ok(only) => {
                &&& outcome(r) == Ok::<_, ErrorView>(
                    JsonView::Obj(
                        Map::empty().insert(
                            "mounts"@,
                            JsonView::Arr(mounts_shown(mounts_view(active@), only)),
                        ),
                    ),
                )
                &&& final(state)@ == mounts_marked(old(state)@, mounts_view(active@))
            },
            Err(e) => {
                &&& outcome(r) == Err::<JsonView, _>(e)
                &&& final(state)@ == old(state)@
            },
        },
{
    let only: Option<String> = match opt_str(params, "host") {
        Ok(o) => o,
        Err(e) => return Err(e),
    };
    if let Some(host) = &only {
        if !valid_host_name(host.as_str()) {
            return Err(Error::bad("invalid host name"));
        }
    }
    let ghost all = mounts_view(active@);
    let ghost wanted = opt_text(only);
    let mut out: Items = Items::new();
    let mut i: usize = 0;
    proof {
        assert(out@ =~= mounts_shown(all.take(0), wanted));
    }
    while i < active.len()
        invariant
            all == mounts_view(active@),
            wanted == opt_text(only),
            i <= active@.len(),
            out@ == mounts_shown(all.take(i as int), wanted),
        decreases active@.len() - i,
    {
        proof {
            assert(all.take(i + 1).drop_last() =~= all.take(i as int));
            assert(all.take(i + 1).last() == active@[i as int]@);
        }
        let m: &Mount = &active[i];
        let shown: bool = match &only {
            Some(host) => same_text(m.host.as_str(), host.as_str()),
            None => true,
        };
        if shown {
            let mut f: Fields = Fields::new();
            f.put("host", Json::text(m.host.as_str()));
            f.put("mount_point", Json::text(m.mount_point.as_str()));
            f.put("source", Json::text(m.source.as_str()));
            f.put("legacy", Json::Bool(m.slug.as_str().unicode_len() == 0));
            out.push(f.done());
        }
        i += 1;
    }
    proof {
        assert(all.take(i as int) =~= all);
    }
    mark_mounts(state, active);
    let mut f: Fields = Fields::new();
    f.put("mounts", out.done());
    Ok(f.done())
}

/// The mount points of a host, or the one given of them.
pub open spec fn points_of(ms: Seq<MountView>, host: Seq<char>, only: Option<Seq<char>>) -> Seq<
    Seq<char>,
>
    decreases ms.len(),
{
    if ms.len() == 0 {
        Seq::empty()
    } else if ms.last().host == host && (only is None || ms.last().mount_point == only->Some_0) {
        points_of(ms.drop_last(), host, only).push(ms.last().mount_point)
    } else {
        points_of(ms.drop_last(), host, only)
    }
}

/// The mount points of a host, or the one given of them.
pub fn host_points(active: &Vec<Mount>, host: &str, only: &Option<String>) -> (r: Vec<String>)
    ensures
        texts(r@) == points_of(mounts_view(active@), host@, opt_text(*only)),
{
    let ghost all = mounts_view(active@);
    let ghost wanted = opt_text(*only);
    let mut r: Vec<String> = Vec::new();
    let mut i: usize = 0;
    proof {
        assert(texts(r@) =~= points_of(all.take(0), host@, wanted));
    }
    while i < active.len()
        invariant
            all == mounts_view(active@),
            wanted == opt_text(*only),
            i <= active@.len(),
            texts(r@) == points_of(all.take(i as int), host@, wanted),
        decreases active@.len() - i,
    {
        proof {
            assert(all.take(i + 1).drop_last() =~= all.take(i as int));
            assert(all.take(i + 1).last() == active@[i as int]@);
        }
        let m: &Mount = &active[i];
        let fits: bool = match only {
            Some(p) => same_text(m.mount_point.as_str(), p.as_str()),
            None => true,
        };
        if fits && same_text(m.host.as_str(), host) {
            let ghost before = texts(r@);
            let point: String = m.mount_point.clone();
            r.push(point);
            proof {
                assert(texts(r@) =~= before.push(point@));
            }
        }
        i += 1;
    }
    proof {
        assert(all.take(i as int) =~= all);
    }
    r
}

/// What a request to repair mounts leads to.
#[derive(Debug, PartialEq)]
pub enum RepairStep {
    /// Nothing is mounted; the reply says so.
    Nothing(Json),
    /// These mounts are to be forced down. The host stays latched.
    Repair { host: String, points: Vec<String> },
}

/// What a request to repair mounts asks for: the host, and the mount where it
/// addresses one.
pub open spec fn repair_request(params: JsonView) -> Result<
    (Seq<char>, Option<Seq<char>>),
    ErrorView,
> {
    match host_of(params) {
        Err(e) => Err(e),
        Ok(host) => match opt_str_of(params, "mount_point"@) {
            Err(e) => Err(e),
            Ok(only) => Ok((host, only)),
        },
    }
}

/// The answer where there is nothing to repair.
pub open spec fn nothing_mounted(host: Seq<char>) -> JsonView {
    JsonView::Obj(
        Map::empty().insert("host"@, JsonView::Str(host)).insert(
            "repaired"@,
            JsonView::Uint(0),
        ).insert("reason"@, JsonView::Str("nothing is mounted for this host"@)),
    )
}

/// Begin to force down the mounts of a host. `active` is the table of mounts.
pub fn host_mount_repair(latch: &mut Latch, params: &Json, active: &Vec<Mount>) -> (r: Result<
    RepairStep,
    Error,
>)
    ensures
        match repair_request(params@) {
            Err(e) => {
                &&& r is Err && r->Err_0@ == e
                &&& final(latch)@ == old(latch)@
            },
            Ok((host, only)) => {
                let points = points_of(mounts_view(active@), host, only);
                if points.len() == 0 {
                    &&& r is Ok && r->Ok_0 is Nothing && r->Ok_0->Nothing_0@ == nothing_mounted(
                        host,
                    )
                    &&& final(latch)@ == old(latch)@
                } else if old(latch)@.contains(host) {
                    &&& r is Err && r->Err_0@ == ErrorView::Internal(
                        "mount/unmount already in progress for "@ + host,
                    )
                    &&& final(latch)@ == old(latch)@
                } else {
                    &&& r is Ok && r->Ok_0 is Repair && r->Ok_0->host@ == host && texts(
                        r->Ok_0->points@,
                    ) == points
                    &&& final(latch)@ == old(latch)@.insert(host)
                }
            },
        },
{
    let host: String = match host_param(params) {
        Ok(host) => host,
        Err(e) => return Err(e),
    };
    let only: Option<String> = match opt_str(params, "mount_point") {
        Ok(o) => o,
        Err(e) => return Err(e),
    };
    let points: Vec<String> = host_points(active, host.as_str(), &only);
    proof {
        assert(texts(points@).len() == points@.len());
    }
    if points.len() == 0 {
        let mut f: Fields = Fields::new();
        f.put("host", Json::text(host.as_str()));
        f.put("repaired", Json::Uint(0));
        f.put("reason", Json::text("nothing is mounted for this host"));
        return Ok(RepairStep::Nothing(f.done()));
    }
    if latch.contains(host.as_str()) {
        return Err(
            Error::Internal(cat2("mount/unmount already in progress for ", host.as_str())),
        );
    }
    latch.try_claim(host.as_str());
    Ok(RepairStep::Repair { host, points })
}

/// Whether a path is among others.
pub open spec fn path_among(points: Seq<Seq<char>>, p: Seq<char>) -> bool {
    exists|i: int| 0 <= i < points.len() && same_path(#[trigger] points[i], p)
}

/// How many of these places are mounted still.
pub open spec fn still_mounted(ms: Seq<MountView>, points: Seq<Seq<char>>) -> nat
    decreases ms.len(),
{
    if ms.len() == 0 {
        0
    } else {
        still_mounted(ms.drop_last(), points) + (if path_among(points, ms.last().mount_point) {
            1nat
        } else {
            0nat
        })
    }
}

fn is_path_among(points: &Vec<String>, p: &str) -> (r: bool)
    ensures
        r == path_among(texts(points@), p@),
{
    let mut i: usize = 0;
    while i < points.len()
        invariant
            i <= points@.len(),
            forall|j: int| 0 <= j < i ==> !same_path(#[trigger] texts(points@)[j], p@),
        decreases points@.len() - i,
    {
        proof {
            assert(texts(points@)[i as int] == points@[i as int]@);
        }
        if is_same_path(points[i].as_str(), p) {
            return true;
        }
        i += 1;
    }
    false
}

fn count_still(ms: &Vec<Mount>, points: &Vec<String>) -> (n: usize)
    ensures
        n == still_mounted(mounts_view(ms@), texts(points@)),
        n <= ms@.len(),
{
    let ghost all = mounts_view(ms@);
    let mut n: usize = 0;
    let mut i: usize = 0;
    while i < ms.len()
        invariant
            all == mounts_view(ms@),
            n <= i <= ms@.len(),
            n == still_mounted(all.take(i as int), texts(points@)),
        decreases ms@.len() - i,
    {
        proof {
            assert(all.take(i + 1).drop_last() =~= all.take(i as int));
            assert(all.take(i + 1).last() == ms@[i as int]@);
        }
        if is_path_among(points, ms[i].mount_point.as_str()) {
            n += 1;
        }
        i += 1;
    }
    proof {
        assert(all.take(i as int) =~= all);
    }
    n
}

/// The mounts were forced down as far as they would go. `active` is the table of
/// mounts after that; the host is released. More places listed now than were to
/// be repaired count as none repaired.
pub fn host_mount_repaired(
    latch: &mut Latch,
    state: &mut State,
    host: &str,
    points: &Vec<String>,
    active: &Vec<Mount>,
) -> (j: Json)
    ensures
        ({
            let still = still_mounted(mounts_view(active@), texts(points@));
            &&& final(latch)@ == old(latch)@.remove(host@)
            &&& final(state)@ == marked(
                old(state)@,
                host@,
                still > 0,
                if still == 0 {
                    "Mounts repaired"@
                } else {
                    "Repair incomplete"@
                },
            )
            &&& j@ == JsonView::Obj(
                Map::empty().insert("host"@, JsonView::Str(host@)).insert(
                    "repaired"@,
                    JsonView::Uint(
                        if still < points@.len() {
                            (points@.len() - still) as u64
                        } else {
                            0
                        },
                    ),
                ).insert("still_mounted"@, JsonView::Uint(still as u64)),
            )
        }),
{
    let still: usize = count_still(active, points);
    let msg: &str = if still == 0 {
        "Mounts repaired"
    } else {
        "Repair incomplete"
    };
    mark(state, host, still > 0, msg);
    latch.release(host);
    let mut f: Fields = Fields::new();
    f.put("host", Json::text(host));
    f.put("repaired", Json::Uint(points.len().saturating_sub(still) as u64));
    f.put("still_mounted", Json::Uint(still as u64));
    f.done()
}

/// Whether a process belongs to a mount, by its command line.
pub fn is_mount_process(command: &str, marks: &Vec<String>) -> (r: bool)
    ensures
        r == exists|i: int| 0 <= i < marks@.len() && has_part(command@, #[trigger] marks@[i]@),
{
    let mut i: usize = 0;
    while i < marks.len()
        invariant
            i <= marks@.len(),
            forall|j: int| 0 <= j < i ==> !has_part(command@, #[trigger] marks@[j]@),
        decreases marks@.len() - i,
    {
        if contains_part(command, marks[i].as_str()) {
            return true;
        }
        i += 1;
    }
    false
}

/// Whether a process belongs to a mount, by its command line as it was listed.
pub fn is_mount_command(listing: &Vec<u8>, marks: &Vec<String>) -> (r: bool)
    ensures
        r == exists|i: int|
            0 <= i < marks@.len() && has_part(lossy(listing@), #[trigger] marks@[i]@),
{
    let command: String = decode_lossy(listing);
    is_mount_process(command.as_str(), marks)
}

/// The processes that a search found: the words of its output, where it found any.
pub fn found_processes(found: bool, listing: &Vec<u8>) -> (r: Vec<String>)
    ensures
        texts(r@) == (if found {
            words(lossy(listing@))
        } else {
            Seq::empty()
        }),
{
    if found {
        let text: String = decode_lossy(listing);
        split_words(text.as_str())
    } else {
        let none: Vec<String> = Vec::new();
        proof {
            assert(texts(none@) =~= Seq::empty());
        }
        none
    }
}

/// What to list for a request to browse a host's folders: the host and the path.
pub open spec fn list_request(st: StateView, params: JsonView) -> Result<
    (Seq<char>, Seq<char>),
    ErrorView,
> {
    match host_of(params) {
        Err(e) => Err(e),
        Ok(host) => match host_at(st, host) {
            None => Err(ErrorView::NotFound(host)),
            Some(i) => if !st.hosts[i].is_master_ready {
                Err(
                    ErrorView::Internal(
                        host + " isn't connected — connect it first to browse its folders"@,
                    ),
                )
            } else {
                match opt_str_of(params, "path"@) {
                    Err(e) => Err(e),
                    Ok(given) => match path_refusal(path_or_root(given)) {
                        Some(e) => Err(e),
                        None => Ok((host, path_or_root(given))),
                    },
                }
            },
        },
    }
}

/// What to list for a request to browse a host's folders: the host and the path.
pub fn host_list_dir(state: &State, params: &Json) -> (r: Result<(String, String), Error>)
    ensures
        match r {
            Ok(p) => list_request(state@, params@) == Ok::<_, ErrorView>((p.0@, p.1@)),
            Err(e) => list_request(state@, params@) == Err::<(Seq<char>, Seq<char>), _>(e@),
        },
{
    let host: String = match host_param(params) {
        Ok(host) => host,
        Err(e) => return Err(e),
    };
    match state.find_host(host.as_str()) {
        None => return Err(Error::NotFound(host)),
        Some(i) => {
            if !state.hosts[i].is_master_ready {
                return Err(
                    Error::Internal(
                        cat2(
                            host.as_str(),
                            " isn't connected — connect it first to browse its folders",
                        ),
                    ),
                );
            }
        },
    }
    let path: String = match opt_str(params, "path") {
        Ok(o) => path_given(o),
        Err(e) => return Err(e),
    };
    match validate_remote_path(path.as_str()) {
        Ok(_) => Ok((host, path)),
        Err(e) => Err(e),
    }
}

/// An entry of a remote folder.
#[derive(Debug, Clone, PartialEq)]
pub struct DirEntry {
    pub name: String,
    pub is_dir: bool,
}

/// The path of an entry; at the root the slash is not doubled.
pub open spec fn entry_path(path: Seq<char>, name: Seq<char>) -> Seq<char> {
    if path == "/"@ {
        "/"@ + name
    } else {
        path + "/"@ + name
    }
}

/// The folders among some entries, in a reply.
pub open spec fn folders_shown(path: Seq<char>, entries: Seq<DirEntry>) -> Seq<JsonView>
    decreases entries.len(),
{
    if entries.len() == 0 {
        Seq::empty()
    } else {
        let found = folders_shown(path, entries.drop_last());
        let e = entries.last();
        if e.is_dir {
            found.push(
                JsonView::Obj(
                    Map::empty().insert("name"@, JsonView::Str(e.name@)).insert(
                        "path"@,
                        JsonView::Str(entry_path(path, e.name@)),
                    ),
                ),
            )
        } else {
            found
        }
    }
}

/// The folders of a remote folder in a reply.
pub fn list_dir_reply(host: &str, path: &str, entries: &Vec<DirEntry>) -> (j: Json)
    ensures
        j@ == JsonView::Obj(
            Map::empty().insert("host"@, JsonView::Str(host@)).insert(
                "path"@,
                JsonView::Str(path@),
            ).insert("entries"@, JsonView::Arr(folders_shown(path@, entries@))),
        ),
{
    let mut out: Items = Items::new();
    let mut i: usize = 0;
    proof {
        assert(out@ =~= folders_shown(path@, entries@.take(0)));
    }
    while i < entries.len()
        invariant
            i <= entries@.len(),
            out@ == folders_shown(path@, entries@.take(i as int)),
        decreases entries@.len() - i,
    {
        proof {
            assert(entries@.take(i + 1).drop_last() =~= entries@.take(i as int));
            assert(entries@.take(i + 1).last() == entries@[i as int]);
        }
        if entries[i].is_dir {
            let name: &str = entries[i].name.as_str();
            let full: String = if same_text(path, "/") {
                cat2("/", name)
            } else {
                cat3(path, "/", name)
            };
            let mut f: Fields = Fields::new();
            f.put("name", Json::text(name));
            f.put("path", Json::text(full.as_str()));
            out.push(f.done());
        }
        i += 1;
    }
    proof {
        assert(entries@.take(i as int) =~= entries@);
    }
    let mut f: Fields = Fields::new();
    f.put("host", Json::text(host));
    f.put("path", Json::text(path));
    f.put("entries", out.done());
    f.done()
}

/// A status row never gets more than a hundred and twenty characters of a line.
pub proof fn law_status_lines_fit(s: Seq<char>)
    ensures
        capped_line(s).len() <= 120,
{
    reveal_strlit("…");
}

/// Every folder is mounted inside the mounts folder, two steps below it.
pub proof fn law_mounts_stay_inside(root: Seq<char>, host: Seq<char>, slug: Seq<char>)
    requires
        root.len() > 0,
        one_name(host),
        one_name(slug),
    ensures
        is_inside(point_for(root, host, slug), root),
        steps(point_for(root, host, slug)) == steps(root).push(host).push(slug),
{
    lemma_join_steps(root, host);
    lemma_join_steps(joined(root, host), slug);
    assert(steps(root).push(host).push(slug).take(steps(root).len() as int) =~= steps(root));
}

/// Folders of different hosts, and folders of one host with different names, are
/// mounted at different places.
pub proof fn law_mount_points_are_distinct(
    root: Seq<char>,
    host1: Seq<char>,
    slug1: Seq<char>,
    host2: Seq<char>,
    slug2: Seq<char>,
)
    requires
        root.len() > 0,
        one_name(host1),
        one_name(slug1),
        one_name(host2),
        one_name(slug2),
        host1 != host2 || slug1 != slug2,
    ensures
        !same_path(point_for(root, host1, slug1), point_for(root, host2, slug2)),
{
    law_mounts_stay_inside(root, host1, slug1);
    law_mounts_stay_inside(root, host2, slug2);
    let a = steps(root).push(host1).push(slug1);
    let b = steps(root).push(host2).push(slug2);
    let n = steps(root).len() as int;
    assert(a[n] == host1 && b[n] == host2);
    assert(a[n + 1] == slug1 && b[n + 1] == slug2);
}

/// Whether a run has not gone into mounting.
pub open spec fn only_unmounts(phase: MountPhase) -> bool {
    match phase {
        MountPhase::Looking | MountPhase::Unmounting | MountPhase::Checking | MountPhase::Tidying
        | MountPhase::Closing | MountPhase::Over => true,
        _ => false,
    }
}

/// A request that addresses a mount never mounts anything, nor needs the mounting
/// program: it unmounts, or finds the mount gone.
pub proof fn law_addressed_mounts_are_only_taken_down(
    v: MountRunView,
    latch: Set<Seq<char>>,
    st: StateView,
    e: MountEvent,
)
    requires
        v.addressed,
        only_unmounts(v.phase),
        awaited(v.phase, e),
    ensures
        ({
            let next = mount_step(v, latch, st, e);
            &&& next.run.addressed
            &&& only_unmounts(next.run.phase)
            &&& !(next.ask is Locate) && !(next.ask is Run) && !(next.ask is Reap)
        }),
{
}

/// The host stays latched until the request is answered, and is released with the
/// answer.
pub proof fn law_a_host_is_latched_until_the_answer(
    v: MountRunView,
    latch: Set<Seq<char>>,
    st: StateView,
    e: MountEvent,
)
    requires
        latch.contains(v.host),
        awaited(v.phase, e),
    ensures
        ({
            let next = mount_step(v, latch, st, e);
            &&& next.run.host == v.host
            &&& next.latch == (if next.ask is Reply {
                latch.remove(v.host)
            } else {
                latch
            })
        }),
{
}

/// A remote path can be mounted exactly where it begins at the root and holds no
/// control character.
pub proof fn law_which_remote_paths_can_be_mounted(path: Seq<char>)
    ensures
        path_refusal(path) is None <==> path.len() > 0 && path[0] == '/' && forall|i: int|
            0 <= i < path.len() ==> !(#[trigger] path[i] as u32 <= 0x1F || 0x7F <= path[i] as u32
                <= 0x9F),
{
    if exists|i: int| 0 <= i < path.len() && is_control(#[trigger] path[i]) {
        let i = choose|i: int| 0 <= i < path.len() && is_control(#[trigger] path[i]);
        assert(path[i] as u32 <= 0x1F || 0x7F <= path[i] as u32 <= 0x9F);
    } else {
        assert forall|i: int| 0 <= i < path.len() implies !(#[trigger] path[i] as u32 <= 0x1F || 0x7F
            <= path[i] as u32 <= 0x9F) by {
            assert(!is_control(path[i]));
        }
    }
}

/// A request to mount is what it says: of the host that it names, of its remote path or
/// else the root, and of the mount that it addresses, which must lie in the mounts
/// folder.
pub proof fn law_a_mount_request_is_what_it_says(
    m: Map<Seq<char>, JsonView>,
    root: Seq<char>,
    host: Seq<char>,
)
    requires
        m.contains_key("host"@),
        m["host"@] == JsonView::Str(host),
    ensures
        mount_request_of(JsonView::Obj(m), root) matches Ok(q) ==> {
            &&& q.host == host
            &&& !m.contains_key("remote_path"@) ==> q.remote_path == "/"@
            &&& m.contains_key("remote_path"@) && m["remote_path"@] is Str && trimmed(
                m["remote_path"@]->Str_0,
            ).len() > 0 ==> q.remote_path == trimmed(m["remote_path"@]->Str_0)
            &&& !m.contains_key("mount_point"@) ==> q.mount_point is None
            &&& m.contains_key("mount_point"@) && m["mount_point"@] is Str ==> q.mount_point
                == Some(m["mount_point"@]->Str_0)
            &&& q.mount_point matches Some(p) ==> is_inside(p, root)
            &&& path_refusal(q.remote_path) is None
        },
        m.contains_key("mount_point"@) && m["mount_point"@] is Str && !is_inside(
            m["mount_point"@]->Str_0,
            root,
        ) ==> mount_request_of(JsonView::Obj(m), root) is Err,
{
}

/// A mount or unmount is begun exactly for a known host with a name that is one folder,
/// and none other of the host under way. It is for the addressed mount, or else for the
/// place of the remote path in the host's own folder.
pub proof fn law_a_mount_is_begun_for_its_place(
    latch: Set<Seq<char>>,
    st: StateView,
    q: MountRequestView,
    root: Seq<char>,
    slug: Seq<char>,
    of_system: Seq<char>,
    macos: bool,
)
    ensures
        mount_refusal(latch, st, q.host) is None <==> {
            &&& !latch.contains(q.host)
            &&& exists|i: int| 0 <= i < st.hosts.len() && (#[trigger] st.hosts[i]).host == q.host
            &&& q.host.len() > 0 && !q.host.contains('/') && !has_part(q.host, ".."@)
        },
        ({
            let v = new_run(q, root, slug, of_system, macos);
            &&& v.host == q.host
            &&& v.remote_path == q.remote_path
            &&& q.mount_point matches Some(p) ==> v.point == p && v.addressed
            &&& q.mount_point is None ==> !v.addressed && v.point == joined(
                joined(root, q.host),
                slug,
            )
            &&& v.host_dir == joined(root, q.host)
            &&& v.phase == MountPhase::Looking
            &&& v.failure.len() == 0
        }),
{
    law_a_name_addresses_the_first_host(st, q.host, 0);
    if host_at(st, q.host) is Some {
        let i = host_at(st, q.host)->Some_0;
        law_a_name_addresses_the_first_host(st, q.host, i);
        assert(st.hosts[i].host == q.host);
    }
}

/// What the table of mounts shows at the place decides: what is mounted there is
/// unmounted; an addressed mount that is gone is answered as such; and else the folder
/// is mounted, once a mount of the host's own folder is out of the way.
pub proof fn law_the_table_decides_what_is_done(
    v: MountRunView,
    latch: Set<Seq<char>>,
    st: StateView,
    ms: Vec<Mount>,
)
    requires
        v.phase == MountPhase::Looking,
    ensures
        ({
            let next = mount_step(v, latch, st, MountEvent::Mounts(ms));
            let there = exists|i: int|
                0 <= i < ms@.len() && same_path((#[trigger] ms@[i]).mount_point@, v.point);
            let in_the_way = exists|i: int|
                0 <= i < ms@.len() && (#[trigger] ms@[i]).host@ == v.host && ms@[i].slug@.len()
                    == 0;
            &&& there ==> next.ask == (MountAskView::Unmount { point: v.point })
            &&& !there && v.addressed ==> (next.ask matches MountAskView::Reply(Ok(j)) && bool_at(
                j,
                "mounted"@,
            ) == Some(false) && str_at(j, "mount_point"@) == Some(v.point)) && next.st == st
            &&& !there && !v.addressed && in_the_way ==> next.ask == (MountAskView::Unmount {
                point: v.host_dir,
            })
            &&& !there && !v.addressed && !in_the_way ==> next.ask is Locate
            &&& next.run.point == v.point && next.run.host == v.host && next.run.remote_path
                == v.remote_path
        }),
{
    let active = mounts_view(ms@);
    lemma_table(ms@, v.host, v.point);
    reveal_strlit("host");
    reveal_strlit("mounted");
    reveal_strlit("mount_point");
    reveal_strlit("remote_path");
    reveal_strlit("note");
    assert("host"@.len() == 4 && "mounted"@.len() == 7 && "mount_point"@.len() == 11
        && "remote_path"@.len() == 11 && "note"@.len() == 4);
    assert("mount_point"@[0] == 'm' && "remote_path"@[0] == 'r');
}

proof fn lemma_table(ms: Seq<Mount>, host: Seq<char>, point: Seq<char>)
    ensures
        mounted_at(mounts_view(ms), point) == exists|i: int|
            0 <= i < ms.len() && same_path((#[trigger] ms[i]).mount_point@, point),
        legacy_mounted(mounts_view(ms), host) == exists|i: int|
            0 <= i < ms.len() && (#[trigger] ms[i]).host@ == host && ms[i].slug@.len() == 0,
        host_mounted(mounts_view(ms), host) == exists|i: int|
            0 <= i < ms.len() && (#[trigger] ms[i]).host@ == host,
{
    let v = mounts_view(ms);
    assert forall|i: int| 0 <= i < ms.len() implies (#[trigger] v[i]) == ms[i]@ by {}
    if mounted_at(v, point) {
        let i = choose|i: int| 0 <= i < v.len() && same_path((#[trigger] v[i]).mount_point, point);
        assert(same_path(ms[i].mount_point@, point));
    }
    if exists|i: int| 0 <= i < ms.len() && same_path((#[trigger] ms[i]).mount_point@, point) {
        let i = choose|i: int|
            0 <= i < ms.len() && same_path((#[trigger] ms[i]).mount_point@, point);
        assert(same_path(v[i].mount_point, point));
    }
    if legacy_mounted(v, host) {
        let i = choose|i: int|
            0 <= i < v.len() && (#[trigger] v[i]).host == host && v[i].slug.len() == 0;
        assert(ms[i].host@ == host);
    }
    if exists|i: int|
        0 <= i < ms.len() && (#[trigger] ms[i]).host@ == host && ms[i].slug@.len() == 0 {
        let i = choose|i: int|
            0 <= i < ms.len() && (#[trigger] ms[i]).host@ == host && ms[i].slug@.len() == 0;
        assert(v[i].host == host);
    }
    if host_mounted(v, host) {
        let i = choose|i: int| 0 <= i < v.len() && (#[trigger] v[i]).host == host;
        assert(ms[i].host@ == host);
    }
    if exists|i: int| 0 <= i < ms.len() && (#[trigger] ms[i]).host@ == host {
        let i = choose|i: int| 0 <= i < ms.len() && (#[trigger] ms[i]).host@ == host;
        assert(v[i].host == host);
    }
}

/// The mounting program is run on the remote folder of the host and for the place of
/// the run, where it was found; else the request is refused and the host released.
pub proof fn law_the_remote_folder_is_mounted_at_its_place(
    v: MountRunView,
    latch: Set<Seq<char>>,
    st: StateView,
    by_name: bool,
    first: bool,
    second: bool,
)
    requires
        v.phase == MountPhase::Locating,
    ensures
        ({
            let next = mount_step(v, latch, st, MountEvent::Found { by_name, first, second });
            if by_name || first || second {
                &&& next.ask matches MountAskView::Run { program, source, point, options }
                &&& source == v.host + ":"@ + v.remote_path
                &&& point == v.point
                &&& options == v.options
                &&& by_name ==> program == "sshfs"@
                &&& !by_name && first ==> program == usual_places(v.macos).0
                &&& !by_name && !first ==> program == usual_places(v.macos).1
                &&& next.latch == latch
            } else {
                &&& next.ask matches MountAskView::Reply(Err(ErrorView::Internal(_)))
                &&& next.latch == latch.remove(v.host)
                &&& next.st == st
            }
        }),
{
}

/// Whether a mount worked is judged by the table: it did exactly where the program
/// ended well and the place is in the table. Then the host is marked as mounted; else
/// what the mount left is removed, and the host is marked as not mounted.
pub proof fn law_the_table_judges_a_mount(
    v: MountRunView,
    latch: Set<Seq<char>>,
    st: StateView,
    ms: Vec<Mount>,
    k: int,
)
    requires
        0 <= k < st.hosts.len(),
        st.hosts[k].host == v.host,
        forall|j: int| 0 <= j < k ==> (#[trigger] st.hosts[j]).host != v.host,
    ensures
        ({
            let next = mount_step(
                MountRunView { phase: MountPhase::Judging, ..v },
                latch,
                st,
                MountEvent::Mounts(ms),
            );
            let worked = v.exit_ok && exists|i: int|
                0 <= i < ms@.len() && same_path((#[trigger] ms@[i]).mount_point@, v.point);
            &&& worked ==> next.st.hosts[k].is_mounted && next.run.failure.len() == 0
                && next.ask is List
            &&& !worked ==> next.ask == (MountAskView::Reap { point: v.point }) && next.st == st
                && next.run.failure == v.failure
        }),
        ({
            let next = mount_step(
                MountRunView { phase: MountPhase::Reaping, ..v },
                latch,
                st,
                MountEvent::Done,
            );
            !next.st.hosts[k].is_mounted && next.run.failure == v.failure && next.ask is List
        }),
        ({
            let next = mount_step(
                MountRunView { phase: MountPhase::Running, ..v },
                latch,
                st,
                MountEvent::Ran(None),
            );
            next.ask == (MountAskView::Reap { point: v.point }) && next.run.failure.len() > 0
        }),
{
    lemma_table(ms@, v.host, v.point);
    law_a_name_addresses_the_first_host(st, v.host, k);
    reveal_strlit("sshfs did not finish within 45s (mounting ");
    assert("sshfs did not finish within 45s (mounting "@.len() > 0);
}

/// An unmount is judged by the table too: where the place is still in it the unmount
/// failed and nothing is tidied up; else the folders are. The host is marked as mounted
/// exactly where the table still has a mount of it.
pub proof fn law_the_table_judges_an_unmount(
    v: MountRunView,
    latch: Set<Seq<char>>,
    st: StateView,
    ms: Vec<Mount>,
    k: int,
)
    requires
        v.phase == MountPhase::Checking,
        0 <= k < st.hosts.len(),
        st.hosts[k].host == v.host,
        forall|j: int| 0 <= j < k ==> (#[trigger] st.hosts[j]).host != v.host,
    ensures
        ({
            let next = mount_step(v, latch, st, MountEvent::Mounts(ms));
            let there = exists|i: int|
                0 <= i < ms@.len() && same_path((#[trigger] ms@[i]).mount_point@, v.point);
            &&& next.st.hosts[k].is_mounted == exists|i: int|
                0 <= i < ms@.len() && (#[trigger] ms@[i]).host@ == v.host
            &&& there ==> next.ask is List
            &&& !there ==> next.ask == (MountAskView::Tidy { point: v.point, host_dir: v.host_dir })
        }),
{
    lemma_table(ms@, v.host, v.point);
    law_a_name_addresses_the_first_host(st, v.host, k);
}

/// The answer says whether the place is mounted, as the table has it at the end, which
/// place and which remote path it is, and why a mount failed where one did.
pub proof fn law_the_answer_is_what_the_table_shows(
    v: MountRunView,
    latch: Set<Seq<char>>,
    st: StateView,
    ms: Vec<Mount>,
)
    requires
        v.phase == MountPhase::Closing,
    ensures
        ({
            let next = mount_step(v, latch, st, MountEvent::Mounts(ms));
            &&& next.ask matches MountAskView::Reply(Ok(j)) && {
                &&& str_at(j, "host"@) == Some(v.host)
                &&& bool_at(j, "mounted"@) == Some(
                    exists|i: int|
                        0 <= i < ms@.len() && same_path((#[trigger] ms@[i]).mount_point@, v.point),
                )
                &&& str_at(j, "mount_point"@) == Some(v.point)
                &&& str_at(j, "remote_path"@) == Some(v.remote_path)
                &&& v.failure.len() > 0 ==> str_at(j, "error"@) == Some(v.failure)
                &&& v.failure.len() == 0 ==> str_at(j, "error"@) is None
            }
            &&& next.latch == latch.remove(v.host)
            &&& next.st == st
        }),
{
    lemma_table(ms@, v.host, v.point);
    reveal_strlit("host");
    reveal_strlit("mounted");
    reveal_strlit("mount_point");
    reveal_strlit("remote_path");
    reveal_strlit("host_has_other_mounts");
    reveal_strlit("error");
    assert("host"@.len() == 4 && "mounted"@.len() == 7 && "mount_point"@.len() == 11
        && "remote_path"@.len() == 11 && "host_has_other_mounts"@.len() == 21 && "error"@.len()
        == 5);
    assert("mount_point"@[0] == 'm' && "remote_path"@[0] == 'r');
}

proof fn lemma_mounts_shown(ms: Seq<MountView>, only: Option<Seq<char>>)
    ensures
        forall|i: int|
            0 <= i < ms.len() && (only matches Some(h) ==> (#[trigger] ms[i]).host == h)
                ==> mounts_shown(ms, only).contains(mount_json(ms[i])),
        forall|j: JsonView| #[trigger]
            mounts_shown(ms, only).contains(j) ==> exists|i: int|
                0 <= i < ms.len() && mount_json(#[trigger] ms[i]) == j && (only matches Some(h)
                    ==> ms[i].host == h),
        only is None ==> mounts_shown(ms, only).len() == ms.len(),
    decreases ms.len(),
{
    if ms.len() > 0 {
        let front = ms.drop_last();
        let last = ms.len() - 1;
        lemma_mounts_shown(front, only);
        let before = mounts_shown(front, only);
        let found = mounts_shown(ms, only);
        assert forall|i: int|
            0 <= i < ms.len() && (only matches Some(h) ==> (#[trigger] ms[i]).host == h) implies found.contains(
            mount_json(ms[i]),
        ) by {
            if i < last {
                assert(front[i] == ms[i]);
                let k = choose|k: int| 0 <= k < before.len() && before[k] == mount_json(ms[i]);
                assert(found[k] == mount_json(ms[i]));
            } else {
                assert(found[found.len() - 1] == mount_json(ms[i]));
            }
        }
        assert forall|j: JsonView| #[trigger] found.contains(j) implies exists|i: int|
            0 <= i < ms.len() && mount_json(#[trigger] ms[i]) == j && (only matches Some(h)
                ==> ms[i].host == h) by {
            let k = choose|k: int| 0 <= k < found.len() && found[k] == j;
            if k < before.len() {
                assert(before[k] == j);
                assert(before.contains(j));
                let i = choose|i: int|
                    0 <= i < front.len() && mount_json(#[trigger] front[i]) == j && (
                    only matches Some(h) ==> front[i].host == h);
                assert(ms[i] == front[i]);
            } else {
                assert(mount_json(ms[last]) == j);
            }
        }
    }
}

/// The list of mounts shows those of the host that is asked for, or all, and no others;
/// each as it is in the table. Every host is then marked as mounted exactly where the
/// table has a mount of it.
pub proof fn law_the_list_of_mounts_is_the_table(
    st: StateView,
    ms: Seq<MountView>,
    only: Option<Seq<char>>,
    m: MountView,
)
    ensures
        forall|i: int|
            0 <= i < ms.len() && (only matches Some(h) ==> (#[trigger] ms[i]).host == h)
                ==> mounts_shown(ms, only).contains(mount_json(ms[i])),
        forall|j: JsonView| #[trigger]
            mounts_shown(ms, only).contains(j) ==> exists|i: int|
                0 <= i < ms.len() && mount_json(#[trigger] ms[i]) == j && (only matches Some(h)
                    ==> ms[i].host == h),
        str_at(mount_json(m), "host"@) == Some(m.host),
        str_at(mount_json(m), "mount_point"@) == Some(m.mount_point),
        str_at(mount_json(m), "source"@) == Some(m.source),
        bool_at(mount_json(m), "legacy"@) == Some(m.slug.len() == 0),
        ({
            let after = mounts_marked(st, ms);
            &&& after.tunnels == st.tunnels
            &&& after.hosts.len() == st.hosts.len()
            &&& forall|k: int|
                0 <= k < st.hosts.len() ==> {
                    let h = #[trigger] after.hosts[k];
                    &&& h == (HostView { is_mounted: h.is_mounted, ..st.hosts[k] })
                    &&& h.is_mounted == exists|i: int|
                        0 <= i < ms.len() && (#[trigger] ms[i]).host == st.hosts[k].host
                }
        }),
{
    lemma_mounts_shown(ms, only);
    reveal_strlit("host");
    reveal_strlit("mount_point");
    reveal_strlit("source");
    reveal_strlit("legacy");
    assert("host"@[0] == 'h' && "mount_point"@[0] == 'm' && "source"@[0] == 's' && "legacy"@[0]
        == 'l');
}

/// The mounts that a repair takes down are those of the host, or of them the addressed
/// one, and no others.
pub proof fn law_a_repair_takes_down_the_mounts_of_its_host(
    ms: Seq<MountView>,
    host: Seq<char>,
    only: Option<Seq<char>>,
)
    ensures
        forall|p: Seq<char>| #[trigger]
            points_of(ms, host, only).contains(p) <==> (only matches Some(q) ==> p == q) && exists|
                i: int,
            | 0 <= i < ms.len() && (#[trigger] ms[i]).host == host && ms[i].mount_point == p,
    decreases ms.len(),
{
    if ms.len() > 0 {
        let front = ms.drop_last();
        law_a_repair_takes_down_the_mounts_of_its_host(front, host, only);
        let before = points_of(front, host, only);
        let found = points_of(ms, host, only);
        assert forall|p: Seq<char>| #[trigger] found.contains(p) <==> (only matches Some(q) ==> p
            == q) && exists|i: int|
            0 <= i < ms.len() && (#[trigger] ms[i]).host == host && ms[i].mount_point == p by {
            assert(before.contains(p) <==> (only matches Some(q) ==> p == q) && exists|i: int|
                0 <= i < front.len() && (#[trigger] front[i]).host == host && front[i].mount_point
                    == p);
            if found.contains(p) {
                let k = choose|k: int| 0 <= k < found.len() && found[k] == p;
                if k < before.len() {
                    assert(before[k] == p);
                    let i = choose|i: int|
                        0 <= i < front.len() && (#[trigger] front[i]).host == host
                            && front[i].mount_point == p;
                    assert(ms[i] == front[i]);
                } else {
                    assert(ms[ms.len() - 1].host == host);
                }
            }
            if (only matches Some(q) ==> p == q) && exists|i: int|
                0 <= i < ms.len() && (#[trigger] ms[i]).host == host && ms[i].mount_point == p {
                let i = choose|i: int|
                    0 <= i < ms.len() && (#[trigger] ms[i]).host == host && ms[i].mount_point == p;
                if i < front.len() {
                    assert(front[i] == ms[i]);
                    let k = choose|k: int| 0 <= k < before.len() && before[k] == p;
                    assert(found[k] == p);
                } else {
                    assert(found[found.len() - 1] == p);
                }
            }
        }
    }
}

/// Nothing counts as still mounted exactly where the table has none of the places.
pub proof fn law_a_repair_is_complete_when_nothing_is_left(
    ms: Seq<MountView>,
    points: Seq<Seq<char>>,
)
    ensures
        still_mounted(ms, points) <= ms.len(),
        still_mounted(ms, points) == 0 <==> forall|i: int, k: int|
            0 <= i < ms.len() && 0 <= k < points.len() ==> !same_path(
                #[trigger] points[k],
                (#[trigger] ms[i]).mount_point,
            ),
    decreases ms.len(),
{
    if ms.len() > 0 {
        let front = ms.drop_last();
        let last = ms.len() - 1;
        law_a_repair_is_complete_when_nothing_is_left(front, points);
        if still_mounted(ms, points) == 0 {
            assert forall|i: int, k: int| 0 <= i < ms.len() && 0 <= k < points.len() implies !same_path(
                #[trigger] points[k],
                (#[trigger] ms[i]).mount_point,
            ) by {
                if i < last {
                    assert(front[i] == ms[i]);
                }
            }
        } else if forall|i: int, k: int|
            0 <= i < ms.len() && 0 <= k < points.len() ==> !same_path(
                #[trigger] points[k],
                (#[trigger] ms[i]).mount_point,
            ) {
            assert forall|i: int, k: int| 0 <= i < front.len() && 0 <= k < points.len() implies !same_path(
                #[trigger] points[k],
                (#[trigger] front[i]).mount_point,
            ) by {
                assert(ms[i] == front[i]);
            }
            assert(ms[last] == ms.last());
            if path_among(points, ms.last().mount_point) {
                let k = choose|k: int|
                    0 <= k < points.len() && same_path(#[trigger] points[k], ms.last().mount_point);
                assert(!same_path(points[k], ms[last].mount_point));
            }
        }
    }
}

/// A forced unmount tries its commands in order, each with the folder as its last
/// argument, until one works; it has worked exactly where one did, and gives up only
/// when none is left.
pub proof fn law_a_forced_unmount_tries_in_order(v: ForcedView, worked: bool)
    requires
        v.next <= v.commands.len(),
    ensures
        ({
            let (next, ask) = unmount_step(v, worked);
            &&& worked ==> ask == UnmountAskView::Done(true)
            &&& !worked && v.next == v.commands.len() ==> ask == UnmountAskView::Done(false)
            &&& !worked && v.next < v.commands.len() ==> (ask matches UnmountAskView::Run {
                program,
                args,
            } && program == v.commands[v.next as int].0 && args.len() == v.commands[
                v.next as int
            ].1.len() + 1 && args.last() == v.point && args.drop_last() == v.commands[
                v.next as int
            ].1 && next.next == v.next + 1)
            &&& next.commands == v.commands && next.point == v.point
        }),
{
    if v.next < v.commands.len() {
        let lead = v.commands[v.next as int].1;
        assert(lead.push(v.point).drop_last() =~= lead);
    }
}

proof fn lemma_folders_shown(path: Seq<char>, entries: Seq<DirEntry>)
    ensures
        forall|i: int|
            0 <= i < entries.len() && (#[trigger] entries[i]).is_dir ==> exists|k: int|
                {
                    &&& 0 <= k < folders_shown(path, entries).len()
                    &&& str_at(#[trigger] folders_shown(path, entries)[k], "name"@) == Some(
                        entries[i].name@,
                    )
                    &&& str_at(folders_shown(path, entries)[k], "path"@) == Some(
                        entry_path(path, entries[i].name@),
                    )
                },
        forall|k: int|
            0 <= k < folders_shown(path, entries).len() ==> exists|i: int|
                {
                    &&& 0 <= i < entries.len()
                    &&& (#[trigger] entries[i]).is_dir
                    &&& str_at(#[trigger] folders_shown(path, entries)[k], "name"@) == Some(
                        entries[i].name@,
                    )
                },
    decreases entries.len(),
{
    reveal_strlit("name");
    reveal_strlit("path");
    assert("name"@[0] == 'n' && "path"@[0] == 'p');
    if entries.len() > 0 {
        let front = entries.drop_last();
        let last = entries.len() - 1;
        lemma_folders_shown(path, front);
        let before = folders_shown(path, front);
        let found = folders_shown(path, entries);
        assert forall|i: int| 0 <= i < entries.len() && (#[trigger] entries[i]).is_dir implies exists|
            k: int,
        |
            {
                &&& 0 <= k < found.len()
                &&& str_at(#[trigger] found[k], "name"@) == Some(entries[i].name@)
                &&& str_at(found[k], "path"@) == Some(entry_path(path, entries[i].name@))
            } by {
            if i < last {
                assert(front[i] == entries[i]);
                let k = choose|k: int|
                    {
                        &&& 0 <= k < before.len()
                        &&& str_at(#[trigger] before[k], "name"@) == Some(front[i].name@)
                        &&& str_at(before[k], "path"@) == Some(entry_path(path, front[i].name@))
                    };
                assert(found[k] == before[k]);
            } else {
                let k = found.len() - 1;
                assert(str_at(found[k], "name"@) == Some(entries[i].name@));
            }
        }
        assert forall|k: int| 0 <= k < found.len() implies exists|i: int|
            {
                &&& 0 <= i < entries.len()
                &&& (#[trigger] entries[i]).is_dir
                &&& str_at(#[trigger] found[k], "name"@) == Some(entries[i].name@)
            } by {
            if k < before.len() {
                assert(found[k] == before[k]);
                let i = choose|i: int|
                    {
                        &&& 0 <= i < front.len()
                        &&& (#[trigger] front[i]).is_dir
                        &&& str_at(before[k], "name"@) == Some(front[i].name@)
                    };
                assert(entries[i] == front[i]);
            } else {
                assert(entries[last].is_dir);
            }
        }
    }
}

/// A listing shows the folders among the entries, each with its name and its full path,
/// and nothing that is no folder.
pub proof fn law_a_listing_shows_the_folders(path: Seq<char>, entries: Seq<DirEntry>)
    ensures
        forall|i: int|
            0 <= i < entries.len() && (#[trigger] entries[i]).is_dir ==> exists|k: int|
                {
                    &&& 0 <= k < folders_shown(path, entries).len()
                    &&& str_at(#[trigger] folders_shown(path, entries)[k], "name"@) == Some(
                        entries[i].name@,
                    )
                    &&& str_at(folders_shown(path, entries)[k], "path"@) == Some(
                        if path == "/"@ {
                            "/"@ + entries[i].name@
                        } else {
                            path + "/"@ + entries[i].name@
                        },
                    )
                },
        forall|k: int|
            0 <= k < folders_shown(path, entries).len() ==> exists|i: int|
                {
                    &&& 0 <= i < entries.len()
                    &&& (#[trigger] entries[i]).is_dir
                    &&& str_at(#[trigger] folders_shown(path, entries)[k], "name"@) == Some(
                        entries[i].name@,
                    )
                },
{
    lemma_folders_shown(path, entries);
    let found = folders_shown(path, entries);
    assert forall|i: int| 0 <= i < entries.len() && (#[trigger] entries[i]).is_dir implies exists|
        k: int,
    |
        {
            &&& 0 <= k < found.len()
            &&& str_at(#[trigger] found[k], "name"@) == Some(entries[i].name@)
            &&& str_at(found[k], "path"@) == Some(
                if path == "/"@ {
                    "/"@ + entries[i].name@
                } else {
                    path + "/"@ + entries[i].name@
                },
            )
        } by {
        let k = choose|k: int|
            {
                &&& 0 <= k < found.len()
                &&& str_at(#[trigger] found[k], "name"@) == Some(entries[i].name@)
                &&& str_at(found[k], "path"@) == Some(entry_path(path, entries[i].name@))
            };
        assert(str_at(found[k], "name"@) == Some(entries[i].name@));
    }
}

/// A folder is listed only on a known host that is connected, and is the one asked for,
/// or else the root.
pub proof fn law_a_folder_is_listed_on_its_host(
    st: StateView,
    m: Map<Seq<char>, JsonView>,
    host: Seq<char>,
    k: int,
)
    requires
        m.contains_key("host"@),
        m["host"@] == JsonView::Str(host),
        0 <= k < st.hosts.len(),
        st.hosts[k].host == host,
        forall|j: int| 0 <= j < k ==> (#[trigger] st.hosts[j]).host != host,
    ensures
        list_request(st, JsonView::Obj(m)) matches Ok(p) ==> {
            &&& p.0 == host
            &&& st.hosts[k].is_master_ready
            &&& !m.contains_key("path"@) ==> p.1 == "/"@
            &&& m.contains_key("path"@) && m["path"@] is Str && trimmed(m["path"@]->Str_0).len() > 0
                ==> p.1 == trimmed(m["path"@]->Str_0)
            &&& path_refusal(p.1) is None
        },
        safe_host(host) && st.hosts[k].is_master_ready && !m.contains_key("path"@) ==> list_request(
            st,
            JsonView::Obj(m),
        ) is Ok,
{
    law_a_name_addresses_the_first_host(st, host, k);
    reveal_strlit("/");
    assert("/"@.len() == 1 && "/"@[0] == '/');
}

/// What is said of a mount that failed is what its program said, the errors first.
pub proof fn law_a_failed_mount_says_why(
    exit_ok: bool,
    status: Seq<char>,
    stdout: Seq<char>,
    stderr: Seq<char>,
)
    ensures
        trimmed(stderr).len() > 0 ==> program_said(exit_ok, status, stdout, stderr) == trimmed(
            stderr,
        ),
        trimmed(stderr).len() == 0 && trimmed(stdout).len() > 0 ==> program_said(
            exit_ok,
            status,
            stdout,
            stderr,
        ) == trimmed(stdout),
        program_said(exit_ok, status, stdout, stderr).len() > 0,
{
    reveal_strlit("sshfs exited 0 but no mount appeared");
    reveal_strlit("sshfs exited with ");
    assert("sshfs exited 0 but no mount appeared"@.len() > 0);
    assert("sshfs exited with "@.len() > 0);
}

/// A line for a status row is at most 120 characters long: a shorter one stays as it
/// is, and of a longer one the first 117 are shown, with a sign that it was cut.
pub proof fn law_a_status_row_is_short(line: Seq<char>)
    ensures
        capped_line(line).len() <= 120,
        line.len() <= 120 ==> capped_line(line) == line,
        line.len() > 120 ==> capped_line(line).take(117) == line.take(117) && capped_line(
            line,
        ).len() == 118 && capped_line(line).last() == '…',
{
    reveal_strlit("…");
    if line.len() > 120 {
        assert(capped_line(line).take(117) =~= line.take(117));
    }
}

/// The first line of a text that is not blank, without the white space around it, is
/// the one that is shown.
pub proof fn law_the_first_full_line(lines: Seq<Seq<char>>, k: int)
    requires
        0 <= k < lines.len(),
        trimmed(lines[k]).len() > 0,
        forall|j: int| 0 <= j < k ==> trimmed(#[trigger] lines[j]).len() == 0,
    ensures
        first_full(lines) == trimmed(lines[k]),
    decreases k,
{
    if k > 0 {
        assert(trimmed(lines[0]).len() == 0);
        let rest = lines.skip(1);
        assert(rest[k - 1] == lines[k]);
        assert forall|j: int| 0 <= j < k - 1 implies trimmed(#[trigger] rest[j]).len() == 0 by {
            assert(rest[j] == lines[j + 1]);
        }
        law_the_first_full_line(rest, k - 1);
    }
}

/// How the mount program ended is what the mount is judged by and what a failure says:
/// its exit and its words. One that did not end in time counts as failed.
pub proof fn law_the_end_of_the_program_counts(
    v: MountRunView,
    latch: Set<Seq<char>>,
    st: StateView,
    o: RunOutput,
    root: Seq<char>,
    q: MountRequestView,
    slug: Seq<char>,
    of_system: Seq<char>,
    macos: bool,
)
    requires
        v.phase == MountPhase::Running,
    ensures
        ({
            let next = mount_step(v, latch, st, MountEvent::Ran(Some(o)));
            &&& next.ask is List && next.run.phase == MountPhase::Judging
            &&& next.run.exit_ok == o.exit_ok
            &&& trimmed(lossy(o.stderr@)).len() > 0 ==> next.run.failure == trimmed(
                lossy(o.stderr@),
            )
            &&& next.run.failure.len() > 0
            &&& next.run.host == v.host && next.run.point == v.point
            &&& next.st == st && next.latch == latch
        }),
        ({
            let late = mount_step(v, latch, st, MountEvent::Ran(None));
            &&& late.run.failure.len() > 0
            &&& late.run.phase == MountPhase::Reaping
            &&& late.latch == latch
        }),
        !new_run(q, root, slug, of_system, macos).exit_ok,
        new_run(q, root, slug, of_system, macos).failure.len() == 0,
{
    law_a_failed_mount_says_why(o.exit_ok, o.status@, lossy(o.stdout@), lossy(o.stderr@));
    reveal_strlit("sshfs did not finish within 45s (mounting ");
    assert("sshfs did not finish within 45s (mounting "@.len() > 0);
}

/// A note on a host is what its record shows; nothing else of the record changes, and
/// no other record does.
pub proof fn law_a_note_is_shown(st: StateView, k: int, mounted: bool, msg: Seq<char>)
    requires
        0 <= k < st.hosts.len(),
        forall|j: int| 0 <= j < k ==> (#[trigger] st.hosts[j]).host != st.hosts[k].host,
    ensures
        ({
            let h = st.hosts[k];
            let a = noted(st, h.host, msg);
            let b = marked(st, h.host, mounted, msg);
            &&& a.hosts[k] == (HostView { last_msg: msg, ..h })
            &&& b.hosts[k] == (HostView { last_msg: msg, is_mounted: mounted, ..h })
            &&& a.hosts.len() == st.hosts.len() && b.hosts.len() == st.hosts.len()
            &&& forall|j: int|
                0 <= j < st.hosts.len() && j != k ==> #[trigger] a.hosts[j] == st.hosts[j]
            &&& forall|j: int|
                0 <= j < st.hosts.len() && j != k ==> #[trigger] b.hosts[j] == st.hosts[j]
            &&& a.tunnels == st.tunnels && b.tunnels == st.tunnels
        }),
{
    law_a_name_addresses_the_first_host(st, st.hosts[k].host, k);
}

/// A path that is not given, or is blank, is the root; another is taken without the
/// white space around it.
pub proof fn law_no_path_is_the_root(o: Option<Seq<char>>)
    ensures
        o is None ==> path_or_root(o) == "/"@,
        o matches Some(s) ==> path_or_root(o) == (if trimmed(s).len() == 0 {
            "/"@
        } else {
            trimmed(s)
        }),
        path_or_root(o).len() > 0,
{
    reveal_strlit("/");
}

/// Where nothing is mounted for a host, the answer names the host and says that nothing
/// was repaired.
pub proof fn law_nothing_mounted_is_nothing_repaired(host: Seq<char>)
    ensures
        str_at(nothing_mounted(host), "host"@) == Some(host),
        uint_at(nothing_mounted(host), "repaired"@) == Some(0u64),
{
    reveal_strlit("host");
    reveal_strlit("repaired");
    reveal_strlit("reason");
    assert("host"@.len() == 4 && "repaired"@.len() == 8 && "reason"@.len() == 6);
}

} // verus!
