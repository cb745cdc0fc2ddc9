//! When the daemon's log is archived, and which archives are kept.
use crate::paths::{path_steps, steps};
use crate::text::{cat2, cat4, chars_of, dec, decimal, digit, same_text, texts};
use vstd::prelude::*;

verus! {

/// The size from which on the log is archived: ten mebibytes.
pub const DEFAULT_MAX_BYTES: u64 = 10_485_760;

/// How many archives are kept.
pub const KEEP_ROTATIONS: usize = 3;

/// How often the size of the log is looked at, in seconds.
pub const PERIODIC_CHECK_SECS: u64 = 600;

/// The archive of a log that is archived at a time.
pub open spec fn archive_name(path: Seq<char>, secs: u64) -> Seq<char> {
    path + "."@ + dec(secs as nat) + ".gz"@
}

/// The archive that a log is to be moved to: none where it is missing or small.
pub open spec fn archive_due(
    path: Seq<char>,
    len: Option<u64>,
    max_bytes: u64,
    secs: u64,
) -> Option<
    Seq<char>,
> {
    match len {
        Some(n) => if n >= max_bytes {
            Some(archive_name(path, secs))
        } else {
            None
        },
        None => None,
    }
}

/// The archive that a log is to be moved to: none where it is missing or small.
/// `len` is its size, `secs` the time in Unix seconds.
pub fn rotate_log_if_huge(path: &str, len: Option<u64>, max_bytes: u64, secs: u64) -> (r: Option<
    String,
>)
    ensures
        match r {
            Some(name) => archive_due(path@, len, max_bytes, secs) == Some(name@),
            None => archive_due(path@, len, max_bytes, secs) is None,
        },
{
    match len {
        Some(n) => {
            if n >= max_bytes {
                Some(cat4(path, ".", decimal(secs).as_str(), ".gz"))
            } else {
                None
            }
        },
        None => None,
    }
}

/// Where the daemon logs.
pub fn daemon_log() -> (r: &'static str)
    ensures
        r@ == "/tmp/ssh2fa_daemon.log"@,
{
    "/tmp/ssh2fa_daemon.log"
}

/// The archive that the daemon's log is to be moved to.
pub fn rotate_daemon_log(len: Option<u64>, secs: u64) -> (r: Option<String>)
    ensures
        match r {
            Some(name) => archive_due("/tmp/ssh2fa_daemon.log"@, len, DEFAULT_MAX_BYTES, secs)
                == Some(name@),
            None => archive_due("/tmp/ssh2fa_daemon.log"@, len, DEFAULT_MAX_BYTES, secs) is None,
        },
{
    rotate_log_if_huge(daemon_log(), len, DEFAULT_MAX_BYTES, secs)
}

/// Whether a text comes before another, character by character.
pub open spec fn before(a: Seq<char>, b: Seq<char>) -> bool
    decreases b.len(),
{
    if b.len() == 0 {
        false
    } else if a.len() == 0 {
        true
    } else if a[0] != b[0] {
        a[0] < b[0]
    } else {
        before(a.skip(1), b.skip(1))
    }
}

fn comes_before(a: &str, b: &str) -> (r: bool)
    ensures
        r == before(a@, b@),
{
    let x: Vec<char> = chars_of(a);
    let y: Vec<char> = chars_of(b);
    let mut i: usize = 0;
    proof {
        assert(x@.skip(0) =~= x@);
        assert(y@.skip(0) =~= y@);
    }
    while i < x.len() && i < y.len() && x[i] == y[i]
        invariant
            x@ == a@,
            y@ == b@,
            i <= x@.len(),
            i <= y@.len(),
            before(x@.skip(i as int), y@.skip(i as int)) == before(a@, b@),
        decreases x@.len() - i,
    {
        proof {
            assert(x@.skip(i as int).skip(1) =~= x@.skip(i + 1));
            assert(y@.skip(i as int).skip(1) =~= y@.skip(i + 1));
        }
        i += 1;
    }
    if i >= y.len() {
        false
    } else if i >= x.len() {
        true
    } else {
        x[i] < y[i]
    }
}

/// Whether a file is an archive of the log called `log`.
pub open spec fn is_archive(log: Seq<char>, name: Seq<char>) -> bool {
    begins(name, log + "."@) && ends(name, ".gz"@)
}

/// Whether a text begins with another.
pub open spec fn begins(s: Seq<char>, front: Seq<char>) -> bool {
    front.len() <= s.len() && s.take(front.len() as int) == front
}

/// Whether a text ends with another.
pub open spec fn ends(s: Seq<char>, tail: Seq<char>) -> bool {
    tail.len() <= s.len() && s.skip(s.len() - tail.len()) == tail
}

fn archive_of(log: &str, name: &str) -> (r: bool)
    ensures
        r == is_archive(log@, name@),
{
    let front: String = cat2(log, ".");
    let n: usize = name.unicode_len();
    let f: usize = front.as_str().unicode_len();
    let t: usize = ".gz".unicode_len();
    if f > n || t > n {
        return false;
    }
    proof {
        assert(name@.subrange(0, f as int) =~= name@.take(f as int));
        assert(name@.subrange(n - t, n as int) =~= name@.skip(n - t));
    }
    same_text(name.substring_char(0, f), front.as_str()) && same_text(
        name.substring_char(n - t, n),
        ".gz",
    )
}

/// The archives among some files.
pub open spec fn archives(log: Seq<char>, files: Seq<Seq<char>>) -> Seq<Seq<char>>
    decreases files.len(),
{
    if files.len() == 0 {
        Seq::empty()
    } else if is_archive(log, files.last()) {
        archives(log, files.drop_last()).push(files.last())
    } else {
        archives(log, files.drop_last())
    }
}

/// How many of some names come after a name.
pub open spec fn newer(names: Seq<Seq<char>>, name: Seq<char>) -> nat
    decreases names.len(),
{
    if names.len() == 0 {
        0
    } else {
        newer(names.drop_last(), name) + (if before(name, names.last()) {
            1nat
        } else {
            0nat
        })
    }
}

/// Those of the first `n` names after which at least `keep` others come.
pub open spec fn outdated(names: Seq<Seq<char>>, keep: nat, n: nat) -> Seq<Seq<char>>
    decreases n,
{
    if n == 0 || n > names.len() {
        Seq::empty()
    } else {
        let found = outdated(names, keep, (n - 1) as nat);
        if newer(names, names[n - 1]) >= keep {
            found.push(names[n - 1])
        } else {
            found
        }
    }
}

/// The name of the file at a path, if it has one.
pub open spec fn file_of(path: Seq<char>) -> Option<Seq<char>> {
    let ss = steps(path);
    if ss.len() == 0 || ss.last() == "/"@ || ss.last() == ".."@ || ss.last() == "."@ {
        None
    } else {
        Some(ss.last())
    }
}

/// The archives to be deleted: those after which at least `keep` others come. The
/// time in an archive's name makes the later one come after the earlier.
pub open spec fn pruned(path: Seq<char>, files: Seq<Seq<char>>, keep: nat) -> Seq<Seq<char>> {
    match file_of(path) {
        None => Seq::empty(),
        Some(log) => {
            let all = archives(log, files);
            outdated(all, keep, all.len())
        },
    }
}

fn count_newer(names: &Vec<String>, name: &str) -> (n: usize)
    ensures
        n == newer(texts(names@), name@),
        n <= names@.len(),
{
    let ghost all = texts(names@);
    let mut n: usize = 0;
    let mut i: usize = 0;
    while i < names.len()
        invariant
            all == texts(names@),
            n <= i <= names@.len(),
            n == newer(all.take(i as int), name@),
        decreases names@.len() - i,
    {
        proof {
            assert(all.take(i + 1).drop_last() =~= all.take(i as int));
            assert(all.take(i + 1).last() == names@[i as int]@);
        }
        if comes_before(name, names[i].as_str()) {
            n += 1;
        }
        i += 1;
    }
    proof {
        assert(all.take(i as int) =~= all);
    }
    n
}

/// The archives to be deleted from the folder of a log, of which `files` are the
/// names: all but the newest `keep`.
pub fn prune_old_rotations(path: &str, files: &Vec<String>, keep: usize) -> (r: Vec<String>)
    ensures
        texts(r@) == pruned(path@, texts(files@), keep as nat),
{
    let mut ss: Vec<String> = path_steps(path);
    let mut out: Vec<String> = Vec::new();
    proof {
        assert(texts(out@) =~= Seq::empty());
        assert(texts(ss@).len() == ss@.len());
    }
    if ss.len() == 0 {
        return out;
    }
    let k: usize = ss.len() - 1;
    let log: String = ss.remove(k);
    if same_text(log.as_str(), "/") || same_text(log.as_str(), "..") || same_text(
        log.as_str(),
        ".",
    ) {
        return out;
    }
    let ghost names = texts(files@);
    let mut found: Vec<String> = Vec::new();
    let mut i: usize = 0;
    proof {
        assert(texts(found@) =~= archives(log@, names.take(0)));
    }
    while i < files.len()
        invariant
            names == texts(files@),
            i <= files@.len(),
            texts(found@) == archives(log@, names.take(i as int)),
        decreases files@.len() - i,
    {
        proof {
            assert(names.take(i + 1).drop_last() =~= names.take(i as int));
            assert(names.take(i + 1).last() == files@[i as int]@);
        }
        if archive_of(log.as_str(), files[i].as_str()) {
            let ghost earlier = texts(found@);
            let name: String = files[i].clone();
            found.push(name);
            proof {
                assert(texts(found@) =~= earlier.push(name@));
            }
        }
        i += 1;
    }
    proof {
        assert(names.take(i as int) =~= names);
    }
    let ghost all = texts(found@);
    let mut j: usize = 0;
    while j < found.len()
        invariant
            all == texts(found@),
            j <= found@.len(),
            texts(out@) == outdated(all, keep as nat, j as nat),
        decreases found@.len() - j,
    {
        proof {
            assert(all[j as int] == found@[j as int]@);
        }
        if count_newer(&found, found[j].as_str()) >= keep {
            let ghost earlier = texts(out@);
            let name: String = found[j].clone();
            out.push(name);
            proof {
                assert(texts(out@) =~= earlier.push(name@));
            }
        }
        j += 1;
    }
    out
}

proof fn lemma_before_irreflexive(a: Seq<char>)
    ensures
        !before(a, a),
    decreases a.len(),
{
    if a.len() > 0 {
        lemma_before_irreflexive(a.skip(1));
    }
}

proof fn lemma_before_transitive(a: Seq<char>, b: Seq<char>, c: Seq<char>)
    requires
        before(a, b),
        before(b, c),
    ensures
        before(a, c),
    decreases b.len(),
{
    if a.len() > 0 && b.len() > 0 && c.len() > 0 && a[0] == b[0] && b[0] == c[0] {
        lemma_before_transitive(a.skip(1), b.skip(1), c.skip(1));
    }
}

proof fn lemma_before_total(a: Seq<char>, b: Seq<char>)
    requires
        a != b,
    ensures
        before(a, b) || before(b, a),
    decreases a.len(),
{
    if a.len() > 0 && b.len() > 0 && a[0] == b[0] {
        if a.skip(1) == b.skip(1) {
            assert(a =~= seq![a[0]] + a.skip(1));
            assert(b =~= seq![b[0]] + b.skip(1));
        }
        lemma_before_total(a.skip(1), b.skip(1));
    } else if a.len() == 0 && b.len() == 0 {
        assert(a =~= b);
    }
}

/// The names among the first `n` after which fewer than `keep` others come.
pub open spec fn kept(names: Seq<Seq<char>>, keep: nat, n: nat) -> Seq<Seq<char>>
    decreases n,
{
    if n == 0 || n > names.len() {
        Seq::empty()
    } else {
        let found = kept(names, keep, (n - 1) as nat);
        if newer(names, names[n - 1]) >= keep {
            found
        } else {
            found.push(names[n - 1])
        }
    }
}

proof fn lemma_kept(names: Seq<Seq<char>>, keep: nat, n: nat)
    requires
        n <= names.len(),
        names.no_duplicates(),
    ensures
        kept(names, keep, n).len() + outdated(names, keep, n).len() == n,
        forall|i: int|
            0 <= i < kept(names, keep, n).len() ==> newer(
                names,
                #[trigger] kept(names, keep, n)[i],
            ) < keep && names.take(n as int).contains(kept(names, keep, n)[i]),
        kept(names, keep, n).no_duplicates(),
    decreases n,
{
    if n > 0 {
        let m = (n - 1) as nat;
        lemma_kept(names, keep, m);
        let found = kept(names, keep, m);
        let now = kept(names, keep, n);
        assert forall|i: int| 0 <= i < now.len() implies newer(names, #[trigger] now[i]) < keep
            && names.take(n as int).contains(now[i]) by {
            if i < found.len() {
                assert(now[i] == found[i]);
                let k = choose|k: int|
                    0 <= k < names.take(m as int).len() && names.take(m as int)[k] == found[i];
                assert(names.take(n as int)[k] == now[i]);
            } else {
                assert(names.take(n as int)[n - 1] == now[i]);
            }
        }
        assert forall|i: int, j: int| 0 <= i < j < now.len() implies now[i] != now[j] by {
            assert(now[i] == found[i]);
            if j == found.len() {
                let k = choose|k: int|
                    0 <= k < names.take(m as int).len() && names.take(m as int)[k] == found[i];
                assert(names[k] == found[i]);
            } else {
                assert(now[j] == found[j]);
            }
        }
    }
}

/// The least of some names.
proof fn lemma_least(names: Seq<Seq<char>>) -> (k: int)
    requires
        names.len() > 0,
        names.no_duplicates(),
    ensures
        0 <= k < names.len(),
        forall|i: int| 0 <= i < names.len() && i != k ==> before(names[k], #[trigger] names[i]),
    decreases names.len(),
{
    if names.len() == 1 {
        0
    } else {
        let front = names.drop_last();
        let k = lemma_least(front);
        let last = names.len() - 1;
        assert(names[k] == front[k]);
        assert(names[k] != names[last]);
        lemma_before_total(names[k], names[last]);
        if before(names[k], names[last]) {
            assert forall|i: int| 0 <= i < names.len() && i != k implies before(
                names[k],
                #[trigger] names[i],
            ) by {
                if i < last {
                    assert(front[i] == names[i]);
                }
            }
            k
        } else {
            assert forall|i: int| 0 <= i < names.len() && i != last implies before(
                names[last],
                #[trigger] names[i],
            ) by {
                if i != k {
                    assert(front[i] == names[i]);
                    lemma_before_transitive(names[last], names[k], names[i]);
                }
            }
            last
        }
    }
}

/// As many names come after one as there are in a list of later names.
proof fn lemma_newer_counts(names: Seq<Seq<char>>, name: Seq<char>, later: Seq<Seq<char>>)
    requires
        later.no_duplicates(),
        forall|i: int|
            0 <= i < later.len() ==> before(name, #[trigger] later[i]) && names.contains(later[i]),
    ensures
        newer(names, name) >= later.len(),
    decreases names.len(),
{
    if names.len() == 0 {
        if later.len() > 0 {
            assert(names.contains(later[0]));
        }
    } else {
        let front = names.drop_last();
        let last = names.last();
        if later.contains(last) {
            let k = choose|k: int| 0 <= k < later.len() && later[k] == last;
            let rest = later.remove(k);
            assert forall|i: int| 0 <= i < rest.len() implies before(name, #[trigger] rest[i])
                && front.contains(rest[i]) by {
                let j = if i < k {
                    i
                } else {
                    i + 1
                };
                assert(rest[i] == later[j]);
                assert(later[j] != later[k]);
                let m = choose|m: int| 0 <= m < names.len() && names[m] == later[j];
                assert(front[m] == later[j]);
            }
            assert forall|i: int, j: int| 0 <= i < j < rest.len() implies rest[i] != rest[j] by {
                let a = if i < k {
                    i
                } else {
                    i + 1
                };
                let b = if j < k {
                    j
                } else {
                    j + 1
                };
                assert(rest[i] == later[a] && rest[j] == later[b]);
            }
            lemma_newer_counts(front, name, rest);
        } else {
            assert forall|i: int| 0 <= i < later.len() implies before(name, #[trigger] later[i])
                && front.contains(later[i]) by {
                let m = choose|m: int| 0 <= m < names.len() && names[m] == later[i];
                assert(later[i] != last);
                assert(front[m] == later[i]);
            }
            lemma_newer_counts(front, name, later);
        }
    }
}

/// Fewer names come after a later one.
proof fn lemma_newer_falls(names: Seq<Seq<char>>, a: Seq<char>, b: Seq<char>)
    requires
        before(a, b),
    ensures
        newer(names, b) <= newer(names, a),
        names.contains(b) ==> newer(names, b) < newer(names, a),
    decreases names.len(),
{
    if names.len() > 0 {
        let front = names.drop_last();
        let last = names.last();
        lemma_newer_falls(front, a, b);
        if before(b, last) {
            lemma_before_transitive(a, b, last);
        }
        if last == b {
            lemma_before_irreflexive(b);
        } else if names.contains(b) {
            let k = choose|k: int| 0 <= k < names.len() && names[k] == b;
            assert(front[k] == b);
        }
    }
}

/// Where every name after `name` is kept, no more come after it than are kept.
proof fn lemma_newer_kept(names: Seq<Seq<char>>, keep: nat, name: Seq<char>, n: nat)
    requires
        n <= names.len(),
        forall|i: int|
            0 <= i < names.len() && before(name, #[trigger] names[i]) ==> newer(names, names[i])
                < keep,
    ensures
        newer(names.take(n as int), name) <= kept(names, keep, n).len(),
    decreases n,
{
    if n > 0 {
        lemma_newer_kept(names, keep, name, (n - 1) as nat);
        assert(names.take(n as int).drop_last() =~= names.take(n - 1));
        assert(names.take(n as int).last() == names[n - 1]);
    }
}

/// Where a name is outdated, at least `keep` are kept.
proof fn lemma_enough_kept(names: Seq<Seq<char>>, keep: nat, name: Seq<char>)
    requires
        names.contains(name),
        newer(names, name) >= keep,
    ensures
        kept(names, keep, names.len()).len() >= keep,
    decreases newer(names, name),
{
    if exists|i: int|
        0 <= i < names.len() && before(name, #[trigger] names[i]) && newer(names, names[i])
            >= keep {
        let i = choose|i: int|
            0 <= i < names.len() && before(name, #[trigger] names[i]) && newer(names, names[i])
                >= keep;
        lemma_newer_falls(names, name, names[i]);
        lemma_enough_kept(names, keep, names[i]);
    } else {
        lemma_newer_kept(names, keep, name, names.len());
        assert(names.take(names.len() as int) =~= names);
    }
}

proof fn lemma_outdated(names: Seq<Seq<char>>, keep: nat, n: nat)
    requires
        n <= names.len(),
    ensures
        forall|x: Seq<char>| #[trigger]
            outdated(names, keep, n).contains(x) <==> names.take(n as int).contains(x) && newer(
                names,
                x,
            ) >= keep,
    decreases n,
{
    if n > 0 {
        let m = (n - 1) as nat;
        lemma_outdated(names, keep, m);
        let found = outdated(names, keep, m);
        let now = outdated(names, keep, n);
        let seen = names.take(m as int);
        let all = names.take(n as int);
        assert(all =~= seen.push(names[m as int]));
        assert forall|x: Seq<char>| #[trigger] now.contains(x) <==> all.contains(x) && newer(names, x)
            >= keep by {
            assert(found.contains(x) <==> seen.contains(x) && newer(names, x) >= keep);
            if seen.contains(x) {
                let k = choose|k: int| 0 <= k < seen.len() && seen[k] == x;
                assert(all[k] == x);
            }
            if all.contains(x) && x != names[m as int] {
                let k = choose|k: int| 0 <= k < all.len() && all[k] == x;
                assert(seen[k] == x);
            }
            if found.contains(x) {
                let k = choose|k: int| 0 <= k < found.len() && found[k] == x;
                assert(now[k] == x);
            }
            if x == names[m as int] {
                assert(all[m as int] == x);
                if newer(names, x) >= keep {
                    assert(now[found.len() as int] == x);
                }
            }
            if now.contains(x) {
                let k = choose|k: int| 0 <= k < now.len() && now[k] == x;
                if k < found.len() {
                    assert(found[k] == x);
                }
            }
        }
    }
}

/// However many archives there are, as many as are to be kept stay, and each that
/// is deleted comes before each that stays.
pub proof fn law_only_the_newest_archives_stay(names: Seq<Seq<char>>, keep: nat)
    requires
        names.no_duplicates(),
    ensures
        ({
            let gone = outdated(names, keep, names.len());
            &&& gone.len() == (if names.len() > keep {
                names.len() - keep
            } else {
                0
            })
            &&& forall|a: Seq<char>, b: Seq<char>| #[trigger]
                gone.contains(a) && names.contains(b) && !(#[trigger] gone.contains(b)) ==> before(
                    a,
                    b,
                )
        }),
{
    let gone = outdated(names, keep, names.len());
    let stay = kept(names, keep, names.len());
    lemma_kept(names, keep, names.len());
    assert(names.take(names.len() as int) =~= names);
    if stay.len() > 0 {
        let k = lemma_least(stay);
        let later = stay.remove(k);
        assert forall|i: int| 0 <= i < later.len() implies before(stay[k], #[trigger] later[i])
            && names.contains(later[i]) by {
            let j = if i < k {
                i
            } else {
                i + 1
            };
            assert(later[i] == stay[j]);
        }
        assert forall|i: int, j: int| 0 <= i < j < later.len() implies later[i] != later[j] by {
            let a = if i < k {
                i
            } else {
                i + 1
            };
            let b = if j < k {
                j
            } else {
                j + 1
            };
            assert(later[i] == stay[a] && later[j] == stay[b]);
        }
        lemma_newer_counts(names, stay[k], later);
    }
    if names.len() <= keep {
        lemma_few_are_never_outdated(names, keep, names.len());
    } else {
        lemma_outdated(names, keep, names.len());
        assert(gone.contains(gone[0]));
        lemma_enough_kept(names, keep, gone[0]);
    }
    lemma_outdated(names, keep, names.len());
    assert forall|a: Seq<char>, b: Seq<char>| #[trigger]
        gone.contains(a) && names.contains(b) && !(#[trigger] gone.contains(b)) implies before(
        a,
        b,
    ) by {
        lemma_before_total(a, b);
        if before(b, a) {
            lemma_newer_falls(names, b, a);
        }
    }
}

proof fn lemma_newer_below(names: Seq<Seq<char>>, name: Seq<char>)
    requires
        names.contains(name),
    ensures
        newer(names, name) < names.len(),
    decreases names.len(),
{
    let front = names.drop_last();
    lemma_newer_at_most(front, name);
    if names.last() == name {
        lemma_before_irreflexive(name);
    } else {
        let k = choose|k: int| 0 <= k < names.len() && names[k] == name;
        assert(front[k] == name);
        lemma_newer_below(front, name);
    }
}

proof fn lemma_newer_at_most(names: Seq<Seq<char>>, name: Seq<char>)
    ensures
        newer(names, name) <= names.len(),
    decreases names.len(),
{
    if names.len() > 0 {
        lemma_newer_at_most(names.drop_last(), name);
    }
}

proof fn lemma_few_are_never_outdated(names: Seq<Seq<char>>, keep: nat, n: nat)
    requires
        names.len() <= keep,
        n <= names.len(),
    ensures
        outdated(names, keep, n).len() == 0,
    decreases n,
{
    if n > 0 {
        lemma_few_are_never_outdated(names, keep, (n - 1) as nat);
        assert(names.contains(names[n - 1]));
        lemma_newer_below(names, names[n - 1]);
    }
}

/// A log is archived exactly where it is there and has reached the limit, to a file
/// whose name is its own path with the time and the ending of an archive. The daemon's
/// log is archived from ten mebibytes on.
pub proof fn law_only_a_huge_log_is_archived(
    path: Seq<char>,
    len: Option<u64>,
    max_bytes: u64,
    secs: u64,
)
    ensures
        archive_due(path, len, max_bytes, secs) is Some <==> (len matches Some(n) && n
            >= max_bytes),
        archive_due(path, len, max_bytes, secs) matches Some(name) ==> {
            &&& name == path + "."@ + dec(secs as nat) + ".gz"@
            &&& is_archive(path, name)
        },
        DEFAULT_MAX_BYTES == 10 * 1024 * 1024,
{
    let name = archive_name(path, secs);
    let front = path + "."@;
    assert(name.take(front.len() as int) =~= front);
    assert(name.skip(name.len() - ".gz"@.len()) =~= ".gz"@);
}

proof fn lemma_archives(log: Seq<char>, files: Seq<Seq<char>>)
    ensures
        forall|x: Seq<char>| #[trigger]
            archives(log, files).contains(x) <==> files.contains(x) && is_archive(log, x),
        files.no_duplicates() ==> archives(log, files).no_duplicates(),
    decreases files.len(),
{
    if files.len() > 0 {
        let front = files.drop_last();
        lemma_archives(log, front);
        let earlier = archives(log, front);
        let found = archives(log, files);
        assert forall|x: Seq<char>| #[trigger] found.contains(x) <==> files.contains(x)
            && is_archive(log, x) by {
            assert(earlier.contains(x) <==> front.contains(x) && is_archive(log, x));
            if found.contains(x) {
                let k = choose|k: int| 0 <= k < found.len() && found[k] == x;
                if k < earlier.len() {
                    assert(earlier[k] == x);
                    let j = choose|j: int| 0 <= j < front.len() && front[j] == x;
                    assert(files[j] == x);
                } else {
                    assert(files[files.len() - 1] == x);
                }
            }
            if files.contains(x) && is_archive(log, x) {
                let j = choose|j: int| 0 <= j < files.len() && files[j] == x;
                if j < front.len() {
                    assert(front[j] == x);
                    let k = choose|k: int| 0 <= k < earlier.len() && earlier[k] == x;
                    assert(found[k] == x);
                } else {
                    assert(found[found.len() - 1] == x);
                }
            }
        }
        if files.no_duplicates() {
            assert(front.no_duplicates());
            if is_archive(log, files.last()) && earlier.contains(files.last()) {
                let j = choose|j: int| 0 <= j < front.len() && front[j] == files.last();
                assert(files[j] == files[files.len() - 1]);
            }
        }
    }
}

/// Only archives of the log are deleted, and never the log itself or another file; all
/// but the newest `keep` of them are, and each that is deleted is older by its name than
/// each that stays.
pub proof fn law_only_old_archives_are_deleted(
    path: Seq<char>,
    files: Seq<Seq<char>>,
    keep: nat,
)
    requires
        files.no_duplicates(),
    ensures
        ({
            let gone = pruned(path, files, keep);
            &&& forall|x: Seq<char>| #[trigger]
                gone.contains(x) ==> files.contains(x) && (file_of(path) matches Some(log)
                    && begins(x, log + "."@) && ends(x, ".gz"@))
            &&& file_of(path) matches Some(log) ==> !gone.contains(log)
            &&& forall|x: Seq<char>, y: Seq<char>| #[trigger]
                gone.contains(x) && files.contains(y) && (file_of(path) matches Some(log)
                    && is_archive(log, y)) && !(#[trigger] gone.contains(y)) ==> before(x, y)
        }),
{
    if let Some(log) = file_of(path) {
        let all = archives(log, files);
        lemma_archives(log, files);
        lemma_outdated(all, keep, all.len());
        assert(all.take(all.len() as int) =~= all);
        law_only_the_newest_archives_stay(all, keep);
        let gone = pruned(path, files, keep);
        if gone.contains(log) {
            assert(begins(log, log + "."@));
            reveal_strlit(".");
        }
    }
}

proof fn lemma_before_push(a: Seq<char>, b: Seq<char>, x: char, y: char)
    requires
        a.len() == b.len(),
        before(a, b) || (a == b && x < y),
    ensures
        before(a.push(x), b.push(y)),
    decreases a.len(),
{
    let p = a.push(x);
    let q = b.push(y);
    if a.len() == 0 {
        assert(p[0] == x && q[0] == y);
    } else {
        assert(p[0] == a[0] && q[0] == b[0]);
        if a[0] == b[0] {
            assert(p.skip(1) =~= a.skip(1).push(x));
            assert(q.skip(1) =~= b.skip(1).push(y));
            lemma_before_push(a.skip(1), b.skip(1), x, y);
        }
    }
}

proof fn lemma_numerals_before(a: nat, b: nat)
    requires
        a < b,
        dec(a).len() == dec(b).len(),
    ensures
        before(dec(a), dec(b)),
    decreases b,
{
    if b < 10 {
        assert(dec(a)[0] < dec(b)[0]);
    } else {
        assert(dec(b / 10).len() > 0);
        if a < 10 {
            assert(dec(a).len() == 1);
            assert(dec(b).len() == dec(b / 10).len() + 1);
        } else {
            assert(dec(a).len() == dec(a / 10).len() + 1);
            if a / 10 < b / 10 {
                lemma_numerals_before(a / 10, b / 10);
            }
            lemma_before_push(
                dec(a / 10),
                dec(b / 10),
                digit((a % 10) as int),
                digit((b % 10) as int),
            );
        }
    }
}

proof fn lemma_before_around(front: Seq<char>, a: Seq<char>, b: Seq<char>, tail: Seq<char>)
    requires
        a.len() == b.len(),
        before(a, b),
    ensures
        before(front + a + tail, front + b + tail),
    decreases front.len() + a.len(),
{
    let p = front + a + tail;
    let q = front + b + tail;
    if front.len() > 0 {
        assert(p.skip(1) =~= front.skip(1) + a + tail);
        assert(q.skip(1) =~= front.skip(1) + b + tail);
        lemma_before_around(front.skip(1), a, b, tail);
    } else {
        assert(p[0] == a[0] && q[0] == b[0]);
        if a[0] == b[0] {
            assert(p.skip(1) =~= front + a.skip(1) + tail);
            assert(q.skip(1) =~= front + b.skip(1) + tail);
            lemma_before_around(front, a.skip(1), b.skip(1), tail);
        }
    }
}

/// Of two archives of a log the later one comes after the earlier by its name, as long
/// as their times have the same number of digits; so the newest are those that stay.
pub proof fn law_later_archives_come_after(path: Seq<char>, a: u64, b: u64)
    requires
        a < b,
        dec(a as nat).len() == dec(b as nat).len(),
    ensures
        before(archive_name(path, a), archive_name(path, b)),
        !before(archive_name(path, b), archive_name(path, a)),
{
    lemma_numerals_before(a as nat, b as nat);
    lemma_before_around(path + "."@, dec(a as nat), dec(b as nat), ".gz"@);
    let x = archive_name(path, a);
    let y = archive_name(path, b);
    if before(y, x) {
        lemma_before_transitive(x, y, x);
        lemma_before_irreflexive(x);
    }
}

/// The archives of a log are the files whose name is that of the log, a dot, and
/// something that ends in `.gz`.
pub proof fn law_what_an_archive_is_called(log: Seq<char>, mid: Seq<char>, name: Seq<char>)
    ensures
        is_archive(log, log + "."@ + mid + ".gz"@),
        is_archive(log, name) ==> {
            &&& name.len() > log.len() && name.len() >= 3
            &&& name.take(log.len() as int) == log && name[log.len() as int] == '.'
            &&& name[name.len() - 3] == '.' && name[name.len() - 2] == 'g' && name.last() == 'z'
        },
{
    reveal_strlit(".");
    reveal_strlit(".gz");
    let front = log + "."@;
    let n = log + "."@ + mid + ".gz"@;
    assert(n.take(front.len() as int) =~= front);
    assert(n.skip(n.len() - 3) =~= ".gz"@);
    if is_archive(log, name) {
        assert(name.take(log.len() as int) =~= front.take(log.len() as int));
        assert(front.take(log.len() as int) =~= log);
        assert(name.take(front.len() as int)[log.len() as int] == '.');
        let t = name.skip(name.len() - 3);
        assert(t[0] == name[name.len() - 3] && t[1] == name[name.len() - 2] && t[2]
            == name[name.len() - 1]);
    }
}

} // verus!
