//! File paths as texts: joining them, and comparing them name by name.
use crate::split::{lemma_pieces_join, lemma_pieces_some, lemma_pieces_whole, pieces, split_text};
use crate::text::{cat2, cat3, same_text, starts_with_char, texts};
use vstd::prelude::*;

verus! {

/// Whether a path begins at the root.
pub open spec fn rooted(path: Seq<char>) -> bool {
    path.len() > 0 && path[0] == '/'
}

/// The names among the pieces of a path. Doubled and trailing slashes name
/// nothing; nor does a dot, but at the beginning of a path that is not rooted.
pub open spec fn names_among(ps: Seq<Seq<char>>, rooted: bool) -> Seq<Seq<char>>
    decreases ps.len(),
{
    if ps.len() == 0 {
        Seq::empty()
    } else {
        let found = names_among(ps.drop_last(), rooted);
        if ps.last().len() == 0 || (ps.last() == seq!['.'] && (rooted || ps.len() > 1)) {
            found
        } else {
            found.push(ps.last())
        }
    }
}

/// The steps of a path: the root, where it begins there, and its names.
pub open spec fn steps(path: Seq<char>) -> Seq<Seq<char>> {
    if rooted(path) {
        seq![seq!['/']] + names_among(pieces(path, '/'), true)
    } else {
        names_among(pieces(path, '/'), false)
    }
}

/// Whether two texts are the same path.
pub open spec fn same_path(a: Seq<char>, b: Seq<char>) -> bool {
    steps(a) == steps(b)
}

/// Whether a path is `base` or goes on from it.
pub open spec fn is_inside(path: Seq<char>, base: Seq<char>) -> bool {
    steps(base).len() <= steps(path).len() && steps(path).take(steps(base).len() as int) == steps(
        base,
    )
}

/// Path `b` as seen from `a`.
pub open spec fn joined(a: Seq<char>, b: Seq<char>) -> Seq<char> {
    if rooted(b) || a.len() == 0 {
        b
    } else if a.last() == '/' {
        a + b
    } else {
        a + seq!['/'] + b
    }
}

/// The steps of a path.
pub fn path_steps(path: &str) -> (r: Vec<String>)
    ensures
        texts(r@) == steps(path@),
{
    let root: bool = starts_with_char(path, '/');
    let ps: Vec<String> = split_text(path, '/');
    let ghost all = texts(ps@);
    let mut r: Vec<String> = Vec::new();
    proof {
        reveal_strlit("/");
        reveal_strlit(".");
        assert(texts(r@) =~= Seq::empty());
    }
    if root {
        let slash: String = "/".to_owned();
        r.push(slash);
        proof {
            assert(slash@ =~= seq!['/']);
            assert(texts(r@) =~= seq![seq!['/']]);
        }
    }
    let ghost base = texts(r@);
    let mut i: usize = 0;
    proof {
        assert(texts(r@) =~= base + names_among(all.take(0), root));
    }
    while i < ps.len()
        invariant
            all == texts(ps@),
            i <= ps@.len(),
            "."@ =~= seq!['.'],
            texts(r@) == base + names_among(all.take(i as int), root),
        decreases ps@.len() - i,
    {
        proof {
            assert(all.take(i + 1).drop_last() =~= all.take(i as int));
            assert(all.take(i + 1).last() == ps@[i as int]@);
        }
        let piece: &str = ps[i].as_str();
        let nothing: bool = same_text(piece, "");
        proof {
            reveal_strlit("");
            assert(nothing == (piece@.len() == 0)) by {
                if piece@.len() == 0 {
                    assert(piece@ =~= ""@);
                }
            }
        }
        if !(nothing || (same_text(piece, ".") && (root || i > 0))) {
            let ghost before = texts(r@);
            let name: String = ps[i].clone();
            r.push(name);
            proof {
                assert(texts(r@) =~= before.push(name@));
                assert(texts(r@) =~= base + names_among(all.take(i + 1), root));
            }
        }
        i += 1;
    }
    proof {
        assert(all.take(i as int) =~= all);
        assert(texts(r@) =~= steps(path@));
    }
    r
}

/// Whether the first names of a list are those of another.
fn begins_with(v: &Vec<String>, front: &Vec<String>) -> (r: bool)
    ensures
        r == (front@.len() <= v@.len() && texts(v@).take(front@.len() as int) == texts(front@)),
{
    if front.len() > v.len() {
        return false;
    }
    let mut i: usize = 0;
    while i < front.len()
        invariant
            i <= front@.len() <= v@.len(),
            forall|j: int| 0 <= j < i ==> #[trigger] texts(v@)[j] == texts(front@)[j],
        decreases front@.len() - i,
    {
        if !same_text(v[i].as_str(), front[i].as_str()) {
            proof {
                assert(texts(v@).take(front@.len() as int)[i as int] != texts(front@)[i as int]);
            }
            return false;
        }
        i += 1;
    }
    proof {
        assert(texts(v@).take(front@.len() as int) =~= texts(front@));
    }
    true
}

/// Whether two texts are the same path.
pub fn is_same_path(a: &str, b: &str) -> (r: bool)
    ensures
        r == same_path(a@, b@),
{
    let x: Vec<String> = path_steps(a);
    let y: Vec<String> = path_steps(b);
    if x.len() != y.len() {
        proof {
            assert(texts(x@).len() != texts(y@).len());
        }
        return false;
    }
    proof {
        assert(texts(x@).take(y@.len() as int) =~= texts(x@));
    }
    begins_with(&x, &y)
}

/// Whether a path is `base` or goes on from it.
pub fn path_is_inside(path: &str, base: &str) -> (r: bool)
    ensures
        r == is_inside(path@, base@),
{
    let x: Vec<String> = path_steps(path);
    let y: Vec<String> = path_steps(base);
    begins_with(&x, &y)
}

/// Path `b` as seen from `a`.
pub fn join_path(a: &str, b: &str) -> (r: String)
    ensures
        r@ == joined(a@, b@),
{
    let n: usize = a.unicode_len();
    proof {
        reveal_strlit("/");
        assert("/"@ =~= seq!['/']);
    }
    if starts_with_char(b, '/') || n == 0 {
        b.to_owned()
    } else if a.get_char(n - 1) == '/' {
        cat2(a, b)
    } else {
        cat3(a, "/", b)
    }
}

/// Whether a text is one name in a path.
pub open spec fn one_name(name: Seq<char>) -> bool {
    name.len() > 0 && !name.contains('/') && name != seq!['.']
}

proof fn lemma_names_push(ps: Seq<Seq<char>>, root: bool, p: Seq<char>)
    ensures
        names_among(ps.push(p), root) == (if p.len() == 0 || (p == seq!['.'] && (root || ps.len()
            > 0)) {
            names_among(ps, root)
        } else {
            names_among(ps, root).push(p)
        }),
{
    assert(ps.push(p).drop_last() =~= ps);
}

/// A name joined to a path is one step more.
pub proof fn lemma_join_steps(a: Seq<char>, name: Seq<char>)
    requires
        a.len() > 0,
        one_name(name),
    ensures
        steps(joined(a, name)) == steps(a).push(name),
        joined(a, name).len() > 0,
{
    assert(name[0] != '/') by {
        assert(name.contains(name[0]));
    }
    let ps = pieces(a, '/');
    lemma_pieces_some(a, '/');
    lemma_pieces_whole(name, '/');
    if a.last() == '/' {
        let j = a + name;
        lemma_pieces_join(a, name, '/');
        assert(ps.last() =~= Seq::<char>::empty());
        assert(Seq::<char>::empty() + name =~= name);
        assert(pieces(j, '/') =~= ps.drop_last().push(name));
        assert(ps =~= ps.drop_last().push(ps.last()));
        lemma_names_push(ps.drop_last(), rooted(a), ps.last());
        lemma_names_push(ps.drop_last(), rooted(a), name);
        assert(steps(j) =~= steps(a).push(name));
    } else {
        let mid = a + seq!['/'];
        assert(mid.drop_last() =~= a);
        assert(mid.last() == '/');
        assert(pieces(mid, '/') == ps.push(Seq::empty()));
        lemma_pieces_join(mid, name, '/');
        assert(Seq::<char>::empty() + name =~= name);
        assert(pieces(mid, '/').drop_last() =~= ps);
        assert(pieces(mid + name, '/') =~= ps.push(name));
        lemma_names_push(ps, rooted(a), name);
        assert(steps(mid + name) =~= steps(a).push(name));
    }
}

/// A name joined to a path lies inside it, and a slash is put between the two unless
/// there is one; a path from the root stays as it is. Doubled slashes do not matter.
pub proof fn law_joined_paths_lie_inside(a: Seq<char>, name: Seq<char>, b: Seq<char>)
    requires
        a.len() > 0,
        one_name(name),
    ensures
        is_inside(joined(a, name), a),
        !same_path(joined(a, name), a),
        !is_inside(a, joined(a, name)),
        a.last() != '/' ==> joined(a, name) == a + seq!['/'] + name && same_path(
            a + seq!['/'],
            a,
        ),
        a.last() == '/' ==> joined(a, name) == a + name,
        b.len() > 0 && b[0] == '/' ==> joined(a, b) == b,
        joined(Seq::empty(), b) == b,
{
    lemma_join_steps(a, name);
    assert(steps(a).push(name).take(steps(a).len() as int) =~= steps(a));
    assert(name[0] != '/') by {
        assert(name.contains(name[0]));
    }
    if a.last() != '/' {
        let mid = a + seq!['/'];
        let ps = pieces(a, '/');
        assert(mid.drop_last() =~= a);
        assert(mid.last() == '/');
        assert(pieces(mid, '/') == ps.push(Seq::empty()));
        lemma_names_push(ps, rooted(a), Seq::empty());
        assert(mid[0] == a[0]);
    }
}

} // verus!
