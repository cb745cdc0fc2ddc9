//! Cutting a sequence at a separator, and a text into words.
use crate::text::{chars_of, is_space, is_space_char, texts};
use vstd::prelude::*;

verus! {

/// The pieces of a sequence between separators: one more than there are
/// separators.
pub open spec fn pieces<T>(s: Seq<T>, sep: T) -> Seq<Seq<T>>
    decreases s.len(),
{
    if s.len() == 0 {
        seq![Seq::empty()]
    } else {
        let p = pieces(s.drop_last(), sep);
        if s.last() == sep {
            p.push(Seq::empty())
        } else {
            p.drop_last().push(p.last().push(s.last()))
        }
    }
}

/// There is at least one piece.
pub proof fn lemma_pieces_some<T>(s: Seq<T>, sep: T)
    ensures
        pieces(s, sep).len() >= 1,
    decreases s.len(),
{
    if s.len() > 0 {
        lemma_pieces_some(s.drop_last(), sep);
    }
}

/// Joining two sequences joins the last piece of the one with the first of the
/// other.
pub proof fn lemma_pieces_join<T>(a: Seq<T>, b: Seq<T>, sep: T)
    ensures
        pieces(a + b, sep) == pieces(a, sep).drop_last() + seq![
            pieces(a, sep).last() + pieces(b, sep)[0],
        ] + pieces(b, sep).skip(1),
    decreases b.len(),
{
    lemma_pieces_some(a, sep);
    lemma_pieces_some(b, sep);
    let left = pieces(a, sep);
    let right = pieces(b, sep);
    if b.len() == 0 {
        assert(a + b =~= a);
        assert(right[0] =~= Seq::<T>::empty());
        assert(left.last() + right[0] =~= left.last());
        assert(left.drop_last() + seq![left.last()] + right.skip(1) =~= left);
    } else {
        let c = b.drop_last();
        let before = pieces(c, sep);
        lemma_pieces_join(a, c, sep);
        lemma_pieces_some(c, sep);
        assert((a + b).drop_last() =~= a + c);
        assert((a + b).last() == b.last());
        let joined = left.drop_last() + seq![left.last() + before[0]] + before.skip(1);
        if b.last() == sep {
            assert(right[0] == before[0]);
            assert(right.skip(1) =~= before.skip(1).push(Seq::empty()));
            assert(joined.push(Seq::empty()) =~= left.drop_last() + seq![left.last() + right[0]]
                + right.skip(1));
        } else {
            let tail = before.last().push(b.last());
            if before.len() == 1 {
                assert(right[0] == tail);
                assert(left.last() + tail =~= (left.last() + before[0]).push(b.last()));
                assert(joined.drop_last().push(joined.last().push(b.last())) =~= left.drop_last()
                    + seq![left.last() + right[0]] + right.skip(1));
            } else {
                assert(right[0] == before[0]);
                assert(joined.last() == before.last());
                assert(joined.drop_last().push(joined.last().push(b.last())) =~= left.drop_last()
                    + seq![left.last() + right[0]] + right.skip(1));
            }
        }
    }
}

/// The first piece holds no separator.
pub proof fn lemma_pieces_head<T>(p: Seq<T>, s: Seq<T>, sep: T)
    requires
        p == pieces(s, sep)[0],
    ensures
        pieces(p, sep) == seq![p],
    decreases s.len(),
{
    lemma_pieces_some(s, sep);
    if s.len() == 0 {
        assert(p =~= Seq::<T>::empty());
    } else {
        let c = s.drop_last();
        lemma_pieces_some(c, sep);
        if s.last() != sep && pieces(c, sep).len() == 1 {
            let q = pieces(c, sep)[0];
            lemma_pieces_head(q, c, sep);
            assert(p == q.push(s.last()));
            assert(p.drop_last() =~= q);
            assert(pieces(p, sep) =~= seq![p]);
        } else {
            assert(p == pieces(c, sep)[0]);
            lemma_pieces_head(p, c, sep);
        }
    }
}

/// A sequence without a separator is one piece.
pub proof fn lemma_pieces_whole<T>(s: Seq<T>, sep: T)
    requires
        !s.contains(sep),
    ensures
        pieces(s, sep) == seq![s],
    decreases s.len(),
{
    if s.len() > 0 {
        let c = s.drop_last();
        assert(s[s.len() - 1] != sep);
        assert(!c.contains(sep)) by {
            if c.contains(sep) {
                let k = choose|k: int| 0 <= k < c.len() && c[k] == sep;
                assert(s[k] == sep);
            }
        }
        lemma_pieces_whole(c, sep);
        assert(c.push(s.last()) =~= s);
        assert(pieces(s, sep) =~= seq![s]);
    } else {
        assert(s =~= Seq::<T>::empty());
    }
}

/// The pieces of a text.
pub fn split_text(s: &str, sep: char) -> (r: Vec<String>)
    ensures
        texts(r@) == pieces(s@, sep),
{
    let v: Vec<char> = chars_of(s);
    let mut r: Vec<String> = Vec::new();
    let mut start: usize = 0;
    let mut i: usize = 0;
    proof {
        assert(v@.subrange(0, 0) =~= Seq::<char>::empty());
        assert(texts(r@).push(v@.subrange(0, 0)) =~= pieces(v@.take(0), sep));
    }
    while i < v.len()
        invariant
            v@ == s@,
            start <= i <= v@.len(),
            texts(r@).push(v@.subrange(start as int, i as int)) == pieces(v@.take(i as int), sep),
        decreases v@.len() - i,
    {
        let ghost before = texts(r@);
        let ghost piece = v@.subrange(start as int, i as int);
        proof {
            assert(v@.take(i + 1).drop_last() =~= v@.take(i as int));
            assert(before.push(piece).drop_last() =~= before);
        }
        if v[i] == sep {
            let part: String = s.substring_char(start, i).to_owned();
            r.push(part);
            start = i + 1;
            proof {
                assert(texts(r@) =~= before.push(piece));
                assert(v@.subrange(i + 1, i + 1) =~= Seq::<char>::empty());
                assert(texts(r@).push(v@.subrange(i + 1, i + 1)) =~= pieces(v@.take(i + 1), sep));
            }
        } else {
            proof {
                assert(v@.subrange(start as int, i + 1) =~= piece.push(v@[i as int]));
                assert(before.push(v@.subrange(start as int, i + 1)) =~= pieces(
                    v@.take(i + 1),
                    sep,
                ));
            }
        }
        i += 1;
    }
    proof {
        assert(v@.take(i as int) =~= v@);
    }
    let ghost front = texts(r@);
    let last: String = s.substring_char(start, i).to_owned();
    r.push(last);
    proof {
        assert(texts(r@) =~= front.push(last@));
    }
    r
}

/// The words of a text: its longest runs without white space, in order. A further
/// character begins a word, lengthens the last one or is white space.
pub open spec fn words(s: Seq<char>) -> Seq<Seq<char>>
    decreases s.len(),
{
    if s.len() == 0 {
        Seq::empty()
    } else {
        let found = words(s.drop_last());
        if is_space(s.last()) {
            found
        } else if s.len() == 1 || is_space(s[s.len() - 2]) {
            found.push(seq![s.last()])
        } else {
            found.drop_last().push(found.last().push(s.last()))
        }
    }
}

/// The words of a text.
pub fn split_words(s: &str) -> (r: Vec<String>)
    ensures
        texts(r@) == words(s@),
{
    let v: Vec<char> = chars_of(s);
    let mut r: Vec<String> = Vec::new();
    let mut start: usize = 0;
    let mut i: usize = 0;
    proof {
        assert(texts(r@) =~= words(v@.take(0)));
    }
    while i < v.len()
        invariant
            v@ == s@,
            start <= i <= v@.len(),
            i > 0 ==> (start < i <==> !is_space(v@[i - 1])),
            words(v@.take(i as int)) == (if start < i {
                texts(r@).push(v@.subrange(start as int, i as int))
            } else {
                texts(r@)
            }),
        decreases v@.len() - i,
    {
        let ghost before = texts(r@);
        let ghost word = v@.subrange(start as int, i as int);
        proof {
            assert(v@.take(i + 1).drop_last() =~= v@.take(i as int));
            assert(before.push(word).drop_last() =~= before);
            assert(v@.subrange(start as int, i + 1) =~= word.push(v@[i as int]));
            if start == i {
                assert(word.push(v@[i as int]) =~= seq![v@[i as int]]);
            }
        }
        if is_space_char(v[i]) {
            if start < i {
                let part: String = s.substring_char(start, i).to_owned();
                r.push(part);
                proof {
                    assert(texts(r@) =~= before.push(word));
                }
            }
            start = i + 1;
        }
        i += 1;
    }
    proof {
        assert(v@.take(i as int) =~= v@);
    }
    if start < i {
        let ghost front = texts(r@);
        let last: String = s.substring_char(start, i).to_owned();
        r.push(last);
        proof {
            assert(texts(r@) =~= front.push(last@));
        }
    }
    r
}

/// The words of a text hold no white space and are not empty; a text of no white space
/// is one word, and white space between two texts parts their words.
pub proof fn law_words_are_the_runs_without_space(s: Seq<char>)
    ensures
        forall|k: int|
            0 <= k < words(s).len() ==> (#[trigger] words(s)[k]).len() > 0 && forall|i: int|
                0 <= i < words(s)[k].len() ==> !is_space(#[trigger] words(s)[k][i]),
        s.len() > 0 && !is_space(s.last()) ==> words(s).len() > 0,
        s.len() > 0 && (forall|i: int| 0 <= i < s.len() ==> !is_space(#[trigger] s[i])) ==> words(s)
            == seq![s],
    decreases s.len(),
{
    if s.len() > 0 {
        let front = s.drop_last();
        law_words_are_the_runs_without_space(front);
        let before = words(front);
        let found = words(s);
        if !is_space(s.last()) && s.len() > 1 && !is_space(s[s.len() - 2]) {
            assert(front.last() == s[s.len() - 2]);
            assert(before.len() > 0);
            assert(before[before.len() - 1] == before.last());
        }
        assert forall|k: int| 0 <= k < found.len() implies (#[trigger] found[k]).len() > 0 && forall|
            i: int,
        |
            0 <= i < found[k].len() ==> !is_space(#[trigger] found[k][i]) by {
            if k < found.len() - 1 || is_space(s.last()) {
                assert(found[k] == before[k]);
            } else if s.len() == 1 || is_space(s[s.len() - 2]) {
                assert(found[k] == seq![s.last()]);
            } else {
                let w = before[before.len() - 1];
                assert(found[k] == w.push(s.last()));
                assert forall|i: int| 0 <= i < found[k].len() implies !is_space(
                    #[trigger] found[k][i],
                ) by {
                    if i < w.len() {
                        assert(found[k][i] == w[i]);
                    }
                }
            }
        }
        if forall|i: int| 0 <= i < s.len() ==> !is_space(#[trigger] s[i]) {
            assert(!is_space(s[s.len() - 1]));
            if s.len() == 1 {
                assert(words(front) =~= Seq::empty());
                assert(seq![s.last()] =~= s);
                assert(found =~= seq![s]);
            } else {
                assert forall|i: int| 0 <= i < front.len() implies !is_space(#[trigger] front[i]) by {
                    assert(front[i] == s[i]);
                }
                assert(before == seq![front]);
                assert(!is_space(s[s.len() - 2]));
                assert(front.push(s.last()) =~= s);
                assert(found =~= seq![s]);
            }
        }
    }
}

/// The pieces of two sequences with a separator between them are those of the one and
/// then those of the other; a sequence without a separator is one piece.
pub proof fn law_a_separator_parts_the_pieces<T>(a: Seq<T>, b: Seq<T>, sep: T)
    ensures
        pieces(a + seq![sep] + b, sep) == pieces(a, sep) + pieces(b, sep),
        !a.contains(sep) ==> pieces(a, sep) == seq![a],
{
    let mid = a + seq![sep];
    assert(mid.drop_last() =~= a);
    assert(mid.last() == sep);
    assert(pieces(mid, sep) == pieces(a, sep).push(Seq::empty()));
    lemma_pieces_join(mid, b, sep);
    lemma_pieces_some(b, sep);
    assert(pieces(mid, sep).drop_last() =~= pieces(a, sep));
    assert(Seq::<T>::empty() + pieces(b, sep)[0] =~= pieces(b, sep)[0]);
    assert(seq![pieces(b, sep)[0]] + pieces(b, sep).skip(1) =~= pieces(b, sep));
    assert(pieces(a + seq![sep] + b, sep) =~= pieces(a, sep) + pieces(b, sep));
    if !a.contains(sep) {
        lemma_pieces_whole(a, sep);
    }
}

} // verus!
