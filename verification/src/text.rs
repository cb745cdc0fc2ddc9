//! Text as sequences of characters: equality, concatenation, numerals,
//! trimming and the few searches the request handlers need.
use vstd::prelude::*;

verus! {

/// The decimal digit `d`.
pub open spec fn digit(d: int) -> char {
    (48 + d) as char
}

/// The decimal numeral of `n`, without leading zeros.
pub open spec fn dec(n: nat) -> Seq<char>
    decreases n,
{
    if n < 10 {
        seq![digit(n as int)]
    } else {
        dec(n / 10).push(digit((n % 10) as int))
    }
}

/// The lower-case hexadecimal digit `d`.
pub open spec fn hex_digit(d: int) -> char {
    if d < 10 {
        digit(d)
    } else {
        (87 + d) as char
    }
}

/// The `k` lowest hexadecimal digits of `n`, most significant first.
pub open spec fn hex(n: nat, k: nat) -> Seq<char>
    decreases k,
{
    if k == 0 {
        Seq::empty()
    } else {
        hex(n / 16, (k - 1) as nat).push(hex_digit((n % 16) as int))
    }
}

/// Seconds with three decimals, for a time in milliseconds.
pub open spec fn seconds(ms: nat) -> Seq<char> {
    dec(ms / 1000) + seq!['.'] + seq![
        digit((ms % 1000 / 100) as int),
        digit((ms % 100 / 10) as int),
        digit((ms % 10) as int),
    ]
}

/// Unicode `White_Space`.
pub open spec fn is_space(c: char) -> bool {
    let n = c as u32;
    ||| 9 <= n <= 13
    ||| n == 32
    ||| n == 0x85
    ||| n == 0xA0
    ||| n == 0x1680
    ||| 0x2000 <= n <= 0x200A
    ||| n == 0x2028
    ||| n == 0x2029
    ||| n == 0x202F
    ||| n == 0x205F
    ||| n == 0x3000
}

/// Unicode general category `Cc`.
pub open spec fn is_control(c: char) -> bool {
    let n = c as u32;
    n <= 0x1F || 0x7F <= n <= 0x9F
}

/// `s` without its trailing white space.
pub open spec fn trim_end_of(s: Seq<char>) -> Seq<char>
    decreases s.len(),
{
    if s.len() > 0 && is_space(s.last()) {
        trim_end_of(s.drop_last())
    } else {
        s
    }
}

/// `s` without its leading white space.
pub open spec fn trim_start_of(s: Seq<char>) -> Seq<char>
    decreases s.len(),
{
    if s.len() > 0 && is_space(s[0]) {
        trim_start_of(s.drop_first())
    } else {
        s
    }
}

/// `s` without leading and trailing white space.
pub open spec fn trimmed(s: Seq<char>) -> Seq<char> {
    trim_start_of(trim_end_of(s))
}

/// Whether `part` occurs in `s` as a contiguous run.
pub open spec fn has_part(s: Seq<char>, part: Seq<char>) -> bool {
    exists|i: int|
        0 <= i <= s.len() - part.len() && #[trigger] s.subrange(i, i + part.len()) == part
}

/// How many bytes `c` takes in UTF-8.
pub open spec fn utf8_width(c: char) -> nat {
    let n = c as u32;
    if n < 0x80 {
        1
    } else if n < 0x800 {
        2
    } else if n < 0x10000 {
        3
    } else {
        4
    }
}

/// The longest beginning of `s` that takes at most `limit` bytes in UTF-8.
pub open spec fn byte_prefix(s: Seq<char>, limit: nat) -> Seq<char>
    decreases s.len(),
{
    if s.len() == 0 || utf8_width(s[0]) > limit {
        Seq::empty()
    } else {
        seq![s[0]] + byte_prefix(s.drop_first(), (limit - utf8_width(s[0])) as nat)
    }
}

/// The first place from `i` on with a character of `stops`; the end of `s` where
/// there is none.
pub open spec fn next_stop(s: Seq<char>, i: int, stops: Seq<char>) -> int
    decreases s.len() - i,
{
    if i < 0 || i >= s.len() {
        s.len() as int
    } else if stops.contains(s[i]) {
        i
    } else {
        next_stop(s, i + 1, stops)
    }
}

/// The characters of each text of a list.
pub open spec fn texts(s: Seq<String>) -> Seq<Seq<char>> {
    s.map_values(|t: String| t@)
}

/// The characters of an optional text.
pub open spec fn opt_text(o: Option<String>) -> Option<Seq<char>> {
    match o {
        Some(t) => Some(t@),
        None => None,
    }
}

/// A copy of an optional text.
pub fn copy_opt(o: &Option<String>) -> (r: Option<String>)
    ensures
        opt_text(r) == opt_text(*o),
{
    match o {
        Some(t) => Some(t.clone()),
        None => None,
    }
}

/// A copy of a list of texts.
pub fn copy_texts(v: &Vec<String>) -> (r: Vec<String>)
    ensures
        texts(r@) == texts(v@),
{
    let mut r: Vec<String> = Vec::new();
    let mut i: usize = 0;
    while i < v.len()
        invariant
            i <= v@.len(),
            texts(r@) == texts(v@).take(i as int),
        decreases v@.len() - i,
    {
        let ghost before = r@;
        r.push(v[i].clone());
        proof {
            assert(texts(r@) =~= texts(before).push(v@[i as int]@));
            assert(texts(v@).take(i + 1) =~= texts(v@).take(i as int).push(v@[i as int]@));
        }
        i += 1;
    }
    proof {
        assert(texts(v@).take(i as int) =~= texts(v@));
    }
    r
}

/// Whether `name` is in the list.
pub fn has_text(v: &Vec<String>, name: &str) -> (r: bool)
    ensures
        r == texts(v@).contains(name@),
{
    let mut i: usize = 0;
    while i < v.len()
        invariant
            i <= v@.len(),
            forall|j: int| 0 <= j < i ==> #[trigger] texts(v@)[j] != name@,
        decreases v@.len() - i,
    {
        if same_text(v[i].as_str(), name) {
            proof {
                assert(texts(v@)[i as int] == name@);
            }
            return true;
        }
        i += 1;
    }
    false
}

/// Whether two texts hold the same characters.
pub fn same_text(a: &str, b: &str) -> (same: bool)
    ensures
        same == (a@ == b@),
{
    a.to_owned() == b.to_owned()
}

/// `a` followed by `b`.
pub fn cat2(a: &str, b: &str) -> (r: String)
    ensures
        r@ == a@ + b@,
{
    a.to_owned().concat(b)
}

/// `a`, `b` and `c` in a row.
pub fn cat3(a: &str, b: &str, c: &str) -> (r: String)
    ensures
        r@ == a@ + b@ + c@,
{
    a.to_owned().concat(b).concat(c)
}

/// `a`, `b`, `c` and `d` in a row.
pub fn cat4(a: &str, b: &str, c: &str, d: &str) -> (r: String)
    ensures
        r@ == a@ + b@ + c@ + d@,
{
    a.to_owned().concat(b).concat(c).concat(d)
}

/// `a`, `b`, `c`, `d` and `e` in a row.
pub fn cat5(a: &str, b: &str, c: &str, d: &str, e: &str) -> (r: String)
    ensures
        r@ == a@ + b@ + c@ + d@ + e@,
{
    a.to_owned().concat(b).concat(c).concat(d).concat(e)
}

/// The characters of `s`.
pub fn chars_of(s: &str) -> (v: Vec<char>)
    ensures
        v@ == s@,
{
    let mut v: Vec<char> = Vec::new();
    for c in it: s.chars()
        invariant
            v@ == it.seq().take(it.index() as int),
            it.seq() == s@,
    {
        v.push(c);
    }
    v
}

fn digit_text(d: u64) -> (r: &'static str)
    requires
        d < 16,
    ensures
        r@ == seq![hex_digit(d as int)],
{
    proof {
        reveal_strlit("0");
        reveal_strlit("1");
        reveal_strlit("2");
        reveal_strlit("3");
        reveal_strlit("4");
        reveal_strlit("5");
        reveal_strlit("6");
        reveal_strlit("7");
        reveal_strlit("8");
        reveal_strlit("9");
        reveal_strlit("a");
        reveal_strlit("b");
        reveal_strlit("c");
        reveal_strlit("d");
        reveal_strlit("e");
        reveal_strlit("f");
    }
    if d == 0 {
        "0"
    } else if d == 1 {
        "1"
    } else if d == 2 {
        "2"
    } else if d == 3 {
        "3"
    } else if d == 4 {
        "4"
    } else if d == 5 {
        "5"
    } else if d == 6 {
        "6"
    } else if d == 7 {
        "7"
    } else if d == 8 {
        "8"
    } else if d == 9 {
        "9"
    } else if d == 10 {
        "a"
    } else if d == 11 {
        "b"
    } else if d == 12 {
        "c"
    } else if d == 13 {
        "d"
    } else if d == 14 {
        "e"
    } else {
        "f"
    }
}

/// The decimal numeral of `n`.
pub fn decimal(n: u64) -> (r: String)
    ensures
        r@ == dec(n as nat),
    decreases n,
{
    if n < 10 {
        digit_text(n).to_owned()
    } else {
        decimal(n / 10).concat(digit_text(n % 10))
    }
}

/// The sixteen hexadecimal digits of `n`.
pub fn hex16(n: u64) -> (r: String)
    ensures
        r@ == hex(n as nat, 16),
{
    hex_digits(n, 16)
}

fn hex_digits(n: u64, k: u64) -> (r: String)
    ensures
        r@ == hex(n as nat, k as nat),
    decreases k,
{
    if k == 0 {
        String::new()
    } else {
        hex_digits(n / 16, k - 1).concat(digit_text(n % 16))
    }
}

/// `ms` milliseconds as seconds with three decimals.
pub fn seconds_text(ms: u64) -> (r: String)
    ensures
        r@ == seconds(ms as nat),
{
    let r: String = decimal(ms / 1000).concat(".").concat(digit_text(ms % 1000 / 100)).concat(
        digit_text(ms % 100 / 10),
    ).concat(digit_text(ms % 10));
    proof {
        reveal_strlit(".");
        assert(r@ =~= seconds(ms as nat));
    }
    r
}

/// Whether `c` is white space.
pub fn is_space_char(c: char) -> (r: bool)
    ensures
        r == is_space(c),
{
    let n: u32 = c as u32;
    (9 <= n && n <= 13) || n == 32 || n == 0x85 || n == 0xA0 || n == 0x1680 || (0x2000 <= n && n
        <= 0x200A) || n == 0x2028 || n == 0x2029 || n == 0x202F || n == 0x205F || n == 0x3000
}

/// Whether `c` is a control character.
pub fn is_control_char(c: char) -> (r: bool)
    ensures
        r == is_control(c),
{
    let n: u32 = c as u32;
    n <= 0x1F || (0x7F <= n && n <= 0x9F)
}

/// What the first stop is.
pub proof fn lemma_next_stop(s: Seq<char>, i: int, stops: Seq<char>)
    requires
        0 <= i <= s.len(),
    ensures
        i <= next_stop(s, i, stops) <= s.len(),
        forall|j: int| i <= j < next_stop(s, i, stops) ==> !stops.contains(#[trigger] s[j]),
        next_stop(s, i, stops) < s.len() ==> stops.contains(s[next_stop(s, i, stops)]),
    decreases s.len() - i,
{
    if i < s.len() && !stops.contains(s[i]) {
        lemma_next_stop(s, i + 1, stops);
    }
}

/// How many characters of `v` are left once trailing white space is dropped.
fn end_trim_len(v: &Vec<char>) -> (n: usize)
    ensures
        n <= v@.len(),
        v@.take(n as int) == trim_end_of(v@),
{
    let mut n: usize = v.len();
    proof {
        assert(v@.take(n as int) =~= v@);
    }
    while n > 0 && is_space_char(v[n - 1])
        invariant
            n <= v@.len(),
            trim_end_of(v@.take(n as int)) == trim_end_of(v@),
        decreases n,
    {
        proof {
            assert(v@.take(n as int).drop_last() =~= v@.take(n - 1));
        }
        n -= 1;
    }
    n
}

/// `s` without its trailing white space.
pub fn trim_end(s: &str) -> (r: String)
    ensures
        r@ == trim_end_of(s@),
{
    let v: Vec<char> = chars_of(s);
    let n: usize = end_trim_len(&v);
    s.substring_char(0, n).to_owned()
}

/// `s` without leading and trailing white space.
pub fn trim(s: &str) -> (r: String)
    ensures
        r@ == trimmed(s@),
{
    let v: Vec<char> = chars_of(s);
    let n: usize = end_trim_len(&v);
    let mut i: usize = 0;
    proof {
        assert(v@.subrange(0, n as int) =~= v@.take(n as int));
    }
    while i < n && is_space_char(v[i])
        invariant
            i <= n <= v@.len(),
            trim_start_of(v@.subrange(i as int, n as int)) == trimmed(v@),
        decreases n - i,
    {
        proof {
            assert(v@.subrange(i as int, n as int).drop_first() =~= v@.subrange(i + 1, n as int));
        }
        i += 1;
    }
    s.substring_char(i, n).to_owned()
}

/// The longest beginning of `s` that takes at most `limit` bytes in UTF-8.
pub fn first_bytes(s: &str, limit: usize) -> (r: String)
    ensures
        r@ == byte_prefix(s@, limit as nat),
{
    let v: Vec<char> = chars_of(s);
    let mut i: usize = 0;
    let mut left: usize = limit;
    proof {
        assert(v@.take(0) + byte_prefix(v@.skip(0), left as nat) =~= byte_prefix(
            v@,
            limit as nat,
        )) by {
            assert(v@.skip(0) =~= v@);
        }
    }
    while i < v.len()
        invariant_except_break
            i <= v@.len(),
            v@.take(i as int) + byte_prefix(v@.skip(i as int), left as nat) == byte_prefix(
                v@,
                limit as nat,
            ),
        ensures
            i <= v@.len(),
            v@.take(i as int) == byte_prefix(v@, limit as nat),
        decreases v@.len() - i,
    {
        let n: u32 = v[i] as u32;
        let width: usize = if n < 0x80 {
            1
        } else if n < 0x800 {
            2
        } else if n < 0x10000 {
            3
        } else {
            4
        };
        proof {
            assert(v@.skip(i as int)[0] == v@[i as int]);
        }
        if width > left {
            proof {
                assert(v@.take(i as int) + Seq::<char>::empty() =~= v@.take(i as int));
            }
            break;
        }
        proof {
            assert(v@.skip(i as int).drop_first() =~= v@.skip(i + 1));
            assert(v@.take(i as int) + (seq![v@[i as int]] + byte_prefix(
                v@.skip(i + 1),
                (left - width) as nat,
            )) =~= v@.take(i + 1) + byte_prefix(v@.skip(i + 1), (left - width) as nat));
        }
        left -= width;
        i += 1;
        proof {
            if i == v@.len() {
                assert(v@.take(i as int) + byte_prefix(v@.skip(i as int), left as nat) =~= v@.take(
                    i as int,
                ));
            }
        }
    }
    s.substring_char(0, i).to_owned()
}

/// The first place from `from` on with a character of `stops`; the end of `v`
/// where there is none.
pub fn find_stop(v: &Vec<char>, from: usize, stops: &Vec<char>) -> (r: usize)
    requires
        from <= v@.len(),
    ensures
        r == next_stop(v@, from as int, stops@),
        from <= r <= v@.len(),
{
    let mut i: usize = from;
    while i < v.len()
        invariant
            from <= i <= v@.len(),
            next_stop(v@, i as int, stops@) == next_stop(v@, from as int, stops@),
        decreases v@.len() - i,
    {
        let mut k: usize = 0;
        let mut hit: bool = false;
        while k < stops.len()
            invariant
                i < v@.len(),
                k <= stops@.len(),
                hit == stops@.take(k as int).contains(v@[i as int]),
            decreases stops@.len() - k,
        {
            proof {
                assert(stops@.take(k + 1) =~= stops@.take(k as int).push(stops@[k as int]));
                assert(stops@.take(k + 1)[k as int] == stops@[k as int]);
                assert forall|x: int| 0 <= x < k implies #[trigger] stops@.take(k + 1)[x]
                    == stops@.take(k as int)[x] by {}
                if hit {
                    let x = choose|x: int| 0 <= x < k && stops@.take(k as int)[x] == v@[i as int];
                    assert(stops@.take(k + 1)[x] == v@[i as int]);
                }
            }
            if stops[k] == v[i] {
                hit = true;
            }
            k += 1;
        }
        proof {
            assert(stops@.take(k as int) =~= stops@);
        }
        if hit {
            return i;
        }
        i += 1;
    }
    i
}

/// Whether `s` begins with the character `c`.
pub fn starts_with_char(s: &str, c: char) -> (r: bool)
    ensures
        r == (s@.len() > 0 && s@[0] == c),
{
    if s.is_empty() {
        false
    } else {
        s.get_char(0) == c
    }
}

/// Whether `part` occurs in `s`.
pub fn contains_part(s: &str, part: &str) -> (r: bool)
    ensures
        r == has_part(s@, part@),
{
    let n: usize = s.unicode_len();
    let m: usize = part.unicode_len();
    if m > n {
        return false;
    }
    let mut i: usize = 0;
    while i <= n - m
        invariant
            n == s@.len(),
            m == part@.len(),
            m <= n,
            i <= n - m + 1,
            forall|j: int| 0 <= j < i ==> #[trigger] s@.subrange(j, j + m) != part@,
        decreases n - m + 1 - i,
    {
        if same_text(s.substring_char(i, i + m), part) {
            return true;
        }
        if i == n - m {
            return false;
        }
        i += 1;
    }
    false
}

/// The text that `String::from_utf8_lossy` makes of some bytes.
pub uninterp spec fn lossy(b: Seq<u8>) -> Seq<char>;

/// `String::from_utf8_lossy`: what is no UTF-8 is replaced. The claim: the text
/// depends on the bytes alone, and where they are UTF-8 it is the text that they
/// encode.
#[verifier::external_body]
pub(crate) fn decode_lossy(b: &Vec<u8>) -> (s: String)
    ensures
        s@ == lossy(b@),
        vstd::utf8::valid_utf8(b@) ==> s@ == vstd::utf8::decode_utf8(b@),
{
    String::from_utf8_lossy(b).into_owned()
}

proof fn lemma_trim_end(s: Seq<char>)
    ensures
        trim_end_of(s).len() <= s.len(),
        trim_end_of(s) == s.take(trim_end_of(s).len() as int),
        trim_end_of(s).len() > 0 ==> !is_space(trim_end_of(s).last()),
        forall|i: int| trim_end_of(s).len() <= i < s.len() ==> is_space(#[trigger] s[i]),
    decreases s.len(),
{
    if s.len() > 0 && is_space(s.last()) {
        lemma_trim_end(s.drop_last());
        let t = trim_end_of(s);
        assert(s.drop_last().take(t.len() as int) =~= s.take(t.len() as int));
        assert forall|i: int| t.len() <= i < s.len() implies is_space(#[trigger] s[i]) by {
            if i < s.len() - 1 {
                assert(s.drop_last()[i] == s[i]);
            }
        }
    } else {
        assert(s.take(s.len() as int) =~= s);
    }
}

proof fn lemma_trim_start(s: Seq<char>)
    ensures
        trim_start_of(s).len() <= s.len(),
        trim_start_of(s) == s.skip(s.len() - trim_start_of(s).len()),
        trim_start_of(s).len() > 0 ==> !is_space(trim_start_of(s)[0]),
        forall|i: int| 0 <= i < s.len() - trim_start_of(s).len() ==> is_space(#[trigger] s[i]),
    decreases s.len(),
{
    if s.len() > 0 && is_space(s[0]) {
        lemma_trim_start(s.drop_first());
        let t = trim_start_of(s);
        assert(s.drop_first().skip(s.len() - 1 - t.len()) =~= s.skip(s.len() - t.len()));
        assert forall|i: int| 0 <= i < s.len() - t.len() implies is_space(#[trigger] s[i]) by {
            if i > 0 {
                assert(s.drop_first()[i - 1] == s[i]);
            }
        }
    } else {
        assert(s.skip(0) =~= s);
    }
}

/// A trimmed text is a part of the text, begins and ends with no white space, and only
/// white space was left out before and after it; a text with no white space at its ends
/// is its own trimmed text.
pub proof fn law_trimming_drops_only_outer_space(s: Seq<char>)
    ensures
        exists|a: int, b: int|
            {
                &&& 0 <= a <= b <= s.len()
                &&& trimmed(s) == #[trigger] s.subrange(a, b)
                &&& forall|i: int| 0 <= i < a ==> is_space(#[trigger] s[i])
                &&& forall|i: int| b <= i < s.len() ==> is_space(#[trigger] s[i])
            },
        trimmed(s).len() > 0 ==> !is_space(trimmed(s)[0]) && !is_space(trimmed(s).last()),
        s.len() > 0 && !is_space(s[0]) && !is_space(s.last()) ==> trimmed(s) == s,
        s.len() == 0 ==> trimmed(s).len() == 0,
        is_space(' ') && is_space('\n') && is_space('\t') && !is_space('a') && !is_space('/'),
{
    let e = trim_end_of(s);
    let t = trimmed(s);
    lemma_trim_end(s);
    lemma_trim_start(e);
    let a = e.len() - t.len();
    let b = e.len() as int;
    assert(s.subrange(a, b) =~= t);
    assert forall|i: int| 0 <= i < a implies is_space(#[trigger] s[i]) by {
        assert(e[i] == s[i]);
    }
    if t.len() > 0 {
        assert(t.last() == e.last());
    }
    if s.len() > 0 && !is_space(s[0]) && !is_space(s.last()) {
        assert(e == s);
        assert(t =~= s);
    }
}

/// A numeral has a digit for each power of ten, and different numbers have different
/// numerals.
pub proof fn law_numerals_tell_numbers_apart(a: nat, b: nat)
    ensures
        dec(a).len() > 0,
        dec(a) == dec(b) ==> a == b,
        a < 10 ==> dec(a).len() == 1,
    decreases a,
{
    if a >= 10 {
        law_numerals_tell_numbers_apart(a / 10, b / 10);
        if b >= 10 && dec(a) == dec(b) {
            assert(dec(a).drop_last() =~= dec(a / 10));
            assert(dec(b).drop_last() =~= dec(b / 10));
            assert(dec(a).last() == digit((a % 10) as int));
            assert(dec(b).last() == digit((b % 10) as int));
        }
        if b < 10 {
            assert(dec(b).len() == 1);
            assert(dec(a).len() == dec(a / 10).len() + 1);
        }
    } else if b >= 10 {
        assert(dec(b / 10).len() > 0);
        assert(dec(b).len() == dec(b / 10).len() + 1);
    } else if dec(a) == dec(b) {
        assert(dec(a)[0] == digit(a as int));
        assert(dec(b)[0] == digit(b as int));
    }
}

/// A text cut to a number of bytes is a beginning of it.
pub proof fn law_a_cut_text_is_a_beginning(s: Seq<char>, limit: nat)
    ensures
        byte_prefix(s, limit).len() <= s.len(),
        byte_prefix(s, limit).len() <= limit,
        byte_prefix(s, limit) == s.take(byte_prefix(s, limit).len() as int),
        4 * s.len() <= limit ==> byte_prefix(s, limit) == s,
    decreases s.len(),
{
    if s.len() == 0 || utf8_width(s[0]) > limit {
        assert(s.take(0) =~= Seq::empty());
        if s.len() == 0 {
            assert(s =~= Seq::empty());
        }
    } else {
        let rest = (limit - utf8_width(s[0])) as nat;
        law_a_cut_text_is_a_beginning(s.drop_first(), rest);
        let n = byte_prefix(s, limit).len() as int;
        assert(s.take(n) =~= seq![s[0]] + s.drop_first().take(n - 1));
        if 4 * s.len() <= limit {
            assert(seq![s[0]] + s.drop_first() =~= s);
        }
    }
}

/// A time in seconds has three decimals, and times that differ are written differently.
pub proof fn law_seconds_tell_times_apart(a: nat, b: nat, s: nat)
    ensures
        seconds(1000 * s) == dec(s) + seq!['.', '0', '0', '0'],
        seconds(a) == seconds(b) ==> a == b,
{
    assert((1000 * s) / 1000 == s && (1000 * s) % 1000 == 0);
    assert((1000 * s) % 100 == 0 && (1000 * s) % 10 == 0);
    assert(seconds(1000 * s) =~= dec(s) + seq!['.', '0', '0', '0']);
    if seconds(a) == seconds(b) {
        let x = seconds(a);
        let y = seconds(b);
        let n = x.len();
        assert(x.len() == dec(a / 1000).len() + 4 && y.len() == dec(b / 1000).len() + 4);
        assert(x.take(n - 4) =~= dec(a / 1000));
        assert(y.take(n - 4) =~= dec(b / 1000));
        law_numerals_tell_numbers_apart(a / 1000, b / 1000);
        assert(x[n - 3] == digit((a % 1000 / 100) as int) && y[n - 3] == digit(
            (b % 1000 / 100) as int,
        ));
        assert(x[n - 2] == digit((a % 100 / 10) as int) && y[n - 2] == digit(
            (b % 100 / 10) as int,
        ));
        assert(x[n - 1] == digit((a % 10) as int) && y[n - 1] == digit((b % 10) as int));
        assert(a % 1000 == 100 * (a % 1000 / 100) + a % 100);
        assert(b % 1000 == 100 * (b % 1000 / 100) + b % 100);
        assert(a % 100 == 10 * (a % 100 / 10) + a % 10);
        assert(b % 100 == 10 * (b % 100 / 10) + b % 10);
        assert(a == 1000 * (a / 1000) + a % 1000);
        assert(b == 1000 * (b / 1000) + b % 1000);
    }
}

/// A hexadecimal numeral of `k` digits has `k` digits; its last is that of the number
/// modulo 16, and the others are those of the number without it.
pub proof fn law_hexadecimal_numerals(n: nat, k: nat, d: nat)
    requires
        d < 16,
    ensures
        hex(n, k).len() == k,
        hex(16 * n + d, k + 1) == hex(n, k).push(hex_digit(d as int)),
        d < 10 ==> hex_digit(d as int) as int == '0' as int + d,
        d >= 10 ==> hex_digit(d as int) as int == 'a' as int + (d - 10),
    decreases k,
{
    assert((16 * n + d) / 16 == n && (16 * n + d) % 16 == d);
    if k > 0 {
        law_hexadecimal_numerals(n / 16, (k - 1) as nat, d);
    }
}

} // verus!
