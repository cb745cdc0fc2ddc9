//! JSON values as the handlers read and build them, and their passage through
//! `serde_json`.
use crate::names::{NameMap, distinct_names, pairs_map};
use crate::text::{opt_text, same_text, seconds, seconds_text, texts};
use vstd::prelude::*;

verus! {

/// What a JSON value says: an object is a map from keys to values.
#[verifier::ext_equal]
pub enum JsonView {
    Null,
    Bool(bool),
    Uint(u64),
    /// A number that is no `u64`, by the numeral it is printed as.
    Number(Seq<char>),
    Str(Seq<char>),
    Arr(Seq<JsonView>),
    Obj(Map<Seq<char>, JsonView>),
}

/// A JSON value. Of two pairs of an object with one key the later one counts.
#[derive(Debug, PartialEq)]
pub enum Json {
    Null,
    Bool(bool),
    Uint(u64),
    /// A number that is no `u64`.
    Number(OtherNumber),
    Str(String),
    Arr(Vec<Json>),
    Obj(Vec<(String, Json)>),
}

/// `serde_json::Number`, opaque.
#[verifier::external_type_specification]
#[verifier::external_body]
pub struct ExNumber(serde_json::Number);

/// `serde_json::Value`, opaque.
#[verifier::external_type_specification]
#[verifier::external_body]
pub struct ExValue(serde_json::Value);

/// The numeral that `serde_json` prints for a number.
pub uninterp spec fn numeral_of(n: serde_json::Number) -> Seq<char>;

/// The `u64` that a number is.
pub uninterp spec fn uint_of(n: serde_json::Number) -> Option<u64>;

/// What a `serde_json` value says.
pub uninterp spec fn value_json(v: serde_json::Value) -> JsonView;

/// The numeral that `serde_json` prints for the number it reads from a text.
pub uninterp spec fn reprinted(text: Seq<char>) -> Seq<char>;

/// What `serde_json` reads from a text; `None` where the text is no JSON.
pub uninterp spec fn parsed(text: Seq<char>) -> Option<JsonView>;

/// The text that `serde_json` prints for a value.
pub uninterp spec fn rendered(j: JsonView) -> Seq<char>;

/// A number that is no `u64`: a negative or a broken one.
#[derive(Debug, PartialEq)]
pub struct OtherNumber {
    n: serde_json::Number,
}

impl OtherNumber {
    #[verifier::type_invariant]
    spec fn is_no_uint(self) -> bool {
        uint_of(self.n) is None
    }

    /// The numeral that the number is printed as.
    pub closed spec fn numeral(self) -> Seq<char> {
        numeral_of(self.n)
    }
}

/// What a number says.
pub open spec fn number_json(n: serde_json::Number) -> JsonView {
    match uint_of(n) {
        Some(u) => JsonView::Uint(u),
        None => JsonView::Number(numeral_of(n)),
    }
}

/// What the items of an array say.
pub open spec fn items_view(s: Seq<Json>) -> Seq<JsonView>
    decreases s,
{
    if s.len() == 0 {
        Seq::empty()
    } else {
        items_view(s.drop_last()).push(json_view(s.last()))
    }
}

/// What the pairs of an object say.
pub open spec fn fields_view(s: Seq<(String, Json)>) -> Map<Seq<char>, JsonView>
    decreases s,
{
    if s.len() == 0 {
        Map::empty()
    } else {
        fields_view(s.drop_last()).insert(s.last().0@, json_view(s.last().1))
    }
}

/// What a value says.
pub open spec fn json_view(j: Json) -> JsonView
    decreases j,
{
    match j {
        Json::Null => JsonView::Null,
        Json::Bool(b) => JsonView::Bool(b),
        Json::Uint(n) => JsonView::Uint(n),
        Json::Number(n) => JsonView::Number(n.numeral()),
        Json::Str(s) => JsonView::Str(s@),
        Json::Arr(items) => JsonView::Arr(items_view(items@)),
        Json::Obj(pairs) => JsonView::Obj(fields_view(pairs@)),
    }
}

impl View for Json {
    type V = JsonView;

    open spec fn view(&self) -> JsonView {
        json_view(*self)
    }
}

/// The top level of a `serde_json` value.
pub enum Node {
    Null,
    Bool(bool),
    Number(serde_json::Number),
    Str(String),
    Arr(Vec<serde_json::Value>),
    Obj(Vec<(String, serde_json::Value)>),
}

/// What a `serde_json` value with this top level says.
pub open spec fn node_json(n: Node) -> JsonView {
    match n {
        Node::Null => JsonView::Null,
        Node::Bool(b) => JsonView::Bool(b),
        Node::Number(n) => number_json(n),
        Node::Str(s) => JsonView::Str(s@),
        Node::Arr(items) => JsonView::Arr(items@.map_values(|v: serde_json::Value| value_json(v))),
        Node::Obj(pairs) => JsonView::Obj(
            pairs_map(pairs@).map_values(|v: serde_json::Value| value_json(v)),
        ),
    }
}

/// Take a `serde_json::Value` apart into its variant and that variant's
/// content. The claim: the parts say what the value says, and an object
/// (`serde_json::Map`) has no key twice.
#[verifier::external_body]
fn split(v: serde_json::Value) -> (r: Node)
    ensures
        node_json(r) == value_json(v),
        r matches Node::Obj(pairs) ==> distinct_names(pairs@),
{
    match v {
        serde_json::Value::Null => Node::Null,
        serde_json::Value::Bool(b) => Node::Bool(b),
        serde_json::Value::Number(n) => Node::Number(n),
        serde_json::Value::String(s) => Node::Str(s),
        serde_json::Value::Array(items) => Node::Arr(items),
        serde_json::Value::Object(m) => Node::Obj(m.into_iter().collect()),
    }
}

/// Build a `serde_json::Value` from its top level; the pairs of an object are
/// collected into a `serde_json::Map`. The claim: the value says what the parts
/// say. No key may occur in two pairs.
#[verifier::external_body]
fn join(n: Node) -> (v: serde_json::Value)
    requires
        n matches Node::Obj(pairs) ==> distinct_names(pairs@),
    ensures
        value_json(v) == node_json(n),
{
    match n {
        Node::Null => serde_json::Value::Null,
        Node::Bool(b) => serde_json::Value::Bool(b),
        Node::Number(n) => serde_json::Value::Number(n),
        Node::Str(s) => serde_json::Value::String(s),
        Node::Arr(items) => serde_json::Value::Array(items),
        Node::Obj(pairs) => serde_json::Value::Object(pairs.into_iter().collect()),
    }
}

/// `serde_json::Number::as_u64`. The claim: it gives the `u64` named by `uint_of`.
#[verifier::external_body]
fn whole(n: &serde_json::Number) -> (r: Option<u64>)
    ensures
        r == uint_of(*n),
{
    n.as_u64()
}

/// `serde_json::Number`'s `From<u64>`. The claim: the number is that `u64`.
#[verifier::external_body]
fn from_whole(u: u64) -> (n: serde_json::Number)
    ensures
        uint_of(n) == Some(u),
{
    serde_json::Number::from(u)
}

/// `serde_json::from_str` into a `serde_json::Value`. The claim: success and
/// the value read are those named by `parsed`.
#[verifier::external_body]
fn read_value(text: &str) -> (r: Option<serde_json::Value>)
    ensures
        match r {
            Some(v) => parsed(text@) == Some(value_json(v)),
            None => parsed(text@) is None,
        },
{
    serde_json::from_str::<serde_json::Value>(text).ok()
}

/// `serde_json::from_str` into a `serde_json::Number`, of a numeral with three
/// decimals. The claim: such a numeral is read, the number is no `u64`, and it
/// prints as named by `reprinted`.
#[verifier::external_body]
fn read_number(text: &str) -> (n: serde_json::Number)
    requires
        exists|ms: u64| text@ == #[trigger] seconds(ms as nat),
    ensures
        numeral_of(n) == reprinted(text@),
        uint_of(n) is None,
{
    serde_json::from_str::<serde_json::Number>(text).unwrap()
}

/// `serde_json::Value`'s `Display`, in its compact form. The claim: the text
/// is the one named by `rendered`; it holds no line feed, as line feeds in
/// strings are escaped; and where no number but `u64` occurs and the nesting is
/// at most one hundred deep, reading it gives the value back.
#[verifier::external_body]
fn print_value(v: &serde_json::Value) -> (text: String)
    ensures
        text@ == rendered(value_json(*v)),
        !text@.contains('\n'),
        simple(value_json(*v), 100) ==> parsed(text@) == Some(value_json(*v)),
{
    v.to_string()
}

/// Whether a value nests at most `depth` deep and holds no number but `u64`.
pub open spec fn simple(j: JsonView, depth: nat) -> bool
    decreases depth,
{
    match j {
        JsonView::Number(_) => false,
        JsonView::Arr(items) => depth > 0 && forall|i: int|
            0 <= i < items.len() ==> simple(#[trigger] items[i], (depth - 1) as nat),
        JsonView::Obj(fields) => depth > 0 && forall|k: Seq<char>|
            #[trigger] fields.contains_key(k) ==> simple(fields[k], (depth - 1) as nat),
        _ => true,
    }
}

proof fn lemma_fields_push(s: Seq<(String, Json)>, p: (String, Json))
    ensures
        fields_view(s.push(p)) == fields_view(s).insert(p.0@, p.1@),
{
    assert(s.push(p).drop_last() =~= s);
}

proof fn lemma_items_push(s: Seq<Json>, j: Json)
    ensures
        items_view(s.push(j)) == items_view(s).push(j@),
{
    assert(s.push(j).drop_last() =~= s);
}

/// The items of an array, one by one.
pub proof fn lemma_items(s: Seq<Json>)
    ensures
        items_view(s).len() == s.len(),
        forall|i: int| 0 <= i < s.len() ==> #[trigger] items_view(s)[i] == s[i]@,
    decreases s.len(),
{
    if s.len() > 0 {
        lemma_items(s.drop_last());
        assert forall|i: int| 0 <= i < s.len() implies #[trigger] items_view(s)[i] == s[i]@ by {
            if i < s.len() - 1 {
                assert(items_view(s)[i] == items_view(s.drop_last())[i]);
                assert(s.drop_last()[i] == s[i]);
            }
        }
    }
}

proof fn lemma_mapped_insert(
    m: Map<Seq<char>, serde_json::Value>,
    k: Seq<char>,
    v: serde_json::Value,
)
    ensures
        m.insert(k, v).map_values(|v: serde_json::Value| value_json(v)) == m.map_values(
            |v: serde_json::Value| value_json(v),
        ).insert(k, value_json(v)),
{
    assert(m.insert(k, v).map_values(|v: serde_json::Value| value_json(v)) =~= m.map_values(
        |v: serde_json::Value| value_json(v),
    ).insert(k, value_json(v)));
}

/// Turn a list round.
fn turned<T>(v: Vec<T>) -> (r: Vec<T>)
    ensures
        r@ == v@.reverse(),
{
    let ghost all = v@;
    let mut rest: Vec<T> = v;
    let mut r: Vec<T> = Vec::new();
    while rest.len() > 0
        invariant
            rest@.len() + r@.len() == all.len(),
            rest@ == all.take(rest@.len() as int),
            r@ == all.skip(rest@.len() as int).reverse(),
        decreases rest@.len(),
    {
        let ghost n = rest@.len() as int;
        let item: T = rest.pop().unwrap();
        proof {
            assert(item == all[n - 1]);
            assert(rest@ =~= all.take(n - 1));
            assert(all.skip(n - 1).reverse() =~= r@.push(item));
        }
        r.push(item);
    }
    proof {
        assert(all.skip(0) =~= all);
    }
    r
}

proof fn lemma_turned<T>(all: Seq<T>, done: int)
    requires
        0 <= done < all.len(),
    ensures
        all.skip(done).reverse().last() == all[done],
        all.skip(done).reverse().drop_last() == all.skip(done + 1).reverse(),
{
    assert(all.skip(done).reverse().drop_last() =~= all.skip(done + 1).reverse());
}

/// The value that a `serde_json` value says.
fn from_value(v: serde_json::Value) -> (j: Json)
    ensures
        j@ == value_json(v),
    decreases value_json(v),
{
    match split(v) {
        Node::Null => Json::Null,
        Node::Bool(b) => Json::Bool(b),
        Node::Number(n) => match whole(&n) {
            Some(u) => Json::Uint(u),
            None => Json::Number(OtherNumber { n }),
        },
        Node::Str(s) => Json::Str(s),
        Node::Arr(items) => {
            let ghost all = items@;
            let mut rest: Vec<serde_json::Value> = turned(items);
            let mut out: Vec<Json> = Vec::new();
            let ghost mut done: int = 0;
            proof {
                assert(all.skip(0) =~= all);
                assert(items_view(out@) =~= all.take(0).map_values(
                    |v: serde_json::Value| value_json(v),
                ));
            }
            while rest.len() > 0
                invariant
                    0 <= done <= all.len(),
                    rest@ == all.skip(done).reverse(),
                    value_json(v) == JsonView::Arr(
                        all.map_values(|v: serde_json::Value| value_json(v)),
                    ),
                    items_view(out@) == all.take(done).map_values(
                        |v: serde_json::Value| value_json(v),
                    ),
                decreases all.len() - done,
            {
                proof {
                    lemma_turned(all, done);
                }
                let item: serde_json::Value = rest.pop().unwrap();
                proof {
                    assert(item == all[done]);
                    let seen = all.map_values(|v: serde_json::Value| value_json(v));
                    assert(seen[done] == value_json(item));
                    assert(decreases_to!(value_json(v) => value_json(v)->Arr_0));
                    assert(decreases_to!(seen => seen[done]));
                }
                let j: Json = from_value(item);
                proof {
                    lemma_items_push(out@, j);
                    assert(all.take(done + 1).map_values(|v: serde_json::Value| value_json(v))
                        =~= all.take(done).map_values(|v: serde_json::Value| value_json(v)).push(
                        value_json(all[done]),
                    ));
                }
                out.push(j);
                proof {
                    done = done + 1;
                }
            }
            proof {
                assert(all.take(done) =~= all);
            }
            Json::Arr(out)
        },
        Node::Obj(pairs) => {
            let ghost all = pairs@;
            let mut rest: Vec<(String, serde_json::Value)> = turned(pairs);
            let mut out: Vec<(String, Json)> = Vec::new();
            let ghost mut done: int = 0;
            proof {
                assert(all.skip(0) =~= all);
                assert(all.take(0) =~= Seq::empty());
                assert(fields_view(out@) =~= pairs_map(all.take(0)).map_values(
                    |v: serde_json::Value| value_json(v),
                ));
            }
            while rest.len() > 0
                invariant
                    0 <= done <= all.len(),
                    rest@ == all.skip(done).reverse(),
                    distinct_names(all),
                    value_json(v) == JsonView::Obj(
                        pairs_map(all).map_values(|v: serde_json::Value| value_json(v)),
                    ),
                    fields_view(out@) == pairs_map(all.take(done)).map_values(
                        |v: serde_json::Value| value_json(v),
                    ),
                decreases all.len() - done,
            {
                proof {
                    lemma_turned(all, done);
                }
                let pair: (String, serde_json::Value) = rest.pop().unwrap();
                proof {
                    assert(pair == all[done]);
                    crate::names::lemma_pairs_entry(all, done);
                    crate::names::lemma_pairs_finite(all);
                    let seen = pairs_map(all).map_values(
                        |v: serde_json::Value| value_json(v),
                    );
                    assert(seen.contains_key(pair.0@) && seen[pair.0@] == value_json(pair.1));
                    assert(seen.dom() =~= pairs_map(all).dom());
                    assert(decreases_to!(value_json(v) => value_json(v)->Obj_0));
                    assert(decreases_to!(seen => seen[pair.0@]));
                }
                let j: Json = from_value(pair.1);
                proof {
                    lemma_fields_push(out@, (pair.0, j));
                    crate::names::lemma_pairs_take(all, done);
                    lemma_mapped_insert(pairs_map(all.take(done)), pair.0@, pair.1);
                }
                out.push((pair.0, j));
                proof {
                    done = done + 1;
                }
            }
            proof {
                assert(all.take(done) =~= all);
            }
            Json::Obj(out)
        },
    }
}

/// The `serde_json` value that a value says.
fn to_value(j: Json) -> (v: serde_json::Value)
    ensures
        value_json(v) == j@,
    decreases j,
{
    match j {
        Json::Null => join(Node::Null),
        Json::Bool(b) => join(Node::Bool(b)),
        Json::Uint(u) => join(Node::Number(from_whole(u))),
        Json::Number(o) => {
            proof {
                use_type_invariant(&o);
            }
            join(Node::Number(o.n))
        },
        Json::Str(s) => join(Node::Str(s)),
        Json::Arr(items) => {
            let ghost all = items@;
            let mut rest: Vec<Json> = turned(items);
            let mut out: Vec<serde_json::Value> = Vec::new();
            let ghost mut done: int = 0;
            proof {
                assert(all.skip(0) =~= all);
                lemma_items(all);
            }
            while rest.len() > 0
                invariant
                    0 <= done <= all.len(),
                    rest@ == all.skip(done).reverse(),
                    j == Json::Arr(items),
                    all == items@,
                    out@.len() == done,
                    forall|i: int| 0 <= i < done ==> value_json(#[trigger] out@[i]) == all[i]@,
                decreases all.len() - done,
            {
                proof {
                    lemma_turned(all, done);
                }
                let item: Json = rest.pop().unwrap();
                proof {
                    assert(item == all[done]);
                    assert(decreases_to!(j => j->Arr_0));
                    assert(decreases_to!(items => items@));
                    assert(decreases_to!(items@ => items@[done]));
                }
                out.push(to_value(item));
                proof {
                    done = done + 1;
                }
            }
            proof {
                assert(out@.map_values(|v: serde_json::Value| value_json(v)) =~= items_view(all));
            }
            join(Node::Arr(out))
        },
        Json::Obj(pairs) => {
            let ghost all = pairs@;
            let mut rest: Vec<(String, Json)> = turned(pairs);
            let mut out: NameMap<serde_json::Value> = NameMap::new();
            let ghost mut done: int = 0;
            proof {
                assert(all.skip(0) =~= all);
                assert(all.take(0) =~= Seq::empty());
                assert(out@.map_values(|v: serde_json::Value| value_json(v)) =~= fields_view(
                    all.take(0),
                ));
            }
            while rest.len() > 0
                invariant
                    0 <= done <= all.len(),
                    rest@ == all.skip(done).reverse(),
                    j == Json::Obj(pairs),
                    all == pairs@,
                    out@.map_values(|v: serde_json::Value| value_json(v)) == fields_view(
                        all.take(done),
                    ),
                decreases all.len() - done,
            {
                proof {
                    lemma_turned(all, done);
                }
                let pair: (String, Json) = rest.pop().unwrap();
                proof {
                    assert(pair == all[done]);
                    assert(decreases_to!(j => j->Obj_0));
                    assert(decreases_to!(pairs => pairs@));
                    assert(decreases_to!(pairs@ => pairs@[done]));
                    assert(decreases_to!(pair => pair.1));
                    assert(all.take(done + 1) =~= all.take(done).push(pair));
                    lemma_fields_push(all.take(done), pair);
                }
                let value: serde_json::Value = to_value(pair.1);
                let ghost before = out@;
                out.insert(pair.0.as_str(), value);
                proof {
                    lemma_mapped_insert(before, pair.0@, value);
                    done = done + 1;
                }
            }
            proof {
                assert(all.take(done) =~= all);
            }
            join(Node::Obj(out.drain()))
        },
    }
}

/// The value that a text holds, where it is JSON.
pub fn parse_json(text: &str) -> (r: Option<Json>)
    ensures
        match r {
            Some(j) => parsed(text@) == Some(j@),
            None => parsed(text@) is None,
        },
{
    match read_value(text) {
        Some(v) => Some(from_value(v)),
        None => None,
    }
}

/// The compact text of a value.
pub fn render_json(j: Json) -> (text: String)
    ensures
        text@ == rendered(j@),
        !text@.contains('\n'),
        simple(j@, 100) ==> parsed(text@) == Some(j@),
{
    let v: serde_json::Value = to_value(j);
    print_value(&v)
}

/// A number of seconds, from milliseconds.
pub open spec fn seconds_json(ms: nat) -> JsonView {
    JsonView::Number(reprinted(seconds(ms)))
}

/// The value under `key`, where `j` is an object that has one.
pub open spec fn field(j: JsonView, key: Seq<char>) -> Option<JsonView> {
    match j {
        JsonView::Obj(m) => if m.contains_key(key) {
            Some(m[key])
        } else {
            None
        },
        _ => None,
    }
}

/// The text under `key`, where there is one.
pub open spec fn str_at(j: JsonView, key: Seq<char>) -> Option<Seq<char>> {
    match field(j, key) {
        Some(JsonView::Str(s)) => Some(s),
        _ => None,
    }
}

/// The `u64` under `key`, where there is one.
pub open spec fn uint_at(j: JsonView, key: Seq<char>) -> Option<u64> {
    match field(j, key) {
        Some(JsonView::Uint(n)) => Some(n),
        _ => None,
    }
}

/// The truth value under `key`, where there is one.
pub open spec fn bool_at(j: JsonView, key: Seq<char>) -> Option<bool> {
    match field(j, key) {
        Some(JsonView::Bool(b)) => Some(b),
        _ => None,
    }
}

/// The texts among some values, in order.
pub open spec fn strings_in(items: Seq<JsonView>) -> Seq<Seq<char>>
    decreases items.len(),
{
    if items.len() == 0 {
        Seq::empty()
    } else {
        match items.last() {
            JsonView::Str(s) => strings_in(items.drop_last()).push(s),
            _ => strings_in(items.drop_last()),
        }
    }
}

/// Texts as JSON.
pub open spec fn texts_json(s: Seq<Seq<char>>) -> JsonView {
    JsonView::Arr(s.map_values(|t: Seq<char>| JsonView::Str(t)))
}

/// An optional text as JSON.
pub open spec fn opt_json(o: Option<Seq<char>>) -> JsonView {
    match o {
        Some(s) => JsonView::Str(s),
        None => JsonView::Null,
    }
}

impl Json {
    /// A number of seconds, from milliseconds.
    pub fn from_seconds(ms: u64) -> (j: Json)
        ensures
            j@ == seconds_json(ms as nat),
    {
        let text: String = seconds_text(ms);
        Json::Number(OtherNumber { n: read_number(text.as_str()) })
    }

    /// A text.
    pub fn text(s: &str) -> (j: Json)
        ensures
            j@ == JsonView::Str(s@),
    {
        Json::Str(s.to_owned())
    }

    /// An optional text; absent is `null`.
    pub fn opt(o: &Option<String>) -> (j: Json)
        ensures
            j@ == opt_json(opt_text(*o)),
    {
        match o {
            Some(s) => Json::Str(s.clone()),
            None => Json::Null,
        }
    }

    /// A list of texts.
    pub fn list(v: &Vec<String>) -> (j: Json)
        ensures
            j@ == texts_json(texts(v@)),
    {
        let mut out: Vec<Json> = Vec::new();
        let mut i: usize = 0;
        while i < v.len()
            invariant
                i <= v@.len(),
                items_view(out@) == texts(v@).take(i as int).map_values(
                    |t: Seq<char>| JsonView::Str(t),
                ),
            decreases v@.len() - i,
        {
            let j: Json = Json::Str(v[i].clone());
            proof {
                lemma_items_push(out@, j);
                assert(items_view(out@.push(j)) =~= texts(v@).take(i + 1).map_values(
                    |t: Seq<char>| JsonView::Str(t),
                ));
            }
            out.push(j);
            i += 1;
        }
        proof {
            assert(texts(v@).take(i as int) =~= texts(v@));
        }
        Json::Arr(out)
    }

    /// The value under `key`.
    pub fn get(&self, key: &str) -> (r: Option<&Json>)
        ensures
            match r {
                Some(j) => field(self@, key@) == Some(j@),
                None => field(self@, key@) is None,
            },
    {
        match self {
            Json::Obj(pairs) => {
                let mut n: usize = pairs.len();
                proof {
                    assert(pairs@.take(n as int) =~= pairs@);
                }
                while n > 0
                    invariant
                        n <= pairs@.len(),
                        self@ == JsonView::Obj(fields_view(pairs@)),
                        field(JsonView::Obj(fields_view(pairs@.take(n as int))), key@) == field(
                            self@,
                            key@,
                        ),
                    decreases n,
                {
                    proof {
                        assert(pairs@.take(n as int).drop_last() =~= pairs@.take(n - 1));
                    }
                    n -= 1;
                    if same_text(pairs[n].0.as_str(), key) {
                        return Some(&pairs[n].1);
                    }
                }
                None
            },
            _ => None,
        }
    }

    /// The value under `key`, taken out.
    pub fn take(self, key: &str) -> (r: Option<Json>)
        ensures
            match r {
                Some(j) => field(self@, key@) == Some(j@),
                None => field(self@, key@) is None,
            },
    {
        let ghost whole = self@;
        match self {
            Json::Obj(pairs) => {
                let mut rest: Vec<(String, Json)> = pairs;
                while rest.len() > 0
                    invariant
                        whole == self@,
                        field(JsonView::Obj(fields_view(rest@)), key@) == field(whole, key@),
                    decreases rest@.len(),
                {
                    let ghost before = rest@;
                    let pair: Option<(String, Json)> = rest.pop();
                    proof {
                        assert(rest@ =~= before.drop_last());
                    }
                    if let Some((name, value)) = pair {
                        if same_text(name.as_str(), key) {
                            return Some(value);
                        }
                    }
                }
                None
            },
            _ => None,
        }
    }

    /// The text under `key`.
    pub fn str_at(&self, key: &str) -> (r: Option<String>)
        ensures
            opt_text(r) == str_at(self@, key@),
    {
        match self.get(key) {
            Some(Json::Str(s)) => Some(s.clone()),
            _ => None,
        }
    }

    /// The `u64` under `key`.
    pub fn uint_at(&self, key: &str) -> (r: Option<u64>)
        ensures
            r == uint_at(self@, key@),
    {
        match self.get(key) {
            Some(Json::Uint(n)) => Some(*n),
            _ => None,
        }
    }

    /// The truth value under `key`.
    pub fn bool_at(&self, key: &str) -> (r: Option<bool>)
        ensures
            r == bool_at(self@, key@),
    {
        match self.get(key) {
            Some(Json::Bool(b)) => Some(*b),
            _ => None,
        }
    }
}

/// The texts among some values, in order.
pub fn strings_of(items: &Vec<Json>) -> (r: Vec<String>)
    ensures
        texts(r@) == strings_in(items_view(items@)),
{
    let mut r: Vec<String> = Vec::new();
    let mut i: usize = 0;
    proof {
        lemma_items(items@);
        assert(texts(r@) =~= strings_in(items_view(items@).take(0)));
    }
    while i < items.len()
        invariant
            i <= items@.len(),
            items_view(items@).len() == items@.len(),
            forall|k: int| 0 <= k < items@.len() ==> #[trigger] items_view(items@)[k] == items@[k]@,
            texts(r@) == strings_in(items_view(items@).take(i as int)),
        decreases items@.len() - i,
    {
        let ghost seen = items_view(items@);
        proof {
            assert(seen.take(i + 1).drop_last() =~= seen.take(i as int));
            assert(seen.take(i + 1).last() == items@[i as int]@);
        }
        match &items[i] {
            Json::Str(s) => {
                let ghost before = r@;
                r.push(s.clone());
                proof {
                    assert(texts(r@) =~= texts(before).push(s@));
                }
            },
            _ => {},
        }
        i += 1;
    }
    proof {
        assert(items_view(items@).take(i as int) =~= items_view(items@));
    }
    r
}

/// An object under construction.
#[derive(Debug)]
pub struct Fields {
    pairs: Vec<(String, Json)>,
}

impl View for Fields {
    type V = Map<Seq<char>, JsonView>;

    closed spec fn view(&self) -> Map<Seq<char>, JsonView> {
        fields_view(self.pairs@)
    }
}

impl Fields {
    /// No field yet.
    pub fn new() -> (f: Fields)
        ensures
            f@ == Map::<Seq<char>, JsonView>::empty(),
    {
        Fields { pairs: Vec::new() }
    }

    /// Set `key` to `value`.
    pub fn put(&mut self, key: &str, value: Json)
        ensures
            final(self)@ == old(self)@.insert(key@, value@),
    {
        let pair: (String, Json) = (key.to_owned(), value);
        proof {
            lemma_fields_push(self.pairs@, pair);
        }
        self.pairs.push(pair);
    }

    /// The object.
    pub fn done(self) -> (j: Json)
        ensures
            j@ == JsonView::Obj(self@),
    {
        Json::Obj(self.pairs)
    }
}

/// Values, one after another, as an array.
#[derive(Debug)]
pub struct Items {
    items: Vec<Json>,
}

impl View for Items {
    type V = Seq<JsonView>;

    closed spec fn view(&self) -> Seq<JsonView> {
        items_view(self.items@)
    }
}

impl Items {
    /// No item yet.
    pub fn new() -> (f: Items)
        ensures
            f@ == Seq::<JsonView>::empty(),
    {
        Items { items: Vec::new() }
    }

    /// Add `value` at the end.
    pub fn push(&mut self, value: Json)
        ensures
            final(self)@ == old(self)@.push(value@),
    {
        proof {
            lemma_items_push(self.items@, value);
        }
        self.items.push(value);
    }

    /// The array.
    pub fn done(self) -> (j: Json)
        ensures
            j@ == JsonView::Arr(self@),
    {
        Json::Arr(self.items)
    }
}

/// The texts among some values are kept, and nothing else is.
pub proof fn lemma_strings_in(items: Seq<JsonView>)
    ensures
        forall|s: Seq<char>| #[trigger]
            strings_in(items).contains(s) <==> items.contains(JsonView::Str(s)),
    decreases items.len(),
{
    if items.len() > 0 {
        let front = items.drop_last();
        lemma_strings_in(front);
        let before = strings_in(front);
        let found = strings_in(items);
        assert forall|s: Seq<char>| #[trigger] found.contains(s) <==> items.contains(
            JsonView::Str(s),
        ) by {
            assert(before.contains(s) <==> front.contains(JsonView::Str(s)));
            if found.contains(s) {
                let k = choose|k: int| 0 <= k < found.len() && found[k] == s;
                if k < before.len() {
                    assert(before[k] == s);
                    let j = choose|j: int| 0 <= j < front.len() && front[j] == JsonView::Str(s);
                    assert(items[j] == JsonView::Str(s));
                } else {
                    assert(items[items.len() - 1] == JsonView::Str(s));
                }
            }
            if items.contains(JsonView::Str(s)) {
                let j = choose|j: int| 0 <= j < items.len() && items[j] == JsonView::Str(s);
                if j < front.len() {
                    assert(front[j] == JsonView::Str(s));
                    let k = choose|k: int| 0 <= k < before.len() && before[k] == s;
                    assert(found[k] == s);
                } else {
                    assert(found[found.len() - 1] == s);
                }
            }
        }
    }
}

/// A value is found under the key it stands under, as the kind it is, and under no
/// other.
pub proof fn law_fields_are_found_under_their_keys(
    m: Map<Seq<char>, JsonView>,
    key: Seq<char>,
    s: Seq<char>,
    n: u64,
    b: bool,
)
    ensures
        m.contains_key(key) ==> field(JsonView::Obj(m), key) == Some(m[key]),
        !m.contains_key(key) ==> field(JsonView::Obj(m), key) is None,
        str_at(JsonView::Obj(m), key) == Some(s) <==> m.contains_key(key) && m[key]
            == JsonView::Str(s),
        uint_at(JsonView::Obj(m), key) == Some(n) <==> m.contains_key(key) && m[key]
            == JsonView::Uint(n),
        bool_at(JsonView::Obj(m), key) == Some(b) <==> m.contains_key(key) && m[key]
            == JsonView::Bool(b),
        field(JsonView::Null, key) is None,
{
}

} // verus!
