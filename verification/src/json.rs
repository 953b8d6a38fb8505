//! JSON values of the library's own, and their way to and from `serde_json`.
//!
//! The rules of the server read and build [`Json`]. Text is parsed and printed by
//! `serde_json`; a `serde_json::Value` is opened and closed one layer at a time.

use vstd::prelude::*;

use crate::text::{str_eq, Text};

verus! {

/// `serde_json::Value`, held without a look inside.
#[verifier::external_type_specification]
#[verifier::external_body]
pub struct ExJsonValue(serde_json::Value);

/// `serde_json::Number`, held without a look inside.
#[verifier::external_type_specification]
#[verifier::external_body]
pub struct ExJsonNumber(serde_json::Number);

/// What a JSON value means.
pub enum JsonView {
    Null,
    Bool(bool),
    Int(int),
    Real(serde_json::Number),
    Str(Text),
    Array(Seq<JsonView>),
    Object(Map<Text, JsonView>),
}

/// The whole number that a `serde_json::Number` is, where it is one.
pub uninterp spec fn whole_number(n: serde_json::Number) -> Option<i128>;

/// What a `serde_json::Number` means.
pub open spec fn number_view(n: serde_json::Number) -> JsonView {
    match whole_number(n) {
        Some(i) => JsonView::Int(i as int),
        None => JsonView::Real(n),
    }
}

/// A JSON value. In an object a later entry stands over an earlier one of the same key.
pub enum Json {
    Null,
    Bool(bool),
    Uint(u64),
    Int(i64),
    Real(serde_json::Number),
    Str(String),
    Array(Vec<Json>),
    Object(Vec<(String, Json)>),
}

/// The values of a list.
pub open spec fn array_view(s: Seq<Json>) -> Seq<JsonView>
    decreases s,
{
    if s.len() == 0 {
        Seq::empty()
    } else {
        array_view(s.drop_last()).push(s.last().view())
    }
}

/// The members of an object.
pub open spec fn object_view(s: Seq<(String, Json)>) -> Map<Text, JsonView>
    decreases s,
{
    if s.len() == 0 {
        Map::empty()
    } else {
        object_view(s.drop_last()).insert(s.last().0@, s.last().1.view())
    }
}

impl Json {
    /// What the value means.
    pub open spec fn view(self) -> JsonView
        decreases self,
    {
        match self {
            Json::Null => JsonView::Null,
            Json::Bool(b) => JsonView::Bool(b),
            Json::Uint(n) => JsonView::Int(n as int),
            Json::Int(n) => JsonView::Int(n as int),
            Json::Real(n) => number_view(n),
            Json::Str(s) => JsonView::Str(s@),
            Json::Array(v) => JsonView::Array(array_view(v@)),
            Json::Object(v) => JsonView::Object(object_view(v@)),
        }
    }
}


/// Appending a value to a list.
pub proof fn lemma_array_push(s: Seq<Json>, j: Json)
    ensures
        array_view(s.push(j)) == array_view(s).push(j@),
{
    assert(s.push(j).drop_last() =~= s);
}

/// A list has as many values as entries, each the meaning of its entry.
pub proof fn lemma_array_view(s: Seq<Json>)
    ensures
        array_view(s).len() == s.len(),
        forall|i: int| 0 <= i < s.len() ==> array_view(s)[i] == (#[trigger] s[i])@,
    decreases s.len(),
{
    if s.len() > 0 {
        lemma_array_view(s.drop_last());
        assert forall|i: int| 0 <= i < s.len() implies array_view(s)[i] == (#[trigger] s[i])@ by {
            if i < s.len() - 1 {
                assert(s.drop_last()[i] == s[i]);
            }
        }
    }
}

/// Appending a member to an object.
pub proof fn lemma_object_push(s: Seq<(String, Json)>, e: (String, Json))
    ensures
        object_view(s.push(e)) == object_view(s).insert(e.0@, e.1@),
{
    assert(s.push(e).drop_last() =~= s);
}

/// The members of an object have names that stand in its entries.
proof fn lemma_object_absent(s: Seq<(String, Json)>, key: Text)
    requires
        forall|i: int| 0 <= i < s.len() ==> (#[trigger] s[i]).0@ != key,
    ensures
        !object_view(s).contains_key(key),
    decreases s.len(),
{
    if s.len() > 0 {
        assert forall|i: int| 0 <= i < s.drop_last().len() implies (#[trigger] s.drop_last()[i]).0@
            != key by {
            assert(s.drop_last()[i] == s[i]);
        }
        lemma_object_absent(s.drop_last(), key);
    }
}

proof fn lemma_object_last(s: Seq<(String, Json)>, key: Text, i: int)
    requires
        0 <= i < s.len(),
        s[i].0@ == key,
        forall|j: int| i < j < s.len() ==> (#[trigger] s[j]).0@ != key,
    ensures
        object_view(s).contains_key(key),
        object_view(s)[key] == s[i].1@,
    decreases s.len(),
{
    if i < s.len() - 1 {
        assert(s.drop_last()[i] == s[i]);
        assert forall|j: int| i < j < s.drop_last().len() implies (#[trigger] s.drop_last()[j]).0@
            != key by {
            assert(s.drop_last()[j] == s[j]);
        }
        lemma_object_last(s.drop_last(), key, i);
    }
}

// ---- reading ----

/// The member `key` of an object.
pub open spec fn member(j: JsonView, key: Text) -> Option<JsonView> {
    match j {
        JsonView::Object(m) => if m.contains_key(key) {
            Some(m[key])
        } else {
            None
        },
        _ => None,
    }
}

/// The text of a JSON string.
pub open spec fn str_value(j: JsonView) -> Option<Text> {
    match j {
        JsonView::Str(s) => Some(s),
        _ => None,
    }
}

/// The value of a JSON integer that fits `u64`.
pub open spec fn uint_value(j: JsonView) -> Option<u64> {
    match j {
        JsonView::Int(n) => if 0 <= n <= u64::MAX {
            Some(n as u64)
        } else {
            None
        },
        _ => None,
    }
}

/// The text of the string member `key`.
pub open spec fn str_member(j: JsonView, key: Text) -> Option<Text> {
    match member(j, key) {
        Some(v) => str_value(v),
        None => None,
    }
}

impl Json {
    /// The member `key`, if this is an object that has it.
    pub fn get(&self, key: &str) -> (r: Option<&Json>)
        ensures
            r is Some <==> member(self@, key@) is Some,
            r matches Some(v) ==> member(self@, key@) == Some(v@),
    {
        match self {
            Json::Object(entries) => {
                let mut i: usize = entries.len();
                while i > 0
                    invariant
                        i <= entries@.len(),
                        self@ == JsonView::Object(object_view(entries@)),
                        forall|j: int| i <= j < entries@.len() ==> (#[trigger] entries@[j]).0@ != key@,
                    decreases i,
                {
                    i = i - 1;
                    if str_eq(entries[i].0.as_str(), key) {
                        proof {
                            lemma_object_last(entries@, key@, i as int);
                        }
                        return Some(&entries[i].1);
                    }
                }
                proof {
                    lemma_object_absent(entries@, key@);
                }
                None
            },
            _ => None,
        }
    }

    /// The text, if this is a string.
    pub fn as_str(&self) -> (r: Option<&str>)
        ensures
            r is Some <==> str_value(self@) is Some,
            r matches Some(s) ==> str_value(self@) == Some(s@),
    {
        match self {
            Json::Str(s) => Some(s.as_str()),
            _ => None,
        }
    }

    /// The value, if this is an integer that fits `u64`.
    pub fn as_u64(&self) -> (r: Option<u64>)
        ensures
            r == uint_value(self@),
    {
        match self {
            Json::Uint(n) => Some(*n),
            Json::Int(n) => if *n >= 0 {
                Some(*n as u64)
            } else {
                None
            },
            Json::Real(n) => match number_whole(n) {
                Some(i) => if 0 <= i && i <= u64::MAX as i128 {
                    Some(i as u64)
                } else {
                    None
                },
                None => None,
            },
            _ => None,
        }
    }

    /// The text of the string member `key`.
    pub fn get_str(&self, key: &str) -> (r: Option<&str>)
        ensures
            r is Some <==> str_member(self@, key@) is Some,
            r matches Some(s) ==> str_member(self@, key@) == Some(s@),
    {
        match self.get(key) {
            Some(v) => v.as_str(),
            None => None,
        }
    }

    /// Whether this is an object.
    pub fn is_object(&self) -> (r: bool)
        ensures
            r == (self@ is Object),
    {
        match self {
            Json::Object(_) => true,
            _ => false,
        }
    }
}

// ---- building ----

/// Puts a member into an object under construction.
pub fn put(o: &mut Vec<(String, Json)>, key: &str, value: Json)
    ensures
        object_view(final(o)@) == object_view(old(o)@).insert(key@, value@),
{
    let name = key.to_owned();
    proof {
        lemma_object_push(o@, (name, value));
    }
    o.push((name, value));
}

/// The JSON string `s`.
pub fn jstr(s: &str) -> (r: Json)
    ensures
        r@ == JsonView::Str(s@),
{
    Json::Str(s.to_owned())
}

/// An optional text: a string, or null.
pub open spec fn opt_str_json(o: Option<Text>) -> JsonView {
    match o {
        Some(s) => JsonView::Str(s),
        None => JsonView::Null,
    }
}

/// The JSON string of an optional text, or null.
pub fn jopt(o: &Option<String>) -> (r: Json)
    ensures
        r@ == opt_str_json(crate::text::opt_text(*o)),
{
    match o {
        Some(s) => Json::Str(s.clone()),
        None => Json::Null,
    }
}

/// The JSON array of a list of texts.
pub open spec fn strings_json(v: Seq<Text>) -> JsonView {
    JsonView::Array(v.map_values(|s: Text| JsonView::Str(s)))
}

/// The JSON array of a list of strings.
pub fn jstrings(v: &Vec<String>) -> (r: Json)
    ensures
        r@ == strings_json(crate::text::texts(v@)),
{
    let mut out: Vec<Json> = Vec::new();
    for i in 0..v.len()
        invariant
            array_view(out@) == crate::text::texts(v@).take(i as int).map_values(
                |s: Text| JsonView::Str(s),
            ),
    {
        let j = Json::Str(v[i].clone());
        proof {
            lemma_array_push(out@, j);
            let t = crate::text::texts(v@);
            assert(t.take(i as int + 1) =~= t.take(i as int).push(v@[i as int]@));
            assert(t.take(i as int + 1).map_values(|s: Text| JsonView::Str(s)) =~= t.take(
                i as int,
            ).map_values(|s: Text| JsonView::Str(s)).push(JsonView::Str(v@[i as int]@)));
        }
        out.push(j);
    }
    assert(crate::text::texts(v@).take(v@.len() as int) =~= crate::text::texts(v@));
    Json::Array(out)
}

// ---- to and from serde_json ----

/// What a `serde_json::Value` holds.
pub uninterp spec fn value_model(v: serde_json::Value) -> JsonView;

/// What `serde_json` reads from a text: `None` where the text is no JSON.
pub uninterp spec fn parsed_json(text: Seq<char>) -> Option<JsonView>;

/// The compact text that `serde_json` prints for a value.
pub uninterp spec fn json_text(j: JsonView) -> Seq<char>;

/// The indented text that `serde_json` prints for a value.
pub uninterp spec fn json_pretty(j: JsonView) -> Seq<char>;

/// The number that `serde_json` reads from a text: `None` where the text is no number.
pub uninterp spec fn number_of_text(text: Seq<char>) -> Option<serde_json::Number>;

/// A whole number in decimal with the exponent `e0` behind it.
pub open spec fn with_exponent(n: nat) -> Text {
    crate::text::decimal(n) + seq!['e', '0']
}

/// The outermost layer of a `serde_json::Value`.
pub enum Layer<'a> {
    Null,
    Bool(bool),
    Uint(u64),
    Int(i64),
    Real(serde_json::Number),
    Str(&'a String),
    Array(&'a Vec<serde_json::Value>),
    Object(Vec<(&'a String, &'a serde_json::Value)>),
}

/// The parts that a `serde_json::Value` is made of.
pub enum Parts {
    Null,
    Bool(bool),
    Uint(u64),
    Int(i64),
    Real(serde_json::Number),
    Str(String),
    Array(Vec<serde_json::Value>),
    Object(Vec<(String, serde_json::Value)>),
}

/// A short name is none that `serde_json` keeps to itself.
pub proof fn lemma_short_name(k: Text)
    requires
        k.len() < 28,
    ensures
        !is_reserved_name(k),
{
    reveal_strlit("$serde_json::private::RawValue");
    reveal_strlit("$serde_json::private::Number");
    assert("$serde_json::private::RawValue"@.len() == 30);
    assert("$serde_json::private::Number"@.len() == 28);
}

/// What a list of `serde_json` values holds.
pub open spec fn models(s: Seq<serde_json::Value>) -> Seq<JsonView> {
    s.map_values(|v: serde_json::Value| value_model(v))
}

/// What a list of `serde_json` entries holds: a later entry wins.
pub open spec fn entry_models(s: Seq<(String, serde_json::Value)>) -> Map<Text, JsonView>
    decreases s.len(),
{
    if s.len() == 0 {
        Map::empty()
    } else {
        entry_models(s.drop_last()).insert(s.last().0@, value_model(s.last().1))
    }
}

/// What a list of borrowed `serde_json` entries holds: a later entry wins.
pub open spec fn ref_models(s: Seq<(&String, &serde_json::Value)>) -> Map<Text, JsonView>
    decreases s.len(),
{
    if s.len() == 0 {
        Map::empty()
    } else {
        ref_models(s.drop_last()).insert(s.last().0@, value_model(*s.last().1))
    }
}

/// No name occurs twice.
pub open spec fn distinct_names(s: Seq<(&String, &serde_json::Value)>) -> bool {
    forall|i: int, j: int| 0 <= i < j < s.len() ==> (#[trigger] s[i]).0@ != (#[trigger] s[j]).0@
}

/// With distinct names, every entry is found in the object.
proof fn lemma_ref_models(s: Seq<(&String, &serde_json::Value)>, i: int)
    requires
        distinct_names(s),
        0 <= i < s.len(),
    ensures
        ref_models(s).dom().finite(),
        ref_models(s).contains_key(s[i].0@),
        ref_models(s)[s[i].0@] == value_model(*s[i].1),
    decreases s.len(),
{
    let front = s.drop_last();
    assert forall|p: int, q: int| 0 <= p < q < front.len() implies (#[trigger] front[p]).0@ != (
    #[trigger] front[q]).0@ by {
        assert(front[p] == s[p]);
        assert(front[q] == s[q]);
    }
    if i < s.len() - 1 {
        assert(front[i] == s[i]);
        lemma_ref_models(front, i);
        assert(s[i].0@ != s[s.len() - 1].0@);
    } else {
        lemma_ref_finite(front);
    }
}

proof fn lemma_ref_finite(s: Seq<(&String, &serde_json::Value)>)
    ensures
        ref_models(s).dom().finite(),
    decreases s.len(),
{
    if s.len() > 0 {
        lemma_ref_finite(s.drop_last());
    }
}

/// A member name that `serde_json` keeps to itself.
pub open spec fn is_reserved_name(k: Text) -> bool {
    k == "$serde_json::private::RawValue"@ || k == "$serde_json::private::Number"@
}

/// A value that reads back as it was printed: no number but 64-bit integers, fewer than `n`
/// levels of nesting, and no member name that `serde_json` keeps to itself.
pub open spec fn reads_back(j: JsonView, n: nat) -> bool
    decreases n,
{
    match j {
        JsonView::Real(_) => false,
        JsonView::Int(i) => i64::MIN <= i <= u64::MAX,
        JsonView::Array(s) => n > 0 && forall|i: int|
            0 <= i < s.len() ==> reads_back(#[trigger] s[i], (n - 1) as nat),
        JsonView::Object(m) => n > 0 && forall|k: Text| #[trigger]
            m.contains_key(k) ==> reads_back(m[k], (n - 1) as nat) && !is_reserved_name(k),
        _ => true,
    }
}

/// `serde_json::from_str`: the value that the text denotes, or `None` where it is no JSON.
#[verifier::external_body]
fn parse_value(text: &str) -> (r: Option<serde_json::Value>)
    ensures
        parsed_json(text@) == (match r {
            Some(v) => Some(value_model(v)),
            None => None,
        }),
{
    serde_json::from_str::<serde_json::Value>(text).ok()
}

/// The variants of `serde_json::Value`, and `Number::as_u64` and `Number::as_i64` to tell its
/// numbers apart: the layer holds what the value holds. An object hands out each member once.
#[verifier::external_body]
fn open_value<'a>(v: &'a serde_json::Value) -> (r: Layer<'a>)
    ensures
        value_model(*v) == (match r {
            Layer::Null => JsonView::Null,
            Layer::Bool(b) => JsonView::Bool(b),
            Layer::Uint(n) => JsonView::Int(n as int),
            Layer::Int(n) => JsonView::Int(n as int),
            Layer::Real(n) => number_view(n),
            Layer::Str(s) => JsonView::Str(s@),
            Layer::Array(a) => JsonView::Array(models(a@)),
            Layer::Object(o) => JsonView::Object(ref_models(o@)),
        }),
        r matches Layer::Object(o) ==> distinct_names(o@),
{
    match v {
        serde_json::Value::Null => Layer::Null,
        serde_json::Value::Bool(b) => Layer::Bool(*b),
        serde_json::Value::Number(n) => match (n.as_u64(), n.as_i64()) {
            (Some(u), _) => Layer::Uint(u),
            (None, Some(i)) => Layer::Int(i),
            (None, None) => Layer::Real(n.clone()),
        },
        serde_json::Value::String(s) => Layer::Str(s),
        serde_json::Value::Array(a) => Layer::Array(a),
        serde_json::Value::Object(o) => Layer::Object(o.iter().collect()),
    }
}

/// The constructors of `serde_json::Value`: the value holds what the parts hold, a number what
/// that number means. In an object a later entry replaces an earlier one of the same name.
#[verifier::external_body]
fn close_value(p: Parts) -> (r: serde_json::Value)
    ensures
        value_model(r) == (match p {
            Parts::Null => JsonView::Null,
            Parts::Bool(b) => JsonView::Bool(b),
            Parts::Uint(n) => JsonView::Int(n as int),
            Parts::Int(n) => JsonView::Int(n as int),
            Parts::Real(n) => number_view(n),
            Parts::Str(s) => JsonView::Str(s@),
            Parts::Array(a) => JsonView::Array(models(a@)),
            Parts::Object(o) => JsonView::Object(entry_models(o@)),
        }),
{
    match p {
        Parts::Null => serde_json::Value::Null,
        Parts::Bool(b) => serde_json::Value::Bool(b),
        Parts::Uint(n) => serde_json::Value::from(n),
        Parts::Int(n) => serde_json::Value::from(n),
        Parts::Real(n) => serde_json::Value::Number(n),
        Parts::Str(s) => serde_json::Value::String(s),
        Parts::Array(a) => serde_json::Value::Array(a),
        Parts::Object(o) => serde_json::Value::Object(o.into_iter().collect()),
    }
}

/// `serde_json::Value::to_string`: the compact text of the value. A value without
/// floating-point numbers, nested less than a hundred levels deep, without the member names
/// that the crate keeps to itself, is read back from its text.
#[verifier::external_body]
fn value_text(v: &serde_json::Value) -> (r: String)
    ensures
        r@ == json_text(value_model(*v)),
        reads_back(value_model(*v), 100) ==> parsed_json(r@) == Some(value_model(*v)),
{
    v.to_string()
}

/// `serde_json::to_string_pretty` on a `serde_json::Value`, which never fails: its indented
/// text. It reads back under the same conditions as the compact text.
#[verifier::external_body]
fn value_pretty(v: &serde_json::Value) -> (r: String)
    ensures
        r@ == json_pretty(value_model(*v)),
        reads_back(value_model(*v), 100) ==> parsed_json(r@) == Some(value_model(*v)),
{
    serde_json::to_string_pretty(v).unwrap()
}

/// `str::parse` into a `serde_json::Number`: the number that the text denotes. A whole number
/// of 64 bits with `e0` behind it denotes one, and that is a floating-point number. That it is
/// the one nearest to the whole number is left unsaid.
#[verifier::external_body]
fn read_number(text: &str) -> (r: Option<serde_json::Number>)
    ensures
        r == number_of_text(text@),
        (exists|n: u64| text@ == #[trigger] with_exponent(n as nat)) ==> r is Some,
        (exists|n: u64| text@ == #[trigger] with_exponent(n as nat)) ==> whole_number(r->0) is None,
{
    text.parse::<serde_json::Number>().ok()
}

/// The library's value of a `serde_json::Value`.
pub fn from_value(v: &serde_json::Value) -> (r: Json)
    ensures
        r@ == value_model(*v),
    decreases value_model(*v),
{
    match open_value(v) {
        Layer::Null => Json::Null,
        Layer::Bool(b) => Json::Bool(b),
        Layer::Uint(n) => Json::Uint(n),
        Layer::Int(n) => Json::Int(n),
        Layer::Real(n) => Json::Real(n),
        Layer::Str(s) => Json::Str(s.clone()),
        Layer::Array(a) => {
            let mut out: Vec<Json> = Vec::new();
            for i in 0..a.len()
                invariant
                    value_model(*v) == JsonView::Array(models(a@)),
                    array_view(out@) == models(a@).take(i as int),
            {
                let ghost all = models(a@);
                let ghost whole = value_model(*v);
                assert(decreases_to!(whole => whole->Array_0));
                assert(decreases_to!(all => all[i as int]));
                let j = from_value(&a[i]);
                proof {
                    lemma_array_push(out@, j);
                    assert(all.take(i as int + 1) =~= all.take(i as int).push(all[i as int]));
                }
                out.push(j);
            }
            assert(models(a@).take(a@.len() as int) =~= models(a@));
            Json::Array(out)
        },
        Layer::Object(o) => {
            let mut out: Vec<(String, Json)> = Vec::new();
            for i in 0..o.len()
                invariant
                    value_model(*v) == JsonView::Object(ref_models(o@)),
                    distinct_names(o@),
                    object_view(out@) == ref_models(o@.take(i as int)),
            {
                let (k, w) = o[i];
                let ghost m = ref_models(o@);
                proof {
                    lemma_ref_models(o@, i as int);
                    let whole = value_model(*v);
                    assert(decreases_to!(whole => whole->Object_0));
                    assert(decreases_to!(m => m[k@]));
                }
                let j = from_value(w);
                let name = k.clone();
                proof {
                    lemma_object_push(out@, (name, j));
                    assert(o@.take(i as int + 1).drop_last() =~= o@.take(i as int));
                }
                out.push((name, j));
            }
            assert(o@.take(o@.len() as int) =~= o@);
            Json::Object(out)
        },
    }
}


/// The `serde_json::Value` of a value of the library.
pub fn to_value(j: &Json) -> (r: serde_json::Value)
    ensures
        value_model(r) == j@,
    decreases *j,
{
    match j {
        Json::Null => close_value(Parts::Null),
        Json::Bool(b) => close_value(Parts::Bool(*b)),
        Json::Uint(n) => close_value(Parts::Uint(*n)),
        Json::Int(n) => close_value(Parts::Int(*n)),
        Json::Real(n) => close_value(Parts::Real(clone_number(n))),
        Json::Str(s) => close_value(Parts::Str(s.clone())),
        Json::Array(v) => {
            let mut out: Vec<serde_json::Value> = Vec::new();
            for i in 0..v.len()
                invariant
                    *j == Json::Array(*v),
                    models(out@) == array_view(v@.take(i as int)),
            {
                proof {
                    assert(decreases_to!(*j => j->Array_0));
                    assert(decreases_to!(*v => v@));
                    assert(decreases_to!(v@ => v@[i as int]));
                    assert(v@.take(i as int + 1).drop_last() =~= v@.take(i as int));
                }
                let w = to_value(&v[i]);
                let ghost before = models(out@);
                out.push(w);
                assert(models(out@) =~= before.push(value_model(w)));
            }
            assert(v@.take(v@.len() as int) =~= v@);
            close_value(Parts::Array(out))
        },
        Json::Object(v) => {
            let mut out: Vec<(String, serde_json::Value)> = Vec::new();
            for i in 0..v.len()
                invariant
                    *j == Json::Object(*v),
                    entry_models(out@) == object_view(v@.take(i as int)),
            {
                proof {
                    assert(decreases_to!(*j => j->Object_0));
                    assert(decreases_to!(*v => v@));
                    assert(decreases_to!(v@ => v@[i as int]));
                    let e = v@[i as int];
                    assert(decreases_to!(e => e.1));
                    assert(v@.take(i as int + 1).drop_last() =~= v@.take(i as int));
                }
                let w = to_value(&v[i].1);
                let name = v[i].0.clone();
                let ghost before = out@;
                out.push((name, w));
                assert(out@.drop_last() =~= before);
            }
            assert(v@.take(v@.len() as int) =~= v@);
            close_value(Parts::Object(out))
        },
    }
}

/// `Number::as_i128`: the number, where it is a whole one.
#[verifier::external_body]
fn number_whole(n: &serde_json::Number) -> (r: Option<i128>)
    ensures
        r == whole_number(*n),
{
    n.as_i128()
}

/// `Clone` of a `serde_json::Number`: the same number.
#[verifier::external_body]
fn clone_number(n: &serde_json::Number) -> (r: serde_json::Number)
    ensures
        r == *n,
{
    n.clone()
}

/// The value that a text denotes, or `None` where it is no JSON.
pub fn parse_json(text: &str) -> (r: Option<Json>)
    ensures
        r is Some <==> parsed_json(text@) is Some,
        r matches Some(j) ==> parsed_json(text@) == Some(j@),
{
    match parse_value(text) {
        Some(v) => Some(from_value(&v)),
        None => None,
    }
}

/// The compact text of a value. It reads back as that value, within the bounds of
/// [`reads_back`].
pub fn to_text(j: &Json) -> (r: String)
    ensures
        r@ == json_text(j@),
        reads_back(j@, 100) ==> parsed_json(r@) == Some(j@),
{
    value_text(&to_value(j))
}

/// The indented text of a value. It reads back as that value, within the bounds of
/// [`reads_back`].
pub fn to_pretty(j: &Json) -> (r: String)
    ensures
        r@ == json_pretty(j@),
        reads_back(j@, 100) ==> parsed_json(r@) == Some(j@),
{
    value_pretty(&to_value(j))
}

/// The JSON number that a text denotes; null where it denotes none.
pub open spec fn real_json(text: Text) -> JsonView {
    match number_of_text(text) {
        Some(n) => number_view(n),
        None => JsonView::Null,
    }
}

/// A time in milliseconds as the wire carries it: a floating-point number.
pub open spec fn millis_json(ms: nat) -> JsonView {
    real_json(with_exponent(ms))
}

/// The floating-point JSON number of a time in milliseconds.
pub fn jmillis(ms: u64) -> (r: Json)
    ensures
        r@ == millis_json(ms as nat),
        r@ is Real,
{
    let mut t = crate::text::decimal_of(ms);
    t.push('e');
    t.push('0');
    assert(t@ =~= with_exponent(ms as nat));
    match read_number(t.as_str()) {
        Some(n) => Json::Real(n),
        None => Json::Null,
    }
}

/// The error body `{"error": msg}`.
pub open spec fn error_json(msg: Text) -> JsonView {
    JsonView::Object(Map::<Text, JsonView>::empty().insert("error"@, JsonView::Str(msg)))
}

/// The error body `{"error": msg}`.
pub fn jerror(msg: &str) -> (r: Json)
    ensures
        r@ == error_json(msg@),
{
    let mut o: Vec<(String, Json)> = Vec::new();
    put(&mut o, "error", jstr(msg));
    Json::Object(o)
}

// ---- laws ----

/// An object has the members that it was made of, each with its own value, and nothing else has
/// members.
pub proof fn law_members(m: Map<Text, JsonView>, k: Text, j: JsonView)
    ensures
        m.contains_key(k) ==> member(JsonView::Object(m), k) == Some(m[k]),
        !m.contains_key(k) ==> member(JsonView::Object(m), k) is None,
        !(j is Object) ==> member(j, k) is None,
        m.contains_key(k) && m[k] is Str ==> str_member(JsonView::Object(m), k) == Some(m[k]->Str_0),
        m.contains_key(k) && !(m[k] is Str) ==> str_member(JsonView::Object(m), k) is None,
        !m.contains_key(k) ==> str_member(JsonView::Object(m), k) is None,
        !(j is Object) ==> str_member(j, k) is None,
{
}

/// A string reads as its text, and a whole number from 0 to 2^64 - 1 as itself. Nothing else does.
pub proof fn law_plain_values(s: Text, n: int, j: JsonView)
    ensures
        str_value(JsonView::Str(s)) == Some(s),
        !(j is Str) ==> str_value(j) is None,
        0 <= n <= 18_446_744_073_709_551_615 ==> (uint_value(JsonView::Int(n)) matches Some(u) && u as int
            == n),
        n < 0 || n > 18_446_744_073_709_551_615 ==> uint_value(JsonView::Int(n)) is None,
        !(j is Int) ==> uint_value(j) is None,
{
}

/// A list of texts is an array of strings, one for each in its order; an optional text is a
/// string or null; an error body has its message and nothing else.
pub proof fn law_texts_on_the_wire(v: Seq<Text>, i: int, t: Text)
    ensures
        strings_json(v) is Array,
        strings_json(v)->Array_0.len() == v.len(),
        0 <= i < v.len() ==> strings_json(v)->Array_0[i] == JsonView::Str(v[i]),
        opt_str_json(Some(t)) == JsonView::Str(t),
        opt_str_json(None) == JsonView::Null,
        error_json(t) is Object,
        error_json(t)->Object_0.dom() == set!["error"@],
        error_json(t)->Object_0["error"@] == JsonView::Str(t),
{
    assert(error_json(t)->Object_0.dom() =~= set!["error"@]);
}

/// A time is the number that is read from its milliseconds in decimal with a zero exponent.
pub proof fn law_times_on_the_wire(ms: nat, n: serde_json::Number)
    requires
        number_of_text(crate::text::decimal(ms).push('e').push('0')) == Some(n),
    ensures
        millis_json(ms) == number_view(n),
{
    assert(crate::text::decimal(ms).push('e').push('0') =~= crate::text::decimal(ms) + seq!['e', '0']);
}

/// A value means what it holds: a list its values in order, an object its entries by key, the
/// last one of a key.
pub proof fn law_what_values_mean(
    b: bool,
    u: u64,
    n: i64,
    s: String,
    v: Vec<Json>,
    o: Vec<(String, Json)>,
    i: int,
)
    ensures
        Json::Null@ == JsonView::Null,
        Json::Bool(b)@ == JsonView::Bool(b),
        Json::Uint(u)@ == JsonView::Int(u as int),
        Json::Int(n)@ == JsonView::Int(n as int),
        Json::Str(s)@ == JsonView::Str(s@),
        Json::Array(v)@ is Array && Json::Array(v)@->Array_0.len() == v@.len(),
        0 <= i < v@.len() ==> Json::Array(v)@->Array_0[i] == v@[i]@,
        Json::Object(o)@ is Object,
        0 <= i < o@.len() && (forall|j: int| i < j < o@.len() ==> (#[trigger] o@[j]).0@ != o@[i].0@)
            ==> Json::Object(o)@->Object_0.contains_key(o@[i].0@)
            && Json::Object(o)@->Object_0[o@[i].0@] == o@[i].1@,
{
    lemma_array_view(v@);
    if 0 <= i < o@.len() && (forall|j: int| i < j < o@.len() ==> (#[trigger] o@[j]).0@ != o@[i].0@) {
        lemma_last_entry(o@, i);
    }
}

proof fn lemma_last_entry(s: Seq<(String, Json)>, i: int)
    requires
        0 <= i < s.len(),
        forall|j: int| i < j < s.len() ==> (#[trigger] s[j]).0@ != s[i].0@,
    ensures
        object_view(s).contains_key(s[i].0@),
        object_view(s)[s[i].0@] == s[i].1@,
    decreases s.len(),
{
    if i < s.len() - 1 {
        assert(s[s.len() - 1].0@ != s[i].0@);
        let f = s.drop_last();
        assert forall|j: int| i < j < f.len() implies (#[trigger] f[j]).0@ != f[i].0@ by {
            assert(f[j] == s[j]);
        }
        lemma_last_entry(f, i);
    }
}

} // verus!
