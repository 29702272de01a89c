//! JSON values, as engines answer with them and are asked with them.

use crate::text;
use vstd::prelude::*;
use vstd::string::*;

verus! {

/// A JSON value.
#[derive(Debug)]
pub enum Json {
    Null,
    Bool(bool),
    /// A whole number that is not negative.
    Unsigned(u64),
    /// A negative whole number.
    Negative(i64),
    /// Any other number, as it is written.
    Real(String),
    Text(String),
    List(Vec<Json>),
    /// Each key stands once.
    Object(Vec<(String, Json)>),
}

/// What a JSON value is.
pub enum JsonView {
    Null,
    Bool(bool),
    Unsigned(u64),
    Negative(i64),
    Real(Seq<char>),
    Text(Seq<char>),
    List(Seq<JsonView>),
    Object(Seq<(Seq<char>, JsonView)>),
}

pub open spec fn json_view(j: Json) -> JsonView
    decreases j,
{
    match j {
        Json::Null => JsonView::Null,
        Json::Bool(b) => JsonView::Bool(b),
        Json::Unsigned(n) => JsonView::Unsigned(n),
        Json::Negative(n) => JsonView::Negative(n),
        Json::Real(s) => JsonView::Real(s@),
        Json::Text(s) => JsonView::Text(s@),
        Json::List(l) => JsonView::List(
            Seq::new(
                l@.len(),
                |i: int|
                    if 0 <= i < l@.len() {
                        json_view(l@[i])
                    } else {
                        JsonView::Null
                    },
            ),
        ),
        Json::Object(o) => JsonView::Object(
            Seq::new(
                o@.len(),
                |i: int|
                    if 0 <= i < o@.len() {
                        (o@[i].0@, json_view(o@[i].1))
                    } else {
                        (Seq::<char>::empty(), JsonView::Null)
                    },
            ),
        ),
    }
}

impl View for Json {
    type V = JsonView;

    open spec fn view(&self) -> JsonView {
        json_view(*self)
    }
}

impl DeepView for Json {
    type V = JsonView;

    open spec fn deep_view(&self) -> JsonView {
        json_view(*self)
    }
}

impl JsonView {
    /// The value under `key`, of an object.
    pub open spec fn at(self, key: Seq<char>) -> Option<JsonView> {
        match self {
            JsonView::Object(o) => field(o, key),
            _ => None,
        }
    }

    pub open spec fn text(self) -> Option<Seq<char>> {
        match self {
            JsonView::Text(s) => Some(s),
            _ => None,
        }
    }

    pub open spec fn number(self) -> Option<u64> {
        match self {
            JsonView::Unsigned(n) => Some(n),
            _ => None,
        }
    }

    pub open spec fn list(self) -> Option<Seq<JsonView>> {
        match self {
            JsonView::List(l) => Some(l),
            _ => None,
        }
    }

    /// The text under `key`.
    pub open spec fn text_at(self, key: Seq<char>) -> Option<Seq<char>> {
        match self.at(key) {
            Some(v) => v.text(),
            None => None,
        }
    }

    /// The whole number under `key`.
    pub open spec fn number_at(self, key: Seq<char>) -> Option<u64> {
        match self.at(key) {
            Some(v) => v.number(),
            None => None,
        }
    }

    /// The list under `key`.
    pub open spec fn list_at(self, key: Seq<char>) -> Option<Seq<JsonView>> {
        match self.at(key) {
            Some(v) => v.list(),
            None => None,
        }
    }
}

/// The value of the first of the fields that is named `key`.
pub open spec fn field(fields: Seq<(Seq<char>, JsonView)>, key: Seq<char>) -> Option<JsonView>
    decreases fields.len(),
{
    if fields.len() == 0 {
        None
    } else if fields[0].0 == key {
        Some(fields[0].1)
    } else {
        field(fields.drop_first(), key)
    }
}

impl Json {
    pub fn text_of(s: &str) -> (r: Json)
        ensures
            r@ == JsonView::Text(s@),
    {
        Json::Text(text::owned(s))
    }

    /// The value under `key`, of an object.
    pub fn at(&self, key: &str) -> (r: Option<&Json>)
        ensures
            r.deep_view() == self@.at(key@),
    {
        match self {
            Json::Object(o) => {
                let ghost fields = self@->Object_0;
                let mut i: usize = 0;
                assert(fields.skip(0) =~= fields);
                while i < o.len()
                    invariant
                        i <= o.len(),
                        *self == Json::Object(*o),
                        fields == self@->Object_0,
                        field(fields, key@) == field(fields.skip(i as int), key@),
                    decreases o.len() - i,
                {
                    assert(fields.skip(i as int)[0] == (o@[i as int].0@, o@[i as int].1@));
                    assert(fields.skip(i as int).drop_first() =~= fields.skip(i + 1));
                    if text::same(o[i].0.as_str(), key) {
                        return Some(&o[i].1);
                    }
                    i = i + 1;
                }
                None
            },
            _ => None,
        }
    }

    pub fn text(&self) -> (r: Option<&String>)
        ensures
            r.deep_view() == self@.text(),
    {
        match self {
            Json::Text(s) => Some(s),
            _ => None,
        }
    }

    pub fn number(&self) -> (r: Option<u64>)
        ensures
            r == self@.number(),
    {
        match self {
            Json::Unsigned(n) => Some(*n),
            _ => None,
        }
    }

    pub fn list(&self) -> (r: Option<&Vec<Json>>)
        ensures
            r.deep_view() == self@.list(),
    {
        match self {
            Json::List(l) => {
                assert(l.deep_view() =~= self@->List_0);
                Some(l)
            },
            _ => None,
        }
    }

    /// The text under `key`.
    pub fn text_at(&self, key: &str) -> (r: Option<&String>)
        ensures
            r.deep_view() == self@.text_at(key@),
    {
        match self.at(key) {
            Some(v) => v.text(),
            None => None,
        }
    }

    /// The whole number under `key`.
    pub fn number_at(&self, key: &str) -> (r: Option<u64>)
        ensures
            r == self@.number_at(key@),
    {
        match self.at(key) {
            Some(v) => v.number(),
            None => None,
        }
    }

    /// The list under `key`.
    pub fn list_at(&self, key: &str) -> (r: Option<&Vec<Json>>)
        ensures
            r.deep_view() == self@.list_at(key@),
    {
        match self.at(key) {
            Some(v) => v.list(),
            None => None,
        }
    }
}

/// An object with one field.
pub fn object1(k: &str, v: Json) -> (r: Json)
    ensures
        r@ == JsonView::Object(seq![(k@, v@)]),
{
    let mut o: Vec<(String, Json)> = Vec::new();
    o.push((text::owned(k), v));
    let r = Json::Object(o);
    assert(r@->Object_0 =~= seq![(k@, v@)]);
    r
}

/// An object with two fields.
pub fn object2(k: &str, v: Json, l: &str, w: Json) -> (r: Json)
    ensures
        r@ == JsonView::Object(seq![(k@, v@), (l@, w@)]),
{
    let mut o: Vec<(String, Json)> = Vec::new();
    o.push((text::owned(k), v));
    o.push((text::owned(l), w));
    let r = Json::Object(o);
    assert(r@->Object_0 =~= seq![(k@, v@), (l@, w@)]);
    r
}

/// An object with three fields.
pub fn object3(k: &str, v: Json, l: &str, w: Json, m: &str, x: Json) -> (r: Json)
    ensures
        r@ == JsonView::Object(seq![(k@, v@), (l@, w@), (m@, x@)]),
{
    let mut o: Vec<(String, Json)> = Vec::new();
    o.push((text::owned(k), v));
    o.push((text::owned(l), w));
    o.push((text::owned(m), x));
    let r = Json::Object(o);
    assert(r@->Object_0 =~= seq![(k@, v@), (l@, w@), (m@, x@)]);
    r
}

/// A list of texts.
pub fn text_list(l: &Vec<String>) -> (r: Json)
    ensures
        r@ == JsonView::List(
            Seq::new(l.deep_view().len(), |i: int| JsonView::Text(l.deep_view()[i])),
        ),
{
    let mut out: Vec<Json> = Vec::new();
    let mut i: usize = 0;
    while i < l.len()
        invariant
            i <= l.len(),
            out.len() == i,
            forall|j: int| 0 <= j < i ==> (#[trigger] out[j])@ == JsonView::Text(l[j]@),
        decreases l.len() - i,
    {
        out.push(Json::text_of(l[i].as_str()));
        i = i + 1;
    }
    let r = Json::List(out);
    assert(r@->List_0 =~= Seq::new(
        l.deep_view().len(),
        |k: int| JsonView::Text(l.deep_view()[k]),
    ));
    r
}

/// A text as JSON writes it: in double quotes, with what needs it escaped.
pub uninterp spec fn json_string_text(s: Seq<char>) -> Seq<char>;

/// `serde_json::to_string` of a text, which does not fail. The contract claims
/// only that the result depends on the text alone.
#[verifier::external_body]
fn json_string(s: &str) -> (r: String)
    ensures
        r@ == json_string_text(s@),
{
    serde_json::to_string(s).unwrap_or_default()
}

/// A JSON value written without any white space.
pub open spec fn written(v: JsonView) -> Seq<char>
    decreases v,
{
    match v {
        JsonView::Null => "null"@,
        JsonView::Bool(b) => if b {
            "true"@
        } else {
            "false"@
        },
        JsonView::Unsigned(n) => text::dec(n as nat),
        JsonView::Negative(n) => if n < 0 {
            "-"@ + text::dec((-(n as int)) as nat)
        } else {
            text::dec(n as nat)
        },
        JsonView::Real(s) => s,
        JsonView::Text(s) => json_string_text(s),
        JsonView::List(l) => "["@ + text::joined(written_items(l), ","@) + "]"@,
        JsonView::Object(o) => "{"@ + text::joined(written_fields(o), ","@) + "}"@,
    }
}

/// The items of a list, each written.
pub open spec fn written_items(l: Seq<JsonView>) -> Seq<Seq<char>>
    decreases l,
{
    Seq::new(
        l.len(),
        |i: int|
            if 0 <= i < l.len() {
                written(l[i])
            } else {
                Seq::<char>::empty()
            },
    )
}

/// The fields of an object, each written.
pub open spec fn written_fields(o: Seq<(Seq<char>, JsonView)>) -> Seq<Seq<char>>
    decreases o,
{
    Seq::new(
        o.len(),
        |i: int|
            if 0 <= i < o.len() {
                json_string_text(o[i].0) + ":"@ + written(o[i].1)
            } else {
                Seq::<char>::empty()
            },
    )
}

/// A JSON value written without any white space.
pub fn write_json(j: &Json) -> (r: String)
    ensures
        r@ == written(j@),
    decreases j,
{
    match j {
        Json::Null => text::owned("null"),
        Json::Bool(b) => if *b {
            text::owned("true")
        } else {
            text::owned("false")
        },
        Json::Unsigned(n) => text::decimal(*n),
        Json::Negative(n) => if *n < 0 {
            let m: u64 = (-(*n + 1)) as u64 + 1;
            text::owned("-").concat(text::decimal(m).as_str())
        } else {
            text::decimal(*n as u64)
        },
        Json::Real(s) => s.clone(),
        Json::Text(s) => json_string(s.as_str()),
        Json::List(l) => {
            let ghost items = j@->List_0;
            let mut parts: Vec<String> = Vec::new();
            let mut i: usize = 0;
            while i < l.len()
                invariant
                    i <= l.len(),
                    *j == Json::List(*l),
                    items == j@->List_0,
                    parts.len() == i,
                    forall|k: int| 0 <= k < i ==> (#[trigger] parts[k])@ == written(items[k]),
                decreases l.len() - i,
            {
                assert(items[i as int] == l@[i as int]@);
                assert(decreases_to!(*j => l@[i as int]));
                parts.push(write_json(&l[i]));
                i = i + 1;
            }
            assert(parts.deep_view() =~= written_items(items));
            text::owned("[").concat(text::join(&parts, ",").as_str()).concat("]")
        },
        Json::Object(o) => {
            let ghost items = j@->Object_0;
            let mut parts: Vec<String> = Vec::new();
            let mut i: usize = 0;
            while i < o.len()
                invariant
                    i <= o.len(),
                    *j == Json::Object(*o),
                    items == j@->Object_0,
                    parts.len() == i,
                    forall|k: int|
                        0 <= k < i ==> (#[trigger] parts[k])@ == json_string_text(items[k].0)
                            + ":"@ + written(items[k].1),
                decreases o.len() - i,
            {
                assert(items[i as int] == (o@[i as int].0@, o@[i as int].1@));
                assert(decreases_to!(*j => o@[i as int].1));
                parts.push(
                    json_string(o[i].0.as_str()).concat(":").concat(
                        write_json(&o[i].1).as_str(),
                    ),
                );
                i = i + 1;
            }
            assert(parts.deep_view() =~= written_fields(items));
            text::owned("{").concat(text::join(&parts, ",").as_str()).concat("}")
        },
    }
}

} // verus!
