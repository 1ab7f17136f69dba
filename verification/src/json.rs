//! JSON: values read as a tree, and records written on one line.

use vstd::prelude::*;

use crate::text::{same, texts};

verus! {

/// A JSON value.
#[derive(Debug)]
pub enum Json {
    /// `null`.
    Null,
    /// A boolean.
    Bool(bool),
    /// A whole number that is not negative and fits.
    Uint(u64),
    /// Any other number.
    OtherNumber,
    /// A string.
    Text(String),
    /// An array.
    List(Vec<Json>),
    /// An object, one member per key.
    Object(Vec<(String, Json)>),
}

/// The value of a [`Json`].
pub enum JsonView {
    Null,
    Bool(bool),
    Uint(u64),
    OtherNumber,
    Text(Seq<char>),
    List(Seq<JsonView>),
    Object(Seq<Member>),
}

/// A key of an object and its value.
pub struct Member {
    pub key: Seq<char>,
    pub value: JsonView,
}

impl View for Json {
    type V = JsonView;

    open spec fn view(&self) -> JsonView
        decreases self,
    {
        match self {
            Json::Null => JsonView::Null,
            Json::Bool(b) => JsonView::Bool(*b),
            Json::Uint(n) => JsonView::Uint(*n),
            Json::OtherNumber => JsonView::OtherNumber,
            Json::Text(s) => JsonView::Text(s@),
            Json::List(v) => JsonView::List(
                Seq::new(
                    v@.len(),
                    |i: int|
                        if 0 <= i < v@.len() {
                            v@[i]@
                        } else {
                            JsonView::Null
                        },
                ),
            ),
            Json::Object(v) => JsonView::Object(
                Seq::new(
                    v@.len(),
                    |i: int|
                        if 0 <= i < v@.len() {
                            (Member { key: v@[i].0@, value: v@[i].1@ })
                        } else {
                            (Member { key: Seq::empty(), value: JsonView::Null })
                        },
                ),
            ),
        }
    }
}

/// The values of a list.
pub open spec fn item_views(v: Seq<Json>) -> Seq<JsonView> {
    Seq::new(v.len(), |i: int| v[i]@)
}

/// The members of an object.
pub open spec fn members(v: Seq<(String, Json)>) -> Seq<Member> {
    Seq::new(v.len(), |i: int| (Member { key: v[i].0@, value: v[i].1@ }))
}

pub proof fn lemma_items(v: Vec<Json>)
    ensures
        Json::List(v)@ == JsonView::List(item_views(v@)),
{
    reveal_with_fuel(<Json as View>::view, 2);
    let t = Json::List(v)@->List_0;
    assert(t.len() == v@.len());
    assert(t =~= item_views(v@));
}

pub proof fn lemma_members(v: Vec<(String, Json)>)
    ensures
        Json::Object(v)@ == JsonView::Object(members(v@)),
{
    reveal_with_fuel(<Json as View>::view, 2);
    let t = Json::Object(v)@->Object_0;
    assert(t.len() == v@.len());
    assert(t =~= members(v@));
}

/// The value of the first member with this key.
pub open spec fn member_of(m: Seq<Member>, key: Seq<char>) -> Option<JsonView>
    decreases m.len(),
{
    if m.len() == 0 {
        None
    } else if m[0].key == key {
        Some(m[0].value)
    } else {
        member_of(m.drop_first(), key)
    }
}

/// The value under a key: none where the value is no object.
pub open spec fn field(v: JsonView, key: Seq<char>) -> Option<JsonView> {
    match v {
        JsonView::Object(m) => member_of(m, key),
        _ => None,
    }
}

/// The text under a key.
pub open spec fn text_field(v: JsonView, key: Seq<char>) -> Option<Seq<char>> {
    match field(v, key) {
        Some(JsonView::Text(s)) => Some(s),
        _ => None,
    }
}

/// The boolean under a key.
pub open spec fn bool_field(v: JsonView, key: Seq<char>) -> Option<bool> {
    match field(v, key) {
        Some(JsonView::Bool(b)) => Some(b),
        _ => None,
    }
}

/// The number under a key.
pub open spec fn uint_field(v: JsonView, key: Seq<char>) -> Option<u64> {
    match field(v, key) {
        Some(JsonView::Uint(n)) => Some(n),
        _ => None,
    }
}

/// The texts among the items of a list.
pub open spec fn texts_among(l: Seq<JsonView>) -> Seq<Seq<char>>
    decreases l.len(),
{
    if l.len() == 0 {
        Seq::empty()
    } else {
        let p = texts_among(l.drop_last());
        match l.last() {
            JsonView::Text(s) => p.push(s),
            _ => p,
        }
    }
}

/// The texts in the list under a key: none where there is no list.
pub open spec fn texts_field(v: JsonView, key: Seq<char>) -> Seq<Seq<char>> {
    match field(v, key) {
        Some(JsonView::List(l)) => texts_among(l),
        _ => Seq::empty(),
    }
}

/// The items of the list under a key: none where there is no list.
pub open spec fn items_field(v: JsonView, key: Seq<char>) -> Seq<JsonView> {
    match field(v, key) {
        Some(JsonView::List(l)) => l,
        _ => Seq::empty(),
    }
}

impl Json {
    /// The value under a key.
    pub fn get<'a>(&'a self, key: &str) -> (r: Option<&'a Json>)
        ensures
            match r {
                Some(j) => field(self@, key@) == Some(j@),
                None => field(self@, key@) is None,
            },
    {
        match self {
            Json::Object(v) => {
                let ghost m = members(v@);
                let mut i: usize = 0;
                proof {
                    lemma_members(*v);
                    assert(m.skip(0) =~= m);
                }
                while i < v.len()
                    invariant
                        i <= v.len(),
                        m == members(v@),
                        self@ == JsonView::Object(m),
                        member_of(m, key@) == member_of(m.skip(i as int), key@),
                    decreases v.len() - i,
                {
                    proof {
                        assert(m.skip(i as int)[0] == m[i as int]);
                        assert(m.skip(i as int).drop_first() =~= m.skip(i + 1));
                    }
                    if same(v[i].0.as_str(), key) {
                        return Some(&v[i].1);
                    }
                    i = i + 1;
                }
                None
            },
            _ => None,
        }
    }

    /// The text under a key.
    pub fn text<'a>(&'a self, key: &str) -> (r: Option<&'a str>)
        ensures
            crate::text::opt_str(r) == text_field(self@, key@),
    {
        match self.get(key) {
            Some(Json::Text(s)) => Some(s.as_str()),
            _ => None,
        }
    }

    /// The boolean under a key.
    pub fn boolean(&self, key: &str) -> (r: Option<bool>)
        ensures
            r == bool_field(self@, key@),
    {
        match self.get(key) {
            Some(Json::Bool(b)) => Some(*b),
            _ => None,
        }
    }

    /// The number under a key.
    pub fn uint(&self, key: &str) -> (r: Option<u64>)
        ensures
            r == uint_field(self@, key@),
    {
        match self.get(key) {
            Some(Json::Uint(n)) => Some(*n),
            _ => None,
        }
    }

    /// The texts in the list under a key.
    pub fn text_list(&self, key: &str) -> (r: Vec<String>)
        ensures
            texts(r@) == texts_field(self@, key@),
    {
        let mut out: Vec<String> = Vec::new();
        proof {
            assert(texts(out@) =~= Seq::empty());
        }
        match self.get(key) {
            Some(Json::List(v)) => {
                let ghost l = item_views(v@);
                let mut i: usize = 0;
                proof {
                    lemma_items(*v);
                    assert(l.take(0) =~= Seq::empty());
                }
                while i < v.len()
                    invariant
                        i <= v.len(),
                        l == item_views(v@),
                        texts(out@) == texts_among(l.take(i as int)),
                    decreases v.len() - i,
                {
                    proof {
                        assert(l.take(i + 1).drop_last() =~= l.take(i as int));
                        assert(l.take(i + 1).last() == v@[i as int]@);
                    }
                    match &v[i] {
                        Json::Text(s) => {
                            let t = s.clone();
                            proof {
                                crate::text::lemma_texts_push(out@, t);
                            }
                            out.push(t);
                        },
                        _ => {},
                    }
                    i = i + 1;
                }
                proof {
                    assert(l.take(v.len() as int) =~= l);
                }
                out
            },
            _ => out,
        }
    }
}

// ── records ────────────────────────────────────────────────────────────────

/// The value of a member of a record.
#[derive(Debug, Clone, PartialEq, Eq)]
pub enum RecordValue {
    /// `null`.
    Null,
    /// A string.
    Text(String),
    /// An array of strings.
    Texts(Vec<String>),
}

/// The value of a [`RecordValue`].
pub enum RecordValueView {
    Null,
    Text(Seq<char>),
    Texts(Seq<Seq<char>>),
}

impl View for RecordValue {
    type V = RecordValueView;

    open spec fn view(&self) -> RecordValueView {
        match self {
            RecordValue::Null => RecordValueView::Null,
            RecordValue::Text(s) => RecordValueView::Text(s@),
            RecordValue::Texts(v) => RecordValueView::Texts(texts(v@)),
        }
    }
}

/// The members of a record.
pub open spec fn record_views(v: Seq<(String, RecordValue)>) -> Seq<(Seq<char>, RecordValueView)> {
    Seq::new(v.len(), |i: int| (v[i].0@, v[i].1@))
}

/// How `serde_json` writes an object with these members, in the compact form.
pub uninterp spec fn json_object_text(members: Seq<(Seq<char>, RecordValueView)>) -> Seq<char>;

/// A `serde_json::Map` filled member by member and written by the `Display` of
/// `serde_json::Value`, the compact form. That form puts no newline between
/// tokens and escapes every control character within strings, so the text holds no
/// newline.
#[verifier::external_body]
pub(crate) fn write_object(members: &Vec<(String, RecordValue)>) -> (r: String)
    ensures
        r@ == json_object_text(record_views(members@)),
        !r@.contains('\n'),
{
    let mut map = serde_json::Map::new();
    for (k, v) in members {
        let value = match v {
            RecordValue::Null => serde_json::Value::Null,
            RecordValue::Text(s) => serde_json::Value::from(s.as_str()),
            RecordValue::Texts(l) => serde_json::Value::from(l.clone()),
        };
        map.insert(k.clone(), value);
    }
    serde_json::Value::Object(map).to_string()
}

// ── laws ───────────────────────────────────────────────────────────────────

/// A key finds the value of its own member; members of other keys change nothing.
pub proof fn key_finds_its_own_member(x: Member, m: Seq<Member>, key: Seq<char>)
    ensures
        x.key == key ==> member_of(seq![x] + m, key) == Some(x.value),
        x.key != key ==> member_of(seq![x] + m, key) == member_of(m, key),
        member_of(Seq::empty(), key) is None,
{
    assert((seq![x] + m).drop_first() =~= m);
}

/// A value is read as what it is: a text, a boolean or a number, and as nothing else.
pub proof fn value_is_read_as_what_it_is(v: JsonView, key: Seq<char>, s: Seq<char>, b: bool, n: u64)
    ensures
        text_field(v, key) == Some(s) <==> field(v, key) == Some(JsonView::Text(s)),
        bool_field(v, key) == Some(b) <==> field(v, key) == Some(JsonView::Bool(b)),
        uint_field(v, key) == Some(n) <==> field(v, key) == Some(JsonView::Uint(n)),
{
}

/// Of a list the texts are taken, each and in order.
pub proof fn texts_are_taken_in_order(l: Seq<JsonView>, x: JsonView)
    ensures
        texts_among(Seq::empty()) == Seq::<Seq<char>>::empty(),
        x is Text ==> texts_among(l.push(x)) == texts_among(l).push(x->Text_0),
        !(x is Text) ==> texts_among(l.push(x)) == texts_among(l),
{
    assert(l.push(x).drop_last() =~= l);
}

} // verus!
