//! TOML documents as a tree of plain values.

use toml::de::{DeTable, DeValue};
use vstd::prelude::*;

use crate::text::{same, texts};

verus! {

/// The crate `toml`'s own value, which [`tree`] takes apart.
#[verifier::external_type_specification]
#[verifier::external_body]
pub struct ExTomlValue<'i>(toml::de::DeValue<'i>);

/// A TOML value. What a configuration never holds (floats, dates, integers of more
/// than 128 bits) is `Other`.
#[derive(Debug)]
pub enum Toml {
    /// A boolean.
    Bool(bool),
    /// An integer.
    Int(i128),
    /// A string.
    Text(String),
    /// An array.
    List(Vec<Toml>),
    /// A table, one entry per key.
    Table(Vec<(String, Toml)>),
    /// A float, a date or an integer that an `i128` cannot hold.
    Other,
}

/// The value of a [`Toml`].
pub enum TomlView {
    Bool(bool),
    Int(int),
    Text(Seq<char>),
    List(Seq<TomlView>),
    Table(Seq<Entry>),
    Other,
}

/// A key of a table and its value.
pub struct Entry {
    pub key: Seq<char>,
    pub value: TomlView,
}

impl View for Toml {
    type V = TomlView;

    open spec fn view(&self) -> TomlView
        decreases self,
    {
        match self {
            Toml::Bool(b) => TomlView::Bool(*b),
            Toml::Int(n) => TomlView::Int(*n as int),
            Toml::Text(s) => TomlView::Text(s@),
            Toml::List(v) => TomlView::List(
                Seq::new(
                    v@.len(),
                    |i: int|
                        if 0 <= i < v@.len() {
                            v@[i]@
                        } else {
                            TomlView::Other
                        },
                ),
            ),
            Toml::Table(v) => TomlView::Table(
                Seq::new(
                    v@.len(),
                    |i: int|
                        if 0 <= i < v@.len() {
                            (Entry { key: v@[i].0@, value: v@[i].1@ })
                        } else {
                            (Entry { key: Seq::empty(), value: TomlView::Other })
                        },
                ),
            ),
            Toml::Other => TomlView::Other,
        }
    }
}

/// The entries of a table.
pub open spec fn entries(v: Seq<(String, Toml)>) -> Seq<Entry> {
    Seq::new(v.len(), |i: int| (Entry { key: v[i].0@, value: v[i].1@ }))
}

pub proof fn lemma_table(v: Vec<(String, Toml)>)
    ensures
        Toml::Table(v)@ == TomlView::Table(entries(v@)),
{
    let t = Toml::Table(v)@->Table_0;
    assert(t =~= entries(v@));
}

pub proof fn lemma_list(v: Vec<Toml>)
    ensures
        Toml::List(v)@ is List,
        Toml::List(v)@->List_0 == Seq::new(v@.len(), |i: int| v@[i]@),
{
    assert(Toml::List(v)@->List_0 =~= Seq::new(v@.len(), |i: int| v@[i]@));
}

/// The value of the first entry with this key.
pub open spec fn value_of(e: Seq<Entry>, key: Seq<char>) -> Option<TomlView>
    decreases e.len(),
{
    if e.len() == 0 {
        None
    } else if e[0].key == key {
        Some(e[0].value)
    } else {
        value_of(e.drop_first(), key)
    }
}

/// The value of the first entry with this key.
pub fn lookup<'a>(t: &'a Vec<(String, Toml)>, key: &str) -> (r: Option<&'a Toml>)
    ensures
        match r {
            Some(v) => value_of(entries(t@), key@) == Some(v@),
            None => value_of(entries(t@), key@) is None,
        },
{
    let ghost e = entries(t@);
    let mut i: usize = 0;
    proof {
        assert(e.skip(0) =~= e);
    }
    while i < t.len()
        invariant
            i <= t.len(),
            e == entries(t@),
            value_of(e, key@) == value_of(e.skip(i as int), key@),
        decreases t.len() - i,
    {
        proof {
            assert(e.skip(i as int)[0] == e[i as int]);
            assert(e.skip(i as int).drop_first() =~= e.skip(i + 1));
        }
        if same(t[i].0.as_str(), key) {
            return Some(&t[i].1);
        }
        i = i + 1;
    }
    None
}

impl Toml {
    /// Another value like this one.
    pub fn copy(&self) -> (r: Toml)
        ensures
            r@ == self@,
        decreases self,
    {
        match self {
            Toml::Bool(b) => Toml::Bool(*b),
            Toml::Int(n) => Toml::Int(*n),
            Toml::Text(s) => Toml::Text(s.clone()),
            Toml::List(v) => {
                let mut out: Vec<Toml> = Vec::new();
                let mut i: usize = 0;
                while i < v.len()
                    invariant
                        i <= v.len(),
                        *self == Toml::List(*v),
                        out@.len() == i,
                        forall|j: int| 0 <= j < i ==> (#[trigger] out@[j])@ == v@[j]@,
                    decreases v.len() - i,
                {
                    proof {
                        assert(*v == self->List_0);
                        assert(decreases_to!(*self => self->List_0));
                        assert(decreases_to!(*v => v@));
                        assert(decreases_to!(v@ => v@[i as int]));
                    }
                    out.push(v[i].copy());
                    i = i + 1;
                }
                proof {
                    lemma_list(*v);
                    lemma_list(out);
                    assert(Toml::List(out)@->List_0 =~= Toml::List(*v)@->List_0);
                }
                Toml::List(out)
            },
            Toml::Table(v) => {
                let mut out: Vec<(String, Toml)> = Vec::new();
                let mut i: usize = 0;
                while i < v.len()
                    invariant
                        i <= v.len(),
                        *self == Toml::Table(*v),
                        out@.len() == i,
                        forall|j: int|
                            0 <= j < i ==> (#[trigger] out@[j]).0@ == v@[j].0@ && out@[j].1@
                                == v@[j].1@,
                    decreases v.len() - i,
                {
                    proof {
                        assert(*v == self->Table_0);
                        assert(decreases_to!(*self => self->Table_0));
                        assert(decreases_to!(*v => v@));
                        assert(decreases_to!(v@ => v@[i as int]));
                        assert(decreases_to!(v@[i as int] => v@[i as int].1));
                    }
                    out.push((v[i].0.clone(), v[i].1.copy()));
                    i = i + 1;
                }
                proof {
                    lemma_table(*v);
                    lemma_table(out);
                    assert(entries(out@) =~= entries(v@));
                }
                Toml::Table(out)
            },
            Toml::Other => Toml::Other,
        }
    }
}

/// Values as the entries of a table, each under the key that stands at its place.
/// Values past the last key count for nothing.
pub open spec fn placed(keys: Seq<Seq<char>>, l: Seq<TomlView>) -> Seq<Entry> {
    Seq::new(
        if l.len() < keys.len() {
            l.len()
        } else {
            keys.len()
        },
        |i: int| (Entry { key: keys[i], value: l[i] }),
    )
}

/// Values as the entries of a table, each under the key that stands at its place.
pub fn place(keys: &[&str], l: &Vec<Toml>) -> (r: Vec<(String, Toml)>)
    ensures
        entries(r@) == placed(
            Seq::new(keys@.len(), |i: int| keys@[i]@),
            Seq::new(l@.len(), |i: int| l@[i]@),
        ),
{
    let ghost kv = Seq::new(keys@.len(), |i: int| keys@[i]@);
    let ghost lv = Seq::new(l@.len(), |i: int| l@[i]@);
    let n: usize = keys.len();
    let mut out: Vec<(String, Toml)> = Vec::new();
    let mut i: usize = 0;
    while i < l.len() && i < n
        invariant
            i <= l.len(),
            i <= n,
            n == keys@.len(),
            out@.len() == i,
            forall|j: int|
                0 <= j < i ==> (#[trigger] out@[j]).0@ == keys@[j]@ && out@[j].1@ == l@[j]@,
        decreases l.len() - i,
    {
        out.push((keys[i].to_owned(), l[i].copy()));
        i = i + 1;
    }
    proof {
        assert(entries(out@) =~= placed(kv, lv));
    }
    out
}

/// The texts of a list that holds texts only.
pub open spec fn list_texts(l: Seq<TomlView>) -> Option<Seq<Seq<char>>> {
    if forall|i: int| 0 <= i < l.len() ==> (#[trigger] l[i]) is Text {
        Some(Seq::new(l.len(), |i: int| l[i]->Text_0))
    } else {
        None
    }
}

/// The texts of a list that holds texts only.
pub fn read_texts(v: &Vec<Toml>) -> (r: Option<Vec<String>>)
    ensures
        match r {
            Some(t) => list_texts(Seq::new(v@.len(), |i: int| v@[i]@)) == Some(texts(t@)),
            None => list_texts(Seq::new(v@.len(), |i: int| v@[i]@)) is None,
        },
{
    let ghost l = Seq::new(v@.len(), |i: int| v@[i]@);
    let mut out: Vec<String> = Vec::new();
    let mut i: usize = 0;
    while i < v.len()
        invariant
            i <= v.len(),
            l == Seq::new(v@.len(), |i: int| v@[i]@),
            out@.len() == i,
            forall|j: int| 0 <= j < i ==> (#[trigger] l[j]) is Text && l[j]->Text_0 == out@[j]@,
        decreases v.len() - i,
    {
        match &v[i] {
            Toml::Text(s) => {
                proof {
                    assert(l[i as int] == TomlView::Text(s@));
                }
                out.push(s.clone());
            },
            _ => {
                proof {
                    assert(!(l[i as int] is Text));
                }
                return None;
            },
        }
        i = i + 1;
    }
    proof {
        assert(list_texts(l)->0 =~= texts(out@));
    }
    Some(out)
}

/// What `toml` reads in a text: the table that it writes or, where it is no TOML
/// document, what the error says.
pub uninterp spec fn toml_document(text: Seq<char>) -> Result<
    Seq<Entry>,
    Seq<char>,
>;

/// `toml::de::DeTable::parse`, which is how `toml::from_str` reads a text before it
/// turns it into a value, with each value of the outcome turned into the `Toml` of
/// the same shape and the error into its text. The outcome is a function of the
/// text.
#[verifier::external_body]
pub(crate) fn parse_toml(text: &str) -> (r: Result<Vec<(String, Toml)>, String>)
    ensures
        match r {
            Ok(t) => toml_document(text@) == Ok::<_, Seq<char>>(entries(t@)),
            Err(m) => toml_document(text@) == Err::<Seq<Entry>, _>(m@),
        },
{
    match DeTable::parse(text) {
        Ok(t) => Ok(
            t.into_inner().into_iter().map(
                |(k, v)| (k.into_inner().into_owned(), tree(v.into_inner())),
            ).collect(),
        ),
        Err(e) => Err(e.to_string()),
    }
}

/// A `toml::de::DeValue` as the `Toml` of the same shape, variant by variant. An
/// integer is the number that `i128::from_str_radix` reads in its digits, which is
/// how `toml` itself reads it.
#[verifier::external_body]
fn tree(v: DeValue<'_>) -> Toml {
    match v {
        DeValue::String(s) => Toml::Text(s.into_owned()),
        DeValue::Integer(n) => i128::from_str_radix(n.as_str(), n.radix()).map_or(
            Toml::Other,
            Toml::Int,
        ),
        DeValue::Float(_) => Toml::Other,
        DeValue::Boolean(b) => Toml::Bool(b),
        DeValue::Datetime(_) => Toml::Other,
        DeValue::Array(a) => Toml::List(a.into_iter().map(|v| tree(v.into_inner())).collect()),
        DeValue::Table(t) => Toml::Table(t.into_iter().map(|(k, v)| (k.into_inner().into_owned(), tree(v.into_inner()))).collect()),
    }
}

// ── laws ───────────────────────────────────────────────────────────────────

/// A key finds the value of its own entry; entries of other keys change nothing, and a
/// key that no entry has finds none.
pub proof fn key_finds_its_own_value(x: Entry, e: Seq<Entry>, key: Seq<char>)
    ensures
        x.key == key ==> value_of(seq![x] + e, key) == Some(x.value),
        x.key != key ==> value_of(seq![x] + e, key) == value_of(e, key),
        value_of(Seq::empty(), key) is None,
{
    assert((seq![x] + e).drop_first() =~= e);
}

/// The values of a list stand under the keys at their places: each under its own, none
/// under another, and no key is made up.
pub proof fn values_stand_at_their_places(keys: Seq<Seq<char>>, l: Seq<TomlView>, i: int)
    requires
        0 <= i < keys.len(),
        forall|a: int, b: int| 0 <= a < b < keys.len() ==> keys[a] != keys[b],
    ensures
        value_of(placed(keys, l), keys[i]) == (if i < l.len() {
            Some(l[i])
        } else {
            None
        }),
    decreases keys.len(),
{
    let p = placed(keys, l);
    if l.len() == 0 {
        assert(p.len() == 0);
    } else {
        let (k, m) = (keys.drop_first(), l.drop_first());
        assert(p.drop_first() =~= placed(k, m));
        assert(p[0] == Entry { key: keys[0], value: l[0] });
        if i > 0 {
            assert(keys[0] != keys[i]);
            assert forall|a: int, b: int| 0 <= a < b < k.len() implies k[a] != k[b] by {
                assert(keys[a + 1] != keys[b + 1]);
            }
            values_stand_at_their_places(k, m, i - 1);
            assert(k[i - 1] == keys[i]);
        }
    }
}

} // verus!
