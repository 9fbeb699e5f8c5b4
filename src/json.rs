//! A JSON document as plain values, and its mathematical model.
use vstd::prelude::*;

verus! {

/// A JSON number, kept in the form in which it came off the wire.
#[derive(Debug, Clone, Copy, PartialEq, Eq, Structural)]
pub enum Number {
    /// An integer that fits in `i64`.
    Int(i64),
    /// An integer above `i64::MAX`.
    UInt(u64),
    /// Any other number, as the bit pattern of an IEEE-754 binary64 value.
    Float(u64),
}

/// The members of a JSON object, in order.
pub type JsonMap = Vec<(String, Json)>;

/// A JSON document. Objects keep their members in order.
#[derive(Debug, PartialEq, Eq)]
pub enum Json {
    Null,
    Bool(bool),
    Number(Number),
    Str(String),
    Array(Vec<Json>),
    Object(JsonMap),
}

/// The mathematical model of a JSON document.
pub enum JsonV {
    Null,
    Bool(bool),
    Number(Number),
    Str(Seq<char>),
    Array(Seq<JsonV>),
    Object(Seq<(Seq<char>, JsonV)>),
}

impl Json {
    pub open spec fn model(self) -> JsonV
        decreases self,
    {
        match self {
            Json::Null => JsonV::Null,
            Json::Bool(b) => JsonV::Bool(b),
            Json::Number(n) => JsonV::Number(n),
            Json::Str(s) => JsonV::Str(s@),
            Json::Array(v) => JsonV::Array(
                Seq::new(v@.len(), |i: int| if 0 <= i < v@.len() { v@[i].model() } else { JsonV::Null }),
            ),
            Json::Object(v) => JsonV::Object(
                Seq::new(v@.len(), |i: int| if 0 <= i < v@.len() { (v@[i].0@, v@[i].1.model()) } else { (Seq::empty(), JsonV::Null) }),
            ),
        }
    }
}

/// The model of the members of an object.
pub open spec fn map_model(m: Seq<(String, Json)>) -> Seq<(Seq<char>, JsonV)> {
    Seq::new(m.len(), |i: int| (m[i].0@, m[i].1.model()))
}

/// The model of the elements of an array.
pub open spec fn array_model(a: Seq<Json>) -> Seq<JsonV> {
    Seq::new(a.len(), |i: int| a[i].model())
}

pub proof fn lemma_object_model(m: JsonMap)
    ensures
        Json::Object(m).model() == JsonV::Object(map_model(m@)),
{
    let s = Json::Object(m).model();
    assert(s->Object_0 =~= map_model(m@));
}

pub proof fn lemma_array_model(a: Vec<Json>)
    ensures
        Json::Array(a).model() == JsonV::Array(array_model(a@)),
{
    let s = Json::Array(a).model();
    assert(s->Array_0 =~= array_model(a@));
}

impl Json {
    /// A copy of the document with the same model.
    pub fn clone_json(&self) -> (r: Json)
        ensures
            r.model() == self.model(),
        decreases self,
    {
        match self {
            Json::Null => Json::Null,
            Json::Bool(b) => Json::Bool(*b),
            Json::Number(n) => Json::Number(*n),
            Json::Str(s) => Json::Str(s.clone()),
            Json::Array(a) => {
                let r = clone_array_inner(a);
                proof {
                    lemma_array_model(*a);
                    lemma_array_model(r);
                }
                Json::Array(r)
            },
            Json::Object(m) => {
                let r = clone_map_inner(m);
                proof {
                    lemma_object_model(*m);
                    lemma_object_model(r);
                }
                Json::Object(r)
            },
        }
    }
}

fn clone_array_inner(a: &Vec<Json>) -> (r: Vec<Json>)
    ensures
        array_model(r@) == array_model(a@),
    decreases a, 0nat,
{
    let mut out: Vec<Json> = Vec::new();
    let mut i: usize = 0;
    while i < a.len()
        invariant
            i <= a@.len(),
            out@.len() == i,
            forall|j: int| 0 <= j < i ==> #[trigger] out@[j].model() == a@[j].model(),
        decreases a@.len() - i,
    {
        proof { vstd::std_specs::vec::axiom_vec_index_decreases(*a, i as int); }
        out.push(a[i].clone_json());
        i += 1;
    }
    assert(array_model(out@) =~= array_model(a@));
    out
}

fn clone_map_inner(m: &JsonMap) -> (r: JsonMap)
    ensures
        map_model(r@) == map_model(m@),
    decreases m, 0nat,
{
    let mut out: JsonMap = Vec::new();
    let mut i: usize = 0;
    while i < m.len()
        invariant
            i <= m@.len(),
            out@.len() == i,
            forall|j: int| 0 <= j < i ==> #[trigger] out@[j].0@ == m@[j].0@ && out@[j].1.model() == m@[j].1.model(),
        decreases m@.len() - i,
    {
        proof { vstd::std_specs::vec::axiom_vec_index_decreases(*m, i as int); }
        let k = m[i].0.clone();
        let v = m[i].1.clone_json();
        out.push((k, v));
        i += 1;
    }
    assert(map_model(out@) =~= map_model(m@));
    out
}

/// A copy of the members of an object with the same model.
pub fn clone_map(m: &JsonMap) -> (r: JsonMap)
    ensures
        map_model(r@) == map_model(m@),
{
    clone_map_inner(m)
}

} // verus!
