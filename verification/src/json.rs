//! The document model the compiler reads: a JSON tree whose strings
//! are byte strings, together with the one trusted call into
//! `serde_json` that produces such a tree from raw file contents.
//!
//! Numbers are held as signed 64-bit integers: the schema grammar this
//! compiler accepts uses numbers only for length and count bounds. A
//! fractional or out-of-range number is carried as an opaque number
//! node, so it parses, is ignored in unrecognized members, and is a
//! shape error only where the schema grammar reads a number.

use vstd::prelude::*;

verus! {

broadcast use
    vstd::std_specs::vec::axiom_vec_index_decreases,
    vstd::std_specs::vec::axiom_vec_decreases_to_view,
    vstd::seq::axiom_seq_index_decreases,
    vstd::seq::axiom_seq_subrange_decreases;

/// One JSON value. Object members keep the order in which the parser
/// handed them over.
#[derive(Debug, PartialEq, Eq)]
pub enum Json {
    Null,
    Bool(bool),
    Int(i64),
    /// A number that is not a signed 64-bit integer (fractional or out
    /// of range), carried without its value.
    NonInt,
    Str(Vec<u8>),
    Arr(Vec<Json>),
    Obj(Vec<(Vec<u8>, Json)>),
}

/// The mathematical model of a [`Json`] tree.
pub enum JsonV {
    Null,
    Bool(bool),
    Int(int),
    NonInt,
    Str(Seq<u8>),
    Arr(Seq<JsonV>),
    Obj(Seq<(Seq<u8>, JsonV)>),
}

/// The models of a sequence of JSON values, element by element.
pub open spec fn jseq_view(s: Seq<Json>) -> Seq<JsonV>
    decreases s,
{
    if s.len() == 0 {
        Seq::empty()
    } else {
        seq![s[0].deep_view()] + jseq_view(s.drop_first())
    }
}

/// The models of a sequence of keyed JSON values, pair by pair.
pub open spec fn jpairs_view(s: Seq<(Vec<u8>, Json)>) -> Seq<(Seq<u8>, JsonV)>
    decreases s,
{
    if s.len() == 0 {
        Seq::empty()
    } else {
        seq![(s[0].0@, s[0].1.deep_view())] + jpairs_view(s.drop_first())
    }
}

impl DeepView for Json {
    type V = JsonV;

    open spec fn deep_view(&self) -> JsonV
        decreases self,
    {
        match self {
            Json::Null => JsonV::Null,
            Json::Bool(b) => JsonV::Bool(*b),
            Json::Int(n) => JsonV::Int(*n as int),
            Json::NonInt => JsonV::NonInt,
            Json::Str(s) => JsonV::Str(s@),
            Json::Arr(a) => JsonV::Arr(jseq_view(a@)),
            Json::Obj(m) => JsonV::Obj(jpairs_view(m@)),
        }
    }
}

/// `jseq_view` is the element-wise model.
pub proof fn lemma_jseq_view(s: Seq<Json>)
    ensures
        jseq_view(s).len() == s.len(),
        forall|i: int| 0 <= i < s.len() ==> jseq_view(s)[i] == s[i].deep_view(),
    decreases s,
{
    if s.len() == 0 {
        assert(jseq_view(s) == Seq::<JsonV>::empty());
    } else {
        lemma_jseq_view(s.drop_first());
        assert(jseq_view(s) == seq![s[0].deep_view()] + jseq_view(s.drop_first()));
        assert(jseq_view(s).len() == s.len());
        assert forall|i: int| 0 <= i < s.len() implies jseq_view(s)[i] == s[i].deep_view() by {
            if i > 0 {
                assert(jseq_view(s.drop_first())[i - 1] == s.drop_first()[i - 1].deep_view());
                assert(s.drop_first()[i - 1] == s[i]);
            }
        }
    }
}

/// `jpairs_view` is the pair-wise model.
pub proof fn lemma_jpairs_view(s: Seq<(Vec<u8>, Json)>)
    ensures
        jpairs_view(s).len() == s.len(),
        forall|i: int|
            0 <= i < s.len() ==> jpairs_view(s)[i] == (s[i].0@, s[i].1.deep_view()),
    decreases s,
{
    if s.len() == 0 {
        assert(jpairs_view(s) == Seq::<(Seq<u8>, JsonV)>::empty());
    } else {
        lemma_jpairs_view(s.drop_first());
        assert(jpairs_view(s) == seq![(s[0].0@, s[0].1.deep_view())] + jpairs_view(
            s.drop_first(),
        ));
        assert(jpairs_view(s).len() == s.len());
        assert forall|i: int|
            0 <= i < s.len() implies jpairs_view(s)[i] == (s[i].0@, s[i].1.deep_view()) by {
            if i > 0 {
                assert(jpairs_view(s.drop_first())[i - 1] == (
                    s.drop_first()[i - 1].0@,
                    s.drop_first()[i - 1].1.deep_view(),
                ));
                assert(s.drop_first()[i - 1] == s[i]);
            }
        }
    }
}

/// The deep view of a byte string is its view.
pub proof fn lemma_bytes_deep_view(v: Vec<u8>)
    ensures
        v.deep_view() == v@,
{
    assert(v.deep_view() =~= v@);
}

/// The deep view of an object node, over the member vector's own deep
/// view.
pub proof fn lemma_json_obj_deep_view(m: Vec<(Vec<u8>, Json)>)
    ensures
        Json::Obj(m).deep_view() == JsonV::Obj(m.deep_view()),
{
    lemma_jpairs_view(m@);
    assert forall|i: int| 0 <= i < m.len() implies jpairs_view(m@)[i] == m.deep_view()[i] by {
        assert(m@[i].0.deep_view() =~= m@[i].0@);
    }
    assert(jpairs_view(m@) =~= m.deep_view());
}

/// The deep view of an array node, over the element vector's own deep
/// view.
pub proof fn lemma_json_arr_deep_view(a: Vec<Json>)
    ensures
        Json::Arr(a).deep_view() == JsonV::Arr(a.deep_view()),
{
    lemma_jseq_view(a@);
    assert(jseq_view(a@) =~= a.deep_view());
}

pub(crate) fn bytes_eq_slice(a: &Vec<u8>, b: &[u8]) -> (r: bool)
    ensures
        r == (a@ == b@),
{
    if a.len() != b.len() {
        assert(a@ != b@) by {
            if a@ == b@ {
                assert(a@.len() == b@.len());
            }
        }
        return false;
    }
    let mut i: usize = 0;
    while i < a.len()
        invariant
            i <= a.len(),
            a@.len() == b@.len(),
            forall|k: int| 0 <= k < i ==> a@[k] == b@[k],
        decreases a.len() - i,
    {
        if a[i] != b[i] {
            assert(a@ != b@) by {
                if a@ == b@ {
                    assert(a@[i as int] == b@[i as int]);
                }
            }
            return false;
        }
        i = i + 1;
    }
    assert(a@ =~= b@);
    true
}

/// Compare two byte strings for equality.
pub fn bytes_eq(a: &Vec<u8>, b: &Vec<u8>) -> (r: bool)
    ensures
        r == (a@ == b@),
{
    bytes_eq_slice(a, b.as_slice())
}

/// What parsing a byte string as one JSON document yields: a function
/// of the bytes alone. `None` stands for content that is not one
/// well-formed JSON document.
pub uninterp spec fn json_parse_spec(s: Seq<u8>) -> Option<JsonV>;

/// Declaration of the outside type `serde_json::Value`, the parser's
/// document type, so that it can stand in a signature here; the value
/// is opaque and only converted, never inspected by verified code.
#[verifier::external_type_specification]
#[verifier::external_body]
pub struct ExValue(serde_json::Value);

/// Relies on the variants of `serde_json::Value`: each arm moves the
/// matching payload into the corresponding [`Json`] variant; a number
/// that `serde_json::Number::as_i64` cannot give as a signed 64-bit
/// integer becomes the opaque number node.
#[verifier::external_body]
fn json_of_value(v: serde_json::Value) -> Option<Json> {
    match v {
        serde_json::Value::Null => Some(Json::Null),
        serde_json::Value::Bool(b) => Some(Json::Bool(b)),
        serde_json::Value::Number(n) => Some(n.as_i64().map_or(Json::NonInt, Json::Int)),
        serde_json::Value::String(s) => Some(Json::Str(s.into_bytes())),
        serde_json::Value::Array(a) => a.into_iter().map(json_of_value).collect::<Option<
            Vec<Json>,
        >>().map(Json::Arr),
        serde_json::Value::Object(m) => m.into_iter().map(
            |(k, x)| Some((k.into_bytes(), json_of_value(x)?)),
        ).collect::<Option<Vec<(Vec<u8>, Json)>>>().map(Json::Obj),
    }
}

/// Relies on `serde_json::from_slice::<serde_json::Value>`: parsing a
/// byte slice as one JSON document is a function of the bytes alone,
/// and with the crate's default features an object's members come out
/// ordered by key, so the returned tree is a function of the bytes
/// too. A parse error yields `None`.
#[verifier::external_body]
pub(crate) fn parse_json(bytes: &[u8]) -> (r: Option<Json>)
    ensures
        match r {
            Some(j) => json_parse_spec(bytes@) == Some(j.deep_view()),
            None => json_parse_spec(bytes@) is None,
        },
{
    serde_json::from_slice::<serde_json::Value>(bytes).ok().and_then(json_of_value)
}

} // verus!
