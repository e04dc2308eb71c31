//! The schema AST: the typed form of one JSON Schema document, and
//! the verified mapping from a parsed JSON tree onto it.
//!
//! A document maps onto a [`Schema`] exactly when it is an object
//! whose recognized members all have the expected shape; anything else
//! is an invalid schema. Members that this compiler does not recognize
//! are carried nowhere and ignored, as are the parsed-but-unused
//! validation bounds once code is generated.

use vstd::prelude::*;
use vstd::string::*;
use crate::json::{Json, JsonV, bytes_eq_slice};
use crate::error::{CompileError, ErrV};

verus! {

/// The closed set of type tags a schema node can declare.
#[derive(Debug, Clone, Copy, PartialEq, Eq, Structural)]
pub enum SchemaTypeTag {
    Null,
    Boolean,
    Object,
    Array,
    Number,
    String,
    Integer,
}

/// One property node of a schema: its tag, the optional enumeration of
/// string literals, validation bounds, and the recursive `items` and
/// `properties` members. `items` holds at most one element and stands
/// for the boxed item schema of an array; an empty vector means the
/// member was absent.
#[derive(Debug, PartialEq, Eq)]
pub struct SchemaProperty {
    pub ty: SchemaTypeTag,
    pub enum_values: Option<Vec<Vec<u8>>>,
    pub min_length: Option<u64>,
    pub max_length: Option<u64>,
    pub pattern: Option<Vec<u8>>,
    pub format: Option<Vec<u8>>,
    pub items: Vec<SchemaProperty>,
    pub min_items: Option<u64>,
    pub max_items: Option<u64>,
    pub unique_items: Option<bool>,
    pub properties: Option<Vec<(Vec<u8>, SchemaProperty)>>,
    pub required: Option<Vec<Vec<u8>>>,
    pub additional_properties: Option<bool>,
}

/// The mathematical model of a [`SchemaProperty`].
#[verifier::ext_equal]
pub struct PropV {
    pub ty: SchemaTypeTag,
    pub enum_values: Option<Seq<Seq<u8>>>,
    pub min_length: Option<u64>,
    pub max_length: Option<u64>,
    pub pattern: Option<Seq<u8>>,
    pub format: Option<Seq<u8>>,
    pub items: Seq<PropV>,
    pub min_items: Option<u64>,
    pub max_items: Option<u64>,
    pub unique_items: Option<bool>,
    pub properties: Option<Seq<(Seq<u8>, PropV)>>,
    pub required: Option<Seq<Seq<u8>>>,
    pub additional_properties: Option<bool>,
}

/// The models of a sequence of property nodes, element by element.
pub open spec fn prop_seq_view(s: Seq<SchemaProperty>) -> Seq<PropV>
    decreases s,
{
    if s.len() == 0 {
        Seq::empty()
    } else {
        seq![s[0].deep_view()] + prop_seq_view(s.drop_first())
    }
}

/// The models of a sequence of named property nodes, pair by pair.
pub open spec fn prop_pairs_view(s: Seq<(Vec<u8>, SchemaProperty)>) -> Seq<(Seq<u8>, PropV)>
    decreases s,
{
    if s.len() == 0 {
        Seq::empty()
    } else {
        seq![(s[0].0@, s[0].1.deep_view())] + prop_pairs_view(s.drop_first())
    }
}

impl DeepView for SchemaProperty {
    type V = PropV;

    open spec fn deep_view(&self) -> PropV
        decreases self,
    {
        PropV {
            ty: self.ty,
            enum_values: self.enum_values.deep_view(),
            min_length: self.min_length,
            max_length: self.max_length,
            pattern: self.pattern.deep_view(),
            format: self.format.deep_view(),
            items: prop_seq_view(self.items@),
            min_items: self.min_items,
            max_items: self.max_items,
            unique_items: self.unique_items,
            properties: match &self.properties {
                None => None,
                Some(v) => Some(prop_pairs_view(v@)),
            },
            required: self.required.deep_view(),
            additional_properties: self.additional_properties,
        }
    }
}

/// `prop_seq_view` is the element-wise model.
pub proof fn lemma_prop_seq_view(s: Seq<SchemaProperty>)
    ensures
        prop_seq_view(s).len() == s.len(),
        forall|i: int| 0 <= i < s.len() ==> prop_seq_view(s)[i] == s[i].deep_view(),
    decreases s,
{
    if s.len() == 0 {
        assert(prop_seq_view(s) == Seq::<PropV>::empty());
    } else {
        lemma_prop_seq_view(s.drop_first());
        assert(prop_seq_view(s) == seq![s[0].deep_view()] + prop_seq_view(s.drop_first()));
        assert(prop_seq_view(s).len() == s.len());
        assert forall|i: int| 0 <= i < s.len() implies prop_seq_view(s)[i] == s[i].deep_view() by {
            if i > 0 {
                assert(prop_seq_view(s.drop_first())[i - 1] == s.drop_first()[i
                    - 1].deep_view());
                assert(s.drop_first()[i - 1] == s[i]);
            }
        }
    }
}

/// `prop_pairs_view` is the pair-wise model.
pub proof fn lemma_prop_pairs_view(s: Seq<(Vec<u8>, SchemaProperty)>)
    ensures
        prop_pairs_view(s).len() == s.len(),
        forall|i: int|
            0 <= i < s.len() ==> prop_pairs_view(s)[i] == (s[i].0@, s[i].1.deep_view()),
    decreases s,
{
    if s.len() == 0 {
        assert(prop_pairs_view(s) == Seq::<(Seq<u8>, PropV)>::empty());
    } else {
        lemma_prop_pairs_view(s.drop_first());
        assert(prop_pairs_view(s) == seq![(s[0].0@, s[0].1.deep_view())] + prop_pairs_view(
            s.drop_first(),
        ));
        assert(prop_pairs_view(s).len() == s.len());
        assert forall|i: int|
            0 <= i < s.len() implies prop_pairs_view(s)[i] == (s[i].0@, s[i].1.deep_view()) by {
            if i > 0 {
                assert(prop_pairs_view(s.drop_first())[i - 1] == (
                    s.drop_first()[i - 1].0@,
                    s.drop_first()[i - 1].1.deep_view(),
                ));
                assert(s.drop_first()[i - 1] == s[i]);
            }
        }
    }
}

/// The deep view of a property node, member by member, stated over
/// the members' own views.
pub proof fn lemma_prop_deep_view(p: SchemaProperty)
    ensures
        p.deep_view().ty == p.ty,
        p.deep_view().enum_values == p.enum_values.deep_view(),
        p.deep_view().min_length == p.min_length,
        p.deep_view().max_length == p.max_length,
        p.deep_view().pattern == p.pattern.deep_view(),
        p.deep_view().format == p.format.deep_view(),
        p.deep_view().items == p.items.deep_view(),
        p.deep_view().min_items == p.min_items,
        p.deep_view().max_items == p.max_items,
        p.deep_view().unique_items == p.unique_items,
        p.deep_view().properties == (match p.properties {
            Some(v) => Some(v.deep_view()),
            None => None::<Seq<(Seq<u8>, PropV)>>,
        }),
        p.deep_view().required == p.required.deep_view(),
        p.deep_view().additional_properties == p.additional_properties,
{
    lemma_prop_seq_view(p.items@);
    assert(prop_seq_view(p.items@) =~= p.items.deep_view());
    match p.properties {
        Some(v) => {
            lemma_prop_pairs_view(v@);
            assert forall|i: int|
                0 <= i < v.len() implies prop_pairs_view(v@)[i] == v.deep_view()[i] by {
                assert(v@[i].0.deep_view() =~= v@[i].0@);
            }
            assert(prop_pairs_view(v@) =~= v.deep_view());
        },
        None => {},
    }
}

/// One schema document: the root type it describes.
#[derive(Debug, PartialEq, Eq)]
pub struct Schema {
    pub id: Vec<u8>,
    pub title: Vec<u8>,
    pub ty: SchemaTypeTag,
    pub properties: Vec<(Vec<u8>, SchemaProperty)>,
    pub required: Vec<Vec<u8>>,
}

/// The mathematical model of a [`Schema`].
#[verifier::ext_equal]
pub struct SchemaV {
    pub id: Seq<u8>,
    pub title: Seq<u8>,
    pub ty: SchemaTypeTag,
    pub properties: Seq<(Seq<u8>, PropV)>,
    pub required: Seq<Seq<u8>>,
}

impl DeepView for Schema {
    type V = SchemaV;

    open spec fn deep_view(&self) -> SchemaV {
        SchemaV {
            id: self.id@,
            title: self.title@,
            ty: self.ty,
            properties: self.properties.deep_view(),
            required: self.required.deep_view(),
        }
    }
}

/// The property node with no members set; its tag placeholder is
/// overwritten when the mandatory `type` member is read.
pub open spec fn spec_empty_prop() -> PropV {
    PropV {
        ty: SchemaTypeTag::Null,
        enum_values: None,
        min_length: None,
        max_length: None,
        pattern: None,
        format: None,
        items: Seq::empty(),
        min_items: None,
        max_items: None,
        unique_items: None,
        properties: None,
        required: None,
        additional_properties: None,
    }
}

fn empty_property() -> (r: SchemaProperty)
    ensures
        r.deep_view() == spec_empty_prop(),
{
    let r = SchemaProperty {
        ty: SchemaTypeTag::Null,
        enum_values: None,
        min_length: None,
        max_length: None,
        pattern: None,
        format: None,
        items: Vec::new(),
        min_items: None,
        max_items: None,
        unique_items: None,
        properties: None,
        required: None,
        additional_properties: None,
    };
    assert(r.deep_view().items =~= spec_empty_prop().items);
    r
}

/// The tag a schema node's `type` string names, if it is one of the
/// seven recognized tags.
pub open spec fn spec_tag_of(s: Seq<u8>) -> Option<SchemaTypeTag> {
    if s == ("null").spec_bytes() {
        Some(SchemaTypeTag::Null)
    } else if s == ("boolean").spec_bytes() {
        Some(SchemaTypeTag::Boolean)
    } else if s == ("object").spec_bytes() {
        Some(SchemaTypeTag::Object)
    } else if s == ("array").spec_bytes() {
        Some(SchemaTypeTag::Array)
    } else if s == ("number").spec_bytes() {
        Some(SchemaTypeTag::Number)
    } else if s == ("string").spec_bytes() {
        Some(SchemaTypeTag::String)
    } else if s == ("integer").spec_bytes() {
        Some(SchemaTypeTag::Integer)
    } else {
        None
    }
}

fn tag_of(s: &Vec<u8>) -> (r: Option<SchemaTypeTag>)
    ensures
        r == spec_tag_of(s@),
{
    if bytes_eq_slice(s, ("null").as_bytes()) {
        Some(SchemaTypeTag::Null)
    } else if bytes_eq_slice(s, ("boolean").as_bytes()) {
        Some(SchemaTypeTag::Boolean)
    } else if bytes_eq_slice(s, ("object").as_bytes()) {
        Some(SchemaTypeTag::Object)
    } else if bytes_eq_slice(s, ("array").as_bytes()) {
        Some(SchemaTypeTag::Array)
    } else if bytes_eq_slice(s, ("number").as_bytes()) {
        Some(SchemaTypeTag::Number)
    } else if bytes_eq_slice(s, ("string").as_bytes()) {
        Some(SchemaTypeTag::String)
    } else if bytes_eq_slice(s, ("integer").as_bytes()) {
        Some(SchemaTypeTag::Integer)
    } else {
        None
    }
}

/// The list of byte strings a JSON array of strings holds, element by
/// element; `None` if some element is not a string.
pub open spec fn spec_str_elems(a: Seq<JsonV>) -> Option<Seq<Seq<u8>>>
    decreases a.len(),
{
    if a.len() == 0 {
        Some(Seq::empty())
    } else {
        match a[0] {
            JsonV::Str(s) => match spec_str_elems(a.drop_first()) {
                Some(rest) => Some(seq![s] + rest),
                None => None,
            },
            _ => None,
        }
    }
}

/// A JSON value read as a list of strings: it must be an array whose
/// elements are all strings.
pub open spec fn spec_str_list(j: JsonV) -> Option<Seq<Seq<u8>>> {
    match j {
        JsonV::Arr(a) => spec_str_elems(a),
        _ => None,
    }
}

pub(crate) fn clone_bytes(v: &Vec<u8>) -> (r: Vec<u8>)
    ensures
        r@ == v@,
{
    let mut out: Vec<u8> = Vec::new();
    let mut i: usize = 0;
    while i < v.len()
        invariant
            i <= v.len(),
            out@ == v@.take(i as int),
        decreases v.len() - i,
    {
        out.push(v[i]);
        assert(out@ =~= v@.take(i as int + 1));
        i = i + 1;
    }
    assert(out@ =~= v@);
    out
}

fn str_elems_from(a: &Vec<Json>, i: usize, out: &mut Vec<Vec<u8>>) -> (ok: bool)
    requires
        i <= a.len(),
    ensures
        match spec_str_elems(a.deep_view().skip(i as int)) {
            Some(l) => ok && final(out).deep_view() == old(out).deep_view() + l,
            None => !ok,
        },
    decreases a.len() - i,
{
    assert(a.deep_view().len() == a.len());
    if i == a.len() {
        assert(a.deep_view().skip(i as int) =~= Seq::<JsonV>::empty());
        assert(out.deep_view() =~= out.deep_view() + Seq::<Seq<u8>>::empty());
        true
    } else {
        assert(a.deep_view().skip(i as int)[0] == a.deep_view()[i as int]);
        assert(a.deep_view().skip(i as int).drop_first() =~= a.deep_view().skip(i as int + 1));
        assert(a.deep_view()[i as int] == a@[i as int].deep_view());
        match &a[i] {
            Json::Str(s) => {
                let ghost prefix = out.deep_view();
                out.push(clone_bytes(s));
                assert(out.deep_view() =~~= prefix + seq![s@]);
                let ok = str_elems_from(a, i + 1, out);
                proof {
                    if ok {
                        match spec_str_elems(a.deep_view().skip(i as int + 1)) {
                            Some(rest) => {
                                assert(final(out).deep_view() =~~= prefix + (seq![s@] + rest));
                            },
                            None => {},
                        }
                    }
                }
                ok
            },
            _ => false,
        }
    }
}

fn str_list_of(j: &Json) -> (r: Option<Vec<Vec<u8>>>)
    ensures
        match r {
            Some(l) => spec_str_list(j.deep_view()) == Some(l.deep_view()),
            None => spec_str_list(j.deep_view()) is None,
        },
{
    match j {
        Json::Arr(a) => {
            proof {
                crate::json::lemma_json_arr_deep_view(*a);
            }
            assert(j.deep_view() == JsonV::Arr(a.deep_view()));
            let mut out: Vec<Vec<u8>> = Vec::new();
            let ok = str_elems_from(a, 0, &mut out);
            assert(a.deep_view().skip(0) =~= a.deep_view());
            if ok {
                assert(out.deep_view() =~= Seq::<Seq<u8>>::empty() + out.deep_view());
                Some(out)
            } else {
                None
            }
        },
        _ => None,
    }
}

/// One recognized member of a property node folded into the
/// accumulated node `acc`; `saw_ty` records whether the mandatory
/// `type` member has been read. `None` is a shape error; an
/// unrecognized member changes nothing.
pub open spec fn spec_prop_field(k: Seq<u8>, v: JsonV, acc: PropV, saw_ty: bool) -> Option<
    (PropV, bool),
>
    decreases v, 1int,
{
    if k == ("type").spec_bytes() {
        match v {
            JsonV::Str(s) => match spec_tag_of(s) {
                Some(t) => Some((PropV { ty: t, ..acc }, true)),
                None => None,
            },
            _ => None,
        }
    } else if k == ("enum").spec_bytes() {
        match spec_str_list(v) {
            Some(l) => Some((PropV { enum_values: Some(l), ..acc }, saw_ty)),
            None => None,
        }
    } else if k == ("minLength").spec_bytes() {
        match v {
            JsonV::Int(n) => if 0 <= n && n <= u64::MAX as int {
                Some((PropV { min_length: Some(n as u64), ..acc }, saw_ty))
            } else {
                None
            },
            _ => None,
        }
    } else if k == ("maxLength").spec_bytes() {
        match v {
            JsonV::Int(n) => if 0 <= n && n <= u64::MAX as int {
                Some((PropV { max_length: Some(n as u64), ..acc }, saw_ty))
            } else {
                None
            },
            _ => None,
        }
    } else if k == ("pattern").spec_bytes() {
        match v {
            JsonV::Str(s) => Some((PropV { pattern: Some(s), ..acc }, saw_ty)),
            _ => None,
        }
    } else if k == ("format").spec_bytes() {
        match v {
            JsonV::Str(s) => Some((PropV { format: Some(s), ..acc }, saw_ty)),
            _ => None,
        }
    } else if k == ("items").spec_bytes() {
        match spec_prop_of(v) {
            Some(p) => Some((PropV { items: seq![p], ..acc }, saw_ty)),
            None => None,
        }
    } else if k == ("minItems").spec_bytes() {
        match v {
            JsonV::Int(n) => if 0 <= n && n <= u64::MAX as int {
                Some((PropV { min_items: Some(n as u64), ..acc }, saw_ty))
            } else {
                None
            },
            _ => None,
        }
    } else if k == ("maxItems").spec_bytes() {
        match v {
            JsonV::Int(n) => if 0 <= n && n <= u64::MAX as int {
                Some((PropV { max_items: Some(n as u64), ..acc }, saw_ty))
            } else {
                None
            },
            _ => None,
        }
    } else if k == ("uniqueItems").spec_bytes() {
        match v {
            JsonV::Bool(b) => Some((PropV { unique_items: Some(b), ..acc }, saw_ty)),
            _ => None,
        }
    } else if k == ("properties").spec_bytes() {
        match v {
            JsonV::Obj(mm) => match spec_props_of(mm) {
                Some(ps) => Some((PropV { properties: Some(ps), ..acc }, saw_ty)),
                None => None,
            },
            _ => None,
        }
    } else if k == ("required").spec_bytes() {
        match spec_str_list(v) {
            Some(l) => Some((PropV { required: Some(l), ..acc }, saw_ty)),
            None => None,
        }
    } else if k == ("additionalProperties").spec_bytes() {
        match v {
            JsonV::Bool(b) => Some((PropV { additional_properties: Some(b), ..acc }, saw_ty)),
            _ => None,
        }
    } else {
        Some((acc, saw_ty))
    }
}

/// All members of a property node folded in order into `acc`.
pub open spec fn spec_prop_fields(
    m: Seq<(Seq<u8>, JsonV)>,
    acc: PropV,
    saw_ty: bool,
) -> Option<(PropV, bool)>
    decreases m, 0int,
{
    if m.len() == 0 {
        Some((acc, saw_ty))
    } else {
        match spec_prop_field(m[0].0, m[0].1, acc, saw_ty) {
            Some((acc2, saw2)) => spec_prop_fields(m.drop_first(), acc2, saw2),
            None => None,
        }
    }
}

/// The property node a JSON value describes: it must be an object
/// whose recognized members are well-shaped and whose `type` member is
/// present.
pub open spec fn spec_prop_of(j: JsonV) -> Option<PropV>
    decreases j, 0int,
{
    match j {
        JsonV::Obj(m) => match spec_prop_fields(m, spec_empty_prop(), false) {
            Some((p, saw)) => if saw {
                Some(p)
            } else {
                None
            },
            None => None,
        },
        _ => None,
    }
}

/// The named property nodes a JSON object's members describe, in
/// member order.
pub open spec fn spec_props_of(mm: Seq<(Seq<u8>, JsonV)>) -> Option<Seq<(Seq<u8>, PropV)>>
    decreases mm, 0int,
{
    if mm.len() == 0 {
        Some(Seq::empty())
    } else {
        match spec_prop_of(mm[0].1) {
            Some(p) => match spec_props_of(mm.drop_first()) {
                Some(rest) => Some(seq![(mm[0].0, p)] + rest),
                None => None,
            },
            None => None,
        }
    }
}

#[verifier::rlimit(100)]
#[verifier::spinoff_prover]
fn prop_field_step(k: &Vec<u8>, v: &Json, acc: SchemaProperty, saw_ty: bool) -> (r: Option<
    (SchemaProperty, bool),
>)
    ensures
        match spec_prop_field(k@, v.deep_view(), acc.deep_view(), saw_ty) {
            Some((p2, s2)) => r matches Some(rp) && rp.0.deep_view() == p2 && rp.1 == s2,
            None => r is None,
        },
    decreases v, 1int,
{
    proof {
        lemma_prop_deep_view(acc);
    }
    if bytes_eq_slice(k, ("type").as_bytes()) {
        match v {
            Json::Str(s) => match tag_of(s) {
                Some(t) => {
                    let acc2 = SchemaProperty { ty: t, ..acc };
                    proof {
                        lemma_prop_deep_view(acc2);
                    }
                    Some((acc2, true))
                },
                None => None,
            },
            _ => None,
        }
    } else if bytes_eq_slice(k, ("enum").as_bytes()) {
        match str_list_of(v) {
            Some(l) => {
                let acc2 = SchemaProperty { enum_values: Some(l), ..acc };
                proof {
                    lemma_prop_deep_view(acc2);
                }
                Some((acc2, saw_ty))
            },
            None => None,
        }
    } else if bytes_eq_slice(k, ("minLength").as_bytes()) {
        match v {
            Json::Int(n) => if *n >= 0 {
                let acc2 = SchemaProperty { min_length: Some(*n as u64), ..acc };
                proof {
                    lemma_prop_deep_view(acc2);
                }
                Some((acc2, saw_ty))
            } else {
                None
            },
            _ => None,
        }
    } else if bytes_eq_slice(k, ("maxLength").as_bytes()) {
        match v {
            Json::Int(n) => if *n >= 0 {
                let acc2 = SchemaProperty { max_length: Some(*n as u64), ..acc };
                proof {
                    lemma_prop_deep_view(acc2);
                }
                Some((acc2, saw_ty))
            } else {
                None
            },
            _ => None,
        }
    } else if bytes_eq_slice(k, ("pattern").as_bytes()) {
        match v {
            Json::Str(s) => {
                let cl = clone_bytes(s);
                proof {
                    crate::json::lemma_bytes_deep_view(cl);
                }
                let acc2 = SchemaProperty { pattern: Some(cl), ..acc };
                proof {
                    lemma_prop_deep_view(acc2);
                }
                Some((acc2, saw_ty))
            },
            _ => None,
        }
    } else if bytes_eq_slice(k, ("format").as_bytes()) {
        match v {
            Json::Str(s) => {
                let cl = clone_bytes(s);
                proof {
                    crate::json::lemma_bytes_deep_view(cl);
                }
                let acc2 = SchemaProperty { format: Some(cl), ..acc };
                proof {
                    lemma_prop_deep_view(acc2);
                }
                Some((acc2, saw_ty))
            },
            _ => None,
        }
    } else if bytes_eq_slice(k, ("items").as_bytes()) {
        match prop_of_json(v) {
            Some(p) => {
                let ghost pv = p.deep_view();
                let mut one: Vec<SchemaProperty> = Vec::new();
                one.push(p);
                assert(one@ =~= seq![one@[0]]);
                let acc2 = SchemaProperty { items: one, ..acc };
                proof {
                    lemma_prop_deep_view(acc2);
                    assert(acc2.items.deep_view() =~= seq![pv]);
                }
                Some((acc2, saw_ty))
            },
            None => None,
        }
    } else if bytes_eq_slice(k, ("minItems").as_bytes()) {
        match v {
            Json::Int(n) => if *n >= 0 {
                let acc2 = SchemaProperty { min_items: Some(*n as u64), ..acc };
                proof {
                    lemma_prop_deep_view(acc2);
                }
                Some((acc2, saw_ty))
            } else {
                None
            },
            _ => None,
        }
    } else if bytes_eq_slice(k, ("maxItems").as_bytes()) {
        match v {
            Json::Int(n) => if *n >= 0 {
                let acc2 = SchemaProperty { max_items: Some(*n as u64), ..acc };
                proof {
                    lemma_prop_deep_view(acc2);
                }
                Some((acc2, saw_ty))
            } else {
                None
            },
            _ => None,
        }
    } else if bytes_eq_slice(k, ("uniqueItems").as_bytes()) {
        match v {
            Json::Bool(b) => {
                let acc2 = SchemaProperty { unique_items: Some(*b), ..acc };
                proof {
                    lemma_prop_deep_view(acc2);
                }
                Some((acc2, saw_ty))
            },
            _ => None,
        }
    } else if bytes_eq_slice(k, ("properties").as_bytes()) {
        match v {
            Json::Obj(mm) => {
                proof {
                    crate::json::lemma_json_obj_deep_view(*mm);
                }
                assert(v.deep_view() == JsonV::Obj(mm.deep_view()));
                let mut out: Vec<(Vec<u8>, SchemaProperty)> = Vec::new();
                assert(out.deep_view() =~= Seq::<(Seq<u8>, PropV)>::empty());
                assert(mm.deep_view().skip(0) =~= mm.deep_view());
                if props_of_json(mm, 0, &mut out) {
                    proof {
                        let ps = spec_props_of(mm.deep_view())->Some_0;
                        assert(out.deep_view() =~= ps);
                    }
                    let acc2 = SchemaProperty { properties: Some(out), ..acc };
                    proof {
                        lemma_prop_deep_view(acc2);
                    }
                    Some((acc2, saw_ty))
                } else {
                    None
                }
            },
            _ => None,
        }
    } else if bytes_eq_slice(k, ("required").as_bytes()) {
        match str_list_of(v) {
            Some(l) => {
                let acc2 = SchemaProperty { required: Some(l), ..acc };
                proof {
                    lemma_prop_deep_view(acc2);
                }
                Some((acc2, saw_ty))
            },
            None => None,
        }
    } else if bytes_eq_slice(k, ("additionalProperties").as_bytes()) {
        match v {
            Json::Bool(b) => {
                let acc2 = SchemaProperty { additional_properties: Some(*b), ..acc };
                proof {
                    lemma_prop_deep_view(acc2);
                }
                Some((acc2, saw_ty))
            },
            _ => None,
        }
    } else {
        Some((acc, saw_ty))
    }
}

fn prop_fields_from(
    m: &Vec<(Vec<u8>, Json)>,
    i: usize,
    acc: SchemaProperty,
    saw_ty: bool,
) -> (r: Option<(SchemaProperty, bool)>)
    requires
        i <= m.len(),
    ensures
        match spec_prop_fields(m.deep_view().skip(i as int), acc.deep_view(), saw_ty) {
            Some((p2, s2)) => r matches Some(rp) && rp.0.deep_view() == p2 && rp.1 == s2,
            None => r is None,
        },
    decreases m, m.len() - i,
{
    assert(m.deep_view().len() == m.len());
    if i == m.len() {
        assert(m.deep_view().skip(i as int) =~= Seq::<(Seq<u8>, JsonV)>::empty());
        Some((acc, saw_ty))
    } else {
        assert(m.deep_view().skip(i as int)[0] == m.deep_view()[i as int]);
        assert(m.deep_view().skip(i as int).drop_first() =~= m.deep_view().skip(i as int + 1));
        assert(m.deep_view()[i as int] == (m@[i as int].0@, m@[i as int].1.deep_view()));
        match prop_field_step(&m[i].0, &m[i].1, acc, saw_ty) {
            Some((acc2, saw2)) => prop_fields_from(m, i + 1, acc2, saw2),
            None => None,
        }
    }
}

/// The property node a parsed JSON value describes, exactly as
/// [`spec_prop_of`] states it; `None` is the shape error.
pub fn prop_of_json(j: &Json) -> (r: Option<SchemaProperty>)
    ensures
        match r {
            Some(p) => spec_prop_of(j.deep_view()) == Some(p.deep_view()),
            None => spec_prop_of(j.deep_view()) is None,
        },
    decreases j, 0int,
{
    match j {
        Json::Obj(m) => {
            proof {
                crate::json::lemma_json_obj_deep_view(*m);
            }
            assert(j.deep_view() == JsonV::Obj(m.deep_view()));
            let acc = empty_property();
            assert(m.deep_view().skip(0) =~= m.deep_view());
            match prop_fields_from(m, 0, acc, false) {
                Some((p, saw)) => if saw {
                    Some(p)
                } else {
                    None
                },
                None => None,
            }
        },
        _ => None,
    }
}

fn props_of_json(
    mm: &Vec<(Vec<u8>, Json)>,
    i: usize,
    out: &mut Vec<(Vec<u8>, SchemaProperty)>,
) -> (ok: bool)
    requires
        i <= mm.len(),
    ensures
        match spec_props_of(mm.deep_view().skip(i as int)) {
            Some(ps) => ok && final(out).deep_view() == old(out).deep_view() + ps,
            None => !ok,
        },
    decreases mm, mm.len() - i,
{
    assert(mm.deep_view().len() == mm.len());
    if i == mm.len() {
        assert(mm.deep_view().skip(i as int) =~= Seq::<(Seq<u8>, JsonV)>::empty());
        assert(out.deep_view() =~= out.deep_view() + Seq::<(Seq<u8>, PropV)>::empty());
        true
    } else {
        assert(mm.deep_view().skip(i as int)[0] == mm.deep_view()[i as int]);
        assert(mm.deep_view().skip(i as int).drop_first() =~= mm.deep_view().skip(i as int + 1));
        assert(mm.deep_view()[i as int] == (mm@[i as int].0@, mm@[i as int].1.deep_view()));
        match prop_of_json(&mm[i].1) {
            Some(p) => {
                let ghost prefix = out.deep_view();
                let ghost pv = p.deep_view();
                let key = clone_bytes(&mm[i].0);
                out.push((key, p));
                assert(out.deep_view() =~~= prefix + seq![(mm@[i as int].0@, pv)]);
                let ok = props_of_json(mm, i + 1, out);
                proof {
                    if ok {
                        match spec_props_of(mm.deep_view().skip(i as int + 1)) {
                            Some(rest) => {
                                assert(final(out).deep_view() =~~= prefix + (seq![
                                    (mm@[i as int].0@, pv),
                                ] + rest));
                            },
                            None => {},
                        }
                    }
                }
                ok
            },
            None => false,
        }
    }
}

/// The schema document with no members set; the placeholders are
/// overwritten when the mandatory members are read.
pub open spec fn spec_empty_schema() -> SchemaV {
    SchemaV {
        id: Seq::empty(),
        title: Seq::empty(),
        ty: SchemaTypeTag::Null,
        properties: Seq::empty(),
        required: Seq::empty(),
    }
}

fn empty_schema() -> (r: Schema)
    ensures
        r.deep_view() == spec_empty_schema(),
{
    let r = Schema {
        id: Vec::new(),
        title: Vec::new(),
        ty: SchemaTypeTag::Null,
        properties: Vec::new(),
        required: Vec::new(),
    };
    assert(r.id@ =~= Seq::<u8>::empty());
    assert(r.title@ =~= Seq::<u8>::empty());
    assert(r.properties.deep_view() =~= Seq::<(Seq<u8>, PropV)>::empty());
    assert(r.required.deep_view() =~= Seq::<Seq<u8>>::empty());
    r
}

/// The four mandatory members of a schema document, each recorded as
/// read once its value has been folded in.
#[derive(Debug, Clone, Copy, PartialEq, Eq, Structural)]
pub struct SawRoot {
    pub id: bool,
    pub title: bool,
    pub ty: bool,
    pub properties: bool,
}

/// One recognized member of a schema document folded into the
/// accumulated document `acc`; `saw` records which of the mandatory
/// members have been read.
pub open spec fn spec_schema_field(k: Seq<u8>, v: JsonV, acc: SchemaV, saw: SawRoot) -> Option<
    (SchemaV, SawRoot),
> {
    if k == ("id").spec_bytes() {
        match v {
            JsonV::Str(s) => Some(
                (SchemaV { id: s, ..acc }, SawRoot { id: true, ..saw }),
            ),
            _ => None,
        }
    } else if k == ("title").spec_bytes() {
        match v {
            JsonV::Str(s) => Some(
                (SchemaV { title: s, ..acc }, SawRoot { title: true, ..saw }),
            ),
            _ => None,
        }
    } else if k == ("type").spec_bytes() {
        match v {
            JsonV::Str(s) => match spec_tag_of(s) {
                Some(t) => Some((SchemaV { ty: t, ..acc }, SawRoot { ty: true, ..saw })),
                None => None,
            },
            _ => None,
        }
    } else if k == ("properties").spec_bytes() {
        match v {
            JsonV::Obj(mm) => match spec_props_of(mm) {
                Some(ps) => Some(
                    (SchemaV { properties: ps, ..acc }, SawRoot { properties: true, ..saw }),
                ),
                None => None,
            },
            _ => None,
        }
    } else if k == ("required").spec_bytes() {
        match spec_str_list(v) {
            Some(l) => Some((SchemaV { required: l, ..acc }, saw)),
            None => None,
        }
    } else {
        Some((acc, saw))
    }
}

/// All members of a schema document folded in order into `acc`.
pub open spec fn spec_schema_fields(
    m: Seq<(Seq<u8>, JsonV)>,
    acc: SchemaV,
    saw: SawRoot,
) -> Option<(SchemaV, SawRoot)>
    decreases m,
{
    if m.len() == 0 {
        Some((acc, saw))
    } else {
        match spec_schema_field(m[0].0, m[0].1, acc, saw) {
            Some((acc2, saw2)) => spec_schema_fields(m.drop_first(), acc2, saw2),
            None => None,
        }
    }
}

/// No mandatory member read yet.
pub open spec fn spec_saw_none() -> SawRoot {
    SawRoot { id: false, title: false, ty: false, properties: false }
}

/// The schema document a JSON value describes: it must be an object
/// whose recognized members are well-shaped and whose `id`, `title`,
/// `type` and `properties` members are all present.
pub open spec fn spec_schema_of(j: JsonV) -> Option<SchemaV> {
    match j {
        JsonV::Obj(m) => match spec_schema_fields(m, spec_empty_schema(), spec_saw_none()) {
            Some((sv, saw)) => if saw.id && saw.title && saw.ty && saw.properties {
                Some(sv)
            } else {
                None
            },
            None => None,
        },
        _ => None,
    }
}

#[verifier::rlimit(100)]
#[verifier::spinoff_prover]
fn schema_field_step(k: &Vec<u8>, v: &Json, acc: Schema, saw: SawRoot) -> (r: Option<
    (Schema, SawRoot),
>)
    ensures
        match spec_schema_field(k@, v.deep_view(), acc.deep_view(), saw) {
            Some((a2, saw2)) => r matches Some(ra) && ra.0.deep_view() == a2 && ra.1 == saw2,
            None => r is None,
        },
{
    if bytes_eq_slice(k, ("id").as_bytes()) {
        match v {
            Json::Str(s) => Some(
                (Schema { id: clone_bytes(s), ..acc }, SawRoot { id: true, ..saw }),
            ),
            _ => None,
        }
    } else if bytes_eq_slice(k, ("title").as_bytes()) {
        match v {
            Json::Str(s) => Some(
                (Schema { title: clone_bytes(s), ..acc }, SawRoot { title: true, ..saw }),
            ),
            _ => None,
        }
    } else if bytes_eq_slice(k, ("type").as_bytes()) {
        match v {
            Json::Str(s) => match tag_of(s) {
                Some(t) => Some((Schema { ty: t, ..acc }, SawRoot { ty: true, ..saw })),
                None => None,
            },
            _ => None,
        }
    } else if bytes_eq_slice(k, ("properties").as_bytes()) {
        match v {
            Json::Obj(mm) => {
                proof {
                    crate::json::lemma_json_obj_deep_view(*mm);
                }
                assert(v.deep_view() == JsonV::Obj(mm.deep_view()));
                let mut out: Vec<(Vec<u8>, SchemaProperty)> = Vec::new();
                assert(out.deep_view() =~= Seq::<(Seq<u8>, PropV)>::empty());
                assert(mm.deep_view().skip(0) =~= mm.deep_view());
                if props_of_json(mm, 0, &mut out) {
                    proof {
                        let ps = spec_props_of(mm.deep_view())->Some_0;
                        assert(out.deep_view() =~= ps);
                    }
                    Some(
                        (
                            Schema { properties: out, ..acc },
                            SawRoot { properties: true, ..saw },
                        ),
                    )
                } else {
                    None
                }
            },
            _ => None,
        }
    } else if bytes_eq_slice(k, ("required").as_bytes()) {
        match str_list_of(v) {
            Some(l) => Some((Schema { required: l, ..acc }, saw)),
            None => None,
        }
    } else {
        Some((acc, saw))
    }
}

fn schema_fields_from(m: &Vec<(Vec<u8>, Json)>, i: usize, acc: Schema, saw: SawRoot) -> (r:
    Option<(Schema, SawRoot)>)
    requires
        i <= m.len(),
    ensures
        match spec_schema_fields(m.deep_view().skip(i as int), acc.deep_view(), saw) {
            Some((a2, saw2)) => r matches Some(ra) && ra.0.deep_view() == a2 && ra.1 == saw2,
            None => r is None,
        },
    decreases m.len() - i,
{
    assert(m.deep_view().len() == m.len());
    if i == m.len() {
        assert(m.deep_view().skip(i as int) =~= Seq::<(Seq<u8>, JsonV)>::empty());
        Some((acc, saw))
    } else {
        assert(m.deep_view().skip(i as int)[0] == m.deep_view()[i as int]);
        assert(m.deep_view().skip(i as int).drop_first() =~= m.deep_view().skip(i as int + 1));
        assert(m.deep_view()[i as int] == (m@[i as int].0@, m@[i as int].1.deep_view()));
        match schema_field_step(&m[i].0, &m[i].1, acc, saw) {
            Some((acc2, saw2)) => schema_fields_from(m, i + 1, acc2, saw2),
            None => None,
        }
    }
}

/// The schema document a parsed JSON value describes, exactly as
/// [`spec_schema_of`] states it; `None` is the shape error.
pub fn schema_of_json(j: &Json) -> (r: Option<Schema>)
    ensures
        match r {
            Some(s) => spec_schema_of(j.deep_view()) == Some(s.deep_view()),
            None => spec_schema_of(j.deep_view()) is None,
        },
{
    match j {
        Json::Obj(m) => {
            proof {
                crate::json::lemma_json_obj_deep_view(*m);
            }
            assert(j.deep_view() == JsonV::Obj(m.deep_view()));
            let acc = empty_schema();
            assert(m.deep_view().skip(0) =~= m.deep_view());
            let saw0 = SawRoot { id: false, title: false, ty: false, properties: false };
            match schema_fields_from(m, 0, acc, saw0) {
                Some((s, saw)) => if saw.id && saw.title && saw.ty && saw.properties {
                    Some(s)
                } else {
                    None
                },
                None => None,
            }
        },
        _ => None,
    }
}

/// Parse one schema file's contents: the trusted JSON parse followed
/// by the verified document mapping. The error carries the offending
/// file's path.
pub fn parse_schema(path: &Vec<u8>, content: &[u8]) -> (r: Result<Schema, CompileError>)
    ensures
        match crate::json::json_parse_spec(content@) {
            Some(jv) => match spec_schema_of(jv) {
                Some(sv) => r matches Ok(s) && s.deep_view() == sv,
                None => r matches Err(e) && e.deep_view() == (ErrV::InvalidSchema {
                    path: path@,
                }),
            },
            None => r matches Err(e) && e.deep_view() == (ErrV::InvalidSchema { path: path@ }),
        },
{
    match crate::json::parse_json(content) {
        Some(j) => match schema_of_json(&j) {
            Some(s) => Ok(s),
            None => Err(CompileError::InvalidSchema { path: clone_bytes(path) }),
        },
        None => Err(CompileError::InvalidSchema { path: clone_bytes(path) }),
    }
}

} // verus!
