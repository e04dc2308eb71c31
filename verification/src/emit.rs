//! The code emitter: serializes the accumulated struct and enum
//! definitions into one compilation unit, prefixed by the imports the
//! generated types need. The emitted text is stated byte-for-byte by
//! the `spec_emit_*` functions, so the output is a deterministic
//! function of the definition set.

use vstd::prelude::*;
use vstd::string::*;
use vstd::slice::slice_index_get;
use crate::compile::{
    Definition, DefV, FieldV, MemberV, TypeRefV, TypeRef, FieldDef, EnumMember,
};

verus! {

broadcast use
    vstd::std_specs::vec::axiom_vec_index_decreases,
    vstd::seq::axiom_seq_index_decreases,
    vstd::seq::axiom_seq_subrange_decreases;

fn push_str_bytes(out: &mut Vec<u8>, s: &str)
    ensures
        final(out)@ == old(out)@ + s.spec_bytes(),
{
    let b = s.as_bytes();
    let mut i: usize = 0;
    while i < b.len()
        invariant
            i <= b.len(),
            b@ == s.spec_bytes(),
            out@ == old(out)@ + b@.take(i as int),
        decreases b.len() - i,
    {
        out.push(*slice_index_get(b, i));
        assert(out@ =~= old(out)@ + b@.take(i as int + 1));
        i = i + 1;
    }
    assert(old(out)@ + b@.take(b@.len() as int) =~= old(out)@ + b@);
}

fn push_bytes(out: &mut Vec<u8>, v: &Vec<u8>)
    ensures
        final(out)@ == old(out)@ + v@,
{
    let mut i: usize = 0;
    while i < v.len()
        invariant
            i <= v.len(),
            out@ == old(out)@ + v@.take(i as int),
        decreases v.len() - i,
    {
        out.push(v[i]);
        assert(out@ =~= old(out)@ + v@.take(i as int + 1));
        i = i + 1;
    }
    assert(old(out)@ + v@.take(v@.len() as int) =~= old(out)@ + v@);
}

/// The decimal notation of a number, most significant digit first.
pub open spec fn spec_dec(n: u64) -> Seq<u8>
    decreases n,
{
    if n < 10 {
        seq![(48 + n) as u8]
    } else {
        spec_dec(n / 10) + seq![(48 + n % 10) as u8]
    }
}

fn push_dec(out: &mut Vec<u8>, n: u64)
    ensures
        final(out)@ == old(out)@ + spec_dec(n),
    decreases n,
{
    if n < 10 {
        out.push(48 + (n as u8));
        assert(out@ =~= old(out)@ + spec_dec(n));
    } else {
        push_dec(out, n / 10);
        out.push(48 + ((n % 10) as u8));
        assert(out@ =~= old(out)@ + (spec_dec(n / 10) + seq![(48 + n % 10) as u8]));
    }
}

/// The text of a type reference.
pub open spec fn spec_type_text(t: TypeRefV) -> Seq<u8> {
    match t {
        TypeRefV::Bool => ("bool").spec_bytes(),
        TypeRefV::Int => ("i32").spec_bytes(),
        TypeRefV::Str => ("String").spec_bytes(),
        TypeRefV::DateTime => ("chrono::DateTime<chrono::Utc>").spec_bytes(),
        TypeRefV::Uri => ("url::Url").spec_bytes(),
        TypeRefV::Named(n) => n,
        TypeRefV::ListNamed(n) => ("Vec<").spec_bytes() + n + (">").spec_bytes(),
        TypeRefV::ListStr => ("Vec<String>").spec_bytes(),
    }
}

/// The text of a field's type: the optionality marker wraps the type
/// of every field that is not required.
pub open spec fn spec_field_type_text(f: FieldV) -> Seq<u8> {
    if f.required {
        spec_type_text(f.ty)
    } else {
        ("Option<").spec_bytes() + spec_type_text(f.ty) + (">").spec_bytes()
    }
}

/// The validation attribute of a field, from its effective
/// string-length bounds; empty when there are none.
pub open spec fn spec_validate_attr(f: FieldV) -> Seq<u8> {
    match (f.min_length, f.max_length) {
        (None, None) => Seq::empty(),
        (Some(mn), None) => ("    #[validate(length(min = ").spec_bytes() + spec_dec(mn) + (
        "))]\n").spec_bytes(),
        (None, Some(mx)) => ("    #[validate(length(max = ").spec_bytes() + spec_dec(mx) + (
        "))]\n").spec_bytes(),
        (Some(mn), Some(mx)) => ("    #[validate(length(min = ").spec_bytes() + spec_dec(mn)
            + (", max = ").spec_bytes() + spec_dec(mx) + ("))]\n").spec_bytes(),
    }
}

/// The emitted text of one field. The raw-identifier prefix keeps a
/// field whose name is a keyword of the target language valid.
pub open spec fn spec_emit_field(f: FieldV) -> Seq<u8> {
    spec_validate_attr(f) + ("    pub r#").spec_bytes() + f.name + (": ").spec_bytes()
        + spec_field_type_text(f) + (",\n").spec_bytes()
}

/// The emitted text of a struct's fields, in order.
pub open spec fn spec_emit_fields(fs: Seq<FieldV>) -> Seq<u8>
    decreases fs,
{
    if fs.len() == 0 {
        Seq::empty()
    } else {
        spec_emit_field(fs[0]) + spec_emit_fields(fs.drop_first())
    }
}

/// The emitted text of one enum member; a recorded wire value becomes
/// an explicit rename attribute.
pub open spec fn spec_emit_member(m: MemberV) -> Seq<u8> {
    (match m.rename {
        Some(l) => ("    #[serde(rename = \"").spec_bytes() + l + ("\")]\n").spec_bytes(),
        None => Seq::empty(),
    }) + ("    ").spec_bytes() + m.ident + (",\n").spec_bytes()
}

/// The emitted text of an enum's members, in order.
pub open spec fn spec_emit_members(ms: Seq<MemberV>) -> Seq<u8>
    decreases ms,
{
    if ms.len() == 0 {
        Seq::empty()
    } else {
        spec_emit_member(ms[0]) + spec_emit_members(ms.drop_first())
    }
}

/// The emitted text of one definition.
pub open spec fn spec_emit_def(d: DefV) -> Seq<u8> {
    match d {
        DefV::Struct { name, fields } => (
        "#[derive(Debug, Clone, Serialize, Deserialize, Validate)]\npub struct ").spec_bytes()
            + name + (" {\n").spec_bytes() + spec_emit_fields(fields) + ("}\n\n").spec_bytes(),
        DefV::Enum { name, members } => (
        "#[derive(Debug, Copy, Clone, Serialize, Deserialize)]\npub enum ").spec_bytes() + name
            + (" {\n").spec_bytes() + spec_emit_members(members) + ("}\n\n").spec_bytes(),
    }
}

/// The emitted text of the whole definition set, in accumulation
/// order.
pub open spec fn spec_emit_defs(ds: Seq<DefV>) -> Seq<u8>
    decreases ds,
{
    if ds.len() == 0 {
        Seq::empty()
    } else {
        spec_emit_def(ds[0]) + spec_emit_defs(ds.drop_first())
    }
}

/// The imports the generated types need.
pub open spec fn spec_header() -> Seq<u8> {
    ("use serde::{Deserialize, Serialize};\nuse validator::Validate;\n\n").spec_bytes()
}

/// One compilation unit: the header followed by every definition.
pub open spec fn spec_emit_unit(ds: Seq<DefV>) -> Seq<u8> {
    spec_header() + spec_emit_defs(ds)
}

fn push_type_text(out: &mut Vec<u8>, t: &TypeRef)
    ensures
        final(out)@ == old(out)@ + spec_type_text(t.deep_view()),
{
    match t {
        TypeRef::Bool => push_str_bytes(out, "bool"),
        TypeRef::Int => push_str_bytes(out, "i32"),
        TypeRef::Str => push_str_bytes(out, "String"),
        TypeRef::DateTime => push_str_bytes(out, "chrono::DateTime<chrono::Utc>"),
        TypeRef::Uri => push_str_bytes(out, "url::Url"),
        TypeRef::Named(n) => push_bytes(out, n),
        TypeRef::ListNamed(n) => {
            let ghost pre = out@;
            push_str_bytes(out, "Vec<");
            push_bytes(out, n);
            push_str_bytes(out, ">");
            assert(out@ =~= pre + (("Vec<").spec_bytes() + n@ + (">").spec_bytes()));
        },
        TypeRef::ListStr => push_str_bytes(out, "Vec<String>"),
    }
}

fn emit_field(out: &mut Vec<u8>, f: &FieldDef)
    ensures
        final(out)@ == old(out)@ + spec_emit_field(f.deep_view()),
{
    let ghost pre = out@;
    match (f.min_length, f.max_length) {
        (None, None) => {},
        (Some(mn), None) => {
            push_str_bytes(out, "    #[validate(length(min = ");
            push_dec(out, mn);
            push_str_bytes(out, "))]\n");
        },
        (None, Some(mx)) => {
            push_str_bytes(out, "    #[validate(length(max = ");
            push_dec(out, mx);
            push_str_bytes(out, "))]\n");
        },
        (Some(mn), Some(mx)) => {
            push_str_bytes(out, "    #[validate(length(min = ");
            push_dec(out, mn);
            push_str_bytes(out, ", max = ");
            push_dec(out, mx);
            push_str_bytes(out, "))]\n");
        },
    }
    assert(out@ =~= pre + spec_validate_attr(f.deep_view()));
    let ghost mid = out@;
    push_str_bytes(out, "    pub r#");
    push_bytes(out, &f.name);
    push_str_bytes(out, ": ");
    if f.required {
        push_type_text(out, &f.ty);
    } else {
        push_str_bytes(out, "Option<");
        push_type_text(out, &f.ty);
        push_str_bytes(out, ">");
        assert(out@ =~= mid + ("    pub r#").spec_bytes() + f.name@ + (": ").spec_bytes() + (("Option<").spec_bytes() + spec_type_text(f.deep_view().ty) + (">").spec_bytes()));
    }
    push_str_bytes(out, ",\n");
    assert(out@ =~= pre + spec_emit_field(f.deep_view()));
}

fn emit_fields_from(out: &mut Vec<u8>, fs: &Vec<FieldDef>, i: usize)
    requires
        i <= fs.len(),
    ensures
        final(out)@ == old(out)@ + spec_emit_fields(fs.deep_view().skip(i as int)),
    decreases fs.len() - i,
{
    assert(fs.deep_view().len() == fs.len());
    if i == fs.len() {
        assert(fs.deep_view().skip(i as int) =~= Seq::<FieldV>::empty());
        assert(out@ =~= out@ + Seq::<u8>::empty());
    } else {
        assert(fs.deep_view().skip(i as int)[0] == fs.deep_view()[i as int]);
        assert(fs.deep_view().skip(i as int).drop_first() =~= fs.deep_view().skip(i as int + 1));
        assert(fs.deep_view()[i as int] == fs@[i as int].deep_view());
        let ghost pre = out@;
        emit_field(out, &fs[i]);
        emit_fields_from(out, fs, i + 1);
        assert(final(out)@ =~= pre + (spec_emit_field(fs.deep_view()[i as int])
            + spec_emit_fields(fs.deep_view().skip(i as int + 1))));
    }
}

fn emit_member(out: &mut Vec<u8>, m: &EnumMember)
    ensures
        final(out)@ == old(out)@ + spec_emit_member(m.deep_view()),
{
    let ghost pre = out@;
    match &m.rename {
        Some(l) => {
            proof {
                crate::json::lemma_bytes_deep_view(*l);
            }
            push_str_bytes(out, "    #[serde(rename = \"");
            push_bytes(out, l);
            push_str_bytes(out, "\")]\n");
            assert(out@ =~= pre + (("    #[serde(rename = \"").spec_bytes() + l@ + (
            "\")]\n").spec_bytes()));
        },
        None => {
            assert(out@ =~= pre + Seq::<u8>::empty());
        },
    }
    push_str_bytes(out, "    ");
    push_bytes(out, &m.ident);
    push_str_bytes(out, ",\n");
    assert(out@ =~= pre + spec_emit_member(m.deep_view()));
}

fn emit_members_from(out: &mut Vec<u8>, ms: &Vec<EnumMember>, i: usize)
    requires
        i <= ms.len(),
    ensures
        final(out)@ == old(out)@ + spec_emit_members(ms.deep_view().skip(i as int)),
    decreases ms.len() - i,
{
    assert(ms.deep_view().len() == ms.len());
    if i == ms.len() {
        assert(ms.deep_view().skip(i as int) =~= Seq::<MemberV>::empty());
        assert(out@ =~= out@ + Seq::<u8>::empty());
    } else {
        assert(ms.deep_view().skip(i as int)[0] == ms.deep_view()[i as int]);
        assert(ms.deep_view().skip(i as int).drop_first() =~= ms.deep_view().skip(i as int + 1));
        assert(ms.deep_view()[i as int] == ms@[i as int].deep_view());
        let ghost pre = out@;
        emit_member(out, &ms[i]);
        emit_members_from(out, ms, i + 1);
        assert(final(out)@ =~= pre + (spec_emit_member(ms.deep_view()[i as int])
            + spec_emit_members(ms.deep_view().skip(i as int + 1))));
    }
}

fn emit_def(out: &mut Vec<u8>, d: &Definition)
    ensures
        final(out)@ == old(out)@ + spec_emit_def(d.deep_view()),
{
    let ghost pre = out@;
    match d {
        Definition::Struct(s) => {
            push_str_bytes(out, "#[derive(Debug, Clone, Serialize, Deserialize, Validate)]\npub struct ");
            push_bytes(out, &s.name);
            push_str_bytes(out, " {\n");
            assert(s.fields.deep_view().skip(0) =~= s.fields.deep_view());
            emit_fields_from(out, &s.fields, 0);
            push_str_bytes(out, "}\n\n");
            assert(out@ =~= pre + spec_emit_def(d.deep_view()));
        },
        Definition::Enum(e) => {
            push_str_bytes(out, "#[derive(Debug, Copy, Clone, Serialize, Deserialize)]\npub enum ");
            push_bytes(out, &e.name);
            push_str_bytes(out, " {\n");
            assert(e.members.deep_view().skip(0) =~= e.members.deep_view());
            emit_members_from(out, &e.members, 0);
            push_str_bytes(out, "}\n\n");
            assert(out@ =~= pre + spec_emit_def(d.deep_view()));
        },
    }
}

fn emit_defs_from(out: &mut Vec<u8>, ds: &Vec<Definition>, i: usize)
    requires
        i <= ds.len(),
    ensures
        final(out)@ == old(out)@ + spec_emit_defs(ds.deep_view().skip(i as int)),
    decreases ds.len() - i,
{
    assert(ds.deep_view().len() == ds.len());
    if i == ds.len() {
        assert(ds.deep_view().skip(i as int) =~= Seq::<DefV>::empty());
        assert(out@ =~= out@ + Seq::<u8>::empty());
    } else {
        assert(ds.deep_view().skip(i as int)[0] == ds.deep_view()[i as int]);
        assert(ds.deep_view().skip(i as int).drop_first() =~= ds.deep_view().skip(i as int + 1));
        assert(ds.deep_view()[i as int] == ds@[i as int].deep_view());
        let ghost pre = out@;
        emit_def(out, &ds[i]);
        emit_defs_from(out, ds, i + 1);
        assert(final(out)@ =~= pre + (spec_emit_def(ds.deep_view()[i as int]) + spec_emit_defs(
            ds.deep_view().skip(i as int + 1),
        )));
    }
}

/// Serialize the whole definition set into one compilation unit, as
/// [`spec_emit_unit`] states, byte for byte.
pub fn emit_unit(defs: &Vec<Definition>) -> (r: Vec<u8>)
    ensures
        r@ == spec_emit_unit(defs.deep_view()),
{
    let mut out: Vec<u8> = Vec::new();
    assert(out@ =~= Seq::<u8>::empty());
    push_str_bytes(&mut out, "use serde::{Deserialize, Serialize};\nuse validator::Validate;\n\n");
    assert(defs.deep_view().skip(0) =~= defs.deep_view());
    let ghost pre = out@;
    assert(pre =~= Seq::<u8>::empty() + spec_header());
    emit_defs_from(&mut out, defs, 0);
    assert(out@ =~= spec_header() + spec_emit_defs(defs.deep_view()));
    out
}

} // verus!
