//! The type compiler: recursive descent over the schema AST,
//! synthesizing one struct definition per object node and one enum
//! definition per inline string-enum node, bottom-up, into a flat
//! accumulator of definitions keyed by derived name.

use vstd::prelude::*;
use vstd::string::*;
use crate::json::{bytes_eq, lemma_bytes_deep_view};
use crate::schema::{
    Schema, SchemaProperty, SchemaTypeTag, PropV, lemma_prop_deep_view, clone_bytes,
};
use crate::error::{CompileError, ErrV};
use crate::ident::{
    spec_type_ident, spec_field_ident, spec_nested_name, to_type_identifier, to_field_identifier,
    nested_type_name,
};

verus! {

broadcast use
    vstd::std_specs::vec::axiom_vec_index_decreases,
    vstd::std_specs::vec::axiom_vec_decreases_to_view,
    vstd::seq::axiom_seq_index_decreases,
    vstd::seq::axiom_seq_subrange_decreases;

/// A field's type reference: a primitive, a timestamp or URI, a named
/// struct or enum, or a sequence of strings or of a named struct.
#[derive(Debug, PartialEq, Eq)]
pub enum TypeRef {
    Bool,
    Int,
    Str,
    DateTime,
    Uri,
    Named(Vec<u8>),
    ListNamed(Vec<u8>),
    ListStr,
}

/// The mathematical model of a [`TypeRef`].
pub enum TypeRefV {
    Bool,
    Int,
    Str,
    DateTime,
    Uri,
    Named(Seq<u8>),
    ListNamed(Seq<u8>),
    ListStr,
}

impl DeepView for TypeRef {
    type V = TypeRefV;

    open spec fn deep_view(&self) -> TypeRefV {
        match self {
            TypeRef::Bool => TypeRefV::Bool,
            TypeRef::Int => TypeRefV::Int,
            TypeRef::Str => TypeRefV::Str,
            TypeRef::DateTime => TypeRefV::DateTime,
            TypeRef::Uri => TypeRefV::Uri,
            TypeRef::Named(n) => TypeRefV::Named(n@),
            TypeRef::ListNamed(n) => TypeRefV::ListNamed(n@),
            TypeRef::ListStr => TypeRefV::ListStr,
        }
    }
}

/// One field of a synthesized struct: sanitized name, type reference,
/// required flag, and the effective string-length bounds.
#[derive(Debug, PartialEq, Eq)]
pub struct FieldDef {
    pub name: Vec<u8>,
    pub ty: TypeRef,
    pub required: bool,
    pub min_length: Option<u64>,
    pub max_length: Option<u64>,
}

/// The mathematical model of a [`FieldDef`].
pub struct FieldV {
    pub name: Seq<u8>,
    pub ty: TypeRefV,
    pub required: bool,
    pub min_length: Option<u64>,
    pub max_length: Option<u64>,
}

impl DeepView for FieldDef {
    type V = FieldV;

    open spec fn deep_view(&self) -> FieldV {
        FieldV {
            name: self.name@,
            ty: self.ty.deep_view(),
            required: self.required,
            min_length: self.min_length,
            max_length: self.max_length,
        }
    }
}

/// One member of a synthesized enum: the sanitized identifier and,
/// where sanitization changed the literal, the original wire value.
#[derive(Debug, PartialEq, Eq)]
pub struct EnumMember {
    pub ident: Vec<u8>,
    pub rename: Option<Vec<u8>>,
}

/// The mathematical model of an [`EnumMember`].
pub struct MemberV {
    pub ident: Seq<u8>,
    pub rename: Option<Seq<u8>>,
}

impl DeepView for EnumMember {
    type V = MemberV;

    open spec fn deep_view(&self) -> MemberV {
        MemberV { ident: self.ident@, rename: self.rename.deep_view() }
    }
}

/// A synthesized struct definition.
#[derive(Debug, PartialEq, Eq)]
pub struct StructDef {
    pub name: Vec<u8>,
    pub fields: Vec<FieldDef>,
}

/// A synthesized enum definition.
#[derive(Debug, PartialEq, Eq)]
pub struct EnumDef {
    pub name: Vec<u8>,
    pub members: Vec<EnumMember>,
}

/// One emitted definition.
#[derive(Debug, PartialEq, Eq)]
pub enum Definition {
    Struct(StructDef),
    Enum(EnumDef),
}

/// The mathematical model of a [`Definition`].
pub enum DefV {
    Struct { name: Seq<u8>, fields: Seq<FieldV> },
    Enum { name: Seq<u8>, members: Seq<MemberV> },
}

impl DeepView for Definition {
    type V = DefV;

    open spec fn deep_view(&self) -> DefV {
        match self {
            Definition::Struct(s) => DefV::Struct {
                name: s.name@,
                fields: s.fields.deep_view(),
            },
            Definition::Enum(e) => DefV::Enum { name: e.name@, members: e.members.deep_view() },
        }
    }
}

/// The name a definition is registered under.
pub open spec fn def_name_v(d: DefV) -> Seq<u8> {
    match d {
        DefV::Struct { name, .. } => name,
        DefV::Enum { name, .. } => name,
    }
}

fn def_name_of<'a>(d: &'a Definition) -> (r: &'a Vec<u8>)
    ensures
        r@ == def_name_v(d.deep_view()),
{
    match d {
        Definition::Struct(s) => &s.name,
        Definition::Enum(e) => &e.name,
    }
}

fn opt_u64_eq(a: &Option<u64>, b: &Option<u64>) -> (r: bool)
    ensures
        r == (a == b),
{
    match (a, b) {
        (None, None) => true,
        (Some(x), Some(y)) => x == y,
        _ => false,
    }
}

fn opt_bytes_eq(a: &Option<Vec<u8>>, b: &Option<Vec<u8>>) -> (r: bool)
    ensures
        r == (a.deep_view() == b.deep_view()),
{
    match (a, b) {
        (None, None) => true,
        (Some(x), Some(y)) => {
            proof {
                lemma_bytes_deep_view(*x);
                lemma_bytes_deep_view(*y);
            }
            bytes_eq(x, y)
        },
        _ => false,
    }
}

fn typeref_eq(a: &TypeRef, b: &TypeRef) -> (r: bool)
    ensures
        r == (a.deep_view() == b.deep_view()),
{
    match (a, b) {
        (TypeRef::Bool, TypeRef::Bool) => true,
        (TypeRef::Int, TypeRef::Int) => true,
        (TypeRef::Str, TypeRef::Str) => true,
        (TypeRef::DateTime, TypeRef::DateTime) => true,
        (TypeRef::Uri, TypeRef::Uri) => true,
        (TypeRef::Named(x), TypeRef::Named(y)) => bytes_eq(x, y),
        (TypeRef::ListNamed(x), TypeRef::ListNamed(y)) => bytes_eq(x, y),
        (TypeRef::ListStr, TypeRef::ListStr) => true,
        _ => false,
    }
}

fn field_eq(a: &FieldDef, b: &FieldDef) -> (r: bool)
    ensures
        r == (a.deep_view() == b.deep_view()),
{
    bytes_eq(&a.name, &b.name) && typeref_eq(&a.ty, &b.ty) && a.required == b.required
        && opt_u64_eq(&a.min_length, &b.min_length) && opt_u64_eq(&a.max_length, &b.max_length)
}

fn fields_eq(a: &Vec<FieldDef>, b: &Vec<FieldDef>) -> (r: bool)
    ensures
        r == (a.deep_view() == b.deep_view()),
{
    assert(a.deep_view().len() == a.len());
    assert(b.deep_view().len() == b.len());
    if a.len() != b.len() {
        return false;
    }
    let mut i: usize = 0;
    while i < a.len()
        invariant
            i <= a.len(),
            a.len() == b.len(),
            a.deep_view().len() == a.len(),
            b.deep_view().len() == b.len(),
            forall|k: int| 0 <= k < i ==> a.deep_view()[k] == b.deep_view()[k],
        decreases a.len() - i,
    {
        if !field_eq(&a[i], &b[i]) {
            assert(a.deep_view()[i as int] != b.deep_view()[i as int]);
            return false;
        }
        assert(a.deep_view()[i as int] == b.deep_view()[i as int]);
        i = i + 1;
    }
    assert(a.deep_view() =~= b.deep_view());
    true
}

fn member_eq(a: &EnumMember, b: &EnumMember) -> (r: bool)
    ensures
        r == (a.deep_view() == b.deep_view()),
{
    bytes_eq(&a.ident, &b.ident) && opt_bytes_eq(&a.rename, &b.rename)
}

fn members_eq(a: &Vec<EnumMember>, b: &Vec<EnumMember>) -> (r: bool)
    ensures
        r == (a.deep_view() == b.deep_view()),
{
    assert(a.deep_view().len() == a.len());
    assert(b.deep_view().len() == b.len());
    if a.len() != b.len() {
        return false;
    }
    let mut i: usize = 0;
    while i < a.len()
        invariant
            i <= a.len(),
            a.len() == b.len(),
            a.deep_view().len() == a.len(),
            b.deep_view().len() == b.len(),
            forall|k: int| 0 <= k < i ==> a.deep_view()[k] == b.deep_view()[k],
        decreases a.len() - i,
    {
        if !member_eq(&a[i], &b[i]) {
            assert(a.deep_view()[i as int] != b.deep_view()[i as int]);
            return false;
        }
        assert(a.deep_view()[i as int] == b.deep_view()[i as int]);
        i = i + 1;
    }
    assert(a.deep_view() =~= b.deep_view());
    true
}

fn def_eq(a: &Definition, b: &Definition) -> (r: bool)
    ensures
        r == (a.deep_view() == b.deep_view()),
{
    match (a, b) {
        (Definition::Struct(x), Definition::Struct(y)) => bytes_eq(&x.name, &y.name) && fields_eq(
            &x.fields,
            &y.fields,
        ),
        (Definition::Enum(x), Definition::Enum(y)) => bytes_eq(&x.name, &y.name) && members_eq(
            &x.members,
            &y.members,
        ),
        _ => false,
    }
}

/// Fold one definition into the accumulated set, scanning from index
/// `i`: an unseen name is appended; an identical definition under a
/// seen name is dropped silently; a different definition under a seen
/// name is a naming collision (`None`).
pub open spec fn spec_register_from(defs: Seq<DefV>, i: int, d: DefV) -> Option<Seq<DefV>>
    decreases defs.len() - i,
{
    if i < 0 || i > defs.len() {
        None
    } else if i == defs.len() {
        Some(defs + seq![d])
    } else if def_name_v(defs[i]) == def_name_v(d) {
        if defs[i] == d {
            Some(defs)
        } else {
            None
        }
    } else {
        spec_register_from(defs, i + 1, d)
    }
}

/// Fold one definition into the accumulated set.
pub open spec fn spec_register(defs: Seq<DefV>, d: DefV) -> Option<Seq<DefV>> {
    spec_register_from(defs, 0, d)
}

fn register_from(defs: &mut Vec<Definition>, i: usize, d: Definition) -> (ok: bool)
    requires
        i <= old(defs).len(),
    ensures
        match spec_register_from(old(defs).deep_view(), i as int, d.deep_view()) {
            Some(ds) => ok && final(defs).deep_view() == ds,
            None => !ok && final(defs).deep_view() == old(defs).deep_view(),
        },
    decreases old(defs).len() - i,
{
    assert(defs.deep_view().len() == defs.len());
    if i == defs.len() {
        let ghost pre = defs.deep_view();
        let ghost dv = d.deep_view();
        defs.push(d);
        assert(defs.deep_view() =~= pre + seq![dv]);
        true
    } else if bytes_eq(def_name_of(&defs[i]), def_name_of(&d)) {
        def_eq(&defs[i], &d)
    } else {
        register_from(defs, i + 1, d)
    }
}

/// Fold one definition into the accumulated set, as [`spec_register`]
/// states; on a collision the set is unchanged and `false` comes back.
pub fn register_def(defs: &mut Vec<Definition>, d: Definition) -> (ok: bool)
    ensures
        match spec_register(old(defs).deep_view(), d.deep_view()) {
            Some(ds) => ok && final(defs).deep_view() == ds,
            None => !ok && final(defs).deep_view() == old(defs).deep_view(),
        },
{
    register_from(defs, 0, d)
}

/// No two definitions in the set carry the same name.
pub open spec fn spec_names_unique(defs: Seq<DefV>) -> bool {
    forall|i: int, j: int|
        0 <= i < j < defs.len() ==> def_name_v(defs[i]) != def_name_v(defs[j])
}

/// **Uniqueness law.** Registration keeps definition names unique: a
/// repeated name is either the identical definition, dropped silently,
/// or a collision that fails the run — never a second definition under
/// an existing name.
pub proof fn lemma_register_preserves_unique(defs: Seq<DefV>, d: DefV)
    requires
        spec_names_unique(defs),
        spec_register(defs, d) is Some,
    ensures
        spec_names_unique(spec_register(defs, d)->Some_0),
{
    lemma_register_from_preserves_unique(defs, 0, d);
}

/// The effective string-length bounds of a field: a maximum alone
/// implies a minimum of one character; otherwise the bounds are taken
/// as given.
pub open spec fn spec_effective_bounds(mn: Option<u64>, mx: Option<u64>) -> (
    Option<u64>,
    Option<u64>,
) {
    if mn is None && mx is Some {
        (Some(1u64), mx)
    } else {
        (mn, mx)
    }
}

fn effective_bounds(mn: Option<u64>, mx: Option<u64>) -> (r: (Option<u64>, Option<u64>))
    ensures
        r == spec_effective_bounds(mn, mx),
{
    match (mn, mx) {
        (None, Some(m)) => (Some(1u64), Some(m)),
        _ => (mn, mx),
    }
}

/// The value a member serializes to on the wire: its recorded original
/// literal where sanitization changed it, else its identifier.
pub open spec fn spec_wire_value(m: MemberV) -> Seq<u8> {
    match m.rename {
        Some(l) => l,
        None => m.ident,
    }
}

/// The members synthesized from an ordered list of raw enum literals:
/// the sanitized identifier of each literal, with the original literal
/// recorded whenever sanitization changed it.
pub open spec fn spec_enum_members(vals: Seq<Seq<u8>>) -> Seq<MemberV>
    decreases vals,
{
    if vals.len() == 0 {
        Seq::empty()
    } else {
        let ident = spec_type_ident(vals[0]);
        let m = MemberV {
            ident,
            rename: if ident == vals[0] {
                None
            } else {
                Some(vals[0])
            },
        };
        seq![m] + spec_enum_members(vals.drop_first())
    }
}

/// No two members of one enum share an identifier.
pub open spec fn spec_members_unique(ms: Seq<MemberV>) -> bool {
    forall|i: int, j: int| 0 <= i < j < ms.len() ==> ms[i].ident != ms[j].ident
}

/// **Enum literal fidelity law.** Every synthesized member's wire
/// value is exactly the raw literal it came from, whether or not
/// sanitization changed the identifier.
pub proof fn lemma_enum_wire_fidelity(vals: Seq<Seq<u8>>)
    ensures
        spec_enum_members(vals).len() == vals.len(),
        forall|i: int|
            0 <= i < vals.len() ==> spec_wire_value(spec_enum_members(vals)[i]) == vals[i],
    decreases vals,
{
    if vals.len() == 0 {
    } else {
        lemma_enum_wire_fidelity(vals.drop_first());
        let ms = spec_enum_members(vals);
        assert forall|i: int|
            0 <= i < vals.len() implies spec_wire_value(ms[i]) == vals[i] by {
            if i > 0 {
                assert(ms[i] == spec_enum_members(vals.drop_first())[i - 1]);
                assert(vals.drop_first()[i - 1] == vals[i]);
            }
        }
    }
}

fn enum_members_from(vals: &Vec<Vec<u8>>, i: usize, out: &mut Vec<EnumMember>)
    requires
        i <= vals.len(),
    ensures
        final(out).deep_view() == old(out).deep_view() + spec_enum_members(
            vals.deep_view().skip(i as int),
        ),
    decreases vals.len() - i,
{
    assert(vals.deep_view().len() == vals.len());
    if i == vals.len() {
        assert(vals.deep_view().skip(i as int) =~= Seq::<Seq<u8>>::empty());
        assert(out.deep_view() =~= out.deep_view() + Seq::<MemberV>::empty());
    } else {
        assert(vals.deep_view().skip(i as int)[0] == vals.deep_view()[i as int]);
        assert(vals.deep_view().skip(i as int).drop_first() =~= vals.deep_view().skip(
            i as int + 1,
        ));
        proof {
            lemma_bytes_deep_view(vals@[i as int]);
        }
        assert(vals.deep_view()[i as int] == vals@[i as int]@);
        let ident = to_type_identifier(&vals[i]);
        let rename: Option<Vec<u8>> = if bytes_eq(&ident, &vals[i]) {
            None
        } else {
            Some(clone_bytes(&vals[i]))
        };
        proof {
            match &rename {
                Some(cl) => lemma_bytes_deep_view(*cl),
                None => (),
            }
        }
        let m = EnumMember { ident, rename };
        let ghost mv = m.deep_view();
        let ghost prefix = out.deep_view();
        out.push(m);
        assert(out.deep_view() =~= prefix + seq![mv]);
        enum_members_from(vals, i + 1, out);
        assert(final(out).deep_view() =~= prefix + (seq![mv] + spec_enum_members(
            vals.deep_view().skip(i as int + 1),
        )));
    }
}

fn members_unique(ms: &Vec<EnumMember>) -> (r: bool)
    ensures
        r == spec_members_unique(ms.deep_view()),
{
    assert(ms.deep_view().len() == ms.len());
    let mut i: usize = 0;
    while i < ms.len()
        invariant
            i <= ms.len(),
            ms.deep_view().len() == ms.len(),
            forall|a: int, b: int|
                0 <= a < b < ms.len() && a < i ==> ms.deep_view()[a].ident
                    != ms.deep_view()[b].ident,
        decreases ms.len() - i,
    {
        let mut j: usize = i + 1;
        while j < ms.len()
            invariant
                i < ms.len(),
                i < j <= ms.len(),
                ms.deep_view().len() == ms.len(),
                forall|b: int|
                    i < b < j ==> ms.deep_view()[i as int].ident != ms.deep_view()[b].ident,
            decreases ms.len() - j,
        {
            if bytes_eq(&ms[i].ident, &ms[j].ident) {
                assert(ms.deep_view()[i as int].ident == ms.deep_view()[j as int].ident);
                assert(!spec_members_unique(ms.deep_view()));
                return false;
            }
            assert(ms.deep_view()[i as int].ident != ms.deep_view()[j as int].ident);
            j = j + 1;
        }
        i = i + 1;
    }
    true
}

fn contains_bytes(list: &Vec<Vec<u8>>, x: &Vec<u8>) -> (r: bool)
    ensures
        r == list.deep_view().contains(x@),
{
    assert(list.deep_view().len() == list.len());
    let mut i: usize = 0;
    while i < list.len()
        invariant
            i <= list.len(),
            list.deep_view().len() == list.len(),
            forall|k: int| 0 <= k < i ==> list.deep_view()[k] != x@,
        decreases list.len() - i,
    {
        proof {
            lemma_bytes_deep_view(list@[i as int]);
        }
        if bytes_eq(&list[i], x) {
            assert(list.deep_view()[i as int] == x@);
            assert(list.deep_view().contains(x@));
            return true;
        }
        assert(list.deep_view()[i as int] != x@);
        i = i + 1;
    }
    assert(!list.deep_view().contains(x@)) by {
        if list.deep_view().contains(x@) {
            let k = choose|k: int|
                0 <= k < list.deep_view().len() && list.deep_view()[k] == x@;
        }
    }
    false
}

proof fn lemma_register_from_preserves_unique(defs: Seq<DefV>, i: int, d: DefV)
    requires
        spec_names_unique(defs),
        0 <= i <= defs.len(),
        spec_register_from(defs, i, d) is Some,
        forall|k: int| 0 <= k < i ==> def_name_v(defs[k]) != def_name_v(d),
    ensures
        spec_names_unique(spec_register_from(defs, i, d)->Some_0),
    decreases defs.len() - i,
{
    if i == defs.len() {
        let ds = defs + seq![d];
        assert forall|a: int, b: int|
            0 <= a < b < ds.len() implies def_name_v(ds[a]) != def_name_v(ds[b]) by {
            if b < defs.len() {
            } else {
                assert(ds[b] == d);
                assert(ds[a] == defs[a]);
            }
        }
    } else if def_name_v(defs[i]) == def_name_v(d) {
    } else {
        lemma_register_from_preserves_unique(defs, i + 1, d);
    }
}

/// Compile one property node into a type reference, registering any
/// nested struct or enum definitions it gives rise to, bottom-up.
pub open spec fn spec_compile_property(
    defs: Seq<DefV>,
    owner: Seq<u8>,
    raw: Seq<u8>,
    p: PropV,
    path: Seq<u8>,
) -> Result<(Seq<DefV>, TypeRefV), ErrV>
    decreases p, 0int,
{
    match p.ty {
        SchemaTypeTag::Boolean => Ok((defs, TypeRefV::Bool)),
        SchemaTypeTag::Number => Ok((defs, TypeRefV::Int)),
        SchemaTypeTag::Integer => Ok((defs, TypeRefV::Int)),
        SchemaTypeTag::String => if p.format is Some {
            let f = p.format->Some_0;
            if f == ("date-time").spec_bytes() {
                Ok((defs, TypeRefV::DateTime))
            } else if f == ("uri").spec_bytes() {
                Ok((defs, TypeRefV::Uri))
            } else {
                Err(
                    ErrV::SchemaPropertyFormatNotSupported {
                        path,
                        property: raw,
                        format: f,
                    },
                )
            }
        } else if p.enum_values is Some {
            let vals = p.enum_values->Some_0;
            let nm = spec_nested_name(owner, raw);
            let ms = spec_enum_members(vals);
            if spec_members_unique(ms) {
                match spec_register(defs, DefV::Enum { name: nm, members: ms }) {
                    Some(ds) => Ok((ds, TypeRefV::Named(nm))),
                    None => Err(ErrV::NamingCollision { path, name: nm }),
                }
            } else {
                Err(ErrV::NamingCollision { path, name: nm })
            }
        } else {
            Ok((defs, TypeRefV::Str))
        },
        SchemaTypeTag::Array => if p.items.len() == 0 {
            Err(ErrV::SchemaPropertyTypeNotSupported { path, property: raw })
        } else {
            let it = p.items[0];
            if it.ty is Object && it.properties is Some {
                let nm = spec_nested_name(owner, raw);
                let req = match it.required {
                    Some(r) => r,
                    None => Seq::empty(),
                };
                match spec_compile_object(defs, nm, it.properties->Some_0, req, path) {
                    Ok(ds) => Ok((ds, TypeRefV::ListNamed(nm))),
                    Err(e) => Err(e),
                }
            } else if it.ty is String && it.enum_values is None && it.format is None {
                Ok((defs, TypeRefV::ListStr))
            } else {
                Err(ErrV::SchemaPropertyTypeNotSupported { path, property: raw })
            }
        },
        SchemaTypeTag::Object => match p.properties {
            Some(pp) => {
                let nm = spec_nested_name(owner, raw);
                let req = match p.required {
                    Some(r) => r,
                    None => Seq::empty(),
                };
                match spec_compile_object(defs, nm, pp, req, path) {
                    Ok(ds) => Ok((ds, TypeRefV::Named(nm))),
                    Err(e) => Err(e),
                }
            },
            None => Err(ErrV::SchemaPropertyTypeNotSupported { path, property: raw }),
        },
        SchemaTypeTag::Null => Err(
            ErrV::SchemaPropertyTypeNotSupported { path, property: raw },
        ),
    }
}

/// Compile an object node's properties, in order, into the fields of
/// its struct; nested definitions accumulate alongside.
pub open spec fn spec_compile_fields(
    defs: Seq<DefV>,
    owner: Seq<u8>,
    props: Seq<(Seq<u8>, PropV)>,
    required: Seq<Seq<u8>>,
    path: Seq<u8>,
) -> Result<(Seq<DefV>, Seq<FieldV>), ErrV>
    decreases props, 0int,
{
    if props.len() == 0 {
        Ok((defs, Seq::empty()))
    } else {
        let raw = props[0].0;
        let p = props[0].1;
        match spec_compile_property(defs, owner, raw, p, path) {
            Ok((ds, t)) => match spec_compile_fields(
                ds,
                owner,
                props.drop_first(),
                required,
                path,
            ) {
                Ok((ds2, fs)) => {
                    let eb = spec_effective_bounds(p.min_length, p.max_length);
                    let f = FieldV {
                        name: spec_field_ident(raw),
                        ty: t,
                        required: required.contains(raw),
                        min_length: eb.0,
                        max_length: eb.1,
                    };
                    Ok((ds2, seq![f] + fs))
                },
                Err(e) => Err(e),
            },
            Err(e) => Err(e),
        }
    }
}

/// Compile one object node: its fields, then the struct definition
/// itself, registered under `name`.
pub open spec fn spec_compile_object(
    defs: Seq<DefV>,
    name: Seq<u8>,
    props: Seq<(Seq<u8>, PropV)>,
    required: Seq<Seq<u8>>,
    path: Seq<u8>,
) -> Result<Seq<DefV>, ErrV>
    decreases props, 1int,
{
    match spec_compile_fields(defs, name, props, required, path) {
        Ok((ds, fs)) => match spec_register(ds, DefV::Struct { name, fields: fs }) {
            Some(ds2) => Ok(ds2),
            None => Err(ErrV::NamingCollision { path, name }),
        },
        Err(e) => Err(e),
    }
}

/// Compile one schema document: its root must be an object; the root
/// struct is named from the title.
pub open spec fn spec_compile_schema(defs: Seq<DefV>, s: crate::schema::SchemaV, path: Seq<u8>) -> Result<
    Seq<DefV>,
    ErrV,
> {
    if !(s.ty is Object) {
        Err(ErrV::SchemaTypeNotSupported { path, ty: s.ty })
    } else {
        spec_compile_object(defs, spec_type_ident(s.title), s.properties, s.required, path)
    }
}

#[verifier::rlimit(100)]
#[verifier::spinoff_prover]
fn compile_property(
    defs: &mut Vec<Definition>,
    owner: &Vec<u8>,
    raw: &Vec<u8>,
    p: &SchemaProperty,
    path: &Vec<u8>,
) -> (r: Result<TypeRef, CompileError>)
    ensures
        match spec_compile_property(old(defs).deep_view(), owner@, raw@, p.deep_view(), path@) {
            Ok((ds, t)) => r matches Ok(rt) && rt.deep_view() == t && final(defs).deep_view()
                == ds,
            Err(e) => r matches Err(re) && re.deep_view() == e,
        },
    decreases p, 0int, 0int,
{
    proof {
        lemma_prop_deep_view(*p);
    }
    match p.ty {
        SchemaTypeTag::Boolean => Ok(TypeRef::Bool),
        SchemaTypeTag::Number => Ok(TypeRef::Int),
        SchemaTypeTag::Integer => Ok(TypeRef::Int),
        SchemaTypeTag::String => {
            match &p.format {
                Some(f) => {
                    proof {
                        lemma_bytes_deep_view(*f);
                    }
                    if crate::json::bytes_eq_slice(f, ("date-time").as_bytes()) {
                        Ok(TypeRef::DateTime)
                    } else if crate::json::bytes_eq_slice(f, ("uri").as_bytes()) {
                        Ok(TypeRef::Uri)
                    } else {
                        Err(
                            CompileError::SchemaPropertyFormatNotSupported {
                                path: clone_bytes(path),
                                property: clone_bytes(raw),
                                format: clone_bytes(f),
                            },
                        )
                    }
                },
                None => {
                    match &p.enum_values {
                        Some(vals) => {
                            let ename = nested_type_name(owner, raw);
                            let mut mems: Vec<EnumMember> = Vec::new();
                            assert(mems.deep_view() =~= Seq::<MemberV>::empty());
                            assert(vals.deep_view().skip(0) =~= vals.deep_view());
                            enum_members_from(vals, 0, &mut mems);
                            assert(mems.deep_view() =~= Seq::<MemberV>::empty()
                                + spec_enum_members(vals.deep_view()));
                            if members_unique(&mems) {
                                let ename2 = clone_bytes(&ename);
                                let d = Definition::Enum(
                                    EnumDef { name: ename2, members: mems },
                                );
                                if register_def(defs, d) {
                                    Ok(TypeRef::Named(ename))
                                } else {
                                    Err(
                                        CompileError::NamingCollision {
                                            path: clone_bytes(path),
                                            name: ename,
                                        },
                                    )
                                }
                            } else {
                                Err(
                                    CompileError::NamingCollision {
                                        path: clone_bytes(path),
                                        name: ename,
                                    },
                                )
                            }
                        },
                        None => Ok(TypeRef::Str),
                    }
                },
            }
        },
        SchemaTypeTag::Array => {
            if p.items.len() == 0 {
                assert(p.deep_view().items.len() == 0);
                Err(
                    CompileError::SchemaPropertyTypeNotSupported {
                        path: clone_bytes(path),
                        property: clone_bytes(raw),
                    },
                )
            } else {
                let it = &p.items[0];
                proof {
                    lemma_prop_deep_view(*it);
                }
                assert(p.deep_view().items[0] == p.items@[0].deep_view());
                if matches!(it.ty, SchemaTypeTag::Object) {
                    match &it.properties {
                        Some(pp) => {
                            let nm = nested_type_name(owner, raw);
                            let nm2 = clone_bytes(&nm);
                            let empty_req: Vec<Vec<u8>> = Vec::new();
                            assert(empty_req.deep_view() =~= Seq::<Seq<u8>>::empty());
                            let req: &Vec<Vec<u8>> = match &it.required {
                                Some(rq) => rq,
                                None => &empty_req,
                            };
                            match compile_object(defs, nm2, pp, req, path) {
                                Ok(()) => Ok(TypeRef::ListNamed(nm)),
                                Err(e) => Err(e),
                            }
                        },
                        None => Err(
                            CompileError::SchemaPropertyTypeNotSupported {
                                path: clone_bytes(path),
                                property: clone_bytes(raw),
                            },
                        ),
                    }
                } else if matches!(it.ty, SchemaTypeTag::String) && it.enum_values.is_none()
                    && it.format.is_none() {
                    Ok(TypeRef::ListStr)
                } else {
                    Err(
                        CompileError::SchemaPropertyTypeNotSupported {
                            path: clone_bytes(path),
                            property: clone_bytes(raw),
                        },
                    )
                }
            }
        },
        SchemaTypeTag::Object => {
            match &p.properties {
                Some(pp) => {
                    let nm = nested_type_name(owner, raw);
                    let nm2 = clone_bytes(&nm);
                    let empty_req: Vec<Vec<u8>> = Vec::new();
                    assert(empty_req.deep_view() =~= Seq::<Seq<u8>>::empty());
                    let req: &Vec<Vec<u8>> = match &p.required {
                        Some(rq) => rq,
                        None => &empty_req,
                    };
                    match compile_object(defs, nm2, pp, req, path) {
                        Ok(()) => Ok(TypeRef::Named(nm)),
                        Err(e) => Err(e),
                    }
                },
                None => Err(
                    CompileError::SchemaPropertyTypeNotSupported {
                        path: clone_bytes(path),
                        property: clone_bytes(raw),
                    },
                ),
            }
        },
        SchemaTypeTag::Null => Err(
            CompileError::SchemaPropertyTypeNotSupported {
                path: clone_bytes(path),
                property: clone_bytes(raw),
            },
        ),
    }
}

fn compile_fields_from(
    defs: &mut Vec<Definition>,
    owner: &Vec<u8>,
    props: &Vec<(Vec<u8>, SchemaProperty)>,
    i: usize,
    required: &Vec<Vec<u8>>,
    path: &Vec<u8>,
    out: &mut Vec<FieldDef>,
) -> (r: Result<(), CompileError>)
    requires
        i <= props.len(),
    ensures
        match spec_compile_fields(
            old(defs).deep_view(),
            owner@,
            props.deep_view().skip(i as int),
            required.deep_view(),
            path@,
        ) {
            Ok((ds, fs)) => r is Ok && final(defs).deep_view() == ds && final(out).deep_view()
                == old(out).deep_view() + fs,
            Err(e) => r matches Err(re) && re.deep_view() == e,
        },
    decreases props, 0int, props.len() - i,
{
    assert(props.deep_view().len() == props.len());
    if i == props.len() {
        assert(props.deep_view().skip(i as int) =~= Seq::<(Seq<u8>, PropV)>::empty());
        assert(out.deep_view() =~= out.deep_view() + Seq::<FieldV>::empty());
        Ok(())
    } else {
        assert(props.deep_view().skip(i as int)[0] == props.deep_view()[i as int]);
        assert(props.deep_view().skip(i as int).drop_first() =~= props.deep_view().skip(
            i as int + 1,
        ));
        proof {
            lemma_bytes_deep_view(props@[i as int].0);
        }
        assert(props.deep_view()[i as int] == (
            props@[i as int].0@,
            props@[i as int].1.deep_view(),
        ));
        let raw = &props[i].0;
        let p = &props[i].1;
        match compile_property(defs, owner, raw, p, path) {
            Ok(t) => {
                proof {
                    lemma_prop_deep_view(*p);
                }
                let eb = effective_bounds(p.min_length, p.max_length);
                let f = FieldDef {
                    name: to_field_identifier(raw),
                    ty: t,
                    required: contains_bytes(required, raw),
                    min_length: eb.0,
                    max_length: eb.1,
                };
                let ghost fv = f.deep_view();
                let ghost prefix = out.deep_view();
                let ghost mid_defs = defs.deep_view();
                out.push(f);
                assert(out.deep_view() =~= prefix + seq![fv]);
                let r = compile_fields_from(defs, owner, props, i + 1, required, path, out);
                proof {
                    if r is Ok {
                        match spec_compile_fields(
                            mid_defs,
                            owner@,
                            props.deep_view().skip(i as int + 1),
                            required.deep_view(),
                            path@,
                        ) {
                            Ok((ds2, fs)) => {
                                assert(final(out).deep_view() =~= prefix + (seq![fv] + fs));
                            },
                            Err(_) => {},
                        }
                    }
                }
                r
            },
            Err(e) => Err(e),
        }
    }
}

/// Compile one object node into a registered struct definition named
/// `name`, as [`spec_compile_object`] states.
fn compile_object(
    defs: &mut Vec<Definition>,
    name: Vec<u8>,
    props: &Vec<(Vec<u8>, SchemaProperty)>,
    required: &Vec<Vec<u8>>,
    path: &Vec<u8>,
) -> (r: Result<(), CompileError>)
    ensures
        match spec_compile_object(
            old(defs).deep_view(),
            name@,
            props.deep_view(),
            required.deep_view(),
            path@,
        ) {
            Ok(ds) => r is Ok && final(defs).deep_view() == ds,
            Err(e) => r matches Err(re) && re.deep_view() == e,
        },
    decreases props, 1int, 0int,
{
    let mut fields: Vec<FieldDef> = Vec::new();
    assert(fields.deep_view() =~= Seq::<FieldV>::empty());
    assert(props.deep_view().skip(0) =~= props.deep_view());
    let name_copy = clone_bytes(&name);
    match compile_fields_from(defs, &name, props, 0, required, path, &mut fields) {
        Ok(()) => {
            proof {
                match spec_compile_fields(
                    old(defs).deep_view(),
                    name@,
                    props.deep_view(),
                    required.deep_view(),
                    path@,
                ) {
                    Ok((ds, fs)) => {
                        assert(fields.deep_view() =~= fs);
                    },
                    Err(_) => {},
                }
            }
            let d = Definition::Struct(StructDef { name, fields });
            if register_def(defs, d) {
                Ok(())
            } else {
                Err(
                    CompileError::NamingCollision { path: clone_bytes(path), name: name_copy },
                )
            }
        },
        Err(e) => Err(e),
    }
}

/// **Required/optional fidelity law.** In every successfully compiled
/// object, a field is required exactly when its raw property name
/// stands in the schema's required list — whatever the order of the
/// properties — and every property yields exactly one field, named by
/// the field-naming convention.
pub proof fn lemma_required_fidelity(
    defs: Seq<DefV>,
    owner: Seq<u8>,
    props: Seq<(Seq<u8>, PropV)>,
    required: Seq<Seq<u8>>,
    path: Seq<u8>,
)
    requires
        spec_compile_fields(defs, owner, props, required, path) is Ok,
    ensures
        ({
            let fs = spec_compile_fields(defs, owner, props, required, path)->Ok_0.1;
            fs.len() == props.len() && forall|i: int|
                0 <= i < props.len() ==> fs[i].name == spec_field_ident(props[i].0) && (
                fs[i].required <==> required.contains(props[i].0))
        }),
    decreases props,
{
    if props.len() == 0 {
    } else {
        let fs = spec_compile_fields(defs, owner, props, required, path)->Ok_0.1;
        match spec_compile_property(defs, owner, props[0].0, props[0].1, path) {
            Ok((ds, t)) => {
                lemma_required_fidelity(ds, owner, props.drop_first(), required, path);
                let fs2 = spec_compile_fields(
                    ds,
                    owner,
                    props.drop_first(),
                    required,
                    path,
                )->Ok_0.1;
                assert forall|i: int|
                    0 <= i < props.len() implies fs[i].name == spec_field_ident(props[i].0)
                    && (fs[i].required <==> required.contains(props[i].0)) by {
                    if i > 0 {
                        assert(fs[i] == fs2[i - 1]);
                        assert(props.drop_first()[i - 1] == props[i]);
                    }
                }
            },
            Err(_) => {
                assert(false);
            },
        }
    }
}

/// Names stay unique through the compilation of one property node.
pub proof fn lemma_compile_property_unique(
    defs: Seq<DefV>,
    owner: Seq<u8>,
    raw: Seq<u8>,
    p: PropV,
    path: Seq<u8>,
)
    requires
        spec_names_unique(defs),
        spec_compile_property(defs, owner, raw, p, path) is Ok,
    ensures
        spec_names_unique(spec_compile_property(defs, owner, raw, p, path)->Ok_0.0),
    decreases p, 2int,
{
    match p.ty {
        SchemaTypeTag::String => {
            if p.format is Some {
            } else if p.enum_values is Some {
                let nm = spec_nested_name(owner, raw);
                let ms = spec_enum_members(p.enum_values->Some_0);
                if spec_members_unique(ms) {
                    match spec_register(defs, DefV::Enum { name: nm, members: ms }) {
                        Some(_) => {
                            lemma_register_preserves_unique(
                                defs,
                                DefV::Enum { name: nm, members: ms },
                            );
                        },
                        None => {},
                    }
                }
            }
        },
        SchemaTypeTag::Array => {
            if p.items.len() == 0 {
            } else {
                let it = p.items[0];
                if it.ty is Object && it.properties is Some {
                    let nm = spec_nested_name(owner, raw);
                    let req = match it.required {
                        Some(r) => r,
                        None => Seq::empty(),
                    };
                    lemma_compile_object_unique(defs, nm, it.properties->Some_0, req, path);
                }
            }
        },
        SchemaTypeTag::Object => {
            match p.properties {
                Some(pp) => {
                    let nm = spec_nested_name(owner, raw);
                    let req = match p.required {
                        Some(r) => r,
                        None => Seq::empty(),
                    };
                    lemma_compile_object_unique(defs, nm, pp, req, path);
                },
                None => {},
            }
        },
        _ => {},
    }
}

/// Names stay unique through the compilation of an object's fields.
pub proof fn lemma_compile_fields_unique(
    defs: Seq<DefV>,
    owner: Seq<u8>,
    props: Seq<(Seq<u8>, PropV)>,
    required: Seq<Seq<u8>>,
    path: Seq<u8>,
)
    requires
        spec_names_unique(defs),
        spec_compile_fields(defs, owner, props, required, path) is Ok,
    ensures
        spec_names_unique(spec_compile_fields(defs, owner, props, required, path)->Ok_0.0),
    decreases props, 0int,
{
    if props.len() == 0 {
    } else {
        match spec_compile_property(defs, owner, props[0].0, props[0].1, path) {
            Ok((ds, _)) => {
                lemma_compile_property_unique(defs, owner, props[0].0, props[0].1, path);
                lemma_compile_fields_unique(ds, owner, props.drop_first(), required, path);
            },
            Err(_) => {
                assert(false);
            },
        }
    }
}

/// Names stay unique through the compilation of one object node.
pub proof fn lemma_compile_object_unique(
    defs: Seq<DefV>,
    name: Seq<u8>,
    props: Seq<(Seq<u8>, PropV)>,
    required: Seq<Seq<u8>>,
    path: Seq<u8>,
)
    requires
        spec_names_unique(defs),
        spec_compile_object(defs, name, props, required, path) is Ok,
    ensures
        spec_names_unique(spec_compile_object(defs, name, props, required, path)->Ok_0),
    decreases props, 1int,
{
    match spec_compile_fields(defs, name, props, required, path) {
        Ok((ds, fs)) => {
            lemma_compile_fields_unique(defs, name, props, required, path);
            match spec_register(ds, DefV::Struct { name, fields: fs }) {
                Some(_) => {
                    lemma_register_preserves_unique(ds, DefV::Struct { name, fields: fs });
                },
                None => {},
            }
        },
        Err(_) => {
            assert(false);
        },
    }
}

/// **Definition uniqueness law.** Names stay unique through the
/// compilation of one schema document: the emitted set never holds
/// two definitions under one name.
pub proof fn lemma_compile_schema_unique(defs: Seq<DefV>, s: crate::schema::SchemaV, path: Seq<u8>)
    requires
        spec_names_unique(defs),
        spec_compile_schema(defs, s, path) is Ok,
    ensures
        spec_names_unique(spec_compile_schema(defs, s, path)->Ok_0),
{
    if s.ty is Object {
        lemma_compile_object_unique(
            defs,
            spec_type_ident(s.title),
            s.properties,
            s.required,
            path,
        );
    }
}

/// Some definition in the set carries the name `n`.
pub open spec fn spec_has_name(ds: Seq<DefV>, n: Seq<u8>) -> bool {
    exists|i: int| 0 <= i < ds.len() && def_name_v(ds[i]) == n
}

/// The definition name a type reference points at, if any.
pub open spec fn spec_ref_name(t: TypeRefV) -> Option<Seq<u8>> {
    match t {
        TypeRefV::Named(n) => Some(n),
        TypeRefV::ListNamed(n) => Some(n),
        _ => None,
    }
}

/// Every name these fields refer to exists in the set.
pub open spec fn spec_field_refs_defined(ds: Seq<DefV>, fs: Seq<FieldV>) -> bool {
    forall|i: int|
        0 <= i < fs.len() ==> match spec_ref_name(#[trigger] fs[i].ty) {
            Some(n) => spec_has_name(ds, n),
            None => true,
        }
}

/// Every name any field of any definition refers to exists in the
/// set: no dangling references.
pub open spec fn spec_refs_defined(ds: Seq<DefV>) -> bool {
    forall|i: int|
        0 <= i < ds.len() ==> match #[trigger] ds[i] {
            DefV::Struct { fields, .. } => spec_field_refs_defined(ds, fields),
            DefV::Enum { .. } => true,
        }
}

/// Registration only grows the set: it leaves it unchanged or appends
/// the one definition, so every name present stays present and the
/// registered name is present afterwards.
pub proof fn lemma_register_monotone(ds: Seq<DefV>, d: DefV)
    requires
        spec_register(ds, d) is Some,
    ensures
        spec_register(ds, d)->Some_0 == ds || spec_register(ds, d)->Some_0 == ds + seq![d],
        spec_has_name(spec_register(ds, d)->Some_0, def_name_v(d)),
        forall|n: Seq<u8>|
            spec_has_name(ds, n) ==> spec_has_name(spec_register(ds, d)->Some_0, n),
{
    lemma_register_from_monotone(ds, 0, d);
}

proof fn lemma_register_from_monotone(ds: Seq<DefV>, i: int, d: DefV)
    requires
        0 <= i <= ds.len(),
        spec_register_from(ds, i, d) is Some,
    ensures
        spec_register_from(ds, i, d)->Some_0 == ds || spec_register_from(ds, i, d)->Some_0
            == ds + seq![d],
        spec_has_name(spec_register_from(ds, i, d)->Some_0, def_name_v(d)),
        forall|n: Seq<u8>|
            spec_has_name(ds, n) ==> spec_has_name(spec_register_from(ds, i, d)->Some_0, n),
    decreases ds.len() - i,
{
    let ds2 = spec_register_from(ds, i, d)->Some_0;
    if i == ds.len() {
        assert(ds2 == ds + seq![d]);
        assert(def_name_v(ds2[ds.len() as int]) == def_name_v(d));
        assert forall|n: Seq<u8>| spec_has_name(ds, n) implies spec_has_name(ds2, n) by {
            let k = choose|k: int| 0 <= k < ds.len() && def_name_v(ds[k]) == n;
            assert(def_name_v(ds2[k]) == n);
        }
    } else if def_name_v(ds[i]) == def_name_v(d) {
        assert(ds2 == ds);
        assert(def_name_v(ds[i]) == def_name_v(d));
        assert(spec_has_name(ds2, def_name_v(d)));
    } else {
        lemma_register_from_monotone(ds, i + 1, d);
    }
}

/// References stay defined through the compilation of one property
/// node, names present stay present, and the name the returned
/// reference points at, if any, is present afterwards.
pub proof fn lemma_compile_property_refs(
    defs: Seq<DefV>,
    owner: Seq<u8>,
    raw: Seq<u8>,
    p: PropV,
    path: Seq<u8>,
)
    requires
        spec_refs_defined(defs),
        spec_compile_property(defs, owner, raw, p, path) is Ok,
    ensures
        ({
            let (ds2, t) = spec_compile_property(defs, owner, raw, p, path)->Ok_0;
            spec_refs_defined(ds2) && (forall|n: Seq<u8>|
                spec_has_name(defs, n) ==> spec_has_name(ds2, n)) && (match spec_ref_name(t) {
                Some(n) => spec_has_name(ds2, n),
                None => true,
            })
        }),
    decreases p, 2int,
{
    match p.ty {
        SchemaTypeTag::String => {
            if p.format is Some {
            } else if p.enum_values is Some {
                let nm = spec_nested_name(owner, raw);
                let ms = spec_enum_members(p.enum_values->Some_0);
                let d = DefV::Enum { name: nm, members: ms };
                if spec_members_unique(ms) {
                    match spec_register(defs, d) {
                        Some(ds2) => {
                            lemma_register_monotone(defs, d);
                            assert forall|i: int|
                                0 <= i < ds2.len() implies match #[trigger] ds2[i] {
                                DefV::Struct { fields, .. } => spec_field_refs_defined(
                                    ds2,
                                    fields,
                                ),
                                DefV::Enum { .. } => true,
                            } by {
                                if i < defs.len() && ds2 == defs + seq![d] {
                                    assert(ds2[i] == defs[i]);
                                }
                            }
                        },
                        None => {},
                    }
                }
            }
        },
        SchemaTypeTag::Array => {
            if p.items.len() == 0 {
            } else {
                let it = p.items[0];
                if it.ty is Object && it.properties is Some {
                    let nm = spec_nested_name(owner, raw);
                    let req = match it.required {
                        Some(r) => r,
                        None => Seq::empty(),
                    };
                    lemma_compile_object_refs(defs, nm, it.properties->Some_0, req, path);
                }
            }
        },
        SchemaTypeTag::Object => {
            match p.properties {
                Some(pp) => {
                    let nm = spec_nested_name(owner, raw);
                    let req = match p.required {
                        Some(r) => r,
                        None => Seq::empty(),
                    };
                    lemma_compile_object_refs(defs, nm, pp, req, path);
                },
                None => {},
            }
        },
        _ => {},
    }
}

/// References stay defined through the compilation of an object's
/// fields, names present stay present, and every compiled field's
/// reference is present afterwards.
pub proof fn lemma_compile_fields_refs(
    defs: Seq<DefV>,
    owner: Seq<u8>,
    props: Seq<(Seq<u8>, PropV)>,
    required: Seq<Seq<u8>>,
    path: Seq<u8>,
)
    requires
        spec_refs_defined(defs),
        spec_compile_fields(defs, owner, props, required, path) is Ok,
    ensures
        ({
            let (ds2, fs) = spec_compile_fields(defs, owner, props, required, path)->Ok_0;
            spec_refs_defined(ds2) && (forall|n: Seq<u8>|
                spec_has_name(defs, n) ==> spec_has_name(ds2, n)) && spec_field_refs_defined(
                ds2,
                fs,
            )
        }),
    decreases props, 0int,
{
    if props.len() == 0 {
    } else {
        match spec_compile_property(defs, owner, props[0].0, props[0].1, path) {
            Ok((ds, t)) => {
                lemma_compile_property_refs(defs, owner, props[0].0, props[0].1, path);
                lemma_compile_fields_refs(ds, owner, props.drop_first(), required, path);
                let (ds2, fs) = spec_compile_fields(defs, owner, props, required, path)->Ok_0;
                let fs2 = spec_compile_fields(
                    ds,
                    owner,
                    props.drop_first(),
                    required,
                    path,
                )->Ok_0.1;
                assert forall|i: int|
                    0 <= i < fs.len() implies match spec_ref_name(#[trigger] fs[i].ty) {
                    Some(n) => spec_has_name(ds2, n),
                    None => true,
                } by {
                    if i == 0 {
                        assert(fs[0].ty == t);
                    } else {
                        assert(fs[i] == fs2[i - 1]);
                    }
                }
            },
            Err(_) => {
                assert(false);
            },
        }
    }
}

/// References stay defined through the compilation of one object
/// node, names present stay present, and the object's own name is
/// present afterwards.
pub proof fn lemma_compile_object_refs(
    defs: Seq<DefV>,
    name: Seq<u8>,
    props: Seq<(Seq<u8>, PropV)>,
    required: Seq<Seq<u8>>,
    path: Seq<u8>,
)
    requires
        spec_refs_defined(defs),
        spec_compile_object(defs, name, props, required, path) is Ok,
    ensures
        ({
            let ds2 = spec_compile_object(defs, name, props, required, path)->Ok_0;
            spec_refs_defined(ds2) && (forall|n: Seq<u8>|
                spec_has_name(defs, n) ==> spec_has_name(ds2, n)) && spec_has_name(ds2, name)
        }),
    decreases props, 1int,
{
    match spec_compile_fields(defs, name, props, required, path) {
        Ok((ds, fs)) => {
            lemma_compile_fields_refs(defs, name, props, required, path);
            let d = DefV::Struct { name, fields: fs };
            match spec_register(ds, d) {
                Some(ds2) => {
                    lemma_register_monotone(ds, d);
                    assert forall|i: int|
                        0 <= i < ds2.len() implies match #[trigger] ds2[i] {
                        DefV::Struct { fields, .. } => spec_field_refs_defined(ds2, fields),
                        DefV::Enum { .. } => true,
                    } by {
                        if ds2 == ds + seq![d] {
                            if i < ds.len() {
                                assert(ds2[i] == ds[i]);
                            } else {
                                assert(ds2[i] == d);
                            }
                        }
                    }
                },
                None => {},
            }
        },
        Err(_) => {
            assert(false);
        },
    }
}

/// **No dangling references law, one document.** References stay
/// defined through the compilation of one schema document.
pub proof fn lemma_compile_schema_refs(defs: Seq<DefV>, s: crate::schema::SchemaV, path: Seq<u8>)
    requires
        spec_refs_defined(defs),
        spec_compile_schema(defs, s, path) is Ok,
    ensures
        spec_refs_defined(spec_compile_schema(defs, s, path)->Ok_0),
{
    if s.ty is Object {
        lemma_compile_object_refs(
            defs,
            spec_type_ident(s.title),
            s.properties,
            s.required,
            path,
        );
    }
}

/// Compile one schema document into the accumulated definition set,
/// as [`spec_compile_schema`] states: the root must be an object, and
/// the root struct is named from the title.
pub fn compile_schema(defs: &mut Vec<Definition>, s: &Schema, path: &Vec<u8>) -> (r: Result<
    (),
    CompileError,
>)
    ensures
        match spec_compile_schema(old(defs).deep_view(), s.deep_view(), path@) {
            Ok(ds) => r is Ok && final(defs).deep_view() == ds,
            Err(e) => r matches Err(re) && re.deep_view() == e,
        },
{
    if !matches!(s.ty, SchemaTypeTag::Object) {
        return Err(
            CompileError::SchemaTypeNotSupported { path: clone_bytes(path), ty: s.ty },
        );
    }
    let name = to_type_identifier(&s.title);
    compile_object(defs, name, &s.properties, &s.required, path)
}

} // verus!
