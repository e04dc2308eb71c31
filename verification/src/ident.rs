//! Naming policy: deterministic conversion of raw schema identifiers
//! (arbitrary byte strings) into valid type and field identifiers, and
//! the owner-prefixed derivation rule for the names of nested types.
//!
//! Both conversions keep only ASCII alphanumerics. A type identifier
//! upper-cases the first character of every maximal alphanumeric run.
//! A field identifier is the snake_case form: words — alphanumeric
//! runs and, inside a run, each stretch starting at an upper-case
//! letter — come out lower-cased and joined by single underscores.
//! Both conversions are idempotent on input that is already in the
//! respective convention.

use vstd::prelude::*;

verus! {

/// True for the bytes kept by sanitization: ASCII digits and letters.
pub open spec fn is_alnum(b: u8) -> bool {
    (48 <= b && b <= 57) || (65 <= b && b <= 90) || (97 <= b && b <= 122)
}

/// True for an ASCII upper-case letter.
pub open spec fn is_upper(b: u8) -> bool {
    65 <= b && b <= 90
}

/// ASCII upper-casing of one byte; other bytes are unchanged.
pub open spec fn to_upper(b: u8) -> u8 {
    if 97 <= b && b <= 122 {
        (b - 32) as u8
    } else {
        b
    }
}

/// ASCII lower-casing of one byte; other bytes are unchanged.
pub open spec fn to_lower(b: u8) -> u8 {
    if 65 <= b && b <= 90 {
        (b + 32) as u8
    } else {
        b
    }
}

/// Where the next kept character stands relative to word boundaries.
#[derive(Clone, Copy, PartialEq, Eq, Structural)]
pub enum CasePos {
    /// No character has been emitted yet.
    Lead,
    /// The previous input byte was kept.
    Word,
    /// At least one character was emitted and the previous input byte
    /// was stripped.
    Break,
}

/// The type-naming pass: strip every byte that is not an ASCII
/// alphanumeric and upper-case the byte that starts each word.
pub open spec fn spec_type_convert(s: Seq<u8>, boundary: bool) -> Seq<u8>
    decreases s.len(),
{
    if s.len() == 0 {
        Seq::empty()
    } else {
        let b = s[0];
        if is_alnum(b) {
            seq![
                if boundary {
                    to_upper(b)
                } else {
                    b
                },
            ] + spec_type_convert(s.drop_first(), false)
        } else {
            spec_type_convert(s.drop_first(), true)
        }
    }
}

/// The type-naming convention.
pub open spec fn spec_type_ident(s: Seq<u8>) -> Seq<u8> {
    spec_type_convert(s, true)
}

/// The field-naming pass: strip every byte that is not an ASCII
/// alphanumeric, lower-case every kept byte, and put one underscore
/// before a kept byte that starts a word — an upper-case letter after
/// a kept byte, or any byte after a stripped stretch — except at the
/// very front.
pub open spec fn spec_snake_convert(s: Seq<u8>, pos: CasePos) -> Seq<u8>
    decreases s.len(),
{
    if s.len() == 0 {
        Seq::empty()
    } else {
        let b = s[0];
        if is_alnum(b) {
            (match pos {
                CasePos::Lead => seq![to_lower(b)],
                CasePos::Word => if is_upper(b) {
                    seq![95u8, to_lower(b)]
                } else {
                    seq![b]
                },
                CasePos::Break => seq![95u8, to_lower(b)],
            }) + spec_snake_convert(s.drop_first(), CasePos::Word)
        } else {
            let next = if pos is Lead {
                CasePos::Lead
            } else {
                CasePos::Break
            };
            spec_snake_convert(s.drop_first(), next)
        }
    }
}

/// The field-naming convention: snake_case.
pub open spec fn spec_field_ident(s: Seq<u8>) -> Seq<u8> {
    spec_snake_convert(s, CasePos::Lead)
}

/// The name of a nested type derived from property `raw` of the owner
/// type named `owner`: the owner's name followed by the property's
/// type identifier.
pub open spec fn spec_nested_name(owner: Seq<u8>, raw: Seq<u8>) -> Seq<u8> {
    owner + spec_type_ident(raw)
}

/// The type-naming pass is the identity on an alphanumeric byte
/// string once a word has started.
proof fn lemma_type_word_id(s: Seq<u8>)
    requires
        forall|i: int| 0 <= i < s.len() ==> is_alnum(s[i]),
    ensures
        spec_type_convert(s, false) == s,
    decreases s.len(),
{
    if s.len() == 0 {
        assert(spec_type_convert(s, false) =~= s);
    } else {
        lemma_type_word_id(s.drop_first());
        assert(spec_type_convert(s, false) =~= s);
    }
}

/// **Round-trip naming law.** On a raw identifier made of
/// alphanumerics alone, the type-identifier conversion is idempotent:
/// converting its own result changes nothing.
pub proof fn lemma_type_ident_idempotent(s: Seq<u8>)
    requires
        forall|i: int| 0 <= i < s.len() ==> is_alnum(s[i]),
    ensures
        spec_type_ident(spec_type_ident(s)) == spec_type_ident(s),
{
    if s.len() == 0 {
    } else {
        lemma_type_word_id(s.drop_first());
        let r = spec_type_ident(s);
        assert(r =~= seq![to_upper(s[0])] + s.drop_first());
        assert(forall|i: int| 0 <= i < r.len() ==> is_alnum(r[i]));
        lemma_type_word_id(r.drop_first());
        assert(r.drop_first() =~= s.drop_first());
        assert(spec_type_ident(r) =~= seq![to_upper(r[0])] + r.drop_first());
    }
}

/// Reprocessing the field-naming pass's own output changes nothing:
/// every kept byte came out lower-case, and each emitted underscore
/// is re-stripped and re-inserted at the same boundary.
proof fn lemma_snake_reprocess(s: Seq<u8>)
    requires
        forall|i: int| 0 <= i < s.len() ==> is_alnum(s[i]),
    ensures
        spec_snake_convert(spec_snake_convert(s, CasePos::Lead), CasePos::Lead)
            == spec_snake_convert(s, CasePos::Lead),
        spec_snake_convert(spec_snake_convert(s, CasePos::Word), CasePos::Word)
            == spec_snake_convert(s, CasePos::Word),
    decreases s.len(),
{
    if s.len() == 0 {
    } else {
        lemma_snake_reprocess(s.drop_first());
        let b = s[0];
        let w = spec_snake_convert(s.drop_first(), CasePos::Word);
        let c = to_lower(b);
        assert(is_alnum(c) && !is_upper(c) && to_lower(c) == c);

        let r_lead = spec_snake_convert(s, CasePos::Lead);
        assert(r_lead == seq![c] + w);
        assert((seq![c] + w)[0] == c);
        assert((seq![c] + w).drop_first() =~= w);
        assert(spec_snake_convert(r_lead, CasePos::Lead) == seq![c] + spec_snake_convert(
            w,
            CasePos::Word,
        ));

        let r_word = spec_snake_convert(s, CasePos::Word);
        if is_upper(b) {
            assert(r_word == seq![95u8, c] + w);
            assert((seq![95u8, c] + w)[0] == 95u8);
            assert(!is_alnum(95u8));
            assert((seq![95u8, c] + w).drop_first() =~= seq![c] + w);
            assert(spec_snake_convert(r_word, CasePos::Word) == spec_snake_convert(
                seq![c] + w,
                CasePos::Break,
            ));
            assert(spec_snake_convert(seq![c] + w, CasePos::Break) == seq![95u8, c]
                + spec_snake_convert(w, CasePos::Word));
        } else {
            assert(c == b);
            assert(r_word == seq![b] + w);
            assert((seq![b] + w).drop_first() =~= w);
            assert(spec_snake_convert(r_word, CasePos::Word) == seq![b] + spec_snake_convert(
                w,
                CasePos::Word,
            ));
        }
    }
}

/// **Round-trip naming law.** On a raw identifier made of
/// alphanumerics alone, the field-identifier conversion is idempotent:
/// converting its own snake_case result changes nothing.
pub proof fn lemma_field_ident_idempotent(s: Seq<u8>)
    requires
        forall|i: int| 0 <= i < s.len() ==> is_alnum(s[i]),
    ensures
        spec_field_ident(spec_field_ident(s)) == spec_field_ident(s),
{
    lemma_snake_reprocess(s);
}

/// **Nested naming collision avoidance law.** Two sibling schemas
/// that each nest a property of the same raw name compile to two
/// distinctly named nested types, because the owner's name prefixes
/// the derived name: distinct owners never collide on one property
/// name.
pub proof fn lemma_nested_names_distinct(o1: Seq<u8>, o2: Seq<u8>, p: Seq<u8>)
    requires
        o1 != o2,
    ensures
        spec_nested_name(o1, p) != spec_nested_name(o2, p),
{
    let n1 = spec_nested_name(o1, p);
    let n2 = spec_nested_name(o2, p);
    if n1 == n2 {
        assert(n1.len() == n2.len());
        assert(o1.len() == o2.len());
        assert forall|i: int| 0 <= i < o1.len() implies o1[i] == o2[i] by {
            assert(n1[i] == o1[i]);
            assert(n2[i] == o2[i]);
        }
        assert(o1 =~= o2);
    }
}

fn is_alnum_byte(b: u8) -> (r: bool)
    ensures
        r == is_alnum(b),
{
    (48 <= b && b <= 57) || (65 <= b && b <= 90) || (97 <= b && b <= 122)
}

fn upper_byte(b: u8) -> (r: u8)
    ensures
        r == to_upper(b),
{
    if 97 <= b && b <= 122 {
        b - 32
    } else {
        b
    }
}

fn lower_byte(b: u8) -> (r: u8)
    ensures
        r == to_lower(b),
{
    if 65 <= b && b <= 90 {
        b + 32
    } else {
        b
    }
}

fn type_convert_from(s: &Vec<u8>, i: usize, boundary: bool, out: &mut Vec<u8>)
    requires
        i <= s.len(),
    ensures
        final(out)@ == old(out)@ + spec_type_convert(s@.skip(i as int), boundary),
    decreases s.len() - i,
{
    if i == s.len() {
        assert(s@.skip(i as int) =~= Seq::<u8>::empty());
    } else {
        let b = s[i];
        assert(s@.skip(i as int)[0] == b);
        assert(s@.skip(i as int).drop_first() =~= s@.skip(i as int + 1));
        if is_alnum_byte(b) {
            let c = if boundary {
                upper_byte(b)
            } else {
                b
            };
            out.push(c);
            type_convert_from(s, i + 1, false, out);
            assert(final(out)@ == old(out)@ + (seq![c] + spec_type_convert(
                s@.skip(i as int + 1),
                false,
            )));
        } else {
            type_convert_from(s, i + 1, true, out);
        }
    }
}

fn snake_convert_from(s: &Vec<u8>, i: usize, pos: CasePos, out: &mut Vec<u8>)
    requires
        i <= s.len(),
    ensures
        final(out)@ == old(out)@ + spec_snake_convert(s@.skip(i as int), pos),
    decreases s.len() - i,
{
    if i == s.len() {
        assert(s@.skip(i as int) =~= Seq::<u8>::empty());
    } else {
        let b = s[i];
        assert(s@.skip(i as int)[0] == b);
        assert(s@.skip(i as int).drop_first() =~= s@.skip(i as int + 1));
        if is_alnum_byte(b) {
            let ghost pre = out@;
            let ghost emitted = match pos {
                CasePos::Lead => seq![to_lower(b)],
                CasePos::Word => if is_upper(b) {
                    seq![95u8, to_lower(b)]
                } else {
                    seq![b]
                },
                CasePos::Break => seq![95u8, to_lower(b)],
            };
            match pos {
                CasePos::Lead => out.push(lower_byte(b)),
                CasePos::Word => {
                    if 65 <= b && b <= 90 {
                        out.push(95);
                        out.push(lower_byte(b));
                    } else {
                        out.push(b);
                    }
                },
                CasePos::Break => {
                    out.push(95);
                    out.push(lower_byte(b));
                },
            }
            assert(out@ =~= pre + emitted);
            snake_convert_from(s, i + 1, CasePos::Word, out);
            assert(final(out)@ == pre + (emitted + spec_snake_convert(
                s@.skip(i as int + 1),
                CasePos::Word,
            )));
        } else {
            let next = if matches!(pos, CasePos::Lead) {
                CasePos::Lead
            } else {
                CasePos::Break
            };
            snake_convert_from(s, i + 1, next, out);
        }
    }
}

/// Convert a raw schema identifier to a type identifier.
pub fn to_type_identifier(raw: &Vec<u8>) -> (r: Vec<u8>)
    ensures
        r@ == spec_type_ident(raw@),
{
    let mut out: Vec<u8> = Vec::new();
    type_convert_from(raw, 0, true, &mut out);
    assert(raw@.skip(0) =~= raw@);
    out
}

/// Convert a raw schema identifier to a field identifier.
pub fn to_field_identifier(raw: &Vec<u8>) -> (r: Vec<u8>)
    ensures
        r@ == spec_field_ident(raw@),
{
    let mut out: Vec<u8> = Vec::new();
    snake_convert_from(raw, 0, CasePos::Lead, &mut out);
    assert(raw@.skip(0) =~= raw@);
    out
}

/// Derive the name of a nested struct or enum from its owner's name
/// and the raw property name.
pub fn nested_type_name(owner: &Vec<u8>, raw: &Vec<u8>) -> (r: Vec<u8>)
    ensures
        r@ == spec_nested_name(owner@, raw@),
{
    let mut out: Vec<u8> = Vec::new();
    let mut i: usize = 0;
    while i < owner.len()
        invariant
            i <= owner.len(),
            out@ == owner@.take(i as int),
        decreases owner.len() - i,
    {
        out.push(owner[i]);
        assert(out@ =~= owner@.take(i as int + 1));
        i = i + 1;
    }
    assert(out@ =~= owner@);
    type_convert_from(raw, 0, true, &mut out);
    assert(raw@.skip(0) =~= raw@);
    out
}

} // verus!
