//! A compiler from JSON Schema documents describing protocol message
//! payloads to native type definitions: structs, enums, optionality
//! markers and field-level validation attributes.
//!
//! The pipeline is: parse each schema document into a [`json::Json`]
//! value, map it to a [`schema::Schema`], compile the schema bottom-up
//! into struct and enum definitions ([`compile`]), and emit the whole
//! set as one source-code blob ([`emit`]). Discovery of the schema
//! files and the writing of the generated output are the caller's
//! work; the compiler itself is a pure function of the file contents,
//! so repeated runs over unchanged input produce byte-identical
//! output.

use vstd::prelude::*;

pub mod ident;
pub mod error;
pub mod json;
pub mod schema;
pub mod compile;
pub mod emit;

use vstd::relations::{sorted_by, total_ordering};
use vstd::seq_lib::lemma_sorted_unique;
use crate::json::{json_parse_spec, bytes_eq};
use crate::schema::clone_bytes;
use crate::schema::{spec_schema_of, parse_schema};
use crate::compile::{
    Definition, DefV, spec_compile_schema, compile_schema, spec_names_unique,
    lemma_compile_schema_unique, spec_refs_defined, lemma_compile_schema_refs,
};
use crate::emit::{emit_unit, spec_emit_unit};
use crate::error::{CompileError, ErrV};

verus! {

broadcast use
    vstd::seq::axiom_seq_index_decreases,
    vstd::seq::axiom_seq_subrange_decreases;

/// One discovered schema file: its path, carried for diagnostics, and
/// its raw contents.
#[derive(Debug, PartialEq, Eq)]
pub struct SchemaFile {
    pub path: Vec<u8>,
    pub content: Vec<u8>,
}

/// The mathematical model of a [`SchemaFile`].
#[verifier::ext_equal]
pub struct FileV {
    pub path: Seq<u8>,
    pub content: Seq<u8>,
}

impl DeepView for SchemaFile {
    type V = FileV;

    open spec fn deep_view(&self) -> FileV {
        FileV { path: self.path@, content: self.content@ }
    }
}

/// Byte-string order: a proper prefix comes first, otherwise the
/// first differing byte decides.
pub open spec fn lex_le_bytes(a: Seq<u8>, b: Seq<u8>) -> bool
    decreases a.len(),
{
    if a.len() == 0 {
        true
    } else if b.len() == 0 {
        false
    } else if a[0] < b[0] {
        true
    } else if a[0] > b[0] {
        false
    } else {
        lex_le_bytes(a.drop_first(), b.drop_first())
    }
}

/// File order: by path, then by content.
pub open spec fn file_le(a: FileV, b: FileV) -> bool {
    if a.path == b.path {
        lex_le_bytes(a.content, b.content)
    } else {
        lex_le_bytes(a.path, b.path)
    }
}

/// The file order as one function value, shared by the specification
/// and the proofs.
pub open spec fn file_le_fn() -> spec_fn(FileV, FileV) -> bool {
    |a: FileV, b: FileV| file_le(a, b)
}

proof fn lemma_lex_refl(a: Seq<u8>)
    ensures
        lex_le_bytes(a, a),
    decreases a.len(),
{
    if a.len() == 0 {
    } else {
        lemma_lex_refl(a.drop_first());
    }
}

proof fn lemma_lex_connected(a: Seq<u8>, b: Seq<u8>)
    ensures
        lex_le_bytes(a, b) || lex_le_bytes(b, a),
    decreases a.len(),
{
    if a.len() == 0 || b.len() == 0 {
    } else {
        lemma_lex_connected(a.drop_first(), b.drop_first());
    }
}

proof fn lemma_lex_antisym(a: Seq<u8>, b: Seq<u8>)
    requires
        lex_le_bytes(a, b),
        lex_le_bytes(b, a),
    ensures
        a == b,
    decreases a.len(),
{
    if a.len() == 0 {
        assert(b.len() == 0);
        assert(a =~= b);
    } else if b.len() == 0 {
        assert(false);
    } else {
        assert(a[0] == b[0]);
        lemma_lex_antisym(a.drop_first(), b.drop_first());
        assert(a =~= b) by {
            assert(a.len() == b.len());
            assert forall|i: int| 0 < i < a.len() implies a[i] == b[i] by {
                assert(a.drop_first()[i - 1] == b.drop_first()[i - 1]);
            }
        }
    }
}

proof fn lemma_lex_trans(a: Seq<u8>, b: Seq<u8>, c: Seq<u8>)
    requires
        lex_le_bytes(a, b),
        lex_le_bytes(b, c),
    ensures
        lex_le_bytes(a, c),
    decreases a.len(),
{
    if a.len() == 0 || b.len() == 0 || c.len() == 0 {
    } else if a[0] == b[0] && b[0] == c[0] {
        lemma_lex_trans(a.drop_first(), b.drop_first(), c.drop_first());
    }
}

/// The file order is a total order, so sorting by it canonicalizes
/// any enumeration order.
proof fn lemma_file_le_total_ordering()
    ensures
        total_ordering(file_le_fn()),
{
    let leq = file_le_fn();
    assert forall|a: FileV| #[trigger] leq(a, a) by {
        lemma_lex_refl(a.content);
        lemma_lex_refl(a.path);
    }
    assert forall|a: FileV, b: FileV| #[trigger] leq(a, b) && #[trigger] leq(b, a) implies a
        == b by {
        if a.path == b.path {
            lemma_lex_antisym(a.content, b.content);
            assert(a =~= b);
        } else {
            lemma_lex_antisym(a.path, b.path);
        }
    }
    assert forall|a: FileV, b: FileV, c: FileV|
        #[trigger] leq(a, b) && #[trigger] leq(b, c) implies leq(a, c) by {
        if a.path == b.path && b.path == c.path {
            lemma_lex_trans(a.content, b.content, c.content);
        } else if a.path == b.path {
            assert(leq(a, c) == lex_le_bytes(b.path, c.path));
        } else if b.path == c.path {
            assert(leq(a, c) == lex_le_bytes(a.path, b.path));
        } else {
            lemma_lex_trans(a.path, b.path, c.path);
            if a.path == c.path {
                lemma_lex_antisym(a.path, b.path);
            }
        }
    }
    assert forall|a: FileV, b: FileV| #[trigger] leq(a, b) || #[trigger] leq(b, a) by {
        if a.path == b.path {
            lemma_lex_connected(a.content, b.content);
        } else {
            lemma_lex_connected(a.path, b.path);
        }
    }
}

/// The canonical order of a file set: sorted by path, then content,
/// whatever order discovery handed the files over in.
pub open spec fn spec_canon_files(files: Seq<FileV>) -> Seq<FileV> {
    files.sort_by(file_le_fn())
}

fn lex_le_from(a: &Vec<u8>, b: &Vec<u8>, i: usize) -> (r: bool)
    requires
        i <= a.len(),
        i <= b.len(),
    ensures
        r == lex_le_bytes(a@.skip(i as int), b@.skip(i as int)),
    decreases a.len() - i,
{
    if i == a.len() {
        assert(a@.skip(i as int) =~= Seq::<u8>::empty());
        true
    } else if i == b.len() {
        assert(b@.skip(i as int) =~= Seq::<u8>::empty());
        assert(a@.skip(i as int).len() > 0);
        false
    } else {
        assert(a@.skip(i as int)[0] == a@[i as int]);
        assert(b@.skip(i as int)[0] == b@[i as int]);
        assert(a@.skip(i as int).drop_first() =~= a@.skip(i as int + 1));
        assert(b@.skip(i as int).drop_first() =~= b@.skip(i as int + 1));
        if a[i] < b[i] {
            true
        } else if a[i] > b[i] {
            false
        } else {
            lex_le_from(a, b, i + 1)
        }
    }
}

fn file_le_exec(a: &SchemaFile, b: &SchemaFile) -> (r: bool)
    ensures
        r == file_le(a.deep_view(), b.deep_view()),
{
    if bytes_eq(&a.path, &b.path) {
        let r = lex_le_from(&a.content, &b.content, 0);
        assert(a.content@.skip(0) =~= a.content@);
        assert(b.content@.skip(0) =~= b.content@);
        r
    } else {
        let r = lex_le_from(&a.path, &b.path, 0);
        assert(a.path@.skip(0) =~= a.path@);
        assert(b.path@.skip(0) =~= b.path@);
        r
    }
}

fn clone_file(f: &SchemaFile) -> (r: SchemaFile)
    ensures
        r.deep_view() == f.deep_view(),
{
    SchemaFile { path: clone_bytes(&f.path), content: clone_bytes(&f.content) }
}

/// Sort the file set into its canonical order.
fn canon_files(files: &Vec<SchemaFile>) -> (r: Vec<SchemaFile>)
    ensures
        r.deep_view() == spec_canon_files(files.deep_view()),
{
    broadcast use vstd::seq_lib::group_to_multiset_ensures;

    let ghost leq = file_le_fn();
    let ghost fdv = files.deep_view();
    assert(fdv.len() == files.len());
    let mut out: Vec<SchemaFile> = Vec::new();
    assert(out.deep_view() =~= Seq::<FileV>::empty());
    assert(fdv.take(0) =~= Seq::<FileV>::empty());
    assert(out.deep_view().to_multiset() =~= fdv.take(0).to_multiset());
    let mut i: usize = 0;
    while i < files.len()
        invariant
            i <= files.len(),
            fdv == files.deep_view(),
            fdv.len() == files.len(),
            leq == file_le_fn(),
            sorted_by(out.deep_view(), leq),
            out.deep_view().to_multiset() == fdv.take(i as int).to_multiset(),
        decreases files.len() - i,
    {
        let f = clone_file(&files[i]);
        let ghost fv = f.deep_view();
        assert(fv == fdv[i as int]);
        let ghost os = out.deep_view();
        let mut j: usize = 0;
        let mut scanning = true;
        while j < out.len() && scanning
            invariant
                j <= out.len(),
                os == out.deep_view(),
                os.len() == out.len(),
                fv == f.deep_view(),
                forall|k: int| 0 <= k < j ==> leq(os[k], fv),
                !scanning ==> j < out.len() && !leq(os[j as int], fv),
                leq == file_le_fn(),
            decreases out.len() - j, (if scanning { 1int } else { 0int }),
        {
            assert(out.deep_view()[j as int] == out@[j as int].deep_view());
            if file_le_exec(&out[j], &f) {
                assert(leq(os[j as int], fv));
                j = j + 1;
            } else {
                scanning = false;
            }
        }
        proof {
            lemma_file_le_total_ordering();
            if j < out.len() {
                assert(!leq(os[j as int], fv));
                assert(leq(fv, os[j as int]));
            }
        }
        out.insert(j, f);
        proof {
            let ns = os.insert(j as int, fv);
            assert(out.deep_view() =~= ns) by {
                assert(out@.len() == os.len() + 1);
                assert forall|k: int| 0 <= k < out@.len() implies out.deep_view()[k] == ns[k] by {
                    assert(out.deep_view()[k] == out@[k].deep_view());
                    if k < j {
                        assert(out@[k].deep_view() == os[k]);
                    } else if k == j {
                        assert(out@[k].deep_view() == fv);
                    } else {
                        assert(out@[k].deep_view() == os[k - 1]);
                    }
                }
            }
            assert(sorted_by(ns, leq)) by {
                assert forall|p: int, q: int| 0 <= p < q < ns.len() implies #[trigger] leq(
                    ns[p],
                    ns[q],
                ) by {
                    if q < j {
                        assert(leq(os[p], os[q]));
                    } else if p < j && q == j {
                        assert(leq(os[p], fv));
                    } else if p < j && q > j {
                        assert(leq(os[p], os[q - 1]));
                    } else if p == j {
                        assert(q > j);
                        assert(leq(fv, os[j as int]));
                        if q - 1 > j {
                            assert(leq(os[j as int], os[q - 1]));
                        }
                    } else {
                        assert(leq(os[p - 1], os[q - 1]));
                    }
                }
            }
            vstd::seq_lib::to_multiset_insert(os, j as int, fv);
            vstd::seq_lib::to_multiset_build(fdv.take(i as int), fdv[i as int]);
            assert(fdv.take(i as int + 1) =~= fdv.take(i as int).push(fdv[i as int]));
            assert(out.deep_view().to_multiset() == fdv.take(i as int + 1).to_multiset());
        }
        i = i + 1;
    }
    proof {
        assert(fdv.take(files.len() as int) =~= fdv);
        lemma_file_le_total_ordering();
        fdv.lemma_sort_by_ensures(leq);
        lemma_sorted_unique(out.deep_view(), spec_canon_files(fdv), leq);
        assert(out.deep_view() == spec_canon_files(fdv));
    }
    out
}

/// **Order independence law.** Two enumerations of the same file set
/// — the same multiset of (path, content) pairs, in any order —
/// compile to the same answer.
pub proof fn lemma_compile_order_independent(a: Seq<FileV>, b: Seq<FileV>)
    requires
        a.to_multiset() == b.to_multiset(),
    ensures
        spec_compile_version(a) == spec_compile_version(b),
{
    lemma_file_le_total_ordering();
    a.lemma_sort_by_ensures(file_le_fn());
    b.lemma_sort_by_ensures(file_le_fn());
    lemma_sorted_unique(a.sort_by(file_le_fn()), b.sort_by(file_le_fn()), file_le_fn());
    assert(spec_canon_files(a) == spec_canon_files(b));
}

/// Compile every file's document, in order, into one definition set;
/// the first failure aborts the whole run.
pub open spec fn spec_compile_files(defs: Seq<DefV>, files: Seq<FileV>) -> Result<
    Seq<DefV>,
    ErrV,
>
    decreases files,
{
    if files.len() == 0 {
        Ok(defs)
    } else {
        let f = files[0];
        match json_parse_spec(f.content) {
            None => Err(ErrV::InvalidSchema { path: f.path }),
            Some(jv) => match spec_schema_of(jv) {
                None => Err(ErrV::InvalidSchema { path: f.path }),
                Some(sv) => match spec_compile_schema(defs, sv, f.path) {
                    Ok(ds) => spec_compile_files(ds, files.drop_first()),
                    Err(e) => Err(e),
                },
            },
        }
    }
}

/// What compiling one protocol version's schema files yields: the
/// emitted compilation unit, a function of the canonically ordered
/// files alone, or the first error in that order.
pub open spec fn spec_compile_version(files: Seq<FileV>) -> Result<Seq<u8>, ErrV> {
    match spec_compile_files(Seq::empty(), spec_canon_files(files)) {
        Ok(ds) => Ok(spec_emit_unit(ds)),
        Err(e) => Err(e),
    }
}

fn compile_files_from(defs: &mut Vec<Definition>, files: &Vec<SchemaFile>, i: usize) -> (r:
    Result<(), CompileError>)
    requires
        i <= files.len(),
    ensures
        match spec_compile_files(old(defs).deep_view(), files.deep_view().skip(i as int)) {
            Ok(ds) => r is Ok && final(defs).deep_view() == ds,
            Err(e) => r matches Err(re) && re.deep_view() == e,
        },
    decreases files.len() - i,
{
    assert(files.deep_view().len() == files.len());
    if i == files.len() {
        assert(files.deep_view().skip(i as int) =~= Seq::<FileV>::empty());
        Ok(())
    } else {
        assert(files.deep_view().skip(i as int)[0] == files.deep_view()[i as int]);
        assert(files.deep_view().skip(i as int).drop_first() =~= files.deep_view().skip(
            i as int + 1,
        ));
        assert(files.deep_view()[i as int] == files@[i as int].deep_view());
        let f = &files[i];
        match parse_schema(&f.path, f.content.as_slice()) {
            Ok(s) => match compile_schema(defs, &s, &f.path) {
                Ok(()) => compile_files_from(defs, files, i + 1),
                Err(e) => Err(e),
            },
            Err(e) => Err(e),
        }
    }
}

/// Names stay unique through the compilation of a file sequence.
pub proof fn lemma_compile_files_unique(defs: Seq<DefV>, files: Seq<FileV>)
    requires
        spec_names_unique(defs),
        spec_compile_files(defs, files) is Ok,
    ensures
        spec_names_unique(spec_compile_files(defs, files)->Ok_0),
    decreases files,
{
    if files.len() == 0 {
    } else {
        let f = files[0];
        match json_parse_spec(f.content) {
            None => {
                assert(false);
            },
            Some(jv) => match spec_schema_of(jv) {
                None => {
                    assert(false);
                },
                Some(sv) => match spec_compile_schema(defs, sv, f.path) {
                    Ok(ds) => {
                        lemma_compile_schema_unique(defs, sv, f.path);
                        lemma_compile_files_unique(ds, files.drop_first());
                    },
                    Err(_) => {
                        assert(false);
                    },
                },
            },
        }
    }
}

/// References stay defined through the compilation of a file
/// sequence.
pub proof fn lemma_compile_files_refs(defs: Seq<DefV>, files: Seq<FileV>)
    requires
        spec_refs_defined(defs),
        spec_compile_files(defs, files) is Ok,
    ensures
        spec_refs_defined(spec_compile_files(defs, files)->Ok_0),
    decreases files,
{
    if files.len() == 0 {
    } else {
        let f = files[0];
        match json_parse_spec(f.content) {
            None => {
                assert(false);
            },
            Some(jv) => match spec_schema_of(jv) {
                None => {
                    assert(false);
                },
                Some(sv) => match spec_compile_schema(defs, sv, f.path) {
                    Ok(ds) => {
                        lemma_compile_schema_refs(defs, sv, f.path);
                        lemma_compile_files_refs(ds, files.drop_first());
                    },
                    Err(_) => {
                        assert(false);
                    },
                },
            },
        }
    }
}

/// **No dangling references law.** In a successful run, every struct
/// or enum name that a field's type reference points at stands among
/// the emitted definitions.
pub proof fn lemma_version_refs_defined(files: Seq<FileV>)
    requires
        spec_compile_files(Seq::empty(), files) is Ok,
    ensures
        spec_refs_defined(spec_compile_files(Seq::empty(), files)->Ok_0),
{
    lemma_compile_files_refs(Seq::empty(), files);
}

/// **Definition uniqueness law.** A successful run emits no two
/// definitions under one name: every struct or enum name a field
/// refers to stands exactly once in the compiled unit.
pub proof fn lemma_version_names_unique(files: Seq<FileV>)
    requires
        spec_compile_files(Seq::empty(), files) is Ok,
    ensures
        spec_names_unique(spec_compile_files(Seq::empty(), files)->Ok_0),
{
    lemma_compile_files_unique(Seq::empty(), files);
}

/// Compile one protocol version's schema files into the generated
/// compilation unit, exactly as [`spec_compile_version`] states: the
/// files are first brought into their canonical order, so the result
/// depends only on the set of files, never on enumeration order.
///
/// **Determinism law.** The result is pinned byte-for-byte to a
/// function of the files' contents, so compiling the same set of
/// files twice produces byte-identical output; with
/// [`lemma_compile_order_independent`], in whatever order the files
/// come.
pub fn compile_version(files: &Vec<SchemaFile>) -> (r: Result<Vec<u8>, CompileError>)
    ensures
        match spec_compile_version(files.deep_view()) {
            Ok(text) => r matches Ok(out) && out@ == text,
            Err(e) => r matches Err(re) && re.deep_view() == e,
        },
{
    let sorted = canon_files(files);
    let mut defs: Vec<Definition> = Vec::new();
    assert(defs.deep_view() =~= Seq::<DefV>::empty());
    assert(sorted.deep_view().skip(0) =~= sorted.deep_view());
    match compile_files_from(&mut defs, &sorted, 0) {
        Ok(()) => Ok(emit_unit(&defs)),
        Err(e) => Err(e),
    }
}

} // verus!
