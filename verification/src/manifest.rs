//! The dependency extractor: reading the three dependency tables of a
//! package manifest into a flat list of declarations. Parsing the manifest
//! text is delegated to the `toml` crate behind a trusted boundary; what the
//! parser yields for a given document is named, never restated.

use vstd::prelude::*;

verus! {

/// The manifest table a dependency was declared in.
#[derive(PartialEq, Eq, Structural, Clone, Copy, Debug)]
pub enum DepTable {
    Normal,
    Dev,
    Build,
}

/// One entry of a dependency table.
pub struct DependencyDeclaration {
    pub name: String,
    pub table: DepTable,
}

/// The mathematical value of a [`DependencyDeclaration`].
pub struct DeclView {
    pub name: Seq<char>,
    pub table: DepTable,
}

impl View for DependencyDeclaration {
    type V = DeclView;

    open spec fn view(&self) -> DeclView {
        (DeclView { name: self.name@, table: self.table })
    }
}

/// The views of a sequence of declarations.
pub open spec fn decl_views(s: Seq<DependencyDeclaration>) -> Seq<DeclView> {
    s.map_values(|d: DependencyDeclaration| d@)
}

/// Whether `toml::from_str` accepts `doc` as a document. A pure function of
/// the document text.
pub uninterp spec fn toml_doc_ok(doc: Seq<char>) -> bool;

/// The keys of the top-level table named `table` in the document `doc`, in
/// the order the parser yields them; `None` when the document has no such
/// table (or it is not a table, or the document does not parse). A pure
/// function of the two texts.
pub uninterp spec fn toml_table_dep_names(doc: Seq<char>, table: Seq<char>) -> Option<
    Seq<Seq<char>>,
>;

/// Relies on `toml::from_str::<toml::Value>`, `toml::Value::get` and
/// `toml::Value::as_table`: parsing is a deterministic function of the
/// document text, and the keys of a named top-level table are a deterministic
/// function of the document and the table name (the backing map is ordered,
/// so iteration order is fixed by the document).
#[verifier::external_body]
fn toml_table_keys(doc: &str, table: &str) -> (r: Result<Option<Vec<String>>, String>)
    ensures
        r is Ok <==> toml_doc_ok(doc@),
        (r matches Ok(keys) ==> match keys {
            Some(v) => toml_table_dep_names(doc@, table@) == Some(v.deep_view()),
            None => toml_table_dep_names(doc@, table@) is None,
        }),
{
    let value: toml::Value = match toml::from_str::<toml::Value>(doc) {
        Ok(v) => v,
        Err(e) => return Err(e.to_string()),
    };
    match value.get(table).and_then(|v| v.as_table()) {
        None => Ok(None),
        Some(t) => Ok(Some(t.keys().cloned().collect())),
    }
}

/// The declarations contributed by one table of the manifest.
pub open spec fn table_decls(doc: Seq<char>, table_name: Seq<char>, tag: DepTable) -> Seq<
    DeclView,
> {
    match toml_table_dep_names(doc, table_name) {
        Some(names) => names.map_values(|n: Seq<char>| (DeclView { name: n, table: tag })),
        None => Seq::<DeclView>::empty(),
    }
}

/// Every declaration of the manifest: the normal, development and build
/// tables flattened in that order.
pub open spec fn spec_extract(doc: Seq<char>) -> Seq<DeclView> {
    table_decls(doc, "dependencies"@, DepTable::Normal) + table_decls(
        doc,
        "dev-dependencies"@,
        DepTable::Dev,
    ) + table_decls(doc, "build-dependencies"@, DepTable::Build)
}

/// Append the declarations of one table to the list.
fn push_decls(deps: &mut Vec<DependencyDeclaration>, names: Vec<String>, tag: DepTable)
    ensures
        decl_views(final(deps)@) == decl_views(old(deps)@) + names.deep_view().map_values(
            |n: Seq<char>| (DeclView { name: n, table: tag }),
        ),
{
    let ghost base = decl_views(old(deps)@);
    let ghost target = names.deep_view().map_values(
        |n: Seq<char>| (DeclView { name: n, table: tag }),
    );
    let n = names.len();
    let mut i: usize = 0;
    while i < n
        invariant
            n == names@.len(),
            i <= n,
            names.deep_view().len() == n,
            target.len() == n,
            forall|j: int| 0 <= j < n ==> names.deep_view()[j] == names@[j]@,
            forall|j: int| 0 <= j < n ==> target[j] == (DeclView {
                name: names@[j]@,
                table: tag,
            }),
            decl_views(deps@) == base + target.take(i as int),
        decreases n - i,
    {
        let name = names[i].clone();
        proof {
            assert(name@ == names@[i as int]@);
        }
        let ghost prev = deps@;
        deps.push(DependencyDeclaration { name, table: tag });
        proof {
            assert(decl_views(prev) == base + target.take(i as int));
            assert(deps@[prev.len() as int]@ == target[i as int]);
            assert forall|j: int| 0 <= j < prev.len() implies decl_views(deps@)[j] == decl_views(
                prev,
            )[j] by {
                assert(deps@[j] == prev[j]);
            }
            assert((base + target.take(i as int)).len() == base.len() + i);
            assert(prev.len() == base.len() + i);
            assert(decl_views(deps@).len() == base.len() + i + 1);
            assert forall|j: int| 0 <= j < base.len() + i + 1 implies decl_views(deps@)[j] == (base
                + target.take(i + 1))[j] by {
                if j < base.len() {
                    assert(decl_views(deps@)[j] == decl_views(prev)[j]);
                    assert((base + target.take(i as int))[j] == base[j]);
                    assert((base + target.take(i + 1))[j] == base[j]);
                } else if j < base.len() + i {
                    assert(decl_views(deps@)[j] == decl_views(prev)[j]);
                    assert((base + target.take(i as int))[j] == target.take(i as int)[j
                        - base.len()]);
                    assert(target.take(i as int)[j - base.len()] == target[j - base.len()]);
                    assert((base + target.take(i + 1))[j] == target[j - base.len()]);
                } else {
                    assert(decl_views(deps@)[j] == deps@[prev.len() as int]@);
                    assert((base + target.take(i + 1))[j] == target[i as int]);
                }
            }
            assert(decl_views(deps@) =~= base + target.take(i + 1));
        }
        i = i + 1;
    }
    proof {
        assert(target.take(n as int) =~= target);
    }
}

/// Read the three dependency tables of the manifest text into a flat list of
/// declarations; a missing table contributes nothing, and a document the
/// parser rejects is a per-package error carrying the parser's message.
pub fn extract_dependencies(manifest: &str) -> (r: Result<Vec<DependencyDeclaration>, String>)
    ensures
        r is Ok <==> toml_doc_ok(manifest@),
        (r matches Ok(deps) ==> decl_views(deps@) == spec_extract(manifest@)),
{
    let mut deps: Vec<DependencyDeclaration> = Vec::new();
    let normal = match toml_table_keys(manifest, "dependencies") {
        Ok(k) => k,
        Err(e) => return Err(e),
    };
    let dev = match toml_table_keys(manifest, "dev-dependencies") {
        Ok(k) => k,
        Err(e) => return Err(e),
    };
    let build = match toml_table_keys(manifest, "build-dependencies") {
        Ok(k) => k,
        Err(e) => return Err(e),
    };
    proof {
        assert(decl_views(deps@) =~= Seq::<DeclView>::empty());
    }
    let ghost d0 = decl_views(deps@);
    match normal {
        Some(names) => push_decls(&mut deps, names, DepTable::Normal),
        None => {},
    }
    proof {
        assert(decl_views(deps@) =~= table_decls(manifest@, "dependencies"@, DepTable::Normal));
    }
    let ghost d1 = decl_views(deps@);
    match dev {
        Some(names) => push_decls(&mut deps, names, DepTable::Dev),
        None => {},
    }
    proof {
        assert(decl_views(deps@) =~= d1 + table_decls(manifest@, "dev-dependencies"@, DepTable::Dev));
    }
    let ghost d2 = decl_views(deps@);
    match build {
        Some(names) => push_decls(&mut deps, names, DepTable::Build),
        None => {},
    }
    proof {
        assert(decl_views(deps@) =~= d2 + table_decls(
            manifest@,
            "build-dependencies"@,
            DepTable::Build,
        ));
        assert(decl_views(deps@) =~= spec_extract(manifest@));
    }
    Ok(deps)
}

} // verus!
