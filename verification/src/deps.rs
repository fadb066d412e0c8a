//! Unused-dependency reporting and removal planning for one package: the
//! declared dependencies are extracted from the manifest, each is passed
//! through the detection engine, the unused ones are reported, and removal is
//! a best-effort delegation to an external manifest editor whose outcomes are
//! summarized here. The subset chain always holds: what was removed is among
//! what was reported unused, which is among what was declared.

use vstd::prelude::*;

use crate::detect::{SnapshotView, SourceSnapshot};
use crate::engine::{detect_usage, report_view, AnalyzerReport, ReportView, spec_used};
use crate::manifest::{
    decl_views, extract_dependencies, spec_extract, toml_doc_ok, DeclView, DepTable,
};

verus! {

use vstd::utf8::encode_utf8;

/// A dependency reported unused, with the manifest table it was declared in.
#[derive(Debug, Clone)]
pub struct UnusedDependency {
    pub name: String,
    pub location: String,
}

/// The mathematical value of an [`UnusedDependency`].
pub struct UnusedDependencyView {
    pub name: Seq<char>,
    pub location: Seq<char>,
}

impl View for UnusedDependency {
    type V = UnusedDependencyView;

    open spec fn view(&self) -> UnusedDependencyView {
        (UnusedDependencyView { name: self.name@, location: self.location@ })
    }
}

/// The views of a sequence of unused-dependency reports.
pub open spec fn unused_views(s: Seq<UnusedDependency>) -> Seq<UnusedDependencyView> {
    s.map_values(|u: UnusedDependency| u@)
}

/// The report for one package: its path, whether the pass succeeded, the
/// dependencies found unused, how many were removed, and the error if any.
#[derive(Debug)]
pub struct DependencyCleanResult {
    pub path: String,
    pub success: bool,
    pub unused_deps: Vec<UnusedDependency>,
    pub removed_count: usize,
    pub error: Option<String>,
}

/// The mathematical value of a [`DependencyCleanResult`].
pub struct DependencyCleanResultView {
    pub path: Seq<char>,
    pub success: bool,
    pub unused_deps: Seq<UnusedDependencyView>,
    pub removed_count: int,
    pub error: Option<Seq<char>>,
}

impl View for DependencyCleanResult {
    type V = DependencyCleanResultView;

    open spec fn view(&self) -> DependencyCleanResultView {
        (DependencyCleanResultView {
            path: self.path@,
            success: self.success,
            unused_deps: unused_views(self.unused_deps@),
            removed_count: self.removed_count as int,
            error: match self.error {
                Some(e) => Some(e@),
                None => None,
            },
        })
    }
}

/// The text naming the manifest table a dependency was declared in.
pub open spec fn table_location(t: DepTable) -> Seq<char> {
    match t {
        DepTable::Normal => "[dependencies]"@,
        DepTable::Dev => "[dev-dependencies]"@,
        DepTable::Build => "[build-dependencies]"@,
    }
}

/// The text naming the manifest table a dependency was declared in.
pub fn location_of(t: DepTable) -> (r: String)
    ensures
        r@ == table_location(t),
{
    match t {
        DepTable::Normal => String::from_str("[dependencies]"),
        DepTable::Dev => String::from_str("[dev-dependencies]"),
        DepTable::Build => String::from_str("[build-dependencies]"),
    }
}

/// The unused reports of one manifest: the declared dependencies the engine
/// does not call used, each under the name of its table.
pub open spec fn spec_unused(doc: Seq<char>, rep: Option<ReportView>, snap: SnapshotView) -> Seq<
    UnusedDependencyView,
> {
    spec_extract(doc).filter(|d: DeclView| !spec_used(encode_utf8(d.name), rep, snap)).map_values(
        |d: DeclView| (UnusedDependencyView { name: d.name, location: table_location(d.table) }),
    )
}

/// Check one package for unused dependencies: no manifest means nothing to
/// report, a manifest the parser rejects is a per-package error carrying the
/// parser's message, and otherwise the report lists exactly the declared
/// dependencies the engine does not call used.
pub fn check_unused_dependencies(
    manifest: &Option<String>,
    report: &Option<AnalyzerReport>,
    snapshot: &SourceSnapshot,
) -> (r: Result<Vec<UnusedDependency>, String>)
    ensures
        (manifest is None ==> (r matches Ok(v) && v@.len() == 0)),
        (manifest matches Some(m) ==> ((r is Ok) <==> toml_doc_ok(m@))),
        (manifest matches Some(m) ==> (r matches Ok(v) ==> unused_views(v@) == spec_unused(
            m@,
            report_view(*report),
            snapshot@,
        ))),
{
    let m = match manifest {
        Some(m) => m,
        None => {
            let empty: Vec<UnusedDependency> = Vec::new();
            proof {
                assert(manifest is None);
                assert(empty@.len() == 0);
            }
            return Ok(empty);
        },
    };
    let ghost pred = |d: DeclView| !spec_used(encode_utf8(d.name), report_view(*report), snapshot@);
    let ghost f = |d: DeclView|
        (UnusedDependencyView { name: d.name, location: table_location(d.table) });
    let decls = match extract_dependencies(m.as_str()) {
        Ok(d) => d,
        Err(e) => {
            return Err(e);
        },
    };
    let ghost dv = decl_views(decls@);
    let n = decls.len();
    let mut unused: Vec<UnusedDependency> = Vec::new();
    let mut i: usize = 0;
    proof {
        assert(unused_views(unused@) =~= dv.take(0).filter(pred).map_values(f)) by {
            assert(dv.take(0) =~= Seq::<DeclView>::empty());
            reveal(Seq::filter);
            assert(Seq::<DeclView>::empty().filter(pred) =~= Seq::<DeclView>::empty());
        }
    }
    while i < n
        invariant
            n == decls@.len(),
            i <= n,
            dv == decl_views(decls@),
            dv.len() == n,
            forall|j: int| 0 <= j < n ==> dv[j] == decls@[j]@,
            unused_views(unused@) == dv.take(i as int).filter(pred).map_values(f),
            pred == (|d: DeclView|
                !spec_used(encode_utf8(d.name), report_view(*report), snapshot@)),
            f == (|d: DeclView|
                (UnusedDependencyView { name: d.name, location: table_location(d.table) })),
        decreases n - i,
    {
        let ghost before = unused_views(unused@);
        let ghost d = dv[i as int];
        let verdict = detect_usage(&decls[i], report, snapshot);
        if !verdict.used {
            let location = location_of(decls[i].table);
            unused.push(UnusedDependency { name: verdict.dependency.name, location });
        }
        proof {
            assert(dv.take(i + 1) =~= dv.take(i as int) + seq![d]);
            Seq::<DeclView>::filter_distributes_over_add(dv.take(i as int), seq![d], pred);
            reveal(Seq::filter);
            assert(Seq::<DeclView>::empty().filter(pred) =~= Seq::<DeclView>::empty());
            assert(seq![d].drop_last() =~= Seq::<DeclView>::empty());
            let fd = dv.take(i + 1).filter(pred);
            if pred(d) {
                assert(seq![d].filter(pred) =~= seq![d]);
                assert(fd =~= dv.take(i as int).filter(pred) + seq![d]);
                assert(unused_views(unused@) =~= before + seq![f(d)]);
                assert(fd.map_values(f) =~= dv.take(i as int).filter(pred).map_values(f) + seq![
                    f(d),
                ]);
            } else {
                assert(seq![d].filter(pred) =~= Seq::<DeclView>::empty());
                assert(fd =~= dv.take(i as int).filter(pred));
            }
            assert(unused_views(unused@) =~= dv.take(i + 1).filter(pred).map_values(f));
        }
        i = i + 1;
    }
    proof {
        assert(dv.take(n as int) =~= dv);
    }
    Ok(unused)
}

/// The plan the removal executor follows: nothing on a dry run or with
/// nothing to remove, otherwise one external invocation per reported name, in
/// report order.
pub enum RemovalPlan {
    NoAction,
    Attempt(Vec<String>),
}

/// Plan the removal phase: a dry run or an empty report yields no action and
/// therefore no manifest-editor invocation at all.
pub fn plan_removal(unused: &Vec<UnusedDependency>, dry_run: bool) -> (r: RemovalPlan)
    ensures
        (dry_run || unused@.len() == 0) <==> r is NoAction,
        (r matches RemovalPlan::Attempt(names) ==> names.deep_view() == unused_views(unused@).map_values(
            |u: UnusedDependencyView| u.name,
        )),
{
    if dry_run || unused.len() == 0 {
        return RemovalPlan::NoAction;
    }
    let ghost target = unused_views(unused@).map_values(|u: UnusedDependencyView| u.name);
    let n = unused.len();
    let mut names: Vec<String> = Vec::new();
    let mut i: usize = 0;
    proof {
        assert(names.deep_view() =~= target.take(0));
    }
    while i < n
        invariant
            n == unused@.len(),
            i <= n,
            target == unused_views(unused@).map_values(|u: UnusedDependencyView| u.name),
            target.len() == n,
            forall|j: int| 0 <= j < n ==> target[j] == unused@[j]@.name,
            names.deep_view() == target.take(i as int),
        decreases n - i,
    {
        let name = unused[i].name.clone();
        proof {
            assert(name@ == unused@[i as int]@.name);
        }
        let ghost prev = names@;
        let ghost pre = names.deep_view();
        names.push(name);
        proof {
            assert(pre == target.take(i as int));
            assert(pre.len() == target.take(i as int).len());
            assert(pre.len() == prev.len());
            assert(prev.len() == i);
            assert forall|j: int| 0 <= j < prev.len() implies names.deep_view()[j] == pre[j] by {
                assert(names@[j] == prev[j]);
                assert(pre[j] == prev[j].deep_view());
            }
            assert(names.deep_view()[prev.len() as int] == names@[prev.len() as int].deep_view());
            assert(names@[prev.len() as int].deep_view() =~= target[i as int]);
            assert(names.deep_view().len() == i + 1);
            assert(names.deep_view() =~= target.take(i + 1));
        }
        i = i + 1;
    }
    proof {
        assert(target.take(n as int) =~= target);
    }
    RemovalPlan::Attempt(names)
}

/// The outcome of one manifest-editor invocation.
#[derive(Debug)]
pub struct RemovalOutcome {
    pub dependency_name: String,
    pub succeeded: bool,
    pub message: Option<String>,
}

/// The mathematical value of a [`RemovalOutcome`].
pub struct OutcomeView {
    pub dependency_name: Seq<char>,
    pub succeeded: bool,
    pub message: Option<Seq<char>>,
}

impl View for RemovalOutcome {
    type V = OutcomeView;

    open spec fn view(&self) -> OutcomeView {
        (OutcomeView {
            dependency_name: self.dependency_name@,
            succeeded: self.succeeded,
            message: match self.message {
                Some(m) => Some(m@),
                None => None,
            },
        })
    }
}

/// The views of a sequence of removal outcomes.
pub open spec fn outcome_views(s: Seq<RemovalOutcome>) -> Seq<OutcomeView> {
    s.map_values(|o: RemovalOutcome| o@)
}

/// How many outcomes succeeded.
pub open spec fn count_ok(s: Seq<OutcomeView>) -> int
    decreases s.len(),
{
    if s.len() == 0 {
        0
    } else {
        count_ok(s.drop_last()) + if s.last().succeeded {
            1int
        } else {
            0int
        }
    }
}

/// The number of successes lies between zero and the number of outcomes.
pub proof fn lemma_count_ok_bounds(s: Seq<OutcomeView>)
    ensures
        0 <= count_ok(s) <= s.len(),
    decreases s.len(),
{
    if s.len() > 0 {
        lemma_count_ok_bounds(s.drop_last());
    }
}

/// The message of one failed outcome: what the editor reported, or the bare
/// dependency name.
pub open spec fn failure_line(o: OutcomeView) -> Seq<char> {
    match o.message {
        Some(m) => m,
        None => o.dependency_name,
    }
}

/// One line per failed outcome, each preceded by a line break.
pub open spec fn spec_failure_report(s: Seq<OutcomeView>) -> Seq<char>
    decreases s.len(),
{
    if s.len() == 0 {
        Seq::<char>::empty()
    } else {
        spec_failure_report(s.drop_last()) + if s.last().succeeded {
            Seq::<char>::empty()
        } else {
            "\n"@ + failure_line(s.last())
        }
    }
}

/// Summarize the removal phase: a dry run or an
/// empty report removes nothing; an unavailable editor is a hard error; and
/// otherwise the count of successful invocations is returned, unless every
/// one failed, which is an error carrying each failure.
pub fn remove_unused_dependencies(
    unused: &Vec<UnusedDependency>,
    dry_run: bool,
    tool_available: bool,
    outcomes: &Vec<RemovalOutcome>,
) -> (r: Result<usize, String>)
    requires
        (dry_run || unused@.len() == 0 || !tool_available) ==> outcomes@.len() == 0,
        !(dry_run || unused@.len() == 0) && tool_available ==> outcomes@.len() == unused@.len()
            && (forall|i: int|
            0 <= i < outcomes@.len() ==> outcomes@[i]@.dependency_name == unused@[i]@.name),
    ensures
        (dry_run || unused@.len() == 0) ==> (r matches Ok(c) && c == 0),
        (!(dry_run || unused@.len() == 0) && !tool_available) ==> (r matches Err(m) && m@
            == "cargo-remove is not installed. Install it with: cargo install cargo-edit"@),
        (!(dry_run || unused@.len() == 0) && tool_available) ==> {
            let cnt = count_ok(outcome_views(outcomes@));
            &&& ((r is Ok) <==> cnt > 0)
            &&& (r matches Ok(c) ==> c == cnt)
            &&& (r matches Err(m) ==> m@ == "Failed to remove dependencies:"@ + spec_failure_report(
                outcome_views(outcomes@),
            ))
        },
{
    if dry_run || unused.len() == 0 {
        return Ok(0);
    }
    if !tool_available {
        return Err(
            String::from_str("cargo-remove is not installed. Install it with: cargo install cargo-edit"),
        );
    }
    let ghost ov = outcome_views(outcomes@);
    let n = outcomes.len();
    let mut cnt: usize = 0;
    let mut msg: String = String::from_str("Failed to remove dependencies:");
    let ghost header = "Failed to remove dependencies:"@;
    let mut i: usize = 0;
    proof {
        assert(ov.take(0) =~= Seq::<OutcomeView>::empty());
        lemma_count_ok_bounds(ov);
    }
    while i < n
        invariant
            n == outcomes@.len(),
            i <= n,
            ov == outcome_views(outcomes@),
            ov.len() == n,
            forall|j: int| 0 <= j < n ==> ov[j] == outcomes@[j]@,
            cnt == count_ok(ov.take(i as int)),
            cnt <= i,
            msg@ == header + spec_failure_report(ov.take(i as int)),
        decreases n - i,
    {
        proof {
            assert(ov.take(i + 1).drop_last() =~= ov.take(i as int));
            assert(ov.take(i + 1).last() == ov[i as int]);
        }
        if outcomes[i].succeeded {
            cnt = cnt + 1;
        } else {
            msg.append("\n");
            match &outcomes[i].message {
                Some(m) => {
                    msg.append(m.as_str());
                },
                None => {
                    msg.append(outcomes[i].dependency_name.as_str());
                },
            }
            proof {
                assert(msg@ == header + spec_failure_report(ov.take(i as int)) + ("\n"@
                    + failure_line(ov[i as int])));
                assert(msg@ =~= header + spec_failure_report(ov.take(i + 1)));
            }
        }
        i = i + 1;
    }
    proof {
        assert(ov.take(n as int) =~= ov);
    }
    if cnt > 0 {
        Ok(cnt)
    } else {
        Err(msg)
    }
}

/// Assemble the per-package report, catching a removal failure into the
/// report instead of failing the batch: every package yields a report, and
/// the count removed never exceeds the count reported unused.
pub fn clean_dependencies(
    path: &String,
    checked: Result<Vec<UnusedDependency>, String>,
    remove: bool,
    dry_run: bool,
    tool_available: bool,
    outcomes: &Vec<RemovalOutcome>,
) -> (r: DependencyCleanResult)
    requires
        (match checked {
            Ok(unused) => if remove && !dry_run && unused@.len() > 0 && tool_available {
                outcomes@.len() == unused@.len() && (forall|i: int|
                    0 <= i < outcomes@.len() ==> outcomes@[i]@.dependency_name == unused@[i]@.name)
            } else {
                outcomes@.len() == 0
            },
            Err(_) => outcomes@.len() == 0,
        }),
    ensures
        r@.path == path@,
        (checked matches Err(m) ==> !r@.success && r@.unused_deps.len() == 0 && r@.removed_count
            == 0 && r@.error == Some(m@)),
        (checked matches Ok(unused) ==> r@.unused_deps == unused_views(unused@)),
        (checked matches Ok(unused) ==> (!(remove && unused@.len() > 0) ==> r@.success
            && r@.removed_count == 0 && r@.error is None)),
        (checked matches Ok(unused) ==> remove && unused@.len() > 0 ==> {
            &&& (dry_run ==> r@.success && r@.removed_count == 0 && r@.error is None)
            &&& (!dry_run && !tool_available ==> !r@.success && r@.removed_count == 0 && r@.error
                == Some(
                "cargo-remove is not installed. Install it with: cargo install cargo-edit"@,
            ))
            &&& (!dry_run && tool_available ==> {
                let cnt = count_ok(outcome_views(outcomes@));
                &&& (cnt > 0 ==> r@.success && r@.removed_count == cnt && r@.error is None)
                &&& (cnt == 0 ==> !r@.success && r@.removed_count == 0 && r@.error == Some(
                    "Failed to remove dependencies:"@ + spec_failure_report(
                        outcome_views(outcomes@),
                    ),
                ))
            })
        }),
        r@.removed_count <= r@.unused_deps.len(),
{
    let path_text = path.clone();
    let unused = match checked {
        Ok(u) => u,
        Err(e) => {
            return DependencyCleanResult {
                path: path_text,
                success: false,
                unused_deps: Vec::new(),
                removed_count: 0,
                error: Some(e),
            };
        },
    };
    proof {
        lemma_count_ok_bounds(outcome_views(outcomes@));
    }
    if remove && unused.len() > 0 {
        match remove_unused_dependencies(&unused, dry_run, tool_available, outcomes) {
            Ok(count) => {
                proof {
                    assert(outcome_views(outcomes@).len() == outcomes@.len());
                }
                DependencyCleanResult {
                    path: path_text,
                    success: true,
                    unused_deps: unused,
                    removed_count: count,
                    error: None,
                }
            },
            Err(e) => {
                DependencyCleanResult {
                    path: path_text,
                    success: false,
                    unused_deps: unused,
                    removed_count: 0,
                    error: Some(e),
                }
            },
        }
    } else {
        DependencyCleanResult {
            path: path_text,
            success: true,
            unused_deps: unused,
            removed_count: 0,
            error: None,
        }
    }
}

/// Everything in a filtered sequence came from the sequence it was filtered
/// from.
pub proof fn lemma_filter_subset<A>(s: Seq<A>, pred: spec_fn(A) -> bool)
    ensures
        forall|j: int|
            0 <= j < s.filter(pred).len() ==> s.contains(#[trigger] s.filter(pred)[j]),
    decreases s.len(),
{
    reveal(Seq::filter);
    if s.len() > 0 {
        lemma_filter_subset(s.drop_last(), pred);
        assert forall|j: int|
            0 <= j < s.filter(pred).len() implies s.contains(#[trigger] s.filter(pred)[j]) by {
            let f = s.filter(pred);
            let fd = s.drop_last().filter(pred);
            if pred(s.last()) {
                if j < f.len() - 1 {
                    assert(f[j] == fd[j]);
                    assert(s.drop_last().contains(fd[j]));
                    let k = choose|k: int| 0 <= k < s.drop_last().len() && s.drop_last()[k] == fd[j];
                    assert(s[k] == f[j]);
                } else {
                    assert(f[j] == s.last());
                    assert(s[s.len() - 1] == s.last());
                }
            } else {
                assert(f[j] == fd[j]);
                assert(s.drop_last().contains(fd[j]));
                let k = choose|k: int| 0 <= k < s.drop_last().len() && s.drop_last()[k] == fd[j];
                assert(s[k] == f[j]);
            }
        }
    }
}

/// The manifest declares a dependency that the given unused report names:
/// same name, declared in the table the report points at.
pub open spec fn declared_has(doc: Seq<char>, u: UnusedDependencyView) -> bool {
    exists|k: int|
        0 <= k < spec_extract(doc).len() && (#[trigger] spec_extract(doc)[k]).name == u.name
            && table_location(spec_extract(doc)[k].table) == u.location
}

/// Every dependency reported unused was declared: each entry of the unused
/// report names a declared dependency of the manifest and the table it was
/// declared in. Together with the removal bound of [`clean_dependencies`],
/// what was removed is among what was reported unused, which is among what
/// was declared.
pub proof fn lemma_unused_subset_declared(
    doc: Seq<char>,
    rep: Option<ReportView>,
    snap: SnapshotView,
)
    ensures
        spec_unused(doc, rep, snap).len() <= spec_extract(doc).len(),
        forall|j: int|
            0 <= j < spec_unused(doc, rep, snap).len() ==> declared_has(
                doc,
                #[trigger] spec_unused(doc, rep, snap)[j],
            ),
{
    broadcast use vstd::seq_lib::group_filter_ensures;

    let decls = spec_extract(doc);
    let pred = |d: DeclView| !spec_used(encode_utf8(d.name), rep, snap);
    let f = |d: DeclView|
        (UnusedDependencyView { name: d.name, location: table_location(d.table) });
    let filtered = decls.filter(pred);
    lemma_filter_subset(decls, pred);
    assert forall|j: int| 0 <= j < spec_unused(doc, rep, snap).len() implies declared_has(
        doc,
        #[trigger] spec_unused(doc, rep, snap)[j],
    ) by {
        assert(spec_unused(doc, rep, snap)[j] == f(filtered[j]));
        assert(decls.contains(filtered[j]));
        let k = choose|k: int| 0 <= k < decls.len() && decls[k] == filtered[j];
        assert(spec_extract(doc)[k].name == spec_unused(doc, rep, snap)[j].name && table_location(
            spec_extract(doc)[k].table,
        ) == spec_unused(doc, rep, snap)[j].location);
    }
}

} // verus!
