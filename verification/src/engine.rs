//! The tiered strategy chain of the usage detection engine: the allow-list
//! first, then the report of an external analyzer when one could be run and
//! its output was recognized, and the heuristic source scan as the fallback.
//! Each dependency gets exactly one verdict, tagged with the strategy that
//! produced it.

use vstd::prelude::*;

use crate::analyzer::{parse_analyzer_output, spec_parse_analyzer};
use crate::bytes::{bytes_eq, norm_bytes, normalize_bytes};
use crate::detect::{
    allow_listed, enc, is_dependency_used, spec_allow_listed, spec_heuristic_used, SnapshotView,
    SourceSnapshot,
};
use crate::manifest::{DeclView, DependencyDeclaration};

verus! {

use vstd::utf8::encode_utf8;

/// Which strategy produced a verdict.
#[derive(PartialEq, Eq, Structural, Clone, Copy, Debug)]
pub enum Evidence {
    ExternalAnalyzer,
    HeuristicScan,
    AllowListed,
}

/// What an external analyzer run produced: both streams are kept, since
/// analyzer tools vary in which one carries the report.
pub struct AnalyzerReport {
    pub stdout: Vec<u8>,
    pub stderr: Vec<u8>,
}

/// The mathematical value of an [`AnalyzerReport`].
pub struct ReportView {
    pub stdout: Seq<u8>,
    pub stderr: Seq<u8>,
}

impl View for AnalyzerReport {
    type V = ReportView;

    open spec fn view(&self) -> ReportView {
        (ReportView { stdout: self.stdout@, stderr: self.stderr@ })
    }
}

/// The view of an optional analyzer report; `None` when the analyzer was
/// unavailable or could not be launched.
pub open spec fn report_view(rep: Option<AnalyzerReport>) -> Option<ReportView> {
    match rep {
        Some(r) => Some(r@),
        None => None,
    }
}

/// The verdict of the engine for one dependency.
pub struct UsageVerdict {
    pub dependency: DependencyDeclaration,
    pub used: bool,
    pub evidence_source: Evidence,
}

/// The mathematical value of a [`UsageVerdict`].
pub struct VerdictView {
    pub dependency: DeclView,
    pub used: bool,
    pub evidence_source: Evidence,
}

impl View for UsageVerdict {
    type V = VerdictView;

    open spec fn view(&self) -> VerdictView {
        (VerdictView {
            dependency: self.dependency@,
            used: self.used,
            evidence_source: self.evidence_source,
        })
    }
}

/// The unused set an analyzer run yields: the parse of its standard output,
/// or of its standard error when the output is unparseable; `None` when the
/// analyzer was unavailable or neither stream parsed.
pub open spec fn spec_analyzer_unused(rep: Option<ReportView>) -> Option<Seq<Seq<u8>>> {
    match rep {
        None => None,
        Some(r) => match spec_parse_analyzer(r.stdout) {
            Some(u) => Some(u),
            None => spec_parse_analyzer(r.stderr),
        },
    }
}

/// A reported name matches the dependency when the two agree after
/// normalization.
pub open spec fn name_listed(names: Seq<Seq<u8>>, name: Seq<u8>) -> bool {
    exists|i: int| 0 <= i < names.len() && norm_bytes(names[i]) == norm_bytes(name)
}

/// Whether the strategy chain calls the dependency used: allow-listed names
/// always are; with a recognized analyzer report, exactly the names it does
/// not list as unused are; otherwise the heuristic scan decides.
pub open spec fn spec_used(name: Seq<u8>, rep: Option<ReportView>, snap: SnapshotView) -> bool {
    if spec_allow_listed(name) {
        true
    } else {
        match spec_analyzer_unused(rep) {
            Some(u) => !name_listed(u, name),
            None => spec_heuristic_used(snap, name),
        }
    }
}

/// Which strategy settles the dependency.
pub open spec fn spec_evidence(name: Seq<u8>, rep: Option<ReportView>) -> Evidence {
    if spec_allow_listed(name) {
        Evidence::AllowListed
    } else if spec_analyzer_unused(rep) is Some {
        Evidence::ExternalAnalyzer
    } else {
        Evidence::HeuristicScan
    }
}

/// Whether any reported name matches the dependency after normalization.
fn listed(names: &Vec<Vec<u8>>, name: &[u8]) -> (r: bool)
    ensures
        r == name_listed(names.deep_view(), name@),
{
    let norm = normalize_bytes(name);
    let n = names.len();
    let mut i: usize = 0;
    while i < n
        invariant
            n == names@.len(),
            i <= n,
            norm@ == norm_bytes(name@),
            names.deep_view().len() == n,
            forall|j: int| 0 <= j < n ==> names.deep_view()[j] == names@[j]@,
            forall|j: int| 0 <= j < i ==> norm_bytes(names.deep_view()[j]) != norm_bytes(name@),
        decreases n - i,
    {
        let m = normalize_bytes(names[i].as_slice());
        if bytes_eq(m.as_slice(), norm.as_slice()) {
            proof {
                assert(norm_bytes(names.deep_view()[i as int]) == norm_bytes(name@));
            }
            return true;
        }
        i = i + 1;
    }
    false
}

/// One step of the strategy chain, for one dependency of one package: the
/// allow-list, then the analyzer report, then the heuristic scan.
pub fn detect_usage(
    dep: &DependencyDeclaration,
    report: &Option<AnalyzerReport>,
    snapshot: &SourceSnapshot,
) -> (v: UsageVerdict)
    ensures
        v@.dependency == dep@,
        v@.used == spec_used(encode_utf8(dep@.name), report_view(*report), snapshot@),
        v@.evidence_source == spec_evidence(encode_utf8(dep@.name), report_view(*report)),
{
    let name = dep.name.as_str().as_bytes();
    let owned = DependencyDeclaration { name: dep.name.clone(), table: dep.table };
    if allow_listed(name) {
        return UsageVerdict {
            dependency: owned,
            used: true,
            evidence_source: Evidence::AllowListed,
        };
    }
    let parsed: Option<Vec<Vec<u8>>> = match report {
        Some(r) => {
            match parse_analyzer_output(r.stdout.as_slice()) {
                Some(u) => Some(u),
                None => parse_analyzer_output(r.stderr.as_slice()),
            }
        },
        None => None,
    };
    match parsed {
        Some(u) => {
            proof {
                assert(spec_analyzer_unused(report_view(*report)) == Some(u.deep_view()));
            }
            let used = !listed(&u, name);
            UsageVerdict { dependency: owned, used, evidence_source: Evidence::ExternalAnalyzer }
        },
        None => {
            proof {
                assert(spec_analyzer_unused(report_view(*report)) is None);
            }
            let used = is_dependency_used(name, snapshot);
            UsageVerdict { dependency: owned, used, evidence_source: Evidence::HeuristicScan }
        },
    }
}

/// An allow-listed dependency is always reported used with the allow-list as
/// its evidence, whatever the analyzer said and whatever the sources hold.
pub proof fn lemma_allow_list_wins(name: Seq<u8>, rep: Option<ReportView>, snap: SnapshotView)
    requires
        spec_allow_listed(name),
    ensures
        spec_used(name, rep, snap),
        spec_evidence(name, rep) == Evidence::AllowListed,
{
}

/// With no analyzer report and no reference to the dependency anywhere in
/// the snapshot, the verdict is unused, by the heuristic scan.
pub proof fn lemma_heuristic_unused(name: Seq<u8>, snap: SnapshotView)
    requires
        !spec_allow_listed(name),
        !spec_heuristic_used(snap, name),
    ensures
        !spec_used(name, None, snap),
        spec_evidence(name, None) == Evidence::HeuristicScan,
{
}

} // verus!
