//! Discovery of buildable package roots: each candidate manifest directory is
//! classified against its ancestor chain (nearest first) as a member of the
//! first confirmed workspace root or as a standalone package, and the results
//! are collapsed into a registry keyed by canonical path, sorted and free of
//! duplicates.

use vstd::prelude::*;

use crate::bytes::{copy_bytes, lex_cmp, lex_lt, lemma_lex_connected, lemma_lex_trans, ByteOrder};

verus! {

/// An ancestor directory of a candidate manifest, nearest first, together
/// with the answer of the manifest-semantics query: whether that ancestor
/// holds a manifest that resolves to a workspace rooted exactly there.
pub struct Ancestor {
    pub path: Vec<u8>,
    pub is_workspace_root: bool,
}

/// The mathematical value of an [`Ancestor`].
pub struct AncestorView {
    pub path: Seq<u8>,
    pub is_workspace_root: bool,
}

impl View for Ancestor {
    type V = AncestorView;

    open spec fn view(&self) -> AncestorView {
        (AncestorView { path: self.path@, is_workspace_root: self.is_workspace_root })
    }
}

/// A candidate manifest directory together with its ancestor chain, nearest
/// ancestor first.
pub struct ManifestCandidate {
    pub dir: Vec<u8>,
    pub ancestors: Vec<Ancestor>,
}

/// The mathematical value of a [`ManifestCandidate`].
pub struct CandidateView {
    pub dir: Seq<u8>,
    pub ancestors: Seq<AncestorView>,
}

impl View for ManifestCandidate {
    type V = CandidateView;

    open spec fn view(&self) -> CandidateView {
        (CandidateView {
            dir: self.dir@,
            ancestors: self.ancestors@.map_values(|a: Ancestor| a@),
        })
    }
}

/// A discovered unit: a workspace root or a standalone package, identified by
/// its canonical path.
pub struct Project {
    pub path: Vec<u8>,
    pub is_workspace: bool,
}

/// The mathematical value of a [`Project`].
pub struct ProjectView {
    pub path: Seq<u8>,
    pub is_workspace: bool,
}

impl View for Project {
    type V = ProjectView;

    open spec fn view(&self) -> ProjectView {
        (ProjectView { path: self.path@, is_workspace: self.is_workspace })
    }
}

/// The views of a sequence of projects.
pub open spec fn proj_views(s: Seq<Project>) -> Seq<ProjectView> {
    s.map_values(|p: Project| p@)
}

/// The views of a sequence of candidates.
pub open spec fn cand_views(s: Seq<ManifestCandidate>) -> Seq<CandidateView> {
    s.map_values(|c: ManifestCandidate| c@)
}

/// Classification of one candidate: the nearest confirmed workspace root
/// wins; with no confirmed ancestor the directory itself is a standalone
/// package.
pub open spec fn resolve_ancestors(dir: Seq<u8>, ancs: Seq<AncestorView>) -> ProjectView
    decreases ancs.len(),
{
    if ancs.len() == 0 {
        (ProjectView { path: dir, is_workspace: false })
    } else if ancs[0].is_workspace_root {
        (ProjectView { path: ancs[0].path, is_workspace: true })
    } else {
        resolve_ancestors(dir, ancs.skip(1))
    }
}

/// The unit a candidate belongs to.
pub open spec fn spec_resolve(c: CandidateView) -> ProjectView {
    resolve_ancestors(c.dir, c.ancestors)
}

/// Insertion of one resolved unit into a registry kept sorted by path:
/// a duplicate path is collapsed into the existing entry, which stays a
/// workspace root if either report said so.
pub open spec fn spec_insert(s: Seq<ProjectView>, p: ProjectView) -> Seq<ProjectView>
    decreases s.len(),
{
    if s.len() == 0 {
        seq![p]
    } else if lex_lt(p.path, s[0].path) {
        seq![p] + s
    } else if p.path == s[0].path {
        seq![
            (ProjectView { path: s[0].path, is_workspace: s[0].is_workspace || p.is_workspace }),
        ] + s.skip(1)
    } else {
        seq![s[0]] + spec_insert(s.skip(1), p)
    }
}

/// The registry that a candidate list yields: every candidate resolved and
/// inserted, in order.
pub open spec fn spec_discover(cands: Seq<CandidateView>) -> Seq<ProjectView>
    decreases cands.len(),
{
    if cands.len() == 0 {
        Seq::<ProjectView>::empty()
    } else {
        spec_insert(spec_discover(cands.drop_last()), spec_resolve(cands.last()))
    }
}

/// The registry is strictly ordered by path, so each path occurs once.
pub open spec fn strictly_sorted(s: Seq<ProjectView>) -> bool {
    forall|i: int, j: int| 0 <= i < j < s.len() ==> lex_lt(s[i].path, s[j].path)
}

/// Some entry of `s` has path `q`.
pub open spec fn has_path(s: Seq<ProjectView>, q: Seq<u8>) -> bool {
    exists|k: int| 0 <= k < s.len() && s[k].path == q
}

/// Some entry of `s` has path `q` and is marked as a workspace root.
pub open spec fn flag_of(s: Seq<ProjectView>, q: Seq<u8>) -> bool {
    exists|k: int| 0 <= k < s.len() && s[k].path == q && s[k].is_workspace
}

/// Some candidate resolves to a unit with path `q`.
pub open spec fn resolved_to(cands: Seq<CandidateView>, q: Seq<u8>) -> bool {
    exists|i: int| 0 <= i < cands.len() && spec_resolve(cands[i]).path == q
}

/// Some candidate resolves to a confirmed workspace root at path `q`.
pub open spec fn resolved_workspace(cands: Seq<CandidateView>, q: Seq<u8>) -> bool {
    exists|i: int|
        0 <= i < cands.len() && spec_resolve(cands[i]) == (ProjectView {
            path: q,
            is_workspace: true,
        })
}

/// The ambiguity policy of the resolver: the first confirmed workspace root
/// in the ancestor chain settles the candidate, and what stands behind it is
/// never consulted.
pub proof fn lemma_first_confirmed_settles(dir: Seq<u8>, ancs: Seq<AncestorView>, k: int)
    requires
        0 <= k < ancs.len(),
        ancs[k].is_workspace_root,
        forall|j: int| 0 <= j < k ==> !ancs[j].is_workspace_root,
    ensures
        resolve_ancestors(dir, ancs) == (ProjectView { path: ancs[k].path, is_workspace: true }),
    decreases k,
{
    if k > 0 {
        assert(ancs.skip(1)[k - 1] == ancs[k]);
        assert(forall|j: int| 0 <= j < k - 1 ==> ancs.skip(1)[j] == ancs[j + 1]);
        lemma_first_confirmed_settles(dir, ancs.skip(1), k - 1);
    }
}

/// A candidate with no confirmed workspace root among its ancestors is a
/// standalone package at its own directory.
pub proof fn lemma_no_confirmed_is_standalone(dir: Seq<u8>, ancs: Seq<AncestorView>)
    requires
        forall|j: int| 0 <= j < ancs.len() ==> !ancs[j].is_workspace_root,
    ensures
        resolve_ancestors(dir, ancs) == (ProjectView { path: dir, is_workspace: false }),
    decreases ancs.len(),
{
    if ancs.len() > 0 {
        assert(forall|j: int| 0 <= j < ancs.skip(1).len() ==> ancs.skip(1)[j] == ancs[j + 1]);
        lemma_no_confirmed_is_standalone(dir, ancs.skip(1));
    }
}

/// Classify one candidate manifest directory.
pub fn resolve_candidate(c: &ManifestCandidate) -> (r: Project)
    ensures
        r@ == spec_resolve(c@),
{
    let n = c.ancestors.len();
    let mut i: usize = 0;
    proof {
        assert(c@.ancestors.skip(0) =~= c@.ancestors);
    }
    while i < n
        invariant
            n == c.ancestors@.len(),
            i <= n,
            c@.ancestors.len() == n,
            forall|k: int| 0 <= k < n ==> c@.ancestors[k] == c.ancestors@[k]@,
            spec_resolve(c@) == resolve_ancestors(c@.dir, c@.ancestors.skip(i as int)),
        decreases n - i,
    {
        proof {
            assert(c@.ancestors.skip(i as int)[0] == c@.ancestors[i as int]);
        }
        if c.ancestors[i].is_workspace_root {
            let r = Project { path: copy_bytes(c.ancestors[i].path.as_slice()), is_workspace: true };
            return r;
        }
        proof {
            assert(c@.ancestors.skip(i as int).skip(1) =~= c@.ancestors.skip(i + 1));
        }
        i = i + 1;
    }
    proof {
        assert(c@.ancestors.skip(n as int) =~= Seq::<AncestorView>::empty());
    }
    Project { path: copy_bytes(c.dir.as_slice()), is_workspace: false }
}

/// `spec_insert` skips over a prefix of entries that precede `p`.
proof fn lemma_insert_skip(s: Seq<ProjectView>, p: ProjectView, k: int)
    requires
        0 <= k <= s.len(),
        forall|j: int| 0 <= j < k ==> lex_lt(s[j].path, p.path),
    ensures
        spec_insert(s, p) == s.take(k) + spec_insert(s.skip(k), p),
    decreases k,
{
    if k == 0 {
        assert(s.skip(0) =~= s);
        assert(s.take(0) + spec_insert(s, p) =~= spec_insert(s, p));
    } else {
        lemma_lex_connected(p.path, s[0].path);
        lemma_lex_connected(s[0].path, s[0].path);
        if lex_lt(p.path, s[0].path) {
            lemma_lex_trans(s[0].path, p.path, s[0].path);
        }
        assert(!lex_lt(p.path, s[0].path) && p.path != s[0].path);
        lemma_insert_skip(s.skip(1), p, k - 1);
        assert(s.skip(1).take(k - 1) =~= s.take(k).skip(1));
        assert(s.skip(1).skip(k - 1) =~= s.skip(k));
        assert(seq![s[0]] + (s.skip(1).take(k - 1) + spec_insert(s.skip(k), p)) =~= s.take(k)
            + spec_insert(s.skip(k), p));
    }
}

/// What one insertion does to the registry: order is kept, the inserted path
/// becomes present, and a path is flagged as a workspace root exactly when an
/// earlier report or the new one says so.
pub proof fn lemma_insert_props(s: Seq<ProjectView>, p: ProjectView)
    requires
        strictly_sorted(s),
    ensures
        strictly_sorted(spec_insert(s, p)),
        forall|q: Seq<u8>|
            #![trigger has_path(spec_insert(s, p), q)]
            #![trigger has_path(s, q)]
            has_path(spec_insert(s, p), q) <==> (has_path(s, q) || q == p.path),
        forall|q: Seq<u8>|
            #![trigger flag_of(spec_insert(s, p), q)]
            #![trigger flag_of(s, q)]
            flag_of(spec_insert(s, p), q) <==> (flag_of(s, q) || (q == p.path && p.is_workspace)),
    decreases s.len(),
{
    let out = spec_insert(s, p);
    if s.len() == 0 {
        assert forall|q: Seq<u8>| has_path(out, q) implies (has_path(s, q) || q == p.path) by {
            let k = choose|k: int| 0 <= k < out.len() && out[k].path == q;
            assert(out[k] == p);
        }
        assert forall|q: Seq<u8>| (has_path(s, q) || q == p.path) implies has_path(out, q) by {
            assert(out[0].path == p.path);
        }
        assert forall|q: Seq<u8>| flag_of(out, q) implies (flag_of(s, q) || (q == p.path
            && p.is_workspace)) by {
            let k = choose|k: int| 0 <= k < out.len() && out[k].path == q && out[k].is_workspace;
            assert(out[k] == p);
        }
        assert forall|q: Seq<u8>| (flag_of(s, q) || (q == p.path && p.is_workspace)) implies flag_of(
            out,
            q,
        ) by {
            assert(out[0] == p);
        }
    } else if lex_lt(p.path, s[0].path) {
        assert forall|i: int, j: int| 0 <= i < j < out.len() implies lex_lt(
            out[i].path,
            out[j].path,
        ) by {
            if i == 0 {
                assert(out[j] == s[j - 1]);
                if j > 1 {
                    lemma_lex_trans(p.path, s[0].path, s[j - 1].path);
                } else {
                    assert(out[j].path == s[0].path);
                }
            } else {
                assert(out[i] == s[i - 1] && out[j] == s[j - 1]);
            }
        }
        assert forall|q: Seq<u8>| has_path(out, q) implies (has_path(s, q) || q == p.path) by {
            let k = choose|k: int| 0 <= k < out.len() && out[k].path == q;
            if k > 0 {
                assert(s[k - 1].path == q);
            }
        }
        assert forall|q: Seq<u8>| (has_path(s, q) || q == p.path) implies has_path(out, q) by {
            if q == p.path {
                assert(out[0].path == q);
            } else {
                let k = choose|k: int| 0 <= k < s.len() && s[k].path == q;
                assert(out[k + 1].path == q);
            }
        }
        assert forall|q: Seq<u8>| flag_of(out, q) implies (flag_of(s, q) || (q == p.path
            && p.is_workspace)) by {
            let k = choose|k: int| 0 <= k < out.len() && out[k].path == q && out[k].is_workspace;
            if k > 0 {
                assert(s[k - 1].path == q && s[k - 1].is_workspace);
            }
        }
        assert forall|q: Seq<u8>| (flag_of(s, q) || (q == p.path && p.is_workspace)) implies flag_of(
            out,
            q,
        ) by {
            if q == p.path && p.is_workspace {
                assert(out[0].path == q && out[0].is_workspace);
            } else {
                let k = choose|k: int| 0 <= k < s.len() && s[k].path == q && s[k].is_workspace;
                assert(out[k + 1].path == q && out[k + 1].is_workspace);
            }
        }
    } else if p.path == s[0].path {
        let merged = (ProjectView {
            path: s[0].path,
            is_workspace: s[0].is_workspace || p.is_workspace,
        });
        assert(out == seq![merged] + s.skip(1));
        assert forall|i: int, j: int| 0 <= i < j < out.len() implies lex_lt(
            out[i].path,
            out[j].path,
        ) by {
            if i == 0 {
                assert(out[j] == s[j]);
            } else {
                assert(out[i] == s[i] && out[j] == s[j]);
            }
        }
        assert forall|q: Seq<u8>| has_path(out, q) implies (has_path(s, q) || q == p.path) by {
            let k = choose|k: int| 0 <= k < out.len() && out[k].path == q;
            assert(s[k].path == q);
        }
        assert forall|q: Seq<u8>| (has_path(s, q) || q == p.path) implies has_path(out, q) by {
            if q == p.path {
                assert(out[0].path == q);
            } else {
                let k = choose|k: int| 0 <= k < s.len() && s[k].path == q;
                assert(k > 0);
                assert(out[k].path == q);
            }
        }
        assert forall|q: Seq<u8>| flag_of(out, q) implies (flag_of(s, q) || (q == p.path
            && p.is_workspace)) by {
            let k = choose|k: int| 0 <= k < out.len() && out[k].path == q && out[k].is_workspace;
            if k > 0 {
                assert(s[k].path == q && s[k].is_workspace);
            } else {
                assert(s[0].is_workspace || p.is_workspace);
                if s[0].is_workspace {
                    assert(s[0].path == q && s[0].is_workspace);
                }
            }
        }
        assert forall|q: Seq<u8>| (flag_of(s, q) || (q == p.path && p.is_workspace)) implies flag_of(
            out,
            q,
        ) by {
            if q == p.path && p.is_workspace {
                assert(out[0].path == q && out[0].is_workspace);
            } else {
                let k = choose|k: int| 0 <= k < s.len() && s[k].path == q && s[k].is_workspace;
                if k == 0 {
                    assert(out[0].path == q && out[0].is_workspace);
                } else {
                    assert(out[k].path == q && out[k].is_workspace);
                }
            }
        }
    } else {
        lemma_lex_connected(p.path, s[0].path);
        assert(lex_lt(s[0].path, p.path));
        let t = s.skip(1);
        let rest = spec_insert(t, p);
        assert(forall|i: int, j: int| 0 <= i < j < t.len() ==> lex_lt(t[i].path, t[j].path));
        lemma_insert_props(t, p);
        assert(out == seq![s[0]] + rest);
        assert forall|jj: int| 0 <= jj < rest.len() implies lex_lt(s[0].path, rest[jj].path) by {
            assert(has_path(rest, rest[jj].path));
            assert(has_path(t, rest[jj].path) || rest[jj].path == p.path);
            if rest[jj].path == p.path {
                assert(lex_lt(s[0].path, rest[jj].path));
            } else {
                let m = choose|m: int| 0 <= m < t.len() && t[m].path == rest[jj].path;
                assert(t[m] == s[m + 1]);
                assert(lex_lt(s[0].path, s[m + 1].path));
            }
        }
        assert forall|i: int, j: int| 0 <= i < j < out.len() implies lex_lt(
            out[i].path,
            out[j].path,
        ) by {
            if i == 0 {
                assert(out[j] == rest[j - 1]);
            } else {
                assert(out[i] == rest[i - 1] && out[j] == rest[j - 1]);
            }
        }
        assert forall|q: Seq<u8>| has_path(out, q) implies (has_path(s, q) || q == p.path) by {
            let k = choose|k: int| 0 <= k < out.len() && out[k].path == q;
            if k == 0 {
                assert(s[0].path == q);
            } else {
                assert(rest[k - 1].path == q);
                assert(has_path(rest, q));
                assert(has_path(t, q) || q == p.path);
                if q != p.path {
                    let m = choose|m: int| 0 <= m < t.len() && t[m].path == q;
                    assert(t[m] == s[m + 1]);
                    assert(s[m + 1].path == q);
                }
            }
        }
        assert forall|q: Seq<u8>| (has_path(s, q) || q == p.path) implies has_path(out, q) by {
            if q == p.path {
                assert(has_path(t, q) || q == p.path);
                assert(has_path(rest, q));
                let m = choose|m: int| 0 <= m < rest.len() && rest[m].path == q;
                assert(out[m + 1].path == q);
            } else {
                let k = choose|k: int| 0 <= k < s.len() && s[k].path == q;
                if k == 0 {
                    assert(out[0].path == q);
                } else {
                    assert(t[k - 1] == s[k]);
                    assert(has_path(t, q));
                    assert(has_path(rest, q));
                    let m = choose|m: int| 0 <= m < rest.len() && rest[m].path == q;
                    assert(out[m + 1].path == q);
                }
            }
        }
        assert forall|q: Seq<u8>| flag_of(out, q) implies (flag_of(s, q) || (q == p.path
            && p.is_workspace)) by {
            let k = choose|k: int| 0 <= k < out.len() && out[k].path == q && out[k].is_workspace;
            if k == 0 {
                assert(s[0].path == q && s[0].is_workspace);
            } else {
                assert(rest[k - 1].path == q && rest[k - 1].is_workspace);
                assert(flag_of(rest, q));
                assert(flag_of(t, q) || (q == p.path && p.is_workspace));
                if !(q == p.path && p.is_workspace) {
                    let m = choose|m: int| 0 <= m < t.len() && t[m].path == q && t[m].is_workspace;
                    assert(t[m] == s[m + 1]);
                    assert(s[m + 1].path == q && s[m + 1].is_workspace);
                }
            }
        }
        assert forall|q: Seq<u8>| (flag_of(s, q) || (q == p.path && p.is_workspace)) implies flag_of(
            out,
            q,
        ) by {
            if q == p.path && p.is_workspace {
                assert(flag_of(t, q) || (q == p.path && p.is_workspace));
                assert(flag_of(rest, q));
                let m = choose|m: int|
                    0 <= m < rest.len() && rest[m].path == q && rest[m].is_workspace;
                assert(out[m + 1].path == q && out[m + 1].is_workspace);
            } else {
                let k = choose|k: int| 0 <= k < s.len() && s[k].path == q && s[k].is_workspace;
                if k == 0 {
                    assert(out[0].path == q && out[0].is_workspace);
                } else {
                    assert(t[k - 1] == s[k]);
                    assert(flag_of(t, q));
                    assert(flag_of(rest, q));
                    let m = choose|m: int|
                        0 <= m < rest.len() && rest[m].path == q && rest[m].is_workspace;
                    assert(out[m + 1].path == q && out[m + 1].is_workspace);
                }
            }
        }
    }
}

/// Insert one resolved unit into the sorted registry, collapsing a duplicate
/// path into the existing entry.
fn registry_insert(reg: &mut Vec<Project>, p: Project)
    requires
        strictly_sorted(proj_views(old(reg)@)),
    ensures
        proj_views(final(reg)@) == spec_insert(proj_views(old(reg)@), p@),
{
    let ghost s = proj_views(reg@);
    let n = reg.len();
    let mut k: usize = 0;
    while k < n
        invariant
            n == reg@.len(),
            k <= n,
            reg@ == old(reg)@,
            s == proj_views(reg@),
            s.len() == n,
            forall|j: int| 0 <= j < n ==> s[j] == reg@[j]@,
            forall|j: int| 0 <= j < k ==> lex_lt(s[j].path, p@.path),
        decreases n - k,
    {
        let ord = lex_cmp(p.path.as_slice(), reg[k].path.as_slice());
        match ord {
            ByteOrder::Less => {
                proof {
                    lemma_insert_skip(s, p@, k as int);
                    assert(s.skip(k as int)[0] == s[k as int]);
                    assert(lex_lt(p@.path, s[k as int].path));
                    assert(spec_insert(s.skip(k as int), p@) == seq![p@] + s.skip(k as int));
                }
                reg.insert(k, p);
                proof {
                    assert(proj_views(reg@) =~= s.take(k as int) + (seq![p@] + s.skip(k as int)));
                }
                return ;
            },
            ByteOrder::Equal => {
                proof {
                    lemma_insert_skip(s, p@, k as int);
                    assert(s.skip(k as int)[0] == s[k as int]);
                    assert(p@.path == s[k as int].path);
                    lemma_lex_connected(p@.path, s[k as int].path);
                    assert(!lex_lt(p@.path, s.skip(k as int)[0].path));
                    assert(spec_insert(s.skip(k as int), p@) == seq![
                        (ProjectView {
                            path: s[k as int].path,
                            is_workspace: s[k as int].is_workspace || p@.is_workspace,
                        }),
                    ] + s.skip(k as int).skip(1));
                }
                let e = reg.remove(k);
                let merged = Project {
                    path: e.path,
                    is_workspace: e.is_workspace || p.is_workspace,
                };
                reg.insert(k, merged);
                proof {
                    assert(s.skip(k as int).skip(1) =~= s.skip(k + 1));
                    assert(proj_views(reg@) =~= s.take(k as int) + (seq![
                        (ProjectView {
                            path: s[k as int].path,
                            is_workspace: s[k as int].is_workspace || p@.is_workspace,
                        }),
                    ] + s.skip(k + 1)));
                }
                return ;
            },
            ByteOrder::Greater => {},
        }
        k = k + 1;
    }
    proof {
        lemma_insert_skip(s, p@, n as int);
        assert(s.skip(n as int) =~= Seq::<ProjectView>::empty());
        assert(spec_insert(s.skip(n as int), p@) == seq![p@]);
    }
    reg.push(p);
    proof {
        assert(s.take(n as int) =~= s);
        assert(proj_views(reg@) =~= s + seq![p@]);
        assert(s + seq![p@] =~= s.take(n as int) + spec_insert(s.skip(n as int), p@));
    }
}

/// The registry that a walk over the candidate manifests yields: one entry
/// per distinct resolved root, sorted by canonical path, workspace roots
/// collapsed to a single entry however many members reported them.
pub fn find_cargo_projects(candidates: &Vec<ManifestCandidate>) -> (r: Vec<Project>)
    ensures
        proj_views(r@) == spec_discover(cand_views(candidates@)),
        strictly_sorted(proj_views(r@)),
        forall|q: Seq<u8>|
            has_path(proj_views(r@), q) <==> resolved_to(cand_views(candidates@), q),
        forall|q: Seq<u8>|
            flag_of(proj_views(r@), q) <==> resolved_workspace(cand_views(candidates@), q),
{
    let n = candidates.len();
    let mut reg: Vec<Project> = Vec::new();
    let mut i: usize = 0;
    proof {
        assert(proj_views(reg@) =~= Seq::<ProjectView>::empty());
        assert(cand_views(candidates@).take(0) =~= Seq::<CandidateView>::empty());
    }
    while i < n
        invariant
            n == candidates@.len(),
            i <= n,
            cand_views(candidates@).len() == n,
            forall|j: int| 0 <= j < n ==> cand_views(candidates@)[j] == candidates@[j]@,
            proj_views(reg@) == spec_discover(cand_views(candidates@).take(i as int)),
            strictly_sorted(proj_views(reg@)),
        decreases n - i,
    {
        let ghost pre = cand_views(candidates@).take(i as int);
        let p = resolve_candidate(&candidates[i]);
        registry_insert(&mut reg, p);
        proof {
            let post = cand_views(candidates@).take(i + 1);
            assert(post.drop_last() =~= pre);
            assert(post.last() == candidates@[i as int]@);
            lemma_insert_props(spec_discover(pre), spec_resolve(candidates@[i as int]@));
        }
        i = i + 1;
    }
    proof {
        assert(cand_views(candidates@).take(n as int) =~= cand_views(candidates@));
        lemma_discover_props(cand_views(candidates@));
    }
    reg
}

/// What discovery yields, summed over the whole candidate list: a registry
/// sorted by path whose paths are exactly the resolved roots, flagged as
/// workspace roots exactly where some candidate confirmed one.
pub proof fn lemma_discover_props(cands: Seq<CandidateView>)
    ensures
        strictly_sorted(spec_discover(cands)),
        forall|q: Seq<u8>|
            #![trigger has_path(spec_discover(cands), q)]
            #![trigger resolved_to(cands, q)]
            has_path(spec_discover(cands), q) <==> resolved_to(cands, q),
        forall|q: Seq<u8>|
            #![trigger flag_of(spec_discover(cands), q)]
            #![trigger resolved_workspace(cands, q)]
            flag_of(spec_discover(cands), q) <==> resolved_workspace(cands, q),
    decreases cands.len(),
{
    let d = spec_discover(cands);
    if cands.len() == 0 {
        assert(forall|q: Seq<u8>| !has_path(d, q));
        assert(forall|q: Seq<u8>| !flag_of(d, q));
        assert(forall|q: Seq<u8>| !resolved_to(cands, q));
        assert(forall|q: Seq<u8>| !resolved_workspace(cands, q));
    } else {
        let prev = cands.drop_last();
        let dp = spec_discover(prev);
        let p = spec_resolve(cands.last());
        lemma_discover_props(prev);
        lemma_insert_props(dp, p);
        assert(d == spec_insert(dp, p));
        assert forall|q: Seq<u8>| has_path(d, q) implies resolved_to(cands, q) by {
            assert(has_path(dp, q) || q == p.path);
            if has_path(dp, q) {
                assert(resolved_to(prev, q));
                let k = choose|k: int| 0 <= k < prev.len() && spec_resolve(prev[k]).path == q;
                assert(prev[k] == cands[k]);
                assert(spec_resolve(cands[k]).path == q);
            } else {
                assert(cands.last() == cands[cands.len() - 1]);
                assert(spec_resolve(cands[cands.len() - 1]).path == q);
            }
        }
        assert forall|q: Seq<u8>| resolved_to(cands, q) implies has_path(d, q) by {
            let k = choose|k: int| 0 <= k < cands.len() && spec_resolve(cands[k]).path == q;
            if k < cands.len() - 1 {
                assert(prev[k] == cands[k]);
                assert(spec_resolve(prev[k]).path == q);
                assert(resolved_to(prev, q));
                assert(has_path(dp, q));
            } else {
                assert(cands[k] == cands.last());
                assert(q == p.path);
                assert(has_path(dp, q) || q == p.path);
            }
            assert(has_path(spec_insert(dp, p), q));
        }
        assert forall|q: Seq<u8>| flag_of(d, q) implies resolved_workspace(cands, q) by {
            assert(flag_of(dp, q) || (q == p.path && p.is_workspace));
            if flag_of(dp, q) {
                assert(resolved_workspace(prev, q));
                let k = choose|k: int|
                    0 <= k < prev.len() && spec_resolve(prev[k]) == (ProjectView {
                        path: q,
                        is_workspace: true,
                    });
                assert(prev[k] == cands[k]);
                assert(spec_resolve(cands[k]) == (ProjectView { path: q, is_workspace: true }));
            } else {
                assert(cands.last() == cands[cands.len() - 1]);
                assert(p == (ProjectView { path: q, is_workspace: true }));
                assert(spec_resolve(cands[cands.len() - 1]) == (ProjectView {
                    path: q,
                    is_workspace: true,
                }));
            }
        }
        assert forall|q: Seq<u8>| resolved_workspace(cands, q) implies flag_of(d, q) by {
            let k = choose|k: int|
                0 <= k < cands.len() && spec_resolve(cands[k]) == (ProjectView {
                    path: q,
                    is_workspace: true,
                });
            if k < cands.len() - 1 {
                assert(prev[k] == cands[k]);
                assert(spec_resolve(prev[k]) == (ProjectView { path: q, is_workspace: true }));
                assert(resolved_workspace(prev, q));
                assert(flag_of(dp, q));
            } else {
                assert(cands[k] == cands.last());
                assert(q == p.path && p.is_workspace);
                assert(flag_of(dp, q) || (q == p.path && p.is_workspace));
            }
            assert(flag_of(spec_insert(dp, p), q));
        }
    }
}

/// Two registries that are both strictly sorted and agree on which paths they
/// hold and which of those are workspace roots are the same sequence.
pub proof fn lemma_registry_canonical(s1: Seq<ProjectView>, s2: Seq<ProjectView>)
    requires
        strictly_sorted(s1),
        strictly_sorted(s2),
        forall|q: Seq<u8>| has_path(s1, q) <==> has_path(s2, q),
        forall|q: Seq<u8>| flag_of(s1, q) <==> flag_of(s2, q),
    ensures
        s1 == s2,
    decreases s1.len(),
{
    if s1.len() == 0 {
        if s2.len() > 0 {
            assert(has_path(s2, s2[0].path));
        }
        assert(s1 =~= s2);
    } else {
        assert(has_path(s1, s1[0].path));
        assert(has_path(s2, s2[0].path));
        let k = choose|k: int| 0 <= k < s2.len() && s2[k].path == s1[0].path;
        let m = choose|m: int| 0 <= m < s1.len() && s1[m].path == s2[0].path;
        if k > 0 && m > 0 {
            assert(lex_lt(s2[0].path, s2[k].path));
            assert(lex_lt(s1[0].path, s1[m].path));
            lemma_lex_trans(s2[0].path, s1[0].path, s2[0].path);
            lemma_lex_connected(s2[0].path, s2[0].path);
            assert(false);
        }
        assert(s1[0].path == s2[0].path);
        assert(s1[0].is_workspace == s2[0].is_workspace) by {
            if s1[0].is_workspace {
                assert(flag_of(s1, s1[0].path));
                let j = choose|j: int|
                    0 <= j < s2.len() && s2[j].path == s1[0].path && s2[j].is_workspace;
                if j > 0 {
                    assert(lex_lt(s2[0].path, s2[j].path));
                    lemma_lex_connected(s2[0].path, s2[j].path);
                    assert(false);
                }
            }
            if s2[0].is_workspace {
                assert(flag_of(s2, s2[0].path));
                let j = choose|j: int|
                    0 <= j < s1.len() && s1[j].path == s2[0].path && s1[j].is_workspace;
                if j > 0 {
                    assert(lex_lt(s1[0].path, s1[j].path));
                    lemma_lex_connected(s1[0].path, s1[j].path);
                    assert(false);
                }
            }
        }
        let t1 = s1.skip(1);
        let t2 = s2.skip(1);
        assert forall|q: Seq<u8>| has_path(t1, q) <==> has_path(t2, q) by {
            lemma_tail_membership(s1, q);
            lemma_tail_membership(s2, q);
        }
        assert forall|q: Seq<u8>| flag_of(t1, q) <==> flag_of(t2, q) by {
            lemma_tail_flag(s1, q);
            lemma_tail_flag(s2, q);
        }
        assert(forall|i: int, j: int| 0 <= i < j < t1.len() ==> lex_lt(t1[i].path, t1[j].path));
        assert(forall|i: int, j: int| 0 <= i < j < t2.len() ==> lex_lt(t2[i].path, t2[j].path));
        lemma_registry_canonical(t1, t2);
        assert(s1 =~= seq![s1[0]] + t1);
        assert(s2 =~= seq![s2[0]] + t2);
        assert(s1[0] == s2[0]);
    }
}

/// In a strictly sorted registry, membership in the tail is membership in the
/// whole minus the head path.
proof fn lemma_tail_membership(s: Seq<ProjectView>, q: Seq<u8>)
    requires
        strictly_sorted(s),
        s.len() > 0,
    ensures
        has_path(s.skip(1), q) <==> (has_path(s, q) && q != s[0].path),
{
    let t = s.skip(1);
    if has_path(t, q) {
        let k = choose|k: int| 0 <= k < t.len() && t[k].path == q;
        assert(s[k + 1].path == q);
        assert(lex_lt(s[0].path, s[k + 1].path));
        lemma_lex_connected(s[0].path, s[k + 1].path);
    }
    if has_path(s, q) && q != s[0].path {
        let k = choose|k: int| 0 <= k < s.len() && s[k].path == q;
        assert(k > 0);
        assert(t[k - 1].path == q);
    }
}

/// In a strictly sorted registry, a workspace flag in the tail is a workspace
/// flag in the whole at a path other than the head path.
proof fn lemma_tail_flag(s: Seq<ProjectView>, q: Seq<u8>)
    requires
        strictly_sorted(s),
        s.len() > 0,
    ensures
        flag_of(s.skip(1), q) <==> (flag_of(s, q) && q != s[0].path),
{
    let t = s.skip(1);
    if flag_of(t, q) {
        let k = choose|k: int| 0 <= k < t.len() && t[k].path == q && t[k].is_workspace;
        assert(s[k + 1].path == q && s[k + 1].is_workspace);
        assert(lex_lt(s[0].path, s[k + 1].path));
        lemma_lex_connected(s[0].path, s[k + 1].path);
    }
    if flag_of(s, q) && q != s[0].path {
        let k = choose|k: int| 0 <= k < s.len() && s[k].path == q && s[k].is_workspace;
        assert(k > 0);
        assert(t[k - 1].path == q && t[k - 1].is_workspace);
    }
}

/// Discovery is a function of the set of candidates alone: two walks that
/// find the same candidate manifests, in whatever order and however often
/// repeated, yield the identical, identically ordered registry.
pub proof fn lemma_discovery_order_independent(c1: Seq<CandidateView>, c2: Seq<CandidateView>)
    requires
        forall|c: CandidateView| c1.contains(c) <==> c2.contains(c),
    ensures
        spec_discover(c1) == spec_discover(c2),
{
    lemma_discover_props(c1);
    lemma_discover_props(c2);
    assert forall|q: Seq<u8>|
        #![trigger resolved_to(c1, q)]
        #![trigger resolved_to(c2, q)]
        resolved_to(c1, q) <==> resolved_to(c2, q) by {
        if resolved_to(c1, q) {
            let i = choose|i: int| 0 <= i < c1.len() && spec_resolve(c1[i]).path == q;
            assert(c1.contains(c1[i]));
            let j = choose|j: int| 0 <= j < c2.len() && c2[j] == c1[i];
            assert(spec_resolve(c2[j]).path == q);
        }
        if resolved_to(c2, q) {
            let i = choose|i: int| 0 <= i < c2.len() && spec_resolve(c2[i]).path == q;
            assert(c2.contains(c2[i]));
            let j = choose|j: int| 0 <= j < c1.len() && c1[j] == c2[i];
            assert(spec_resolve(c1[j]).path == q);
        }
    }
    assert forall|q: Seq<u8>|
        #![trigger resolved_workspace(c1, q)]
        #![trigger resolved_workspace(c2, q)]
        resolved_workspace(c1, q) <==> resolved_workspace(c2, q) by {
        if resolved_workspace(c1, q) {
            let i = choose|i: int|
                0 <= i < c1.len() && spec_resolve(c1[i]) == (ProjectView {
                    path: q,
                    is_workspace: true,
                });
            assert(c1.contains(c1[i]));
            let j = choose|j: int| 0 <= j < c2.len() && c2[j] == c1[i];
            assert(spec_resolve(c2[j]) == (ProjectView { path: q, is_workspace: true }));
        }
        if resolved_workspace(c2, q) {
            let i = choose|i: int|
                0 <= i < c2.len() && spec_resolve(c2[i]) == (ProjectView {
                    path: q,
                    is_workspace: true,
                });
            assert(c2.contains(c2[i]));
            let j = choose|j: int| 0 <= j < c1.len() && c1[j] == c2[i];
            assert(spec_resolve(c1[j]) == (ProjectView { path: q, is_workspace: true }));
        }
    }
    lemma_registry_canonical(spec_discover(c1), spec_discover(c2));
}

/// A workspace member contributes its workspace root to the registry, never
/// its own sub-path: the registry holds the member's directory only if some
/// candidate resolves to that directory in its own right.
pub proof fn lemma_member_contributes_root(cands: Seq<CandidateView>, i: int, k: int)
    requires
        0 <= i < cands.len(),
        0 <= k < cands[i].ancestors.len(),
        cands[i].ancestors[k].is_workspace_root,
        forall|j: int| 0 <= j < k ==> !cands[i].ancestors[j].is_workspace_root,
    ensures
        spec_resolve(cands[i]).path == cands[i].ancestors[k].path,
        has_path(spec_discover(cands), cands[i].ancestors[k].path),
        (forall|j: int| 0 <= j < cands.len() ==> spec_resolve(cands[j]).path != cands[i].dir)
            ==> !has_path(spec_discover(cands), cands[i].dir),
{
    lemma_first_confirmed_settles(cands[i].dir, cands[i].ancestors, k);
    lemma_discover_props(cands);
    assert(resolved_to(cands, cands[i].ancestors[k].path));
}

/// However many member manifests of one workspace the walk finds, the
/// registry holds exactly one entry for that workspace root.
pub proof fn lemma_workspace_dedup(cands: Seq<CandidateView>, w: Seq<u8>)
    requires
        resolved_to(cands, w),
    ensures
        exists|k: int| 0 <= k < spec_discover(cands).len() && spec_discover(cands)[k].path == w,
        forall|k1: int, k2: int|
            0 <= k1 < spec_discover(cands).len() && 0 <= k2 < spec_discover(cands).len()
                && spec_discover(cands)[k1].path == w && spec_discover(cands)[k2].path == w ==> k1
                == k2,
{
    let d = spec_discover(cands);
    lemma_discover_props(cands);
    assert(has_path(d, w));
    assert forall|k1: int, k2: int|
        0 <= k1 < d.len() && 0 <= k2 < d.len() && d[k1].path == w && d[k2].path == w implies k1
        == k2 by {
        if k1 < k2 {
            assert(lex_lt(d[k1].path, d[k2].path));
            lemma_lex_connected(w, w);
        }
        if k2 < k1 {
            assert(lex_lt(d[k2].path, d[k1].path));
            lemma_lex_connected(w, w);
        }
    }
}

} // verus!
