//! Filtering for the manifest tree walk: hidden-directory names, glob
//! exclusion of root-relative paths, and the pruning rule under which a
//! manifest is discovered only if every directory on its root-relative path
//! passes both checks.
//!
//! Paths are root-relative byte strings whose components are separated by
//! `/` (byte 47); the walk itself is performed by the caller, which asks
//! [`should_enter`] about each entry, or hands a collected candidate list to
//! [`select_manifests`].

use vstd::prelude::*;

use crate::bytes::prefix_vec;

verus! {

/// What `glob::Pattern::new(pattern)?.matches(text)` returns: `None` when the
/// pattern does not compile (or either argument is not UTF-8), otherwise
/// `Some` of the match result. A pure function of the two byte strings.
pub uninterp spec fn spec_glob_eval(pattern: Seq<u8>, text: Seq<u8>) -> Option<bool>;

/// Relies on `glob::Pattern::new` and `glob::Pattern::matches`: compiling a
/// pattern and matching it against a text are deterministic functions of the
/// two strings alone; a pattern that does not compile yields no match result.
#[verifier::external_body]
pub fn glob_eval(pattern: &[u8], text: &[u8]) -> (r: Option<bool>)
    ensures
        r == spec_glob_eval(pattern@, text@),
{
    let p = match core::str::from_utf8(pattern) {
        Ok(p) => p,
        Err(_) => return None,
    };
    let t = match core::str::from_utf8(text) {
        Ok(t) => t,
        Err(_) => return None,
    };
    match glob::Pattern::new(p) {
        Ok(pat) => Some(pat.matches(t)),
        Err(_) => None,
    }
}

/// A file or directory name that the walk skips: it starts with a dot and is
/// neither the current-directory nor the parent-directory name.
pub open spec fn is_hidden_name(name: Seq<u8>) -> bool {
    name.len() > 0 && name[0] == 46 && name != seq![46u8] && name != seq![46u8, 46u8]
}

/// Some exclude pattern definitely matches `text`.
pub open spec fn spec_excluded(text: Seq<u8>, patterns: Seq<Seq<u8>>) -> bool {
    exists|j: int| 0 <= j < patterns.len() && spec_glob_eval(patterns[j], text) == Some(true)
}

/// `p[start..end]` is one `/`-separated component of `p`, and `end` is a
/// component boundary (the end of the path or the position of a separator).
pub open spec fn component_at(p: Seq<u8>, start: int, end: int) -> bool {
    &&& 0 <= start <= end <= p.len()
    &&& (start == 0 || p[start - 1] == 47)
    &&& (end == p.len() || p[end] == 47)
    &&& forall|m: int| start <= m < end ==> p[m] != 47
}

/// The pruning rule: a root-relative path survives the walk exactly when no
/// component of it is hidden and no boundary prefix of it matches an exclude
/// pattern; a directory that fails either check hides its whole subtree.
pub open spec fn spec_kept(p: Seq<u8>, patterns: Seq<Seq<u8>>) -> bool {
    forall|start: int, end: int|
        #[trigger] component_at(p, start, end) ==> !is_hidden_name(p.subrange(start, end))
            && !spec_excluded(p.take(end), patterns)
}

/// Whether the walk enters the entry named `name` at root-relative path
/// `rel_path`: it must not be hidden and must not match an exclude pattern.
pub fn should_enter(name: &[u8], rel_path: &[u8], patterns: &Vec<Vec<u8>>) -> (r: bool)
    ensures
        r == (!is_hidden_name(name@) && !spec_excluded(rel_path@, patterns.deep_view())),
{
    if is_hidden(name) {
        return false;
    }
    !excluded(rel_path, patterns)
}

/// Whether `name` is a hidden entry name.
fn is_hidden(name: &[u8]) -> (r: bool)
    ensures
        r == is_hidden_name(name@),
{
    let n = name.len();
    if n == 0 || name[0] != 46 {
        return false;
    }
    if n == 1 {
        proof {
            assert(name@ =~= seq![46u8]);
        }
        return false;
    }
    if n == 2 && name[1] == 46 {
        proof {
            assert(name@ =~= seq![46u8, 46u8]);
        }
        return false;
    }
    proof {
        assert(name@ != seq![46u8] && name@ != seq![46u8, 46u8]);
    }
    true
}

/// Whether some exclude pattern definitely matches `text`.
fn excluded(text: &[u8], patterns: &Vec<Vec<u8>>) -> (r: bool)
    ensures
        r == spec_excluded(text@, patterns.deep_view()),
{
    let n = patterns.len();
    let mut j: usize = 0;
    while j < n
        invariant
            n == patterns@.len(),
            j <= n,
            patterns.deep_view().len() == n,
            forall|k: int| 0 <= k < n ==> patterns.deep_view()[k] == patterns@[k]@,
            forall|k: int| 0 <= k < j ==> spec_glob_eval(patterns@[k]@, text@) != Some(true),
        decreases n - j,
    {
        let m = glob_eval(patterns[j].as_slice(), text);
        match m {
            Some(true) => {
                proof {
                    assert(spec_glob_eval(patterns.deep_view()[j as int], text@) == Some(true));
                }
                return true;
            },
            _ => {},
        }
        j = j + 1;
    }
    false
}

/// Whether the component `p[start..end]` is a hidden name.
fn hidden_range(p: &[u8], start: usize, end: usize) -> (r: bool)
    requires
        start <= end <= p@.len(),
    ensures
        r == is_hidden_name(p@.subrange(start as int, end as int)),
{
    let ghost comp = p@.subrange(start as int, end as int);
    if end == start || p[start] != 46 {
        return false;
    }
    if end - start == 1 {
        proof {
            assert(comp =~= seq![46u8]);
        }
        return false;
    }
    proof {
        assert(p@.subrange(start as int, end as int)[1] == p@[start + 1]);
    }
    if end - start == 2 && p[start + 1] == 46 {
        proof {
            assert(comp =~= seq![46u8, 46u8]);
        }
        return false;
    }
    proof {
        assert(comp != seq![46u8] && comp != seq![46u8, 46u8]);
    }
    true
}

/// Whether every component of the root-relative path `p` passes the hidden
/// check and every boundary prefix passes the exclude patterns.
pub fn kept_path(p: &[u8], patterns: &Vec<Vec<u8>>) -> (r: bool)
    ensures
        r == spec_kept(p@, patterns.deep_view()),
{
    let n = p.len();
    let mut i: usize = 0;
    let mut start: usize = 0;
    loop
        invariant
            n == p@.len(),
            start <= i <= n,
            start == 0 || p@[start - 1] == 47,
            forall|m: int| start <= m < i ==> p@[m] != 47,
            forall|s: int, e: int|
                #[trigger] component_at(p@, s, e) && e < i ==> !is_hidden_name(
                    p@.subrange(s, e),
                ) && !spec_excluded(p@.take(e), patterns.deep_view()),
        decreases n - i,
    {
        if i == n || p[i] == 47 {
            proof {
                assert(component_at(p@, start as int, i as int));
            }
            if hidden_range(p, start, i) {
                return false;
            }
            let pref = prefix_vec(p, i);
            if excluded(pref.as_slice(), patterns) {
                return false;
            }
            proof {
                assert forall|s: int, e: int|
                    #[trigger] component_at(p@, s, e) && e == i implies !is_hidden_name(
                    p@.subrange(s, e),
                ) && !spec_excluded(p@.take(e), patterns.deep_view()) by {
                    if s < start {
                        assert(p@[start - 1] == 47);
                    } else if s > start {
                        assert(p@[s - 1] == 47);
                    }
                    assert(s == start);
                }
            }
            if i == n {
                proof {
                    assert forall|s: int, e: int| #[trigger] component_at(p@, s, e) implies e <= i by {
                        assert(e <= p@.len());
                    }
                }
                return true;
            }
            start = i + 1;
        }
        i = i + 1;
    }
}

/// Whether a file name names a Rust source file, the only kind the heuristic
/// scan reads.
pub fn is_rust_file(name: &[u8]) -> (r: bool)
    ensures
        r == crate::bytes::is_suffix_of(crate::detect::enc(".rs"@), name@),
{
    crate::bytes::ends_with_bytes(name, ".rs".as_bytes_vec().as_slice())
}

/// Keep exactly the candidate root-relative manifest paths that survive the
/// pruning rule; order is preserved.
pub fn select_manifests(rel_paths: &Vec<Vec<u8>>, patterns: &Vec<Vec<u8>>) -> (r: Vec<Vec<u8>>)
    ensures
        r.deep_view() == rel_paths.deep_view().filter(
            |p: Seq<u8>| spec_kept(p, patterns.deep_view()),
        ),
{
    let ghost pred = |p: Seq<u8>| spec_kept(p, patterns.deep_view());
    let n = rel_paths.len();
    let mut r: Vec<Vec<u8>> = Vec::new();
    let mut i: usize = 0;
    while i < n
        invariant
            n == rel_paths@.len(),
            i <= n,
            rel_paths.deep_view().len() == n,
            forall|k: int| 0 <= k < n ==> rel_paths.deep_view()[k] == rel_paths@[k]@,
            r.deep_view() == rel_paths.deep_view().take(i as int).filter(pred),
            pred == (|p: Seq<u8>| spec_kept(p, patterns.deep_view())),
        decreases n - i,
    {
        let ghost prev = r.deep_view();
        let ghost taken = rel_paths.deep_view().take(i as int);
        if kept_path(rel_paths[i].as_slice(), patterns) {
            let c = crate::bytes::copy_bytes(rel_paths[i].as_slice());
            r.push(c);
        }
        proof {
            let elem = rel_paths.deep_view()[i as int];
            assert(rel_paths.deep_view().take(i + 1) =~= taken + seq![elem]);
            Seq::<Seq<u8>>::filter_distributes_over_add(taken, seq![elem], pred);
            reveal(Seq::filter);
            assert(Seq::<Seq<u8>>::empty().filter(pred) =~= Seq::<Seq<u8>>::empty());
            assert(seq![elem].drop_last() =~= Seq::<Seq<u8>>::empty());
            assert(seq![elem].filter(pred) == if pred(elem) {
                Seq::<Seq<u8>>::empty().filter(pred).push(elem)
            } else {
                Seq::<Seq<u8>>::empty().filter(pred)
            });
            if pred(elem) {
                assert(seq![elem].filter(pred) =~= seq![elem]);
                assert(r.deep_view() =~= taken.filter(pred) + seq![elem]);
            } else {
                assert(seq![elem].filter(pred) =~= Seq::<Seq<u8>>::empty());
                assert(r.deep_view() =~= taken.filter(pred) + seq![elem].filter(pred));
            }
        }
        i = i + 1;
    }
    proof {
        assert(rel_paths.deep_view().take(n as int) =~= rel_paths.deep_view());
    }
    r
}

/// A boundary prefix of a discovered path that matches an exclude pattern
/// prunes the walk there: no manifest at or beneath that directory is kept,
/// however deep inside it the manifest sits.
pub proof fn lemma_excluded_prefix_prunes(p: Seq<u8>, patterns: Seq<Seq<u8>>, end: int)
    requires
        0 <= end <= p.len(),
        end == p.len() || p[end] == 47,
        spec_excluded(p.take(end), patterns),
    ensures
        !spec_kept(p, patterns),
{
    let start = lemma_component_start_exists(p, end);
    assert(component_at(p, start, end));
}

/// For any position `end` in `p` there is a component start: the position
/// after the last separator strictly before `end`.
proof fn lemma_component_start_exists(p: Seq<u8>, end: int) -> (start: int)
    requires
        0 <= end <= p.len(),
    ensures
        0 <= start <= end,
        start == 0 || p[start - 1] == 47,
        forall|m: int| start <= m < end ==> p[m] != 47,
    decreases end,
{
    if end == 0 {
        0
    } else if p[end - 1] == 47 {
        end
    } else {
        lemma_component_start_exists(p, end - 1)
    }
}

} // verus!
