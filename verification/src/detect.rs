//! The heuristic half of the usage detection engine: the allow-list of
//! conventionally invisible dependencies, the reference patterns searched for
//! in source text, and the scan over a package's source snapshot.
//!
//! All matching happens on the UTF-8 bytes of the texts involved; a crate
//! name is normalized (dashes to underscores) before the forms under which
//! it can appear in code are derived, and both the declared and the
//! normalized spelling are searched for.

use vstd::prelude::*;

use crate::bytes::{
    concat2, contains_bytes, contains_seq, ends_with_bytes, is_suffix_of, norm_bytes,
    normalize_bytes, bytes_eq,
};

verus! {

use vstd::utf8::encode_utf8;

/// The UTF-8 bytes of a text.
pub open spec fn enc(s: Seq<char>) -> Seq<u8> {
    encode_utf8(s)
}

/// A dependency that is conventionally consumed through compiler-level
/// mechanisms rather than explicit references: macro and code-generation
/// helpers, compared after name normalization.
pub open spec fn spec_allow_listed(name: Seq<u8>) -> bool {
    let n = norm_bytes(name);
    ||| n == enc("quote"@)
    ||| n == enc("syn"@)
    ||| n == enc("serde"@)
    ||| n == enc("serde_json"@)
    ||| contains_seq(n, enc("proc_macro"@))
    ||| is_suffix_of(enc("_derive"@), n)
}

/// Whether the dependency name is on the allow-list of conventionally
/// invisible dependencies.
pub fn allow_listed(name: &[u8]) -> (r: bool)
    ensures
        r == spec_allow_listed(name@),
{
    let n = normalize_bytes(name);
    if bytes_eq(n.as_slice(), "quote".as_bytes_vec().as_slice()) {
        return true;
    }
    if bytes_eq(n.as_slice(), "syn".as_bytes_vec().as_slice()) {
        return true;
    }
    if bytes_eq(n.as_slice(), "serde".as_bytes_vec().as_slice()) {
        return true;
    }
    if bytes_eq(n.as_slice(), "serde_json".as_bytes_vec().as_slice()) {
        return true;
    }
    if contains_bytes(n.as_slice(), "proc_macro".as_bytes_vec().as_slice()) {
        return true;
    }
    if ends_with_bytes(n.as_slice(), "_derive".as_bytes_vec().as_slice()) {
        return true;
    }
    false
}

/// The reference forms under which one spelling `n` of a crate name can
/// appear in source text: an import statement, a qualified path, a macro
/// invocation or an attribute.
pub open spec fn spec_mentions(content: Seq<u8>, n: Seq<u8>) -> bool {
    ||| contains_seq(content, enc("use "@) + n + enc("::"@))
    ||| contains_seq(content, enc("use "@) + n + enc(";"@))
    ||| contains_seq(content, enc("use crate::"@) + n)
    ||| contains_seq(content, n + enc("::"@))
    ||| contains_seq(content, n + enc("!"@))
    ||| contains_seq(content, enc("#["@) + n)
}

/// A source text references the dependency under its declared or its
/// normalized spelling.
pub open spec fn spec_source_match(content: Seq<u8>, name: Seq<u8>) -> bool {
    spec_mentions(content, name) || spec_mentions(content, norm_bytes(name))
}

/// The manifest text references the dependency next to a path-like separator,
/// as feature definitions do, under either spelling.
pub open spec fn spec_manifest_ref(manifest: Seq<u8>, name: Seq<u8>) -> bool {
    ||| contains_seq(manifest, name + enc("/"@))
    ||| contains_seq(manifest, name + enc("-"@))
    ||| contains_seq(manifest, norm_bytes(name) + enc("/"@))
    ||| contains_seq(manifest, norm_bytes(name) + enc("-"@))
}

/// Whether `content` holds any reference form of the spelling `n`.
fn mentions(content: &[u8], n: &[u8]) -> (r: bool)
    ensures
        r == spec_mentions(content@, n@),
{
    let p1 = crate::bytes::concat3("use ".as_bytes_vec().as_slice(), n, "::".as_bytes_vec().as_slice());
    if contains_bytes(content, p1.as_slice()) {
        return true;
    }
    let p2 = crate::bytes::concat3("use ".as_bytes_vec().as_slice(), n, ";".as_bytes_vec().as_slice());
    if contains_bytes(content, p2.as_slice()) {
        return true;
    }
    let p3 = concat2("use crate::".as_bytes_vec().as_slice(), n);
    if contains_bytes(content, p3.as_slice()) {
        return true;
    }
    let p4 = concat2(n, "::".as_bytes_vec().as_slice());
    if contains_bytes(content, p4.as_slice()) {
        return true;
    }
    let p5 = concat2(n, "!".as_bytes_vec().as_slice());
    if contains_bytes(content, p5.as_slice()) {
        return true;
    }
    let p6 = concat2("#[".as_bytes_vec().as_slice(), n);
    if contains_bytes(content, p6.as_slice()) {
        return true;
    }
    false
}

/// Whether `content` references the dependency under its declared or its
/// normalized spelling.
pub fn source_match(content: &[u8], name: &[u8]) -> (r: bool)
    ensures
        r == spec_source_match(content@, name@),
{
    if mentions(content, name) {
        return true;
    }
    let n = normalize_bytes(name);
    mentions(content, n.as_slice())
}

/// Whether the manifest text references the dependency next to a path-like
/// separator, under either spelling.
pub fn manifest_ref(manifest: &[u8], name: &[u8]) -> (r: bool)
    ensures
        r == spec_manifest_ref(manifest@, name@),
{
    let s1 = concat2(name, "/".as_bytes_vec().as_slice());
    if contains_bytes(manifest, s1.as_slice()) {
        return true;
    }
    let s2 = concat2(name, "-".as_bytes_vec().as_slice());
    if contains_bytes(manifest, s2.as_slice()) {
        return true;
    }
    let n = normalize_bytes(name);
    let s3 = concat2(n.as_slice(), "/".as_bytes_vec().as_slice());
    if contains_bytes(manifest, s3.as_slice()) {
        return true;
    }
    let s4 = concat2(n.as_slice(), "-".as_bytes_vec().as_slice());
    if contains_bytes(manifest, s4.as_slice()) {
        return true;
    }
    false
}

/// What the heuristic scan reads of one package: the contents of its source,
/// example and test files, its build script if any, and its manifest text.
pub struct SourceSnapshot {
    pub src_files: Vec<Vec<u8>>,
    pub example_files: Vec<Vec<u8>>,
    pub test_files: Vec<Vec<u8>>,
    pub build_script: Option<Vec<u8>>,
    pub manifest: Option<Vec<u8>>,
}

/// The mathematical value of a [`SourceSnapshot`].
pub struct SnapshotView {
    pub src_files: Seq<Seq<u8>>,
    pub example_files: Seq<Seq<u8>>,
    pub test_files: Seq<Seq<u8>>,
    pub build_script: Option<Seq<u8>>,
    pub manifest: Option<Seq<u8>>,
}

impl View for SourceSnapshot {
    type V = SnapshotView;

    open spec fn view(&self) -> SnapshotView {
        (SnapshotView {
            src_files: self.src_files.deep_view(),
            example_files: self.example_files.deep_view(),
            test_files: self.test_files.deep_view(),
            build_script: match self.build_script {
                Some(b) => Some(b@),
                None => None,
            },
            manifest: match self.manifest {
                Some(m) => Some(m@),
                None => None,
            },
        })
    }
}

/// Some file of the group references the dependency.
pub open spec fn any_match(files: Seq<Seq<u8>>, name: Seq<u8>) -> bool {
    exists|i: int| 0 <= i < files.len() && spec_source_match(files[i], name)
}

/// The heuristic rule: a dependency counts as used when some file of the
/// snapshot, the build script, or the manifest references it.
pub open spec fn spec_heuristic_used(snap: SnapshotView, name: Seq<u8>) -> bool {
    ||| any_match(snap.src_files, name)
    ||| any_match(snap.example_files, name)
    ||| any_match(snap.test_files, name)
    ||| (snap.build_script matches Some(b) && spec_source_match(b, name))
    ||| (snap.manifest matches Some(m) && spec_manifest_ref(m, name))
}

/// Whether any file of the group references the dependency.
fn any_file_match(files: &Vec<Vec<u8>>, name: &[u8]) -> (r: bool)
    ensures
        r == any_match(files.deep_view(), name@),
{
    let n = files.len();
    let mut i: usize = 0;
    while i < n
        invariant
            n == files@.len(),
            i <= n,
            files.deep_view().len() == n,
            forall|j: int| 0 <= j < n ==> files.deep_view()[j] == files@[j]@,
            forall|j: int| 0 <= j < i ==> !spec_source_match(files.deep_view()[j], name@),
        decreases n - i,
    {
        if source_match(files[i].as_slice(), name) {
            proof {
                assert(spec_source_match(files.deep_view()[i as int], name@));
            }
            return true;
        }
        i = i + 1;
    }
    false
}

/// The heuristic text search of the detection engine: scan the package's
/// source tree, then its build script, then its manifest, for any reference
/// form of the dependency name.
pub fn is_dependency_used(dep_name: &[u8], snapshot: &SourceSnapshot) -> (r: bool)
    ensures
        r == spec_heuristic_used(snapshot@, dep_name@),
{
    if any_file_match(&snapshot.src_files, dep_name) {
        return true;
    }
    if any_file_match(&snapshot.example_files, dep_name) {
        return true;
    }
    if any_file_match(&snapshot.test_files, dep_name) {
        return true;
    }
    match &snapshot.build_script {
        Some(b) => {
            if source_match(b.as_slice(), dep_name) {
                return true;
            }
        },
        None => {},
    }
    match &snapshot.manifest {
        Some(m) => {
            if manifest_ref(m.as_slice(), dep_name) {
                return true;
            }
        },
        None => {},
    }
    false
}

/// Normalization is idempotent: the normalized spelling normalizes to
/// itself.
pub proof fn lemma_norm_idempotent(name: Seq<u8>)
    ensures
        norm_bytes(norm_bytes(name)) == norm_bytes(name),
{
    assert(norm_bytes(norm_bytes(name)) =~= norm_bytes(name));
}

/// For an ASCII crate name, normalizing the characters and then encoding
/// yields the same bytes as encoding and then normalizing: the public
/// name-level normalization and the engine's byte-level one agree.
pub proof fn lemma_normalize_agrees(s: Seq<char>)
    requires
        vstd::utf8::is_ascii_chars(s),
    ensures
        encode_utf8(s.map(|_i: int, c: char| if c == '-' { '_' } else { c })) == norm_bytes(
            encode_utf8(s),
        ),
{
    let mapped = s.map(|_i: int, c: char| if c == '-' { '_' } else { c });
    assert(vstd::utf8::is_ascii_chars(mapped)) by {
        assert forall|i: int| 0 <= i < mapped.len() implies '\0' <= #[trigger] mapped[i]
            <= '\u{7f}' by {
            assert('\0' <= s[i] <= '\u{7f}');
        }
    }
    vstd::utf8::is_ascii_chars_encode_utf8(s);
    vstd::utf8::is_ascii_chars_encode_utf8(mapped);
    assert forall|i: int| 0 <= i < mapped.len() implies #[trigger] encode_utf8(mapped)[i]
        == norm_bytes(encode_utf8(s))[i] by {
        assert(mapped[i] as u8 == encode_utf8(mapped)[i]);
        assert(s[i] as u8 == encode_utf8(s)[i]);
        assert(s[i] == '-' <==> s[i] as u8 == 45);
    }
    assert(encode_utf8(mapped) =~= norm_bytes(encode_utf8(s)));
}

/// A source file that references either the declared or the normalized
/// spelling of a dependency makes the heuristic scan report it as used.
pub proof fn lemma_either_form_counts(snap: SnapshotView, name: Seq<u8>, i: int)
    requires
        0 <= i < snap.src_files.len(),
        spec_mentions(snap.src_files[i], name) || spec_mentions(snap.src_files[i], norm_bytes(name)),
    ensures
        spec_heuristic_used(snap, name),
{
    assert(spec_source_match(snap.src_files[i], name));
}

} // verus!
