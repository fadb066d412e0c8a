//! Byte-sequence utilities shared by the walker, the detection engine and
//! the registry: substring search, prefix and suffix tests, dash-to-underscore
//! normalization, concatenation and a total lexicographic order.

use vstd::prelude::*;

verus! {

/// `needle` occurs contiguously inside `hay` at offset `i`.
pub open spec fn occurs_at(hay: Seq<u8>, needle: Seq<u8>, i: int) -> bool {
    0 <= i && i + needle.len() <= hay.len() && hay.subrange(i, i + needle.len()) == needle
}

/// `needle` occurs contiguously somewhere inside `hay`.
pub open spec fn contains_seq(hay: Seq<u8>, needle: Seq<u8>) -> bool {
    exists|i: int| occurs_at(hay, needle, i)
}

/// `p` is a prefix of `s`.
pub open spec fn is_prefix_of(p: Seq<u8>, s: Seq<u8>) -> bool {
    p.len() <= s.len() && s.subrange(0, p.len() as int) == p
}

/// `p` is a suffix of `s`.
pub open spec fn is_suffix_of(p: Seq<u8>, s: Seq<u8>) -> bool {
    p.len() <= s.len() && s.subrange(s.len() - p.len(), s.len() as int) == p
}

/// Dash-to-underscore normalization of one byte.
pub open spec fn norm_byte(b: u8) -> u8 {
    if b == 45 {
        95
    } else {
        b
    }
}

/// Dash-to-underscore normalization of a byte string: the form under which a
/// crate name appears in source paths and imports.
pub open spec fn norm_bytes(s: Seq<u8>) -> Seq<u8> {
    s.map(|_i: int, b: u8| norm_byte(b))
}

/// Whether the bytes of `a` and `b` are equal.
pub fn bytes_eq(a: &[u8], b: &[u8]) -> (r: bool)
    ensures
        r == (a@ == b@),
{
    if a.len() != b.len() {
        proof {
            assert(a@ != b@);
        }
        return false;
    }
    let n = a.len();
    let mut i: usize = 0;
    while i < n
        invariant
            n == a@.len() == b@.len(),
            i <= n,
            forall|j: int| 0 <= j < i ==> a@[j] == b@[j],
        decreases n - i,
    {
        if a[i] != b[i] {
            return false;
        }
        i = i + 1;
    }
    proof {
        assert(a@ =~= b@);
    }
    true
}

/// Whether `needle` occurs at offset `at` in `hay`.
fn matches_at(hay: &[u8], needle: &[u8], at: usize) -> (r: bool)
    requires
        at + needle@.len() <= hay@.len(),
    ensures
        r == occurs_at(hay@, needle@, at as int),
{
    let n = needle.len();
    let hn = hay.len();
    let mut j: usize = 0;
    while j < n
        invariant
            n == needle@.len(),
            hn == hay@.len(),
            at + n <= hay@.len(),
            j <= n,
            forall|k: int| 0 <= k < j ==> hay@[at + k] == needle@[k],
        decreases n - j,
    {
        proof {
            assert(at + j < hn);
        }
        if hay[at + j] != needle[j] {
            proof {
                assert(hay@.subrange(at as int, at + needle@.len())[j as int] != needle@[j as int]);
            }
            return false;
        }
        j = j + 1;
    }
    proof {
        assert(hay@.subrange(at as int, at + needle@.len()) =~= needle@);
    }
    true
}

/// Whether `needle` occurs contiguously anywhere inside `hay`.
pub fn contains_bytes(hay: &[u8], needle: &[u8]) -> (r: bool)
    ensures
        r == contains_seq(hay@, needle@),
{
    if needle.len() > hay.len() {
        proof {
            assert(forall|i: int| !occurs_at(hay@, needle@, i));
        }
        return false;
    }
    if needle.len() == 0 {
        proof {
            assert(hay@.subrange(0, 0) =~= needle@);
            assert(occurs_at(hay@, needle@, 0));
        }
        return true;
    }
    let last = hay.len() - needle.len();
    let mut i: usize = 0;
    loop
        invariant
            0 < needle@.len() <= hay@.len(),
            last == hay@.len() - needle@.len(),
            last <= usize::MAX - 1,
            i <= last + 1,
            forall|k: int| 0 <= k < i ==> !occurs_at(hay@, needle@, k),
        decreases last + 1 - i,
    {
        if i > last {
            proof {
                assert(forall|k: int| k > last ==> !occurs_at(hay@, needle@, k));
            }
            return false;
        }
        if matches_at(hay, needle, i) {
            return true;
        }
        i = i + 1;
    }
}

/// Whether `p` is a prefix of `s`.
pub fn starts_with_bytes(s: &[u8], p: &[u8]) -> (r: bool)
    ensures
        r == is_prefix_of(p@, s@),
{
    if p.len() > s.len() {
        return false;
    }
    matches_at(s, p, 0)
}

/// Whether `p` is a suffix of `s`.
pub fn ends_with_bytes(s: &[u8], p: &[u8]) -> (r: bool)
    ensures
        r == is_suffix_of(p@, s@),
{
    if p.len() > s.len() {
        return false;
    }
    let at = s.len() - p.len();
    let r = matches_at(s, p, at);
    proof {
        assert(occurs_at(s@, p@, at as int) == is_suffix_of(p@, s@));
    }
    r
}

/// Dash-to-underscore normalization of a byte string.
pub fn normalize_bytes(name: &[u8]) -> (r: Vec<u8>)
    ensures
        r@ == norm_bytes(name@),
{
    let n = name.len();
    let mut r: Vec<u8> = Vec::new();
    let mut i: usize = 0;
    while i < n
        invariant
            n == name@.len(),
            i <= n,
            r@ == norm_bytes(name@.take(i as int)),
        decreases n - i,
    {
        let b = name[i];
        if b == 45 {
            r.push(95);
        } else {
            r.push(b);
        }
        proof {
            assert(norm_bytes(name@.take(i + 1)) =~= norm_bytes(name@.take(i as int)).push(
                norm_byte(name@[i as int]),
            ));
        }
        i = i + 1;
    }
    proof {
        assert(name@.take(n as int) =~= name@);
    }
    r
}

/// An owned copy of a byte string.
pub fn copy_bytes(v: &[u8]) -> (r: Vec<u8>)
    ensures
        r@ == v@,
{
    let mut r: Vec<u8> = Vec::new();
    r.extend_from_slice(v);
    proof {
        assert(r@ =~= v@);
    }
    r
}

/// An owned copy of the first `end` bytes of `v`.
pub fn prefix_vec(v: &[u8], end: usize) -> (r: Vec<u8>)
    requires
        end <= v@.len(),
    ensures
        r@ == v@.take(end as int),
{
    let mut r: Vec<u8> = Vec::new();
    let mut i: usize = 0;
    while i < end
        invariant
            end <= v@.len(),
            i <= end,
            r@ == v@.take(i as int),
        decreases end - i,
    {
        r.push(v[i]);
        proof {
            assert(v@.take(i + 1) =~= v@.take(i as int).push(v@[i as int]));
        }
        i = i + 1;
    }
    r
}

/// An owned copy of `v[from..to]`.
pub fn sub_vec(v: &[u8], from: usize, to: usize) -> (r: Vec<u8>)
    requires
        from <= to <= v@.len(),
    ensures
        r@ == v@.subrange(from as int, to as int),
{
    let mut r: Vec<u8> = Vec::new();
    let mut i: usize = from;
    while i < to
        invariant
            from <= i <= to <= v@.len(),
            r@ == v@.subrange(from as int, i as int),
        decreases to - i,
    {
        r.push(v[i]);
        proof {
            assert(v@.subrange(from as int, i + 1) =~= v@.subrange(from as int, i as int).push(
                v@[i as int],
            ));
        }
        i = i + 1;
    }
    r
}

/// The concatenation of two byte strings.
pub fn concat2(a: &[u8], b: &[u8]) -> (r: Vec<u8>)
    ensures
        r@ == a@ + b@,
{
    let mut r: Vec<u8> = Vec::new();
    r.extend_from_slice(a);
    r.extend_from_slice(b);
    proof {
        assert(r@ =~= a@ + b@);
    }
    r
}

/// The concatenation of three byte strings.
pub fn concat3(a: &[u8], b: &[u8], c: &[u8]) -> (r: Vec<u8>)
    ensures
        r@ == a@ + b@ + c@,
{
    let mut r: Vec<u8> = Vec::new();
    r.extend_from_slice(a);
    r.extend_from_slice(b);
    r.extend_from_slice(c);
    proof {
        assert(r@ =~= a@ + b@ + c@);
    }
    r
}

/// Strict lexicographic byte order.
pub open spec fn lex_lt(a: Seq<u8>, b: Seq<u8>) -> bool
    decreases a.len(),
{
    if b.len() == 0 {
        false
    } else if a.len() == 0 {
        true
    } else if a[0] < b[0] {
        true
    } else if a[0] > b[0] {
        false
    } else {
        lex_lt(a.skip(1), b.skip(1))
    }
}

/// The lexicographic order is irreflexive and connected: two byte strings of
/// which neither precedes the other are equal.
pub proof fn lemma_lex_connected(a: Seq<u8>, b: Seq<u8>)
    ensures
        !lex_lt(a, a),
        !lex_lt(a, b) && !lex_lt(b, a) ==> a == b,
    decreases a.len(),
{
    if a.len() > 0 {
        lemma_lex_connected(a.skip(1), a.skip(1));
    }
    if a.len() > 0 && b.len() > 0 && a[0] == b[0] {
        lemma_lex_connected(a.skip(1), b.skip(1));
        if !lex_lt(a, b) && !lex_lt(b, a) {
            assert(a =~= seq![a[0]] + a.skip(1));
            assert(b =~= seq![b[0]] + b.skip(1));
        }
    }
}

/// The lexicographic order is transitive.
pub proof fn lemma_lex_trans(a: Seq<u8>, b: Seq<u8>, c: Seq<u8>)
    requires
        lex_lt(a, b),
        lex_lt(b, c),
    ensures
        lex_lt(a, c),
    decreases a.len(),
{
    if a.len() > 0 && b.len() > 0 && c.len() > 0 && a[0] == b[0] && b[0] == c[0] {
        lemma_lex_trans(a.skip(1), b.skip(1), c.skip(1));
    }
}

/// Three-way comparison result for byte strings.
#[derive(PartialEq, Eq, Structural, Clone, Copy, Debug)]
pub enum ByteOrder {
    Less,
    Equal,
    Greater,
}

/// Three-way lexicographic comparison of two byte strings.
pub fn lex_cmp(a: &[u8], b: &[u8]) -> (r: ByteOrder)
    ensures
        r == ByteOrder::Less ==> lex_lt(a@, b@),
        r == ByteOrder::Greater ==> lex_lt(b@, a@),
        r == ByteOrder::Equal ==> a@ == b@,
{
    let mut i: usize = 0;
    proof {
        assert(a@.skip(0) =~= a@);
        assert(b@.skip(0) =~= b@);
    }
    loop
        invariant
            i <= a@.len(),
            i <= b@.len(),
            a@.take(i as int) == b@.take(i as int),
            lex_lt(a@, b@) == lex_lt(a@.skip(i as int), b@.skip(i as int)),
            lex_lt(b@, a@) == lex_lt(b@.skip(i as int), a@.skip(i as int)),
        decreases a@.len() - i,
    {
        if i >= a.len() || i >= b.len() {
            if a.len() < b.len() {
                proof {
                    assert(lex_lt(a@.skip(i as int), b@.skip(i as int)));
                }
                return ByteOrder::Less;
            } else if a.len() > b.len() {
                proof {
                    assert(lex_lt(b@.skip(i as int), a@.skip(i as int)));
                }
                return ByteOrder::Greater;
            } else {
                proof {
                    assert(a@.take(i as int) =~= a@);
                    assert(b@.take(i as int) =~= b@);
                }
                return ByteOrder::Equal;
            }
        }
        let x = a[i];
        let y = b[i];
        if x < y {
            proof {
                assert(a@.skip(i as int)[0] == x && b@.skip(i as int)[0] == y);
            }
            return ByteOrder::Less;
        } else if x > y {
            proof {
                assert(a@.skip(i as int)[0] == x && b@.skip(i as int)[0] == y);
            }
            return ByteOrder::Greater;
        }
        proof {
            assert(a@.take(i + 1) =~= a@.take(i as int).push(x));
            assert(b@.take(i + 1) =~= b@.take(i as int).push(y));
            assert(a@.skip(i as int).skip(1) =~= a@.skip(i + 1));
            assert(b@.skip(i as int).skip(1) =~= b@.skip(i + 1));
            assert(a@.skip(i as int)[0] == x && b@.skip(i as int)[0] == y);
        }
        i = i + 1;
    }
}

} // verus!
