//! The tolerant parser for the output of an external static-dependency
//! analyzer. The output is recognized when it mentions the word `unused`;
//! each line then contributes a reported dependency name either as the text
//! between the first pair of backquotes or, failing that, as the body of a
//! dash list item. Output without the marker is unparseable and the engine
//! falls through to the heuristic scan.

use vstd::prelude::*;

use crate::bytes::{contains_bytes, contains_seq, is_prefix_of, starts_with_bytes, sub_vec};
use crate::detect::enc;

verus! {

/// The position of the first occurrence of `b` in `s`, or `-1`.
pub open spec fn find_first(s: Seq<u8>, b: u8) -> int
    decreases s.len(),
{
    if s.len() == 0 {
        -1
    } else if s[0] == b {
        0
    } else {
        let r = find_first(s.skip(1), b);
        if r < 0 {
            -1
        } else {
            r + 1
        }
    }
}

/// `find_first` names the first occurrence: `-1` means no occurrence, and a
/// nonnegative result is the least index holding `b`.
pub proof fn lemma_find_first(s: Seq<u8>, b: u8)
    ensures
        (find_first(s, b) == -1) <==> (forall|i: int| 0 <= i < s.len() ==> s[i] != b),
        find_first(s, b) != -1 ==> 0 <= find_first(s, b) < s.len() && s[find_first(s, b)] == b
            && (forall|i: int| 0 <= i < find_first(s, b) ==> s[i] != b),
    decreases s.len(),
{
    if s.len() > 0 {
        lemma_find_first(s.skip(1), b);
        assert(forall|i: int| 0 <= i < s.skip(1).len() ==> s.skip(1)[i] == s[i + 1]);
        if s[0] != b {
            let r = find_first(s.skip(1), b);
            if r == -1 {
                assert forall|i: int| 0 <= i < s.len() implies s[i] != b by {
                    if i > 0 {
                        assert(s.skip(1)[i - 1] != b);
                    }
                }
            } else {
                assert(s[r + 1] == s.skip(1)[r]);
                assert forall|i: int| 0 <= i < r + 1 implies s[i] != b by {
                    if i > 0 {
                        assert(s.skip(1)[i - 1] != b);
                    }
                }
            }
        }
    }
}

/// The lines of a text, split at each newline byte; a text without a newline
/// is a single line.
pub open spec fn spec_lines(text: Seq<u8>) -> Seq<Seq<u8>>
    decreases text.len(),
{
    let i = find_first(text, 10);
    if 0 <= i < text.len() {
        seq![text.take(i)] + spec_lines(text.skip(i + 1))
    } else {
        seq![text]
    }
}

/// A text with leading spaces and tabs removed.
pub open spec fn trim_left(s: Seq<u8>) -> Seq<u8>
    decreases s.len(),
{
    if s.len() > 0 && (s[0] == 32 || s[0] == 9) {
        trim_left(s.skip(1))
    } else {
        s
    }
}

/// A text with trailing spaces, tabs and carriage returns removed.
pub open spec fn trim_right(s: Seq<u8>) -> Seq<u8>
    decreases s.len(),
{
    if s.len() > 0 && (s.last() == 32 || s.last() == 9 || s.last() == 13) {
        trim_right(s.drop_last())
    } else {
        s
    }
}

/// A text trimmed on both sides.
pub open spec fn spec_trim(s: Seq<u8>) -> Seq<u8> {
    trim_right(trim_left(s))
}

/// The name a line reports between its first pair of backquotes, if any.
pub open spec fn line_backquoted(line: Seq<u8>) -> Option<Seq<u8>> {
    let i = find_first(line, 96);
    if i < 0 {
        None
    } else {
        let rest = line.skip(i + 1);
        let j = find_first(rest, 96);
        if j < 0 {
            None
        } else {
            Some(rest.take(j))
        }
    }
}

/// The name a line reports as a dash list item, if any.
pub open spec fn line_dash_item(line: Seq<u8>) -> Option<Seq<u8>> {
    let t = spec_trim(line);
    if is_prefix_of(enc("- "@), t) && t.len() > 2 {
        Some(t.skip(2))
    } else {
        None
    }
}

/// The dependency name one output line reports as unused, if any: a
/// backquoted token first, a dash list item otherwise.
pub open spec fn line_unused_name(line: Seq<u8>) -> Option<Seq<u8>> {
    match line_backquoted(line) {
        Some(n) => Some(n),
        None => line_dash_item(line),
    }
}

/// All names the lines report, in order.
pub open spec fn names_of_lines(lines: Seq<Seq<u8>>) -> Seq<Seq<u8>>
    decreases lines.len(),
{
    if lines.len() == 0 {
        Seq::<Seq<u8>>::empty()
    } else {
        match line_unused_name(lines[0]) {
            Some(n) => seq![n] + names_of_lines(lines.skip(1)),
            None => names_of_lines(lines.skip(1)),
        }
    }
}

/// What the tolerant parser makes of one output text: `None` when the text
/// does not carry the `unused` marker, otherwise the names its lines report.
pub open spec fn spec_parse_analyzer(text: Seq<u8>) -> Option<Seq<Seq<u8>>> {
    if contains_seq(text, enc("unused"@)) {
        Some(names_of_lines(spec_lines(text)))
    } else {
        None
    }
}

/// The position of the first occurrence of `b` in `s` at or after `from`.
fn find_byte(s: &[u8], from: usize, b: u8) -> (r: Option<usize>)
    requires
        from <= s@.len(),
    ensures
        (r is None) ==> find_first(s@.skip(from as int), b) == -1,
        (r matches Some(k) ==> from <= k < s@.len() && find_first(s@.skip(from as int), b) == k
            - from),
{
    let n = s.len();
    let mut i: usize = from;
    while i < n
        invariant
            from <= i <= n,
            n == s@.len(),
            forall|j: int| from <= j < i ==> s@[j] != b,
        decreases n - i,
    {
        if s[i] == b {
            proof {
                lemma_find_first(s@.skip(from as int), b);
                assert(s@.skip(from as int)[i - from] == s@[i as int]);
                assert(forall|j: int|
                    0 <= j < i - from ==> s@.skip(from as int)[j] == s@[j + from]);
                let ff = find_first(s@.skip(from as int), b);
                assert(ff != -1);
                if ff < i - from {
                    assert(s@[ff + from] == b);
                    assert(false);
                }
                if ff > i - from {
                    assert(s@.skip(from as int)[i - from] != b);
                    assert(false);
                }
            }
            return Some(i);
        }
        i = i + 1;
    }
    proof {
        lemma_find_first(s@.skip(from as int), b);
        assert(forall|j: int| 0 <= j < s@.skip(from as int).len() ==> s@.skip(from as int)[j] == s@[j
            + from]);
    }
    None
}

/// The line trimmed of leading spaces and tabs and of trailing spaces, tabs
/// and carriage returns.
fn trim_bytes(line: &[u8]) -> (r: Vec<u8>)
    ensures
        r@ == spec_trim(line@),
{
    let n = line.len();
    let mut a: usize = 0;
    proof {
        assert(line@.skip(0) =~= line@);
    }
    while a < n && (line[a] == 32 || line[a] == 9)
        invariant
            a <= n,
            n == line@.len(),
            trim_left(line@) == trim_left(line@.skip(a as int)),
        decreases n - a,
    {
        proof {
            assert(line@.skip(a as int)[0] == line@[a as int]);
            assert(line@.skip(a as int).skip(1) =~= line@.skip(a + 1));
        }
        a = a + 1;
    }
    proof {
        if a < n {
            assert(line@.skip(a as int)[0] == line@[a as int]);
        }
        assert(trim_left(line@) == line@.skip(a as int));
    }
    let ghost t = line@.skip(a as int);
    let mut j: usize = n - a;
    proof {
        assert(t.take(n - a) =~= t);
    }
    while j > 0 && (line[a + j - 1] == 32 || line[a + j - 1] == 9 || line[a + j - 1] == 13)
        invariant
            j <= n - a,
            a <= n,
            n == line@.len(),
            t == line@.skip(a as int),
            trim_right(t) == trim_right(t.take(j as int)),
        decreases j,
    {
        proof {
            assert(t.take(j as int).last() == line@[a + j - 1]);
            assert(t.take(j as int).drop_last() =~= t.take(j - 1));
        }
        j = j - 1;
    }
    proof {
        if j > 0 {
            assert(t.take(j as int).last() == line@[a + j - 1]);
        }
        assert(trim_right(t.take(j as int)) == t.take(j as int));
        assert(t.take(j as int) =~= line@.subrange(a as int, a + j));
    }
    sub_vec(line, a, a + j)
}

/// The dependency name one output line reports as unused, if any.
fn line_name(line: &[u8]) -> (r: Option<Vec<u8>>)
    ensures
        (r matches Some(v) ==> line_unused_name(line@) == Some(v@)),
        (r is None ==> line_unused_name(line@) is None),
{
    let n = line.len();
    proof {
        assert(line@.skip(0) =~= line@);
    }
    match find_byte(line, 0, 96) {
        Some(i) => {
            proof {
                assert(i < n);
            }
            match find_byte(line, i + 1, 96) {
                Some(j) => {
                    proof {
                        assert(forall|m: int|
                            0 <= m < line@.skip(i + 1).len() ==> #[trigger] line@.skip(i + 1)[m]
                                == line@[m + i + 1]);
                        assert(line@.skip(i + 1).take(j - (i + 1)) =~= line@.subrange(
                            i + 1,
                            j as int,
                        ));
                    }
                    return Some(sub_vec(line, i + 1, j));
                },
                None => {},
            }
        },
        None => {},
    }
    proof {
        assert(line_backquoted(line@) is None);
    }
    let ghost t = spec_trim(line@);
    let trimmed = trim_bytes(line);
    let dash = "- ".as_bytes_vec();
    if starts_with_bytes(trimmed.as_slice(), dash.as_slice()) {
        if trimmed.len() > 2 {
            let name = sub_vec(trimmed.as_slice(), 2, trimmed.len());
            proof {
                assert(t.skip(2) =~= t.subrange(2, t.len() as int));
            }
            Some(name)
        } else {
            None
        }
    } else {
        None
    }
}

/// Parse one analyzer output text: `None` when it does not carry the
/// `unused` marker, otherwise the dependency names its lines report.
pub fn parse_analyzer_output(text: &[u8]) -> (r: Option<Vec<Vec<u8>>>)
    ensures
        (r matches Some(v) ==> spec_parse_analyzer(text@) == Some(v.deep_view())),
        (r is None ==> spec_parse_analyzer(text@) is None),
{
    if !contains_bytes(text, "unused".as_bytes_vec().as_slice()) {
        return None;
    }
    let n = text.len();
    let mut names: Vec<Vec<u8>> = Vec::new();
    let mut pos: usize = 0;
    let ghost all = names_of_lines(spec_lines(text@));
    proof {
        assert(text@.skip(0) =~= text@);
        assert(names.deep_view() =~= Seq::<Seq<u8>>::empty());
        assert(Seq::<Seq<u8>>::empty() + names_of_lines(spec_lines(text@.skip(0))) =~= all);
    }
    loop
        invariant
            pos <= n,
            n == text@.len(),
            contains_seq(text@, enc("unused"@)),
            all == names.deep_view() + names_of_lines(spec_lines(text@.skip(pos as int))),
            all == names_of_lines(spec_lines(text@)),
        decreases n - pos,
    {
        let ghost rest = text@.skip(pos as int);
        let ghost pre = names.deep_view();
        match find_byte(text, pos, 10) {
            Some(k) => {
                let ghost line = rest.take(k - pos);
                proof {
                    assert(find_first(rest, 10) == k - pos);
                    assert(0 <= k - pos < rest.len());
                    assert(spec_lines(rest) == seq![line] + spec_lines(rest.skip(k - pos + 1)));
                    assert((seq![line] + spec_lines(rest.skip(k - pos + 1)))[0] == line);
                    assert((seq![line] + spec_lines(rest.skip(k - pos + 1))).skip(1) =~= spec_lines(
                        rest.skip(k - pos + 1),
                    ));
                    assert(rest.skip(k - pos + 1) =~= text@.skip(k + 1));
                    assert(forall|m: int| 0 <= m < rest.len() ==> rest[m] == text@[m + pos]);
                    assert(line =~= text@.subrange(pos as int, k as int));
                }
                let lv = sub_vec(text, pos, k);
                match line_name(lv.as_slice()) {
                    Some(nm) => {
                        names.push(nm);
                        proof {
                            assert(names.deep_view() =~~= pre + seq![line_unused_name(
                                line,
                            )->Some_0]);
                            assert(names_of_lines(spec_lines(rest)) == seq![line_unused_name(
                                line,
                            )->Some_0] + names_of_lines(spec_lines(text@.skip(k + 1))));
                            assert(names.deep_view() + names_of_lines(spec_lines(text@.skip(k + 1)))
                                =~= pre + names_of_lines(spec_lines(rest)));
                        }
                    },
                    None => {
                        proof {
                            assert(names_of_lines(spec_lines(rest)) == names_of_lines(spec_lines(
                                text@.skip(k + 1),
                            )));
                        }
                    },
                }
                pos = k + 1;
            },
            None => {
                proof {
                    assert(find_first(rest, 10) == -1);
                    assert(spec_lines(rest) == seq![rest]);
                    assert(spec_lines(rest)[0] == rest);
                    assert(spec_lines(rest).skip(1) =~= Seq::<Seq<u8>>::empty());
                    assert(names_of_lines(Seq::<Seq<u8>>::empty()) == Seq::<Seq<u8>>::empty());
                    assert(rest =~= text@.subrange(pos as int, n as int));
                }
                let lv = sub_vec(text, pos, n);
                match line_name(lv.as_slice()) {
                    Some(nm) => {
                        names.push(nm);
                        proof {
                            assert(names_of_lines(spec_lines(rest)) =~= seq![line_unused_name(
                                rest,
                            )->Some_0] + Seq::<Seq<u8>>::empty());
                            assert(names.deep_view() =~~= pre + seq![line_unused_name(
                                rest,
                            )->Some_0]);
                            assert(names.deep_view() =~= all);
                        }
                    },
                    None => {
                        proof {
                            assert(names_of_lines(spec_lines(rest)) =~= Seq::<Seq<u8>>::empty());
                            assert(names.deep_view() =~= all);
                        }
                    },
                }
                return Some(names);
            },
        }
    }
}

} // verus!
