//! Discovery of buildable package roots under a directory tree, with
//! workspace deduplication, unused-dependency detection, and best-effort
//! artifact and manifest cleanup planning.

use vstd::prelude::*;

pub mod analyzer;
pub mod bytes;
pub mod clean;
pub mod deps;
pub mod detect;
pub mod engine;
pub mod manifest;
pub mod project;
pub mod walk;

verus! {

/// Replace every dash in a crate name with an underscore, the form under
/// which a dependency appears in source paths and imports.
pub fn normalize_crate_name(name: &str) -> (r: String)
    ensures
        r@ == name@.map(|_i: int, c: char| if c == '-' { '_' } else { c }),
{
    let n = name.unicode_len();
    let mut r = String::new();
    let mut i: usize = 0;
    while i < n
        invariant
            n == name@.len(),
            i <= n,
            r@ == name@.take(i as int).map(|_j: int, c: char| if c == '-' { '_' } else { c }),
        decreases n - i,
    {
        let c = name.get_char(i);
        if c == '-' {
            r.append("_");
            proof {
                reveal_strlit("_");
            }
        } else {
            let piece = name.substring_char(i, i + 1);
            r.append(piece);
        }
        proof {
            assert(name@.take(i + 1) =~= name@.take(i as int).push(name@[i as int]));
            assert(name@.take(i + 1).map(|_j: int, c: char| if c == '-' { '_' } else { c })
                =~= name@.take(i as int).map(|_j: int, c: char| if c == '-' { '_' } else { c })
                    .push(if name@[i as int] == '-' { '_' } else { name@[i as int] }));
        }
        i = i + 1;
    }
    proof {
        assert(name@.take(n as int) =~= name@);
    }
    r
}

} // verus!
