//! Choosing the paths that a removal works on, from what the file matcher found.

use vstd::prelude::*;
use vstd::string::StringExecFns;

verus! {

/// A pattern that names the current or the parent directory itself.
pub open spec fn is_relative_dir(p: Seq<char>) -> bool {
    p == seq!['.'] || p == seq!['.', '.']
}

/// Whether `pattern` is one to expand: `.` and `..` never are.
pub fn is_matchable_pattern(pattern: &str) -> (r: bool)
    ensures
        r == !is_relative_dir(pattern@),
{
    let s = pattern.to_owned();
    let one = String::from_str(".");
    let two = String::from_str("..");
    proof {
        reveal_strlit(".");
        reveal_strlit("..");
    }
    assert(one@ =~= seq!['.']);
    assert(two@ =~= seq!['.', '.']);
    !(s == one || s == two)
}

/// A path that the file matcher found.
pub struct FoundPath {
    /// The canonical path.
    pub path: String,
    pub is_dir: bool,
}

/// Whether a found path takes part in the removal.
pub open spec fn selected(f: FoundPath, include_dirs: bool) -> bool {
    !f.is_dir || include_dirs
}

/// Some string of `r` is `p`.
pub open spec fn holds_path(r: Seq<String>, p: Seq<char>) -> bool {
    exists|i: int| 0 <= i < r.len() && r[i]@ == p
}

/// `r[i]` is the path of `found[at[i]]`, a selected path found there for the first
/// time, and the positions `at` increase.
pub open spec fn first_found_in_order(
    found: Seq<FoundPath>,
    include_dirs: bool,
    r: Seq<String>,
    at: Seq<int>,
) -> bool {
    &&& at.len() == r.len()
    &&& forall|i: int|
        0 <= i < r.len() ==> {
            &&& 0 <= #[trigger] at[i] < found.len()
            &&& selected(found[at[i]], include_dirs)
            &&& found[at[i]].path@ == r[i]@
            &&& forall|m: int|
                0 <= m < at[i] && selected(#[trigger] found[m], include_dirs) ==> found[m].path@
                    != r[i]@
        }
    &&& forall|i: int, j: int| 0 <= i < j < r.len() ==> #[trigger] at[i] < #[trigger] at[j]
}

/// The paths to work on: the found paths, without directories unless
/// `include_dirs`, each once, in the order first found.
pub fn select_matches(found: &Vec<FoundPath>, include_dirs: bool) -> (r: Vec<String>)
    ensures
        forall|i: int, j: int| 0 <= i < j < r@.len() ==> r@[i]@ != r@[j]@,
        exists|at: Seq<int>| first_found_in_order(found@, include_dirs, r@, at),
        forall|k: int|
            0 <= k < found@.len() && selected(#[trigger] found@[k], include_dirs) ==> holds_path(
                r@,
                found@[k].path@,
            ),
{
    let mut out: Vec<String> = Vec::new();
    let ghost mut at: Seq<int> = Seq::empty();
    let mut k: usize = 0;
    while k < found.len()
        invariant
            k <= found@.len(),
            forall|i: int, j: int| 0 <= i < j < out@.len() ==> out@[i]@ != out@[j]@,
            first_found_in_order(found@, include_dirs, out@, at),
            forall|i: int| 0 <= i < at.len() ==> #[trigger] at[i] < k,
            forall|m: int|
                0 <= m < k && selected(#[trigger] found@[m], include_dirs) ==> holds_path(
                    out@,
                    found@[m].path@,
                ),
        decreases found@.len() - k,
    {
        let f = &found[k];
        let ghost before = out@;
        let ghost before_at = at;
        if !f.is_dir || include_dirs {
            let mut seen = false;
            let mut i: usize = 0;
            while i < out.len()
                invariant
                    i <= out@.len(),
                    seen ==> holds_path(out@, f.path@),
                    !seen ==> forall|j: int| 0 <= j < i ==> out@[j]@ != f.path@,
                decreases out@.len() - i,
            {
                if out[i] == f.path {
                    seen = true;
                }
                i += 1;
            }
            if !seen {
                out.push(f.path.clone());
                proof {
                    at = at.push(k as int);
                }
                assert(out@[before.len() as int]@ == found@[k as int].path@);
                assert forall|m: int|
                    0 <= m < k && selected(#[trigger] found@[m], include_dirs) implies found@[m].path@
                    != f.path@ by {
                    if found@[m].path@ == f.path@ {
                        let j = choose|j: int| 0 <= j < before.len() && before[j]@ == found@[m].path@;
                    }
                }
                assert forall|i: int| 0 <= i < out@.len() implies {
                    &&& 0 <= #[trigger] at[i] < found@.len()
                    &&& selected(found@[at[i]], include_dirs)
                    &&& found@[at[i]].path@ == out@[i]@
                    &&& forall|m: int|
                        0 <= m < at[i] && selected(#[trigger] found@[m], include_dirs)
                            ==> found@[m].path@ != out@[i]@
                } by {
                    if i < before.len() {
                        assert(out@[i] == before[i]);
                        assert(at[i] == before_at[i]);
                    }
                }
                assert forall|m: int|
                    0 <= m < k + 1 && selected(#[trigger] found@[m], include_dirs) implies holds_path(
                    out@,
                    found@[m].path@,
                ) by {
                    if m < k {
                        let j = choose|j: int| 0 <= j < before.len() && before[j]@ == found@[m].path@;
                        assert(out@[j] == before[j]);
                    }
                }
            }
        }
        k += 1;
    }
    out
}

} // verus!
