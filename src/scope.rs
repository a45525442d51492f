use vstd::prelude::*;
use vstd::string::StrSliceExecFns;
use crate::exclude::{is_excluded, is_excluded_bytes};
use crate::scan::name_bytes;

verus! {

/// An entry of the directory listed at a wildcard segment, as the listing reports
/// it (without following symlinks).
#[derive(Clone, Debug)]
pub struct ListedEntry {
    pub name: String,
    pub is_dir: bool,
    pub is_symlink: bool,
}

/// The segment `*`, which stands for every subdirectory at its level.
pub open spec fn is_wildcard(s: Seq<char>) -> bool {
    s == seq!['*']
}

/// A listed entry that a wildcard segment expands to: a directory or a symlink
/// whose name is not excluded.
pub open spec fn wildcard_keeps(e: ListedEntry) -> bool {
    (e.is_dir || e.is_symlink) && !is_excluded(name_bytes(e.name))
}

fn is_wildcard_segment(s: &String) -> (r: bool)
    ensures
        r == is_wildcard(s@),
{
    let t = s.as_str();
    if t.unicode_len() == 1 && t.get_char(0) == '*' {
        assert(t@ =~= seq!['*']);
        true
    } else {
        proof {
            if s@ == seq!['*'] {
                assert(t@[0] == '*');
            }
        }
        false
    }
}

/// Position of the first wildcard segment of a scope pattern, if there is one.
pub fn find_wildcard(parts: &Vec<String>) -> (r: Option<usize>)
    ensures
        r matches Some(i) ==> i < parts@.len() && is_wildcard(parts@[i as int]@) && forall|k: int|
            0 <= k < i ==> !is_wildcard(#[trigger] parts@[k]@),
        r is None ==> forall|k: int| 0 <= k < parts@.len() ==> !is_wildcard(#[trigger] parts@[k]@),
{
    let mut i: usize = 0;
    while i < parts.len()
        invariant
            i <= parts@.len(),
            forall|k: int| 0 <= k < i ==> !is_wildcard(#[trigger] parts@[k]@),
        decreases parts@.len() - i,
    {
        if is_wildcard_segment(&parts[i]) {
            return Some(i);
        }
        i = i + 1;
    }
    None
}

/// Indices, in listing order, of the entries that a wildcard segment expands to.
pub fn wildcard_matches(entries: &Vec<ListedEntry>) -> (r: Vec<usize>)
    ensures
        forall|k: int|
            0 <= k < r@.len() ==> #[trigger] r@[k] < entries@.len() && wildcard_keeps(
                entries@[r@[k] as int],
            ),
        forall|k: int, l: int| 0 <= k < l < r@.len() ==> #[trigger] r@[k] < #[trigger] r@[l],
        forall|i: int|
            0 <= i < entries@.len() && wildcard_keeps(#[trigger] entries@[i]) ==> exists|k: int|
                0 <= k < r@.len() && r@[k] == i,
{
    let mut r: Vec<usize> = Vec::new();
    let mut i: usize = 0;
    while i < entries.len()
        invariant
            i <= entries@.len(),
            forall|k: int|
                0 <= k < r@.len() ==> #[trigger] r@[k] < i && wildcard_keeps(
                    entries@[r@[k] as int],
                ),
            forall|k: int, l: int| 0 <= k < l < r@.len() ==> #[trigger] r@[k] < #[trigger] r@[l],
            forall|j: int|
                0 <= j < i && wildcard_keeps(#[trigger] entries@[j]) ==> exists|k: int|
                    0 <= k < r@.len() && r@[k] == j,
        decreases entries@.len() - i,
    {
        let e = &entries[i];
        if (e.is_dir || e.is_symlink) && !is_excluded_bytes(e.name.as_str().as_bytes()) {
            let ghost before = r@;
            r.push(i);
            assert forall|j: int|
                0 <= j < i + 1 && wildcard_keeps(#[trigger] entries@[j]) implies exists|k: int|
                0 <= k < r@.len() && r@[k] == j by {
                if j < i {
                    let k = choose|k: int| 0 <= k < before.len() && before[k] == j;
                    assert(r@[k] == j);
                } else {
                    assert(r@[before.len() as int] == j);
                }
            }
        }
        i = i + 1;
    }
    r
}

} // verus!
