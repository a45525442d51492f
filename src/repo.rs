use vstd::prelude::*;
use vstd::string::{StrSliceExecFns, StringExecFns};

verus! {

/// The separator `/repos/` that precedes `{public|private}/{name}` in a resolved path.
pub open spec fn repos_marker() -> Seq<char> {
    seq!['/', 'r', 'e', 'p', 'o', 's', '/']
}

pub open spec fn marker_at(p: Seq<char>, i: int) -> bool {
    0 <= i && i + 7 <= p.len() && p.subrange(i, i + 7) == repos_marker()
}

/// Start of the first marker at or after `s`, or the length of `p` when there is none.
pub open spec fn next_marker(p: Seq<char>, s: int) -> int
    decreases p.len() - s,
{
    if s < 0 || s + 7 > p.len() {
        p.len() as int
    } else if marker_at(p, s) {
        s
    } else {
        next_marker(p, s + 1)
    }
}

/// First `/` in `p[a..e)`, or `e` when there is none.
pub open spec fn first_slash(p: Seq<char>, a: int, e: int) -> int
    decreases e - a,
{
    if a >= e {
        e
    } else if p[a] == '/' {
        a
    } else {
        first_slash(p, a + 1, e)
    }
}

/// The second `/`-separated segment of the part `p[a..e)`, when the part has one
/// and it is not empty.
pub open spec fn part_name(p: Seq<char>, a: int, e: int) -> Option<Seq<char>> {
    let f = first_slash(p, a, e);
    if f >= e {
        None
    } else {
        let g = first_slash(p, f + 1, e);
        if g > f + 1 {
            Some(p.subrange(f + 1, g))
        } else {
            None
        }
    }
}

/// The repository name found in the parts that follow each `/repos/` marker at or
/// after `s`, markers taken left to right without overlap.
pub open spec fn repo_from(p: Seq<char>, s: int) -> Option<Seq<char>>
    decreases p.len() - s,
{
    if s < 0 || s + 7 > p.len() {
        None
    } else if marker_at(p, s) {
        match part_name(p, s + 7, next_marker(p, s + 7)) {
            Some(n) => Some(n),
            None => repo_from(p, s + 7),
        }
    } else {
        repo_from(p, s + 1)
    }
}

pub open spec fn repo_name(p: Seq<char>) -> Option<Seq<char>> {
    repo_from(p, 0)
}

fn marker_at_exec(p: &str, n: usize, i: usize) -> (r: bool)
    requires
        n == p@.len(),
        i + 7 <= n,
    ensures
        r == marker_at(p@, i as int),
{
    let ok = p.get_char(i) == '/' && p.get_char(i + 1) == 'r' && p.get_char(i + 2) == 'e'
        && p.get_char(i + 3) == 'p' && p.get_char(i + 4) == 'o' && p.get_char(i + 5) == 's'
        && p.get_char(i + 6) == '/';
    proof {
        let w = p@.subrange(i as int, i + 7);
        if ok {
            assert(w =~= repos_marker());
        } else if w == repos_marker() {
            assert(w[0] == '/' && w[1] == 'r' && w[2] == 'e' && w[3] == 'p');
            assert(w[4] == 'o' && w[5] == 's' && w[6] == '/');
        }
    }
    ok
}

fn next_marker_exec(p: &str, n: usize, s: usize) -> (r: usize)
    requires
        n == p@.len(),
        s <= n,
    ensures
        r == next_marker(p@, s as int),
        s <= r <= n,
{
    let mut j: usize = s;
    while n - j >= 7 && !marker_at_exec(p, n, j)
        invariant
            n == p@.len(),
            s <= j <= n,
            next_marker(p@, s as int) == next_marker(p@, j as int),
        decreases n - j,
    {
        j = j + 1;
    }
    if n - j < 7 {
        n
    } else {
        j
    }
}

fn first_slash_exec(p: &str, a: usize, e: usize) -> (r: usize)
    requires
        a <= e <= p@.len(),
    ensures
        r == first_slash(p@, a as int, e as int),
        a <= r <= e,
{
    let mut j: usize = a;
    while j < e && p.get_char(j) != '/'
        invariant
            a <= j <= e <= p@.len(),
            first_slash(p@, a as int, e as int) == first_slash(p@, j as int, e as int),
        decreases e - j,
    {
        j = j + 1;
    }
    j
}

/// Extracts the repository name from a resolved path of the form
/// `.../repos/{public|private}/{name}/...`.
pub fn extract_repo_name_from_path(path: &str) -> (r: Option<String>)
    ensures
        r is None <==> repo_name(path@) is None,
        r matches Some(n) ==> repo_name(path@) == Some(n@),
{
    let n = path.unicode_len();
    let mut s: usize = 0;
    loop
        invariant
            n == path@.len(),
            s <= n,
            repo_name(path@) == repo_from(path@, s as int),
        decreases n - s,
    {
        if n - s < 7 {
            return None;
        }
        if marker_at_exec(path, n, s) {
            let a = s + 7;
            let e = next_marker_exec(path, n, a);
            let f = first_slash_exec(path, a, e);
            if f < e {
                let g = first_slash_exec(path, f + 1, e);
                if g > f + 1 {
                    let name = path.substring_char(f + 1, g);
                    return Some(<String as StringExecFns>::from_str(name));
                }
            }
            s = a;
        } else {
            s = s + 1;
        }
    }
}

} // verus!
