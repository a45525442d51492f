use vstd::prelude::*;
use vstd::string::StringSliceAdditionalSpecFns;

verus! {

/// Byte-wise equality of two slices.
pub fn bytes_eq(a: &[u8], b: &[u8]) -> (r: bool)
    ensures
        r == (a@ == b@),
{
    if a.len() != b.len() {
        return false;
    }
    let mut i: usize = 0;
    while i < a.len()
        invariant
            a@.len() == b@.len(),
            0 <= i <= a@.len(),
            forall|j: int| 0 <= j < i ==> a@[j] == b@[j],
        decreases a@.len() - i,
    {
        if a[i] != b[i] {
            return false;
        }
        i = i + 1;
    }
    assert(a@ =~= b@);
    true
}

pub open spec fn word_node_modules() -> Seq<u8> {
    seq![('n' as u8), ('o' as u8), ('d' as u8), ('e' as u8), ('_' as u8), ('m' as u8), ('o' as u8), ('d' as u8), ('u' as u8), ('l' as u8), ('e' as u8), ('s' as u8)]
}

pub open spec fn word_git() -> Seq<u8> {
    seq![('.' as u8), ('g' as u8), ('i' as u8), ('t' as u8)]
}

pub open spec fn word_dist() -> Seq<u8> {
    seq![('d' as u8), ('i' as u8), ('s' as u8), ('t' as u8)]
}

pub open spec fn word_next() -> Seq<u8> {
    seq![('.' as u8), ('n' as u8), ('e' as u8), ('x' as u8), ('t' as u8)]
}

pub open spec fn word_turbo() -> Seq<u8> {
    seq![('.' as u8), ('t' as u8), ('u' as u8), ('r' as u8), ('b' as u8), ('o' as u8)]
}

pub open spec fn word_vercel() -> Seq<u8> {
    seq![('.' as u8), ('v' as u8), ('e' as u8), ('r' as u8), ('c' as u8), ('e' as u8), ('l' as u8)]
}

pub open spec fn word_target() -> Seq<u8> {
    seq![('t' as u8), ('a' as u8), ('r' as u8), ('g' as u8), ('e' as u8), ('t' as u8)]
}

pub open spec fn word_ds_store() -> Seq<u8> {
    seq![('.' as u8), ('D' as u8), ('S' as u8), ('_' as u8), ('S' as u8), ('t' as u8), ('o' as u8), ('r' as u8), ('e' as u8)]
}

pub open spec fn word_thumbs_db() -> Seq<u8> {
    seq![('t' as u8), ('h' as u8), ('u' as u8), ('m' as u8), ('b' as u8), ('s' as u8), ('.' as u8), ('d' as u8), ('b' as u8)]
}

/// The fixed denylist of names that are never scanned or watched.
pub open spec fn is_denied_word(name: Seq<u8>) -> bool {
    name == word_node_modules() || name == word_git() || name == word_dist() || name
        == word_next() || name == word_turbo() || name == word_vercel() || name == word_target()
        || name == word_ds_store() || name == word_thumbs_db()
}

/// A name (as UTF-8 bytes) is excluded when it is on the denylist or starts with a dot.
pub open spec fn is_excluded(name: Seq<u8>) -> bool {
    is_denied_word(name) || (name.len() > 0 && name[0] == ('.' as u8))
}

fn is_denied(n: &[u8]) -> (r: bool)
    ensures
        r == is_denied_word(n@),
{
    let w1: [u8; 12] = [('n' as u8), ('o' as u8), ('d' as u8), ('e' as u8), ('_' as u8), ('m' as u8), ('o' as u8), ('d' as u8), ('u' as u8), ('l' as u8), ('e' as u8), ('s' as u8)];
    let w2: [u8; 4] = [('.' as u8), ('g' as u8), ('i' as u8), ('t' as u8)];
    let w3: [u8; 4] = [('d' as u8), ('i' as u8), ('s' as u8), ('t' as u8)];
    let w4: [u8; 5] = [('.' as u8), ('n' as u8), ('e' as u8), ('x' as u8), ('t' as u8)];
    let w5: [u8; 6] = [('.' as u8), ('t' as u8), ('u' as u8), ('r' as u8), ('b' as u8), ('o' as u8)];
    let w6: [u8; 7] = [('.' as u8), ('v' as u8), ('e' as u8), ('r' as u8), ('c' as u8), ('e' as u8), ('l' as u8)];
    let w7: [u8; 6] = [('t' as u8), ('a' as u8), ('r' as u8), ('g' as u8), ('e' as u8), ('t' as u8)];
    let w8: [u8; 9] = [('.' as u8), ('D' as u8), ('S' as u8), ('_' as u8), ('S' as u8), ('t' as u8), ('o' as u8), ('r' as u8), ('e' as u8)];
    let w9: [u8; 9] = [('t' as u8), ('h' as u8), ('u' as u8), ('m' as u8), ('b' as u8), ('s' as u8), ('.' as u8), ('d' as u8), ('b' as u8)];
    assert(w1@ =~= word_node_modules());
    assert(w2@ =~= word_git());
    assert(w3@ =~= word_dist());
    assert(w4@ =~= word_next());
    assert(w5@ =~= word_turbo());
    assert(w6@ =~= word_vercel());
    assert(w7@ =~= word_target());
    assert(w8@ =~= word_ds_store());
    assert(w9@ =~= word_thumbs_db());
    bytes_eq(n, w1.as_slice()) || bytes_eq(n, w2.as_slice()) || bytes_eq(n, w3.as_slice())
        || bytes_eq(n, w4.as_slice()) || bytes_eq(n, w5.as_slice()) || bytes_eq(n, w6.as_slice())
        || bytes_eq(n, w7.as_slice()) || bytes_eq(n, w8.as_slice()) || bytes_eq(n, w9.as_slice())
}

/// Exclusion policy over raw bytes; shared by scanning, wildcard expansion and
/// watch-event filtering.
pub fn is_excluded_bytes(n: &[u8]) -> (r: bool)
    ensures
        r == is_excluded(n@),
{
    is_denied(n) || (n.len() > 0 && n[0] == ('.' as u8))
}

/// Whether a single path segment name is excluded from scanning and watching.
pub fn should_exclude(name: &str) -> (r: bool)
    ensures
        r == is_excluded(name.spec_bytes()),
{
    is_excluded_bytes(name.as_bytes())
}

/// `p[i..j]` is one `/`-separated segment of `p`.
pub open spec fn is_segment(p: Seq<u8>, i: int, j: int) -> bool {
    &&& 0 <= i <= j <= p.len()
    &&& (i == 0 || p[i - 1] == ('/' as u8))
    &&& (j == p.len() || p[j] == ('/' as u8))
    &&& forall|k: int| i <= k < j ==> p[k] != ('/' as u8)
}

/// `.` and `..` name the current and parent directory, not an entry.
pub open spec fn is_relative_marker(seg: Seq<u8>) -> bool {
    seg == seq![('.' as u8)] || seg == seq![('.' as u8), ('.' as u8)]
}

/// A segment that names an entry which the exclusion policy rejects.
pub open spec fn is_excluded_segment(seg: Seq<u8>) -> bool {
    seg.len() > 0 && !is_relative_marker(seg) && is_excluded(seg)
}

/// Some segment of the path names an excluded entry.
pub open spec fn has_excluded_component(p: Seq<u8>) -> bool {
    exists|i: int, j: int| is_segment(p, i, j) && is_excluded_segment(#[trigger] p.subrange(i, j))
}

fn is_relative_marker_bytes(n: &[u8]) -> (r: bool)
    ensures
        r == is_relative_marker(n@),
{
    if n.len() == 1 && n[0] == ('.' as u8) {
        assert(n@ =~= seq![('.' as u8)]);
        true
    } else if n.len() == 2 && n[0] == ('.' as u8) && n[1] == ('.' as u8) {
        assert(n@ =~= seq![('.' as u8), ('.' as u8)]);
        true
    } else {
        proof {
            if n@ == seq![('.' as u8)] {
                assert(n@[0] == ('.' as u8));
            }
            if n@ == seq![('.' as u8), ('.' as u8)] {
                assert(n@[0] == ('.' as u8) && n@[1] == ('.' as u8));
            }
        }
        false
    }
}

/// Whether any segment of a `/`-separated path is excluded.
pub fn path_has_excluded_component(path: &[u8]) -> (r: bool)
    ensures
        r == has_excluded_component(path@),
{
    let n = path.len();
    let mut i: usize = 0;
    loop
        invariant
            n == path@.len(),
            0 <= i <= n,
            i == 0 || path@[i - 1] == ('/' as u8),
            forall|i0: int, j0: int|
                #![trigger is_segment(path@, i0, j0)]
                is_segment(path@, i0, j0) && i0 < i ==> !is_excluded_segment(
                    path@.subrange(i0, j0),
                ),
        decreases n - i,
    {
        let mut j: usize = i;
        while j < n && path[j] != ('/' as u8)
            invariant
                n == path@.len(),
                i <= j <= n,
                forall|k: int| i <= k < j ==> path@[k] != ('/' as u8),
            decreases n - j,
        {
            j = j + 1;
        }
        assert(is_segment(path@, i as int, j as int));
        let seg = vstd::slice::slice_subrange(path, i, j);
        if seg.len() > 0 && !is_relative_marker_bytes(seg) && is_excluded_bytes(seg) {
            assert(is_excluded_segment(path@.subrange(i as int, j as int)));
            return true;
        }
        assert forall|i0: int, j0: int|
            #![trigger is_segment(path@, i0, j0)]
            is_segment(path@, i0, j0) && i0 < j + 1 implies !is_excluded_segment(
                path@.subrange(i0, j0),
            ) by {
            if i0 >= i {
                if i0 > i {
                    assert(path@[i0 - 1] != ('/' as u8));
                }
                if j0 < j {
                    assert(path@[j0] != ('/' as u8));
                }
                if j0 > j {
                    assert(path@[j as int] != ('/' as u8));
                }
            }
        }
        if j == n {
            assert forall|i0: int, j0: int|
                is_segment(path@, i0, j0) implies !is_excluded_segment(
                #[trigger] path@.subrange(i0, j0),
            ) by {}
            return false;
        }
        i = j + 1;
    }
}

} // verus!
