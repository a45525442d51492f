use vstd::prelude::*;
use vstd::string::StringSliceAdditionalSpecFns;
use crate::exclude::{is_excluded, is_excluded_bytes};
use crate::watch::{not_a_directory_error, not_a_directory_message};

verus! {

/// What an entry of a directory listing is, after following symlinks.
#[derive(Clone, Copy, PartialEq, Eq, Structural, Debug)]
pub enum EntryKind {
    Directory,
    File,
    /// Neither, or its metadata could not be read (broken link, permission denied).
    Other,
}

/// A snapshot of one filesystem entry, as read from disk.
#[derive(Debug)]
pub struct RawEntry {
    /// Base name of the entry.
    pub name: String,
    /// Path by which the entry is addressed.
    pub path: String,
    pub kind: EntryKind,
    /// Last-modified time in whole seconds since the epoch, if known.
    pub modified: Option<u64>,
    /// Heading of a Markdown file, if one was found.
    pub title: Option<String>,
    /// Entries of a directory; `None` when it could not be listed.
    pub listing: Option<Vec<RawEntry>>,
}

/// A node in the file tree returned by the scanner.
#[derive(Debug)]
pub struct FileTreeNode {
    /// Display name (file or directory name)
    pub name: String,
    /// Absolute filesystem path
    pub path: String,
    /// Whether this node is a directory
    pub is_directory: bool,
    /// Title extracted from the first `# ` heading of a Markdown file
    pub title: Option<String>,
    /// Child nodes (populated for directories)
    pub children: Vec<FileTreeNode>,
    /// Depth in the tree (0 = root scope directory)
    pub depth: u32,
    /// Number of Markdown files in this subtree (for directories)
    pub file_count: u32,
    /// Last modified timestamp (seconds since epoch)
    pub modified: Option<u64>,
}

/// The deepest level at which a directory is still listed.
pub const MAX_SCAN_DEPTH: u32 = 15;

pub open spec fn name_bytes(s: String) -> Seq<u8> {
    vstd::utf8::encode_utf8(s@)
}

/// The name ends in the Markdown extension `.md`.
pub open spec fn is_markdown(b: Seq<u8>) -> bool {
    &&& b.len() >= 3
    &&& b[b.len() - 3] == ('.' as u8)
    &&& b[b.len() - 2] == ('m' as u8)
    &&& b[b.len() - 1] == ('d' as u8)
}

/// Strict lexicographic order on byte strings.
pub open spec fn bytes_lt(a: Seq<u8>, b: Seq<u8>) -> bool
    decreases a.len(),
{
    if a.len() == 0 {
        b.len() > 0
    } else if b.len() == 0 {
        false
    } else if a[0] != b[0] {
        a[0] < b[0]
    } else {
        bytes_lt(a.drop_first(), b.drop_first())
    }
}

/// Order of siblings: directories before files, then by name.
pub open spec fn node_lt(a: FileTreeNode, b: FileTreeNode) -> bool {
    (a.is_directory && !b.is_directory) || (a.is_directory == b.is_directory && bytes_lt(
        name_bytes(a.name),
        name_bytes(b.name),
    ))
}

/// Same kind and same name: the two siblings have one place in the order.
pub open spec fn same_key(a: FileTreeNode, b: FileTreeNode) -> bool {
    a.is_directory == b.is_directory && name_bytes(a.name) == name_bytes(b.name)
}

/// Each sibling sorts strictly before every later one, unless the two share a key.
pub open spec fn siblings_sorted(c: Seq<FileTreeNode>) -> bool {
    forall|i: int, j: int|
        0 <= i < j < c.len() ==> node_lt(#[trigger] c[i], #[trigger] c[j]) || same_key(c[i], c[j])
}

spec fn never_descending(c: Seq<FileTreeNode>) -> bool {
    forall|i: int, j: int| 0 <= i < j < c.len() ==> !node_lt(#[trigger] c[j], #[trigger] c[i])
}

proof fn lemma_bytes_lt_total(a: Seq<u8>, b: Seq<u8>)
    ensures
        bytes_lt(a, b) || bytes_lt(b, a) || a == b,
    decreases a.len(),
{
    if a.len() > 0 && b.len() > 0 && a[0] == b[0] {
        lemma_bytes_lt_total(a.drop_first(), b.drop_first());
        if a.drop_first() == b.drop_first() {
            assert forall|i: int| 0 <= i < a.len() implies a[i] == b[i] by {
                if i > 0 {
                    assert(a[i] == a.drop_first()[i - 1]);
                    assert(b[i] == b.drop_first()[i - 1]);
                }
            }
            assert(a =~= b);
        }
    } else if a.len() == 0 && b.len() == 0 {
        assert(a =~= b);
    }
}

proof fn lemma_sorted_forms(c: Seq<FileTreeNode>)
    ensures
        siblings_sorted(c) == never_descending(c),
{
    assert forall|i: int, j: int| 0 <= i < j < c.len() implies (node_lt(
        #[trigger] c[i],
        #[trigger] c[j],
    ) || same_key(c[i], c[j])) == !node_lt(c[j], c[i]) by {
        lemma_bytes_lt_total(name_bytes(c[i].name), name_bytes(c[j].name));
        lemma_node_lt_order(c[i], c[j], c[i]);
        lemma_node_lt_order(c[j], c[i], c[j]);
        lemma_bytes_lt_irreflexive(name_bytes(c[i].name));
    }
}

/// A file leaf of the tree.
pub open spec fn leaf_ok(c: FileTreeNode) -> bool {
    &&& !c.is_directory
    &&& is_markdown(name_bytes(c.name))
    &&& c.file_count == 0
    &&& c.children@.len() == 0
}

/// A well-formed directory node and everything under it: children sit one level
/// deeper, are sorted, are never excluded, are Markdown files or directories that
/// hold at least one file, and no directory lies deeper than `max`.
pub open spec fn tree_ok(n: FileTreeNode, max: int) -> bool
    decreases (if n.depth <= max { max - n.depth + 1 } else { 0 }),
{
    &&& n.depth <= max
    &&& n.is_directory
    &&& siblings_sorted(n.children@)
    &&& (n.file_count > 0 <==> n.children@.len() > 0)
    &&& forall|i: int|
        #![trigger n.children@[i]]
        0 <= i < n.children@.len() ==> {
            &&& n.children@[i].depth == n.depth + 1
            &&& !is_excluded(name_bytes(n.children@[i].name))
            &&& if n.children@[i].is_directory {
                n.children@[i].file_count > 0 && tree_ok(n.children@[i], max)
            } else {
                leaf_ok(n.children@[i])
            }
        }
}

/// The child's name and path are those of some listed entry.
pub open spec fn from_listing(c: FileTreeNode, entries: Seq<RawEntry>) -> bool {
    exists|j: int|
        0 <= j < entries.len() && #[trigger] entries[j].name == c.name && entries[j].path == c.path
}

/// A listed regular file that the tree shows: Markdown and not excluded.
pub open spec fn listed_markdown(e: RawEntry) -> bool {
    e.kind == EntryKind::File && !is_excluded(name_bytes(e.name)) && is_markdown(name_bytes(e.name))
}

/// The listed entry leads to something the tree shows at a directory of depth
/// `depth`: it is not excluded, and it is a Markdown file or a directory whose
/// subtree holds one within the depth bound.
pub open spec fn holds_markdown(e: RawEntry, depth: int, max: int) -> bool
    decreases (if depth <= max { max - depth + 1 } else { 0 }),
{
    if depth > max {
        false
    } else {
        match e.listing {
            None => false,
            Some(l) => exists|j: int|
                0 <= j < l@.len() && !is_excluded(name_bytes(#[trigger] l@[j].name)) && (
                listed_markdown(l@[j]) || (l@[j].kind == EntryKind::Directory && holds_markdown(
                    l@[j],
                    depth + 1,
                    max,
                ))),
        }
    }
}

/// An entry of a directory at depth `depth` that shows up among its children.
pub open spec fn shown_entry(c: RawEntry, depth: int, max: int) -> bool {
    !is_excluded(name_bytes(c.name)) && (listed_markdown(c) || (c.kind == EntryKind::Directory
        && holds_markdown(c, depth + 1, max)))
}

/// Order of listed entries, as `node_lt` orders the nodes made from them.
pub open spec fn entry_lt(a: RawEntry, b: RawEntry) -> bool {
    (a.kind == EntryKind::Directory && b.kind != EntryKind::Directory) || ((a.kind
        == EntryKind::Directory) == (b.kind == EntryKind::Directory) && bytes_lt(
        name_bytes(a.name),
        name_bytes(b.name),
    ))
}

/// First position at or after `q` whose entry sorts after `x`, or the length.
pub open spec fn first_after(s: Seq<RawEntry>, x: RawEntry, q: int) -> int
    decreases s.len() - q,
{
    if q < 0 || q >= s.len() {
        s.len() as int
    } else if entry_lt(x, s[q]) {
        q
    } else {
        first_after(s, x, q + 1)
    }
}

/// The entries among the first `n` of a listing that show up as children of a
/// directory at depth `depth`, each placed before the first one that sorts after
/// it (a stable sort in listing order).
pub open spec fn shown_sorted(l: Seq<RawEntry>, n: int, depth: int, max: int) -> Seq<RawEntry>
    decreases n,
{
    if n <= 0 || n > l.len() {
        Seq::empty()
    } else {
        let prev = shown_sorted(l, n - 1, depth, max);
        if shown_entry(l[n - 1], depth, max) {
            prev.insert(first_after(prev, l[n - 1], 0), l[n - 1])
        } else {
            prev
        }
    }
}

/// Sum that stops at the largest count a node can hold.
pub open spec fn capped_sum(a: int, b: int) -> int {
    if a + b <= u32::MAX {
        a + b
    } else {
        u32::MAX as int
    }
}

/// Markdown files counted among the first `n` entries of a listing of a directory
/// at depth `depth`: one for each shown file, the count of each subdirectory within
/// the depth bound, none for excluded, unreadable or other entries.
pub open spec fn count_entries(l: Seq<RawEntry>, n: int, depth: int, max: int) -> int
    decreases (if depth <= max { max - depth + 1 } else { 0 }), n,
{
    if n <= 0 || n > l.len() {
        0
    } else {
        let c = l[n - 1];
        let add = if listed_markdown(c) {
            1
        } else if !is_excluded(name_bytes(c.name)) && c.kind == EntryKind::Directory && depth
            <= max && depth + 1 <= max && c.listing is Some {
            count_entries(c.listing->0@, c.listing->0@.len() as int, depth + 1, max)
        } else {
            0
        };
        capped_sum(count_entries(l, n - 1, depth, max), add)
    }
}

/// `c` is the file node of entry `e` at depth `d`.
pub open spec fn file_node_of(c: FileTreeNode, e: RawEntry, d: int) -> bool {
    &&& !c.is_directory
    &&& c.name == e.name
    &&& c.path == e.path
    &&& c.title == e.title
    &&& c.modified == e.modified
    &&& c.depth == d
    &&& c.file_count == 0
    &&& c.children@.len() == 0
}

/// `n` is exactly the scan of directory entry `e` at depth `depth`: its own fields
/// come from `e`, its count is `count_entries`, and its children are the shown
/// entries in sorted order, each scanned the same way one level deeper.
pub open spec fn scans_to(n: FileTreeNode, e: RawEntry, depth: int, max: int) -> bool
    decreases (if depth <= max { max - depth + 1 } else { 0 }),
{
    &&& depth <= max
    &&& e.listing is Some
    &&& n.is_directory
    &&& n.title is None
    &&& n.name == e.name
    &&& n.path == e.path
    &&& n.modified == e.modified
    &&& n.depth == depth
    &&& n.file_count == count_entries(e.listing->0@, e.listing->0@.len() as int, depth, max)
    &&& n.children@.len() == shown_sorted(
        e.listing->0@,
        e.listing->0@.len() as int,
        depth,
        max,
    ).len()
    &&& forall|k: int|
        #![trigger n.children@[k]]
        0 <= k < n.children@.len() ==> {
            let se = shown_sorted(e.listing->0@, e.listing->0@.len() as int, depth, max)[k];
            if se.kind == EntryKind::Directory {
                scans_to(n.children@[k], se, depth + 1, max)
            } else {
                file_node_of(n.children@[k], se, depth + 1)
            }
        }
}

/// `c` is the child made from shown entry `e` of a directory at depth `d - 1`.
pub open spec fn child_of(c: FileTreeNode, e: RawEntry, d: int, max: int) -> bool {
    if e.kind == EntryKind::Directory {
        scans_to(c, e, d, max)
    } else {
        file_node_of(c, e, d)
    }
}

proof fn lemma_first_after(s: Seq<RawEntry>, x: RawEntry, q: int, p: int)
    requires
        0 <= q <= p <= s.len(),
        forall|k: int| q <= k < p ==> !entry_lt(x, #[trigger] s[k]),
        p == s.len() || entry_lt(x, s[p]),
    ensures
        first_after(s, x, q) == p,
    decreases p - q,
{
    if q < p {
        lemma_first_after(s, x, q + 1, p);
    }
}

/// Among the children is the directory node of entry `e`.
pub open spec fn has_dir_child(children: Seq<FileTreeNode>, e: RawEntry) -> bool {
    exists|k: int|
        0 <= k < children.len() && (#[trigger] children[k]).is_directory && children[k].name
            == e.name && children[k].path == e.path && children[k].modified == e.modified
}

/// Among the children is the file node of entry `e`.
pub open spec fn has_file_child(children: Seq<FileTreeNode>, e: RawEntry) -> bool {
    exists|k: int|
        0 <= k < children.len() && !(#[trigger] children[k]).is_directory && children[k].name
            == e.name && children[k].path == e.path && children[k].title == e.title
            && children[k].modified == e.modified
}

proof fn lemma_bytes_lt_irreflexive(a: Seq<u8>)
    ensures
        !bytes_lt(a, a),
    decreases a.len(),
{
    if a.len() > 0 {
        lemma_bytes_lt_irreflexive(a.drop_first());
    }
}

proof fn lemma_bytes_lt_transitive(a: Seq<u8>, b: Seq<u8>, c: Seq<u8>)
    requires
        bytes_lt(a, b),
        bytes_lt(b, c),
    ensures
        bytes_lt(a, c),
    decreases a.len(),
{
    if a.len() > 0 && a[0] == b[0] && b[0] == c[0] {
        lemma_bytes_lt_transitive(a.drop_first(), b.drop_first(), c.drop_first());
    }
}

proof fn lemma_node_lt_order(a: FileTreeNode, b: FileTreeNode, c: FileTreeNode)
    ensures
        !node_lt(a, a),
        node_lt(a, b) && node_lt(b, c) ==> node_lt(a, c),
{
    lemma_bytes_lt_irreflexive(name_bytes(a.name));
    if node_lt(a, b) && node_lt(b, c) && a.is_directory == c.is_directory {
        lemma_bytes_lt_transitive(name_bytes(a.name), name_bytes(b.name), name_bytes(c.name));
    }
}

fn bytes_less(a: &[u8], b: &[u8]) -> (r: bool)
    ensures
        r == bytes_lt(a@, b@),
{
    let mut i: usize = 0;
    assert(a@.skip(0) =~= a@);
    assert(b@.skip(0) =~= b@);
    loop
        invariant
            i <= a@.len(),
            i <= b@.len(),
            bytes_lt(a@, b@) == bytes_lt(a@.skip(i as int), b@.skip(i as int)),
        decreases a@.len() - i,
    {
        if i == a.len() {
            return i < b.len();
        }
        if i == b.len() {
            return false;
        }
        if a[i] != b[i] {
            return a[i] < b[i];
        }
        assert(a@.skip(i as int).drop_first() =~= a@.skip(i + 1));
        assert(b@.skip(i as int).drop_first() =~= b@.skip(i + 1));
        i = i + 1;
    }
}

fn node_less(a: &FileTreeNode, b: &FileTreeNode) -> (r: bool)
    ensures
        r == node_lt(*a, *b),
{
    if a.is_directory != b.is_directory {
        a.is_directory
    } else {
        bytes_less(a.name.as_str().as_bytes(), b.name.as_str().as_bytes())
    }
}

/// Inserts `x` before the first sibling that sorts after it.
fn insert_sorted(v: &mut Vec<FileTreeNode>, x: FileTreeNode) -> (p: usize)
    requires
        siblings_sorted(old(v)@),
        old(v)@.len() < usize::MAX,
    ensures
        p <= old(v)@.len(),
        final(v)@ == old(v)@.insert(p as int, x),
        siblings_sorted(final(v)@),
        forall|k: int| 0 <= k < p ==> !node_lt(x, #[trigger] old(v)@[k]),
        p < old(v)@.len() ==> node_lt(x, old(v)@[p as int]),
{
    let mut p: usize = 0;
    while p < v.len() && !node_less(&x, &v[p])
        invariant
            p <= v@.len(),
            forall|k: int| 0 <= k < p ==> !node_lt(x, #[trigger] v@[k]),
        decreases v@.len() - p,
    {
        p = p + 1;
    }
    let ghost before = v@;
    proof {
        lemma_sorted_forms(before);
    }
    v.insert(p, x);
    assert forall|i: int, j: int| 0 <= i < j < v@.len() implies !node_lt(
        #[trigger] v@[j],
        #[trigger] v@[i],
    ) by {
        if i < p && j == p {
        } else if i == p && j > p {
            lemma_node_lt_order(before[j - 1], x, before[p as int]);
            lemma_node_lt_order(before[j - 1], before[p as int], before[p as int]);
            if node_lt(before[j - 1], x) {
                assert(node_lt(before[j - 1], before[p as int]));
            }
        } else if i < p && j > p {
            assert(!node_lt(before[j - 1], before[i]));
        } else if j < p {
            assert(!node_lt(before[j], before[i]));
        } else {
            assert(!node_lt(before[j - 1], before[i - 1]));
        }
    }
    proof {
        lemma_sorted_forms(v@);
    }
    p
}

fn is_markdown_bytes(b: &[u8]) -> (r: bool)
    ensures
        r == is_markdown(b@),
{
    let n = b.len();
    n >= 3 && b[n - 3] == ('.' as u8) && b[n - 2] == ('m' as u8) && b[n - 1] == ('d' as u8)
}

fn copy_title(t: &Option<String>) -> (r: Option<String>)
    ensures
        r == *t,
{
    match t {
        Some(s) => Some(s.clone()),
        None => None,
    }
}

/// Builds the filtered tree of a directory snapshot: Markdown files and the
/// directories that hold some, sorted, with file counts summed bottom-up.
/// Returns `None` past the depth bound or when the directory could not be listed.
#[verifier::rlimit(60)]
pub fn scan_dir_recursive(dir: &RawEntry, depth: u32, max_depth: u32) -> (r: Option<
    FileTreeNode,
>)
    requires
        max_depth < u32::MAX,
    ensures
        r is Some <==> (depth <= max_depth && dir.listing is Some),
        r is None ==> !holds_markdown(*dir, depth as int, max_depth as int),
        r matches Some(n) ==> {
            &&& n.file_count > 0 <==> holds_markdown(*dir, depth as int, max_depth as int)
            &&& tree_ok(n, max_depth as int)
            &&& n.depth == depth
            &&& n.name == dir.name
            &&& n.path == dir.path
            &&& n.modified == dir.modified
            &&& n.title is None
            &&& scans_to(n, *dir, depth as int, max_depth as int)
            &&& forall|k: int|
                0 <= k < n.children@.len() ==> from_listing(
                    #[trigger] n.children@[k],
                    dir.listing->0@,
                )
            &&& forall|j: int|
                0 <= j < dir.listing->0@.len() && listed_markdown(#[trigger] dir.listing->0@[j])
                    ==> has_file_child(n.children@, dir.listing->0@[j])
            &&& forall|j: int|
                0 <= j < dir.listing->0@.len() && #[trigger] dir.listing->0@[j].kind
                    == EntryKind::Directory && shown_entry(
                    dir.listing->0@[j],
                    depth as int,
                    max_depth as int,
                ) ==> has_dir_child(n.children@, dir.listing->0@[j])
        },
    decreases max_depth + 1 - depth,
{
    if depth > max_depth {
        return None;
    }
    let entries = match &dir.listing {
        Some(l) => l,
        None => return None,
    };
    let mut children: Vec<FileTreeNode> = Vec::new();
    let mut file_count: u32 = 0;
    let mut i: usize = 0;
    while i < entries.len()
        invariant
            depth <= max_depth < u32::MAX,
            i <= entries@.len(),
            children@.len() <= i,
            siblings_sorted(children@),
            file_count > 0 <==> children@.len() > 0,
            dir.listing == Some(*entries),
            file_count == count_entries(entries@, i as int, depth as int, max_depth as int),
            children@.len() == shown_sorted(
                entries@,
                i as int,
                depth as int,
                max_depth as int,
            ).len(),
            forall|k: int|
                #![trigger children@[k]]
                0 <= k < children@.len() ==> child_of(
                    children@[k],
                    shown_sorted(entries@, i as int, depth as int, max_depth as int)[k],
                    depth + 1,
                    max_depth as int,
                ),
            forall|j: int|
                0 <= j < i && #[trigger] entries@[j].kind == EntryKind::Directory && shown_entry(
                    entries@[j],
                    depth as int,
                    max_depth as int,
                ) ==> has_dir_child(children@, entries@[j]),
            children@.len() > 0 <==> exists|j: int|
                0 <= j < i && shown_entry(#[trigger] entries@[j], depth as int, max_depth as int),
            forall|k: int|
                0 <= k < children@.len() ==> from_listing(#[trigger] children@[k], entries@),
            forall|j: int|
                0 <= j < i && listed_markdown(#[trigger] entries@[j]) ==> has_file_child(
                    children@,
                    entries@[j],
                ),
            forall|k: int|
                #![trigger children@[k]]
                0 <= k < children@.len() ==> {
                    &&& children@[k].depth == depth + 1
                    &&& !is_excluded(name_bytes(children@[k].name))
                    &&& if children@[k].is_directory {
                        children@[k].file_count > 0 && tree_ok(children@[k], max_depth as int)
                    } else {
                        leaf_ok(children@[k])
                    }
                },
        decreases entries@.len() - i,
    {
        let e = &entries[i];
        let ghost ss0 = shown_sorted(entries@, i as int, depth as int, max_depth as int);
        let ghost old_len = children@.len();
        let ghost had = exists|j: int|
            0 <= j < i && shown_entry(#[trigger] entries@[j], depth as int, max_depth as int);
        let nb = e.name.as_str().as_bytes();
        if !is_excluded_bytes(nb) {
            let mut found: Option<FileTreeNode> = None;
            match e.kind {
                EntryKind::Directory => {
                    if let Some(child) = scan_dir_recursive(e, depth + 1, max_depth) {
                        if child.file_count > 0 {
                            found = Some(child);
                        }
                    }
                },
                EntryKind::File => {
                    if is_markdown_bytes(nb) {
                        found = Some(
                            FileTreeNode {
                                name: e.name.clone(),
                                path: e.path.clone(),
                                is_directory: false,
                                title: copy_title(&e.title),
                                children: Vec::new(),
                                depth: depth + 1,
                                file_count: 0,
                                modified: e.modified,
                            },
                        );
                    }
                },
                EntryKind::Other => {},
            }
            if let Some(c) = found {
                let ghost c_copy = c;
                let add: u32 = if c.is_directory {
                    c.file_count
                } else {
                    1
                };
                file_count = if file_count <= u32::MAX - add {
                    file_count + add
                } else {
                    u32::MAX
                };
                let ghost before = children@;
                let p = insert_sorted(&mut children, c);
                assert forall|k: int|
                    #![trigger children@[k]]
                    0 <= k < children@.len() implies {
                        &&& children@[k].depth == depth + 1
                        &&& !is_excluded(name_bytes(children@[k].name))
                        &&& if children@[k].is_directory {
                            children@[k].file_count > 0 && tree_ok(
                                children@[k],
                                max_depth as int,
                            )
                        } else {
                            leaf_ok(children@[k])
                        }
                    } by {
                    if k < p {
                        assert(children@[k] == before[k]);
                    } else if k > p {
                        assert(children@[k] == before[k - 1]);
                    }
                }
                assert forall|k: int|
                    0 <= k < children@.len() implies from_listing(
                    #[trigger] children@[k],
                    entries@,
                ) by {
                    if k < p {
                        assert(children@[k] == before[k]);
                        assert(from_listing(before[k], entries@));
                    } else if k > p {
                        assert(children@[k] == before[k - 1]);
                        assert(from_listing(before[k - 1], entries@));
                    } else {
                        assert(entries@[i as int].name == children@[k].name);
                    }
                }
                assert forall|j: int|
                    0 <= j < i && listed_markdown(#[trigger] entries@[j]) implies has_file_child(
                    children@,
                    entries@[j],
                ) by {
                    let k0 = choose|k0: int|
                        0 <= k0 < before.len() && !(#[trigger] before[k0]).is_directory
                            && before[k0].name == entries@[j].name && before[k0].path
                            == entries@[j].path && before[k0].title == entries@[j].title
                            && before[k0].modified == entries@[j].modified;
                    if k0 < p {
                        assert(children@[k0] == before[k0]);
                    } else {
                        assert(children@[k0 + 1] == before[k0]);
                    }
                }
                assert forall|j: int|
                    0 <= j < i && #[trigger] entries@[j].kind == EntryKind::Directory
                        && shown_entry(
                        entries@[j],
                        depth as int,
                        max_depth as int,
                    ) implies has_dir_child(children@, entries@[j]) by {
                    let k0 = choose|k0: int|
                        0 <= k0 < before.len() && (#[trigger] before[k0]).is_directory
                            && before[k0].name == entries@[j].name && before[k0].path
                            == entries@[j].path && before[k0].modified == entries@[j].modified;
                    if k0 < p {
                        assert(children@[k0] == before[k0]);
                    } else {
                        assert(children@[k0 + 1] == before[k0]);
                    }
                }
                proof {
                    let ei = entries@[i as int];
                    let d1 = depth + 1;
                    let m = max_depth as int;
                    assert(c_copy.is_directory == (ei.kind == EntryKind::Directory));
                    assert(c_copy.name == ei.name);
                    assert(child_of(c_copy, ei, d1, m));
                    assert forall|k: int| 0 <= k < p implies !entry_lt(ei, #[trigger] ss0[k]) by {
                        assert(child_of(before[k], ss0[k], d1, m));
                        assert(!node_lt(c_copy, before[k]));
                    }
                    if p < before.len() {
                        assert(child_of(before[p as int], ss0[p as int], d1, m));
                        assert(node_lt(c_copy, before[p as int]));
                    }
                    lemma_first_after(ss0, ei, 0, p as int);
                    let ss1 = shown_sorted(entries@, i + 1, depth as int, m);
                    assert(ss1 == ss0.insert(p as int, ei));
                    assert forall|k: int|
                        #![trigger children@[k]]
                        0 <= k < children@.len() implies child_of(children@[k], ss1[k], d1, m) by {
                        if k < p {
                            assert(children@[k] == before[k]);
                            assert(child_of(before[k], ss0[k], d1, m));
                        } else if k > p {
                            assert(children@[k] == before[k - 1]);
                            assert(child_of(before[k - 1], ss0[k - 1], d1, m));
                        }
                    }
                }
                proof {
                    if e.kind == EntryKind::Directory && shown_entry(*e, depth as int, max_depth as int) {
                        assert(children@[p as int] == c_copy);
                        assert(has_dir_child(children@, entries@[i as int]));
                    }
                    if listed_markdown(*e) {
                        assert(children@[p as int] == c_copy);
                        assert(has_file_child(children@, entries@[i as int]));
                    }
                }
            }
        }
        assert(listed_markdown(entries@[i as int]) ==> has_file_child(children@, entries@[i as int]));
        assert(children@.len() > old_len <==> shown_entry(
            entries@[i as int],
            depth as int,
            max_depth as int,
        ));
        assert(children@.len() >= old_len);
        proof {
            if children@.len() == old_len {
                assert(shown_sorted(entries@, i + 1, depth as int, max_depth as int) == ss0);
            }
        }
        assert(file_count == count_entries(entries@, i + 1, depth as int, max_depth as int));
        proof {
            if shown_entry(entries@[i as int], depth as int, max_depth as int) {
                assert(exists|j: int|
                    0 <= j < i + 1 && shown_entry(
                        #[trigger] entries@[j],
                        depth as int,
                        max_depth as int,
                    ));
            } else if had {
                let j0 = choose|j0: int|
                    0 <= j0 < i && shown_entry(#[trigger] entries@[j0], depth as int, max_depth as int);
                assert(0 <= j0 < i + 1 && shown_entry(entries@[j0], depth as int, max_depth as int));
            } else {
                assert forall|j: int| 0 <= j < i + 1 implies !shown_entry(
                    #[trigger] entries@[j],
                    depth as int,
                    max_depth as int,
                ) by {}
            }
        }
        i = i + 1;
    }
    assert(holds_markdown(*dir, depth as int, max_depth as int) <==> exists|j: int|
        0 <= j < entries@.len() && shown_entry(#[trigger] entries@[j], depth as int, max_depth as int));
    Some(
        FileTreeNode {
            name: dir.name.clone(),
            path: dir.path.clone(),
            is_directory: true,
            title: None,
            children,
            depth,
            file_count,
            modified: dir.modified,
        },
    )
}

/// `v` holds, in order, the scans of the roots at the indices `idx`, each one
/// holding Markdown.
pub open spec fn kept_in_order(v: Seq<FileTreeNode>, roots: Seq<RawEntry>, idx: Seq<int>) -> bool {
    &&& idx.len() == v.len()
    &&& forall|k: int, l: int| 0 <= k < l < idx.len() ==> #[trigger] idx[k] < #[trigger] idx[l]
    &&& forall|k: int|
        0 <= k < idx.len() ==> {
            &&& 0 <= #[trigger] idx[k] < roots.len()
            &&& roots[idx[k]].path == v[k].path
            &&& roots[idx[k]].name == v[k].name
            &&& holds_markdown(roots[idx[k]], 0, MAX_SCAN_DEPTH as int)
            &&& scans_to(v[k], roots[idx[k]], 0, MAX_SCAN_DEPTH as int)
        }
}

/// Scans the resolved scope directories of an HQ root. Each snapshot in `roots`
/// is addressed by the path the caller uses for it, even where that is a symlink.
/// Only roots that hold at least one Markdown file are kept, in the given order.
pub fn scan_hq_directory(hq_path: &str, hq_is_dir: bool, roots: &Vec<RawEntry>) -> (r: Result<
    Vec<FileTreeNode>,
    String,
>)
    ensures
        !hq_is_dir ==> (r matches Err(m) && m@ == not_a_directory_message(hq_path@)),
        hq_is_dir ==> (r matches Ok(v) && v@.len() <= roots@.len() && (forall|k: int|
            0 <= k < v@.len() ==> {
                &&& tree_ok(#[trigger] v@[k], MAX_SCAN_DEPTH as int)
                &&& v@[k].depth == 0
                &&& v@[k].file_count > 0
            }) && (exists|idx: Seq<int>| kept_in_order(v@, roots@, idx)) && (forall|j: int|
            0 <= j < roots@.len() && holds_markdown(#[trigger] roots@[j], 0, MAX_SCAN_DEPTH as int)
                ==> exists|k: int|
                0 <= k < v@.len() && v@[k].path == roots@[j].path && v@[k].name == roots@[j].name)),
{
    if !hq_is_dir {
        return Err(not_a_directory_error(hq_path));
    }
    let mut out: Vec<FileTreeNode> = Vec::new();
    let mut i: usize = 0;
    let ghost mut idx: Seq<int> = Seq::empty();
    while i < roots.len()
        invariant
            i <= roots@.len(),
            out@.len() <= i,
            forall|k: int|
                0 <= k < out@.len() ==> {
                    &&& tree_ok(#[trigger] out@[k], MAX_SCAN_DEPTH as int)
                    &&& out@[k].depth == 0
                    &&& out@[k].file_count > 0
                },
            kept_in_order(out@, roots@, idx),
            forall|k: int| 0 <= k < idx.len() ==> #[trigger] idx[k] < i,
            forall|j: int|
                0 <= j < i && holds_markdown(#[trigger] roots@[j], 0, MAX_SCAN_DEPTH as int)
                    ==> exists|k: int|
                    0 <= k < out@.len() && out@[k].path == roots@[j].path && out@[k].name
                        == roots@[j].name,
        decreases roots@.len() - i,
    {
        if let Some(n) = scan_dir_recursive(&roots[i], 0, MAX_SCAN_DEPTH) {
            if n.file_count > 0 {
                let ghost j = i as int;
                let ghost before = out@;
                let ghost idx0 = idx;
                out.push(n);
                proof {
                    idx = idx.push(j);
                    assert forall|k: int| 0 <= k < idx.len() implies #[trigger] idx[k] < i + 1 by {
                        if k < idx0.len() {
                            assert(idx[k] == idx0[k]);
                        }
                    }
                    assert forall|k: int, l: int|
                        0 <= k < l < idx.len() implies #[trigger] idx[k] < #[trigger] idx[l] by {
                        if l < idx0.len() {
                            assert(idx[k] == idx0[k] && idx[l] == idx0[l]);
                        } else {
                            assert(idx[k] == idx0[k]);
                            assert(idx0[k] < i);
                        }
                    }
                    assert forall|k: int| 0 <= k < idx.len() implies {
                        &&& 0 <= #[trigger] idx[k] < roots@.len()
                        &&& roots@[idx[k]].path == out@[k].path
                        &&& roots@[idx[k]].name == out@[k].name
                        &&& holds_markdown(roots@[idx[k]], 0, MAX_SCAN_DEPTH as int)
                        &&& scans_to(out@[k], roots@[idx[k]], 0, MAX_SCAN_DEPTH as int)
                    } by {
                        if k < idx0.len() {
                            assert(idx[k] == idx0[k]);
                            assert(out@[k] == before[k]);
                            assert(0 <= idx0[k] < roots@.len());
                        }
                    }
                }
                assert(roots@[j].path == out@[out@.len() - 1].path);
                assert forall|j1: int|
                    0 <= j1 < i + 1 && holds_markdown(
                        #[trigger] roots@[j1],
                        0,
                        MAX_SCAN_DEPTH as int,
                    ) implies exists|k: int|
                    0 <= k < out@.len() && out@[k].path == roots@[j1].path && out@[k].name
                        == roots@[j1].name by {
                    if j1 < i {
                        let k0 = choose|k0: int|
                            0 <= k0 < before.len() && before[k0].path == roots@[j1].path
                                && before[k0].name == roots@[j1].name;
                        assert(out@[k0] == before[k0]);
                    } else {
                        assert(out@[before.len() as int].path == roots@[j1].path);
                    }
                }
            }
        }
        i = i + 1;
    }
    assert(kept_in_order(out@, roots@, idx));
    Ok(out)
}

} // verus!
