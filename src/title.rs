use vstd::prelude::*;
use vstd::string::{StrSliceExecFns, StringExecFns};

verus! {

/// Whether a character has the Unicode `White_Space` property.
pub uninterp spec fn whitespace_char(c: char) -> bool;

/// Relies on `char::is_whitespace`: the Unicode `White_Space` property of `c`.
#[verifier::external_body]
fn is_whitespace(c: char) -> (r: bool)
    ensures
        r == whitespace_char(c),
{
    c.is_whitespace()
}

pub open spec fn trim_start(s: Seq<char>) -> Seq<char>
    decreases s.len(),
{
    if s.len() > 0 && whitespace_char(s[0]) {
        trim_start(s.drop_first())
    } else {
        s
    }
}

pub open spec fn trim_end(s: Seq<char>) -> Seq<char>
    decreases s.len(),
{
    if s.len() > 0 && whitespace_char(s.last()) {
        trim_end(s.drop_last())
    } else {
        s
    }
}

/// The string without leading and trailing whitespace.
pub open spec fn trim(s: Seq<char>) -> Seq<char> {
    trim_end(trim_start(s))
}

/// The title that a line gives: after trimming it starts with `# `, and what
/// follows, trimmed, is not empty.
pub open spec fn heading_title(line: Seq<char>) -> Option<Seq<char>> {
    let t = trim(line);
    if t.len() >= 2 && t[0] == '#' && t[1] == ' ' {
        let r = trim(t.subrange(2, t.len() as int));
        if r.len() > 0 {
            Some(r)
        } else {
            None
        }
    } else {
        None
    }
}

/// Number of leading lines in which a title is looked for.
pub const TITLE_SCAN_LINES: usize = 50;

/// The title of the first line, among the lines from `i` on and within the first
/// `TITLE_SCAN_LINES`, that gives one.
pub open spec fn title_from(lines: Seq<Seq<char>>, i: int) -> Option<Seq<char>>
    decreases lines.len() - i,
{
    if i < 0 || i >= lines.len() || i >= TITLE_SCAN_LINES {
        None
    } else if heading_title(lines[i]) is Some {
        heading_title(lines[i])
    } else {
        title_from(lines, i + 1)
    }
}

fn trim_bounds(s: &str, a: usize, b: usize) -> (r: (usize, usize))
    requires
        a <= b <= s@.len(),
    ensures
        a <= r.0 <= r.1 <= b,
        s@.subrange(r.0 as int, r.1 as int) == trim(s@.subrange(a as int, b as int)),
{
    let mut i: usize = a;
    while i < b && is_whitespace(s.get_char(i))
        invariant
            a <= i <= b <= s@.len(),
            trim_start(s@.subrange(a as int, b as int)) == trim_start(
                s@.subrange(i as int, b as int),
            ),
        decreases b - i,
    {
        assert(s@.subrange(i as int, b as int).drop_first() =~= s@.subrange(i + 1, b as int));
        i = i + 1;
    }
    let mut j: usize = b;
    while j > i && is_whitespace(s.get_char(j - 1))
        invariant
            a <= i <= j <= b <= s@.len(),
            trim_end(s@.subrange(i as int, b as int)) == trim_end(s@.subrange(i as int, j as int)),
        decreases j - i,
    {
        assert(s@.subrange(i as int, j as int).drop_last() =~= s@.subrange(i as int, j - 1));
        j = j - 1;
    }
    (i, j)
}

/// The title that one line gives, if any.
pub fn line_title(line: &str) -> (r: Option<String>)
    ensures
        r is None <==> heading_title(line@) is None,
        r matches Some(t) ==> heading_title(line@) == Some(t@),
{
    let n = line.unicode_len();
    let (i, j) = trim_bounds(line, 0, n);
    assert(line@.subrange(0, n as int) =~= line@);
    if j - i >= 2 && line.get_char(i) == '#' && line.get_char(i + 1) == ' ' {
        let ghost t = line@.subrange(i as int, j as int);
        let (x, y) = trim_bounds(line, i + 2, j);
        assert(t.subrange(2, t.len() as int) =~= line@.subrange(i + 2, j as int));
        if y > x {
            return Some(<String as StringExecFns>::from_str(line.substring_char(x, y)));
        }
    }
    None
}

/// The title of a Markdown document from its lines: the first line within the
/// first `TITLE_SCAN_LINES` that, trimmed, starts with `# ` and has a non-empty
/// trimmed remainder.
pub fn extract_md_title(lines: &Vec<String>) -> (r: Option<String>)
    ensures
        r is None <==> title_from(lines@.map_values(|l: String| l@), 0) is None,
        r matches Some(t) ==> title_from(lines@.map_values(|l: String| l@), 0) == Some(t@),
{
    let ghost ls = lines@.map_values(|l: String| l@);
    let mut i: usize = 0;
    while i < lines.len() && i < TITLE_SCAN_LINES
        invariant
            i <= lines@.len(),
            ls == lines@.map_values(|l: String| l@),
            title_from(ls, 0) == title_from(ls, i as int),
        decreases lines@.len() - i,
    {
        let t = line_title(lines[i].as_str());
        assert(ls[i as int] == lines@[i as int]@);
        if t.is_some() {
            return t;
        }
        i = i + 1;
    }
    None
}

} // verus!
