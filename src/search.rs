use vstd::prelude::*;
use vstd::string::{StrSliceExecFns, StringExecFns};

verus! {

/// Character-wise equality of two strings.
pub fn str_equal(a: &str, b: &str) -> (r: bool)
    ensures
        r == (a@ == b@),
{
    let n = a.unicode_len();
    if n != b.unicode_len() {
        return false;
    }
    let mut i: usize = 0;
    while i < n
        invariant
            n == a@.len() == b@.len(),
            i <= n,
            forall|k: int| 0 <= k < i ==> a@[k] == b@[k],
        decreases n - i,
    {
        if a.get_char(i) != b.get_char(i) {
            return false;
        }
        i = i + 1;
    }
    assert(a@ =~= b@);
    true
}

/// The search tool's subcommand for a search mode: `keyword` searches by words,
/// `semantic` by vectors, and anything else (`hybrid` included) runs a query.
pub open spec fn subcommand_for(mode: Seq<char>) -> Seq<char> {
    if mode == seq!['k', 'e', 'y', 'w', 'o', 'r', 'd'] {
        seq!['s', 'e', 'a', 'r', 'c', 'h']
    } else if mode == seq!['s', 'e', 'm', 'a', 'n', 't', 'i', 'c'] {
        seq!['v', 's', 'e', 'a', 'r', 'c', 'h']
    } else {
        seq!['q', 'u', 'e', 'r', 'y']
    }
}

pub fn search_subcommand(mode: &str) -> (r: String)
    ensures
        r@ == subcommand_for(mode@),
{
    proof {
        reveal_strlit("keyword");
        reveal_strlit("semantic");
        reveal_strlit("search");
        reveal_strlit("vsearch");
        reveal_strlit("query");
    }
    assert("keyword"@ =~= seq!['k', 'e', 'y', 'w', 'o', 'r', 'd']);
    assert("semantic"@ =~= seq!['s', 'e', 'm', 'a', 'n', 't', 'i', 'c']);
    let r = if str_equal(mode, "keyword") {
        <String as StringExecFns>::from_str("search")
    } else if str_equal(mode, "semantic") {
        <String as StringExecFns>::from_str("vsearch")
    } else {
        <String as StringExecFns>::from_str("query")
    };
    assert(r@ =~= subcommand_for(mode@));
    r
}

/// A collection scopes the search unless it is empty or `all`.
pub open spec fn scopes_search(c: Seq<char>) -> bool {
    c.len() > 0 && c != seq!['a', 'l', 'l']
}

/// The collection to pass to the search tool, if any.
pub fn collection_filter(collection: &Option<String>) -> (r: Option<String>)
    ensures
        collection is None ==> r is None,
        collection matches Some(c) ==> (if scopes_search(c@) {
            r matches Some(x) && x@ == c@
        } else {
            r is None
        }),
{
    match collection {
        None => None,
        Some(c) => {
            proof {
                reveal_strlit("all");
            }
            assert("all"@ =~= seq!['a', 'l', 'l']);
            if c.as_str().unicode_len() > 0 && !str_equal(c.as_str(), "all") {
                Some(<String as StringExecFns>::from_str(c.as_str()))
            } else {
                None
            }
        },
    }
}

} // verus!
