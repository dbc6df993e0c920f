use vstd::prelude::*;
use vstd::string::StrSliceExecFns;

use crate::model::{StoreV, tags_of};
use crate::rows::SnippetRowV;
use crate::snippet::SnippetV;

verus! {

/// Does `hay` contain `needle` as a contiguous substring (case-sensitive)?
/// The empty needle is contained in everything.
pub open spec fn contains_sub(hay: Seq<char>, needle: Seq<char>) -> bool {
    exists|i: int|
        0 <= i <= hay.len() - needle.len() && #[trigger] hay.subrange(i, i + needle.len())
            == needle
}

/// Every sequence contains itself.
pub proof fn lemma_contains_sub_self(s: Seq<char>)
    ensures
        contains_sub(s, s),
{
    assert(s.subrange(0, 0 + s.len() as int) =~= s);
    assert(contains_sub(s, s));
}

/// Does `needle` occur in `hay` at offset `i`?
fn match_at(hay: &str, needle: &str, i: usize, hl: usize, nl: usize) -> (b: bool)
    requires
        hl == hay@.len(),
        nl == needle@.len(),
        i + nl <= hl,
    ensures
        b == (hay@.subrange(i as int, i as int + needle@.len()) == needle@),
{
    let mut j: usize = 0;
    while j < nl
        invariant
            hl == hay@.len(),
            nl == needle@.len(),
            i + nl <= hl,
            0 <= j <= nl,
            forall|k: int| 0 <= k < j ==> hay@[i as int + k] == #[trigger] needle@[k],
        decreases nl - j,
    {
        if hay.get_char(i + j) != needle.get_char(j) {
            proof {
                assert(hay@.subrange(i as int, i as int + needle@.len())[j as int] == hay@[
                    i as int + j
                ]);
            }
            return false;
        }
        j += 1;
    }
    proof {
        assert(hay@.subrange(i as int, i as int + needle@.len()) =~= needle@);
    }
    true
}

/// Substring search, by checking every offset.
pub fn contains_substr(hay: &str, needle: &str) -> (b: bool)
    ensures
        b == contains_sub(hay@, needle@),
{
    let hl = hay.unicode_len();
    let nl = needle.unicode_len();
    if nl == 0 {
        proof {
            assert(hay@.subrange(0, 0 + needle@.len() as int) =~= needle@);
            assert(contains_sub(hay@, needle@));
        }
        return true;
    }
    if nl > hl {
        proof {
            assert(!contains_sub(hay@, needle@)) by {
                if contains_sub(hay@, needle@) {
                    let i = choose|i: int|
                        0 <= i <= hay@.len() - needle@.len() && #[trigger] hay@.subrange(
                            i,
                            i + needle@.len(),
                        ) == needle@;
                    assert(false);
                }
            }
        }
        return false;
    }
    let mut i: usize = 0;
    while i <= hl - nl
        invariant
            hl == hay@.len(),
            nl == needle@.len(),
            1 <= nl <= hl,
            0 <= i <= hl - nl + 1,
            forall|k: int|
                0 <= k < i ==> #[trigger] hay@.subrange(k, k + needle@.len()) != needle@,
        decreases hl - nl - i + 1,
    {
        if match_at(hay, needle, i, hl, nl) {
            proof {
                assert(hay@.subrange(i as int, i as int + needle@.len()) == needle@);
            }
            return true;
        }
        i += 1;
    }
    proof {
        assert(!contains_sub(hay@, needle@)) by {
            if contains_sub(hay@, needle@) {
                let k = choose|k: int|
                    0 <= k <= hay@.len() - needle@.len() && #[trigger] hay@.subrange(
                        k,
                        k + needle@.len(),
                    ) == needle@;
                assert(hay@.subrange(k, k + needle@.len()) != needle@);
                assert(false);
            }
        }
    }
    false
}

/// The name filter as a sequence, if one was given.
pub open spec fn name_filter_view(name: Option<&str>) -> Option<Seq<char>> {
    match name {
        Some(f) => Some(f@),
        None => None,
    }
}

/// The tag filter as a sequence of sequences, if one was given.
pub open spec fn tag_filter_view(tags: Option<&Vec<String>>) -> Option<Seq<Seq<char>>> {
    match tags {
        Some(ts) => Some(ts.deep_view()),
        None => None,
    }
}

/// Does the snippet row pass the name filter? No filter passes everything;
/// a filter matches by substring containment in the snippet's name.
pub open spec fn name_matches(row: SnippetRowV, nf: Option<Seq<char>>) -> bool {
    match nf {
        None => true,
        Some(f) => contains_sub(row.name, f),
    }
}

/// Does the snippet carry (through a live association row) some tag whose
/// name contains `g` as a substring?
pub open spec fn snippet_carries(s: StoreV, sid: int, g: Seq<char>) -> bool {
    exists|i: int|
        0 <= i < s.links.len() && (#[trigger] s.links[i]).snippet_id == sid
            && !s.links[i].deleted && contains_sub(s.tags[s.links[i].tag_id - 1].name, g)
}

/// Does the snippet carry every one of the listed tags?
pub open spec fn all_tags_carried(s: StoreV, sid: int, gs: Seq<Seq<char>>) -> bool {
    forall|k: int| 0 <= k < gs.len() ==> snippet_carries(s, sid, #[trigger] gs[k])
}

/// Does the snippet pass the tag filter? No filter passes everything; a
/// filter is conjunctive: the snippet must carry every listed tag.
pub open spec fn tags_match(s: StoreV, sid: int, tf: Option<Seq<Seq<char>>>) -> bool {
    match tf {
        None => true,
        Some(gs) => all_tags_carried(s, sid, gs),
    }
}

/// Does the snippet row at index `i` appear in the search result? Only live
/// rows do, and when both filters are given both must pass (intersection).
pub open spec fn search_matches(
    s: StoreV,
    i: int,
    nf: Option<Seq<char>>,
    tf: Option<Seq<Seq<char>>>,
) -> bool {
    &&& !s.snippets[i].deleted
    &&& name_matches(s.snippets[i], nf)
    &&& tags_match(s, i + 1, tf)
}

/// The snippet with id `sid` as a search result or read result: the row's
/// name and content, with the tags it currently carries.
pub open spec fn snippet_view_of(s: StoreV, sid: int) -> SnippetV {
    SnippetV {
        id: sid,
        name: s.snippets[sid - 1].name,
        tags: tags_of(s, sid),
        content: s.snippets[sid - 1].content,
    }
}

/// The search results drawn from the first `n` snippet rows, in storage
/// (ascending id) order.
pub open spec fn search_results(
    s: StoreV,
    n: int,
    nf: Option<Seq<char>>,
    tf: Option<Seq<Seq<char>>>,
) -> Seq<SnippetV>
    decreases n,
{
    if n <= 0 {
        Seq::empty()
    } else {
        let pre = search_results(s, n - 1, nf, tf);
        if search_matches(s, n - 1, nf, tf) {
            pre.push(snippet_view_of(s, n))
        } else {
            pre
        }
    }
}

/// The full search result over the whole store.
pub open spec fn search_spec(
    s: StoreV,
    nf: Option<Seq<char>>,
    tf: Option<Seq<Seq<char>>>,
) -> Seq<SnippetV> {
    search_results(s, s.snippets.len() as int, nf, tf)
}

/// A snippet whose row does not pass the filters appears in no search
/// result: every result's id differs from its id.
pub proof fn lemma_search_skips_unmatched(
    s: StoreV,
    n: int,
    sid: int,
    nf: Option<Seq<char>>,
    tf: Option<Seq<Seq<char>>>,
)
    requires
        1 <= sid,
        !search_matches(s, sid - 1, nf, tf),
    ensures
        forall|k: int|
            0 <= k < search_results(s, n, nf, tf).len() ==> (#[trigger] search_results(
                s,
                n,
                nf,
                tf,
            )[k]).id != sid,
    decreases n,
{
    if n > 0 {
        lemma_search_skips_unmatched(s, n - 1, sid, nf, tf);
        let pre = search_results(s, n - 1, nf, tf);
        let cur = search_results(s, n, nf, tf);
        if search_matches(s, n - 1, nf, tf) {
            assert(n != sid);
            assert forall|k: int| 0 <= k < cur.len() implies (#[trigger] cur[k]).id != sid by {
                if k < pre.len() {
                    assert(cur[k] == pre[k]);
                } else {
                    assert(cur[k] == snippet_view_of(s, n));
                }
            }
        } else {
            assert forall|k: int| 0 <= k < cur.len() implies (#[trigger] cur[k]).id != sid by {
                assert(cur[k] == pre[k]);
            }
        }
    }
}

/// A snippet whose row passes the filters appears in the search result.
pub proof fn lemma_search_results_complete(
    s: StoreV,
    n: int,
    nf: Option<Seq<char>>,
    tf: Option<Seq<Seq<char>>>,
    i: int,
)
    requires
        0 <= i < n,
        search_matches(s, i, nf, tf),
    ensures
        exists|k: int|
            0 <= k < search_results(s, n, nf, tf).len() && #[trigger] search_results(s, n, nf, tf)[k]
                == snippet_view_of(s, i + 1),
    decreases n,
{
    let cur = search_results(s, n, nf, tf);
    let pre = search_results(s, n - 1, nf, tf);
    if i == n - 1 {
        assert(cur == pre.push(snippet_view_of(s, n)));
        assert(cur[pre.len() as int] == snippet_view_of(s, i + 1));
    } else {
        lemma_search_results_complete(s, n - 1, nf, tf, i);
        let k0 = choose|k: int|
            0 <= k < search_results(s, n - 1, nf, tf).len() && #[trigger] search_results(
                s,
                n - 1,
                nf,
                tf,
            )[k] == snippet_view_of(s, i + 1);
        assert(cur[k0] == pre[k0]);
        assert(0 <= k0 < cur.len() && cur[k0] == snippet_view_of(s, i + 1));
    }
}

} // verus!
