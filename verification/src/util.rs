use vstd::prelude::*;

use crate::model::seq_has_str;
use crate::numfmt::{dec_chars, watermark_string};
use crate::snippet::{Snippet, SnippetV};
use vstd::string::StrSliceExecFns;

verus! {

/// String equality by value. (`==` on `&str` has no specification here, so
/// the comparison goes through owned strings, which do.)
pub(crate) fn str_eq(a: &str, b: &str) -> (r: bool)
    ensures
        r == (a@ == b@),
{
    let oa: String = a.to_owned();
    let ob: String = b.to_owned();
    oa == ob
}

/// Is one of the strings in the list equal to `n`?
pub(crate) fn string_in_list(list: &Vec<String>, n: &str) -> (b: bool)
    ensures
        b == seq_has_str(list.deep_view(), n@),
{
    let len = list.len();
    let mut k: usize = 0;
    while k < len
        invariant
            len == list@.len(),
            0 <= k <= len,
            forall|j: int| 0 <= j < k ==> #[trigger] list.deep_view()[j] != n@,
        decreases len - k,
    {
        if str_eq(list[k].as_str(), n) {
            proof {
                assert(list.deep_view()[k as int] == n@);
            }
            return true;
        }
        k += 1;
    }
    false
}


/// The larger of two widths.
pub open spec fn wider(a: int, b: int) -> int {
    if a >= b {
        a
    } else {
        b
    }
}

/// The width of a tag list as the listing prints it: the tags joined by a
/// two-character separator.
pub open spec fn joined_tags_len(tags: Seq<Seq<char>>) -> int
    decreases tags.len(),
{
    if tags.len() == 0 {
        0
    } else if tags.len() == 1 {
        tags[0].len() as int
    } else {
        joined_tags_len(tags.drop_last()) + 2 + tags.last().len()
    }
}

/// The listing's three column widths over a result set: id, tags and name,
/// each at least as wide as its header.
pub open spec fn col_widths(svs: Seq<SnippetV>) -> (int, int, int)
    decreases svs.len(),
{
    if svs.len() == 0 {
        (2int, 4int, 4int)
    } else {
        let p = col_widths(svs.drop_last());
        let s = svs.last();
        (
            wider(p.0, dec_chars(s.id).len() as int),
            wider(p.1, joined_tags_len(s.tags)),
            wider(p.2, s.name.len() as int),
        )
    }
}

/// A joined width never shrinks as tags are appended.
proof fn lemma_joined_take_le(tags: Seq<Seq<char>>, k: int)
    requires
        0 <= k <= tags.len(),
    ensures
        0 <= joined_tags_len(tags.take(k)) <= joined_tags_len(tags),
    decreases tags.len() - k,
{
    lemma_joined_nonneg(tags.take(k));
    if k == tags.len() {
        assert(tags.take(k) =~= tags);
    } else {
        lemma_joined_take_le(tags, k + 1);
        assert(tags.take(k + 1).drop_last() =~= tags.take(k));
        assert(tags.take(k + 1).last() == tags[k]);
        if k == 0 {
            assert(joined_tags_len(tags.take(0)) == 0);
        }
    }
}

proof fn lemma_joined_nonneg(tags: Seq<Seq<char>>)
    ensures
        joined_tags_len(tags) >= 0,
    decreases tags.len(),
{
    if tags.len() > 1 {
        lemma_joined_nonneg(tags.drop_last());
    }
}

/// The widths the snippet listing pads its three columns to: wide enough
/// for each header, each id in decimal, each joined tag list, and each
/// name. Widths count characters, which is what column padding pads by.
pub fn get_list_col_widths(snippets: &Vec<Snippet>) -> (w: (usize, usize, usize))
    requires
        forall|k: int|
            0 <= k < snippets.deep_view().len() ==> joined_tags_len(
                #[trigger] snippets.deep_view()[k].tags,
            ) <= usize::MAX,
    ensures
        (w.0 as int, w.1 as int, w.2 as int) == col_widths(snippets.deep_view()),
{
    let ghost dv = snippets.deep_view();
    let mut w0: usize = 2;
    let mut w1: usize = 4;
    let mut w2: usize = 4;
    let n = snippets.len();
    let mut i: usize = 0;
    proof {
        assert(dv.take(0) =~= Seq::<SnippetV>::empty());
    }
    while i < n
        invariant
            n == snippets@.len(),
            dv == snippets.deep_view(),
            0 <= i <= n,
            (w0 as int, w1 as int, w2 as int) == col_widths(dv.take(i as int)),
            forall|k: int|
                0 <= k < dv.len() ==> joined_tags_len(#[trigger] dv[k].tags) <= usize::MAX,
        decreases n - i,
    {
        let sn = &snippets[i];
        proof {
            assert(dv[i as int] == snippets@[i as int]@);
        }
        let id_render = watermark_string(sn.id);
        let id_w = id_render.as_str().unicode_len();
        let mut tag_w: usize = 0;
        let m = sn.tags.len();
        let mut k: usize = 0;
        proof {
            assert(sn.tags.deep_view() =~= dv[i as int].tags);
            assert(sn.tags.deep_view().take(0) =~= Seq::<Seq<char>>::empty());
        }
        while k < m
            invariant
                m == sn.tags@.len(),
                0 <= k <= m,
                sn.tags.deep_view() == dv[i as int].tags,
                joined_tags_len(dv[i as int].tags) <= usize::MAX,
                tag_w as int == joined_tags_len(sn.tags.deep_view().take(k as int)),
            decreases m - k,
        {
            let ghost tdv = sn.tags.deep_view();
            let tl = sn.tags[k].as_str().unicode_len();
            proof {
                assert(tdv[k as int] == sn.tags@[k as int]@);
                assert(tdv.take(k as int + 1).drop_last() =~= tdv.take(k as int));
                assert(tdv.take(k as int + 1).last() == tdv[k as int]);
                lemma_joined_take_le(tdv, k as int + 1);
            }
            if k == 0 {
                tag_w = tl;
            } else {
                tag_w = tag_w + 2 + tl;
            }
            k += 1;
        }
        proof {
            assert(sn.tags.deep_view().take(m as int) =~= sn.tags.deep_view());
        }
        let name_w = sn.name.as_str().unicode_len();
        if id_w > w0 {
            w0 = id_w;
        }
        if tag_w > w1 {
            w1 = tag_w;
        }
        if name_w > w2 {
            w2 = name_w;
        }
        proof {
            assert(dv.take(i as int + 1).drop_last() =~= dv.take(i as int));
            assert(dv.take(i as int + 1).last() == dv[i as int]);
            assert((w0 as int, w1 as int, w2 as int) == col_widths(dv.take(i as int + 1)));
        }
        i += 1;
    }
    proof {
        assert(dv.take(n as int) =~= dv);
    }
    (w0, w1, w2)
}

} // verus!
