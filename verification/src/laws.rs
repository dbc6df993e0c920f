use vstd::prelude::*;

use crate::model::{
    StoreV, add_tag_tables, add_tags_tables, advanced_watermark, delete_snippet_tables,
    has_live_snippet_named, has_snippet, has_snippet_named, lemma_add_tag_wf, lemma_add_tags_live,
    lemma_add_tags_wf,
    lemma_delete_wf, lemma_meta_upsert, lemma_named_idx, lemma_save_snippet_wf, links_after,
    live_link_for, meta_upsert, meta_value, named_idx, save_snippet_id, save_snippet_tables,
    snippet_live, snippets_after, tags_after, watermark_key, wf, with_clock,
};
use crate::numfmt::{dec_chars, lemma_watermark_round_trip, parse_watermark_spec};
use crate::rows::{SnippetRowV, SnippetTagRowV, TagRowV};
use crate::search::{
    all_tags_carried, contains_sub, lemma_contains_sub_self, lemma_search_results_complete,
    lemma_search_skips_unmatched, search_matches, search_spec, snippet_carries, snippet_view_of,
};

verus! {

// ---------------------------------------------------------------------------
// The laws of the store, stated over the transitions that the operations'
// contracts tie to the executable code.
// ---------------------------------------------------------------------------

/// Uniqueness: once a create (with any tags) has succeeded for a name, a
/// live snippet holds that name, so a second create of the same name finds
/// a live holder — and `save_snippet`'s contract returns `DupSnippetName`
/// exactly then.
pub proof fn lemma_uniqueness(
    s: StoreV,
    name: Seq<char>,
    content: Seq<char>,
    gs: Seq<Seq<char>>,
    t: int,
)
    requires
        wf(s),
        !has_live_snippet_named(s, name),
        s.clock < t <= i64::MAX,
        s.snippets.len() < i64::MAX,
        s.tags.len() + gs.len() <= i64::MAX,
        s.links.len() + gs.len() <= i64::MAX,
    ensures
        has_live_snippet_named(
            add_tags_tables(
                with_clock(save_snippet_tables(s, name, content, t), t),
                save_snippet_id(s, name),
                gs,
                t,
            ),
            name,
        ),
{
    lemma_save_snippet_wf(s, name, content, t);
    let mid = with_clock(save_snippet_tables(s, name, content, t), t);
    let sid = save_snippet_id(s, name);
    lemma_add_tags_wf(mid, sid, gs, t);
    let fin = add_tags_tables(mid, sid, gs, t);
    assert(fin.snippets[sid - 1].name == name && !fin.snippets[sid - 1].deleted);
    assert(has_live_snippet_named(fin, name));
}

/// Resurrection: deleting a snippet frees its name, and a create of that
/// name afterwards reuses the tombstoned row — same id, new content, live
/// again, stamped strictly later than the deletion.
pub proof fn lemma_resurrection(s: StoreV, sid: int, content: Seq<char>, t1: int, t2: int)
    requires
        wf(s),
        snippet_live(s, sid),
        s.clock < t1,
        t1 < t2 <= i64::MAX,
        s.snippets.len() < i64::MAX,
    ensures
        !has_live_snippet_named(
            with_clock(delete_snippet_tables(s, sid, t1), t1),
            s.snippets[sid - 1].name,
        ),
        save_snippet_id(
            with_clock(delete_snippet_tables(s, sid, t1), t1),
            s.snippets[sid - 1].name,
        ) == sid,
        save_snippet_tables(
            with_clock(delete_snippet_tables(s, sid, t1), t1),
            s.snippets[sid - 1].name,
            content,
            t2,
        ).snippets[sid - 1] == (SnippetRowV {
            id: sid,
            name: s.snippets[sid - 1].name,
            content: content,
            deleted: false,
            last_updated: t2,
        }),
{
    let n = s.snippets[sid - 1].name;
    lemma_delete_wf(s, sid, t1);
    let d = with_clock(delete_snippet_tables(s, sid, t1), t1);
    assert(d.snippets[sid - 1].name == n && d.snippets[sid - 1].deleted);
    assert(!has_live_snippet_named(d, n)) by {
        if has_live_snippet_named(d, n) {
            let j = choose|j: int|
                0 <= j < d.snippets.len() && (#[trigger] d.snippets[j]).name == n
                    && !d.snippets[j].deleted;
            assert(j != sid - 1);
            assert(d.snippets[j].name != d.snippets[sid - 1].name);
            assert(false);
        }
    }
    assert(has_snippet_named(d, n));
    lemma_named_idx(d, n);
    let k = named_idx(d, n);
    if k != sid - 1 {
        assert(d.snippets[k].name != d.snippets[sid - 1].name);
        assert(false);
    }
    assert(save_snippet_id(d, n) == sid);
    lemma_save_snippet_wf(d, n, content, t2);
}

/// Tombstone cascade: after a snippet is deleted, no tag search returns
/// it, whatever the filter; and re-attaching the very tags it carried is
/// still permitted — the id still names a row, and the re-attachment
/// reuses the tombstoned association rows, preserving the one-row-per-pair
/// invariant rather than violating it.
pub proof fn lemma_tombstone_cascade(
    s: StoreV,
    sid: int,
    t1: int,
    gs: Seq<Seq<char>>,
    t2: int,
    tf: Seq<Seq<char>>,
)
    requires
        wf(s),
        snippet_live(s, sid),
        s.clock < t1,
        t1 < t2 <= i64::MAX,
        s.tags.len() + gs.len() <= i64::MAX,
        s.links.len() + gs.len() <= i64::MAX,
    ensures
        forall|k: int|
            0 <= k < search_spec(
                with_clock(delete_snippet_tables(s, sid, t1), t1),
                None,
                Some(tf),
            ).len() ==> (#[trigger] search_spec(
                with_clock(delete_snippet_tables(s, sid, t1), t1),
                None,
                Some(tf),
            )[k]).id != sid,
        has_snippet(with_clock(delete_snippet_tables(s, sid, t1), t1), sid),
        wf(
            add_tags_tables(
                with_clock(with_clock(delete_snippet_tables(s, sid, t1), t1), t2),
                sid,
                gs,
                t2,
            ),
        ),
        forall|x: int|
            0 <= x < gs.len() ==> live_link_for(
                add_tags_tables(
                    with_clock(with_clock(delete_snippet_tables(s, sid, t1), t1), t2),
                    sid,
                    gs,
                    t2,
                ),
                sid,
                #[trigger] gs[x],
            ),
{
    lemma_delete_wf(s, sid, t1);
    let d0 = with_clock(delete_snippet_tables(s, sid, t1), t1);
    assert(d0.snippets[sid - 1].deleted);
    assert(!search_matches(d0, sid - 1, None, Some(tf)));
    lemma_search_skips_unmatched(d0, d0.snippets.len() as int, sid, None, Some(tf));
    let d1 = with_clock(d0, t2);
    assert(wf(d1));
    lemma_add_tags_wf(d1, sid, gs, t2);
    lemma_add_tags_live(d1, sid, gs, t2);
}

/// At most one association row, live or tombstoned, links the snippet to
/// a tag of this exact name.
pub open spec fn at_most_one_link_for(s: StoreV, sid: int, g: Seq<char>) -> bool {
    forall|i: int, j: int|
        0 <= i < s.links.len() && 0 <= j < s.links.len() && (#[trigger] s.links[i]).snippet_id
            == sid && (#[trigger] s.links[j]).snippet_id == sid && 1 <= s.links[i].tag_id
            <= s.tags.len() && 1 <= s.links[j].tag_id <= s.tags.len() && s.tags[s.links[i].tag_id
            - 1].name == g && s.tags[s.links[j].tag_id - 1].name == g ==> i == j
}

/// The store after the same tag is attached to the same snippet twice, at
/// stamps `t1` then `t2`.
pub open spec fn twice_tagged(s: StoreV, sid: int, g: Seq<char>, t1: int, t2: int) -> StoreV {
    add_tag_tables(with_clock(add_tag_tables(with_clock(s, t1), sid, g, t1), t2), sid, g, t2)
}

/// Tag idempotence: attaching the same tag to the same snippet twice
/// leaves exactly one association row for the pair — a live one — not two.
pub proof fn lemma_tag_idempotence(s: StoreV, sid: int, g: Seq<char>, t1: int, t2: int)
    requires
        wf(s),
        has_snippet(s, sid),
        s.clock < t1,
        t1 < t2 <= i64::MAX,
        s.tags.len() + 1 < i64::MAX,
        s.links.len() + 1 < i64::MAX,
    ensures
        wf(twice_tagged(s, sid, g, t1, t2)),
        live_link_for(twice_tagged(s, sid, g, t1, t2), sid, g),
        at_most_one_link_for(twice_tagged(s, sid, g, t1, t2), sid, g),
{
    let s1 = with_clock(s, t1);
    assert(wf(s1));
    lemma_add_tag_wf(s1, sid, g, t1);
    let a1 = add_tag_tables(s1, sid, g, t1);
    let s2 = with_clock(a1, t2);
    assert(wf(s2));
    lemma_add_tag_wf(s2, sid, g, t2);
    let a2 = add_tag_tables(s2, sid, g, t2);
    assert(a2 == twice_tagged(s, sid, g, t1, t2));
    assert forall|i: int, j: int|
        0 <= i < a2.links.len() && 0 <= j < a2.links.len() && (#[trigger] a2.links[i]).snippet_id
            == sid && (#[trigger] a2.links[j]).snippet_id == sid && 1 <= a2.links[i].tag_id
            <= a2.tags.len() && 1 <= a2.links[j].tag_id <= a2.tags.len() && a2.tags[a2.links[
            i
        ].tag_id - 1].name == g && a2.tags[a2.links[j].tag_id - 1].name == g implies i == j by {
        if a2.links[i].tag_id != a2.links[j].tag_id {
            assert(a2.tags[a2.links[i].tag_id - 1].name != a2.tags[a2.links[j].tag_id - 1].name);
            assert(false);
        }
        if i != j {
            assert(!(a2.links[i].snippet_id == a2.links[j].snippet_id && a2.links[i].tag_id
                == a2.links[j].tag_id));
            assert(false);
        }
    }
}

/// A tag filter of two names.
pub open spec fn pair_filter(x: Seq<char>, y: Seq<char>) -> Seq<Seq<char>> {
    seq![x, y]
}

/// Conjunctive tag search: a live snippet carrying tags named `a` and `b`
/// is returned by a search for both; a snippet none of whose live tags
/// contains `cg` is not returned by a search that includes `cg`.
pub proof fn lemma_conjunctive_search(
    s: StoreV,
    sid: int,
    a: Seq<char>,
    b: Seq<char>,
    cg: Seq<char>,
)
    requires
        wf(s),
        snippet_live(s, sid),
        live_link_for(s, sid, a),
        live_link_for(s, sid, b),
        forall|i: int|
            0 <= i < s.links.len() && (#[trigger] s.links[i]).snippet_id == sid
                && !s.links[i].deleted ==> !contains_sub(s.tags[s.links[i].tag_id - 1].name, cg),
    ensures
        exists|k: int|
            0 <= k < search_spec(s, None, Some(pair_filter(a, b))).len() && (#[trigger] search_spec(
                s,
                None,
                Some(pair_filter(a, b)),
            )[k]).id == sid,
        forall|k: int|
            0 <= k < search_spec(s, None, Some(pair_filter(a, cg))).len() ==> (
            #[trigger] search_spec(s, None, Some(pair_filter(a, cg)))[k]).id != sid,
{
    lemma_contains_sub_self(a);
    lemma_contains_sub_self(b);
    assert(snippet_carries(s, sid, a)) by {
        let i = choose|i: int|
            0 <= i < s.links.len() && (#[trigger] s.links[i]).snippet_id == sid
                && !s.links[i].deleted && 1 <= s.links[i].tag_id <= s.tags.len() && s.tags[s.links[
                i
            ].tag_id - 1].name == a;
        assert((#[trigger] s.links[i]).snippet_id == sid && !s.links[i].deleted && contains_sub(
            s.tags[s.links[i].tag_id - 1].name,
            a,
        ));
    }
    assert(snippet_carries(s, sid, b)) by {
        let i = choose|i: int|
            0 <= i < s.links.len() && (#[trigger] s.links[i]).snippet_id == sid
                && !s.links[i].deleted && 1 <= s.links[i].tag_id <= s.tags.len() && s.tags[s.links[
                i
            ].tag_id - 1].name == b;
        assert((#[trigger] s.links[i]).snippet_id == sid && !s.links[i].deleted && contains_sub(
            s.tags[s.links[i].tag_id - 1].name,
            b,
        ));
    }
    let ab = pair_filter(a, b);
    assert(all_tags_carried(s, sid, ab)) by {
        assert forall|k: int| 0 <= k < ab.len() implies snippet_carries(
            s,
            sid,
            #[trigger] ab[k],
        ) by {
            if k == 0 {
                assert(ab[0] == a);
            } else {
                assert(ab[1] == b);
            }
        }
    }
    assert(search_matches(s, sid - 1, None, Some(ab)));
    lemma_search_results_complete(s, s.snippets.len() as int, None, Some(ab), sid - 1);
    let res = search_spec(s, None, Some(ab));
    let k0 = choose|k: int|
        0 <= k < res.len() && #[trigger] res[k] == snippet_view_of(s, sid - 1 + 1);
    assert((#[trigger] res[k0]).id == sid);
    assert(!snippet_carries(s, sid, cg)) by {
        if snippet_carries(s, sid, cg) {
            let i = choose|i: int|
                0 <= i < s.links.len() && (#[trigger] s.links[i]).snippet_id == sid
                    && !s.links[i].deleted && contains_sub(s.tags[s.links[i].tag_id - 1].name, cg);
            assert(!contains_sub(s.tags[s.links[i].tag_id - 1].name, cg));
            assert(false);
        }
    }
    let ac = pair_filter(a, cg);
    assert(!search_matches(s, sid - 1, None, Some(ac))) by {
        if search_matches(s, sid - 1, None, Some(ac)) {
            assert(all_tags_carried(s, sid, ac));
            assert(ac[1] == cg);
            assert(snippet_carries(s, sid, ac[1]));
            assert(false);
        }
    }
    lemma_search_skips_unmatched(s, s.snippets.len() as int, sid, None, Some(ac));
}

/// No snippet row stamped at or before the watermark enters the delta.
proof fn lemma_snippets_after_empty(rows: Seq<SnippetRowV>, w: int)
    requires
        forall|i: int| 0 <= i < rows.len() ==> (#[trigger] rows[i]).last_updated <= w,
    ensures
        snippets_after(rows, w) == Seq::<SnippetRowV>::empty(),
    decreases rows.len(),
{
    if rows.len() > 0 {
        assert forall|i: int|
            0 <= i < rows.drop_last().len() implies (#[trigger] rows.drop_last()[i]).last_updated
            <= w by {
            assert(rows.drop_last()[i] == rows[i]);
        }
        lemma_snippets_after_empty(rows.drop_last(), w);
        assert(rows.last().last_updated <= w);
    }
}

/// No tag row stamped at or before the watermark enters the delta.
proof fn lemma_tags_after_empty(rows: Seq<TagRowV>, w: int)
    requires
        forall|i: int| 0 <= i < rows.len() ==> (#[trigger] rows[i]).last_updated <= w,
    ensures
        tags_after(rows, w) == Seq::<TagRowV>::empty(),
    decreases rows.len(),
{
    if rows.len() > 0 {
        assert forall|i: int|
            0 <= i < rows.drop_last().len() implies (#[trigger] rows.drop_last()[i]).last_updated
            <= w by {
            assert(rows.drop_last()[i] == rows[i]);
        }
        lemma_tags_after_empty(rows.drop_last(), w);
        assert(rows.last().last_updated <= w);
    }
}

/// No association row stamped at or before the watermark enters the delta.
proof fn lemma_links_after_empty(rows: Seq<SnippetTagRowV>, w: int)
    requires
        forall|i: int| 0 <= i < rows.len() ==> (#[trigger] rows[i]).last_updated <= w,
    ensures
        links_after(rows, w) == Seq::<SnippetTagRowV>::empty(),
    decreases rows.len(),
{
    if rows.len() > 0 {
        assert forall|i: int|
            0 <= i < rows.drop_last().len() implies (#[trigger] rows.drop_last()[i]).last_updated
            <= w by {
            assert(rows.drop_last()[i] == rows[i]);
        }
        lemma_links_after_empty(rows.drop_last(), w);
        assert(rows.last().last_updated <= w);
    }
}

/// Sync watermark monotonicity, committed half: the watermark a committed
/// sync advances to never moves backwards, and a re-run from it with no
/// intervening mutation extracts an empty delta from all three tables.
pub proof fn lemma_sync_watermark_monotonic(s: StoreV, w: int)
    requires
        wf(s),
    ensures
        advanced_watermark(s, w) >= w,
        snippets_after(s.snippets, advanced_watermark(s, w)) == Seq::<SnippetRowV>::empty(),
        tags_after(s.tags, advanced_watermark(s, w)) == Seq::<TagRowV>::empty(),
        links_after(s.links, advanced_watermark(s, w)) == Seq::<SnippetTagRowV>::empty(),
{
    let w2 = advanced_watermark(s, w);
    lemma_snippets_after_empty(s.snippets, w2);
    lemma_tags_after_empty(s.tags, w2);
    lemma_links_after_empty(s.links, w2);
}

/// Sync watermark monotonicity, failed half: extraction is a pure function
/// of the store and the watermark, and a failed attempt changes neither
/// (no operation contract lets it), so the delta a retry extracts is
/// identical to the first attempt's.
pub proof fn lemma_sync_retry_same_delta(s1: StoreV, s2: StoreV, w1: int, w2: int)
    requires
        s1 == s2,
        w1 == w2,
    ensures
        snippets_after(s1.snippets, w1) == snippets_after(s2.snippets, w2),
        tags_after(s1.tags, w1) == tags_after(s2.tags, w2),
        links_after(s1.links, w1) == links_after(s2.links, w2),
{
}

/// A committed watermark survives persistence: writing its canonical
/// rendering into the metadata table and parsing the stored value back
/// yields the same watermark.
pub proof fn lemma_commit_then_read(s: StoreV, w: int)
    requires
        wf(s),
        i64::MIN <= w <= i64::MAX,
    ensures
        parse_watermark_spec(
            meta_value(meta_upsert(s, watermark_key(), dec_chars(w)), watermark_key()),
        ) == Some(w),
{
    lemma_meta_upsert(s, watermark_key(), dec_chars(w));
    lemma_watermark_round_trip(w);
}

} // verus!
