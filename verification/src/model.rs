use vstd::prelude::*;
use crate::rows::{MetaRowV, SnippetRowV, SnippetTagRowV, TagRowV};

verus! {

// ---------------------------------------------------------------------------
// The mathematical state of the store.
// ---------------------------------------------------------------------------

/// The value of the whole store: the four tables in storage order, plus the
/// logical clock, which is the largest timestamp the store has ever stamped.
/// Row ids are surrogate keys assigned on insert; since rows are only ever
/// tombstoned and never removed, the row with id `k` sits at index `k - 1`.
#[verifier::ext_equal]
pub ghost struct StoreV {
    pub snippets: Seq<SnippetRowV>,
    pub tags: Seq<TagRowV>,
    pub links: Seq<SnippetTagRowV>,
    pub meta: Seq<MetaRowV>,
    pub clock: int,
}

/// The metadata key under which the sync watermark is persisted.
pub open spec fn watermark_key() -> Seq<char> {
    "last_synced"@
}

// ---------------------------------------------------------------------------
// Well-formedness.
// ---------------------------------------------------------------------------

pub open spec fn snippet_ids_ok(rows: Seq<SnippetRowV>) -> bool {
    forall|i: int| 0 <= i < rows.len() ==> (#[trigger] rows[i]).id == i + 1
}

pub open spec fn tag_ids_ok(rows: Seq<TagRowV>) -> bool {
    forall|i: int| 0 <= i < rows.len() ==> (#[trigger] rows[i]).id == i + 1
}

pub open spec fn link_ids_ok(rows: Seq<SnippetTagRowV>) -> bool {
    forall|i: int| 0 <= i < rows.len() ==> (#[trigger] rows[i]).id == i + 1
}

/// Snippet names are unique across all rows, live or tombstoned: a reused
/// name resurrects the old row instead of inserting a second one.
pub open spec fn snippet_names_unique(rows: Seq<SnippetRowV>) -> bool {
    forall|i: int, j: int|
        0 <= i < rows.len() && 0 <= j < rows.len() && i != j ==> (#[trigger] rows[i]).name != (
        #[trigger] rows[j]).name
}

pub open spec fn tag_names_unique(rows: Seq<TagRowV>) -> bool {
    forall|i: int, j: int|
        0 <= i < rows.len() && 0 <= j < rows.len() && i != j ==> (#[trigger] rows[i]).name != (
        #[trigger] rows[j]).name
}

/// At most one association row per `(snippet_id, tag_id)` pair.
pub open spec fn link_pairs_unique(rows: Seq<SnippetTagRowV>) -> bool {
    forall|i: int, j: int|
        0 <= i < rows.len() && 0 <= j < rows.len() && i != j ==> !((#[trigger] rows[i]).snippet_id
            == (#[trigger] rows[j]).snippet_id && rows[i].tag_id == rows[j].tag_id)
}

/// Every association row points at an existing snippet row and tag row.
pub open spec fn links_reference_tables(s: StoreV) -> bool {
    forall|i: int|
        0 <= i < s.links.len() ==> 1 <= (#[trigger] s.links[i]).snippet_id <= s.snippets.len() && 1
            <= s.links[i].tag_id <= s.tags.len()
}

/// No row's timestamp lies outside `[0, clock]`.
pub open spec fn stamps_bounded(s: StoreV) -> bool {
    &&& forall|i: int|
        0 <= i < s.snippets.len() ==> 0 <= (#[trigger] s.snippets[i]).last_updated <= s.clock
    &&& forall|i: int| 0 <= i < s.tags.len() ==> 0 <= (#[trigger] s.tags[i]).last_updated <= s.clock
    &&& forall|i: int|
        0 <= i < s.links.len() ==> 0 <= (#[trigger] s.links[i]).last_updated <= s.clock
}

/// Metadata keys are unique and the watermark key is always seeded.
pub open spec fn meta_ok(meta: Seq<MetaRowV>) -> bool {
    &&& forall|i: int, j: int|
        0 <= i < meta.len() && 0 <= j < meta.len() && i != j ==> (#[trigger] meta[i]).key != (
        #[trigger] meta[j]).key
    &&& exists|i: int| 0 <= i < meta.len() && (#[trigger] meta[i]).key == watermark_key()
}

/// The store's invariant: every constructor establishes it and every
/// operation preserves it.
pub open spec fn wf(s: StoreV) -> bool {
    &&& s.snippets.len() <= i64::MAX
    &&& s.tags.len() <= i64::MAX
    &&& s.links.len() <= i64::MAX
    &&& 0 <= s.clock <= i64::MAX
    &&& snippet_ids_ok(s.snippets)
    &&& tag_ids_ok(s.tags)
    &&& link_ids_ok(s.links)
    &&& snippet_names_unique(s.snippets)
    &&& tag_names_unique(s.tags)
    &&& link_pairs_unique(s.links)
    &&& links_reference_tables(s)
    &&& stamps_bounded(s)
    &&& meta_ok(s.meta)
}

// ---------------------------------------------------------------------------
// Lookups.
// ---------------------------------------------------------------------------

/// Does a snippet row with this id exist (live or tombstoned)?
pub open spec fn has_snippet(s: StoreV, sid: int) -> bool {
    1 <= sid <= s.snippets.len()
}

/// Is the snippet row with this id present and live?
pub open spec fn snippet_live(s: StoreV, sid: int) -> bool {
    has_snippet(s, sid) && !s.snippets[sid - 1].deleted
}

pub open spec fn has_snippet_named(s: StoreV, name: Seq<char>) -> bool {
    exists|i: int| 0 <= i < s.snippets.len() && (#[trigger] s.snippets[i]).name == name
}

pub open spec fn has_live_snippet_named(s: StoreV, name: Seq<char>) -> bool {
    exists|i: int|
        0 <= i < s.snippets.len() && (#[trigger] s.snippets[i]).name == name
            && !s.snippets[i].deleted
}

/// The index of the snippet row holding this name; under `wf` it is unique.
pub open spec fn named_idx(s: StoreV, name: Seq<char>) -> int {
    choose|i: int| 0 <= i < s.snippets.len() && (#[trigger] s.snippets[i]).name == name
}

/// Does some snippet row other than the one with id `sid` hold this name?
pub open spec fn other_snippet_named(s: StoreV, sid: int, name: Seq<char>) -> bool {
    exists|i: int|
        0 <= i < s.snippets.len() && i != sid - 1 && (#[trigger] s.snippets[i]).name == name
}

pub open spec fn has_tag_named(s: StoreV, name: Seq<char>) -> bool {
    exists|i: int| 0 <= i < s.tags.len() && (#[trigger] s.tags[i]).name == name
}

/// The index of the tag row holding this name; under `wf` it is unique.
pub open spec fn tag_idx_named(s: StoreV, name: Seq<char>) -> int {
    choose|i: int| 0 <= i < s.tags.len() && (#[trigger] s.tags[i]).name == name
}

pub open spec fn has_link(s: StoreV, sid: int, tid: int) -> bool {
    exists|i: int|
        0 <= i < s.links.len() && (#[trigger] s.links[i]).snippet_id == sid && s.links[i].tag_id
            == tid
}

/// The index of the association row for this pair; under `wf` it is unique.
pub open spec fn link_idx(s: StoreV, sid: int, tid: int) -> int {
    choose|i: int|
        0 <= i < s.links.len() && (#[trigger] s.links[i]).snippet_id == sid && s.links[i].tag_id
            == tid
}

pub open spec fn has_meta_key(s: StoreV, key: Seq<char>) -> bool {
    exists|i: int| 0 <= i < s.meta.len() && (#[trigger] s.meta[i]).key == key
}

/// The index of the metadata row under this key; under `wf` it is unique.
pub open spec fn meta_idx(s: StoreV, key: Seq<char>) -> int {
    choose|i: int| 0 <= i < s.meta.len() && (#[trigger] s.meta[i]).key == key
}

pub open spec fn meta_value(s: StoreV, key: Seq<char>) -> Seq<char> {
    s.meta[meta_idx(s, key)].value
}

// ---------------------------------------------------------------------------
// Transitions. Each takes the stamp `t` that the mutation writes; the
// executable operations pick `t` fresh from the clock, so `t` exceeds every
// timestamp already in the store.
// ---------------------------------------------------------------------------

pub open spec fn with_clock(s: StoreV, t: int) -> StoreV {
    StoreV { snippets: s.snippets, tags: s.tags, links: s.links, meta: s.meta, clock: t }
}

/// Create-or-resurrect: if no row holds the name, append a fresh live row;
/// if a tombstoned row holds it, overwrite that row's content in place,
/// clear the tombstone and restamp. (A live holder makes the operation fail
/// before this transition is taken.)
pub open spec fn save_snippet_tables(s: StoreV, name: Seq<char>, content: Seq<char>, t: int) -> StoreV {
    if has_snippet_named(s, name) {
        let i = named_idx(s, name);
        StoreV {
            snippets: s.snippets.update(
                i,
                SnippetRowV { id: i + 1, name: name, content: content, deleted: false, last_updated: t },
            ),
            tags: s.tags,
            links: s.links,
            meta: s.meta,
            clock: s.clock,
        }
    } else {
        StoreV {
            snippets: s.snippets.push(
                SnippetRowV {
                    id: s.snippets.len() as int + 1,
                    name: name,
                    content: content,
                    deleted: false,
                    last_updated: t,
                },
            ),
            tags: s.tags,
            links: s.links,
            meta: s.meta,
            clock: s.clock,
        }
    }
}

/// The id that create-or-resurrect assigns to the name.
pub open spec fn save_snippet_id(s: StoreV, name: Seq<char>) -> int {
    if has_snippet_named(s, name) {
        named_idx(s, name) + 1
    } else {
        s.snippets.len() as int + 1
    }
}

/// Soft-delete a snippet row and cascade the tombstone to every association
/// row of that snippet, restamping each row touched.
pub open spec fn delete_snippet_tables(s: StoreV, sid: int, t: int) -> StoreV {
    let r = s.snippets[sid - 1];
    StoreV {
        snippets: s.snippets.update(
            sid - 1,
            SnippetRowV {
                id: r.id,
                name: r.name,
                content: r.content,
                deleted: true,
                last_updated: t,
            },
        ),
        tags: s.tags,
        links: Seq::new(
            s.links.len(),
            |i: int|
                if s.links[i].snippet_id == sid {
                    SnippetTagRowV {
                        id: s.links[i].id,
                        snippet_id: s.links[i].snippet_id,
                        tag_id: s.links[i].tag_id,
                        deleted: true,
                        last_updated: t,
                    }
                } else {
                    s.links[i]
                },
        ),
        meta: s.meta,
        clock: s.clock,
    }
}

/// Rename a snippet row in place and restamp it.
pub open spec fn rename_snippet_tables(s: StoreV, sid: int, name: Seq<char>, t: int) -> StoreV {
    let r = s.snippets[sid - 1];
    StoreV {
        snippets: s.snippets.update(
            sid - 1,
            SnippetRowV {
                id: r.id,
                name: name,
                content: r.content,
                deleted: r.deleted,
                last_updated: t,
            },
        ),
        tags: s.tags,
        links: s.links,
        meta: s.meta,
        clock: s.clock,
    }
}

/// Replace a snippet row's content in place and restamp it.
pub open spec fn change_content_tables(s: StoreV, sid: int, content: Seq<char>, t: int) -> StoreV {
    let r = s.snippets[sid - 1];
    StoreV {
        snippets: s.snippets.update(
            sid - 1,
            SnippetRowV {
                id: r.id,
                name: r.name,
                content: content,
                deleted: r.deleted,
                last_updated: t,
            },
        ),
        tags: s.tags,
        links: s.links,
        meta: s.meta,
        clock: s.clock,
    }
}

/// Insert a tag row for the name unless one already exists; an existing row
/// is left untouched, tombstoned or not.
pub open spec fn ensure_tag_tables(s: StoreV, name: Seq<char>, t: int) -> StoreV {
    if has_tag_named(s, name) {
        s
    } else {
        StoreV {
            snippets: s.snippets,
            tags: s.tags.push(
                TagRowV { id: s.tags.len() as int + 1, name: name, deleted: false, last_updated: t },
            ),
            links: s.links,
            meta: s.meta,
            clock: s.clock,
        }
    }
}

/// Re-use the association row for the pair if one exists (clearing its
/// tombstone and restamping it); otherwise append a fresh live one.
pub open spec fn upsert_link_tables(s: StoreV, sid: int, tid: int, t: int) -> StoreV {
    if has_link(s, sid, tid) {
        let i = link_idx(s, sid, tid);
        StoreV {
            snippets: s.snippets,
            tags: s.tags,
            links: s.links.update(
                i,
                SnippetTagRowV {
                    id: i + 1,
                    snippet_id: sid,
                    tag_id: tid,
                    deleted: false,
                    last_updated: t,
                },
            ),
            meta: s.meta,
            clock: s.clock,
        }
    } else {
        StoreV {
            snippets: s.snippets,
            tags: s.tags,
            links: s.links.push(
                SnippetTagRowV {
                    id: s.links.len() as int + 1,
                    snippet_id: sid,
                    tag_id: tid,
                    deleted: false,
                    last_updated: t,
                },
            ),
            meta: s.meta,
            clock: s.clock,
        }
    }
}

/// Attach one tag to a snippet: make sure the tag row exists, then upsert
/// the association row for the pair.
pub open spec fn add_tag_tables(s: StoreV, sid: int, name: Seq<char>, t: int) -> StoreV {
    let s1 = ensure_tag_tables(s, name, t);
    upsert_link_tables(s1, sid, tag_idx_named(s1, name) + 1, t)
}

/// Attach a list of tags, first to last.
pub open spec fn add_tags_tables(s: StoreV, sid: int, names: Seq<Seq<char>>, t: int) -> StoreV
    decreases names.len(),
{
    if names.len() == 0 {
        s
    } else {
        add_tag_tables(add_tags_tables(s, sid, names.drop_last(), t), sid, names.last(), t)
    }
}

/// Does the list of names hold this one?
pub open spec fn seq_has_str(names: Seq<Seq<char>>, n: Seq<char>) -> bool {
    exists|k: int| 0 <= k < names.len() && #[trigger] names[k] == n
}

/// Is the tag row with id `tid` named one of `names`?
pub open spec fn tag_named_in(s: StoreV, tid: int, names: Seq<Seq<char>>) -> bool {
    seq_has_str(names, s.tags[tid - 1].name)
}

/// Soft-delete every association row of the snippet whose tag's name is one
/// of `names`, restamping each row touched. Tag rows stay untouched.
pub open spec fn remove_tags_tables(s: StoreV, sid: int, names: Seq<Seq<char>>, t: int) -> StoreV {
    StoreV {
        snippets: s.snippets,
        tags: s.tags,
        links: Seq::new(
            s.links.len(),
            |i: int|
                if s.links[i].snippet_id == sid && tag_named_in(s, s.links[i].tag_id, names) {
                    SnippetTagRowV {
                        id: s.links[i].id,
                        snippet_id: s.links[i].snippet_id,
                        tag_id: s.links[i].tag_id,
                        deleted: true,
                        last_updated: t,
                    }
                } else {
                    s.links[i]
                },
        ),
        meta: s.meta,
        clock: s.clock,
    }
}

/// Write a metadata value under a key, updating the row in place if the key
/// exists and appending one otherwise. Metadata carries no timestamp.
pub open spec fn meta_upsert(s: StoreV, key: Seq<char>, value: Seq<char>) -> StoreV {
    StoreV {
        snippets: s.snippets,
        tags: s.tags,
        links: s.links,
        meta: if has_meta_key(s, key) {
            s.meta.update(meta_idx(s, key), MetaRowV { key: key, value: value })
        } else {
            s.meta.push(MetaRowV { key: key, value: value })
        },
        clock: s.clock,
    }
}

/// The names of the tags a snippet currently carries, in association-row
/// order, considering only live association rows.
pub open spec fn live_tag_names(s: StoreV, sid: int, links: Seq<SnippetTagRowV>) -> Seq<Seq<char>>
    decreases links.len(),
{
    if links.len() == 0 {
        Seq::empty()
    } else {
        let pre = live_tag_names(s, sid, links.drop_last());
        let l = links.last();
        if l.snippet_id == sid && !l.deleted {
            pre.push(s.tags[l.tag_id - 1].name)
        } else {
            pre
        }
    }
}

pub open spec fn tags_of(s: StoreV, sid: int) -> Seq<Seq<char>> {
    live_tag_names(s, sid, s.links)
}

// ---------------------------------------------------------------------------
// Loading a store from persisted rows.
// ---------------------------------------------------------------------------

pub open spec fn snippet_stamps_nonneg(rows: Seq<SnippetRowV>) -> bool {
    forall|i: int| 0 <= i < rows.len() ==> (#[trigger] rows[i]).last_updated >= 0
}

pub open spec fn tag_stamps_nonneg(rows: Seq<TagRowV>) -> bool {
    forall|i: int| 0 <= i < rows.len() ==> (#[trigger] rows[i]).last_updated >= 0
}

pub open spec fn link_stamps_nonneg(rows: Seq<SnippetTagRowV>) -> bool {
    forall|i: int| 0 <= i < rows.len() ==> (#[trigger] rows[i]).last_updated >= 0
}

pub open spec fn links_fk_ok(rows: Seq<SnippetTagRowV>, n_snippets: int, n_tags: int) -> bool {
    forall|i: int|
        0 <= i < rows.len() ==> 1 <= (#[trigger] rows[i]).snippet_id <= n_snippets && 1
            <= rows[i].tag_id <= n_tags
}

/// What a set of persisted rows must satisfy to be a store: everything the
/// invariant asks of the tables themselves, with the clock derived as the
/// largest stamp present.
pub open spec fn tables_wf(
    sn: Seq<SnippetRowV>,
    tg: Seq<TagRowV>,
    st: Seq<SnippetTagRowV>,
    mt: Seq<MetaRowV>,
) -> bool {
    &&& sn.len() <= i64::MAX
    &&& tg.len() <= i64::MAX
    &&& st.len() <= i64::MAX
    &&& snippet_ids_ok(sn)
    &&& tag_ids_ok(tg)
    &&& link_ids_ok(st)
    &&& snippet_names_unique(sn)
    &&& tag_names_unique(tg)
    &&& link_pairs_unique(st)
    &&& links_fk_ok(st, sn.len() as int, tg.len() as int)
    &&& snippet_stamps_nonneg(sn)
    &&& tag_stamps_nonneg(tg)
    &&& link_stamps_nonneg(st)
    &&& meta_ok(mt)
}

/// The largest stamp among the snippet rows, at least zero.
pub open spec fn max_snippet_stamp(rows: Seq<SnippetRowV>) -> int
    decreases rows.len(),
{
    if rows.len() == 0 {
        0
    } else {
        let p = max_snippet_stamp(rows.drop_last());
        if rows.last().last_updated > p {
            rows.last().last_updated
        } else {
            p
        }
    }
}

/// The largest stamp among the tag rows, at least zero.
pub open spec fn max_tag_stamp(rows: Seq<TagRowV>) -> int
    decreases rows.len(),
{
    if rows.len() == 0 {
        0
    } else {
        let p = max_tag_stamp(rows.drop_last());
        if rows.last().last_updated > p {
            rows.last().last_updated
        } else {
            p
        }
    }
}

/// The largest stamp among the association rows, at least zero.
pub open spec fn max_link_stamp(rows: Seq<SnippetTagRowV>) -> int
    decreases rows.len(),
{
    if rows.len() == 0 {
        0
    } else {
        let p = max_link_stamp(rows.drop_last());
        if rows.last().last_updated > p {
            rows.last().last_updated
        } else {
            p
        }
    }
}

/// The clock a loaded store starts from: the largest stamp in any table.
pub open spec fn tables_max_stamp(
    sn: Seq<SnippetRowV>,
    tg: Seq<TagRowV>,
    st: Seq<SnippetTagRowV>,
) -> int {
    let a = max_snippet_stamp(sn);
    let b = max_tag_stamp(tg);
    let c = max_link_stamp(st);
    if a >= b && a >= c {
        a
    } else if b >= c {
        b
    } else {
        c
    }
}

proof fn lemma_max_snippet_stamp(rows: Seq<SnippetRowV>)
    ensures
        max_snippet_stamp(rows) >= 0,
        forall|i: int|
            0 <= i < rows.len() ==> (#[trigger] rows[i]).last_updated <= max_snippet_stamp(rows),
    decreases rows.len(),
{
    if rows.len() > 0 {
        lemma_max_snippet_stamp(rows.drop_last());
        assert forall|i: int|
            0 <= i < rows.len() implies (#[trigger] rows[i]).last_updated <= max_snippet_stamp(
            rows,
        ) by {
            if i < rows.len() - 1 {
                assert(rows.drop_last()[i] == rows[i]);
            }
        }
    }
}

proof fn lemma_max_tag_stamp(rows: Seq<TagRowV>)
    ensures
        max_tag_stamp(rows) >= 0,
        forall|i: int|
            0 <= i < rows.len() ==> (#[trigger] rows[i]).last_updated <= max_tag_stamp(rows),
    decreases rows.len(),
{
    if rows.len() > 0 {
        lemma_max_tag_stamp(rows.drop_last());
        assert forall|i: int|
            0 <= i < rows.len() implies (#[trigger] rows[i]).last_updated <= max_tag_stamp(
            rows,
        ) by {
            if i < rows.len() - 1 {
                assert(rows.drop_last()[i] == rows[i]);
            }
        }
    }
}

proof fn lemma_max_link_stamp(rows: Seq<SnippetTagRowV>)
    ensures
        max_link_stamp(rows) >= 0,
        forall|i: int|
            0 <= i < rows.len() ==> (#[trigger] rows[i]).last_updated <= max_link_stamp(rows),
    decreases rows.len(),
{
    if rows.len() > 0 {
        lemma_max_link_stamp(rows.drop_last());
        assert forall|i: int|
            0 <= i < rows.len() implies (#[trigger] rows[i]).last_updated <= max_link_stamp(
            rows,
        ) by {
            if i < rows.len() - 1 {
                assert(rows.drop_last()[i] == rows[i]);
            }
        }
    }
}

/// Well-formed tables make a well-formed store once the clock is set to
/// the largest stamp present.
pub proof fn lemma_tables_wf_store(
    sn: Seq<SnippetRowV>,
    tg: Seq<TagRowV>,
    st: Seq<SnippetTagRowV>,
    mt: Seq<MetaRowV>,
)
    requires
        tables_wf(sn, tg, st, mt),
        tables_max_stamp(sn, tg, st) <= i64::MAX,
    ensures
        wf(StoreV { snippets: sn, tags: tg, links: st, meta: mt, clock: tables_max_stamp(sn, tg, st) }),
{
    lemma_max_snippet_stamp(sn);
    lemma_max_tag_stamp(tg);
    lemma_max_link_stamp(st);
}

// ---------------------------------------------------------------------------
// The sync engine's view of the store: the rows mutated after a watermark.
// ---------------------------------------------------------------------------

/// The snippet rows stamped after the watermark, in storage order.
pub open spec fn snippets_after(rows: Seq<SnippetRowV>, w: int) -> Seq<SnippetRowV>
    decreases rows.len(),
{
    if rows.len() == 0 {
        Seq::empty()
    } else {
        let pre = snippets_after(rows.drop_last(), w);
        if rows.last().last_updated > w {
            pre.push(rows.last())
        } else {
            pre
        }
    }
}

/// The tag rows stamped after the watermark, in storage order.
pub open spec fn tags_after(rows: Seq<TagRowV>, w: int) -> Seq<TagRowV>
    decreases rows.len(),
{
    if rows.len() == 0 {
        Seq::empty()
    } else {
        let pre = tags_after(rows.drop_last(), w);
        if rows.last().last_updated > w {
            pre.push(rows.last())
        } else {
            pre
        }
    }
}

/// The association rows stamped after the watermark, in storage order.
pub open spec fn links_after(rows: Seq<SnippetTagRowV>, w: int) -> Seq<SnippetTagRowV>
    decreases rows.len(),
{
    if rows.len() == 0 {
        Seq::empty()
    } else {
        let pre = links_after(rows.drop_last(), w);
        if rows.last().last_updated > w {
            pre.push(rows.last())
        } else {
            pre
        }
    }
}

/// The watermark a committed sync advances to: far enough that every row
/// pushed (all are stamped at most `clock`) is covered, and never backwards.
pub open spec fn advanced_watermark(s: StoreV, w: int) -> int {
    if s.clock > w {
        s.clock
    } else {
        w
    }
}

// ---------------------------------------------------------------------------
// Facts about the transitions, used by the operations and the laws.
// ---------------------------------------------------------------------------

/// Does the snippet carry, through a live association row, a tag whose
/// name is exactly `g`?
pub open spec fn live_link_for(s: StoreV, sid: int, g: Seq<char>) -> bool {
    exists|i: int|
        0 <= i < s.links.len() && (#[trigger] s.links[i]).snippet_id == sid
            && !s.links[i].deleted && 1 <= s.links[i].tag_id <= s.tags.len() && s.tags[s.links[
            i
        ].tag_id - 1].name == g
}

/// Upserting a metadata row preserves the invariant (an update keeps the
/// key it replaces; a push adds a key that was absent), and afterwards the
/// key holds exactly the written value.
pub proof fn lemma_meta_upsert(s: StoreV, key: Seq<char>, value: Seq<char>)
    requires
        wf(s),
    ensures
        wf(meta_upsert(s, key, value)),
        has_meta_key(meta_upsert(s, key, value), key),
        meta_value(meta_upsert(s, key, value), key) == value,
{
    let s2 = meta_upsert(s, key, value);
    let wk = watermark_key();
    let i = choose|i: int| 0 <= i < s.meta.len() && (#[trigger] s.meta[i]).key == wk;
    if has_meta_key(s, key) {
        let k = meta_idx(s, key);
        assert(0 <= k < s.meta.len() && s.meta[k].key == key);
        assert(forall|j: int|
            0 <= j < s2.meta.len() && j != k ==> (#[trigger] s2.meta[j]).key == s.meta[j].key);
        assert(s2.meta[i].key == wk);
        assert(s2.meta[k].key == key);
        assert(has_meta_key(s2, key));
        let k2 = meta_idx(s2, key);
        assert(0 <= k2 < s2.meta.len() && s2.meta[k2].key == key);
        if k2 != k {
            assert(s2.meta[k2].key == s.meta[k2].key);
            assert(s.meta[k2].key != s.meta[k].key);
            assert(false);
        }
        assert(s2.meta[k].value == value);
    } else {
        assert(s2.meta[i].key == wk);
        assert(forall|j: int|
            0 <= j < s.meta.len() ==> (#[trigger] s2.meta[j]).key == s.meta[j].key);
        assert(s2.meta[s.meta.len() as int].key == key);
        assert(has_meta_key(s2, key));
        let k2 = meta_idx(s2, key);
        assert(0 <= k2 < s2.meta.len() && s2.meta[k2].key == key);
        if k2 != s.meta.len() as int {
            assert(s2.meta[k2].key == s.meta[k2].key);
            assert(has_meta_key(s, key));
            assert(false);
        }
        assert(s2.meta[s.meta.len() as int].value == value);
    }
}

/// The snippet row that `named_idx` picks really holds the name.
pub proof fn lemma_named_idx(s: StoreV, name: Seq<char>)
    requires
        has_snippet_named(s, name),
    ensures
        0 <= named_idx(s, name) < s.snippets.len(),
        s.snippets[named_idx(s, name)].name == name,
{
}

/// Create-or-resurrect with a fresh stamp preserves the invariant; only the
/// snippets table moves, and afterwards the assigned id names a live row
/// holding exactly the given name and content, stamped `t`.
pub proof fn lemma_save_snippet_wf(s: StoreV, name: Seq<char>, content: Seq<char>, t: int)
    requires
        wf(s),
        s.clock < t <= i64::MAX,
        s.snippets.len() < i64::MAX,
    ensures
        wf(with_clock(save_snippet_tables(s, name, content, t), t)),
        save_snippet_tables(s, name, content, t).tags == s.tags,
        save_snippet_tables(s, name, content, t).links == s.links,
        save_snippet_tables(s, name, content, t).meta == s.meta,
        1 <= save_snippet_id(s, name) <= save_snippet_tables(s, name, content, t).snippets.len(),
        s.snippets.len() <= save_snippet_tables(s, name, content, t).snippets.len()
            <= s.snippets.len() + 1,
        save_snippet_tables(s, name, content, t).snippets[save_snippet_id(s, name) - 1]
            == (SnippetRowV {
            id: save_snippet_id(s, name),
            name: name,
            content: content,
            deleted: false,
            last_updated: t,
        }),
        forall|j: int|
            0 <= j < s.snippets.len() && j != save_snippet_id(s, name) - 1
                ==> save_snippet_tables(s, name, content, t).snippets[j] == s.snippets[j],
        has_live_snippet_named(save_snippet_tables(s, name, content, t), name),
{
    let s2 = save_snippet_tables(s, name, content, t);
    let sid = save_snippet_id(s, name);
    if has_snippet_named(s, name) {
        lemma_named_idx(s, name);
        let i = named_idx(s, name);
        assert(s.snippets[i].id == i + 1);
        assert forall|a: int, b: int|
            0 <= a < s2.snippets.len() && 0 <= b < s2.snippets.len() && a != b implies (
        #[trigger] s2.snippets[a]).name != (#[trigger] s2.snippets[b]).name by {
            assert(s2.snippets[a].name == s.snippets[a].name);
            assert(s2.snippets[b].name == s.snippets[b].name);
        }
        assert(s2.snippets[sid - 1].name == name && !s2.snippets[sid - 1].deleted);
        assert(has_live_snippet_named(s2, name));
    } else {
        assert forall|a: int| 0 <= a < s2.snippets.len() implies (#[trigger] s2.snippets[a]).id == a
            + 1 by {
            if a < s.snippets.len() {
                assert(s2.snippets[a] == s.snippets[a]);
            }
        }
        assert forall|a: int, b: int|
            0 <= a < s2.snippets.len() && 0 <= b < s2.snippets.len() && a != b implies (
        #[trigger] s2.snippets[a]).name != (#[trigger] s2.snippets[b]).name by {
            if a < s.snippets.len() && b < s.snippets.len() {
            } else if a < s.snippets.len() {
                assert(s2.snippets[b].name == name && s2.snippets[a] == s.snippets[a]);
                if s.snippets[a].name == name {
                    assert(has_snippet_named(s, name));
                    assert(false);
                }
            } else {
                assert(s2.snippets[a].name == name && s2.snippets[b] == s.snippets[b]);
                if s.snippets[b].name == name {
                    assert(has_snippet_named(s, name));
                    assert(false);
                }
            }
        }
        assert(s2.snippets[sid - 1].name == name && !s2.snippets[sid - 1].deleted);
        assert(has_live_snippet_named(s2, name));
    }
    assert(wf(with_clock(s2, t)));
}

/// The tag row that `tag_idx_named` picks really holds the name.
pub proof fn lemma_tag_idx_named(s: StoreV, name: Seq<char>)
    requires
        has_tag_named(s, name),
    ensures
        0 <= tag_idx_named(s, name) < s.tags.len(),
        s.tags[tag_idx_named(s, name)].name == name,
{
}

/// Making sure a tag row exists preserves the invariant, touches nothing
/// but the tags table, and afterwards the name is present, at its old index
/// if it had one and at the end otherwise.
pub proof fn lemma_ensure_tag(s: StoreV, g: Seq<char>, t: int)
    requires
        wf(s),
        s.clock == t,
        s.tags.len() < i64::MAX,
    ensures
        wf(ensure_tag_tables(s, g, t)),
        has_tag_named(ensure_tag_tables(s, g, t), g),
        tag_idx_named(ensure_tag_tables(s, g, t), g) == if has_tag_named(s, g) {
            tag_idx_named(s, g)
        } else {
            s.tags.len() as int
        },
        ensure_tag_tables(s, g, t).snippets == s.snippets,
        ensure_tag_tables(s, g, t).links == s.links,
        ensure_tag_tables(s, g, t).meta == s.meta,
        ensure_tag_tables(s, g, t).clock == t,
        s.tags.len() <= ensure_tag_tables(s, g, t).tags.len() <= s.tags.len() + 1,
{
    let s1 = ensure_tag_tables(s, g, t);
    if !has_tag_named(s, g) {
        assert forall|i: int| 0 <= i < s1.tags.len() implies (#[trigger] s1.tags[i]).id == i
            + 1 by {
            if i < s.tags.len() {
                assert(s1.tags[i] == s.tags[i]);
            }
        }
        assert forall|i: int, j: int|
            0 <= i < s1.tags.len() && 0 <= j < s1.tags.len() && i != j implies (
        #[trigger] s1.tags[i]).name != (#[trigger] s1.tags[j]).name by {
            if i < s.tags.len() && j < s.tags.len() {
            } else if i < s.tags.len() {
                assert(s1.tags[j].name == g && s1.tags[i] == s.tags[i]);
            } else {
                assert(s1.tags[i].name == g && s1.tags[j] == s.tags[j]);
            }
        }
        assert(s1.tags[s.tags.len() as int].name == g);
        assert(has_tag_named(s1, g));
        lemma_tag_idx_named(s1, g);
        let k = tag_idx_named(s1, g);
        if k != s.tags.len() as int {
            assert(s1.tags[k] == s.tags[k]);
            assert(has_tag_named(s, g));
            assert(false);
        }
    }
}

/// Attaching one tag preserves the invariant and touches nothing but the
/// tags and links tables, each of which grows by at most one row.
pub proof fn lemma_add_tag_wf(s: StoreV, sid: int, g: Seq<char>, t: int)
    requires
        wf(s),
        has_snippet(s, sid),
        s.clock == t,
        s.tags.len() < i64::MAX,
        s.links.len() < i64::MAX,
    ensures
        wf(add_tag_tables(s, sid, g, t)),
        add_tag_tables(s, sid, g, t).snippets == s.snippets,
        add_tag_tables(s, sid, g, t).meta == s.meta,
        add_tag_tables(s, sid, g, t).clock == t,
        s.tags.len() <= add_tag_tables(s, sid, g, t).tags.len() <= s.tags.len() + 1,
        s.links.len() <= add_tag_tables(s, sid, g, t).links.len() <= s.links.len() + 1,
        has_tag_named(add_tag_tables(s, sid, g, t), g),
        live_link_for(add_tag_tables(s, sid, g, t), sid, g),
{
    lemma_ensure_tag(s, g, t);
    let s1 = ensure_tag_tables(s, g, t);
    lemma_tag_idx_named(s1, g);
    let ti = tag_idx_named(s1, g);
    let tid = ti + 1;
    let s2 = upsert_link_tables(s1, sid, tid, t);
    assert(1 <= tid <= s1.tags.len());
    if has_link(s1, sid, tid) {
        let li = link_idx(s1, sid, tid);
        assert(0 <= li < s1.links.len() && s1.links[li].snippet_id == sid && s1.links[li].tag_id
            == tid);
        assert(s1.links[li].id == li + 1);
        assert forall|i: int| 0 <= i < s2.links.len() implies (#[trigger] s2.links[i]).id == i
            + 1 by {
            if i != li {
                assert(s2.links[i] == s1.links[i]);
            }
        }
        assert forall|i: int, j: int|
            0 <= i < s2.links.len() && 0 <= j < s2.links.len() && i != j implies !((
        #[trigger] s2.links[i]).snippet_id == (#[trigger] s2.links[j]).snippet_id
            && s2.links[i].tag_id == s2.links[j].tag_id) by {
            let oi = if i == li {
                s1.links[li]
            } else {
                s1.links[i]
            };
            assert(s2.links[i].snippet_id == s1.links[i].snippet_id && s2.links[i].tag_id
                == s1.links[i].tag_id);
            assert(s2.links[j].snippet_id == s1.links[j].snippet_id && s2.links[j].tag_id
                == s1.links[j].tag_id);
        }
        assert(wf(s2));
        assert(s2.tags[s1.links[li].tag_id - 1].name == g);
        assert((#[trigger] s2.links[li]).snippet_id == sid && !s2.links[li].deleted && 1
            <= s2.links[li].tag_id <= s2.tags.len() && s2.tags[s2.links[li].tag_id - 1].name == g);
        assert(live_link_for(s2, sid, g));
        assert(s2.tags[ti].name == g);
        assert(has_tag_named(s2, g));
    } else {
        assert forall|i: int| 0 <= i < s2.links.len() implies (#[trigger] s2.links[i]).id == i
            + 1 by {
            if i < s1.links.len() {
                assert(s2.links[i] == s1.links[i]);
            }
        }
        assert forall|i: int, j: int|
            0 <= i < s2.links.len() && 0 <= j < s2.links.len() && i != j implies !((
        #[trigger] s2.links[i]).snippet_id == (#[trigger] s2.links[j]).snippet_id
            && s2.links[i].tag_id == s2.links[j].tag_id) by {
            if i < s1.links.len() && j < s1.links.len() {
            } else if i < s1.links.len() {
                assert(s2.links[j].snippet_id == sid && s2.links[j].tag_id == tid);
                assert(s2.links[i] == s1.links[i]);
                if s1.links[i].snippet_id == sid && s1.links[i].tag_id == tid {
                    assert(has_link(s1, sid, tid));
                    assert(false);
                }
            } else {
                assert(s2.links[i].snippet_id == sid && s2.links[i].tag_id == tid);
                assert(s2.links[j] == s1.links[j]);
                if s1.links[j].snippet_id == sid && s1.links[j].tag_id == tid {
                    assert(has_link(s1, sid, tid));
                    assert(false);
                }
            }
        }
        assert forall|i: int| 0 <= i < s2.links.len() implies 1 <= (
        #[trigger] s2.links[i]).snippet_id <= s2.snippets.len() && 1 <= s2.links[i].tag_id
            <= s2.tags.len() by {
            if i < s1.links.len() {
                assert(s2.links[i] == s1.links[i]);
            }
        }
        assert(wf(s2));
        assert((#[trigger] s2.links[s1.links.len() as int]).snippet_id == sid && !s2.links[
            s1.links.len() as int
        ].deleted && 1 <= s2.links[s1.links.len() as int].tag_id <= s2.tags.len() && s2.tags[
            s2.links[s1.links.len() as int].tag_id - 1
        ].name == g);
        assert(live_link_for(s2, sid, g));
        assert(s2.tags[ti].name == g);
        assert(has_tag_named(s2, g));
    }
}

/// Attaching a tag never detaches another: a live association survives
/// any later attachment, whatever snippet or tag that one concerns.
pub proof fn lemma_add_tag_preserves_live(
    s: StoreV,
    sid: int,
    g: Seq<char>,
    t: int,
    x: int,
    g2: Seq<char>,
)
    requires
        live_link_for(s, x, g2),
    ensures
        live_link_for(add_tag_tables(s, sid, g, t), x, g2),
{
    let s1 = ensure_tag_tables(s, g, t);
    let i = choose|i: int|
        0 <= i < s.links.len() && (#[trigger] s.links[i]).snippet_id == x && !s.links[i].deleted
            && 1 <= s.links[i].tag_id <= s.tags.len() && s.tags[s.links[i].tag_id - 1].name == g2;
    assert(s1.tags[s.links[i].tag_id - 1] == s.tags[s.links[i].tag_id - 1]);
    let ti = tag_idx_named(s1, g);
    let tid = ti + 1;
    let s2 = upsert_link_tables(s1, sid, tid, t);
    if has_link(s1, sid, tid) {
        let li = link_idx(s1, sid, tid);
        assert(0 <= li < s1.links.len() && s1.links[li].snippet_id == sid && s1.links[li].tag_id
            == tid);
        if li == i {
            assert((#[trigger] s2.links[i]).snippet_id == x && !s2.links[i].deleted && 1
                <= s2.links[i].tag_id <= s2.tags.len() && s2.tags[s2.links[i].tag_id - 1].name
                == g2);
        } else {
            assert(s2.links[i] == s1.links[i]);
            assert((#[trigger] s2.links[i]).snippet_id == x && !s2.links[i].deleted && 1
                <= s2.links[i].tag_id <= s2.tags.len() && s2.tags[s2.links[i].tag_id - 1].name
                == g2);
        }
    } else {
        assert(s2.links[i] == s1.links[i]);
        assert((#[trigger] s2.links[i]).snippet_id == x && !s2.links[i].deleted && 1
            <= s2.links[i].tag_id <= s2.tags.len() && s2.tags[s2.links[i].tag_id - 1].name == g2);
    }
    assert(live_link_for(s2, x, g2));
}

/// After a list of tags is attached, the snippet carries every one of
/// them through a live association row.
pub proof fn lemma_add_tags_live(s: StoreV, sid: int, gs: Seq<Seq<char>>, t: int)
    requires
        wf(s),
        has_snippet(s, sid),
        s.clock == t,
        s.tags.len() + gs.len() <= i64::MAX,
        s.links.len() + gs.len() <= i64::MAX,
    ensures
        forall|k: int|
            0 <= k < gs.len() ==> live_link_for(add_tags_tables(s, sid, gs, t), sid, #[trigger] gs[k]),
    decreases gs.len(),
{
    if gs.len() > 0 {
        lemma_add_tags_wf(s, sid, gs.drop_last(), t);
        lemma_add_tags_live(s, sid, gs.drop_last(), t);
        let mid = add_tags_tables(s, sid, gs.drop_last(), t);
        lemma_add_tag_wf(mid, sid, gs.last(), t);
        let fin = add_tags_tables(s, sid, gs, t);
        assert forall|k: int| 0 <= k < gs.len() implies live_link_for(
            fin,
            sid,
            #[trigger] gs[k],
        ) by {
            if k < gs.len() - 1 {
                assert(gs.drop_last()[k] == gs[k]);
                assert(live_link_for(mid, sid, gs[k]));
                lemma_add_tag_preserves_live(mid, sid, gs.last(), t, sid, gs[k]);
            } else {
                assert(gs[k] == gs.last());
            }
        }
    }
}

/// Attaching a list of tags preserves the invariant; the snippets table,
/// the metadata table and the clock stay untouched, and the tags and links
/// tables grow by at most one row per name.
pub proof fn lemma_add_tags_wf(s: StoreV, sid: int, gs: Seq<Seq<char>>, t: int)
    requires
        wf(s),
        has_snippet(s, sid),
        s.clock == t,
        s.tags.len() + gs.len() <= i64::MAX,
        s.links.len() + gs.len() <= i64::MAX,
    ensures
        wf(add_tags_tables(s, sid, gs, t)),
        add_tags_tables(s, sid, gs, t).snippets == s.snippets,
        add_tags_tables(s, sid, gs, t).meta == s.meta,
        add_tags_tables(s, sid, gs, t).clock == t,
        s.tags.len() <= add_tags_tables(s, sid, gs, t).tags.len() <= s.tags.len() + gs.len(),
        s.links.len() <= add_tags_tables(s, sid, gs, t).links.len() <= s.links.len() + gs.len(),
    decreases gs.len(),
{
    if gs.len() > 0 {
        lemma_add_tags_wf(s, sid, gs.drop_last(), t);
        let mid = add_tags_tables(s, sid, gs.drop_last(), t);
        lemma_add_tag_wf(mid, sid, gs.last(), t);
    }
}

/// Deleting a snippet with a fresh stamp preserves the invariant; the tags
/// and metadata tables stay untouched and no table changes length.
pub proof fn lemma_delete_wf(s: StoreV, sid: int, t: int)
    requires
        wf(s),
        has_snippet(s, sid),
        s.clock < t <= i64::MAX,
    ensures
        wf(with_clock(delete_snippet_tables(s, sid, t), t)),
        delete_snippet_tables(s, sid, t).tags == s.tags,
        delete_snippet_tables(s, sid, t).meta == s.meta,
        delete_snippet_tables(s, sid, t).snippets.len() == s.snippets.len(),
        delete_snippet_tables(s, sid, t).links.len() == s.links.len(),
{
    let s2 = delete_snippet_tables(s, sid, t);
    assert forall|i: int| 0 <= i < s2.snippets.len() implies (#[trigger] s2.snippets[i]).id == i + 1
        && s2.snippets[i].name == s.snippets[i].name && 0 <= s2.snippets[i].last_updated <= t by {
        if i != sid - 1 {
            assert(s2.snippets[i] == s.snippets[i]);
        }
    }
    assert forall|i: int| 0 <= i < s2.links.len() implies (#[trigger] s2.links[i]).id == i + 1
        && s2.links[i].snippet_id == s.links[i].snippet_id && s2.links[i].tag_id
        == s.links[i].tag_id && 0 <= s2.links[i].last_updated <= t by {
        assert(s.links[i].id == i + 1);
    }
    assert forall|i: int, j: int|
        0 <= i < s2.snippets.len() && 0 <= j < s2.snippets.len() && i != j implies (
    #[trigger] s2.snippets[i]).name != (#[trigger] s2.snippets[j]).name by {
        assert(s2.snippets[i].name == s.snippets[i].name);
        assert(s2.snippets[j].name == s.snippets[j].name);
    }
    assert forall|i: int, j: int|
        0 <= i < s2.links.len() && 0 <= j < s2.links.len() && i != j implies !((
    #[trigger] s2.links[i]).snippet_id == (#[trigger] s2.links[j]).snippet_id && s2.links[i].tag_id
        == s2.links[j].tag_id) by {
        assert(s2.links[i].snippet_id == s.links[i].snippet_id && s2.links[i].tag_id
            == s.links[i].tag_id);
        assert(s2.links[j].snippet_id == s.links[j].snippet_id && s2.links[j].tag_id
            == s.links[j].tag_id);
    }
    assert(wf(with_clock(s2, t)));
}

/// Renaming a snippet with a fresh stamp preserves the invariant, provided
/// no other row holds the new name; only that one row changes.
pub proof fn lemma_rename_wf(s: StoreV, sid: int, name: Seq<char>, t: int)
    requires
        wf(s),
        has_snippet(s, sid),
        !other_snippet_named(s, sid, name),
        s.clock < t <= i64::MAX,
    ensures
        wf(with_clock(rename_snippet_tables(s, sid, name, t), t)),
        rename_snippet_tables(s, sid, name, t).tags == s.tags,
        rename_snippet_tables(s, sid, name, t).links == s.links,
        rename_snippet_tables(s, sid, name, t).meta == s.meta,
        rename_snippet_tables(s, sid, name, t).snippets.len() == s.snippets.len(),
{
    let s2 = rename_snippet_tables(s, sid, name, t);
    assert forall|i: int| 0 <= i < s2.snippets.len() implies (#[trigger] s2.snippets[i]).id == i + 1
        && 0 <= s2.snippets[i].last_updated <= t by {
        if i != sid - 1 {
            assert(s2.snippets[i] == s.snippets[i]);
        }
    }
    assert forall|i: int, j: int|
        0 <= i < s2.snippets.len() && 0 <= j < s2.snippets.len() && i != j implies (
    #[trigger] s2.snippets[i]).name != (#[trigger] s2.snippets[j]).name by {
        if i != sid - 1 && j != sid - 1 {
            assert(s2.snippets[i] == s.snippets[i] && s2.snippets[j] == s.snippets[j]);
        } else if i == sid - 1 {
            assert(s2.snippets[j] == s.snippets[j]);
            if s.snippets[j].name == name {
                assert(other_snippet_named(s, sid, name));
                assert(false);
            }
        } else {
            assert(s2.snippets[i] == s.snippets[i]);
            if s.snippets[i].name == name {
                assert(other_snippet_named(s, sid, name));
                assert(false);
            }
        }
    }
    assert(wf(with_clock(s2, t)));
}

/// Replacing a snippet's content with a fresh stamp preserves the
/// invariant; only that one row changes.
pub proof fn lemma_content_wf(s: StoreV, sid: int, content: Seq<char>, t: int)
    requires
        wf(s),
        has_snippet(s, sid),
        s.clock < t <= i64::MAX,
    ensures
        wf(with_clock(change_content_tables(s, sid, content, t), t)),
        change_content_tables(s, sid, content, t).tags == s.tags,
        change_content_tables(s, sid, content, t).links == s.links,
        change_content_tables(s, sid, content, t).meta == s.meta,
        change_content_tables(s, sid, content, t).snippets.len() == s.snippets.len(),
{
    let s2 = change_content_tables(s, sid, content, t);
    assert forall|i: int| 0 <= i < s2.snippets.len() implies (#[trigger] s2.snippets[i]).id == i + 1
        && s2.snippets[i].name == s.snippets[i].name && 0 <= s2.snippets[i].last_updated <= t by {
        if i != sid - 1 {
            assert(s2.snippets[i] == s.snippets[i]);
        }
    }
    assert forall|i: int, j: int|
        0 <= i < s2.snippets.len() && 0 <= j < s2.snippets.len() && i != j implies (
    #[trigger] s2.snippets[i]).name != (#[trigger] s2.snippets[j]).name by {
        assert(s2.snippets[i].name == s.snippets[i].name);
        assert(s2.snippets[j].name == s.snippets[j].name);
    }
    assert(wf(with_clock(s2, t)));
}

/// Detaching tags with a fresh stamp preserves the invariant; only the
/// links table moves, and it keeps its length, ids and pairs.
pub proof fn lemma_remove_tags_wf(s: StoreV, sid: int, names: Seq<Seq<char>>, t: int)
    requires
        wf(s),
        s.clock < t <= i64::MAX,
    ensures
        wf(with_clock(remove_tags_tables(s, sid, names, t), t)),
        remove_tags_tables(s, sid, names, t).snippets == s.snippets,
        remove_tags_tables(s, sid, names, t).tags == s.tags,
        remove_tags_tables(s, sid, names, t).meta == s.meta,
        remove_tags_tables(s, sid, names, t).links.len() == s.links.len(),
{
    let s2 = remove_tags_tables(s, sid, names, t);
    assert forall|i: int| 0 <= i < s2.links.len() implies (#[trigger] s2.links[i]).id == i + 1
        && s2.links[i].snippet_id == s.links[i].snippet_id && s2.links[i].tag_id
        == s.links[i].tag_id && 0 <= s2.links[i].last_updated <= t by {
        assert(s.links[i].id == i + 1);
    }
    assert forall|i: int, j: int|
        0 <= i < s2.links.len() && 0 <= j < s2.links.len() && i != j implies !((
    #[trigger] s2.links[i]).snippet_id == (#[trigger] s2.links[j]).snippet_id && s2.links[i].tag_id
        == s2.links[j].tag_id) by {
        assert(s2.links[i].snippet_id == s.links[i].snippet_id && s2.links[i].tag_id
            == s.links[i].tag_id);
        assert(s2.links[j].snippet_id == s.links[j].snippet_id && s2.links[j].tag_id
            == s.links[j].tag_id);
    }
    assert(wf(with_clock(s2, t)));
}

/// The store a fresh database starts from: empty tables, the watermark
/// seeded to zero, the clock at zero.
pub open spec fn init_store() -> StoreV {
    StoreV {
        snippets: Seq::empty(),
        tags: Seq::empty(),
        links: Seq::empty(),
        meta: Seq::empty().push(MetaRowV { key: watermark_key(), value: "0"@ }),
        clock: 0,
    }
}

} // verus!
