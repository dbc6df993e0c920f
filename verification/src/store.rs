use vstd::prelude::*;

use crate::clock::next_stamp;
use crate::error::StoreError;
use crate::model::{
    StoreV, add_tag_tables, add_tags_tables, change_content_tables, delete_snippet_tables,
    ensure_tag_tables, has_link, has_live_snippet_named, has_meta_key, has_snippet,
    has_snippet_named, has_tag_named, init_store, lemma_add_tag_wf, lemma_add_tags_wf,
    lemma_content_wf, lemma_delete_wf, lemma_ensure_tag, lemma_meta_upsert,
    lemma_remove_tags_wf, lemma_rename_wf, lemma_save_snippet_wf, lemma_tag_idx_named, link_idx, live_tag_names, meta_idx, meta_upsert,
    meta_value, named_idx, other_snippet_named, remove_tags_tables, rename_snippet_tables,
    save_snippet_id, save_snippet_tables, seq_has_str, snippet_live, tag_idx_named, tag_named_in,
    tags_of, upsert_link_tables, watermark_key, wf, with_clock,
};
use crate::search::{
    contains_sub, contains_substr, name_filter_view, name_matches, search_matches, search_results,
    search_spec, snippet_carries, snippet_view_of, tag_filter_view, tags_match, all_tags_carried,
};
use crate::snippet::Snippet;
use crate::model::{advanced_watermark, links_after, snippets_after, tags_after};
use crate::model::{
    lemma_tables_wf_store, link_ids_ok, link_pairs_unique, link_stamps_nonneg, links_fk_ok,
    max_link_stamp, max_snippet_stamp, max_tag_stamp, meta_ok, snippet_ids_ok,
    snippet_names_unique, snippet_stamps_nonneg, tables_max_stamp, tables_wf, tag_ids_ok,
    tag_names_unique, tag_stamps_nonneg,
};
use crate::rows::{
    MetaRow, MetaRowV, SnippetRow, SnippetRowV, SnippetTagRow, SnippetTagRowV, SyncData, TagRow,
    TagRowV,
};
use crate::util::{str_eq, string_in_list};

verus! {

/// The record store: the four tables of the data model held as rows in
/// storage order, plus the logical clock (the largest stamp ever written).
///
/// The store owns timestamp assignment: every mutation stamps the rows it
/// touches with a stamp strictly greater than every stamp already present,
/// taken from the wall clock when the wall clock is ahead.
pub struct Store {
    snippets: Vec<SnippetRow>,
    tags: Vec<TagRow>,
    links: Vec<SnippetTagRow>,
    meta: Vec<MetaRow>,
    clock: i64,
}

impl View for Store {
    type V = StoreV;

    closed spec fn view(&self) -> StoreV {
        StoreV {
            snippets: self.snippets.deep_view(),
            tags: self.tags.deep_view(),
            links: self.links.deep_view(),
            meta: self.meta.deep_view(),
            clock: self.clock as int,
        }
    }
}

impl Store {
    /// A fresh store, as a newly created database starts out: empty tables
    /// and the sync watermark seeded to zero.
    pub fn new() -> (s: Store)
        ensures
            s@ == init_store(),
            wf(s@),
    {
        let mut meta: Vec<MetaRow> = Vec::new();
        meta.push(MetaRow { key: String::from_str("last_synced"), value: String::from_str("0") });
        let s = Store { snippets: Vec::new(), tags: Vec::new(), links: Vec::new(), meta, clock: 0 };
        proof {
            assert(s@.snippets =~= init_store().snippets);
            assert(s@.tags =~= init_store().tags);
            assert(s@.links =~= init_store().links);
            assert(s@.meta =~= init_store().meta);
            assert(s@ =~= init_store());
            assert(s@.meta[0].key == watermark_key());
        }
        s
    }

    /// The index of the snippet row holding this name, if any; under `wf`
    /// that row is unique.
    fn find_snippet_by_name(&self, name: &str) -> (r: Option<usize>)
        requires
            wf(self@),
        ensures
            match r {
                Some(i) => has_snippet_named(self@, name@) && i as int == named_idx(self@, name@)
                    && 0 <= i < self@.snippets.len() && self@.snippets[i as int].name == name@,
                None => !has_snippet_named(self@, name@),
            },
    {
        let n = self.snippets.len();
        let mut i: usize = 0;
        while i < n
            invariant
                wf(self@),
                n == self@.snippets.len(),
                0 <= i <= n,
                forall|j: int| 0 <= j < i ==> (#[trigger] self@.snippets[j]).name != name@,
            decreases n - i,
        {
            if str_eq(self.snippets[i].name.as_str(), name) {
                proof {
                    let s = self@;
                    assert(s.snippets[i as int].name == name@);
                    assert(has_snippet_named(s, name@));
                    let k = named_idx(s, name@);
                    assert(0 <= k < s.snippets.len() && s.snippets[k].name == name@);
                    if k != i as int {
                        assert(s.snippets[k].name != s.snippets[i as int].name);
                        assert(false);
                    }
                }
                return Some(i);
            }
            i += 1;
        }
        None
    }

    /// The index of the tag row holding this name, if any; under `wf` that
    /// row is unique.
    fn find_tag_by_name(&self, name: &str) -> (r: Option<usize>)
        requires
            wf(self@),
        ensures
            match r {
                Some(i) => has_tag_named(self@, name@) && i as int == tag_idx_named(self@, name@)
                    && 0 <= i < self@.tags.len() && self@.tags[i as int].name == name@,
                None => !has_tag_named(self@, name@),
            },
    {
        let n = self.tags.len();
        let mut i: usize = 0;
        while i < n
            invariant
                wf(self@),
                n == self@.tags.len(),
                0 <= i <= n,
                forall|j: int| 0 <= j < i ==> (#[trigger] self@.tags[j]).name != name@,
            decreases n - i,
        {
            if str_eq(self.tags[i].name.as_str(), name) {
                proof {
                    let s = self@;
                    assert(s.tags[i as int].name == name@);
                    assert(has_tag_named(s, name@));
                    let k = tag_idx_named(s, name@);
                    assert(0 <= k < s.tags.len() && s.tags[k].name == name@);
                    if k != i as int {
                        assert(s.tags[k].name != s.tags[i as int].name);
                        assert(false);
                    }
                }
                return Some(i);
            }
            i += 1;
        }
        None
    }

    /// The index of the association row for `(snippet_id, tag_id)`, if any;
    /// under `wf` that row is unique.
    fn find_link(&self, snippet_id: i64, tag_id: i64) -> (r: Option<usize>)
        requires
            wf(self@),
        ensures
            match r {
                Some(i) => has_link(self@, snippet_id as int, tag_id as int) && i as int
                    == link_idx(self@, snippet_id as int, tag_id as int) && 0 <= i
                    < self@.links.len() && self@.links[i as int].snippet_id == snippet_id as int
                    && self@.links[i as int].tag_id == tag_id as int,
                None => !has_link(self@, snippet_id as int, tag_id as int),
            },
    {
        let n = self.links.len();
        let mut i: usize = 0;
        while i < n
            invariant
                wf(self@),
                n == self@.links.len(),
                0 <= i <= n,
                forall|j: int| 0 <= j < i ==> !((#[trigger] self@.links[j]).snippet_id
                    == snippet_id as int && self@.links[j].tag_id == tag_id as int),
            decreases n - i,
        {
            if self.links[i].snippet_id == snippet_id && self.links[i].tag_id == tag_id {
                proof {
                    let s = self@;
                    assert(s.links[i as int].snippet_id == snippet_id as int && s.links[
                        i as int
                    ].tag_id == tag_id as int);
                    assert(has_link(s, snippet_id as int, tag_id as int));
                    let k = link_idx(s, snippet_id as int, tag_id as int);
                    assert(0 <= k < s.links.len() && s.links[k].snippet_id == snippet_id as int
                        && s.links[k].tag_id == tag_id as int);
                    if k != i as int {
                        assert(false);
                    }
                }
                return Some(i);
            }
            i += 1;
        }
        None
    }

    /// The index of the metadata row under this key, if any; under `wf` that
    /// row is unique.
    fn find_meta(&self, key: &str) -> (r: Option<usize>)
        requires
            wf(self@),
        ensures
            match r {
                Some(i) => has_meta_key(self@, key@) && i as int == meta_idx(self@, key@) && 0 <= i
                    < self@.meta.len() && self@.meta[i as int].key == key@,
                None => !has_meta_key(self@, key@),
            },
    {
        let n = self.meta.len();
        let mut i: usize = 0;
        while i < n
            invariant
                wf(self@),
                n == self@.meta.len(),
                0 <= i <= n,
                forall|j: int| 0 <= j < i ==> (#[trigger] self@.meta[j]).key != key@,
            decreases n - i,
        {
            if str_eq(self.meta[i].key.as_str(), key) {
                proof {
                    let s = self@;
                    assert(s.meta[i as int].key == key@);
                    assert(has_meta_key(s, key@));
                    let k = meta_idx(s, key@);
                    assert(0 <= k < s.meta.len() && s.meta[k].key == key@);
                    if k != i as int {
                        assert(s.meta[k].key != s.meta[i as int].key);
                        assert(false);
                    }
                }
                return Some(i);
            }
            i += 1;
        }
        None
    }

    /// Read a metadata value. Fails with `UnknownMetaKey` exactly when no
    /// row holds the key.
    pub fn get_metadata_value(&self, key: &str) -> (r: Result<String, StoreError>)
        requires
            wf(self@),
        ensures
            r is Ok <==> has_meta_key(self@, key@),
            r matches Ok(v) ==> v@ == meta_value(self@, key@),
            r is Err ==> r == Err::<String, StoreError>(StoreError::UnknownMetaKey),
    {
        match self.find_meta(key) {
            Some(i) => Ok(self.meta[i].value.clone()),
            None => Err(StoreError::UnknownMetaKey),
        }
    }

    /// Write a metadata value, updating the row under the key in place if
    /// one exists and appending one otherwise. Never fails; metadata rows
    /// carry no timestamp and the clock does not move.
    pub fn set_metadata_value(&mut self, key: &str, value: &str)
        requires
            wf(old(self)@),
        ensures
            final(self)@ == meta_upsert(old(self)@, key@, value@),
            wf(final(self)@),
    {
        let ghost s0 = self@;
        match self.find_meta(key) {
            Some(i) => {
                self.meta[i].value = value.to_owned();
                proof {
                    assert(self@.meta =~= s0.meta.update(
                        meta_idx(s0, key@),
                        MetaRowV { key: key@, value: value@ },
                    ));
                    assert(self@ =~= meta_upsert(s0, key@, value@));
                    lemma_meta_upsert(s0, key@, value@);
                }
            },
            None => {
                self.meta.push(MetaRow { key: key.to_owned(), value: value.to_owned() });
                proof {
                    assert(self@.meta =~= s0.meta.push(MetaRowV { key: key@, value: value@ }));
                    assert(self@ =~= meta_upsert(s0, key@, value@));
                    lemma_meta_upsert(s0, key@, value@);
                }
            },
        }
    }

    /// Attach one tag to a snippet row at stamp `t`: make sure the tag row
    /// exists, then reuse or append the association row for the pair.
    fn add_one_tag(&mut self, snippet_id: i64, g: &String, t: i64)
        requires
            wf(old(self)@),
            has_snippet(old(self)@, snippet_id as int),
            old(self)@.clock == t,
            old(self)@.tags.len() < i64::MAX,
            old(self)@.links.len() < i64::MAX,
        ensures
            final(self)@ == add_tag_tables(old(self)@, snippet_id as int, g@, t as int),
            wf(final(self)@),
            final(self)@.snippets == old(self)@.snippets,
            final(self)@.meta == old(self)@.meta,
            final(self)@.clock == t,
            old(self)@.tags.len() <= final(self)@.tags.len() <= old(self)@.tags.len() + 1,
            old(self)@.links.len() <= final(self)@.links.len() <= old(self)@.links.len() + 1,
    {
        proof {
            lemma_add_tag_wf(old(self)@, snippet_id as int, g@, t as int);
            lemma_ensure_tag(old(self)@, g@, t as int);
        }
        let ghost s0 = self@;
        let tid: i64;
        match self.find_tag_by_name(g.as_str()) {
            Some(ti) => {
                tid = ti as i64 + 1;
            },
            None => {
                let new_id = self.tags.len() as i64 + 1;
                self.tags.push(
                    TagRow { id: new_id, name: g.clone(), deleted: false, last_updated: t },
                );
                tid = new_id;
                proof {
                    assert(self@.tags =~= ensure_tag_tables(s0, g@, t as int).tags);
                }
            },
        }
        let ghost s1 = ensure_tag_tables(s0, g@, t as int);
        proof {
            assert(self@ =~= s1);
            assert(tid as int == tag_idx_named(s1, g@) + 1);
        }
        match self.find_link(snippet_id, tid) {
            Some(li) => {
                self.links[li].deleted = false;
                self.links[li].last_updated = t;
                proof {
                    assert(s1.links[li as int].id == li as int + 1);
                    assert(self@.links =~= s1.links.update(
                        li as int,
                        SnippetTagRowV {
                            id: li as int + 1,
                            snippet_id: snippet_id as int,
                            tag_id: tid as int,
                            deleted: false,
                            last_updated: t as int,
                        },
                    ));
                    assert(self@ =~= upsert_link_tables(s1, snippet_id as int, tid as int, t as int));
                }
            },
            None => {
                let new_id = self.links.len() as i64 + 1;
                self.links.push(
                    SnippetTagRow {
                        id: new_id,
                        snippet_id: snippet_id,
                        tag_id: tid,
                        deleted: false,
                        last_updated: t,
                    },
                );
                proof {
                    assert(self@.links =~= upsert_link_tables(
                        s1,
                        snippet_id as int,
                        tid as int,
                        t as int,
                    ).links);
                    assert(self@ =~= upsert_link_tables(s1, snippet_id as int, tid as int, t as int));
                }
            },
        }
        proof {
            assert(self@ == add_tag_tables(s0, snippet_id as int, g@, t as int));
        }
    }

    /// Attach a list of tags, first to last, all at stamp `t`.
    fn add_tags_internal(&mut self, snippet_id: i64, tags: &Vec<String>, t: i64)
        requires
            wf(old(self)@),
            has_snippet(old(self)@, snippet_id as int),
            old(self)@.clock == t,
            old(self)@.tags.len() + tags.deep_view().len() <= i64::MAX,
            old(self)@.links.len() + tags.deep_view().len() <= i64::MAX,
        ensures
            final(self)@ == add_tags_tables(old(self)@, snippet_id as int, tags.deep_view(), t as int),
            wf(final(self)@),
            final(self)@.snippets == old(self)@.snippets,
            final(self)@.meta == old(self)@.meta,
            final(self)@.clock == t,
    {
        let ghost s0 = self@;
        let ghost dv = tags.deep_view();
        let n = tags.len();
        proof {
            assert(dv.take(0) =~= Seq::<Seq<char>>::empty());
        }
        let mut k: usize = 0;
        while k < n
            invariant
                wf(self@),
                n == tags@.len(),
                dv == tags.deep_view(),
                dv.len() == n,
                0 <= k <= n,
                self@ == add_tags_tables(s0, snippet_id as int, dv.take(k as int), t as int),
                self@.snippets == s0.snippets,
                self@.meta == s0.meta,
                self@.clock == t,
                self@.tags.len() <= s0.tags.len() + k,
                self@.links.len() <= s0.links.len() + k,
                has_snippet(s0, snippet_id as int),
                s0.tags.len() + n <= i64::MAX,
                s0.links.len() + n <= i64::MAX,
            decreases n - k,
        {
            let g = &tags[k];
            proof {
                assert(g@ == dv[k as int]);
                assert(has_snippet(self@, snippet_id as int));
            }
            self.add_one_tag(snippet_id, g, t);
            proof {
                assert(dv.take(k as int + 1).drop_last() =~= dv.take(k as int));
                assert(dv.take(k as int + 1).last() == dv[k as int]);
                assert(self@ == add_tags_tables(
                    s0,
                    snippet_id as int,
                    dv.take(k as int + 1),
                    t as int,
                ));
            }
            k += 1;
        }
        proof {
            assert(dv.take(n as int) =~= dv);
        }
    }

    /// Attach tags to an existing snippet row, live or tombstoned: each tag
    /// row is created if absent, and each association row is reused (its
    /// tombstone cleared) or appended. Fails with `UnknownSnippetId` exactly
    /// when no snippet row has the id.
    pub fn save_tags(&mut self, snippet_id: i64, tags: &Vec<String>) -> (r: Result<(), StoreError>)
        requires
            wf(old(self)@),
            old(self)@.clock < i64::MAX,
            old(self)@.tags.len() + tags.deep_view().len() <= i64::MAX,
            old(self)@.links.len() + tags.deep_view().len() <= i64::MAX,
        ensures
            r is Ok <==> has_snippet(old(self)@, snippet_id as int),
            r is Err ==> final(self)@ == old(self)@ && r == Err::<(), StoreError>(
                StoreError::UnknownSnippetId,
            ),
            r is Ok ==> old(self)@.clock < final(self)@.clock && wf(final(self)@) && final(self)@
                == add_tags_tables(
                with_clock(old(self)@, final(self)@.clock),
                snippet_id as int,
                tags.deep_view(),
                final(self)@.clock,
            ),
    {
        if snippet_id < 1 || snippet_id > self.snippets.len() as i64 {
            return Err(StoreError::UnknownSnippetId);
        }
        let t = next_stamp(self.clock);
        let ghost s0 = self@;
        self.clock = t;
        proof {
            assert(self@ =~= with_clock(s0, t as int));
            assert(wf(self@));
        }
        self.add_tags_internal(snippet_id, tags, t);
        Ok(())
    }

    /// Create a snippet, or resurrect the tombstoned row holding the name:
    /// an absent name gets a fresh row, a tombstoned holder is overwritten
    /// in place (new content, tombstone cleared, restamped), and a live
    /// holder fails the call with `DupSnippetName`. Tags, if given, are then
    /// attached to the row as `save_tags` would.
    pub fn save_snippet(&mut self, name: &str, content: &str, tags: Option<&Vec<String>>) -> (r:
        Result<i64, StoreError>)
        requires
            wf(old(self)@),
            old(self)@.clock < i64::MAX,
            old(self)@.snippets.len() < i64::MAX,
            old(self)@.tags.len() + opt_tags_view(tags).len() <= i64::MAX,
            old(self)@.links.len() + opt_tags_view(tags).len() <= i64::MAX,
        ensures
            r is Err <==> has_live_snippet_named(old(self)@, name@),
            r is Err ==> final(self)@ == old(self)@ && r == Err::<i64, StoreError>(
                StoreError::DupSnippetName,
            ),
            r matches Ok(id) ==> id as int == save_snippet_id(old(self)@, name@)
                && old(self)@.clock < final(self)@.clock && wf(final(self)@) && final(self)@
                == add_tags_tables(
                with_clock(
                    save_snippet_tables(old(self)@, name@, content@, final(self)@.clock),
                    final(self)@.clock,
                ),
                id as int,
                opt_tags_view(tags),
                final(self)@.clock,
            ),
    {
        let t = next_stamp(self.clock);
        let ghost s0 = self@;
        let sid: i64;
        match self.find_snippet_by_name(name) {
            Some(i) => {
                if !self.snippets[i].deleted {
                    proof {
                        assert(s0.snippets[i as int].name == name@ && !s0.snippets[
                            i as int
                        ].deleted);
                        assert(has_live_snippet_named(s0, name@));
                    }
                    return Err(StoreError::DupSnippetName);
                }
                self.snippets[i].content = content.to_owned();
                self.snippets[i].deleted = false;
                self.snippets[i].last_updated = t;
                sid = i as i64 + 1;
                proof {
                    assert(!has_live_snippet_named(s0, name@)) by {
                        if has_live_snippet_named(s0, name@) {
                            let j = choose|j: int|
                                0 <= j < s0.snippets.len() && (#[trigger] s0.snippets[j]).name
                                    == name@ && !s0.snippets[j].deleted;
                            assert(s0.snippets[j].name == s0.snippets[i as int].name);
                            assert(j == i as int);
                            assert(false);
                        }
                    }
                    assert(s0.snippets[i as int].id == i as int + 1);
                    assert(self@.snippets =~= save_snippet_tables(
                        s0,
                        name@,
                        content@,
                        t as int,
                    ).snippets);
                }
            },
            None => {
                let id = self.snippets.len() as i64 + 1;
                self.snippets.push(
                    SnippetRow {
                        id: id,
                        name: name.to_owned(),
                        content: content.to_owned(),
                        deleted: false,
                        last_updated: t,
                    },
                );
                sid = id;
                proof {
                    assert(!has_live_snippet_named(s0, name@)) by {
                        if has_live_snippet_named(s0, name@) {
                            let j = choose|j: int|
                                0 <= j < s0.snippets.len() && (#[trigger] s0.snippets[j]).name
                                    == name@ && !s0.snippets[j].deleted;
                            assert(has_snippet_named(s0, name@));
                            assert(false);
                        }
                    }
                    assert(self@.snippets =~= save_snippet_tables(
                        s0,
                        name@,
                        content@,
                        t as int,
                    ).snippets);
                }
            },
        }
        self.clock = t;
        proof {
            lemma_save_snippet_wf(s0, name@, content@, t as int);
            assert(self@ =~= with_clock(save_snippet_tables(s0, name@, content@, t as int), t as int));
            assert(sid as int == save_snippet_id(s0, name@));
        }
        match tags {
            Some(ts) => {
                proof {
                    assert(has_snippet(self@, sid as int));
                }
                self.add_tags_internal(sid, ts, t);
            },
            None => {
                proof {
                    assert(add_tags_tables(self@, sid as int, opt_tags_view(tags), t as int)
                        == self@);
                }
            },
        }
        Ok(sid)
    }

    /// The names of the tags this snippet currently carries: one per live
    /// association row, in storage order.
    fn collect_tags(&self, snippet_id: i64) -> (r: Vec<String>)
        requires
            wf(self@),
        ensures
            r.deep_view() == tags_of(self@, snippet_id as int),
    {
        let mut r: Vec<String> = Vec::new();
        let n = self.links.len();
        let mut j: usize = 0;
        proof {
            assert(r.deep_view() =~= live_tag_names(self@, snippet_id as int, self@.links.take(0)));
        }
        while j < n
            invariant
                wf(self@),
                n == self@.links.len(),
                0 <= j <= n,
                r.deep_view() == live_tag_names(
                    self@,
                    snippet_id as int,
                    self@.links.take(j as int),
                ),
            decreases n - j,
        {
            let ghost pre = r.deep_view();
            proof {
                assert(self@.links[j as int] == self.links@[j as int].deep_view());
                assert(1 <= self@.links[j as int].tag_id <= self@.tags.len());
            }
            if self.links[j].snippet_id == snippet_id && !self.links[j].deleted {
                let tid_e = self.links[j].tag_id;
                let tlen = self.tags.len();
                proof {
                    assert(tid_e as int == self@.links[j as int].tag_id);
                    assert(tlen == self@.tags.len());
                }
                let ti = (tid_e - 1) as usize;
                proof {
                    assert(self@.tags[ti as int] == self.tags@[ti as int].deep_view());
                }
                let nm = self.tags[ti].name.clone();
                let ghost nmv = nm@;
                let ghost rv0 = r@;
                proof {
                    assert(nmv == self@.tags[self@.links[j as int].tag_id - 1].name);
                }
                r.push(nm);
                proof {
                    assert(r@ == rv0.push(r@[rv0.len() as int]));
                    assert(r@[rv0.len() as int]@ == nmv);
                    assert forall|x: int| 0 <= x < pre.len() implies #[trigger] r.deep_view()[x]
                        == pre[x] by {
                        assert(r@[x] == rv0[x]);
                    }
                    assert(r.deep_view() =~= pre.push(
                        self@.tags[self@.links[j as int].tag_id - 1].name,
                    ));
                }
            }
            proof {
                assert(self@.links.take(j as int + 1).drop_last() =~= self@.links.take(j as int));
                assert(self@.links.take(j as int + 1).last() == self@.links[j as int]);
            }
            j += 1;
        }
        proof {
            assert(self@.links.take(n as int) =~= self@.links);
        }
        r
    }

    /// Read a snippet by id, with the tags it currently carries. Fails with
    /// `UnknownSnippetId` exactly when no live row has the id: a tombstoned
    /// snippet reads as missing.
    pub fn get_snippet(&self, snippet_id: i64) -> (r: Result<Snippet, StoreError>)
        requires
            wf(self@),
        ensures
            r is Ok <==> snippet_live(self@, snippet_id as int),
            r is Err ==> r == Err::<Snippet, StoreError>(StoreError::UnknownSnippetId),
            r matches Ok(sn) ==> sn@.id == snippet_id as int && sn@.name == self@.snippets[
                snippet_id - 1
            ].name && sn@.content == self@.snippets[snippet_id - 1].content && sn@.tags == tags_of(
                self@,
                snippet_id as int,
            ),
    {
        if snippet_id < 1 || snippet_id > self.snippets.len() as i64 {
            return Err(StoreError::UnknownSnippetId);
        }
        let i = (snippet_id - 1) as usize;
        if self.snippets[i].deleted {
            return Err(StoreError::UnknownSnippetId);
        }
        let tags = self.collect_tags(snippet_id);
        Ok(
            Snippet {
                id: snippet_id,
                name: self.snippets[i].name.clone(),
                content: self.snippets[i].content.clone(),
                tags: tags,
            },
        )
    }

    /// Tombstone a snippet and cascade the tombstone to all its association
    /// rows, restamping every row touched. Tag rows stay untouched. Fails
    /// with `UnknownSnippetId` exactly when no live row has the id.
    pub fn delete_snippet(&mut self, snippet_id: i64) -> (r: Result<(), StoreError>)
        requires
            wf(old(self)@),
            old(self)@.clock < i64::MAX,
        ensures
            r is Ok <==> snippet_live(old(self)@, snippet_id as int),
            r is Err ==> final(self)@ == old(self)@ && r == Err::<(), StoreError>(
                StoreError::UnknownSnippetId,
            ),
            r is Ok ==> old(self)@.clock < final(self)@.clock && wf(final(self)@) && final(self)@
                == with_clock(
                delete_snippet_tables(old(self)@, snippet_id as int, final(self)@.clock),
                final(self)@.clock,
            ),
    {
        if snippet_id < 1 || snippet_id > self.snippets.len() as i64 {
            return Err(StoreError::UnknownSnippetId);
        }
        let i = (snippet_id - 1) as usize;
        if self.snippets[i].deleted {
            return Err(StoreError::UnknownSnippetId);
        }
        let t = next_stamp(self.clock);
        let ghost s0 = self@;
        let ghost target = delete_snippet_tables(s0, snippet_id as int, t as int);
        self.snippets[i].deleted = true;
        self.snippets[i].last_updated = t;
        proof {
            assert(s0.snippets[i as int].id == i as int + 1);
            assert(self@.snippets =~= target.snippets);
        }
        let n = self.links.len();
        let mut j: usize = 0;
        while j < n
            invariant
                n == self@.links.len(),
                self@.links.len() == s0.links.len(),
                0 <= j <= n,
                self@.snippets == target.snippets,
                self@.tags == s0.tags,
                self@.meta == s0.meta,
                self@.clock == s0.clock,
                target == delete_snippet_tables(s0, snippet_id as int, t as int),
                forall|k: int| 0 <= k < j ==> #[trigger] self@.links[k] == target.links[k],
                forall|k: int| j <= k < n ==> #[trigger] self@.links[k] == s0.links[k],
            decreases n - j,
        {
            let ghost prev = self@;
            proof {
                assert(prev.links[j as int] == self.links@[j as int].deep_view());
                assert(prev.links[j as int] == s0.links[j as int]);
            }
            if self.links[j].snippet_id == snippet_id {
                self.links[j].deleted = true;
                self.links[j].last_updated = t;
            }
            proof {
                assert forall|k: int| 0 <= k < n && k != j as int implies #[trigger] self@.links[k]
                    == prev.links[k] by {
                    assert(self@.links[k] == self.links@[k].deep_view());
                }
                assert(self@.links[j as int] == self.links@[j as int].deep_view());
                assert(self@.links[j as int] == target.links[j as int]);
            }
            j += 1;
        }
        self.clock = t;
        proof {
            assert(self@.links =~= target.links);
            assert(self@ =~= with_clock(target, t as int));
            lemma_delete_wf(s0, snippet_id as int, t as int);
        }
        Ok(())
    }

    /// Rename a snippet in place and restamp it. Fails with
    /// `UnknownSnippetId` exactly when no live row has the id, and with
    /// `StorageFailure` exactly when another row, live or tombstoned,
    /// already holds the new name (the storage layer's uniqueness
    /// constraint on names spans tombstones).
    pub fn rename_snippet(&mut self, snippet_id: i64, name: &str) -> (r: Result<(), StoreError>)
        requires
            wf(old(self)@),
            old(self)@.clock < i64::MAX,
        ensures
            r is Ok <==> snippet_live(old(self)@, snippet_id as int) && !other_snippet_named(
                old(self)@,
                snippet_id as int,
                name@,
            ),
            r == Err::<(), StoreError>(StoreError::UnknownSnippetId) <==> !snippet_live(
                old(self)@,
                snippet_id as int,
            ),
            r == Err::<(), StoreError>(StoreError::StorageFailure) <==> snippet_live(
                old(self)@,
                snippet_id as int,
            ) && other_snippet_named(old(self)@, snippet_id as int, name@),
            r is Err ==> final(self)@ == old(self)@,
            r is Ok ==> old(self)@.clock < final(self)@.clock && wf(final(self)@) && final(self)@
                == with_clock(
                rename_snippet_tables(old(self)@, snippet_id as int, name@, final(self)@.clock),
                final(self)@.clock,
            ),
    {
        if snippet_id < 1 || snippet_id > self.snippets.len() as i64 {
            return Err(StoreError::UnknownSnippetId);
        }
        let i = (snippet_id - 1) as usize;
        if self.snippets[i].deleted {
            return Err(StoreError::UnknownSnippetId);
        }
        match self.find_snippet_by_name(name) {
            Some(k) => {
                if k != i {
                    proof {
                        assert(self@.snippets[k as int].name == name@);
                        assert(other_snippet_named(self@, snippet_id as int, name@));
                    }
                    return Err(StoreError::StorageFailure);
                }
                proof {
                    assert(!other_snippet_named(self@, snippet_id as int, name@)) by {
                        if other_snippet_named(self@, snippet_id as int, name@) {
                            let j = choose|j: int|
                                0 <= j < self@.snippets.len() && j != snippet_id - 1 && (
                                #[trigger] self@.snippets[j]).name == name@;
                            assert(self@.snippets[j].name == self@.snippets[i as int].name);
                            assert(false);
                        }
                    }
                }
            },
            None => {
                proof {
                    assert(!other_snippet_named(self@, snippet_id as int, name@)) by {
                        if other_snippet_named(self@, snippet_id as int, name@) {
                            let j = choose|j: int|
                                0 <= j < self@.snippets.len() && j != snippet_id - 1 && (
                                #[trigger] self@.snippets[j]).name == name@;
                            assert(has_snippet_named(self@, name@));
                            assert(false);
                        }
                    }
                }
            },
        }
        let t = next_stamp(self.clock);
        let ghost s0 = self@;
        self.snippets[i].name = name.to_owned();
        self.snippets[i].last_updated = t;
        self.clock = t;
        proof {
            assert(s0.snippets[i as int].id == i as int + 1);
            assert(self@.snippets =~= rename_snippet_tables(
                s0,
                snippet_id as int,
                name@,
                t as int,
            ).snippets);
            assert(self@ =~= with_clock(
                rename_snippet_tables(s0, snippet_id as int, name@, t as int),
                t as int,
            ));
            lemma_rename_wf(s0, snippet_id as int, name@, t as int);
        }
        Ok(())
    }

    /// Replace a snippet's content in place and restamp it. Fails with
    /// `UnknownSnippetId` exactly when no live row has the id.
    pub fn change_snippet_content(&mut self, snippet_id: i64, content: &str) -> (r: Result<
        (),
        StoreError,
    >)
        requires
            wf(old(self)@),
            old(self)@.clock < i64::MAX,
        ensures
            r is Ok <==> snippet_live(old(self)@, snippet_id as int),
            r is Err ==> final(self)@ == old(self)@ && r == Err::<(), StoreError>(
                StoreError::UnknownSnippetId,
            ),
            r is Ok ==> old(self)@.clock < final(self)@.clock && wf(final(self)@) && final(self)@
                == with_clock(
                change_content_tables(old(self)@, snippet_id as int, content@, final(self)@.clock),
                final(self)@.clock,
            ),
    {
        if snippet_id < 1 || snippet_id > self.snippets.len() as i64 {
            return Err(StoreError::UnknownSnippetId);
        }
        let i = (snippet_id - 1) as usize;
        if self.snippets[i].deleted {
            return Err(StoreError::UnknownSnippetId);
        }
        let t = next_stamp(self.clock);
        let ghost s0 = self@;
        self.snippets[i].content = content.to_owned();
        self.snippets[i].last_updated = t;
        self.clock = t;
        proof {
            assert(s0.snippets[i as int].id == i as int + 1);
            assert(self@.snippets =~= change_content_tables(
                s0,
                snippet_id as int,
                content@,
                t as int,
            ).snippets);
            assert(self@ =~= with_clock(
                change_content_tables(s0, snippet_id as int, content@, t as int),
                t as int,
            ));
            lemma_content_wf(s0, snippet_id as int, content@, t as int);
        }
        Ok(())
    }

    /// Detach tags from a snippet by name: every association row of the
    /// snippet whose tag's name is in the list is tombstoned and restamped.
    /// Tag rows stay untouched, since other snippets may carry them. Fails
    /// with `UnknownSnippetId` exactly when no snippet row has the id.
    pub fn remove_tags_by_name(&mut self, snippet_id: i64, tags: &Vec<String>) -> (r: Result<
        (),
        StoreError,
    >)
        requires
            wf(old(self)@),
            old(self)@.clock < i64::MAX,
        ensures
            r is Ok <==> has_snippet(old(self)@, snippet_id as int),
            r is Err ==> final(self)@ == old(self)@ && r == Err::<(), StoreError>(
                StoreError::UnknownSnippetId,
            ),
            r is Ok ==> old(self)@.clock < final(self)@.clock && wf(final(self)@) && final(self)@
                == with_clock(
                remove_tags_tables(
                    old(self)@,
                    snippet_id as int,
                    tags.deep_view(),
                    final(self)@.clock,
                ),
                final(self)@.clock,
            ),
    {
        if snippet_id < 1 || snippet_id > self.snippets.len() as i64 {
            return Err(StoreError::UnknownSnippetId);
        }
        let t = next_stamp(self.clock);
        let ghost s0 = self@;
        let ghost target = remove_tags_tables(s0, snippet_id as int, tags.deep_view(), t as int);
        let n = self.links.len();
        let mut j: usize = 0;
        while j < n
            invariant
                wf(s0),
                n == self@.links.len(),
                self@.links.len() == s0.links.len(),
                0 <= j <= n,
                self@.snippets == s0.snippets,
                self@.tags == s0.tags,
                self@.meta == s0.meta,
                self@.clock == s0.clock,
                target == remove_tags_tables(s0, snippet_id as int, tags.deep_view(), t as int),
                forall|k: int| 0 <= k < j ==> #[trigger] self@.links[k] == target.links[k],
                forall|k: int| j <= k < n ==> #[trigger] self@.links[k] == s0.links[k],
            decreases n - j,
        {
            let ghost prev = self@;
            proof {
                assert(prev.links[j as int] == self.links@[j as int].deep_view());
                assert(prev.links[j as int] == s0.links[j as int]);
                assert(1 <= s0.links[j as int].tag_id <= s0.tags.len());
            }
            if self.links[j].snippet_id == snippet_id {
                let tid_e = self.links[j].tag_id;
                let tlen = self.tags.len();
                proof {
                    assert(tid_e as int == prev.links[j as int].tag_id);
                    assert(tlen == self@.tags.len());
                }
                let ti = (tid_e - 1) as usize;
                proof {
                    assert(self@.tags[ti as int] == self.tags@[ti as int].deep_view());
                    assert(self@.tags[ti as int] == s0.tags[ti as int]);
                }
                let tn = self.tags[ti].name.as_str();
                proof {
                    assert(tn@ == s0.tags[s0.links[j as int].tag_id - 1].name);
                }
                if string_in_list(tags, tn) {
                    proof {
                        assert(tag_named_in(s0, s0.links[j as int].tag_id, tags.deep_view()));
                    }
                    self.links[j].deleted = true;
                    self.links[j].last_updated = t;
                } else {
                    proof {
                        assert(!tag_named_in(s0, s0.links[j as int].tag_id, tags.deep_view()));
                    }
                }
            }
            proof {
                assert forall|k: int| 0 <= k < n && k != j as int implies #[trigger] self@.links[k]
                    == prev.links[k] by {
                    assert(self@.links[k] == self.links@[k].deep_view());
                }
                assert(self@.links[j as int] == self.links@[j as int].deep_view());
                assert(self@.links[j as int] == target.links[j as int]);
            }
            j += 1;
        }
        self.clock = t;
        proof {
            assert(self@.links =~= target.links);
            assert(self@ =~= with_clock(target, t as int));
            lemma_remove_tags_wf(s0, snippet_id as int, tags.deep_view(), t as int);
        }
        Ok(())
    }

    /// Does the snippet carry, through a live association row, a tag whose
    /// name contains `g`?
    fn carries_tag(&self, snippet_id: i64, g: &str) -> (b: bool)
        requires
            wf(self@),
        ensures
            b == snippet_carries(self@, snippet_id as int, g@),
    {
        let n = self.links.len();
        let mut i: usize = 0;
        while i < n
            invariant
                wf(self@),
                n == self@.links.len(),
                0 <= i <= n,
                forall|j: int|
                    0 <= j < i ==> !((#[trigger] self@.links[j]).snippet_id == snippet_id as int
                        && !self@.links[j].deleted && contains_sub(
                        self@.tags[self@.links[j].tag_id - 1].name,
                        g@,
                    )),
            decreases n - i,
        {
            proof {
                assert(self@.links[i as int] == self.links@[i as int].deep_view());
            }
            if self.links[i].snippet_id == snippet_id && !self.links[i].deleted {
                let tid_e = self.links[i].tag_id;
                let tlen = self.tags.len();
                proof {
                    assert(tid_e as int == self@.links[i as int].tag_id);
                    assert(tlen == self@.tags.len());
                }
                let ti = (tid_e - 1) as usize;
                proof {
                    assert(self@.tags[ti as int] == self.tags@[ti as int].deep_view());
                }
                if contains_substr(self.tags[ti].name.as_str(), g) {
                    proof {
                        assert((#[trigger] self@.links[i as int]).snippet_id == snippet_id as int
                            && !self@.links[i as int].deleted && contains_sub(
                            self@.tags[self@.links[i as int].tag_id - 1].name,
                            g@,
                        ));
                    }
                    return true;
                }
            }
            i += 1;
        }
        false
    }

    /// Does the snippet carry every tag in the list?
    fn tags_all_match(&self, snippet_id: i64, gs: &Vec<String>) -> (b: bool)
        requires
            wf(self@),
        ensures
            b == all_tags_carried(self@, snippet_id as int, gs.deep_view()),
    {
        let n = gs.len();
        let mut k: usize = 0;
        while k < n
            invariant
                wf(self@),
                n == gs@.len(),
                0 <= k <= n,
                forall|x: int|
                    0 <= x < k ==> snippet_carries(
                        self@,
                        snippet_id as int,
                        #[trigger] gs.deep_view()[x],
                    ),
            decreases n - k,
        {
            let hit = self.carries_tag(snippet_id, gs[k].as_str());
            proof {
                assert(gs.deep_view().len() == gs@.len());
                assert(gs.deep_view()[k as int] == gs@[k as int]@);
            }
            if !hit {
                proof {
                    assert(!all_tags_carried(self@, snippet_id as int, gs.deep_view())) by {
                        if all_tags_carried(self@, snippet_id as int, gs.deep_view()) {
                            assert(snippet_carries(
                                self@,
                                snippet_id as int,
                                gs.deep_view()[k as int],
                            ));
                            assert(false);
                        }
                    }
                }
                return false;
            }
            k += 1;
        }
        proof {
            assert(gs.deep_view().len() == gs@.len());
            assert(all_tags_carried(self@, snippet_id as int, gs.deep_view()));
        }
        true
    }

    /// Search the live snippets: no filters returns them all; a name filter
    /// keeps those whose name contains it; a tag filter keeps those that
    /// carry every listed tag (substring match on tag names); when both are
    /// given, both must pass. Results come in storage (ascending id) order,
    /// each with the tags it currently carries.
    pub fn search_snippets(&self, name: Option<&str>, tags: Option<&Vec<String>>) -> (r: Vec<
        Snippet,
    >)
        requires
            wf(self@),
        ensures
            r.deep_view() == search_spec(self@, name_filter_view(name), tag_filter_view(tags)),
    {
        let ghost nf = name_filter_view(name);
        let ghost tf = tag_filter_view(tags);
        let mut out: Vec<Snippet> = Vec::new();
        let n = self.snippets.len();
        let mut i: usize = 0;
        proof {
            assert(out.deep_view() =~= search_results(self@, 0, nf, tf));
        }
        while i < n
            invariant
                wf(self@),
                n == self@.snippets.len(),
                0 <= i <= n,
                nf == name_filter_view(name),
                tf == tag_filter_view(tags),
                out.deep_view() == search_results(self@, i as int, nf, tf),
            decreases n - i,
        {
            proof {
                assert(self@.snippets[i as int] == self.snippets@[i as int].deep_view());
            }
            let sid = i as i64 + 1;
            let row_deleted = self.snippets[i].deleted;
            proof {
                assert(row_deleted == self@.snippets[i as int].deleted);
            }
            let name_ok = match name {
                None => true,
                Some(f) => contains_substr(self.snippets[i].name.as_str(), f),
            };
            proof {
                assert(name_ok == name_matches(self@.snippets[i as int], nf));
            }
            let tags_ok = match tags {
                None => true,
                Some(gs) => {
                    let b = self.tags_all_match(sid, gs);
                    proof {
                        assert(tf == Some(gs.deep_view()));
                        assert(sid as int == i as int + 1);
                        assert(tags_match(self@, i as int + 1, tf) == all_tags_carried(
                            self@,
                            i as int + 1,
                            gs.deep_view(),
                        ));
                    }
                    b
                },
            };
            proof {
                assert(tags_ok == tags_match(self@, i as int + 1, tf));
            }
            let m = !row_deleted && name_ok && tags_ok;
            proof {
                assert(m == search_matches(self@, i as int, nf, tf));
            }
            if m {
                let sn = Snippet {
                    id: sid,
                    name: self.snippets[i].name.clone(),
                    content: self.snippets[i].content.clone(),
                    tags: self.collect_tags(sid),
                };
                let ghost pre = out.deep_view();
                let ghost ov0 = out@;
                proof {
                    assert(sn@ =~= snippet_view_of(self@, i as int + 1));
                }
                out.push(sn);
                proof {
                    assert forall|x: int| 0 <= x < pre.len() implies #[trigger] out.deep_view()[x]
                        == pre[x] by {
                        assert(out@[x] == ov0[x]);
                    }
                    assert(out@[ov0.len() as int]@ =~= snippet_view_of(self@, i as int + 1));
                    assert(out.deep_view() =~= pre.push(snippet_view_of(self@, i as int + 1)));
                }
            }
            proof {
                assert(out.deep_view() == search_results(self@, i as int + 1, nf, tf));
            }
            i += 1;
        }
        proof {
            assert(search_spec(self@, nf, tf) == search_results(self@, n as int, nf, tf));
        }
        out
    }

    /// The delta one sync attempt pushes: every row of the three tables
    /// whose stamp exceeds the watermark, each table in storage order.
    /// Extraction is a pure function of the store and the watermark, so a
    /// retry after a failed attempt resends the identical delta.
    pub fn get_sync_data(&self, last_synced: i64) -> (r: SyncData)
        requires
            wf(self@),
        ensures
            r.0.deep_view() == snippets_after(self@.snippets, last_synced as int),
            r.1.deep_view() == tags_after(self@.tags, last_synced as int),
            r.2.deep_view() == links_after(self@.links, last_synced as int),
    {
        let ghost w = last_synced as int;
        let mut sn: Vec<SnippetRow> = Vec::new();
        let mut j: usize = 0;
        let n0 = self.snippets.len();
        proof {
            assert(sn.deep_view() =~= snippets_after(self@.snippets.take(0), w));
        }
        while j < n0
            invariant
                wf(self@),
                n0 == self@.snippets.len(),
                0 <= j <= n0,
                w == last_synced as int,
                sn.deep_view() == snippets_after(self@.snippets.take(j as int), w),
            decreases n0 - j,
        {
            let ghost pre = sn.deep_view();
            proof {
                assert(self@.snippets[j as int] == self.snippets@[j as int].deep_view());
            }
            if self.snippets[j].last_updated > last_synced {
                let r0 = &self.snippets[j];
                let row = SnippetRow {
                    id: r0.id,
                    name: r0.name.clone(),
                    content: r0.content.clone(),
                    deleted: r0.deleted,
                    last_updated: r0.last_updated,
                };
                let ghost sv0 = sn@;
                proof {
                    assert(row@ =~= self@.snippets[j as int]);
                }
                sn.push(row);
                proof {
                    assert forall|x: int| 0 <= x < pre.len() implies #[trigger] sn.deep_view()[x]
                        == pre[x] by {
                        assert(sn@[x] == sv0[x]);
                    }
                    assert(sn.deep_view() =~= pre.push(self@.snippets[j as int]));
                }
            }
            proof {
                assert(self@.snippets.take(j as int + 1).drop_last() =~= self@.snippets.take(
                    j as int,
                ));
                assert(self@.snippets.take(j as int + 1).last() == self@.snippets[j as int]);
            }
            j += 1;
        }
        proof {
            assert(self@.snippets.take(n0 as int) =~= self@.snippets);
        }
        let mut tg: Vec<TagRow> = Vec::new();
        let n1 = self.tags.len();
        j = 0;
        proof {
            assert(tg.deep_view() =~= tags_after(self@.tags.take(0), w));
        }
        while j < n1
            invariant
                wf(self@),
                n1 == self@.tags.len(),
                0 <= j <= n1,
                w == last_synced as int,
                tg.deep_view() == tags_after(self@.tags.take(j as int), w),
            decreases n1 - j,
        {
            let ghost pre = tg.deep_view();
            proof {
                assert(self@.tags[j as int] == self.tags@[j as int].deep_view());
            }
            if self.tags[j].last_updated > last_synced {
                let r0 = &self.tags[j];
                let row = TagRow {
                    id: r0.id,
                    name: r0.name.clone(),
                    deleted: r0.deleted,
                    last_updated: r0.last_updated,
                };
                let ghost tv0 = tg@;
                proof {
                    assert(row@ =~= self@.tags[j as int]);
                }
                tg.push(row);
                proof {
                    assert forall|x: int| 0 <= x < pre.len() implies #[trigger] tg.deep_view()[x]
                        == pre[x] by {
                        assert(tg@[x] == tv0[x]);
                    }
                    assert(tg.deep_view() =~= pre.push(self@.tags[j as int]));
                }
            }
            proof {
                assert(self@.tags.take(j as int + 1).drop_last() =~= self@.tags.take(j as int));
                assert(self@.tags.take(j as int + 1).last() == self@.tags[j as int]);
            }
            j += 1;
        }
        proof {
            assert(self@.tags.take(n1 as int) =~= self@.tags);
        }
        let mut st: Vec<SnippetTagRow> = Vec::new();
        let n2 = self.links.len();
        j = 0;
        proof {
            assert(st.deep_view() =~= links_after(self@.links.take(0), w));
        }
        while j < n2
            invariant
                wf(self@),
                n2 == self@.links.len(),
                0 <= j <= n2,
                w == last_synced as int,
                st.deep_view() == links_after(self@.links.take(j as int), w),
            decreases n2 - j,
        {
            let ghost pre = st.deep_view();
            proof {
                assert(self@.links[j as int] == self.links@[j as int].deep_view());
            }
            if self.links[j].last_updated > last_synced {
                let r0 = &self.links[j];
                let row = SnippetTagRow {
                    id: r0.id,
                    snippet_id: r0.snippet_id,
                    tag_id: r0.tag_id,
                    deleted: r0.deleted,
                    last_updated: r0.last_updated,
                };
                let ghost lv0 = st@;
                proof {
                    assert(row@ =~= self@.links[j as int]);
                }
                st.push(row);
                proof {
                    assert forall|x: int| 0 <= x < pre.len() implies #[trigger] st.deep_view()[x]
                        == pre[x] by {
                        assert(st@[x] == lv0[x]);
                    }
                    assert(st.deep_view() =~= pre.push(self@.links[j as int]));
                }
            }
            proof {
                assert(self@.links.take(j as int + 1).drop_last() =~= self@.links.take(j as int));
                assert(self@.links.take(j as int + 1).last() == self@.links[j as int]);
            }
            j += 1;
        }
        proof {
            assert(self@.links.take(n2 as int) =~= self@.links);
        }
        (sn, tg, st)
    }

    /// The watermark to persist after the peer acknowledges this delta:
    /// the store's clock (every row is stamped at most there), and never
    /// behind the watermark synced from.
    pub fn next_watermark(&self, last_synced: i64) -> (w: i64)
        requires
            wf(self@),
        ensures
            w as int == advanced_watermark(self@, last_synced as int),
            w >= last_synced,
    {
        if self.clock > last_synced {
            self.clock
        } else {
            last_synced
        }
    }

    /// The metadata table as rows, for persistence.
    pub fn metadata_rows(&self) -> (r: Vec<MetaRow>)
        ensures
            r.deep_view() == self@.meta,
    {
        let mut r: Vec<MetaRow> = Vec::new();
        let n = self.meta.len();
        let mut i: usize = 0;
        proof {
            assert(r.deep_view() =~= self@.meta.take(0));
        }
        while i < n
            invariant
                n == self@.meta.len(),
                0 <= i <= n,
                r.deep_view() == self@.meta.take(i as int),
            decreases n - i,
        {
            let ghost pre = r.deep_view();
            let ghost rv0 = r@;
            proof {
                assert(self@.meta[i as int] == self.meta@[i as int].deep_view());
            }
            let row = MetaRow { key: self.meta[i].key.clone(), value: self.meta[i].value.clone() };
            proof {
                assert(row@ =~= self@.meta[i as int]);
            }
            r.push(row);
            proof {
                assert forall|x: int| 0 <= x < pre.len() implies #[trigger] r.deep_view()[x]
                    == pre[x] by {
                    assert(r@[x] == rv0[x]);
                }
                assert(r.deep_view() =~= pre.push(self@.meta[i as int]));
                assert(self@.meta.take(i as int + 1).drop_last() =~= self@.meta.take(i as int));
                assert(self@.meta.take(i as int + 1) =~= self@.meta.take(i as int).push(
                    self@.meta[i as int],
                ));
            }
            i += 1;
        }
        proof {
            assert(self@.meta.take(n as int) =~= self@.meta);
        }
        r
    }

    /// Can the store still take a mutation that may add one snippet row
    /// and up to `extra_tags` tag and association rows? False only at the
    /// machine limits that the mutating operations require headroom under.
    pub fn has_capacity(&self, extra_tags: usize) -> (b: bool)
        ensures
            b == (self@.clock < i64::MAX && self@.snippets.len() < i64::MAX && self@.tags.len()
                + extra_tags as int <= i64::MAX && self@.links.len() + extra_tags as int
                <= i64::MAX),
    {
        let e = extra_tags as u64;
        let max = i64::MAX as u64;
        let tl = self.tags.len() as u64;
        let ll = self.links.len() as u64;
        self.clock < i64::MAX && (self.snippets.len() as u64) < max && tl <= max && e <= max - tl
            && ll <= max && e <= max - ll
    }

    /// Rebuild a store from persisted rows, validating everything the
    /// invariant demands: positional ids, name and pair uniqueness, link
    /// references, non-negative stamps, and unique metadata keys with the
    /// watermark seeded. Rows that violate any of it are a corrupt store
    /// and fail with `StorageFailure`; the clock resumes from the largest
    /// stamp present.
    pub fn from_rows(
        snippets: Vec<SnippetRow>,
        tags: Vec<TagRow>,
        links: Vec<SnippetTagRow>,
        meta: Vec<MetaRow>,
    ) -> (r: Result<Store, StoreError>)
        ensures
            r is Ok <==> tables_wf(
                snippets.deep_view(),
                tags.deep_view(),
                links.deep_view(),
                meta.deep_view(),
            ),
            r matches Ok(st) ==> st@ == (StoreV {
                snippets: snippets.deep_view(),
                tags: tags.deep_view(),
                links: links.deep_view(),
                meta: meta.deep_view(),
                clock: tables_max_stamp(snippets.deep_view(), tags.deep_view(), links.deep_view()),
            }) && wf(st@),
            r is Err ==> r == Err::<Store, StoreError>(StoreError::StorageFailure),
    {
        let ghost sdv = snippets.deep_view();
        let ghost gdv = tags.deep_view();
        let ghost ldv = links.deep_view();
        let ghost mdv = meta.deep_view();
        if snippets.len() as u64 > i64::MAX as u64 || tags.len() as u64 > i64::MAX as u64
            || links.len() as u64 > i64::MAX as u64 {
            return Err(StoreError::StorageFailure);
        }
        let n_snippets = snippets.len() as i64;
        let n_tags = tags.len() as i64;
        if !check_snippet_ids(&snippets) || !check_tag_ids(&tags) || !check_link_ids(&links) {
            return Err(StoreError::StorageFailure);
        }
        if !check_snippet_names(&snippets) || !check_tag_names(&tags) || !check_link_pairs(&links) {
            return Err(StoreError::StorageFailure);
        }
        if !check_links_fk(&links, n_snippets, n_tags) {
            return Err(StoreError::StorageFailure);
        }
        let (sn_ok, sn_max) = scan_snippet_stamps(&snippets);
        let (tg_ok, tg_max) = scan_tag_stamps(&tags);
        let (st_ok, st_max) = scan_link_stamps(&links);
        if !sn_ok || !tg_ok || !st_ok {
            return Err(StoreError::StorageFailure);
        }
        if !check_meta(&meta) {
            return Err(StoreError::StorageFailure);
        }
        let clock = if sn_max >= tg_max && sn_max >= st_max {
            sn_max
        } else if tg_max >= st_max {
            tg_max
        } else {
            st_max
        };
        proof {
            assert(tables_wf(sdv, gdv, ldv, mdv));
            assert(clock as int == tables_max_stamp(sdv, gdv, ldv));
            lemma_tables_wf_store(sdv, gdv, ldv, mdv);
        }
        let st = Store { snippets, tags, links, meta, clock };
        proof {
            assert(st@ =~= StoreV { snippets: sdv, tags: gdv, links: ldv, meta: mdv, clock: clock as int });
        }
        Ok(st)
    }
}

/// The tag names handed to create-or-resurrect, as a sequence: empty when
/// none were given.
pub open spec fn opt_tags_view(tags: Option<&Vec<String>>) -> Seq<Seq<char>> {
    match tags {
        Some(ts) => ts.deep_view(),
        None => Seq::empty(),
    }
}


/// Do the snippet rows carry ids matching their positions?
fn check_snippet_ids(rows: &Vec<SnippetRow>) -> (b: bool)
    requires
        rows@.len() <= i64::MAX,
    ensures
        b == snippet_ids_ok(rows.deep_view()),
{
    let n = rows.len();
    let mut i: usize = 0;
    while i < n
        invariant
            n == rows@.len(),
            n <= i64::MAX,
            0 <= i <= n,
            forall|j: int| 0 <= j < i ==> (#[trigger] rows.deep_view()[j]).id == j + 1,
        decreases n - i,
    {
        proof {
            assert(rows.deep_view()[i as int] == rows@[i as int]@);
        }
        if rows[i].id != i as i64 + 1 {
            proof {
                assert(!snippet_ids_ok(rows.deep_view())) by {
                    if snippet_ids_ok(rows.deep_view()) {
                        assert(rows.deep_view()[i as int].id == i as int + 1);
                        assert(false);
                    }
                }
            }
            return false;
        }
        i += 1;
    }
    true
}

/// Do the tag rows carry ids matching their positions?
fn check_tag_ids(rows: &Vec<TagRow>) -> (b: bool)
    requires
        rows@.len() <= i64::MAX,
    ensures
        b == tag_ids_ok(rows.deep_view()),
{
    let n = rows.len();
    let mut i: usize = 0;
    while i < n
        invariant
            n == rows@.len(),
            n <= i64::MAX,
            0 <= i <= n,
            forall|j: int| 0 <= j < i ==> (#[trigger] rows.deep_view()[j]).id == j + 1,
        decreases n - i,
    {
        proof {
            assert(rows.deep_view()[i as int] == rows@[i as int]@);
        }
        if rows[i].id != i as i64 + 1 {
            proof {
                assert(!tag_ids_ok(rows.deep_view())) by {
                    if tag_ids_ok(rows.deep_view()) {
                        assert(rows.deep_view()[i as int].id == i as int + 1);
                        assert(false);
                    }
                }
            }
            return false;
        }
        i += 1;
    }
    true
}

/// Do the association rows carry ids matching their positions?
fn check_link_ids(rows: &Vec<SnippetTagRow>) -> (b: bool)
    requires
        rows@.len() <= i64::MAX,
    ensures
        b == link_ids_ok(rows.deep_view()),
{
    let n = rows.len();
    let mut i: usize = 0;
    while i < n
        invariant
            n == rows@.len(),
            n <= i64::MAX,
            0 <= i <= n,
            forall|j: int| 0 <= j < i ==> (#[trigger] rows.deep_view()[j]).id == j + 1,
        decreases n - i,
    {
        proof {
            assert(rows.deep_view()[i as int] == rows@[i as int]@);
        }
        if rows[i].id != i as i64 + 1 {
            proof {
                assert(!link_ids_ok(rows.deep_view())) by {
                    if link_ids_ok(rows.deep_view()) {
                        assert(rows.deep_view()[i as int].id == i as int + 1);
                        assert(false);
                    }
                }
            }
            return false;
        }
        i += 1;
    }
    true
}

/// Are the snippet names pairwise distinct?
fn check_snippet_names(rows: &Vec<SnippetRow>) -> (b: bool)
    ensures
        b == snippet_names_unique(rows.deep_view()),
{
    let ghost dv = rows.deep_view();
    let n = rows.len();
    let mut i: usize = 0;
    while i < n
        invariant
            n == rows@.len(),
            dv == rows.deep_view(),
            0 <= i <= n,
            forall|x: int, y: int|
                0 <= x < y < i ==> (#[trigger] dv[x]).name != (#[trigger] dv[y]).name,
        decreases n - i,
    {
        let mut j: usize = 0;
        while j < i
            invariant
                n == rows@.len(),
                dv == rows.deep_view(),
                0 <= j <= i < n,
                forall|y: int| 0 <= y < j ==> (#[trigger] dv[y]).name != dv[i as int].name,
            decreases i - j,
        {
            proof {
                assert(dv[j as int] == rows@[j as int]@);
                assert(dv[i as int] == rows@[i as int]@);
            }
            if str_eq(rows[j].name.as_str(), rows[i].name.as_str()) {
                proof {
                    assert(dv[j as int].name == dv[i as int].name);
                    assert(!snippet_names_unique(dv)) by {
                        if snippet_names_unique(dv) {
                            assert(dv[j as int].name != dv[i as int].name);
                            assert(false);
                        }
                    }
                }
                return false;
            }
            j += 1;
        }
        proof {
            assert forall|x: int, y: int|
                0 <= x < y < i + 1 implies (#[trigger] dv[x]).name != (#[trigger] dv[y]).name by {
                if y < i {
                } else {
                    assert(dv[x].name != dv[i as int].name);
                }
            }
        }
        i += 1;
    }
    proof {
        assert forall|x: int, y: int|
            0 <= x < dv.len() && 0 <= y < dv.len() && x != y implies (#[trigger] dv[x]).name != (
        #[trigger] dv[y]).name by {
            if x < y {
            } else {
            }
        }
    }
    true
}

/// Are the tag names pairwise distinct?
fn check_tag_names(rows: &Vec<TagRow>) -> (b: bool)
    ensures
        b == tag_names_unique(rows.deep_view()),
{
    let ghost dv = rows.deep_view();
    let n = rows.len();
    let mut i: usize = 0;
    while i < n
        invariant
            n == rows@.len(),
            dv == rows.deep_view(),
            0 <= i <= n,
            forall|x: int, y: int|
                0 <= x < y < i ==> (#[trigger] dv[x]).name != (#[trigger] dv[y]).name,
        decreases n - i,
    {
        let mut j: usize = 0;
        while j < i
            invariant
                n == rows@.len(),
                dv == rows.deep_view(),
                0 <= j <= i < n,
                forall|y: int| 0 <= y < j ==> (#[trigger] dv[y]).name != dv[i as int].name,
            decreases i - j,
        {
            proof {
                assert(dv[j as int] == rows@[j as int]@);
                assert(dv[i as int] == rows@[i as int]@);
            }
            if str_eq(rows[j].name.as_str(), rows[i].name.as_str()) {
                proof {
                    assert(dv[j as int].name == dv[i as int].name);
                    assert(!tag_names_unique(dv)) by {
                        if tag_names_unique(dv) {
                            assert(dv[j as int].name != dv[i as int].name);
                            assert(false);
                        }
                    }
                }
                return false;
            }
            j += 1;
        }
        proof {
            assert forall|x: int, y: int|
                0 <= x < y < i + 1 implies (#[trigger] dv[x]).name != (#[trigger] dv[y]).name by {
                if y < i {
                } else {
                    assert(dv[x].name != dv[i as int].name);
                }
            }
        }
        i += 1;
    }
    proof {
        assert forall|x: int, y: int|
            0 <= x < dv.len() && 0 <= y < dv.len() && x != y implies (#[trigger] dv[x]).name != (
        #[trigger] dv[y]).name by {
            if x < y {
            } else {
            }
        }
    }
    true
}

/// Is there at most one association row per `(snippet_id, tag_id)` pair?
fn check_link_pairs(rows: &Vec<SnippetTagRow>) -> (b: bool)
    ensures
        b == link_pairs_unique(rows.deep_view()),
{
    let ghost dv = rows.deep_view();
    let n = rows.len();
    let mut i: usize = 0;
    while i < n
        invariant
            n == rows@.len(),
            dv == rows.deep_view(),
            0 <= i <= n,
            forall|x: int, y: int|
                0 <= x < y < i ==> !((#[trigger] dv[x]).snippet_id == (#[trigger] dv[y]).snippet_id
                    && dv[x].tag_id == dv[y].tag_id),
        decreases n - i,
    {
        let mut j: usize = 0;
        while j < i
            invariant
                n == rows@.len(),
                dv == rows.deep_view(),
                0 <= j <= i < n,
                forall|y: int|
                    0 <= y < j ==> !((#[trigger] dv[y]).snippet_id == dv[i as int].snippet_id
                        && dv[y].tag_id == dv[i as int].tag_id),
            decreases i - j,
        {
            proof {
                assert(dv[j as int] == rows@[j as int]@);
                assert(dv[i as int] == rows@[i as int]@);
            }
            if rows[j].snippet_id == rows[i].snippet_id && rows[j].tag_id == rows[i].tag_id {
                proof {
                    assert(!link_pairs_unique(dv)) by {
                        if link_pairs_unique(dv) {
                            assert(!(dv[j as int].snippet_id == dv[i as int].snippet_id && dv[
                                j as int
                            ].tag_id == dv[i as int].tag_id));
                            assert(false);
                        }
                    }
                }
                return false;
            }
            j += 1;
        }
        proof {
            assert forall|x: int, y: int|
                0 <= x < y < i + 1 implies !((#[trigger] dv[x]).snippet_id == (
            #[trigger] dv[y]).snippet_id && dv[x].tag_id == dv[y].tag_id) by {
                if y < i {
                } else {
                    assert(!(dv[x].snippet_id == dv[i as int].snippet_id && dv[x].tag_id == dv[
                        i as int
                    ].tag_id));
                }
            }
        }
        i += 1;
    }
    proof {
        assert forall|x: int, y: int|
            0 <= x < dv.len() && 0 <= y < dv.len() && x != y implies !((
        #[trigger] dv[x]).snippet_id == (#[trigger] dv[y]).snippet_id && dv[x].tag_id
            == dv[y].tag_id) by {
            if x < y {
            } else {
            }
        }
    }
    true
}

/// Does every association row point inside the two tables?
fn check_links_fk(rows: &Vec<SnippetTagRow>, n_snippets: i64, n_tags: i64) -> (b: bool)
    ensures
        b == links_fk_ok(rows.deep_view(), n_snippets as int, n_tags as int),
{
    let ghost dv = rows.deep_view();
    let n = rows.len();
    let mut i: usize = 0;
    while i < n
        invariant
            n == rows@.len(),
            dv == rows.deep_view(),
            0 <= i <= n,
            forall|j: int|
                0 <= j < i ==> 1 <= (#[trigger] dv[j]).snippet_id <= n_snippets as int && 1 <= dv[
                    j
                ].tag_id <= n_tags as int,
        decreases n - i,
    {
        proof {
            assert(dv[i as int] == rows@[i as int]@);
        }
        if rows[i].snippet_id < 1 || rows[i].snippet_id > n_snippets || rows[i].tag_id < 1
            || rows[i].tag_id > n_tags {
            proof {
                assert(!links_fk_ok(dv, n_snippets as int, n_tags as int)) by {
                    if links_fk_ok(dv, n_snippets as int, n_tags as int) {
                        assert(1 <= dv[i as int].snippet_id <= n_snippets as int && 1 <= dv[
                            i as int
                        ].tag_id <= n_tags as int);
                        assert(false);
                    }
                }
            }
            return false;
        }
        i += 1;
    }
    true
}

/// Are all snippet stamps at least zero, and what is the largest?
fn scan_snippet_stamps(rows: &Vec<SnippetRow>) -> (r: (bool, i64))
    ensures
        r.0 == snippet_stamps_nonneg(rows.deep_view()),
        r.1 as int == max_snippet_stamp(rows.deep_view()),
{
    let ghost dv = rows.deep_view();
    let n = rows.len();
    let mut ok = true;
    let mut m: i64 = 0;
    let mut i: usize = 0;
    proof {
        assert(dv.take(0) =~= Seq::<SnippetRowV>::empty());
    }
    while i < n
        invariant
            n == rows@.len(),
            dv == rows.deep_view(),
            0 <= i <= n,
            ok == (forall|j: int| 0 <= j < i ==> (#[trigger] dv[j]).last_updated >= 0),
            m as int == max_snippet_stamp(dv.take(i as int)),
        decreases n - i,
    {
        proof {
            assert(dv[i as int] == rows@[i as int]@);
            assert(dv.take(i as int + 1).drop_last() =~= dv.take(i as int));
            assert(dv.take(i as int + 1).last() == dv[i as int]);
        }
        let ghost ok0 = ok;
        if rows[i].last_updated < 0 {
            ok = false;
        }
        proof {
            assert(ok == (forall|j: int| 0 <= j < i + 1 ==> (#[trigger] dv[j]).last_updated >= 0))
                by {
                if ok {
                    assert forall|j: int| 0 <= j < i + 1 implies (#[trigger] dv[j]).last_updated
                        >= 0 by {}
                } else {
                    if ok0 {
                        assert(dv[i as int].last_updated < 0);
                    } else {
                        let j0 = choose|j: int| !(0 <= j < i ==> (#[trigger] dv[j]).last_updated >= 0);
                        assert(0 <= j0 < i + 1 && dv[j0].last_updated < 0);
                    }
                }
            }
        }
        if rows[i].last_updated > m {
            m = rows[i].last_updated;
        }
        i += 1;
    }
    proof {
        assert(dv.take(n as int) =~= dv);
    }
    (ok, m)
}

/// Are all tag stamps at least zero, and what is the largest?
fn scan_tag_stamps(rows: &Vec<TagRow>) -> (r: (bool, i64))
    ensures
        r.0 == tag_stamps_nonneg(rows.deep_view()),
        r.1 as int == max_tag_stamp(rows.deep_view()),
{
    let ghost dv = rows.deep_view();
    let n = rows.len();
    let mut ok = true;
    let mut m: i64 = 0;
    let mut i: usize = 0;
    proof {
        assert(dv.take(0) =~= Seq::<TagRowV>::empty());
    }
    while i < n
        invariant
            n == rows@.len(),
            dv == rows.deep_view(),
            0 <= i <= n,
            ok == (forall|j: int| 0 <= j < i ==> (#[trigger] dv[j]).last_updated >= 0),
            m as int == max_tag_stamp(dv.take(i as int)),
        decreases n - i,
    {
        proof {
            assert(dv[i as int] == rows@[i as int]@);
            assert(dv.take(i as int + 1).drop_last() =~= dv.take(i as int));
            assert(dv.take(i as int + 1).last() == dv[i as int]);
        }
        let ghost ok0 = ok;
        if rows[i].last_updated < 0 {
            ok = false;
        }
        proof {
            assert(ok == (forall|j: int| 0 <= j < i + 1 ==> (#[trigger] dv[j]).last_updated >= 0))
                by {
                if ok {
                    assert forall|j: int| 0 <= j < i + 1 implies (#[trigger] dv[j]).last_updated
                        >= 0 by {}
                } else {
                    if ok0 {
                        assert(dv[i as int].last_updated < 0);
                    } else {
                        let j0 = choose|j: int| !(0 <= j < i ==> (#[trigger] dv[j]).last_updated >= 0);
                        assert(0 <= j0 < i + 1 && dv[j0].last_updated < 0);
                    }
                }
            }
        }
        if rows[i].last_updated > m {
            m = rows[i].last_updated;
        }
        i += 1;
    }
    proof {
        assert(dv.take(n as int) =~= dv);
    }
    (ok, m)
}

/// Are all association stamps at least zero, and what is the largest?
fn scan_link_stamps(rows: &Vec<SnippetTagRow>) -> (r: (bool, i64))
    ensures
        r.0 == link_stamps_nonneg(rows.deep_view()),
        r.1 as int == max_link_stamp(rows.deep_view()),
{
    let ghost dv = rows.deep_view();
    let n = rows.len();
    let mut ok = true;
    let mut m: i64 = 0;
    let mut i: usize = 0;
    proof {
        assert(dv.take(0) =~= Seq::<SnippetTagRowV>::empty());
    }
    while i < n
        invariant
            n == rows@.len(),
            dv == rows.deep_view(),
            0 <= i <= n,
            ok == (forall|j: int| 0 <= j < i ==> (#[trigger] dv[j]).last_updated >= 0),
            m as int == max_link_stamp(dv.take(i as int)),
        decreases n - i,
    {
        proof {
            assert(dv[i as int] == rows@[i as int]@);
            assert(dv.take(i as int + 1).drop_last() =~= dv.take(i as int));
            assert(dv.take(i as int + 1).last() == dv[i as int]);
        }
        let ghost ok0 = ok;
        if rows[i].last_updated < 0 {
            ok = false;
        }
        proof {
            assert(ok == (forall|j: int| 0 <= j < i + 1 ==> (#[trigger] dv[j]).last_updated >= 0))
                by {
                if ok {
                    assert forall|j: int| 0 <= j < i + 1 implies (#[trigger] dv[j]).last_updated
                        >= 0 by {}
                } else {
                    if ok0 {
                        assert(dv[i as int].last_updated < 0);
                    } else {
                        let j0 = choose|j: int| !(0 <= j < i ==> (#[trigger] dv[j]).last_updated >= 0);
                        assert(0 <= j0 < i + 1 && dv[j0].last_updated < 0);
                    }
                }
            }
        }
        if rows[i].last_updated > m {
            m = rows[i].last_updated;
        }
        i += 1;
    }
    proof {
        assert(dv.take(n as int) =~= dv);
    }
    (ok, m)
}

/// Are the metadata keys pairwise distinct, with the watermark key seeded?
fn check_meta(meta: &Vec<MetaRow>) -> (b: bool)
    ensures
        b == meta_ok(meta.deep_view()),
{
    let ghost dv = meta.deep_view();
    let n = meta.len();
    let mut i: usize = 0;
    while i < n
        invariant
            n == meta@.len(),
            dv == meta.deep_view(),
            0 <= i <= n,
            forall|x: int, y: int|
                0 <= x < y < i ==> (#[trigger] dv[x]).key != (#[trigger] dv[y]).key,
        decreases n - i,
    {
        let mut j: usize = 0;
        while j < i
            invariant
                n == meta@.len(),
                dv == meta.deep_view(),
                0 <= j <= i < n,
                forall|y: int| 0 <= y < j ==> (#[trigger] dv[y]).key != dv[i as int].key,
            decreases i - j,
        {
            proof {
                assert(dv[j as int] == meta@[j as int]@);
                assert(dv[i as int] == meta@[i as int]@);
            }
            if str_eq(meta[j].key.as_str(), meta[i].key.as_str()) {
                proof {
                    assert(dv[j as int].key == dv[i as int].key);
                }
                return false;
            }
            j += 1;
        }
        proof {
            assert forall|x: int, y: int|
                0 <= x < y < i + 1 implies (#[trigger] dv[x]).key != (#[trigger] dv[y]).key by {
                if y < i {
                } else {
                    assert(dv[x].key != dv[i as int].key);
                }
            }
        }
        i += 1;
    }
    let mut found = false;
    let mut k: usize = 0;
    while k < n
        invariant
            n == meta@.len(),
            dv == meta.deep_view(),
            0 <= k <= n,
            found ==> exists|x: int| 0 <= x < dv.len() && (#[trigger] dv[x]).key == watermark_key(),
            !found ==> forall|x: int| 0 <= x < k ==> (#[trigger] dv[x]).key != watermark_key(),
        decreases n - k,
    {
        if !found {
            proof {
                assert(dv[k as int] == meta@[k as int]@);
            }
            if str_eq(meta[k].key.as_str(), "last_synced") {
                proof {
                    assert(dv[k as int].key == watermark_key());
                }
                found = true;
            }
        }
        k += 1;
    }
    proof {
        assert forall|x: int, y: int|
            0 <= x < dv.len() && 0 <= y < dv.len() && x != y implies (#[trigger] dv[x]).key != (
        #[trigger] dv[y]).key by {
            if x < y {
            } else {
            }
        }
    }
    found
}

} // verus!
