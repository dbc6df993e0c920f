use rsm::error::StoreError;
use rsm::store::Store;

fn tag_list(v: &[&str]) -> Vec<String> {
    v.iter().map(|s| s.to_string()).collect()
}

#[test]
fn end_to_end_example() {
    let mut st = Store::new();
    let id = st
        .save_snippet("todo", "buy milk", Some(&tag_list(&["home"])))
        .unwrap();
    assert_eq!(id, 1);

    let found = st.search_snippets(None, Some(&tag_list(&["home"])));
    assert_eq!(found.len(), 1);
    assert_eq!(found[0].id, 1);
    assert_eq!(found[0].name, "todo");
    assert_eq!(found[0].tags, vec!["home".to_string()]);
    assert_eq!(found[0].content, "buy milk");

    st.delete_snippet(1).unwrap();
    let found = st.search_snippets(None, Some(&tag_list(&["home"])));
    assert!(found.is_empty());
    assert!(matches!(
        st.get_snippet(1),
        Err(StoreError::UnknownSnippetId)
    ));
}

#[test]
fn duplicate_name_fails_second_create() {
    let mut st = Store::new();
    st.save_snippet("n", "one", None).unwrap();
    assert!(matches!(
        st.save_snippet("n", "two", None),
        Err(StoreError::DupSnippetName)
    ));
    // the first snippet is untouched
    let got = st.get_snippet(1).unwrap();
    assert_eq!(got.content, "one");
}

#[test]
fn resurrection_reuses_the_row_with_a_fresh_stamp() {
    let mut st = Store::new();
    let id = st.save_snippet("n", "old", None).unwrap();
    st.delete_snippet(id).unwrap();
    let stamp_after_delete = st
        .get_sync_data(-1)
        .0
        .iter()
        .find(|r| r.id == id)
        .unwrap()
        .last_updated;

    let id2 = st.save_snippet("n", "new", None).unwrap();
    assert_eq!(id2, id);
    let row = st.get_sync_data(-1).0;
    let row = row.iter().find(|r| r.id == id).unwrap();
    assert!(!row.deleted);
    assert_eq!(row.content, "new");
    assert!(row.last_updated > stamp_after_delete);
}

#[test]
fn tombstone_cascade_and_reusable_links() {
    let mut st = Store::new();
    let id = st
        .save_snippet("s", "c", Some(&tag_list(&["a", "b"])))
        .unwrap();
    st.delete_snippet(id).unwrap();

    // no tag search returns the deleted snippet
    assert!(st.search_snippets(None, Some(&tag_list(&["a"]))).is_empty());
    assert!(st.search_snippets(None, Some(&tag_list(&["b"]))).is_empty());

    // the cascade tombstoned its association rows
    let links = st.get_sync_data(-1).2;
    assert_eq!(links.len(), 2);
    assert!(links.iter().all(|l| l.deleted));

    // re-adding the same tags reuses the rows instead of violating
    // pair uniqueness
    st.save_tags(id, &tag_list(&["a", "b"])).unwrap();
    let links = st.get_sync_data(-1).2;
    assert_eq!(links.len(), 2);
    assert!(links.iter().all(|l| !l.deleted));
}

#[test]
fn tag_idempotence_one_live_row_per_pair() {
    let mut st = Store::new();
    let id = st.save_snippet("s", "c", None).unwrap();
    st.save_tags(id, &tag_list(&["t"])).unwrap();
    st.save_tags(id, &tag_list(&["t"])).unwrap();

    let (_, tags, links) = st.get_sync_data(-1);
    assert_eq!(tags.len(), 1);
    assert_eq!(links.len(), 1);
    assert!(!links[0].deleted);

    // the same holds when the duplicate arrives within one call
    st.save_tags(id, &tag_list(&["u", "u"])).unwrap();
    let (_, tags, links) = st.get_sync_data(-1);
    assert_eq!(tags.len(), 2);
    assert_eq!(links.len(), 2);
}

#[test]
fn conjunctive_tag_search() {
    let mut st = Store::new();
    let id = st
        .save_snippet("s", "c", Some(&tag_list(&["a", "b"])))
        .unwrap();
    let hit = st.search_snippets(None, Some(&tag_list(&["a", "b"])));
    assert_eq!(hit.len(), 1);
    assert_eq!(hit[0].id, id);
    let miss = st.search_snippets(None, Some(&tag_list(&["a", "c"])));
    assert!(miss.is_empty());
}

#[test]
fn search_filters_and_intersection() {
    let mut st = Store::new();
    st.save_snippet("alpha", "1", Some(&tag_list(&["x"]))).unwrap();
    st.save_snippet("beta", "2", Some(&tag_list(&["y"]))).unwrap();

    // no filters: all live snippets, in id order
    let all = st.search_snippets(None, None);
    assert_eq!(all.len(), 2);
    assert_eq!(all[0].name, "alpha");
    assert_eq!(all[1].name, "beta");

    // name filter is a substring match
    let by_name = st.search_snippets(Some("lph"), None);
    assert_eq!(by_name.len(), 1);
    assert_eq!(by_name[0].name, "alpha");

    // tag filter is a substring match on tag names
    let by_tag = st.search_snippets(None, Some(&tag_list(&["x"])));
    assert_eq!(by_tag.len(), 1);
    assert_eq!(by_tag[0].name, "alpha");

    // the empty name filter is a substring of everything
    assert_eq!(st.search_snippets(Some(""), None).len(), 2);

    // both filters intersect
    let both = st.search_snippets(Some("alp"), Some(&tag_list(&["x"])));
    assert_eq!(both.len(), 1);
    let neither = st.search_snippets(Some("alp"), Some(&tag_list(&["y"])));
    assert!(neither.is_empty());
}

#[test]
fn rename_and_content_changes() {
    let mut st = Store::new();
    let a = st.save_snippet("one", "c1", None).unwrap();
    let b = st.save_snippet("two", "c2", None).unwrap();

    assert!(matches!(
        st.rename_snippet(99, "x"),
        Err(StoreError::UnknownSnippetId)
    ));
    // the name-uniqueness constraint spans tombstones, so a taken name
    // surfaces as a storage failure
    assert!(matches!(
        st.rename_snippet(a, "two"),
        Err(StoreError::StorageFailure)
    ));
    st.rename_snippet(a, "three").unwrap();
    assert_eq!(st.get_snippet(a).unwrap().name, "three");

    assert!(matches!(
        st.change_snippet_content(99, "x"),
        Err(StoreError::UnknownSnippetId)
    ));
    st.change_snippet_content(b, "c2b").unwrap();
    assert_eq!(st.get_snippet(b).unwrap().content, "c2b");
}

#[test]
fn remove_tags_by_name_detaches_only_those() {
    let mut st = Store::new();
    let id = st
        .save_snippet("s", "c", Some(&tag_list(&["a", "b"])))
        .unwrap();
    st.remove_tags_by_name(id, &tag_list(&["a"])).unwrap();
    let got = st.get_snippet(id).unwrap();
    assert_eq!(got.tags, vec!["b".to_string()]);
    assert!(st.search_snippets(None, Some(&tag_list(&["a"]))).is_empty());
    assert_eq!(st.search_snippets(None, Some(&tag_list(&["b"]))).len(), 1);

    assert!(matches!(
        st.remove_tags_by_name(99, &tag_list(&["a"])),
        Err(StoreError::UnknownSnippetId)
    ));
}

#[test]
fn save_tags_on_missing_and_deleted_snippets() {
    let mut st = Store::new();
    assert!(matches!(
        st.save_tags(1, &tag_list(&["t"])),
        Err(StoreError::UnknownSnippetId)
    ));
    let id = st.save_snippet("s", "c", None).unwrap();
    st.delete_snippet(id).unwrap();
    // a tombstoned row still accepts tags (the id still names a row)
    st.save_tags(id, &tag_list(&["t"])).unwrap();
}

#[test]
fn metadata_round_trip_and_miss() {
    let mut st = Store::new();
    assert_eq!(st.get_metadata_value("last_synced").unwrap(), "0");
    assert!(matches!(
        st.get_metadata_value("nope"),
        Err(StoreError::UnknownMetaKey)
    ));
    st.set_metadata_value("k", "v");
    assert_eq!(st.get_metadata_value("k").unwrap(), "v");
    st.set_metadata_value("k", "w");
    assert_eq!(st.get_metadata_value("k").unwrap(), "w");
}

#[test]
fn from_rows_accepts_a_dump_and_rejects_corruption() {
    let mut st = Store::new();
    st.save_snippet("s", "c", Some(&tag_list(&["t"]))).unwrap();
    let (sn, tg, ln) = st.get_sync_data(-1);
    let meta = vec![rsm::rows::MetaRow {
        key: "last_synced".to_string(),
        value: "0".to_string(),
    }];

    let loaded = Store::from_rows(sn.clone(), tg.clone(), ln.clone(), meta.clone()).unwrap();
    assert_eq!(loaded.get_snippet(1).unwrap().name, "s");
    assert_eq!(loaded.get_snippet(1).unwrap().tags, vec!["t".to_string()]);

    // duplicate snippet names are a corrupt store
    let mut sn2 = sn.clone();
    sn2.push(rsm::rows::SnippetRow {
        id: 2,
        name: "s".to_string(),
        content: "other".to_string(),
        deleted: false,
        last_updated: 1,
    });
    assert!(matches!(
        Store::from_rows(sn2, tg.clone(), ln.clone(), meta.clone()),
        Err(StoreError::StorageFailure)
    ));

    // a dangling association row is a corrupt store
    let mut ln2 = ln.clone();
    ln2.push(rsm::rows::SnippetTagRow {
        id: 2,
        snippet_id: 9,
        tag_id: 1,
        deleted: false,
        last_updated: 1,
    });
    assert!(matches!(
        Store::from_rows(sn.clone(), tg.clone(), ln2, meta.clone()),
        Err(StoreError::StorageFailure)
    ));

    // a missing watermark row is a corrupt store
    assert!(matches!(
        Store::from_rows(sn, tg, ln, Vec::new()),
        Err(StoreError::StorageFailure)
    ));
}

#[test]
fn column_widths_track_the_widest_row() {
    let mut st = Store::new();
    assert_eq!(rsm::util::get_list_col_widths(&Vec::new()), (2, 4, 4));

    st.save_snippet("todo", "x", Some(&tag_list(&["home"]))).unwrap();
    let rows = st.search_snippets(None, None);
    assert_eq!(rsm::util::get_list_col_widths(&rows), (2, 4, 4));

    st.save_snippet("a-much-longer-name", "x", Some(&tag_list(&["home", "work"])))
        .unwrap();
    let rows = st.search_snippets(None, None);
    // "home, work" is ten wide; the long name is eighteen
    assert_eq!(rsm::util::get_list_col_widths(&rows), (2, 10, 18));
}

#[test]
fn error_descriptions() {
    assert_eq!(
        StoreError::DupSnippetName.describe(),
        "duplicate snippet name"
    );
    assert_eq!(StoreError::UnknownSnippetId.describe(), "unknown snippet id");
    assert_eq!(StoreError::UnknownMetaKey.describe(), "unknown metadata key");
    assert_eq!(
        StoreError::SyncingNotEnabled.describe(),
        "syncing is not enabled"
    );
    assert_eq!(StoreError::StorageFailure.describe(), "storage failure");
    assert_eq!(StoreError::TransportFailure.describe(), "transport failure");
    assert_eq!(
        StoreError::RemoteRejected("boom".to_string()).describe(),
        "boom"
    );
}
