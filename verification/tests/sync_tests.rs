use rsm::error::StoreError;
use rsm::numfmt::{parse_watermark, watermark_string};
use rsm::store::Store;
use rsm::sync::{decide_sync, interpret_response, prepare_sync, sync_outcome, ServerReply};
use rsm::wire::{build_sync_message, render_sync_payload};

fn tag_list(v: &[&str]) -> Vec<String> {
    v.iter().map(|s| s.to_string()).collect()
}

#[test]
fn watermark_rendering_and_parsing() {
    assert_eq!(watermark_string(0), "0");
    assert_eq!(watermark_string(42), "42");
    assert_eq!(watermark_string(-5), "-5");
    assert_eq!(watermark_string(i64::MAX), "9223372036854775807");
    assert_eq!(watermark_string(i64::MIN), "-9223372036854775808");

    assert_eq!(parse_watermark("0"), Some(0));
    assert_eq!(parse_watermark("42"), Some(42));
    assert_eq!(parse_watermark("-5"), Some(-5));
    assert_eq!(parse_watermark("9223372036854775807"), Some(i64::MAX));
    assert_eq!(parse_watermark("-9223372036854775808"), Some(i64::MIN));

    // only the canonical rendering parses
    assert_eq!(parse_watermark(""), None);
    assert_eq!(parse_watermark("-"), None);
    assert_eq!(parse_watermark("007"), None);
    assert_eq!(parse_watermark("-0"), None);
    assert_eq!(parse_watermark("1x2"), None);
    assert_eq!(parse_watermark("9223372036854775808"), None);
    assert_eq!(parse_watermark("-9223372036854775809"), None);
    assert_eq!(parse_watermark("99999999999999999999"), None);
}

#[test]
fn payload_and_frame_bytes_are_exact() {
    let empty = render_sync_payload(&Vec::new(), &Vec::new(), &Vec::new());
    assert_eq!(
        empty,
        b"{\"snippets\":[],\"tags\":[],\"snippet_tags\":[]}".to_vec()
    );

    let msg = build_sync_message("dummy", 7, &empty);
    let mut expect = b"dummy\n7\n43\n".to_vec();
    expect.extend_from_slice(&empty);
    expect.push(b'\n');
    assert_eq!(empty.len(), 43);
    assert_eq!(msg, expect);
}

#[test]
fn payload_escapes_strings() {
    let sn = vec![rsm::rows::SnippetRow {
        id: 1,
        name: "a\"b\\c".to_string(),
        content: "line\nend".to_string(),
        deleted: false,
        last_updated: 9,
    }];
    let payload = render_sync_payload(&sn, &Vec::new(), &Vec::new());
    let text = String::from_utf8(payload).unwrap();
    assert_eq!(
        text,
        "{\"snippets\":[{\"id\":1,\"name\":\"a\\\"b\\\\c\",\"content\":\"line\\u000aend\",\"deleted\":0,\"last_updated\":9}],\"tags\":[],\"snippet_tags\":[]}"
    );
}

#[test]
fn payload_lists_rows_in_order() {
    let mut st = Store::new();
    st.save_snippet("one", "c1", Some(&tag_list(&["t"]))).unwrap();
    st.save_snippet("two", "c2", None).unwrap();
    let (sn, tg, ln) = st.get_sync_data(0);
    let payload = render_sync_payload(&sn, &tg, &ln);
    let text = String::from_utf8(payload).unwrap();
    assert!(text.starts_with("{\"snippets\":[{\"id\":1,"));
    assert!(text.contains("},{\"id\":2,"));
    assert!(text.contains("\"tags\":[{\"id\":1,\"name\":\"t\""));
    assert!(text.contains("\"snippet_tags\":[{\"id\":1,\"snippet_id\":1,\"tag_id\":1,"));
}

#[test]
fn sync_watermark_monotonicity() {
    let mut st = Store::new();
    st.save_snippet("s", "c", Some(&tag_list(&["t"]))).unwrap();

    let w0 = st.read_watermark().unwrap();
    assert_eq!(w0, 0);

    // a failed attempt commits nothing: the retry's delta is identical
    let first = st.get_sync_data(w0);
    let retry = st.get_sync_data(w0);
    assert_eq!(first, retry);
    assert_eq!(first.0.len(), 1);
    assert_eq!(first.1.len(), 1);
    assert_eq!(first.2.len(), 1);
    assert_eq!(st.read_watermark().unwrap(), w0);

    // a committed attempt advances the watermark past every stamp:
    // a re-run with no intervening mutations extracts an empty delta
    let w1 = st.next_watermark(w0);
    assert!(w1 >= w0);
    st.commit_sync(w1);
    assert_eq!(st.read_watermark().unwrap(), w1);
    // the committed watermark sits in the metadata table, canonically rendered
    assert_eq!(
        st.get_metadata_value("last_synced").unwrap(),
        watermark_string(w1)
    );
    let delta = st.get_sync_data(w1);
    assert!(delta.0.is_empty() && delta.1.is_empty() && delta.2.is_empty());

    // a later mutation enters the next delta
    st.change_snippet_content(1, "c2").unwrap();
    let delta = st.get_sync_data(w1);
    assert_eq!(delta.0.len(), 1);
    assert!(delta.1.is_empty() && delta.2.is_empty());
}

#[test]
fn prepare_sync_respects_the_capability_flag() {
    let st = Store::new();
    assert!(matches!(
        prepare_sync(&st, false, "dummy", 0),
        Err(StoreError::SyncingNotEnabled)
    ));
    let plan = prepare_sync(&st, true, "dummy", 0).unwrap();
    assert_eq!(plan.proposed_watermark, 0);
    let text = String::from_utf8(plan.message).unwrap();
    assert_eq!(
        text,
        "dummy\n0\n43\n{\"snippets\":[],\"tags\":[],\"snippet_tags\":[]}\n"
    );
}

#[test]
fn corrupt_watermark_reads_as_storage_failure() {
    let mut st = Store::new();
    st.set_metadata_value("last_synced", "not-a-number");
    assert!(matches!(
        st.read_watermark(),
        Err(StoreError::StorageFailure)
    ));
}

#[test]
fn server_replies_decide_the_outcome() {
    // the reply line is parsed by the json crate behind the interpreter
    let ok = interpret_response("{\"status\":\"fine\"}");
    assert_eq!(ok, ServerReply::Accepted);
    let plain = interpret_response("null");
    assert_eq!(plain, ServerReply::Accepted);
    let rejected = interpret_response("{\"error\":\"no room\"}");
    assert_eq!(rejected, ServerReply::Rejected("no room".to_string()));
    let garbage = interpret_response("!!not json!!");
    assert_eq!(garbage, ServerReply::Malformed);

    assert_eq!(sync_outcome(ok, 7), Ok(7));
    assert_eq!(
        sync_outcome(rejected, 7),
        Err(StoreError::RemoteRejected("no room".to_string()))
    );
    assert_eq!(
        sync_outcome(garbage, 7),
        Err(StoreError::TransportFailure)
    );

    // the one-call decision agrees end to end
    assert_eq!(decide_sync("{\"status\":\"fine\"}", 7), Ok(7));
    assert_eq!(
        decide_sync("{\"error\":\"no room\"}", 7),
        Err(StoreError::RemoteRejected("no room".to_string()))
    );
    assert_eq!(
        decide_sync("!!not json!!", 7),
        Err(StoreError::TransportFailure)
    );
}
