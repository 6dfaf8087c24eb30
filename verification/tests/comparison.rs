use block_reconcile::{
    check_provider_block, compare_blocks, compare_documents, diff_blocks, fetch_provider_blocks,
    is_renderable, report_delta, BlockHash, CachedBlock, Failure, Json, JsonNumber, ProviderBlock,
    Unrenderable, UpstreamError,
};

fn number(text: &str) -> Json {
    Json::Number(JsonNumber::parse(text).unwrap())
}

fn text(s: &str) -> Json {
    Json::String(s.to_string())
}

fn object(entries: Vec<(&str, Json)>) -> Json {
    Json::Object(entries.into_iter().map(|(k, v)| (k.to_string(), v)).collect())
}

fn hash(byte: u8) -> BlockHash {
    BlockHash { bytes: [byte; 32] }
}

fn block(txs: Vec<&str>) -> Json {
    object(vec![
        ("number", number("5")),
        ("txs", Json::Array(txs.into_iter().map(text).collect())),
    ])
}

fn cached(byte: u8, payload: Json) -> CachedBlock {
    CachedBlock { hash: hash(byte), payload }
}

fn sent(byte: u8, payload: Json) -> Option<ProviderBlock> {
    Some(ProviderBlock { hash: Some(hash(byte)), payload })
}

#[test]
fn equal_documents_do_not_diverge() {
    assert_eq!(compare_documents(&block(vec!["t1"]), &block(vec!["t1"])), Ok(None));
}

#[test]
fn key_order_is_no_divergence() {
    let cached = object(vec![("number", number("5")), ("txs", Json::Array(vec![text("t1")]))]);
    let fresh = object(vec![("txs", Json::Array(vec![text("t1")])), ("number", number("5"))]);
    assert_eq!(compare_documents(&cached, &fresh), Ok(None));
}

#[test]
fn a_changed_leaf_is_shown() {
    let cached = object(vec![("foo", number("42"))]);
    let fresh = object(vec![("foo", number("10"))]);
    assert_eq!(
        compare_documents(&cached, &fresh),
        Ok(Some(" {\n-  foo: 42\n+  foo: 10\n }\n".to_string()))
    );
}

#[test]
fn a_changed_scalar_is_shown() {
    assert_eq!(compare_documents(&number("42"), &number("10")), Ok(Some("-42\n+10\n".to_string())));
    assert_eq!(
        compare_documents(&text("a"), &Json::Null),
        Ok(Some("-\"a\"\n+null\n".to_string()))
    );
}

#[test]
fn an_added_key_is_shown() {
    let cached = object(vec![("bar", number("10"))]);
    let fresh = object(vec![("foo", number("42")), ("bar", number("10"))]);
    assert_eq!(compare_documents(&cached, &fresh), Ok(Some(" {\n+  foo: 42\n }\n".to_string())));
}

#[test]
fn a_removed_key_is_shown() {
    let cached = object(vec![("foo", number("42")), ("bar", number("10"))]);
    let fresh = object(vec![("bar", number("10"))]);
    assert_eq!(compare_documents(&cached, &fresh), Ok(Some(" {\n-  foo: 42\n }\n".to_string())));
}

#[test]
fn an_added_item_is_shown() {
    assert_eq!(
        compare_documents(&block(vec!["t1"]), &block(vec!["t1", "t2"])),
        Ok(Some(" {\n   txs: [\n     \"t1\"\n+    \"t2\"\n   ]\n }\n".to_string()))
    );
}

#[test]
fn reordered_items_are_shown() {
    let found = compare_documents(&block(vec!["t1", "t2"]), &block(vec!["t2", "t1"]));
    let shown = found.unwrap().unwrap();
    assert!(!shown.is_empty());
    assert!(shown.contains("\"t1\""));
    assert!(shown.contains("\"t2\""));
    assert!(shown.lines().any(|line| line.starts_with('+') || line.starts_with('-')));
}

#[test]
fn numbers_written_otherwise_do_not_diverge() {
    assert_eq!(compare_documents(&number("1.0"), &number("1.00")), Ok(None));
}

#[test]
fn no_delta_is_no_divergence() {
    assert_eq!(report_delta(None), Ok(None));
}

#[test]
fn a_null_delta_is_no_divergence() {
    assert_eq!(report_delta(Some(Json::Null)), Ok(None));
}

#[test]
fn a_delta_is_written_out() {
    let delta = object(vec![("foo", object(vec![("__old", number("42")), ("__new", number("10"))]))]);
    assert_eq!(report_delta(Some(delta)), Ok(Some(" {\n-  foo: 42\n+  foo: 10\n }\n".to_string())));
}

#[test]
fn the_delta_of_an_array_is_written_out() {
    let delta = Json::Array(vec![
        Json::Array(vec![text(" ")]),
        Json::Array(vec![text("~"), object(vec![("foo__added", number("42"))])]),
        Json::Array(vec![text("-"), number("20")]),
        Json::Array(vec![text(" "), number("30")]),
    ]);
    assert_eq!(
        report_delta(Some(delta)),
        Ok(Some(" [\n   ...\n   {\n+    foo: 42\n   }\n-  20\n   30\n ]\n".to_string()))
    );
}

#[test]
fn a_scalar_delta_is_written_out() {
    assert_eq!(report_delta(Some(Json::Bool(false))), Ok(Some(" false\n".to_string())));
    assert_eq!(report_delta(Some(Json::Array(vec![]))), Ok(Some(" [\n ]\n".to_string())));
}

#[test]
fn plain_documents_are_renderable() {
    assert!(is_renderable(&Json::Null));
    assert!(is_renderable(&block(vec!["t1", "t2"])));
    assert!(is_renderable(&Json::Array(vec![])));
    assert!(is_renderable(&Json::Array(vec![
        Json::Array(vec![number("1"), number("2"), number("3")]),
        Json::Array(vec![]),
    ])));
    assert!(is_renderable(&Json::Array(vec![Json::Array(vec![text(" ")])])));
    assert!(is_renderable(&Json::Array(vec![
        number("1"),
        Json::Array(vec![text("+"), number("1"), number("2")]),
        Json::Array(vec![text("-"), number("1")]),
    ])));
}

#[test]
fn what_the_renderer_cannot_walk_is_not_renderable() {
    let entry = || Json::Array(vec![text("+"), number("1")]);
    let empty_first = Json::Array(vec![Json::Array(vec![]), entry()]);
    let number_first = Json::Array(vec![Json::Array(vec![number("1"), number("2")]), entry()]);
    let unknown_mark = Json::Array(vec![Json::Array(vec![text("x"), number("2")]), entry()]);
    let mark_alone = Json::Array(vec![Json::Array(vec![text("-")]), entry()]);
    let nested = object(vec![("a", Json::Array(vec![Json::Array(vec![text("~"), empty_first_again()]), entry()]))]);
    for delta in [empty_first, number_first, unknown_mark, mark_alone, nested] {
        assert!(!is_renderable(&delta));
        assert_eq!(report_delta(Some(delta)), Err(Unrenderable));
    }
}

fn empty_first_again() -> Json {
    Json::Array(vec![Json::Array(vec![]), Json::Array(vec![text("+"), number("1")])])
}

#[test]
fn an_unrenderable_document_that_was_added_fails_the_comparison() {
    let cached = object(vec![]);
    let fresh = object(vec![("odd", empty_first_again())]);
    assert_eq!(compare_documents(&cached, &fresh), Err(Unrenderable));
}

#[test]
fn an_upstream_block_of_the_requested_hash_is_taken() {
    let taken = check_provider_block(hash(1), sent(1, number("7")));
    assert!(taken.unwrap().equals(&number("7")));
}

#[test]
fn a_missing_upstream_block_is_an_error() {
    assert_eq!(
        check_provider_block(hash(1), None).unwrap_err(),
        UpstreamError::NotFound { requested: hash(1) }
    );
}

#[test]
fn another_hash_from_upstream_is_an_error() {
    assert_eq!(
        check_provider_block(hash(1), sent(2, Json::Null)).unwrap_err(),
        UpstreamError::HashMismatch { requested: hash(1), reported: Some(hash(2)) }
    );
    let unhashed = Some(ProviderBlock { hash: None, payload: Json::Null });
    assert_eq!(
        check_provider_block(hash(1), unhashed).unwrap_err(),
        UpstreamError::HashMismatch { requested: hash(1), reported: None }
    );
}

#[test]
fn a_batch_keeps_the_order_of_the_requests() {
    let blocks = vec![cached(1, Json::Null), cached(2, Json::Null), cached(3, Json::Null)];
    let answers = vec![sent(1, number("10")), sent(2, number("20")), sent(3, number("30"))];
    let payloads = fetch_provider_blocks(&blocks, answers).unwrap();
    assert_eq!(payloads.len(), 3);
    assert!(payloads[0].equals(&number("10")));
    assert!(payloads[1].equals(&number("20")));
    assert!(payloads[2].equals(&number("30")));
}

#[test]
fn an_empty_batch_for_no_requests_is_fine() {
    assert_eq!(fetch_provider_blocks(&vec![], vec![]).unwrap().len(), 0);
}

#[test]
fn a_short_batch_is_an_error() {
    let blocks = vec![cached(1, Json::Null), cached(2, Json::Null)];
    assert_eq!(
        fetch_provider_blocks(&blocks, vec![sent(1, Json::Null)]).unwrap_err(),
        UpstreamError::ShortBatch { expected: 2, received: 1 }
    );
    assert_eq!(
        fetch_provider_blocks(&blocks, vec![]).unwrap_err(),
        UpstreamError::ShortBatch { expected: 2, received: 0 }
    );
}

#[test]
fn a_long_batch_is_an_error() {
    let blocks = vec![cached(1, Json::Null)];
    let answers = vec![sent(1, Json::Null), sent(2, Json::Null)];
    assert_eq!(
        fetch_provider_blocks(&blocks, answers).unwrap_err(),
        UpstreamError::ShortBatch { expected: 1, received: 2 }
    );
}

#[test]
fn the_first_bad_answer_fails_the_batch() {
    let blocks = vec![cached(1, Json::Null), cached(2, Json::Null), cached(3, Json::Null)];
    let answers = vec![sent(1, Json::Null), sent(9, Json::Null), None];
    assert_eq!(
        fetch_provider_blocks(&blocks, answers).unwrap_err(),
        UpstreamError::HashMismatch { requested: hash(2), reported: Some(hash(9)) }
    );
    let answers = vec![sent(1, Json::Null), None, sent(9, Json::Null)];
    assert_eq!(
        fetch_provider_blocks(&blocks, answers).unwrap_err(),
        UpstreamError::NotFound { requested: hash(2) }
    );
}

#[test]
fn answers_in_another_order_are_a_mismatch() {
    let blocks = vec![cached(1, Json::Null), cached(2, Json::Null)];
    let answers = vec![sent(2, Json::Null), sent(1, Json::Null)];
    assert_eq!(
        fetch_provider_blocks(&blocks, answers).unwrap_err(),
        UpstreamError::HashMismatch { requested: hash(1), reported: Some(hash(2)) }
    );
}

#[test]
fn there_is_one_report_for_each_pair_in_order() {
    let blocks = vec![
        cached(1, block(vec!["t1"])),
        cached(2, object(vec![("foo", number("42"))])),
        cached(3, Json::Null),
    ];
    let provider = vec![block(vec!["t1"]), object(vec![("foo", number("10"))]), Json::Null];
    let reports = diff_blocks(&blocks, &provider).unwrap();
    assert_eq!(reports.len(), 3);
    assert_eq!(reports[0].hash, hash(1));
    assert_eq!(reports[0].diff, None);
    assert_eq!(reports[1].hash, hash(2));
    assert_eq!(reports[1].diff, Some(" {\n-  foo: 42\n+  foo: 10\n }\n".to_string()));
    assert_eq!(reports[2].hash, hash(3));
    assert_eq!(reports[2].diff, None);
}

#[test]
fn pairs_end_with_the_shorter_side() {
    let blocks = vec![cached(1, Json::Null), cached(2, Json::Null)];
    assert_eq!(diff_blocks(&blocks, &vec![Json::Null]).unwrap().len(), 1);
    assert_eq!(diff_blocks(&blocks, &vec![]).unwrap().len(), 0);
    assert_eq!(diff_blocks(&vec![], &vec![Json::Null]).unwrap().len(), 0);
}

#[test]
fn the_first_unrenderable_delta_fails_the_comparison() {
    let blocks = vec![cached(1, Json::Null), cached(2, object(vec![])), cached(3, object(vec![]))];
    let provider = vec![
        Json::Null,
        object(vec![("odd", empty_first_again())]),
        object(vec![("odd", empty_first_again())]),
    ];
    assert_eq!(
        diff_blocks(&blocks, &provider).unwrap_err(),
        Failure::Unrenderable { hash: hash(2) }
    );
}

#[test]
fn blocks_are_compared_with_what_upstream_sent() {
    let blocks = vec![cached(0xaa, block(vec!["t1"])), cached(0xbb, block(vec!["t1"]))];
    let answers = vec![sent(0xaa, block(vec!["t1", "t2"])), sent(0xbb, block(vec!["t1"]))];
    let reports = compare_blocks(&blocks, answers).unwrap();
    assert_eq!(reports.len(), 2);
    assert_eq!(reports[0].hash, hash(0xaa));
    assert!(reports[0].diff.as_ref().unwrap().contains("+    \"t2\""));
    assert_eq!(reports[1].hash, hash(0xbb));
    assert_eq!(reports[1].diff, None);
}

#[test]
fn a_bad_batch_fails_the_comparison() {
    let blocks = vec![cached(0xaa, block(vec!["t1"]))];
    assert_eq!(
        compare_blocks(&blocks, vec![sent(0xab, block(vec!["t1"]))]).unwrap_err(),
        Failure::Upstream(UpstreamError::HashMismatch {
            requested: hash(0xaa),
            reported: Some(hash(0xab)),
        })
    );
    assert_eq!(
        compare_blocks(&blocks, vec![]).unwrap_err(),
        Failure::Upstream(UpstreamError::ShortBatch { expected: 1, received: 0 })
    );
    assert_eq!(
        compare_blocks(&blocks, vec![None]).unwrap_err(),
        Failure::Upstream(UpstreamError::NotFound { requested: hash(0xaa) })
    );
}

#[test]
fn what_is_renderable_is_written_out() {
    let nested = Json::Array(vec![
        Json::Array(vec![number("1"), number("2"), number("3")]),
        Json::Array(vec![]),
    ]);
    assert_eq!(
        report_delta(Some(nested)),
        Ok(Some(" [\n   [\n     1\n     2\n     3\n   ]\n   [\n   ]\n ]\n".to_string()))
    );
    let passed_over = Json::Array(vec![
        number("1"),
        Json::Array(vec![text("+"), number("1"), number("2")]),
        Json::Array(vec![text(" "), number("7")]),
        Json::Array(vec![text("-"), number("1")]),
    ]);
    assert_eq!(
        report_delta(Some(passed_over)),
        Ok(Some(" [\n+  1\n   7\n-  1\n ]\n".to_string()))
    );
    let blank_alone = Json::Array(vec![Json::Array(vec![text(" ")])]);
    assert_eq!(report_delta(Some(blank_alone)), Ok(Some(" [\n   ...\n ]\n".to_string())));
    let no_entries = Json::Array(vec![
        Json::Array(vec![text("+"), number("1")]),
        Json::Array(vec![]),
        text("x"),
    ]);
    assert_eq!(
        report_delta(Some(no_entries)),
        Ok(Some(" [\n   [\n     \"+\"\n     1\n   ]\n   [\n   ]\n   \"x\"\n ]\n".to_string()))
    );
}
