use supercell::store::{ConsumerControlStore, FeedContent, FeedStore, VerificationKeyCache};

const NOW: i64 = 1730700000;

#[test]
fn record_feed_content() {
    let mut store = FeedStore::new();
    let record = FeedContent {
        feed_id: "feed".to_string(),
        uri: "at://did:plc:qadlgs4xioohnhi2jg54mqds/app.bsky.feed.post/3la3bqjg4hx2n".to_string(),
        indexed_at: 1730673934229172_i64,
        score: 1,
    };
    store
        .feed_content_upsert(&record, NOW)
        .expect("failed to insert record");

    let records = store.feed_content_cached("feed", 5);

    assert_eq!(records.len(), 1);
    assert_eq!(records[0].feed_id, "feed");
    assert_eq!(
        records[0].uri,
        "at://did:plc:qadlgs4xioohnhi2jg54mqds/app.bsky.feed.post/3la3bqjg4hx2n"
    );
    assert_eq!(records[0].indexed_at, 1730673934229172_i64);
}

#[test]
fn consumer_control() {
    let mut store = ConsumerControlStore::new();
    store.consumer_control_insert("foo", 1730673934229172_i64, NOW);

    assert_eq!(store.consumer_control_get("foo"), Some(1730673934229172_i64));

    store.consumer_control_insert("foo", 1730673934229173_i64, NOW);

    assert_eq!(store.consumer_control_get("foo"), Some(1730673934229173_i64));
}

#[test]
fn upsert_twice_accumulates_score() {
    let mut store = FeedStore::new();
    let first = FeedContent {
        feed_id: "feed".to_string(),
        uri: "at://example/post/1".to_string(),
        indexed_at: 1730673934229172_i64,
        score: 3,
    };
    let second = FeedContent {
        feed_id: "feed".to_string(),
        uri: "at://example/post/1".to_string(),
        indexed_at: 1730673934229172_i64,
        score: 5,
    };
    store.feed_content_upsert(&first, NOW).expect("first upsert");
    store.feed_content_upsert(&second, NOW + 1).expect("second upsert");

    let records = store.feed_content_cached("feed", 10);
    assert_eq!(records.len(), 1);
    assert_eq!(records[0].score, 8);
}

#[test]
fn upsert_overflowing_score_fails_and_changes_nothing() {
    let mut store = FeedStore::new();
    let first = FeedContent {
        feed_id: "feed".to_string(),
        uri: "at://example/post/1".to_string(),
        indexed_at: 10,
        score: i32::MAX,
    };
    let second = FeedContent {
        feed_id: "feed".to_string(),
        uri: "at://example/post/1".to_string(),
        indexed_at: 10,
        score: 1,
    };
    store.feed_content_upsert(&first, NOW).expect("first upsert");
    assert!(store.feed_content_upsert(&second, NOW + 1).is_err());
    let records = store.feed_content_cached("feed", 10);
    assert_eq!(records.len(), 1);
    assert_eq!(records[0].score, i32::MAX);
}

#[test]
fn cached_orders_by_recency_and_truncates() {
    let mut store = FeedStore::new();
    for (uri, indexed_at) in [("at://a", 100), ("at://c", 300), ("at://b", 200)] {
        let rec = FeedContent {
            feed_id: "news".to_string(),
            uri: uri.to_string(),
            indexed_at,
            score: 1,
        };
        store.feed_content_upsert(&rec, NOW).expect("upsert");
    }
    let other = FeedContent {
        feed_id: "other".to_string(),
        uri: "at://z".to_string(),
        indexed_at: 999,
        score: 1,
    };
    store.feed_content_upsert(&other, NOW).expect("upsert");

    let all = store.feed_content_cached("news", 10);
    let uris: Vec<&str> = all.iter().map(|r| r.uri.as_str()).collect();
    assert_eq!(uris, vec!["at://c", "at://b", "at://a"]);

    let limited = store.feed_content_cached("news", 2);
    let uris: Vec<&str> = limited.iter().map(|r| r.uri.as_str()).collect();
    assert_eq!(uris, vec!["at://c", "at://b"]);
}

#[test]
fn update_increments_only_existing_rows() {
    let mut store = FeedStore::new();
    let rec = FeedContent {
        feed_id: "feed".to_string(),
        uri: "at://example/post/1".to_string(),
        indexed_at: 10,
        score: 2,
    };
    let absent = FeedContent {
        feed_id: "feed".to_string(),
        uri: "at://example/post/2".to_string(),
        indexed_at: 10,
        score: 2,
    };
    store.feed_content_upsert(&rec, NOW).expect("upsert");
    store.feed_content_update(&rec, NOW + 1).expect("update");
    store.feed_content_update(&absent, NOW + 1).expect("update of absent row");

    let records = store.feed_content_cached("feed", 10);
    assert_eq!(records.len(), 1);
    assert_eq!(records[0].score, 4);
}

#[test]
fn truncate_oldest_drops_stale_rows() {
    let mut store = FeedStore::new();
    let old_row = FeedContent {
        feed_id: "feed".to_string(),
        uri: "at://old".to_string(),
        indexed_at: 10,
        score: 1,
    };
    let fresh_row = FeedContent {
        feed_id: "feed".to_string(),
        uri: "at://fresh".to_string(),
        indexed_at: 20,
        score: 1,
    };
    store.feed_content_upsert(&old_row, 1000).expect("upsert");
    store.feed_content_upsert(&fresh_row, 2000).expect("upsert");

    store.feed_content_truncate_oldest(1500);

    let records = store.feed_content_cached("feed", 10);
    assert_eq!(records.len(), 1);
    assert_eq!(records[0].uri, "at://fresh");
}

#[test]
fn verification_method_replace_and_get() {
    let mut cache = VerificationKeyCache::new();
    assert_eq!(cache.verification_method_get("did:plc:abc"), None);

    cache.verifcation_method_insert("did:plc:abc", "zQ3oldkey", NOW);
    assert_eq!(
        cache.verification_method_get("did:plc:abc"),
        Some("zQ3oldkey".to_string())
    );

    cache.verifcation_method_insert("did:plc:abc", "zQ3newkey", NOW + 5);
    assert_eq!(
        cache.verification_method_get("did:plc:abc"),
        Some("zQ3newkey".to_string())
    );
}

#[test]
fn verification_method_cleanup_evicts_week_old_entries() {
    let mut cache = VerificationKeyCache::new();
    let week = 604800_i64;
    cache.verifcation_method_insert("did:plc:stale", "zQ3stale", NOW - week - 1);
    cache.verifcation_method_insert("did:plc:fresh", "zQ3fresh", NOW - week + 10);

    cache.verification_method_cleanup(NOW);

    assert_eq!(cache.verification_method_get("did:plc:stale"), None);
    assert_eq!(
        cache.verification_method_get("did:plc:fresh"),
        Some("zQ3fresh".to_string())
    );
}

#[test]
fn age_in_hours_counts_full_hours_from_indexing() {
    let rec = FeedContent {
        feed_id: "feed".to_string(),
        uri: "at://a".to_string(),
        indexed_at: 1730673934229172_i64,
        score: 1,
    };
    let indexed_secs = 1730673934_i64;
    assert_eq!(rec.age_in_hours(indexed_secs), 1);
    assert_eq!(rec.age_in_hours(indexed_secs + 3599), 1);
    assert_eq!(rec.age_in_hours(indexed_secs + 3600), 2);
    assert_eq!(rec.age_in_hours(indexed_secs + 7200), 3);
    // content indexed in the future still counts as freshest
    assert_eq!(rec.age_in_hours(indexed_secs - 50), 1);
}

#[test]
fn age_in_hours_treats_unrepresentable_timestamps_as_freshest() {
    let rec = FeedContent {
        feed_id: "feed".to_string(),
        uri: "at://a".to_string(),
        indexed_at: i64::MAX,
        score: 1,
    };
    assert_eq!(rec.age_in_hours(1730673934), 1);
}
