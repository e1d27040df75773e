use tesla_notes::StoreError;
use tesla_notes::memo::CreateMemoParams;
use tesla_notes::memo::MemoStore;
use tesla_notes::memo::UpdateMemoParams;

fn params(content: &str) -> CreateMemoParams {
    CreateMemoParams { content: content.to_string(), category: None, target_date: None }
}

fn no_update() -> UpdateMemoParams {
    UpdateMemoParams {
        content: None,
        category: None,
        target_date: None,
        completion_status: None,
        pinned: None,
        archived: None,
    }
}

fn local_day_of(ts: i64) -> String {
    chrono::DateTime::<chrono::Utc>::from_timestamp(ts, 0)
        .unwrap()
        .with_timezone(&chrono::Local)
        .format("%Y-%m-%d")
        .to_string()
}

#[test]
fn create_applies_defaults() {
    let mut s = MemoStore::new();
    let m = s.create_memo(params("hello")).unwrap();
    assert_eq!(m.category, "daily");
    assert!(m.target_date.is_none());
    assert_eq!(m.completion_status, "pending");
    assert_eq!(m.content, "hello");
    assert!(!m.pinned);
    assert!(!m.archived);
    assert_eq!(m.created_ts, m.updated_ts);
    assert_eq!(m.id, 1);
}

#[test]
fn create_keeps_supplied_fields() {
    let mut s = MemoStore::new();
    let m = s
        .create_memo(CreateMemoParams {
            content: "x".to_string(),
            category: Some("work".to_string()),
            target_date: Some("2024-01-15".to_string()),
        })
        .unwrap();
    assert_eq!(m.category, "work");
    assert_eq!(m.target_date.as_deref(), Some("2024-01-15"));
}

#[test]
fn create_timestamps_come_from_the_clock() {
    let before = chrono::Utc::now().timestamp();
    let mut s = MemoStore::new();
    let m = s.create_memo(params("x")).unwrap();
    let after = chrono::Utc::now().timestamp();
    assert!(before <= m.created_ts && m.created_ts <= after);
}

#[test]
fn uids_are_pairwise_distinct() {
    let mut s = MemoStore::new();
    let mut uids: Vec<String> = Vec::new();
    for i in 0..8 {
        let m = s.create_memo(params(&format!("memo {}", i))).unwrap();
        assert_eq!(m.uid.len(), 36);
        uids.push(m.uid);
    }
    for i in 0..uids.len() {
        for j in (i + 1)..uids.len() {
            assert_ne!(uids[i], uids[j]);
        }
    }
}

#[test]
fn duplicate_uid_is_a_persistence_error() {
    let mut s = MemoStore::new();
    s.create_memo_at(params("a"), "same-uid".to_string(), 100).unwrap();
    let r = s.create_memo_at(params("b"), "same-uid".to_string(), 101);
    assert_eq!(r.unwrap_err(), StoreError::PersistenceError);
}

#[test]
fn update_of_content_alone_keeps_the_rest() {
    let mut s = MemoStore::new();
    let m = s
        .create_memo(CreateMemoParams {
            content: "before".to_string(),
            category: Some("work".to_string()),
            target_date: Some("2024-02-02".to_string()),
        })
        .unwrap();
    let mut pin = no_update();
    pin.pinned = Some(true);
    let m = s.update_memo(m.id, pin).unwrap();
    let prev_updated = m.updated_ts;

    let mut up = no_update();
    up.content = Some("after".to_string());
    let m2 = s.update_memo(m.id, up).unwrap();
    assert_eq!(m2.content, "after");
    assert_eq!(m2.category, "work");
    assert_eq!(m2.target_date.as_deref(), Some("2024-02-02"));
    assert_eq!(m2.completion_status, "pending");
    assert!(m2.pinned);
    assert!(!m2.archived);
    assert_eq!(m2.uid, m.uid);
    assert_eq!(m2.created_ts, m.created_ts);
    assert!(m2.updated_ts >= prev_updated);
}

#[test]
fn update_of_missing_id_is_not_found() {
    let mut s = MemoStore::new();
    let r = s.update_memo(42, no_update());
    assert_eq!(r.unwrap_err(), StoreError::NotFound);
}

#[test]
fn toggle_cycles_back_to_pending() {
    let mut s = MemoStore::new();
    let m = s.create_memo(params("x")).unwrap();
    assert_eq!(m.completion_status, "pending");
    let m = s.toggle_completion_status(m.id).unwrap();
    assert_eq!(m.completion_status, "completed");
    let m = s.toggle_completion_status(m.id).unwrap();
    assert_eq!(m.completion_status, "incomplete");
    let m = s.toggle_completion_status(m.id).unwrap();
    assert_eq!(m.completion_status, "pending");
}

#[test]
fn toggle_treats_unrecognized_status_as_pending() {
    let mut s = MemoStore::new();
    let m = s.create_memo(params("x")).unwrap();
    let mut up = no_update();
    up.completion_status = Some("garbled".to_string());
    s.update_memo(m.id, up).unwrap();
    let m = s.toggle_completion_status(m.id).unwrap();
    assert_eq!(m.completion_status, "completed");
}

#[test]
fn toggle_of_missing_id_is_not_found() {
    let mut s = MemoStore::new();
    assert_eq!(s.toggle_completion_status(7).unwrap_err(), StoreError::NotFound);
}

#[test]
fn pinned_memo_lists_before_a_later_unpinned_one() {
    let mut s = MemoStore::new();
    let pinned = s.create_memo_at(params("old but pinned"), "u1".to_string(), 100).unwrap();
    let mut pin = no_update();
    pin.pinned = Some(true);
    s.update_memo_at(pinned.id, pin, 100).unwrap();
    s.create_memo_at(params("newer"), "u2".to_string(), 200).unwrap();

    let page = s.get_memos(Some(1), Some(0), None).unwrap();
    assert_eq!(page.len(), 1);
    assert_eq!(page[0].content, "old but pinned");
}

#[test]
fn listing_excludes_archived_and_filters_by_category() {
    let mut s = MemoStore::new();
    let a = s
        .create_memo_at(
            CreateMemoParams {
                content: "a".to_string(),
                category: Some("work".to_string()),
                target_date: None,
            },
            "u1".to_string(),
            100,
        )
        .unwrap();
    s.create_memo_at(
        CreateMemoParams {
            content: "b".to_string(),
            category: Some("play".to_string()),
            target_date: None,
        },
        "u2".to_string(),
        200,
    )
    .unwrap();
    let c = s
        .create_memo_at(
            CreateMemoParams {
                content: "c".to_string(),
                category: Some("work".to_string()),
                target_date: None,
            },
            "u3".to_string(),
            300,
        )
        .unwrap();

    let work = s.get_memos(None, None, Some("work")).unwrap();
    assert_eq!(work.len(), 2);
    assert_eq!(work[0].content, "c");
    assert_eq!(work[1].content, "a");

    let mut archive = no_update();
    archive.archived = Some(true);
    s.update_memo_at(c.id, archive, 300).unwrap();
    let work = s.get_memos(None, None, Some("work")).unwrap();
    assert_eq!(work.len(), 1);
    assert_eq!(work[0].id, a.id);
}

#[test]
fn listing_pages_with_limit_and_offset() {
    let mut s = MemoStore::new();
    for i in 0..5 {
        s.create_memo_at(params(&format!("m{}", i)), format!("u{}", i), 100 + i).unwrap();
    }
    // newest first: m4 m3 m2 m1 m0
    let page = s.get_memos(Some(2), Some(1), None).unwrap();
    assert_eq!(page.len(), 2);
    assert_eq!(page[0].content, "m3");
    assert_eq!(page[1].content, "m2");

    let all = s.get_memos(Some(-1), Some(0), None).unwrap();
    assert_eq!(all.len(), 5);

    let neg_off = s.get_memos(Some(2), Some(-3), None).unwrap();
    assert_eq!(neg_off[0].content, "m4");

    let past_end = s.get_memos(Some(2), Some(9), None).unwrap();
    assert!(past_end.is_empty());
}

#[test]
fn empty_search_returns_everything_newest_first() {
    let mut s = MemoStore::new();
    s.create_memo_at(params("mid"), "u1".to_string(), 200).unwrap();
    s.create_memo_at(params("old"), "u2".to_string(), 100).unwrap();
    s.create_memo_at(params("new"), "u3".to_string(), 300).unwrap();

    let found = s.search_memos("").unwrap();
    assert_eq!(found.len(), 3);
    assert_eq!(found[0].content, "new");
    assert_eq!(found[1].content, "mid");
    assert_eq!(found[2].content, "old");
}

#[test]
fn search_is_capped_at_fifty() {
    let mut s = MemoStore::new();
    for i in 0..55 {
        s.create_memo_at(params(&format!("m{}", i)), format!("u{}", i), i).unwrap();
    }
    let found = s.search_memos("").unwrap();
    assert_eq!(found.len(), 50);
    assert_eq!(found[0].content, "m54");
}

#[test]
fn search_matches_substrings_case_insensitively() {
    let mut s = MemoStore::new();
    s.create_memo_at(params("Hello World"), "u1".to_string(), 100).unwrap();
    s.create_memo_at(params("nothing here"), "u2".to_string(), 200).unwrap();

    let found = s.search_memos("hello").unwrap();
    assert_eq!(found.len(), 1);
    assert_eq!(found[0].content, "Hello World");

    assert!(s.search_memos("zz").unwrap().is_empty());
}

#[test]
fn search_keeps_wildcards_of_the_query() {
    let mut s = MemoStore::new();
    s.create_memo_at(params("axc"), "u1".to_string(), 100).unwrap();
    s.create_memo_at(params("abbc"), "u2".to_string(), 200).unwrap();

    // `_` stands for exactly one character
    let found = s.search_memos("a_c").unwrap();
    assert_eq!(found.len(), 1);
    assert_eq!(found[0].content, "axc");

    // `%` stands for any run of characters
    let found = s.search_memos("a%c").unwrap();
    assert_eq!(found.len(), 2);
}

#[test]
fn search_excludes_archived() {
    let mut s = MemoStore::new();
    let m = s.create_memo_at(params("findable"), "u1".to_string(), 100).unwrap();
    let mut archive = no_update();
    archive.archived = Some(true);
    s.update_memo_at(m.id, archive, 100).unwrap();
    assert!(s.search_memos("findable").unwrap().is_empty());
}

#[test]
fn search_handles_text_beyond_ascii() {
    let mut s = MemoStore::new();
    s.create_memo_at(params("笔记内容"), "u1".to_string(), 100).unwrap();
    s.create_memo_at(params("其他"), "u2".to_string(), 200).unwrap();

    let found = s.search_memos("记内").unwrap();
    assert_eq!(found.len(), 1);
    assert_eq!(found[0].content, "笔记内容");
}

#[test]
fn update_replaces_target_date_when_supplied() {
    let mut s = MemoStore::new();
    let m = s
        .create_memo(CreateMemoParams {
            content: "x".to_string(),
            category: None,
            target_date: Some("2024-01-01".to_string()),
        })
        .unwrap();
    let mut up = no_update();
    up.target_date = Some("2024-06-30".to_string());
    let m2 = s.update_memo(m.id, up).unwrap();
    assert_eq!(m2.target_date.as_deref(), Some("2024-06-30"));
}

#[test]
fn listing_defaults_to_fifty_per_page() {
    let mut s = MemoStore::new();
    for i in 0..55 {
        s.create_memo_at(params(&format!("m{}", i)), format!("u{}", i), i).unwrap();
    }
    let page = s.get_memos(None, None, None).unwrap();
    assert_eq!(page.len(), 50);
}

#[test]
fn delete_is_idempotent_and_lookup_then_fails() {
    let mut s = MemoStore::new();
    assert!(s.delete_memo(12345).is_ok());
    let m = s.create_memo(params("x")).unwrap();
    assert!(s.delete_memo(m.id).is_ok());
    assert_eq!(s.get_memo_by_id(m.id).unwrap_err(), StoreError::NotFound);
    assert!(s.delete_memo(m.id).is_ok());
    assert_eq!(s.get_memo_by_id(m.id).unwrap_err(), StoreError::NotFound);
}

#[test]
fn by_date_uses_target_date_or_local_creation_day() {
    let ts: i64 = 1_705_310_000;
    let day = local_day_of(ts);
    let two_days_later: i64 = ts + 2 * 86400;

    let mut s = MemoStore::new();
    let created_that_day =
        s.create_memo_at(params("created then"), "u1".to_string(), ts).unwrap();
    assert!(created_that_day.target_date.is_none());
    s.create_memo_at(params("created later"), "u2".to_string(), two_days_later).unwrap();
    s.create_memo_at(
        CreateMemoParams {
            content: "targeted at that day".to_string(),
            category: None,
            target_date: Some(day.clone()),
        },
        "u3".to_string(),
        two_days_later,
    )
    .unwrap();

    let listed = s.get_memos_by_date(&day).unwrap();
    assert_eq!(listed.len(), 2);
    // both match the date; the later-created one is first
    assert_eq!(listed[0].content, "targeted at that day");
    assert_eq!(listed[1].content, "created then");
}

#[test]
fn by_date_puts_pinned_first() {
    let ts: i64 = 1_705_310_000;
    let day = local_day_of(ts);
    let mut s = MemoStore::new();
    let early = s.create_memo_at(params("early pinned"), "u1".to_string(), ts).unwrap();
    let mut pin = no_update();
    pin.pinned = Some(true);
    s.update_memo_at(early.id, pin, ts).unwrap();
    s.create_memo_at(params("late unpinned"), "u2".to_string(), ts + 60).unwrap();

    let listed = s.get_memos_by_date(&day).unwrap();
    assert_eq!(listed.len(), 2);
    assert_eq!(listed[0].content, "early pinned");
}

#[test]
fn get_memo_by_id_returns_the_row() {
    let mut s = MemoStore::new();
    let m = s.create_memo(params("x")).unwrap();
    let got = s.get_memo_by_id(m.id).unwrap();
    assert_eq!(got.uid, m.uid);
    assert_eq!(got.content, "x");
    assert_eq!(s.get_memo_by_id(m.id + 1).unwrap_err(), StoreError::NotFound);
}

#[test]
fn restore_rejects_a_row_updated_before_created() {
    let mut s = MemoStore::new();
    let mut m = s.create_memo_at(params("x"), "u1".to_string(), 500).unwrap();
    s.delete_memo(m.id).unwrap();
    m.updated_ts = 400;
    assert_eq!(s.restore_memo(m).unwrap_err(), StoreError::PersistenceError);
}

#[test]
fn restore_keeps_the_row_and_the_id_sequence() {
    let mut s = MemoStore::new();
    let m = s.create_memo_at(params("kept"), "u1".to_string(), 500).unwrap();
    let mut fresh = MemoStore::new();
    fresh.restore_memo(m.clone()).unwrap();
    let got = fresh.get_memo_by_id(m.id).unwrap();
    assert_eq!(got.content, "kept");
    let next = fresh.create_memo_at(params("later"), "u2".to_string(), 600).unwrap();
    assert!(next.id > m.id);
}

#[test]
fn update_never_moves_updated_ts_backwards() {
    let mut s = MemoStore::new();
    let m = s.create_memo(params("x")).unwrap();
    let mut last = m.updated_ts;
    for _ in 0..3 {
        let mut up = no_update();
        up.content = Some("y".to_string());
        let m2 = s.update_memo(m.id, up).unwrap();
        assert!(m2.updated_ts >= last);
        assert!(m2.updated_ts >= m2.created_ts);
        last = m2.updated_ts;
    }
}

#[test]
fn db_path_is_fixed() {
    assert!(tesla_notes::get_db_path().ends_with("tesla_notes.db"));
}
