use taskstore::{
    Storage, StoreError, Task, TaskComment, TaskAttachment, TaskMetrics, TaskPriority, TaskStatus,
    Timestamp, User,
};

fn rich_task() -> Task {
    Task {
        id: String::new(),
        title: "Prépare the réport — naïve 報告".to_string(),
        description: "with\nnewlines and \"quotes\" and \\ backslashes".to_string(),
        status: TaskStatus::InProgress,
        priority: TaskPriority::Urgent,
        tags: vec!["α".to_string(), "beta".to_string(), "α".to_string()],
        assigned_to: String::new(),
        created_at: None,
        updated_at: None,
        due_date: Some(Timestamp { seconds: -12345, nanos: 999_999_999 }),
        metrics: Some(TaskMetrics {
            estimated_hours: -3,
            actual_hours: 7,
            completion_percent: 250,
        }),
        comments: vec![TaskComment {
            id: "c1".to_string(),
            author_id: "a1".to_string(),
            content: "first!".to_string(),
            created_at: Some(Timestamp { seconds: 9, nanos: 1 }),
        }],
        attachments: vec![TaskAttachment {
            id: "att1".to_string(),
            filename: "notes.txt".to_string(),
            content_type: "text/plain".to_string(),
            file_size: u64::MAX,
            uploaded_at: None,
            uploaded_by: "someone".to_string(),
            url: "/attachments/att1".to_string(),
        }],
    }
}

#[test]
fn snapshot_round_trip_restores_an_equivalent_store() {
    let mut s = Storage::new();
    let u = s
        .create_user(User::signup("mia".to_string(), "mia@x".to_string(), "Mía".to_string(), 2))
        .unwrap();
    let mut t = rich_task();
    t.assigned_to = u.id.clone();
    let t = s.create_task(t);
    let t2 = s.create_task(Task { title: "second".to_string(), ..rich_task() });
    let text = s.snapshot_string();

    let mut fresh = Storage::new();
    fresh.load_snapshot(&text).expect("the snapshot parses back");
    assert_eq!(fresh.count_users(), 1);
    assert_eq!(fresh.count_tasks(), 2);
    assert_eq!(fresh.get_user(&u.id).unwrap(), s.get_user(&u.id).unwrap());
    assert_eq!(fresh.get_user_by_email("mia@x").unwrap().id, u.id);
    assert_eq!(fresh.get_user_by_username("mia").unwrap().id, u.id);
    assert_eq!(fresh.get_task(&t.id).unwrap(), s.get_task(&t.id).unwrap());
    assert_eq!(fresh.get_task(&t2.id).unwrap(), s.get_task(&t2.id).unwrap());
    assert_eq!(fresh.count_user_tasks(&u.id), 1);
    // and the reloaded store serializes to the same document
    assert_eq!(fresh.snapshot_string(), text);
}

#[test]
fn empty_store_round_trips() {
    let s = Storage::new();
    let text = s.snapshot_string();
    let mut fresh = Storage::new();
    fresh.load_snapshot(&text).expect("empty snapshot parses");
    assert_eq!(fresh.count_users(), 0);
    assert_eq!(fresh.count_tasks(), 0);
}

#[test]
fn load_replaces_the_whole_state() {
    let mut a = Storage::new();
    a.create_task(Task { title: "only in a".to_string(), ..rich_task() });
    let text = a.snapshot_string();

    let mut b = Storage::new();
    let stale = b.create_task(Task { title: "stale".to_string(), ..rich_task() });
    b.load_snapshot(&text).unwrap();
    assert_eq!(b.count_tasks(), 1);
    assert!(b.get_task(&stale.id).is_none());
}

#[test]
fn corrupt_snapshots_are_refused_and_change_nothing() {
    let mut s = Storage::new();
    let kept = s.create_task(Task { title: "keep me".to_string(), ..rich_task() });

    assert_eq!(s.load_snapshot(""), Err(StoreError::DecodeFailure));
    assert_eq!(s.load_snapshot("not a snapshot"), Err(StoreError::DecodeFailure));
    assert_eq!(s.load_snapshot("tsv1"), Err(StoreError::DecodeFailure));

    let good = s.snapshot_string();
    let truncated: String = good.chars().take(good.chars().count() - 1).collect();
    assert_eq!(s.load_snapshot(&truncated), Err(StoreError::DecodeFailure));
    let padded = format!("{}x", good);
    assert_eq!(s.load_snapshot(&padded), Err(StoreError::DecodeFailure));

    // the store still holds what it held
    assert_eq!(s.count_tasks(), 1);
    assert_eq!(s.get_task(&kept.id).unwrap().title, "keep me");
}

#[test]
fn backup_text_is_independent_of_the_configured_path() {
    let mut s = Storage::with_persistence("primary.snapshot".to_string(), true);
    assert!(s.auto_save_enabled());
    assert_eq!(s.persistence_path().map(|p| p.as_str()), Some("primary.snapshot"));
    s.create_task(Task { title: "anywhere".to_string(), ..rich_task() });
    let backup = s.snapshot_string();
    let mut restored = Storage::new();
    restored.load_snapshot(&backup).unwrap();
    assert_eq!(restored.count_tasks(), 1);
    assert!(restored.persistence_path().is_none());
}
