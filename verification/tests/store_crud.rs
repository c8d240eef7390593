use taskstore::{
    Storage, Task, TaskMetrics, TaskPriority, TaskStatus, Timestamp, User, StoreError,
};

fn blank_task(title: &str, assigned_to: &str) -> Task {
    Task {
        id: String::new(),
        title: title.to_string(),
        description: String::new(),
        status: TaskStatus::Todo,
        priority: TaskPriority::Medium,
        tags: Vec::new(),
        assigned_to: assigned_to.to_string(),
        created_at: None,
        updated_at: None,
        due_date: None,
        metrics: Some(TaskMetrics { estimated_hours: 0, actual_hours: 0, completion_percent: 0 }),
        comments: Vec::new(),
        attachments: Vec::new(),
    }
}

#[test]
fn create_task_assigns_fresh_identifier() {
    let mut s = Storage::new();
    let t = s.create_task(blank_task("write report", ""));
    assert_eq!(t.id.len(), 36);
    assert!(t.created_at.is_some());
    assert!(t.updated_at.is_some());
    assert_eq!(s.count_tasks(), 1);
    let got = s.get_task(&t.id).expect("stored task");
    assert_eq!(got, t);
}

#[test]
fn concurrent_style_creates_preserve_all_writes() {
    let mut s = Storage::new();
    let before = s.count_tasks();
    let mut ids = Vec::new();
    for i in 0..5 {
        let t = s.create_task(blank_task(&format!("job {}", i), ""));
        ids.push(t.id);
    }
    for a in 0..ids.len() {
        for b in 0..a {
            assert_ne!(ids[a], ids[b]);
        }
    }
    assert_eq!(s.count_tasks(), before + 5);
    for id in &ids {
        assert!(s.get_task(id).is_some());
    }
}

#[test]
fn update_task_is_an_upsert() {
    let mut s = Storage::new();
    let mut t = blank_task("original", "");
    t.id = "fixed-id".to_string();
    s.update_task(t);
    assert_eq!(s.count_tasks(), 1);
    let mut t2 = blank_task("replaced", "");
    t2.id = "fixed-id".to_string();
    s.update_task(t2);
    assert_eq!(s.count_tasks(), 1);
    assert_eq!(s.get_task("fixed-id").unwrap().title, "replaced");
}

#[test]
fn update_task_restores_assignment_index() {
    let mut s = Storage::new();
    let u1 = s.create_user(User::signup("ann".into(), "ann@x".into(), "Ann".into(), 0)).unwrap();
    let u2 = s.create_user(User::signup("bob".into(), "bob@x".into(), "Bob".into(), 0)).unwrap();
    let t = s.create_task(blank_task("shared", &u1.id));
    assert_eq!(s.count_user_tasks(&u1.id), 1);
    assert_eq!(s.count_user_tasks(&u2.id), 0);
    let mut moved = s.get_task(&t.id).unwrap();
    moved.assigned_to = u2.id.clone();
    s.update_task(moved);
    assert_eq!(s.count_user_tasks(&u1.id), 0);
    assert_eq!(s.count_user_tasks(&u2.id), 1);
    let listed = s.get_tasks_by_user(&u2.id, 10, "");
    assert_eq!(listed.len(), 1);
    assert_eq!(listed[0].id, t.id);
}

#[test]
fn delete_task_unfiles_it() {
    let mut s = Storage::new();
    let u = s.create_user(User::signup("cia".into(), "cia@x".into(), "Cia".into(), 0)).unwrap();
    let t = s.create_task(blank_task("tidy", &u.id));
    assert_eq!(s.count_user_tasks(&u.id), 1);
    assert!(s.delete_task(&t.id));
    assert_eq!(s.count_tasks(), 0);
    assert_eq!(s.count_user_tasks(&u.id), 0);
    // idempotent: deleting again reports nothing removed
    assert!(!s.delete_task(&t.id));
}

#[test]
fn create_user_rejects_taken_email() {
    let mut s = Storage::new();
    let first = s
        .create_user(User::signup("dora".into(), "dora@x".into(), "Dora".into(), 1))
        .expect("first signup");
    assert_eq!(first.id.len(), 36);
    let before = s.count_users();
    let err = s
        .create_user(User::signup("other".into(), "dora@x".into(), "Other".into(), 1))
        .expect_err("duplicate email");
    assert_eq!(err, StoreError::AlreadyExists);
    // the store is unchanged afterwards
    assert_eq!(s.count_users(), before);
    let still = s.get_user_by_email("dora@x").expect("original user");
    assert_eq!(still.username, "dora");
    // duplicate usernames are deliberately not rejected
    let second = s
        .create_user(User::signup("dora".into(), "dora2@x".into(), "Dora Two".into(), 1))
        .expect("same username, new email");
    assert_ne!(second.id, first.id);
}

#[test]
fn delete_user_clears_every_index() {
    let mut s = Storage::new();
    let u = s.create_user(User::signup("eve".into(), "eve@x".into(), "Eve".into(), 0)).unwrap();
    let t = s.create_task(blank_task("hers", &u.id));
    assert!(s.delete_user(&u.id));
    assert!(s.get_user(&u.id).is_none());
    assert!(s.get_user_by_email("eve@x").is_none());
    assert!(s.get_user_by_username("eve").is_none());
    assert_eq!(s.count_user_tasks(&u.id), 0);
    // her task keeps its dangling assignment on purpose
    assert_eq!(s.get_task(&t.id).unwrap().assigned_to, u.id);
    assert!(!s.delete_user(&u.id));
}

#[test]
fn update_user_is_an_upsert_without_index_maintenance() {
    let mut s = Storage::new();
    let mut u = s.create_user(User::signup("fay".into(), "fay@x".into(), "Fay".into(), 0)).unwrap();
    u.full_name = "Fay Renamed".to_string();
    s.update_user(u.clone());
    assert_eq!(s.get_user(&u.id).unwrap().full_name, "Fay Renamed");
    assert_eq!(s.count_users(), 1);
}

#[test]
fn record_login_stamps_last_login() {
    let mut s = Storage::new();
    let u = s.create_user(User::signup("gil".into(), "gil@x".into(), "Gil".into(), 0)).unwrap();
    assert!(u.last_login.is_none());
    let stamped = s.record_login("gil@x", Timestamp { seconds: 1000, nanos: 5 }).unwrap();
    assert_eq!(stamped.last_login, Some(Timestamp { seconds: 1000, nanos: 5 }));
    assert_eq!(s.get_user(&u.id).unwrap().last_login, Some(Timestamp { seconds: 1000, nanos: 5 }));
    assert!(s.record_login("nobody@x", Timestamp { seconds: 1, nanos: 0 }).is_none());
}

#[test]
fn batch_create_files_everything_as_given() {
    let mut s = Storage::new();
    let mut t1 = blank_task("a", "");
    t1.id = "t-1".into();
    let mut t2 = blank_task("b", "u-1");
    t2.id = "t-2".into();
    let mut u1 = User::signup("hal".into(), "hal@x".into(), "Hal".into(), 0);
    u1.id = "u-1".into();
    s.batch_create_users(vec![u1]);
    s.batch_create_tasks(vec![t1, t2]);
    assert_eq!(s.count_tasks(), 2);
    assert_eq!(s.count_users(), 1);
    assert_eq!(s.get_task("t-1").unwrap().title, "a");
    assert_eq!(s.count_user_tasks("u-1"), 1);
}

#[test]
fn bulk_update_rewrites_found_and_reports_missing() {
    let mut s = Storage::new();
    let t1 = s.create_task(blank_task("one", ""));
    let mut t2 = blank_task("two", "");
    t2.tags = vec!["keep".to_string(), "drop".to_string()];
    let t2 = s.create_task(t2);
    let ids = vec![t1.id.clone(), "missing-id".to_string(), t2.id.clone()];
    let (updated, failed) = s.bulk_update_tasks(
        &ids,
        TaskStatus::Done,
        "",
        &vec!["fresh".to_string()],
        &vec!["drop".to_string()],
        Timestamp { seconds: 99, nanos: 0 },
    );
    assert_eq!(updated, 2);
    assert_eq!(failed, vec!["missing-id".to_string()]);
    let r1 = s.get_task(&t1.id).unwrap();
    assert_eq!(r1.status, TaskStatus::Done);
    assert_eq!(r1.tags, vec!["fresh".to_string()]);
    assert_eq!(r1.updated_at, Some(Timestamp { seconds: 99, nanos: 0 }));
    let r2 = s.get_task(&t2.id).unwrap();
    assert_eq!(r2.tags, vec!["keep".to_string(), "fresh".to_string()]);
}
