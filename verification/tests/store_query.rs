use taskstore::{
    next_page_token, parse_page_token, Storage, Task, TaskMetrics, TaskPriority, TaskStatus,
    Timestamp, User, UserPreferences, StoreError,
};

fn blank_task(title: &str, description: &str) -> Task {
    Task {
        id: String::new(),
        title: title.to_string(),
        description: description.to_string(),
        status: TaskStatus::Todo,
        priority: TaskPriority::Medium,
        tags: Vec::new(),
        assigned_to: String::new(),
        created_at: None,
        updated_at: None,
        due_date: None,
        metrics: Some(TaskMetrics { estimated_hours: 0, actual_hours: 0, completion_percent: 0 }),
        comments: Vec::new(),
        attachments: Vec::new(),
    }
}

#[test]
fn page_tokens_decode_leniently() {
    assert_eq!(parse_page_token(""), 0);
    assert_eq!(parse_page_token("page_0"), 0);
    assert_eq!(parse_page_token("page_7"), 7);
    assert_eq!(parse_page_token("page_"), 0);
    assert_eq!(parse_page_token("page_x7"), 0);
    assert_eq!(parse_page_token("7"), 0);
    assert_eq!(parse_page_token("Page_7"), 0);
    assert_eq!(parse_page_token("page_99999999999999999999999"), 0);
}

#[test]
fn continuation_token_signals_a_full_page() {
    assert_eq!(next_page_token(2, 2, ""), "page_1");
    assert_eq!(next_page_token(2, 2, "page_1"), "page_2");
    assert_eq!(next_page_token(1, 2, "page_2"), "");
    assert_eq!(next_page_token(0, 2, ""), "");
    // a malformed incoming token restarts the numbering
    assert_eq!(next_page_token(2, 2, "junk"), "page_1");
}

#[test]
fn pagination_walks_every_task_once() {
    let mut s = Storage::new();
    let mut all_ids = Vec::new();
    for i in 0..5 {
        all_ids.push(s.create_task(blank_task(&format!("t{}", i), "")).id);
    }
    let p0 = s.list_tasks(2, "");
    let p1 = s.list_tasks(2, "page_1");
    let p2 = s.list_tasks(2, "page_2");
    assert_eq!(p0.len(), 2);
    assert_eq!(p1.len(), 2);
    assert_eq!(p2.len(), 1);
    let mut seen: Vec<String> =
        p0.iter().chain(p1.iter()).chain(p2.iter()).map(|t| t.id.clone()).collect();
    seen.sort();
    let mut expected = all_ids.clone();
    expected.sort();
    assert_eq!(seen, expected);
    // beyond the end the page is empty
    assert_eq!(s.list_tasks(2, "page_3").len(), 0);
    // the boundary batch still signals a possible next page
    assert_eq!(next_page_token(p1.len(), 2, "page_1"), "page_2");
}

#[test]
fn list_users_pages_in_listing_order() {
    let mut s = Storage::new();
    for i in 0..3 {
        s.create_user(User::signup(
            format!("user{}", i),
            format!("user{}@x", i),
            format!("User {}", i),
            0,
        ))
        .unwrap();
    }
    let first = s.list_users(2, "");
    assert_eq!(first.len(), 2);
    assert_eq!(first[0].username, "user0");
    assert_eq!(first[1].username, "user1");
    let second = s.list_users(2, "page_1");
    assert_eq!(second.len(), 1);
    assert_eq!(second[0].username, "user2");
    assert_eq!(s.list_users(0, "").len(), 0);
    assert_eq!(s.list_users(-3, "").len(), 0);
}

#[test]
fn search_is_case_insensitive_over_title_and_description() {
    let mut s = Storage::new();
    s.create_task(blank_task("Fix The BUG", ""));
    s.create_task(blank_task("polish docs", "has a Bug somewhere"));
    s.create_task(blank_task("unrelated", "nothing here"));
    let hits = s.search_tasks("the bug", 10, "");
    assert_eq!(hits.len(), 1);
    assert_eq!(hits[0].title, "Fix The BUG");
    let hits = s.search_tasks("BUG", 10, "");
    assert_eq!(hits.len(), 2);
    let hits = s.search_tasks("absent", 10, "");
    assert_eq!(hits.len(), 0);
    // the empty query matches everything
    assert_eq!(s.search_tasks("", 10, "").len(), 3);
}

#[test]
fn search_users_covers_username_email_and_name() {
    let mut s = Storage::new();
    s.create_user(User::signup("ida".into(), "ida@corp".into(), "Ida Smith".into(), 0)).unwrap();
    s.create_user(User::signup("john".into(), "j@corp".into(), "John SMITH".into(), 0)).unwrap();
    s.create_user(User::signup("kate".into(), "kate@other".into(), "Kate".into(), 0)).unwrap();
    assert_eq!(s.search_users("smith", 10, "").len(), 2);
    assert_eq!(s.search_users("CORP", 10, "").len(), 2);
    assert_eq!(s.search_users("kate@other", 10, "").len(), 1);
}

#[test]
fn counts_by_status_and_priority() {
    let mut s = Storage::new();
    let mut a = blank_task("a", "");
    a.status = TaskStatus::Todo;
    a.priority = TaskPriority::High;
    let mut b = blank_task("b", "");
    b.status = TaskStatus::Done;
    b.priority = TaskPriority::High;
    let mut c = blank_task("c", "");
    c.status = TaskStatus::Done;
    c.priority = TaskPriority::Low;
    for t in [a, b, c] {
        let mut stored = blank_task("", "");
        stored.title = t.title.clone();
        stored.status = t.status;
        stored.priority = t.priority;
        s.create_task(stored);
    }
    assert_eq!(s.count_tasks_by_status(TaskStatus::Done), 2);
    assert_eq!(s.count_tasks_by_status(TaskStatus::Todo), 1);
    assert_eq!(s.count_tasks_by_status(TaskStatus::Cancelled), 0);
    assert_eq!(s.count_tasks_by_priority(TaskPriority::High), 2);
    assert_eq!(s.count_tasks_by_priority(TaskPriority::Low), 1);
    assert_eq!(s.get_tasks_by_status(TaskStatus::Done, 10, "").len(), 2);
    assert_eq!(s.get_tasks_by_priority(TaskPriority::High, 10, "").len(), 2);
}

#[test]
fn masked_patch_changes_only_named_fields() {
    let mut s = Storage::new();
    let mut t = blank_task("stable title", "stable description");
    t.tags = vec!["one".to_string()];
    let t = s.create_task(t);
    let mut patch = blank_task("SHOULD NOT LAND", "SHOULD NOT LAND");
    patch.status = TaskStatus::Done;
    let mask = vec!["status".to_string()];
    let now = Timestamp { seconds: 777, nanos: 0 };
    let after = s.patch_task_at(&t.id, &patch, &mask, now).expect("patched");
    assert_eq!(after.status, TaskStatus::Done);
    assert_eq!(after.updated_at, Some(now));
    // every other field is untouched
    assert_eq!(after.title, t.title);
    assert_eq!(after.description, t.description);
    assert_eq!(after.priority, t.priority);
    assert_eq!(after.tags, t.tags);
    assert_eq!(after.assigned_to, t.assigned_to);
    assert_eq!(after.created_at, t.created_at);
    assert_eq!(after.due_date, t.due_date);
    assert_eq!(after.metrics, t.metrics);
    assert_eq!(after.comments, t.comments);
    assert_eq!(after.attachments, t.attachments);
    assert_eq!(s.get_task(&t.id).unwrap(), after);
}

#[test]
fn patch_ignores_unknown_fields_and_reports_missing_tasks() {
    let mut s = Storage::new();
    let t = s.create_task(blank_task("x", ""));
    let patch = blank_task("never", "");
    let mask = vec!["colour".to_string()];
    let after = s
        .patch_task_at(&t.id, &patch, &mask, Timestamp { seconds: 5, nanos: 0 })
        .expect("lenient");
    assert_eq!(after.title, "x");
    let err = s
        .patch_task_at("no-such-id", &patch, &mask, Timestamp { seconds: 5, nanos: 0 })
        .expect_err("missing");
    assert_eq!(err, StoreError::NotFound);
}

#[test]
fn patch_of_assignment_restores_the_index() {
    let mut s = Storage::new();
    let u = s.create_user(User::signup("lu".into(), "lu@x".into(), "Lu".into(), 0)).unwrap();
    let t = s.create_task(blank_task("float", ""));
    let mut patch = blank_task("", "");
    patch.assigned_to = u.id.clone();
    let mask = vec!["assignedTo".to_string()];
    s.patch_task_at(&t.id, &patch, &mask, Timestamp { seconds: 1, nanos: 0 }).unwrap();
    assert_eq!(s.count_user_tasks(&u.id), 1);
    let listed = s.get_tasks_by_user(&u.id, 10, "");
    assert_eq!(listed.len(), 1);
    assert_eq!(listed[0].id, t.id);
}

#[test]
fn overdue_transition() {
    let mut s = Storage::new();
    let now_seconds = 1_000_000;
    let mut t = blank_task("late", "");
    t.due_date = Some(Timestamp { seconds: now_seconds - 10, nanos: 0 });
    t.status = TaskStatus::Todo;
    let t = s.create_task(t);
    assert_eq!(s.count_overdue_tasks_at(now_seconds), 1);
    let mut patch = blank_task("", "");
    patch.status = TaskStatus::Done;
    let mask = vec!["status".to_string()];
    s.patch_task_at(&t.id, &patch, &mask, Timestamp { seconds: now_seconds, nanos: 0 }).unwrap();
    assert_eq!(s.count_overdue_tasks_at(now_seconds), 0);
    // a future due date is never overdue, nor is a task without one
    let mut future = blank_task("future", "");
    future.due_date = Some(Timestamp { seconds: now_seconds + 10, nanos: 0 });
    s.create_task(future);
    s.create_task(blank_task("no due date", ""));
    assert_eq!(s.count_overdue_tasks_at(now_seconds), 0);
}

#[test]
fn analytics_reports_the_simple_counts() {
    let mut s = Storage::new();
    let mut done = blank_task("done", "");
    done.status = TaskStatus::Done;
    s.create_task(done);
    let mut started = blank_task("started", "");
    started.status = TaskStatus::InProgress;
    s.create_task(started);
    let mut late = blank_task("late", "");
    late.status = TaskStatus::Todo;
    late.due_date = Some(Timestamp { seconds: 100, nanos: 0 });
    s.create_task(late);
    let a = s.task_analytics(200);
    assert_eq!(a.total_tasks, 3);
    assert_eq!(a.completed_tasks, 1);
    assert_eq!(a.in_progress_tasks, 1);
    assert_eq!(a.todo_tasks, 1);
    assert_eq!(a.overdue_tasks, 1);
}

#[test]
fn overdue_count_against_the_real_clock() {
    let mut s = Storage::new();
    let mut long_past = blank_task("ancient", "");
    long_past.due_date = Some(Timestamp { seconds: 10, nanos: 0 });
    s.create_task(long_past);
    assert_eq!(s.count_overdue_tasks(), 1);
}

#[test]
fn preferences_update_replaces_the_block_and_stamps() {
    let mut s = Storage::new();
    let u = s.create_user(User::signup("nia".into(), "nia@x".into(), "Nia".into(), 0)).unwrap();
    let prefs = UserPreferences {
        theme: "dark".to_string(),
        language: "de".to_string(),
        timezone: "CET".to_string(),
        notifications_enabled: false,
        email_notifications: false,
    };
    let now = Timestamp { seconds: 55, nanos: 0 };
    let updated = s.update_user_preferences(&u.id, Some(prefs), now).expect("user exists");
    assert_eq!(updated.preferences.as_ref().unwrap().theme, "dark");
    assert_eq!(updated.updated_at, Some(now));
    assert_eq!(s.get_user(&u.id).unwrap().preferences.unwrap().language, "de");
    let err = s.update_user_preferences("missing", None, now).expect_err("unknown user");
    assert_eq!(err, StoreError::NotFound);
}
