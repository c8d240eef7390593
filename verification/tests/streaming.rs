use taskstore::{
    import_item, next_event, synthetic_event, upload_chunk, upload_finish_at, upload_start,
    CreateTaskRequest, Storage, TaskEventType, TaskPriority, TaskStatus, Timestamp,
};

fn request(title: &str) -> CreateTaskRequest {
    CreateTaskRequest {
        title: title.to_string(),
        description: "imported".to_string(),
        priority: TaskPriority::Low,
        tags: vec!["import".to_string()],
        assigned_to: String::new(),
        due_date: None,
    }
}

#[test]
fn import_answers_one_response_per_element_in_order() {
    let mut s = Storage::new();
    let r1 = import_item(&mut s, Some(request("first")));
    let r2 = import_item(&mut s, None);
    let r3 = import_item(&mut s, Some(request("third")));
    assert!(r1.success);
    assert_eq!(r1.message, "Task imported successfully");
    let t1 = r1.task.expect("created task");
    assert_eq!(t1.title, "first");
    assert_eq!(t1.status, TaskStatus::Todo);
    assert_eq!(t1.id.len(), 36);

    // a bad element answers a failure and aborts nothing
    assert!(!r2.success);
    assert!(r2.task.is_none());
    assert_eq!(r2.message, "Import failed");

    assert!(r3.success);
    assert_eq!(s.count_tasks(), 2);
    assert!(s.get_task(&t1.id).is_some());
}

#[test]
fn upload_assembles_chunks_in_arrival_order() {
    let mut s = Storage::new();
    let t = import_item(&mut s, Some(request("owner"))).task.unwrap();
    let before = s.get_task(&t.id).unwrap().updated_at;

    let mut st = upload_start();
    upload_chunk(&mut st, taskstore::UploadChunk {
        task_id: t.id.clone(),
        filename: String::new(),
        content_type: String::new(),
        data: vec![1, 2, 3],
    });
    upload_chunk(&mut st, taskstore::UploadChunk {
        task_id: "ignored-later".to_string(),
        filename: "report.pdf".to_string(),
        content_type: "application/pdf".to_string(),
        data: vec![4, 5],
    });
    upload_chunk(&mut st, taskstore::UploadChunk {
        task_id: String::new(),
        filename: "ignored.pdf".to_string(),
        content_type: String::new(),
        data: vec![],
    });
    // metadata came from the first chunk naming it; bytes concatenated
    assert_eq!(st.task_id, t.id);
    assert_eq!(st.filename, "report.pdf");
    assert_eq!(st.content_type, "application/pdf");
    assert_eq!(st.data, vec![1, 2, 3, 4, 5]);

    let now = Timestamp { seconds: 424242, nanos: 0 };
    let r = upload_finish_at(&mut s, st, "attachment-1".to_string(), now);
    assert!(r.success);
    assert_eq!(r.attachment_id, "attachment-1");
    assert_eq!(r.filename, "report.pdf");
    assert_eq!(r.file_size, 5);
    // the single commit touched the owning task's update stamp
    let after = s.get_task(&t.id).unwrap().updated_at;
    assert_eq!(after, Some(now));
    assert_ne!(after, before);
}

#[test]
fn upload_for_an_unknown_task_still_reports_the_transfer() {
    let mut s = Storage::new();
    let mut st = upload_start();
    upload_chunk(&mut st, taskstore::UploadChunk {
        task_id: "missing".to_string(),
        filename: "f".to_string(),
        content_type: "t".to_string(),
        data: vec![9; 10],
    });
    let r = upload_finish_at(&mut s, st, "att".to_string(), Timestamp { seconds: 1, nanos: 0 });
    assert!(r.success);
    assert_eq!(r.file_size, 10);
    assert_eq!(s.count_tasks(), 0);
}

#[test]
fn synthetic_events_are_numbered_and_fully_populated() {
    let now = Timestamp { seconds: 50, nanos: 0 };
    let e = synthetic_event(7, "event-id-7".to_string(), now);
    assert_eq!(e.event_id, "event-id-7");
    assert_eq!(e.event_type, TaskEventType::Updated);
    assert_eq!(e.user_id, "system");
    assert_eq!(e.timestamp, Some(now));
    let t = e.task.expect("event payload");
    assert_eq!(t.id, "task_7");
    assert_eq!(t.title, "Sample Task 7");
    assert_eq!(t.description, "Auto-generated task event");
    assert_eq!(t.status, TaskStatus::InProgress);
    assert_eq!(t.priority, TaskPriority::Medium);
    assert_eq!(t.tags, vec!["auto".to_string()]);
    assert_eq!(t.assigned_to, "system");

    let e2 = next_event(12);
    assert_eq!(e2.event_id.len(), 36);
    assert_eq!(e2.task.unwrap().id, "task_12");
}
