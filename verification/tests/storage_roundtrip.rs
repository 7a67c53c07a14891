use idm_core::checksum::{ChecksumRequest, ChecksumType};
use idm_core::segment::{Segment, SegmentStatus};
use idm_core::sqlite::{segment_from_row, segment_to_row, task_from_row, task_to_row, SqliteStorage};
use idm_core::storage::MemoryStorage;
use idm_core::task::{Task, TaskId, TaskStatus};

fn sample_task() -> Task {
    let mut t = Task::new("https://example.com/f.bin".to_string(), "/tmp/f.bin".to_string());
    t.priority = 3;
    t.total_bytes = 1000;
    t.downloaded_bytes = 250;
    t.headers.push(("X-Custom".to_string(), "yes".to_string()));
    t.cookies.push(("sid".to_string(), "abc".to_string()));
    t.mirrors.push("https://mirror.example/f.bin".to_string());
    t.checksum = Some(ChecksumRequest {
        checksum_type: ChecksumType::Sha256,
        expected_hex: "ba7816bf".to_string(),
    });
    t.proxy_url = Some("http://proxy.example:8080".to_string());
    t.auth_user = Some("user".to_string());
    t.auth_pass = Some("p4ssw0rd".to_string());
    t.error = Some("previous failure".to_string());
    t
}

fn assert_tasks_equal(a: &Task, b: &Task) {
    assert_eq!(a.id, b.id);
    assert_eq!(a.url, b.url);
    assert_eq!(a.dest_path, b.dest_path);
    assert_eq!(a.status, b.status);
    assert_eq!(a.priority, b.priority);
    assert_eq!(a.total_bytes, b.total_bytes);
    assert_eq!(a.downloaded_bytes, b.downloaded_bytes);
    assert_eq!(a.headers, b.headers);
    assert_eq!(a.cookies, b.cookies);
    assert_eq!(a.mirrors, b.mirrors);
    match (&a.checksum, &b.checksum) {
        (Some(x), Some(y)) => {
            assert_eq!(x.checksum_type, y.checksum_type);
            assert_eq!(x.expected_hex, y.expected_hex);
        },
        (None, None) => {},
        _ => panic!("checksum presence differs"),
    }
    assert_eq!(a.proxy_url, b.proxy_url);
    assert_eq!(a.auth_user, b.auth_user);
    assert_eq!(a.auth_pass, b.auth_pass);
    assert_eq!(a.created_at, b.created_at);
    assert_eq!(a.updated_at, b.updated_at);
    assert_eq!(a.error, b.error);
}

#[test]
fn memory_storage_round_trips_tasks() {
    let mut storage = MemoryStorage::new();
    let task = sample_task();
    storage.save_task(&task);
    let loaded = storage.load_task(&task.id).expect("load failed");
    assert_tasks_equal(&task, &loaded);
    assert_eq!(storage.list_tasks().len(), 1);
    storage.delete_task(&task.id);
    assert!(storage.load_task(&task.id).is_err());
    // deleting an absent id succeeds silently
    storage.delete_task(&task.id);
}

#[test]
fn memory_storage_round_trips_segments() {
    let mut storage = MemoryStorage::new();
    let id = TaskId::from_bits(42);
    let segs = vec![Segment::new(0, 0, 499), Segment::new(1, 500, 999)];
    storage.save_segments(&id, &segs);
    let loaded = storage.load_segments(&id);
    assert_eq!(loaded, segs);
    let other = storage.load_segments(&TaskId::from_bits(43));
    assert!(other.is_empty());
}

#[test]
fn task_row_codec_round_trips() {
    let task = sample_task();
    let row = task_to_row(&task);
    assert_eq!(row.len(), 15);
    let decoded = task_from_row(
        &row,
        task.headers.clone(),
        task.cookies.clone(),
        task.mirrors.clone(),
    )
    .expect("decode failed");
    assert_tasks_equal(&task, &decoded);
}

#[test]
fn segment_row_codec_round_trips() {
    let id = TaskId::from_bits(7);
    let mut seg = Segment::new(2, 1000, 1999);
    seg.downloaded_bytes = 123;
    seg.status = SegmentStatus::Active;
    let row = segment_to_row(&id, &seg);
    assert_eq!(row.len(), 6);
    // the query returns the columns after the task id
    let queried: Vec<_> = row.into_iter().skip(1).collect();
    let decoded = segment_from_row(&queried).expect("decode failed");
    assert_eq!(decoded, seg);
}

#[test]
fn sqlite_storage_round_trips() {
    let storage = SqliteStorage::new(":memory:").expect("open failed");
    let task = sample_task();
    storage.save_task(&task).expect("save failed");
    let loaded = storage.load_task(&task.id).expect("load failed");
    assert_tasks_equal(&task, &loaded);

    let listed = storage.list_tasks().expect("list failed");
    assert_eq!(listed.len(), 1);

    let segs = vec![Segment::new(0, 0, 499), Segment::new(1, 500, 999)];
    storage.save_segments(&task.id, &segs).expect("save segments failed");
    let loaded_segs = storage.load_segments(&task.id).expect("load segments failed");
    assert_eq!(loaded_segs, segs);

    // saving again replaces, not duplicates
    storage.save_task(&task).expect("save failed");
    assert_eq!(storage.list_tasks().expect("list failed").len(), 1);

    storage.delete_task(&task.id).expect("delete failed");
    assert!(storage.load_task(&task.id).is_err());
    storage.delete_task(&task.id).expect("deleting an absent id succeeds");
}

#[test]
fn sqlite_unknown_id_is_not_found() {
    let storage = SqliteStorage::new(":memory:").expect("open failed");
    let err = storage.load_task(&TaskId::from_bits(9)).unwrap_err();
    let msg = err.message();
    assert!(msg.starts_with("task not found: "));
}

#[test]
fn task_url_candidates_skip_duplicate_mirror() {
    let mut t = Task::new("https://a.example/f".to_string(), String::new());
    t.mirrors.push("https://b.example/f".to_string());
    t.mirrors.push("https://a.example/f".to_string());
    let urls = t.url_candidates();
    assert_eq!(urls, vec!["https://a.example/f".to_string(), "https://b.example/f".to_string()]);
}
