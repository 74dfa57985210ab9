use gateway::handle_connection;
use gateway::task::SourceAddr;
use gateway::task::Task;

#[test]
fn copy_takes_the_received_prefix() {
    let buf = [10u8, 20, 30, 40, 50];
    let source = SourceAddr::V4 { addr: 0xc0a8_0418, port: 8090 };
    let task = Task::copy_from(&buf, 3, source).unwrap();
    assert_eq!(task.payload, vec![10, 20, 30]);
    assert_eq!(task.source, source);
    assert_eq!(task.len(), 3);
    assert!(!task.is_empty());
}

#[test]
fn copy_of_nothing_is_an_empty_task() {
    let buf = [1u8, 2, 3];
    let task = Task::copy_from(&buf, 0, SourceAddr::V4 { addr: 1, port: 1 }).unwrap();
    assert_eq!(task.payload, Vec::<u8>::new());
    assert_eq!(task.len(), 0);
    assert!(task.is_empty());
}

#[test]
fn copy_of_the_whole_buffer() {
    let buf = [7u8; 1024];
    let task = Task::copy_from(&buf, 1024, SourceAddr::V4 { addr: 1, port: 1 }).unwrap();
    assert_eq!(task.payload, vec![7u8; 1024]);
    assert!(task.fills(1024));
}

#[test]
fn copy_past_the_buffer_gives_no_task() {
    let buf = [1u8, 2, 3];
    assert!(Task::copy_from(&buf, 4, SourceAddr::V4 { addr: 1, port: 1 }).is_none());
    assert!(Task::copy_from(&[], 1, SourceAddr::V4 { addr: 1, port: 1 }).is_none());
    assert!(Task::copy_from(&[], 0, SourceAddr::V4 { addr: 1, port: 1 }).is_some());
}

#[test]
fn task_does_not_alias_the_buffer() {
    let mut buf = [1u8, 2, 3, 4];
    let task = Task::copy_from(&buf, 4, SourceAddr::V4 { addr: 1, port: 1 }).unwrap();
    buf[0] = 99;
    buf[3] = 99;
    assert_eq!(task.payload, vec![1, 2, 3, 4]);
}

#[test]
fn full_buffer_marks_a_possible_truncation() {
    let source = SourceAddr::V4 { addr: 1, port: 1 };
    let short = Task::new(vec![0u8; 1023], source);
    let exact = Task::new(vec![0u8; 1024], source);
    assert!(!short.fills(1024));
    assert!(exact.fills(1024));
    assert!(exact.fills(0));
    assert!(Task::new(Vec::new(), source).fills(0));
    assert!(!Task::new(Vec::new(), source).fills(1));
}

#[test]
fn task_gives_up_its_parts() {
    let source = SourceAddr::V6 { addr: 0xfe80 << 112, port: 5000, flowinfo: 0, scope_id: 2 };
    let (payload, from) = Task::new(vec![5, 6], source).into_parts();
    assert_eq!(payload, vec![5, 6]);
    assert_eq!(from, source);
}

#[test]
fn sources_compare_by_their_fields() {
    let a = SourceAddr::V4 { addr: 1, port: 2 };
    assert_eq!(a, SourceAddr::V4 { addr: 1, port: 2 });
    assert_ne!(a, SourceAddr::V4 { addr: 1, port: 3 });
    assert_ne!(a, SourceAddr::V6 { addr: 1, port: 2, flowinfo: 0, scope_id: 0 });
}

#[test]
fn built_in_handler_returns() {
    handle_connection();
}
