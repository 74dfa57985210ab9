use gateway::ingest::Ingestion;
use gateway::ingest::ReceiveFault;
use gateway::ingest::Received;
use gateway::ingest::Verdict;
use gateway::model::Outcome;
use gateway::model::PoolError;
use gateway::pool::Dispatch;
use gateway::pool::ThreadPool;
use gateway::task::SourceAddr;

fn sensor() -> SourceAddr {
    SourceAddr::V4 { addr: 0x7f00_0001, port: 40000 }
}

fn datagram(len: usize) -> Received {
    Received::Datagram { len, source: sensor() }
}

#[test]
fn new_loop_runs_with_counters_at_zero() {
    let state = Ingestion::new();
    assert!(state.is_running());
    assert_eq!(state, Ingestion { halted: None, submitted: 0, dropped: 0, skipped: 0 });
}

#[test]
fn datagram_is_copied_and_submitted() {
    let mut pool = ThreadPool::new(4).unwrap();
    let mut state = Ingestion::new();
    let mut buf = [0u8; 1024];
    buf[..5].copy_from_slice(b"t=21C");
    assert_eq!(state.on_receive(&mut pool, &buf, datagram(5)), Verdict::Submitted);
    assert_eq!(state.submitted, 1);
    assert_eq!(pool.queue_depth(), 1);
    // The buffer is used again before any worker has run.
    buf[..5].copy_from_slice(b"t=99C");
    match pool.poll(0) {
        Dispatch::Run(task) => {
            assert_eq!(task.payload, b"t=21C".to_vec());
            assert_eq!(task.source, sensor());
        }
        other => panic!("got {:?}", other),
    }
}

#[test]
fn datagrams_are_queued_in_arrival_order() {
    let mut pool = ThreadPool::new(1).unwrap();
    let mut state = Ingestion::new();
    let mut buf = [0u8; 8];
    for n in 0..3u8 {
        buf[0] = n;
        assert_eq!(state.on_receive(&mut pool, &buf, datagram(1)), Verdict::Submitted);
    }
    for n in 0..3u8 {
        match pool.poll(0) {
            Dispatch::Run(task) => assert_eq!(task.payload, vec![n]),
            other => panic!("got {:?}", other),
        }
        assert!(pool.finish(0, Outcome::Completed));
    }
    assert_eq!(state.submitted, 3);
}

#[test]
fn malformed_datagram_does_not_stop_ingestion() {
    let mut pool = ThreadPool::new(4).unwrap();
    let mut state = Ingestion::new();
    let buf = [1u8, 2, 3, 4];
    assert_eq!(
        state.on_receive(&mut pool, &buf, Received::Fault(ReceiveFault::Malformed)),
        Verdict::Skipped(ReceiveFault::Malformed)
    );
    assert!(state.is_running());
    assert_eq!(pool.queue_depth(), 0);
    assert_eq!(state.on_receive(&mut pool, &buf, datagram(4)), Verdict::Submitted);
    match pool.poll(2) {
        Dispatch::Run(task) => assert_eq!(task.payload, vec![1, 2, 3, 4]),
        other => panic!("got {:?}", other),
    }
    assert_eq!(state, Ingestion { halted: None, submitted: 1, dropped: 0, skipped: 1 });
}

#[test]
fn truncated_read_does_not_stop_ingestion() {
    let mut pool = ThreadPool::new(1).unwrap();
    let mut state = Ingestion::new();
    let buf = [9u8; 16];
    assert_eq!(
        state.on_receive(&mut pool, &buf, Received::Fault(ReceiveFault::Truncated)),
        Verdict::Skipped(ReceiveFault::Truncated)
    );
    assert_eq!(state.on_receive(&mut pool, &buf, datagram(16)), Verdict::Submitted);
    assert_eq!(state.skipped, 1);
    assert_eq!(state.submitted, 1);
    assert!(state.is_running());
}

#[test]
fn length_beyond_the_buffer_is_skipped_as_malformed() {
    let mut pool = ThreadPool::new(1).unwrap();
    let mut state = Ingestion::new();
    let buf = [0u8; 4];
    assert_eq!(
        state.on_receive(&mut pool, &buf, datagram(5)),
        Verdict::Skipped(ReceiveFault::Malformed)
    );
    assert_eq!(pool.queue_depth(), 0);
    assert!(state.is_running());
    assert_eq!(state.on_receive(&mut pool, &buf, datagram(4)), Verdict::Submitted);
    assert_eq!(pool.queue_depth(), 1);
}

#[test]
fn closed_socket_halts_the_loop() {
    let mut pool = ThreadPool::new(1).unwrap();
    let mut state = Ingestion::new();
    let buf = [0u8; 4];
    assert_eq!(
        state.on_receive(&mut pool, &buf, Received::Fault(ReceiveFault::SocketClosed)),
        Verdict::Halted(ReceiveFault::SocketClosed)
    );
    assert!(!state.is_running());
    assert_eq!(state.halted, Some(ReceiveFault::SocketClosed));
    assert_eq!(pool.queue_depth(), 0);
    assert!(pool.is_accepting());
}

#[test]
fn unrecoverable_fault_halts_the_loop() {
    let mut pool = ThreadPool::new(1).unwrap();
    let mut state = Ingestion::new();
    let buf = [0u8; 4];
    assert_eq!(
        state.on_receive(&mut pool, &buf, Received::Fault(ReceiveFault::Unrecoverable)),
        Verdict::Halted(ReceiveFault::Unrecoverable)
    );
    assert!(!state.is_running());
}

#[test]
fn halted_loop_takes_nothing_more() {
    let mut pool = ThreadPool::new(1).unwrap();
    let mut state = Ingestion::new();
    let buf = [0u8; 4];
    state.on_receive(&mut pool, &buf, Received::Fault(ReceiveFault::SocketClosed));
    let halted = state;
    assert_eq!(
        state.on_receive(&mut pool, &buf, datagram(2)),
        Verdict::Halted(ReceiveFault::SocketClosed)
    );
    assert_eq!(
        state.on_receive(&mut pool, &buf, Received::Fault(ReceiveFault::Unrecoverable)),
        Verdict::Halted(ReceiveFault::SocketClosed)
    );
    assert_eq!(
        state.on_receive(&mut pool, &buf, Received::Fault(ReceiveFault::Malformed)),
        Verdict::Halted(ReceiveFault::SocketClosed)
    );
    assert_eq!(state, halted);
    assert_eq!(pool.queue_depth(), 0);
}

#[test]
fn refusal_by_a_closed_pool_is_a_counted_drop() {
    let mut pool = ThreadPool::new(1).unwrap();
    let mut state = Ingestion::new();
    let buf = [0u8; 4];
    pool.shutdown();
    assert_eq!(
        state.on_receive(&mut pool, &buf, datagram(4)),
        Verdict::Dropped(PoolError::Closed)
    );
    assert_eq!(
        state.on_receive(&mut pool, &buf, datagram(4)),
        Verdict::Dropped(PoolError::Closed)
    );
    assert!(state.is_running());
    assert_eq!(state, Ingestion { halted: None, submitted: 0, dropped: 2, skipped: 0 });
    assert_eq!(pool.queue_depth(), 0);
}

#[test]
fn refusal_by_a_full_queue_is_a_counted_drop() {
    let mut pool = ThreadPool::with_queue_limit(1, 1).unwrap();
    let mut state = Ingestion::new();
    let buf = [3u8; 4];
    assert_eq!(state.on_receive(&mut pool, &buf, datagram(4)), Verdict::Submitted);
    assert_eq!(
        state.on_receive(&mut pool, &buf, datagram(4)),
        Verdict::Dropped(PoolError::QueueFull)
    );
    assert!(matches!(pool.poll(0), Dispatch::Run(_)));
    assert_eq!(state.on_receive(&mut pool, &buf, datagram(4)), Verdict::Submitted);
    assert_eq!(state, Ingestion { halted: None, submitted: 2, dropped: 1, skipped: 0 });
}

#[test]
fn busy_workers_do_not_hold_up_reception() {
    let mut pool = ThreadPool::new(2).unwrap();
    let mut state = Ingestion::new();
    let buf = [0u8; 4];
    for _ in 0..2 {
        assert_eq!(state.on_receive(&mut pool, &buf, datagram(1)), Verdict::Submitted);
    }
    assert!(matches!(pool.poll(0), Dispatch::Run(_)));
    assert!(matches!(pool.poll(1), Dispatch::Run(_)));
    // Both workers are busy and stay so.
    for n in 1..=10 {
        assert_eq!(state.on_receive(&mut pool, &buf, datagram(1)), Verdict::Submitted);
        assert_eq!(pool.queue_depth(), n);
    }
    assert_eq!(state.submitted, 12);
}

#[test]
fn counters_stop_at_their_largest_value() {
    let mut pool = ThreadPool::new(1).unwrap();
    let buf = [0u8; 4];
    let mut state = Ingestion {
        halted: None,
        submitted: u64::MAX,
        dropped: u64::MAX - 1,
        skipped: u64::MAX,
    };
    assert_eq!(state.on_receive(&mut pool, &buf, datagram(1)), Verdict::Submitted);
    assert_eq!(state.submitted, u64::MAX);
    assert_eq!(
        state.on_receive(&mut pool, &buf, Received::Fault(ReceiveFault::Truncated)),
        Verdict::Skipped(ReceiveFault::Truncated)
    );
    assert_eq!(state.skipped, u64::MAX);
    pool.shutdown();
    state.on_receive(&mut pool, &buf, datagram(1));
    assert_eq!(state.dropped, u64::MAX);
    state.on_receive(&mut pool, &buf, datagram(1));
    assert_eq!(state.dropped, u64::MAX);
}

#[test]
fn interrupted_wait_does_not_stop_ingestion() {
    let mut pool = ThreadPool::new(1).unwrap();
    let mut state = Ingestion::new();
    let buf = [9u8; 16];
    assert_eq!(
        state.on_receive(&mut pool, &buf, Received::Fault(ReceiveFault::Interrupted)),
        Verdict::Skipped(ReceiveFault::Interrupted)
    );
    assert!(state.is_running());
    assert_eq!(state.on_receive(&mut pool, &buf, datagram(2)), Verdict::Submitted);
    assert_eq!(state, Ingestion { halted: None, submitted: 1, dropped: 0, skipped: 1 });
}

#[test]
fn faults_of_the_socket_alone_are_fatal() {
    assert!(ReceiveFault::Malformed.transient());
    assert!(ReceiveFault::Truncated.transient());
    assert!(ReceiveFault::Interrupted.transient());
    assert!(!ReceiveFault::SocketClosed.transient());
    assert!(!ReceiveFault::Unrecoverable.transient());
}
