use asyncio::channel::Received;
use asyncio::fs_future::{
    poll_outcome, read_to_string, send_block_task, BlockTaskWorker, PollState, ReadError,
    ReadFileState, ReadFileTask,
};

fn worker() -> (BlockTaskWorker<ReadFileTask>, crossbeam_channel::Receiver<ReadFileTask>) {
    let (s, r) = crossbeam_channel::unbounded();
    (BlockTaskWorker::from_sender(s), r)
}

fn start(name: &str) -> (ReadFileState, ReadFileTask, crossbeam_channel::Receiver<ReadFileTask>) {
    let (mut w, r) = worker();
    let state = match read_to_string(&mut w, name.to_string(), |t| t) {
        Ok(s) => s,
        Err(_) => panic!("the worker is alive"),
    };
    let task = r.try_recv().unwrap();
    (state, task, r)
}

#[test]
fn file_path_cuts_surrounding_line_feeds() {
    let (_state, task, _r) = start("\n\n./examples/test.txt\n");
    assert_eq!(task.file_name, "\n\n./examples/test.txt\n");
    assert_eq!(task.file_path(), "./examples/test.txt");
}

#[test]
fn file_path_keeps_inner_line_feeds_and_plain_names() {
    let (_s1, t1, _r1) = start("a\nb\n");
    assert_eq!(t1.file_path(), "a\nb");
    let (_s2, t2, _r2) = start("plain.txt");
    assert_eq!(t2.file_path(), "plain.txt");
    let (_s3, t3, _r3) = start("\n\n");
    assert_eq!(t3.file_path(), "");
}

#[test]
fn send_block_task_queues_and_hands_back_when_gone() {
    let (s, r) = crossbeam_channel::unbounded::<u32>();
    let mut w = BlockTaskWorker::from_sender(s);
    assert!(send_block_task(&mut w, 7).is_ok());
    assert_eq!(r.try_recv(), Ok(7));
    drop(r);
    assert_eq!(send_block_task(&mut w, 8), Err(8));
}

#[test]
fn read_to_string_hands_back_the_task_when_the_worker_is_gone() {
    let (mut w, r) = worker();
    drop(r);
    match read_to_string(&mut w, "x.txt".to_string(), |t| t) {
        Err(t) => assert_eq!(t.file_name, "x.txt"),
        Ok(_) => panic!("the worker is gone"),
    }
}

#[test]
fn poll_registers_once_then_waits_for_the_contents() {
    let (mut state, mut task, _r) = start("f.txt");
    let mut registrations = 0;
    match state.poll(|_reg| -> Result<usize, ()> {
        registrations += 1;
        Ok(4)
    }) {
        PollState::Pending => {}
        _ => panic!("nothing was sent yet"),
    }
    task.string_sender.send(Ok("Hello, World!".to_string())).unwrap();
    match state.poll(|_reg| -> Result<usize, ()> {
        registrations += 1;
        Ok(5)
    }) {
        PollState::Ready(Ok(v)) => assert_eq!(v, "Hello, World!"),
        _ => panic!("the contents were sent"),
    }
    assert_eq!(registrations, 1);
}

#[test]
fn poll_ends_with_the_registration_error() {
    let (mut state, _task, _r) = start("f.txt");
    match state.poll(|_reg| -> Result<usize, &'static str> { Err("no executor") }) {
        PollState::Ready(Err(ReadError::Register(e))) => assert_eq!(e, "no executor"),
        _ => panic!("registration failed"),
    }
}

#[test]
fn poll_reports_read_errors_and_a_dropped_worker() {
    let (mut state, mut task, _r) = start("missing.txt");
    task.string_sender
        .send(Err(std::io::Error::new(std::io::ErrorKind::NotFound, "missing")))
        .unwrap();
    match state.poll(|_reg| -> Result<usize, ()> { Ok(2) }) {
        PollState::Ready(Err(ReadError::Io(e))) => {
            assert_eq!(e.kind(), std::io::ErrorKind::NotFound)
        }
        _ => panic!("the read failed"),
    }
    let (mut state, task, _r) = start("g.txt");
    drop(task);
    match state.poll(|_reg| -> Result<usize, ()> { Ok(2) }) {
        PollState::Ready(Err(ReadError::Disconnected)) => {}
        _ => panic!("the worker dropped the task"),
    }
}

#[test]
fn poll_outcomes() {
    assert!(matches!(poll_outcome::<()>(Received::Empty), PollState::Pending));
    assert!(matches!(
        poll_outcome::<()>(Received::Disconnected),
        PollState::Ready(Err(ReadError::Disconnected))
    ));
    match poll_outcome::<()>(Received::Message(Ok("v".to_string()))) {
        PollState::Ready(Ok(v)) => assert_eq!(v, "v"),
        _ => panic!("expected the contents"),
    }
    let e = std::io::Error::new(std::io::ErrorKind::PermissionDenied, "no");
    assert!(matches!(
        poll_outcome::<()>(Received::Message(Err(e))),
        PollState::Ready(Err(ReadError::Io(_)))
    ));
}

#[test]
fn trimming_a_trimmed_path_again_changes_nothing() {
    let (_s1, t1, _r1) = start("\nname\n\n");
    let once = t1.file_path().to_string();
    let (_s2, t2, _r2) = start(&once);
    assert_eq!(t2.file_path(), once);
    assert_eq!(once, "name");
}

#[test]
fn a_read_is_pollable_until_its_registration_fails() {
    let (mut state, _task, _r) = start("f.txt");
    assert!(state.is_pollable());
    let _ = state.poll(|_reg| -> Result<usize, ()> { Err(()) });
    assert!(!state.is_pollable());
    let (mut state, _task, _r) = start("g.txt");
    let _ = state.poll(|_reg| -> Result<usize, ()> { Ok(1) });
    assert!(state.is_pollable());
}
