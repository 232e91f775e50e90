use asyncio::channel::Received;
use asyncio::fs::{executor_step, worker_step, ExecutorStep, Fs, Task, TaskResult, WorkerStep};
use asyncio::fs_mio::{drain_step, DrainStep};

fn front_end() -> (Fs<u32, u64>, crossbeam_channel::Receiver<Task<u32, u64>>) {
    let (s, r) = crossbeam_channel::unbounded();
    (Fs::from_sender(s), r)
}

#[test]
fn println_queues_the_line() {
    let (mut fs, r) = front_end();
    assert!(fs.println("hello".to_string()).is_ok());
    match r.try_recv() {
        Ok(Task::Println(s)) => assert_eq!(s, "hello"),
        _ => panic!("expected a Println task"),
    }
}

#[test]
fn open_queues_path_and_payload() {
    let (mut fs, r) = front_end();
    assert!(fs.open("./examples/test.txt", 17).is_ok());
    match r.try_recv() {
        Ok(Task::Open(p, o)) => {
            assert_eq!(p, "./examples/test.txt");
            assert_eq!(o, 17);
        }
        _ => panic!("expected an Open task"),
    }
}

#[test]
fn read_to_string_and_close_queue_in_order() {
    let (mut fs, r) = front_end();
    assert!(fs.read_to_string(99).is_ok());
    assert!(fs.close().is_ok());
    assert!(matches!(r.try_recv(), Ok(Task::ReadToString(99))));
    assert!(matches!(r.try_recv(), Ok(Task::Exit)));
    assert!(r.try_recv().is_err());
}

#[test]
fn a_clone_queues_into_the_same_worker() {
    let (mut fs, r) = front_end();
    let mut other = fs.clone();
    assert!(other.println("from the clone".to_string()).is_ok());
    match r.try_recv() {
        Ok(Task::Println(s)) => assert_eq!(s, "from the clone"),
        _ => panic!("expected a Println task"),
    }
}

#[test]
fn a_gone_worker_hands_the_task_back() {
    let (mut fs, r) = front_end();
    drop(r);
    match fs.println("lost".to_string()) {
        Err(Task::Println(s)) => assert_eq!(s, "lost"),
        _ => panic!("expected the task back"),
    }
    match fs.open("a.txt", 3) {
        Err(Task::Open(p, o)) => {
            assert_eq!(p, "a.txt");
            assert_eq!(o, 3);
        }
        _ => panic!("expected the task back"),
    }
    assert!(matches!(fs.read_to_string(4), Err(Task::ReadToString(4))));
    assert!(matches!(fs.close(), Err(Task::Exit)));
}

#[test]
fn worker_steps() {
    assert!(matches!(worker_step::<u32, u64>(None), WorkerStep::Stop));
    assert!(matches!(worker_step::<u32, u64>(Some(Task::Exit)), WorkerStep::ForwardExit));
    match worker_step::<u32, u64>(Some(Task::Println("x".to_string()))) {
        WorkerStep::Print(s) => assert_eq!(s, "x"),
        _ => panic!("expected Print"),
    }
    match worker_step::<u32, u64>(Some(Task::Open("f".to_string(), 1))) {
        WorkerStep::Open(p, o) => {
            assert_eq!(p, "f");
            assert_eq!(o, 1);
        }
        _ => panic!("expected Open"),
    }
    assert!(matches!(worker_step::<u32, u64>(Some(Task::ReadToString(2))), WorkerStep::Read(2)));
}

#[test]
fn executor_steps() {
    assert!(matches!(executor_step::<u8, u16>(None), ExecutorStep::Fail));
    assert!(matches!(executor_step::<u8, u16>(Some(TaskResult::Exit)), ExecutorStep::Stop));
    assert!(matches!(executor_step::<u8, u16>(Some(TaskResult::Open(5))), ExecutorStep::CallOpen(5)));
    match executor_step::<u8, u16>(Some(TaskResult::ReadToString("Hello, World!".to_string(), 6))) {
        ExecutorStep::CallRead(v, s) => {
            assert_eq!(v, "Hello, World!");
            assert_eq!(s, 6);
        }
        _ => panic!("expected CallRead"),
    }
}

#[test]
fn close_stops_worker_and_executor() {
    let (mut fs, r) = front_end();
    assert!(fs.println("before".to_string()).is_ok());
    assert!(fs.close().is_ok());
    assert!(fs.println("after".to_string()).is_ok());
    let mut steps = Vec::new();
    loop {
        let step = worker_step(r.try_recv().ok());
        let ends = matches!(step, WorkerStep::ForwardExit | WorkerStep::Stop);
        steps.push(step);
        if ends {
            break;
        }
    }
    assert_eq!(steps.len(), 2);
    assert!(matches!(steps[1], WorkerStep::ForwardExit));
    assert!(matches!(executor_step::<u8, u8>(Some(TaskResult::Exit)), ExecutorStep::Stop));
}

#[test]
fn drain_steps() {
    assert!(matches!(drain_step::<u8, u8>(Received::Message(TaskResult::Exit)), DrainStep::Stop));
    assert!(matches!(drain_step::<u8, u8>(Received::Message(TaskResult::Open(1))), DrainStep::CallOpen(1)));
    match drain_step::<u8, u8>(Received::Message(TaskResult::ReadToString("v".to_string(), 2))) {
        DrainStep::CallRead(v, s) => {
            assert_eq!(v, "v");
            assert_eq!(s, 2);
        }
        _ => panic!("expected CallRead"),
    }
    assert!(matches!(drain_step::<u8, u8>(Received::Empty), DrainStep::Rearm));
    assert!(matches!(drain_step::<u8, u8>(Received::Disconnected), DrainStep::Fail));
}

#[test]
fn lines_print_once_in_order_and_none_after_close() {
    let (mut fs, r) = front_end();
    for line in ["one", "two", "three"] {
        assert!(fs.println(line.to_string()).is_ok());
    }
    assert!(fs.close().is_ok());
    assert!(fs.println("late".to_string()).is_ok());
    let mut printed = Vec::new();
    loop {
        match worker_step(r.try_recv().ok()) {
            WorkerStep::Print(s) => printed.push(s),
            WorkerStep::ForwardExit | WorkerStep::Stop => break,
            _ => panic!("only lines were queued"),
        }
    }
    assert_eq!(printed, vec!["one", "two", "three"]);
}

#[test]
fn callbacks_run_once_in_order_until_exit() {
    let results: Vec<TaskResult<u8, u8>> = vec![
        TaskResult::Open(1),
        TaskResult::ReadToString("a".to_string(), 2),
        TaskResult::Exit,
        TaskResult::Open(3),
    ];
    let mut calls = Vec::new();
    for result in results {
        match executor_step(Some(result)) {
            ExecutorStep::CallOpen(f) => calls.push(f),
            ExecutorStep::CallRead(_, s) => calls.push(s),
            ExecutorStep::Stop | ExecutorStep::Fail => break,
        }
    }
    assert_eq!(calls, vec![1, 2]);
}

#[test]
fn drain_runs_callbacks_until_the_channel_is_empty() {
    let received: Vec<Received<TaskResult<u8, u8>>> = vec![
        Received::Message(TaskResult::Open(1)),
        Received::Message(TaskResult::Open(2)),
        Received::Empty,
        Received::Message(TaskResult::Open(3)),
    ];
    let mut calls = Vec::new();
    let mut last = None;
    for r in received {
        match drain_step(r) {
            DrainStep::CallOpen(f) => calls.push(f),
            DrainStep::CallRead(_, s) => calls.push(s),
            other => {
                last = Some(other);
                break;
            }
        }
    }
    assert_eq!(calls, vec![1, 2]);
    assert!(matches!(last, Some(DrainStep::Rearm)));
}
