use asyncio::executor::{Dispatch, Executor, EXIT_TOKEN};

fn table() -> Executor<&'static str> {
    let mut e = Executor::new();
    e.register(5, "a");
    e.register(7, "b");
    e.register(5, "c");
    e
}

#[test]
fn new_executor_has_no_handler() {
    let e: Executor<u8> = Executor::new();
    assert_eq!(e.len(), 0);
    match e.dispatch(5) {
        Dispatch::Invoke(v) => assert!(v.is_empty()),
        Dispatch::Exit => panic!("token 5 is not the exit token"),
    }
}

#[test]
fn register_keeps_registration_order() {
    let e = table();
    assert_eq!(e.len(), 3);
    assert_eq!(e.handler(0).token, 5);
    assert_eq!(e.handler(0).action, "a");
    assert_eq!(e.handler(1).token, 7);
    assert_eq!(e.handler(2).action, "c");
}

#[test]
fn exit_token_ends_the_loop() {
    let e = table();
    assert!(matches!(e.dispatch(EXIT_TOKEN), Dispatch::Exit));
    assert_eq!(EXIT_TOKEN, 0);
}

#[test]
fn dispatch_runs_the_handlers_of_the_token_in_order() {
    let e = table();
    match e.dispatch(5) {
        Dispatch::Invoke(v) => assert_eq!(v, vec![0, 2]),
        Dispatch::Exit => panic!("not exit"),
    }
    match e.dispatch(7) {
        Dispatch::Invoke(v) => assert_eq!(v, vec![1]),
        Dispatch::Exit => panic!("not exit"),
    }
    match e.dispatch(9) {
        Dispatch::Invoke(v) => assert!(v.is_empty()),
        Dispatch::Exit => panic!("not exit"),
    }
}

#[test]
fn a_handler_under_the_exit_token_never_runs() {
    let mut e = table();
    e.register(EXIT_TOKEN, "x");
    assert!(matches!(e.dispatch(EXIT_TOKEN), Dispatch::Exit));
    let (calls, stopped) = e.plan_batch(&vec![EXIT_TOKEN]);
    assert!(calls.is_empty());
    assert!(stopped);
}

#[test]
fn registering_extends_what_its_token_runs() {
    let mut e = table();
    e.register(7, "d");
    match e.dispatch(7) {
        Dispatch::Invoke(v) => assert_eq!(v, vec![1, 3]),
        Dispatch::Exit => panic!("not exit"),
    }
    match e.dispatch(5) {
        Dispatch::Invoke(v) => assert_eq!(v, vec![0, 2]),
        Dispatch::Exit => panic!("not exit"),
    }
}

#[test]
fn batch_runs_events_in_order_and_stops_at_exit() {
    let e = table();
    let (calls, stopped) = e.plan_batch(&vec![5, 7, 9, EXIT_TOKEN, 5, 7]);
    assert_eq!(calls, vec![(0, 0), (0, 2), (1, 1)]);
    assert!(stopped);
}

#[test]
fn batch_without_exit_runs_every_event() {
    let e = table();
    let (calls, stopped) = e.plan_batch(&vec![7, 5]);
    assert_eq!(calls, vec![(0, 1), (1, 0), (1, 2)]);
    assert!(!stopped);
    let (calls, stopped) = e.plan_batch(&vec![]);
    assert!(calls.is_empty());
    assert!(!stopped);
}
