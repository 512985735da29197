use cornea::iris_client::{HandlerTable, MessageHandle, MessageIds, RpcRes, WaitStep, Waiter};

fn response(id: u64, result: &str) -> RpcRes<String> {
    RpcRes::Response { result: result.to_string(), id }
}

#[test]
fn message_ids_carry_instance_and_counter() {
    let mut ids = MessageIds::new();
    assert_eq!(ids.next_handle(), Some(MessageHandle { id: 0 }));
    ids.set_instance(17);
    assert_eq!(ids.next_handle(), Some(MessageHandle { id: (17u64 << 32) | 1 }));
    assert_eq!(ids.next_handle(), Some(MessageHandle { id: (17u64 << 32) | 2 }));
    assert_eq!(ids.current_msg_id, 3);
}

#[test]
fn message_ids_are_never_reused() {
    let mut ids = MessageIds::new();
    ids.set_instance(3);
    ids.current_msg_id = u32::MAX - 1;
    assert_eq!(ids.next_handle(), Some(MessageHandle { id: (3u64 << 32) | 0xffff_fffe }));
    assert_eq!(ids.next_handle(), None);
    assert_eq!(ids.next_handle(), None);
}

#[test]
fn registration_response_gives_instance_id() {
    // the registration request is the first message of an unregistered client
    let mut ids = MessageIds::new();
    let h = ids.next_handle().unwrap();
    let handlers = HandlerTable::new();
    let mut w: Waiter<u32> = Waiter::new(&vec![h]);
    match w.accept(RpcRes::Response { result: 17, id: h.id }, &handlers) {
        WaitStep::Complete => {}
        _ => panic!("expected completion"),
    }
    let got = w.finish();
    ids.set_instance(got[0]);
    assert_eq!(ids.inst_id, Some(17));
}

#[test]
fn batch_results_follow_caller_order() {
    let hs = vec![MessageHandle { id: 10 }, MessageHandle { id: 11 }, MessageHandle { id: 12 }];
    let handlers = HandlerTable::new();
    let mut w: Waiter<String> = Waiter::new(&hs);
    assert!(matches!(w.accept(response(12, "resC"), &handlers), WaitStep::Stored));
    assert!(matches!(w.accept(response(11, "resB"), &handlers), WaitStep::Stored));
    assert!(!w.is_done());
    assert!(matches!(w.accept(response(10, "resA"), &handlers), WaitStep::Complete));
    assert!(w.is_done());
    assert_eq!(w.finish(), vec!["resA".to_string(), "resB".to_string(), "resC".to_string()]);
}

#[test]
fn unknown_and_repeated_responses_are_unexpected() {
    let handlers = HandlerTable::new();
    let mut w: Waiter<String> = Waiter::new(&vec![MessageHandle { id: 5 }, MessageHandle { id: 6 }]);
    match w.accept(response(99, "x"), &handlers) {
        WaitStep::Unexpected { id, result } => {
            assert_eq!(id, 99);
            assert_eq!(result, "x");
        }
        _ => panic!("expected unexpected"),
    }
    assert!(matches!(w.accept(response(5, "a"), &handlers), WaitStep::Stored));
    assert!(matches!(w.accept(response(5, "again"), &handlers), WaitStep::Unexpected { .. }));
    assert!(matches!(w.accept(response(6, "b"), &handlers), WaitStep::Complete));
    assert_eq!(w.finish(), vec!["a".to_string(), "b".to_string()]);
}

#[test]
fn duplicate_handles_are_awaited_once() {
    let handlers = HandlerTable::new();
    let h = MessageHandle { id: 8 };
    let mut w: Waiter<String> = Waiter::new(&vec![h, h]);
    assert!(matches!(w.accept(response(8, "r"), &handlers), WaitStep::Complete));
    assert_eq!(w.finish(), vec!["r".to_string()]);
}

#[test]
fn empty_wait_is_done_at_once() {
    let w: Waiter<String> = Waiter::new(&vec![]);
    assert!(w.is_done());
    assert_eq!(w.finish(), Vec::<String>::new());
}

#[test]
fn events_go_to_their_handler() {
    let mut handlers = HandlerTable::new();
    assert_eq!(handlers.register("ec_A".to_string()), 0);
    assert_eq!(handlers.register("ec_IRIS_BREAKPOINT_HIT".to_string()), 1);
    assert_eq!(handlers.register("ec_A".to_string()), 0);
    assert_eq!(handlers.lookup(&"ec_IRIS_BREAKPOINT_HIT".to_string()), Some(1));
    assert_eq!(handlers.lookup(&"ec_B".to_string()), None);
    let mut w: Waiter<String> = Waiter::new(&vec![MessageHandle { id: 1 }]);
    let ev = RpcRes::Event { method: "ec_IRIS_BREAKPOINT_HIT".to_string(), params: "p".to_string() };
    match w.accept(ev, &handlers) {
        WaitStep::Deliver { handler, params } => {
            assert_eq!(handler, 1);
            assert_eq!(params, "p");
        }
        _ => panic!("expected delivery"),
    }
    let other = RpcRes::Event { method: "ec_B".to_string(), params: "q".to_string() };
    match w.accept(other, &handlers) {
        WaitStep::Unhandled { method, params } => {
            assert_eq!(method, "ec_B");
            assert_eq!(params, "q");
        }
        _ => panic!("expected unhandled"),
    }
    // the waiter still completes on its own response
    assert!(!w.is_done());
    assert!(matches!(w.accept(response(1, "done"), &handlers), WaitStep::Complete));
}

#[test]
fn server_error_fails_the_call() {
    let handlers = HandlerTable::new();
    let mut w: Waiter<String> = Waiter::new(&vec![MessageHandle { id: 1 }]);
    match w.accept(RpcRes::Error { error: "E".to_string(), id: 1 }, &handlers) {
        WaitStep::Failed { error } => assert_eq!(error, "E"),
        _ => panic!("expected failure"),
    }
}
