use file_rpc::dispatch::{do_request, run, sub_c, Dispatcher, Plan, SUBSCRIPTION_ID_LEN};
use file_rpc::emitter::ErrorPolicy;
use file_rpc::types::{FileType, Function, Request, Response, RpcResult, SubscriptionId};
use file_rpc::utils::ErrorCode;

fn get(id: usize) -> Request {
    Request { id, fun: Function::Get { id: "f1".to_string() } }
}

#[test]
fn cancel_of_unknown_id_succeeds() {
    let mut d: Dispatcher<u32> = Dispatcher::new();
    match do_request(&mut d, Request { id: 7, fun: Function::Cancel { target_id: 99 } }) {
        Plan::Reply(resp, handle) => {
            assert_eq!(resp, Response { id: 7, res: RpcResult::Done(true) });
            assert_eq!(handle, None);
        }
        _ => panic!("cancel must be answered at once"),
    }
}

#[test]
fn unsubscribe_of_unknown_id_is_an_invalid_subscription() {
    let mut d: Dispatcher<u32> = Dispatcher::new();
    let (res, handle) = sub_c(&mut d, &SubscriptionId::String("nope".to_string()));
    let err = res.unwrap_err();
    assert_eq!(err.code, ErrorCode::InvalidParams);
    assert_eq!(err.message, "Invalid subscription.");
    assert_eq!(err.data, None);
    assert_eq!(handle, None);
    let (res, _) = sub_c(&mut d, &SubscriptionId::Number(3));
    assert!(res.is_err());
    match do_request(&mut d, Request { id: 8, fun: Function::Unsubscribe { subscription_id: SubscriptionId::Number(1) } }) {
        Plan::Reply(resp, None) => {
            assert_eq!(resp, Response { id: 8, res: RpcResult::Failed("Invalid subscription.".to_string()) })
        }
        _ => panic!("unsubscribe must be answered at once"),
    }
}

#[test]
fn cancelled_request_gets_no_reply() {
    let mut d: Dispatcher<u32> = Dispatcher::new();
    let req = get(1);
    assert_eq!(do_request(&mut d, req.clone()), Plan::Perform(req));
    assert_eq!(d.start_request(1, 41), Ok(()));
    match do_request(&mut d, Request { id: 2, fun: Function::Cancel { target_id: 1 } }) {
        Plan::Reply(resp, handle) => {
            assert_eq!(resp, Response { id: 2, res: RpcResult::Done(true) });
            assert_eq!(handle, Some(41));
        }
        _ => panic!("cancel must be answered at once"),
    }
    assert_eq!(d.finish_request(1, Ok("meta".to_string())), None);
}

#[test]
fn finished_request_is_answered_once() {
    let mut d: Dispatcher<u32> = Dispatcher::new();
    assert_eq!(d.start_request(5, 1), Ok(()));
    assert_eq!(
        d.finish_request::<String>(5, Err("not found".to_string())),
        Some(Response { id: 5, res: RpcResult::Failed("not found".to_string()) })
    );
    assert_eq!(d.finish_request::<String>(5, Ok("x".to_string())), None);
}

#[test]
fn duplicate_running_id_is_refused() {
    let mut d: Dispatcher<u32> = Dispatcher::new();
    assert_eq!(d.start_request(3, 10), Ok(()));
    match do_request(&mut d, get(3)) {
        Plan::Reply(resp, None) => {
            assert_eq!(resp, Response { id: 3, res: RpcResult::Failed("Duplicate request id.".to_string()) })
        }
        _ => panic!("a running id must be refused"),
    }
    assert_eq!(d.start_request(3, 11), Err(11));
    assert_eq!(d.finish_request(3, Ok(true)), Some(Response { id: 3, res: RpcResult::Done(true) }));
}

#[test]
fn bulk_requests_become_streams() {
    let mut d: Dispatcher<u32> = Dispatcher::new();
    let copy = Request {
        id: 1,
        fun: Function::CopySet { files: vec!["a".to_string()], dest_dir: "d".to_string(), progress_interval: Some(250) },
    };
    match do_request(&mut d, copy.clone()) {
        Plan::Stream(q, e) => {
            assert_eq!(q, copy);
            assert_eq!(e.policy, ErrorPolicy::Stop);
            assert_eq!(e.interval, 250);
        }
        _ => panic!("copy must stream"),
    }
    let del = Request { id: 2, fun: Function::DeleteSet { files: vec!["a".to_string()] } };
    match do_request(&mut d, del) {
        Plan::Stream(_, e) => {
            assert_eq!(e.policy, ErrorPolicy::Continue);
            assert_eq!(e.interval, 0);
        }
        _ => panic!("delete must stream"),
    }
    let create = Request {
        id: 3,
        fun: Function::Create { file_type: FileType::Dir, name: "n".to_string(), parent_id: "p".to_string() },
    };
    assert_eq!(do_request(&mut d, create.clone()), Plan::Perform(create));
}

#[test]
fn subscription_lifecycle() {
    let mut d: Dispatcher<u32> = Dispatcher::new();
    let id = d.new_subscription_id().expect("a fresh id");
    assert_eq!(id.chars().count(), SUBSCRIPTION_ID_LEN);
    assert!(id.chars().all(|c| c.is_ascii_alphanumeric()));
    assert_eq!(run(&mut d, id.clone(), 9), Ok(()));
    assert_eq!(run(&mut d, id.clone(), 10), Err(10));
    let other = d.new_subscription_id().expect("a fresh id");
    assert_ne!(other, id);
    let (res, handle) = sub_c(&mut d, &SubscriptionId::String(id.clone()));
    assert_eq!(res, Ok(true));
    assert_eq!(handle, Some(9));
    assert!(!d.finish_stream(&id));
}

#[test]
fn shutdown_hands_back_every_handle() {
    let mut d: Dispatcher<u32> = Dispatcher::new();
    d.start_request(1, 100).unwrap();
    d.start_request(2, 200).unwrap();
    run(&mut d, "s".to_string(), 300).unwrap();
    let mut handles = d.shutdown();
    handles.sort();
    assert_eq!(handles, vec![100, 200, 300]);
    assert_eq!(d.finish_request(1, Ok(())), None);
    assert!(!d.finish_stream(&"s".to_string()));
}
