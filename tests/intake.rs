use file_rpc::intake::{frame_response, read_request, take_record, UNDECODABLE_ID};
use file_rpc::types::{Function, Request, Response, RpcResult};
use file_rpc::utils::{to_rpc_err, ErrorCode};

#[test]
fn malformed_record_is_answered_and_the_next_one_read() {
    let mut buf = b"{oops\n{\"id\":4}\npartial".to_vec();
    let first = take_record(&mut buf).unwrap();
    assert_eq!(first, b"{oops".to_vec());
    let reply = read_request(Err("expected value at line 1".to_string())).unwrap_err();
    assert_eq!(reply, Response { id: UNDECODABLE_ID, res: RpcResult::Failed("expected value at line 1".to_string()) });
    assert_eq!(reply.id, 0);
    let second = take_record(&mut buf).unwrap();
    assert_eq!(second, b"{\"id\":4}".to_vec());
    let req = Request { id: 4, fun: Function::Get { id: "x".to_string() } };
    assert_eq!(read_request(Ok(req.clone())), Ok(req));
    assert_eq!(take_record(&mut buf), None);
    assert_eq!(buf, b"partial".to_vec());
}

#[test]
fn empty_record_between_newlines() {
    let mut buf = b"\n\n".to_vec();
    assert_eq!(take_record(&mut buf), Some(vec![]));
    assert_eq!(buf, b"\n".to_vec());
    assert_eq!(take_record(&mut buf), Some(vec![]));
    assert!(buf.is_empty());
    assert_eq!(take_record(&mut buf), None);
}

#[test]
fn responses_are_newline_terminated() {
    assert_eq!(frame_response(b"{\"id\":1}".to_vec()), b"{\"id\":1}\n".to_vec());
    assert_eq!(frame_response(vec![]), b"\n".to_vec());
}

#[test]
fn file_store_errors_carry_code_and_root_cause() {
    let e = to_rpc_err("could not copy: no space".to_string(), "no space".to_string());
    assert_eq!(e.code, ErrorCode::ServerError(1));
    assert_eq!(e.message, "could not copy: no space");
    assert_eq!(e.data, Some("no space".to_string()));
}

#[test]
fn results_convert_to_reply_outcomes() {
    let ok: RpcResult<u8> = RpcResult::from(Ok(3));
    assert_eq!(ok, RpcResult::Done(3));
    let err: RpcResult<u8> = RpcResult::from(Err("bad".to_string()));
    assert_eq!(err, RpcResult::Failed("bad".to_string()));
    assert_eq!(Response::new(9, ok), Response { id: 9, res: RpcResult::Done(3) });
}
