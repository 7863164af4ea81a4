use vstd::prelude::*;

verus! {

/// The error codes that this service reports.
#[derive(Clone, Copy, Debug, PartialEq, Eq, Structural)]
pub enum ErrorCode {
    InvalidParams,
    ServerError(i64),
}

/// An error as reported to a client.
#[derive(Clone, Debug, PartialEq, Eq)]
pub struct RpcError {
    pub code: ErrorCode,
    pub message: String,
    pub data: Option<String>,
}

/// Code of every error that comes from the file store.
pub const FILE_STORE_ERROR: i64 = 1;

/// An error of the file store, with its full message and its root cause.
pub fn to_rpc_err(message: String, root_cause: String) -> (r: RpcError)
    ensures
        r.code == ErrorCode::ServerError(FILE_STORE_ERROR),
        r.message@ == message@,
        r.data matches Some(d) && d@ == root_cause@,
{
    RpcError { code: ErrorCode::ServerError(FILE_STORE_ERROR), message, data: Some(root_cause) }
}

/// Message of the error for an unknown subscription.
pub open spec fn invalid_subscription_message() -> Seq<char> {
    "Invalid subscription."@
}

/// The error for an unsubscribe whose subscription is not running.
pub fn invalid_subscription() -> (r: RpcError)
    ensures
        r.code == ErrorCode::InvalidParams,
        r.message@ == invalid_subscription_message(),
        r.data is None,
{
    RpcError { code: ErrorCode::InvalidParams, message: String::from_str("Invalid subscription."), data: None }
}

} // verus!
