use vstd::prelude::*;

verus! {

/// Identifier of a file or directory in the underlying file store.
pub type FileId = String;

/// The kind of an entry of the file store.
#[derive(Clone, Copy, Debug, PartialEq, Eq, Structural)]
pub enum FileType {
    Dir,
    File,
}

/// Metadata of one entry of the file store, as far as this library reads it.
#[derive(Clone, Debug, PartialEq, Eq)]
pub struct FileMeta {
    pub id: FileId,
    pub name: String,
    pub file_type: FileType,
}

/// Progress of a bulk operation: `done` units out of `total`.
#[derive(Clone, Copy, Debug, PartialEq, Eq, Structural)]
pub struct Progress {
    pub done: u64,
    pub total: u64,
}

impl Progress {
    /// The unit of work that this record reports on is complete.
    pub open spec fn is_complete(self) -> bool {
        self.done == self.total
    }
}

/// The operations a client can ask for.
#[derive(Clone, Debug, PartialEq, Eq)]
pub enum Function {
    Create { file_type: FileType, name: String, parent_id: FileId },
    Get { id: FileId },
    Rename { id: FileId, new_name: String },
    Delete { id: FileId },
    Mime { id: FileId },
    Move { id: FileId, dest_dir: FileId },
    List { id: FileId },
    CopySet { files: Vec<FileId>, dest_dir: FileId, progress_interval: Option<u64> },
    MoveSet { files: Vec<FileId>, dest_dir: FileId },
    DeleteSet { files: Vec<FileId> },
    Cancel { target_id: usize },
    Unsubscribe { subscription_id: SubscriptionId },
}

impl Function {
    /// Operations answered by exactly one response and tracked by request id.
    pub open spec fn is_simple(&self) -> bool {
        match self {
            Function::Create { .. } | Function::Get { .. } | Function::Rename { .. }
            | Function::Delete { .. } | Function::Mime { .. } | Function::Move { .. }
            | Function::List { .. } => true,
            _ => false,
        }
    }

    /// Operations reported as a stream of progress events.
    pub open spec fn is_bulk(&self) -> bool {
        match self {
            Function::CopySet { .. } | Function::MoveSet { .. } | Function::DeleteSet { .. } => true,
            _ => false,
        }
    }
}

/// A decoded request: the caller's id and the operation asked for.
#[derive(Clone, Debug, PartialEq, Eq)]
pub struct Request {
    pub id: usize,
    pub fun: Function,
}

/// Identifier of a subscription, as a client names it.
#[derive(Clone, Debug, PartialEq, Eq)]
pub enum SubscriptionId {
    Number(u64),
    String(String),
}

/// Outcome carried by a response.
#[derive(Clone, Debug, PartialEq, Eq)]
pub enum RpcResult<T> {
    Failed(String),
    Done(T),
}

/// The reply to one request.
#[derive(Clone, Debug, PartialEq, Eq)]
pub struct Response<T> {
    pub id: usize,
    pub res: RpcResult<T>,
}

impl<T> Response<T> {
    pub fn new(id: usize, res: RpcResult<T>) -> (r: Self)
        ensures
            r.id == id,
            r.res == res,
    {
        Response { id, res }
    }
}

/// The outcome that a `Result` stands for.
pub open spec fn rpc_result_of<T>(res: Result<T, String>) -> RpcResult<T> {
    match res {
        Ok(v) => RpcResult::Done(v),
        Err(e) => RpcResult::Failed(e),
    }
}

impl<T> From<Result<T, String>> for RpcResult<T> {
    fn from(res: Result<T, String>) -> (r: Self) {
        match res {
            Err(e) => RpcResult::Failed(e),
            Ok(v) => RpcResult::Done(v),
        }
    }
}

impl<T> vstd::std_specs::convert::FromSpecImpl<Result<T, String>> for RpcResult<T> {
    open spec fn obeys_from_spec() -> bool {
        true
    }

    open spec fn from_spec(res: Result<T, String>) -> Self {
        rpc_result_of(res)
    }
}

/// One event of a progress stream.
#[derive(Clone, Debug, PartialEq, Eq)]
pub enum StreamEvent {
    Progress(Progress),
    Failure(String),
    Terminal,
}

} // verus!
