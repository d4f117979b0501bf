//! The store's HTTP protocol as the remote repositories speak it: the
//! addresses of its resources, and what each response status means. The
//! requests themselves are sent by the caller.
use vstd::prelude::*;

use crate::blob_repository::BlobRepositoryError;
use crate::node_repository::NodeRepositoryError;
use crate::text::push_str;

verus! {

/// `{base}/api/drives/{drive}/{rest}`.
pub open spec fn drive_url_text(base: Seq<char>, drive: Seq<char>, rest: Seq<char>) -> Seq<char> {
    base + "/api/drives/"@ + drive + seq!['/'] + rest
}

/// The address of a resource of a drive on the store.
pub fn drive_url(base_url: &str, drive_id: &str, rest: &str) -> (r: String)
    ensures
        r@ == drive_url_text(base_url@, drive_id@, rest@),
{
    let mut r = String::from_str(base_url);
    push_str(&mut r, "/api/drives/");
    push_str(&mut r, drive_id);
    push_str(&mut r, "/");
    push_str(&mut r, rest);
    proof {
        reveal_strlit("/");
        assert(r@ =~= drive_url_text(base_url@, drive_id@, rest@));
    }
    r
}

/// The address of a blob: `blobs/{hash}`.
pub fn blob_url(base_url: &str, drive_id: &str, hash: &str) -> (r: String)
    ensures
        r@ == drive_url_text(base_url@, drive_id@, "blobs/"@ + hash@),
{
    let mut rest = String::from_str("blobs/");
    push_str(&mut rest, hash);
    drive_url(base_url, drive_id, rest.as_str())
}

/// The address of a node: `nodes/{hash}`.
pub fn node_url(base_url: &str, drive_id: &str, hash: &str) -> (r: String)
    ensures
        r@ == drive_url_text(base_url@, drive_id@, "nodes/"@ + hash@),
{
    let mut rest = String::from_str("nodes/");
    push_str(&mut rest, hash);
    drive_url(base_url, drive_id, rest.as_str())
}

/// The value of the `Authorization` header for a token.
pub fn bearer(token: &str) -> (r: String)
    ensures
        r@ == "Bearer "@ + token@,
{
    let mut r = String::from_str("Bearer ");
    push_str(&mut r, token);
    r
}

/// What a response to a read says of the resource.
#[derive(Debug, Clone, Copy, PartialEq, Eq, Structural)]
pub enum ReadOutcome {
    /// 200: here it is.
    Found,
    /// 404: the store does not hold it.
    Absent,
    /// Anything else: the read failed.
    Failed,
}

/// The meaning of a read's status.
pub fn read_outcome(status: u16) -> (r: ReadOutcome)
    ensures
        r == (if status == 200 {
            ReadOutcome::Found
        } else if status == 404 {
            ReadOutcome::Absent
        } else {
            ReadOutcome::Failed
        }),
{
    if status == 200 {
        ReadOutcome::Found
    } else if status == 404 {
        ReadOutcome::Absent
    } else {
        ReadOutcome::Failed
    }
}

pub open spec fn is_success(status: u16) -> bool {
    200 <= status <= 299
}

/// The answer to a blob upload: a success stores it; 413 refuses it as too
/// large; anything else is a failed insert.
pub fn blob_upload_result(status: u16, hash: String) -> (r: Result<(), BlobRepositoryError>)
    ensures
        is_success(status) ==> r is Ok,
        !is_success(status) && status == 413 ==> (r matches Err(BlobRepositoryError::UploadRejected { hash: h, reason })
            && h == hash && reason@ == "Blob too large"@),
        !is_success(status) && status != 413 ==> r == Err::<(), BlobRepositoryError>(
            BlobRepositoryError::InsertFailed(hash),
        ),
{
    if 200 <= status && status <= 299 {
        Ok(())
    } else if status == 413 {
        Err(BlobRepositoryError::UploadRejected { hash, reason: String::from_str("Blob too large") })
    } else {
        Err(BlobRepositoryError::InsertFailed(hash))
    }
}

/// How to learn which of some blobs the store lacks: nothing to ask for
/// none, a single existence check for one, one batch request otherwise.
#[derive(Debug, Clone, Copy, PartialEq, Eq, Structural)]
pub enum MissingQuery {
    Nothing,
    Single,
    Batch,
}

/// The query for `count` blobs.
pub fn blob_missing_query(count: usize) -> (r: MissingQuery)
    ensures
        r == (if count == 0 {
            MissingQuery::Nothing
        } else if count == 1 {
            MissingQuery::Single
        } else {
            MissingQuery::Batch
        }),
{
    if count == 0 {
        MissingQuery::Nothing
    } else if count == 1 {
        MissingQuery::Single
    } else {
        MissingQuery::Batch
    }
}

/// The root the remote node store believes the store has, used to move it
/// only from the state it last saw.
#[derive(Debug, Clone)]
pub struct RootCache {
    pub cached: Option<String>,
}

impl RootCache {
    /// A cache that has seen no root.
    pub fn new() -> (r: Self)
        ensures
            r.cached is None,
    {
        RootCache { cached: None }
    }

    /// Takes the answer to a read of the root: a 200 carries the root (or
    /// none), a 404 means none; anything else is a failure and the cache
    /// keeps what it had.
    pub fn on_root_read(&mut self, status: u16, body_root: Option<String>) -> (r: Result<Option<String>, NodeRepositoryError>)
        ensures
            status == 200 ==> r == Ok::<Option<String>, NodeRepositoryError>(body_root) && final(self).cached
                == body_root,
            status == 404 ==> r == Ok::<Option<String>, NodeRepositoryError>(None) && final(self).cached is None,
            status != 200 && status != 404 ==> (r matches Err(NodeRepositoryError::RootRetrieveFailed)
                && final(self).cached == old(self).cached),
    {
        match read_outcome(status) {
            ReadOutcome::Found => {
                self.cached = body_root.clone();
                Ok(body_root)
            },
            ReadOutcome::Absent => {
                self.cached = None;
                Ok(None)
            },
            ReadOutcome::Failed => Err(NodeRepositoryError::RootRetrieveFailed),
        }
    }

    /// Takes the answer to a request to move the root to `hash` (sent with
    /// the cached root as the one expected): 200, 201 and 204 move it; a 409
    /// means another client moved it first, to the root the answer names,
    /// which the cache takes; anything else is a failure.
    pub fn on_root_put(&mut self, hash: String, status: u16, actual: Option<String>) -> (r: Result<(), NodeRepositoryError>)
        ensures
            (status == 200 || status == 201 || status == 204) ==> r is Ok && final(self).cached == Some(hash),
            status == 409 ==> r == Err::<(), NodeRepositoryError>(NodeRepositoryError::RootConflict { actual })
                && final(self).cached == actual,
            !(status == 200 || status == 201 || status == 204 || status == 409) ==> r == Err::<(), NodeRepositoryError>(
                NodeRepositoryError::SetRootFailed(hash),
            ) && final(self).cached == old(self).cached,
    {
        if status == 200 || status == 201 || status == 204 {
            self.cached = Some(hash);
            Ok(())
        } else if status == 409 {
            self.cached = actual.clone();
            Err(NodeRepositoryError::RootConflict { actual })
        } else {
            Err(NodeRepositoryError::SetRootFailed(hash))
        }
    }
}

} // verus!
