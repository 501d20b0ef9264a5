use vstd::prelude::*;
use vstd::slice::slice_to_vec;
use vstd::string::StringExecFns;

use crate::fs::{lists, read_dir_recursive, Entry, FsNode};
use crate::indexing::Index;

verus! {

pub const STATUS_OK: u16 = 200;

pub const STATUS_NOT_FOUND: u16 = 404;

pub const STATUS_INTERNAL_ERROR: u16 = 500;

/// The body of every reply: the data on success, a message on failure.
#[derive(Debug)]
pub struct ApiResponse<T> {
    pub data: Option<T>,
    pub error: Option<String>,
}

/// The reply to a listing request, from a live scan of the root: the tree
/// with status 200 when the scan succeeded, the scan's error message with
/// status 500 when it failed.
pub fn list_dir(scan: Result<Vec<Entry>, String>) -> (r: (u16, ApiResponse<Vec<FsNode>>))
    ensures
        match scan {
            Ok(entries) => r.0 == STATUS_OK && r.1.error is None && (r.1.data matches Some(
                nodes,
            ) && lists(nodes@, entries@)),
            Err(message) => r.0 == STATUS_INTERNAL_ERROR && r.1.data is None && r.1.error
                == Some(message),
        },
{
    match scan {
        Ok(entries) => {
            let tree = read_dir_recursive(&entries);
            (STATUS_OK, ApiResponse { data: Some(tree), error: None })
        },
        Err(message) => (STATUS_INTERNAL_ERROR, ApiResponse { data: None, error: Some(message) }),
    }
}

/// Resolves a request for a document by its identifier against the current
/// index: the path of the file to send, or the 404 reply when no file has
/// that identifier.
pub fn get_file_by_vzis(index: &Index, vzis: &str) -> (r: Result<Vec<u8>, (u16, ApiResponse<()>)>)
    requires
        index.wf(),
    ensures
        match r {
            Ok(path) => index@.contains_key(vzis@) && path@ == index@[vzis@].path,
            Err(reply) => !index@.contains_key(vzis@) && reply.0 == STATUS_NOT_FOUND
                && reply.1.data is None && (reply.1.error matches Some(m) && m@
                == "Document not found"@),
        },
{
    match index.get(vzis) {
        Some(file_ref) => Ok(slice_to_vec(file_ref.path.as_slice())),
        None => Err(
            (
                STATUS_NOT_FOUND,
                ApiResponse { data: None, error: Some(String::from_str("Document not found")) },
            ),
        ),
    }
}

/// The reply when a resolved document cannot be opened: status 500 with
/// the error's message.
pub fn open_failure(message: String) -> (r: (u16, ApiResponse<()>))
    ensures
        r.0 == STATUS_INTERNAL_ERROR,
        r.1.data is None,
        r.1.error == Some(message),
{
    (STATUS_INTERNAL_ERROR, ApiResponse { data: None, error: Some(message) })
}

} // verus!
