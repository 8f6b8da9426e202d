use vstd::prelude::*;
use vstd::string::StringExecFns;

use crate::error::TransferError;
use crate::paths::{is_plain_name, join_path, joined, resolve_under};
use crate::upload::UploadReceiver;

verus! {

/// The server's file service over one served directory, shared read-only by
/// every call.
pub struct FileServiceImpl {
    /// The served directory.
    pub directory: String,
}

impl FileServiceImpl {
    /// A service for the directory `directory`.
    pub fn new(directory: String) -> (r: FileServiceImpl)
        ensures
            r.directory@ == directory@,
    {
        FileServiceImpl { directory }
    }

    /// The file a download of `name` streams: `name` under the served
    /// directory; a name that is not plain names no file there.
    pub fn download_path(&self, name: &str) -> (r: Result<String, TransferError>)
        ensures
            is_plain_name(name@) ==> (r matches Ok(p) && p@ == joined(self.directory@, name@)),
            !is_plain_name(name@) ==> r == Err::<String, _>(TransferError::NotFound),
    {
        match resolve_under(self.directory.as_str(), name) {
            Some(p) => Ok(p),
            None => Err(TransferError::NotFound),
        }
    }

    /// The receiving side of a new upload into the served directory.
    pub fn start_upload(&self) -> (r: UploadReceiver)
        ensures
            r.root@ == self.directory@,
            r.name is None,
    {
        UploadReceiver::new(self.directory.as_str())
    }

    /// The directory a listing walks.
    pub fn list_root(&self) -> (r: String)
        ensures
            r@ == self.directory@,
    {
        String::from_str(self.directory.as_str())
    }
}

/// What the client is asked to do.
pub enum Commands {
    /// Fetch the server's `file` into the local `directory`.
    Download { file: String, directory: String },
    /// Send the local `directory`'s `file` to the server.
    Upload { file: String, directory: String },
    /// Print the server's files with their lengths.
    List,
}

impl Commands {
    /// The local file a transfer reads or writes: `file` under `directory`;
    /// a listing has none.
    pub fn local_path(&self) -> (r: Option<String>)
        ensures
            match self {
                Commands::Download { file, directory } | Commands::Upload { file, directory } => {
                    r matches Some(p) && p@ == joined(directory@, file@)
                },
                Commands::List => r is None,
            },
    {
        match self {
            Commands::Download { file, directory } => Some(join_path(directory.as_str(), file.as_str())),
            Commands::Upload { file, directory } => Some(join_path(directory.as_str(), file.as_str())),
            Commands::List => None,
        }
    }
}

} // verus!
