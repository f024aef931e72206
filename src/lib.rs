//! Verified core of a daemon that takes store paths over a socket, queues
//! them, and has a pool of workers upload each to a binary cache; and of the
//! client that sends it paths.
use vstd::prelude::*;

pub mod binding;
pub mod daemon;
pub mod host;
pub mod upload;

use binding::Binding;
use upload::{existing, keep_existing, plan_result, plan_upload, Candidate, UploadPlan};

verus! {

/// The settings of the client role, with what was found out on disk.
pub struct UploadSubcommand {
    /// Where the daemon listens.
    pub bind: Binding,
    /// The key to sign the paths with, if any.
    pub sign_key: Option<Candidate>,
    /// The paths to upload.
    pub paths: Vec<Candidate>,
}

impl UploadSubcommand {
    /// Plans the client's upload: paths that do not exist are skipped, then
    /// the others and the key are checked as `plan_upload` does.
    pub fn plan(&self) -> (r: Result<UploadPlan, upload::Error>)
        ensures
            plan_result(existing(self.paths@), self.sign_key, r),
    {
        let paths = keep_existing(&self.paths);
        let key = match &self.sign_key {
            Some(k) => Some(
                Candidate { path: k.path.clone(), exists: k.exists, representable: k.representable },
            ),
            None => None,
        };
        plan_upload(&paths, &key)
    }
}

/// The settings of the daemon role.
pub struct ServeSubcommand {
    /// Where to listen.
    pub bind: Binding,
    /// How many workers upload in parallel.
    pub workers: Option<u8>,
    /// Where the workers upload to.
    pub copy_destination: String,
}

/// The number of workers when none is configured.
pub const DEFAULT_WORKERS: u8 = 4;

impl ServeSubcommand {
    /// The size of the worker pool: the configured one, else the default.
    pub fn worker_count(&self) -> (r: u8)
        ensures
            r == match self.workers {
                Some(w) => w,
                None => DEFAULT_WORKERS,
            },
    {
        match self.workers {
            Some(w) => w,
            None => DEFAULT_WORKERS,
        }
    }
}

/// Why the daemon stopped with an error.
#[derive(Debug)]
pub enum ServeError {
    /// No binding was given.
    NoBindingSpecified,
    /// The listener could not be created; holds the reason.
    MakingListener(String),
    /// A connection could not be accepted; holds the reason.
    AcceptingConnection(String),
    /// The serve loop ended with this error.
    Serving(daemon::ServeError),
}

/// Why the client failed.
#[derive(Debug)]
pub enum UploadError {
    /// Checking, signing or writing the paths failed.
    WritingData(upload::Error),
    /// The daemon could not be reached; holds the reason.
    ConnectingToDaemon(String),
    /// A task could not be joined; holds the reason.
    JoiningThread(String),
}

} // verus!
