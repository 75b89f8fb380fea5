//! Revision-aware sync of KeePass databases: the sync decision, revisions, manifests, the
//! filesystem remote's checks and names, and the HTTP protocol of the sync server.
pub mod cli;
pub mod http;
pub mod keepassxc;
pub mod local_state;
pub mod manifest;
pub mod outside;
pub mod remote;
pub mod revision;
pub mod sync;
pub mod text;

pub use http::{HttpServerConfig, HttpServerError};
pub use keepassxc::{KeepassMerge, Keepassxc, KeepassxcError};
pub use local_state::{LocalState, LocalStateError};
pub use manifest::{Manifest, ManifestError};
pub use remote::{FilesystemRemote, IncomingDatabase, RemoteError, SyncOutcome};
pub use revision::{Revision, RevisionError};
pub use sync::{
    decide_sync, plan_sync, SyncAction, SyncExecutionReport, SyncInputs, SyncPlan, SyncProblem,
    SyncReportKind,
};
