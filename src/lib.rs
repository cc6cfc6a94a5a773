//! Fork discovery and remote reconciliation: parsing `<owner>/<repo>`
//! identifiers, deriving remote names for forks, classifying the answers of
//! the fork-listing service, and deciding, fork by fork, which remotes to add.
pub mod fetch;
pub mod owner_repo;
pub mod reconcile;
pub mod remote_name;

pub use fetch::{check_response, FetchError, PageCursor, STATUS_OK};
pub use owner_repo::{OwnerRepo, ParseError};
pub use reconcile::{decide, ForkDescriptor, Mode, ReconcileAction, Reconciler, Step};
pub use remote_name::{unify_remote_name, REMOTE_TAG};
