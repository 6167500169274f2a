//! A registry of directed send permissions between parties, with its operations
//! and the laws they obey, verified.

pub mod error;
pub mod identity;
pub mod laws;
pub mod model;
pub mod registry;

pub use error::FileTransferError;
pub use identity::Identity;
pub use registry::{FileTransfer, PermissionEvent};
