use vstd::prelude::*;

verus! {

/// Why an operation on the registry was refused.
#[derive(Debug, Clone, Copy, PartialEq, Eq, Structural)]
pub enum FileTransferError {
    /// The caller may not act for the grantor; the platform reports this, the
    /// registry never does.
    Unauthorized,
    /// A revoke named a permission that was not given.
    PermissionNotFound,
    /// A party named itself as both grantor and grantee.
    InvalidAddress,
}

impl FileTransferError {
    /// The contract error code under which the host reports this error.
    pub fn code(self) -> (r: u32)
        ensures
            r == match self {
                FileTransferError::Unauthorized => 1u32,
                FileTransferError::PermissionNotFound => 2u32,
                FileTransferError::InvalidAddress => 3u32,
            },
    {
        match self {
            FileTransferError::Unauthorized => 1,
            FileTransferError::PermissionNotFound => 2,
            FileTransferError::InvalidAddress => 3,
        }
    }
}

} // verus!
