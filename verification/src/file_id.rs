//! The identity token returned by the filesystem query primitive.

use vstd::prelude::*;

verus! {

/// An identity token for a filesystem entity, as reported by the external
/// filesystem query primitive: two existing, distinct entities never share
/// a token. The value with every field `-1` is the distinguished sentinel
/// meaning "no such entity".
#[derive(Debug, Clone, Copy, PartialEq, Eq, Structural)]
pub struct FileId {
    pub device: i64,
    pub inode: i64,
}

impl FileId {
    /// Whether this token denotes an existing entity (it is not the
    /// sentinel).
    pub open spec fn is_valid_spec(self) -> bool {
        !(self.device == -1 && self.inode == -1)
    }

    /// The sentinel token: "no such entity".
    pub fn invalid() -> (r: FileId)
        ensures
            !r.is_valid_spec(),
    {
        FileId { device: -1, inode: -1 }
    }

    /// Whether this token denotes an existing entity.
    pub fn is_valid(&self) -> (r: bool)
        ensures
            r == self.is_valid_spec(),
    {
        !(self.device == -1 && self.inode == -1)
    }
}

} // verus!
