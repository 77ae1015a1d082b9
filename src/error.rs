use vstd::prelude::*;

verus! {

/// The ways a namespace operation can fail.
#[derive(Clone, Copy, Debug, PartialEq, Eq, Structural)]
pub enum FsError {
    /// An identifier or a (parent, name) pair does not resolve.
    NotFound,
    /// The identifier or the (parent, name) pair is already taken.
    AlreadyExists,
    /// The requested kind of entry is not handled by this namespace.
    NotSupported,
    /// A zero identifier, an empty name, or an entry of the wrong kind.
    Invalid,
    /// Every identifier has been handed out.
    Exhausted,
}

impl FsError {
    /// The errno value a kernel-facing protocol reports for this error.
    pub fn errno(self) -> (r: i32)
        ensures
            r == match self {
                FsError::NotFound => 2i32,
                FsError::AlreadyExists => 17i32,
                FsError::NotSupported => 38i32,
                FsError::Invalid => 22i32,
                FsError::Exhausted => 28i32,
            },
    {
        match self {
            FsError::NotFound => 2,
            FsError::AlreadyExists => 17,
            FsError::NotSupported => 38,
            FsError::Invalid => 22,
            FsError::Exhausted => 28,
        }
    }
}

} // verus!
