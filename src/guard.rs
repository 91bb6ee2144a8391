//! The decision of the path guard: may a file at a given place be written,
//! replaced or removed? The caller resolves paths and inspects the file
//! system; this module decides on what it found.
use vstd::prelude::*;

verus! {

/// What stands at a candidate path, inspected without following links.
#[derive(Clone, Copy, Debug, PartialEq, Eq, Structural)]
pub enum TargetKind {
    Missing,
    RegularFile,
    Symlink,
    Other,
}

/// Why a path was refused.
#[derive(Clone, Copy, Debug, PartialEq, Eq, Structural)]
pub enum GuardError {
    /// The path's resolved parent is not the trusted directory.
    PathTraversal,
    /// The path is a symbolic link.
    SymlinkTarget,
    /// The path exists and is not a regular file.
    NotRegularFile,
}

pub open spec fn guard_spec(trusted: Seq<u8>, parent: Seq<u8>, target: TargetKind) -> Result<
    (),
    GuardError,
> {
    if parent != trusted {
        Err(GuardError::PathTraversal)
    } else {
        match target {
            TargetKind::Symlink => Err(GuardError::SymlinkTarget),
            TargetKind::Other => Err(GuardError::NotRegularFile),
            _ => Ok(()),
        }
    }
}

fn same_bytes(a: &[u8], b: &[u8]) -> (r: bool)
    ensures
        r == (a@ == b@),
{
    if a.len() != b.len() {
        return false;
    }
    let mut i: usize = 0;
    while i < a.len()
        invariant
            i <= a.len() == b.len(),
            forall|j: int| 0 <= j < i ==> a@[j] == b@[j],
        decreases a.len() - i,
    {
        if a[i] != b[i] {
            return false;
        }
        i = i + 1;
    }
    proof {
        assert(a@ =~= b@);
    }
    true
}

/// Decides whether a mutating operation may touch a path, given the
/// canonical trusted directory, the canonical parent directory of the path,
/// and what the path holds now. A missing file is accepted: it is the
/// creation case.
pub fn check_entry_path(trusted_dir: &[u8], parent_dir: &[u8], target: TargetKind) -> (r: Result<
    (),
    GuardError,
>)
    ensures
        r == guard_spec(trusted_dir@, parent_dir@, target),
        parent_dir@ != trusted_dir@ ==> r == Err::<(), GuardError>(GuardError::PathTraversal),
        target == TargetKind::Symlink ==> r is Err,
        r is Ok <==> parent_dir@ == trusted_dir@ && (target == TargetKind::Missing || target
            == TargetKind::RegularFile),
{
    if !same_bytes(parent_dir, trusted_dir) {
        return Err(GuardError::PathTraversal);
    }
    match target {
        TargetKind::Symlink => Err(GuardError::SymlinkTarget),
        TargetKind::Other => Err(GuardError::NotRegularFile),
        _ => Ok(()),
    }
}

} // verus!
