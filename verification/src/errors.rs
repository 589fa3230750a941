use vstd::prelude::*;

verus! {

/// The error taxonomy of the filesystem core.
///
/// `VolumeMissing` and `IOFailure` arise only at the I/O boundary outside
/// this crate; the verified core itself reports `OutOfSpace` when a create
/// finds no free inode slot or too few free blocks, `CorruptRecord` when a
/// decode is handed fewer bytes than a fixed-size record requires (or an
/// invalid flag byte), and `Fragmented` when the block allocator hands back
/// a non-contiguous run, which the contiguous-run reconstruction rule used
/// by reads could not reproduce.
#[derive(Clone, Copy, Debug, PartialEq, Eq, Structural)]
pub enum FsError {
    /// The volume cannot be opened at all; the caller must format first.
    VolumeMissing,
    /// No free inode slot, or fewer free blocks than the content needs.
    OutOfSpace,
    /// An underlying read, write, seek or flush failed.
    IOFailure,
    /// Fewer bytes than a fixed-size record requires, or an invalid flag.
    CorruptRecord,
    /// The allocator selected non-adjacent blocks; writing them would not be
    /// readable back under the contiguous-run reconstruction rule.
    Fragmented,
}

impl FsError {
    /// A short human-readable description, one per error kind.
    pub fn describe(&self) -> String {
        match self {
            FsError::VolumeMissing => "volume not found: run format first".to_string(),
            FsError::OutOfSpace => "out of space: no free inode slot or too few free blocks"
                .to_string(),
            FsError::IOFailure => "input/output failure on the volume".to_string(),
            FsError::CorruptRecord => "corrupt record: fewer bytes than the record requires"
                .to_string(),
            FsError::Fragmented => "allocation returned non-adjacent blocks; refusing to write"
                .to_string(),
        }
    }
}

} // verus!
