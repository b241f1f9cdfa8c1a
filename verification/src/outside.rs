//! Types of other crates that values of this library carry around unread.

use vm_memory::FileOffset;
use vstd::prelude::*;

verus! {

/// `vm_memory::FileOffset`: an open file and the position at which a mapping of
/// it starts. Nothing inside it is read here.
#[verifier::external_type_specification]
#[verifier::external_body]
pub struct ExFileOffset(FileOffset);

/// `vm_memory::GuestMemoryError`: why guest memory could not be reached.
#[verifier::external_type_specification]
#[verifier::external_body]
pub struct ExGuestMemoryError(vm_memory::GuestMemoryError);

/// `std::io::Error`: handed through to the caller as it came from the system.
#[verifier::external_type_specification]
#[verifier::external_body]
pub struct ExIoError(std::io::Error);

/// `std::path::PathBuf`: a file system path, never taken apart here.
#[verifier::external_type_specification]
#[verifier::external_body]
pub struct ExPathBuf(std::path::PathBuf);

/// `<vm_memory::FileOffset as Clone>::clone`. The clone shares the same open
/// file and has the same start position, so it is the same value.
pub assume_specification[ <FileOffset as Clone>::clone ](file_offset: &FileOffset) -> (copy:
    FileOffset)
    ensures
        copy == *file_offset,
;

/// `<std::path::PathBuf as Clone>::clone`. The clone is the same path.
pub assume_specification[ <std::path::PathBuf as Clone>::clone ](path: &std::path::PathBuf) -> (copy:
    std::path::PathBuf)
    ensures
        copy == *path,
;

} // verus!
