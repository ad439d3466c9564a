use vstd::prelude::*;

verus! {

/// The kernel's error kinds.
#[derive(Debug)]
pub enum Error {
    IoErr,
    MutexErr(&'static str),
    OutOfMemory,
    InvalidElf,
}

} // verus!
