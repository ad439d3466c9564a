use vstd::prelude::*;
use crate::constants::{SCAUSE_ECALL, SYS_EXIT, SYS_GETCHAR, SYS_PUTCHAR};
use crate::util::TrapFrame;

verus! {

/// A system call as the user program asked for it in `a3`.
#[derive(Clone, Copy, Debug, PartialEq, Eq, Structural)]
pub enum Syscall {
    /// Write the byte in `a0` to the console.
    Putchar(u8),
    /// Read a byte from the console into `a0`.
    Getchar,
    /// End the calling process.
    Exit,
    /// Any other number in `a3`.
    Unknown(u64),
}

/// The system call that the trap frame asks for.
pub fn decode_syscall(f: &TrapFrame) -> (s: Syscall)
    ensures
        s == if f.a3 == SYS_PUTCHAR {
            Syscall::Putchar(f.a0 as u8)
        } else if f.a3 == SYS_GETCHAR {
            Syscall::Getchar
        } else if f.a3 == SYS_EXIT {
            Syscall::Exit
        } else {
            Syscall::Unknown(f.a3)
        },
{
    if f.a3 == SYS_PUTCHAR {
        Syscall::Putchar(f.a0 as u8)
    } else if f.a3 == SYS_GETCHAR {
        Syscall::Getchar
    } else if f.a3 == SYS_EXIT {
        Syscall::Exit
    } else {
        Syscall::Unknown(f.a3)
    }
}

/// Puts the result of a console read in `a0`; a read that found nothing
/// (`-1`) leaves the frame alone and asks to try again.
pub fn complete_getchar(f: &mut TrapFrame, c: i64) -> (done: bool)
    ensures
        done == (c != -1),
        done ==> *final(f) == (TrapFrame { a0: c as u64, ..*old(f) }),
        !done ==> *final(f) == *old(f),
{
    if c != -1 {
        f.a0 = c as u64;
        true
    } else {
        false
    }
}

/// Where execution resumes after a trap with cause `scause` at `sepc`: past
/// the `ecall` instruction for a system call; nowhere for any other cause.
pub fn trap_resume_pc(scause: u64, sepc: u64) -> (r: Option<u64>)
    requires
        scause == SCAUSE_ECALL ==> sepc + 4 <= u64::MAX,
    ensures
        r == if scause == SCAUSE_ECALL {
            Some((sepc + 4) as u64)
        } else {
            None::<u64>
        },
{
    if scause == SCAUSE_ECALL {
        Some(sepc + 4)
    } else {
        None
    }
}

} // verus!
