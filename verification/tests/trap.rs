use amia::shell::{parse_command, Command, Shell, LINE_MAX};
use amia::trap::{complete_getchar, decode_syscall, trap_resume_pc, Syscall};
use amia::util::TrapFrame;

fn frame(a0: u64, a3: u64) -> TrapFrame {
    TrapFrame {
        ra: 0, gp: 0, tp: 0, t0: 0, t1: 0, t2: 0, t3: 0, t4: 0, t5: 0, t6: 0,
        a0, a1: 0, a2: 0, a3, a4: 0, a5: 0, a6: 0, a7: 0,
        s0: 0, s1: 0, s2: 0, s3: 0, s4: 0, s5: 0, s6: 0, s7: 0, s8: 0, s9: 0, s10: 0, s11: 0,
        sp: 0,
    }
}

#[test]
fn syscalls_decode_by_a3() {
    assert_eq!(decode_syscall(&frame(0x141, 1)), Syscall::Putchar(0x41));
    assert_eq!(decode_syscall(&frame(0, 2)), Syscall::Getchar);
    assert_eq!(decode_syscall(&frame(0, 3)), Syscall::Exit);
    assert_eq!(decode_syscall(&frame(0, 9)), Syscall::Unknown(9));
}

#[test]
fn getchar_result_lands_in_a0() {
    let mut f = frame(5, 2);
    assert!(!complete_getchar(&mut f, -1));
    assert_eq!(f.a0, 5);
    assert!(complete_getchar(&mut f, 0x61));
    assert_eq!(f.a0, 0x61);
}

#[test]
fn ecall_resumes_after_instruction() {
    assert_eq!(trap_resume_pc(8, 0x1000), Some(0x1004));
    assert_eq!(trap_resume_pc(13, 0x1000), None);
}

fn feed(sh: &mut Shell, s: &[u8]) -> Option<Command> {
    let mut last = None;
    for &c in s {
        let a = sh.step(c);
        assert_eq!(a.echo, c);
        last = a.command;
    }
    last
}

#[test]
fn shell_answers_lines() {
    let mut sh = Shell::new();
    assert_eq!(feed(&mut sh, b"ping\r"), Some(Command::Ping));
    assert_eq!(feed(&mut sh, b"exit\r"), Some(Command::Exit));
    assert_eq!(feed(&mut sh, b"pin\r"), Some(Command::Unknown));
    assert_eq!(feed(&mut sh, b"\r"), Some(Command::Unknown));
    assert_eq!(feed(&mut sh, b"pingg\r"), Some(Command::Unknown));
}

#[test]
fn shell_cuts_long_lines() {
    let mut sh = Shell::new();
    for _ in 0..LINE_MAX {
        let a = sh.step(b'x');
        assert!(!a.too_long);
        assert_eq!(a.command, None);
    }
    let a = sh.step(b'y');
    assert!(a.too_long);
    assert_eq!(a.command, Some(Command::Unknown));
    assert_eq!(feed(&mut sh, b"ping\r"), Some(Command::Ping));
}

#[test]
fn commands_parse() {
    assert_eq!(parse_command(b"ping"), Command::Ping);
    assert_eq!(parse_command(b"exit"), Command::Exit);
    assert_eq!(parse_command(b"PING"), Command::Unknown);
    assert_eq!(parse_command(b""), Command::Unknown);
}
