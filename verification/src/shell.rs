use vstd::prelude::*;

verus! {

/// Longest command line the shell keeps.
pub const LINE_MAX: usize = 512;

/// What the shell does with a finished line.
#[derive(Clone, Copy, Debug, PartialEq, Eq, Structural)]
pub enum Command {
    /// `ping`: answer `pong`.
    Ping,
    /// `exit`: end the shell.
    Exit,
    /// Anything else: report an unknown command.
    Unknown,
}

/// The command a line names.
pub open spec fn spec_command(line: Seq<u8>) -> Command {
    if line == seq![112u8, 105u8, 110u8, 103u8] {
        Command::Ping
    } else if line == seq![101u8, 120u8, 105u8, 116u8] {
        Command::Exit
    } else {
        Command::Unknown
    }
}

/// Only the exact four-byte line `ping` answers pong, only the exact
/// four-byte line `exit` ends the shell, and every other line (a longer one
/// that starts with either word, a prefix of one, any other text, the empty
/// line) is an unknown command. Bytes: 'p' 0x70, 'i' 0x69, 'n' 0x6e, 'g'
/// 0x67, 'e' 0x65, 'x' 0x78, 't' 0x74.
pub proof fn lemma_commands_are_exact(line: Seq<u8>)
    ensures
        spec_command(line) == Command::Ping <==> (line.len() == 4 && line[0] == 0x70 && line[1]
            == 0x69 && line[2] == 0x6e && line[3] == 0x67),
        spec_command(line) == Command::Exit <==> (line.len() == 4 && line[0] == 0x65 && line[1]
            == 0x78 && line[2] == 0x69 && line[3] == 0x74),
        spec_command(line) == Command::Unknown <==> !(line.len() == 4 && line[0] == 0x70 && line[1]
            == 0x69 && line[2] == 0x6e && line[3] == 0x67) && !(line.len() == 4 && line[0] == 0x65
            && line[1] == 0x78 && line[2] == 0x69 && line[3] == 0x74),
{
    if line.len() == 4 && line[0] == 0x70 && line[1] == 0x69 && line[2] == 0x6e && line[3] == 0x67 {
        assert(line =~= seq![112u8, 105u8, 110u8, 103u8]);
    }
    if line.len() == 4 && line[0] == 0x65 && line[1] == 0x78 && line[2] == 0x69 && line[3] == 0x74 {
        assert(line =~= seq![101u8, 120u8, 105u8, 116u8]);
    }
    if line == seq![112u8, 105u8, 110u8, 103u8] {
        assert(line[0] == 0x70 && line[1] == 0x69 && line[2] == 0x6e && line[3] == 0x67);
    }
    if line == seq![101u8, 120u8, 105u8, 116u8] {
        assert(line[0] == 0x65 && line[1] == 0x78 && line[2] == 0x69 && line[3] == 0x74);
    }
}

/// The command a line names.
pub fn parse_command(line: &[u8]) -> (c: Command)
    ensures
        c == spec_command(line@),
{
    if line.len() == 4 && line[0] == 112u8 && line[1] == 105u8 && line[2] == 110u8 && line[3]
        == 103u8 {
        assert(line@ =~= seq![112u8, 105u8, 110u8, 103u8]);
        Command::Ping
    } else if line.len() == 4 && line[0] == 101u8 && line[1] == 120u8 && line[2] == 105u8
        && line[3] == 116u8 {
        assert(line@ =~= seq![101u8, 120u8, 105u8, 116u8]);
        Command::Exit
    } else {
        assert(line@ != seq![112u8, 105u8, 110u8, 103u8]) by {
            if line@.len() == 4 {
                assert(line@[0] != 112u8 || line@[1] != 105u8 || line@[2] != 110u8 || line@[3]
                    != 103u8);
            }
        }
        assert(line@ != seq![101u8, 120u8, 105u8, 116u8]) by {
            if line@.len() == 4 {
                assert(line@[0] != 101u8 || line@[1] != 120u8 || line@[2] != 105u8 || line@[3]
                    != 116u8);
            }
        }
        Command::Unknown
    }
}

/// What the shell does after a key: echo it, maybe complain that the line is
/// too long, and with a finished line, carry out its command.
#[derive(Clone, Copy, Debug)]
pub struct ShellAction {
    pub echo: u8,
    pub too_long: bool,
    pub command: Option<Command>,
}

/// The line the shell is reading.
pub struct Shell {
    line: Vec<u8>,
}

impl View for Shell {
    type V = Seq<u8>;

    closed spec fn view(&self) -> Seq<u8> {
        self.line@
    }
}

impl Shell {
    pub open spec fn wf(&self) -> bool {
        self@.len() <= LINE_MAX
    }

    /// A shell at the start of a line.
    pub fn new() -> (s: Shell)
        ensures
            s.wf(),
            s@ == Seq::<u8>::empty(),
    {
        Shell { line: Vec::new() }
    }

    /// Takes one key: echoes it; a full buffer ends the line as too long, a
    /// carriage return ends it, and any other key joins it.
    pub fn step(&mut self, ch: u8) -> (a: ShellAction)
        requires
            old(self).wf(),
        ensures
            final(self).wf(),
            a.echo == ch,
            old(self)@.len() >= LINE_MAX ==> a.too_long && a.command == Some(spec_command(old(self)@))
                && final(self)@ == Seq::<u8>::empty(),
            old(self)@.len() < LINE_MAX && ch == 13 ==> !a.too_long && a.command == Some(
                spec_command(old(self)@),
            ) && final(self)@ == Seq::<u8>::empty(),
            old(self)@.len() < LINE_MAX && ch != 13 ==> !a.too_long && a.command is None
                && final(self)@ == old(self)@.push(ch),
    {
        if self.line.len() >= LINE_MAX {
            let c: Command = parse_command(self.line.as_slice());
            self.line = Vec::new();
            ShellAction { echo: ch, too_long: true, command: Some(c) }
        } else if ch == 13 {
            let c: Command = parse_command(self.line.as_slice());
            self.line = Vec::new();
            ShellAction { echo: ch, too_long: false, command: Some(c) }
        } else {
            self.line.push(ch);
            ShellAction { echo: ch, too_long: false, command: None }
        }
    }
}

} // verus!
