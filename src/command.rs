use vstd::prelude::*;

use crate::config::READ_SIZE;

verus! {

/// Configuration commands understood by the device; the value selects an
/// option of the setting.
#[derive(Debug, Clone, Copy, PartialEq, Eq, Structural)]
pub enum Command {
    SetFreq(u8),
    SetRes(u8),
    SetMode(u8),
    SetVolt(u8),
}

/// The opcode that selects the setting a command changes.
pub open spec fn opcode(cmd: Command) -> u8 {
    match cmd {
        Command::SetFreq(_) => 0xFC,
        Command::SetRes(_) => 0xFB,
        Command::SetMode(_) => 0xFA,
        Command::SetVolt(_) => 0xFD,
    }
}

/// The option index a command carries.
pub open spec fn option_index(cmd: Command) -> u8 {
    match cmd {
        Command::SetFreq(i) => i,
        Command::SetRes(i) => i,
        Command::SetMode(i) => i,
        Command::SetVolt(i) => i,
    }
}

/// The report that sends a command: zero but for the opcode at index 1 and
/// the option index at index 2.
pub open spec fn command_report(cmd: Command) -> Seq<u8> {
    Seq::new(
        READ_SIZE as nat,
        |i: int|
            if i == 1 {
                opcode(cmd)
            } else if i == 2 {
                option_index(cmd)
            } else {
                0u8
            },
    )
}

impl Command {
    /// The opcode and option index of this command.
    pub fn opcode_and_index(&self) -> (r: (u8, u8))
        ensures
            r == (opcode(*self), option_index(*self)),
    {
        match *self {
            Command::SetFreq(i) => (0xFCu8, i),
            Command::SetRes(i) => (0xFBu8, i),
            Command::SetMode(i) => (0xFAu8, i),
            Command::SetVolt(i) => (0xFDu8, i),
        }
    }

    /// The report to write to the device for this command.
    pub fn to_report(&self) -> (r: Vec<u8>)
        ensures
            r@ == command_report(*self),
    {
        let (prefix, index) = self.opcode_and_index();
        let mut buf: Vec<u8> = Vec::new();
        let mut i: usize = 0;
        while i < READ_SIZE
            invariant
                i <= READ_SIZE,
                prefix == opcode(*self),
                index == option_index(*self),
                buf@ == command_report(*self).take(i as int),
            decreases READ_SIZE - i,
        {
            let b: u8 = if i == 1 {
                prefix
            } else if i == 2 {
                index
            } else {
                0
            };
            buf.push(b);
            assert(buf@ =~= command_report(*self).take(i + 1));
            i += 1;
        }
        assert(buf@ =~= command_report(*self));
        buf
    }
}

} // verus!
