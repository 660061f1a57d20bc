//! The instruction set: sixteen 4-bit opcodes, each selecting one command.

use vstd::prelude::*;
use vstd::std_specs::convert::FromSpecImpl;

verus! {

/// One operation of the machine.
#[derive(Debug, PartialEq, Eq, Clone, Copy, Structural)]
pub enum Command {
    /// Reserved; has no effect.
    PushPop,
    /// Displace the cursor by `(dx, dy)`.
    Move(i8, i8),
    /// Negate the horizontal and/or vertical step sign, for each nonzero flag.
    Flip(u8, u8),
    /// Toggle the swap of the two components of later moves.
    Mirror,
    /// Toggle the active color.
    Color,
    /// Toggle whether moves paint.
    Draw,
    /// Reserved; has no effect.
    Scale(i8),
}

impl Command {
    /// The opcode table. Only the low four bits of `opcode` select the
    /// command, so the table is total over `u8`.
    pub open spec fn decode(opcode: u8) -> Command {
        let nibble = opcode % 16;
        if nibble == 0x0 {
            Command::PushPop
        } else if nibble == 0x1 {
            Command::Move(1, 0)
        } else if nibble == 0x2 {
            Command::Move(-1i8, 0)
        } else if nibble == 0x3 {
            Command::Flip(1, 0)
        } else if nibble == 0x4 {
            Command::Move(0, -1i8)
        } else if nibble == 0x5 {
            Command::Move(1, -1i8)
        } else if nibble == 0x6 {
            Command::Move(-1i8, -1i8)
        } else if nibble == 0x7 {
            Command::Mirror
        } else if nibble == 0x8 {
            Command::Move(0, 1)
        } else if nibble == 0x9 {
            Command::Move(1, 1)
        } else if nibble == 0xA {
            Command::Move(-1i8, 1)
        } else if nibble == 0xB {
            Command::Flip(0, 1)
        } else if nibble == 0xC {
            Command::Color
        } else if nibble == 0xD {
            Command::Draw
        } else if nibble == 0xE {
            Command::Scale(1)
        } else {
            Command::Scale(-1i8)
        }
    }

    /// Payloads within the ranges that the opcode table uses: unit steps,
    /// 0/1 flags, and a scale direction of +1 or -1.
    pub open spec fn is_canonical(self) -> bool {
        match self {
            Command::Move(dx, dy) => -1 <= dx <= 1 && -1 <= dy <= 1,
            Command::Flip(fx, fy) => fx <= 1 && fy <= 1,
            Command::Scale(direction) => direction == 1 || direction == -1,
            _ => true,
        }
    }

    /// Every opcode decodes to a command with canonical payloads.
    pub proof fn lemma_decode_is_canonical(opcode: u8)
        ensures
            Command::decode(opcode).is_canonical(),
    {
    }

    /// Bits above the low four never matter to the table.
    pub proof fn lemma_decode_ignores_high_bits(opcode: u8)
        ensures
            Command::decode(opcode) == Command::decode(opcode % 16),
    {
    }
}

impl From<u8> for Command {
    fn from(value: u8) -> (command: Command) {
        let nibble: u8 = value & 0x0F;
        assert(nibble == value % 16) by (bit_vector)
            requires
                nibble == value & 0x0F,
        ;
        match nibble {
            0x0 => Command::PushPop,
            0x1 => Command::Move(1, 0),
            0x2 => Command::Move(-1, 0),
            0x3 => Command::Flip(1, 0),
            0x4 => Command::Move(0, -1),
            0x5 => Command::Move(1, -1),
            0x6 => Command::Move(-1, -1),
            0x7 => Command::Mirror,
            0x8 => Command::Move(0, 1),
            0x9 => Command::Move(1, 1),
            0xA => Command::Move(-1, 1),
            0xB => Command::Flip(0, 1),
            0xC => Command::Color,
            0xD => Command::Draw,
            0xE => Command::Scale(1),
            _ => Command::Scale(-1),
        }
    }
}

impl FromSpecImpl<u8> for Command {
    open spec fn obeys_from_spec() -> bool {
        true
    }

    open spec fn from_spec(value: u8) -> Command {
        Command::decode(value)
    }
}

} // verus!
