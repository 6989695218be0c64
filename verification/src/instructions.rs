//! The instruction set, as far as the scan of a program needs it.

use vstd::prelude::*;

verus! {

/// Opcode of the marker of a valid jump target.
pub const JUMPDEST: u8 = 0x5b;

/// Opcode of the marker of a subroutine's entry.
pub const BEGINSUB: u8 = 0x5c;

/// Opcode of the push that carries one byte of immediate data.
pub const PUSH1: u8 = 0x60;

/// Opcode of the push that carries thirty-two bytes of immediate data.
pub const PUSH32: u8 = 0x7f;

/// Whether `opcode` is an instruction of the machine.
pub open spec fn is_instruction(opcode: u8) -> bool {
    ||| opcode <= 0x0b
    ||| 0x10 <= opcode <= 0x1d
    ||| opcode == 0x20
    ||| 0x30 <= opcode <= 0x47
    ||| 0x50 <= opcode <= 0x5e
    ||| 0x60 <= opcode <= 0xa4
    ||| 0xf0 <= opcode <= 0xf5
    ||| opcode == 0xfa
    ||| opcode == 0xfd
    ||| opcode == 0xff
}

/// The number of immediate bytes that follow `opcode` in a program: one to
/// thirty-two for the pushes, none for every other byte, an instruction or not.
pub open spec fn push_width(opcode: u8) -> nat {
    if PUSH1 <= opcode <= PUSH32 {
        (opcode - PUSH1 + 1) as nat
    } else {
        0
    }
}

/// One instruction of the machine, held by its opcode.
#[derive(Clone, Copy, Debug, PartialEq, Eq)]
pub struct Instruction {
    opcode: u8,
}

impl Instruction {
    /// The opcode of this instruction.
    pub closed spec fn code(self) -> u8 {
        self.opcode
    }

    #[verifier::type_invariant]
    spec fn known(self) -> bool {
        is_instruction(self.opcode)
    }

    /// Decodes one byte of a program: the instruction with that opcode, or `None`
    /// where the machine has none.
    pub fn from_u8(opcode: u8) -> (decoded: Option<Instruction>)
        ensures
            decoded is Some <==> is_instruction(opcode),
            decoded matches Some(instruction) ==> instruction.code() == opcode,
    {
        let known = opcode <= 0x0b || (0x10 <= opcode && opcode <= 0x1d) || opcode == 0x20 || (0x30
            <= opcode && opcode <= 0x47) || (0x50 <= opcode && opcode <= 0x5e) || (0x60 <= opcode
            && opcode <= 0xa4) || (0xf0 <= opcode && opcode <= 0xf5) || opcode == 0xfa || opcode
            == 0xfd || opcode == 0xff;
        if known {
            Some(Instruction { opcode })
        } else {
            None
        }
    }

    /// The opcode of this instruction.
    pub fn opcode(&self) -> (opcode: u8)
        ensures
            opcode == self.code(),
            is_instruction(opcode),
    {
        proof {
            use_type_invariant(self);
        }
        self.opcode
    }

    /// Whether this instruction marks a valid jump target.
    pub fn is_jump_destination(&self) -> (marks: bool)
        ensures
            marks == (self.code() == JUMPDEST),
    {
        self.opcode == JUMPDEST
    }

    /// Whether this instruction marks the entry of a subroutine.
    pub fn is_subroutine_entry(&self) -> (marks: bool)
        ensures
            marks == (self.code() == BEGINSUB),
    {
        self.opcode == BEGINSUB
    }

    /// The number of immediate bytes that a push carries; `None` for an
    /// instruction that is no push.
    pub fn push_bytes(&self) -> (width: Option<usize>)
        ensures
            width is Some <==> PUSH1 <= self.code() <= PUSH32,
            width matches Some(k) ==> k == push_width(self.code()),
    {
        if PUSH1 <= self.opcode && self.opcode <= PUSH32 {
            Some((self.opcode - PUSH1 + 1) as usize)
        } else {
            None
        }
    }
}

} // verus!
