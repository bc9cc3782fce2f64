use crate::token::DECREMENT_BYTE;
use crate::token::INCREMENT_BYTE;
use crate::token::JUMP_IF_ZERO_BYTE;
use crate::token::JUMP_UNLESS_ZERO_BYTE;
use crate::token::MOVE_LEFT_BYTE;
use crate::token::MOVE_RIGHT_BYTE;
use crate::token::READ_BYTE;
use crate::token::WRITE_BYTE;
use vstd::prelude::*;

verus! {

/// The earlier form of the token type, kept alongside `Token` while older
/// callers move over: the same eight operations, each with its repeat
/// count, and the same count-blind equality.
#[derive(Debug, Clone, Copy)]
pub enum Tokens {
    MoveLeft(usize),
    MoveRight(usize),
    Increment(usize),
    Decrement(usize),
    Write(usize),
    Read(usize),
    JumpIfZero(usize),
    JumpUnlessZero(usize),
}

impl Tokens {
    /// The repeat count carried by the token.
    pub open spec fn count(self) -> usize {
        match self {
            Tokens::MoveLeft(c) => c,
            Tokens::MoveRight(c) => c,
            Tokens::Increment(c) => c,
            Tokens::Decrement(c) => c,
            Tokens::Write(c) => c,
            Tokens::Read(c) => c,
            Tokens::JumpIfZero(c) => c,
            Tokens::JumpUnlessZero(c) => c,
        }
    }

    /// The same operation with another repeat count.
    pub open spec fn with_count(self, n: usize) -> Tokens {
        match self {
            Tokens::MoveLeft(_) => Tokens::MoveLeft(n),
            Tokens::MoveRight(_) => Tokens::MoveRight(n),
            Tokens::Increment(_) => Tokens::Increment(n),
            Tokens::Decrement(_) => Tokens::Decrement(n),
            Tokens::Write(_) => Tokens::Write(n),
            Tokens::Read(_) => Tokens::Read(n),
            Tokens::JumpIfZero(_) => Tokens::JumpIfZero(n),
            Tokens::JumpUnlessZero(_) => Tokens::JumpUnlessZero(n),
        }
    }

    /// True when both tokens are the same operation, whatever their counts.
    pub open spec fn same_kind(self, other: Tokens) -> bool {
        other == self.with_count(other.count())
    }

    /// Mutable access to the repeat count.
    pub fn inner(&mut self) -> (r: &mut usize)
        ensures
            *r == old(self).count(),
            *final(self) == old(self).with_count(*final(r)),
    {
        match self {
            Tokens::MoveLeft(count) => count,
            Tokens::MoveRight(count) => count,
            Tokens::Increment(count) => count,
            Tokens::Decrement(count) => count,
            Tokens::Write(count) => count,
            Tokens::Read(count) => count,
            Tokens::JumpIfZero(count) => count,
            Tokens::JumpUnlessZero(count) => count,
        }
    }

    /// The token a recognized source byte opens, with count one; `None` for
    /// any other byte.
    pub fn from_byte(b: u8) -> (r: Option<Tokens>)
        ensures
            r == spec_tokens_of_byte(b),
    {
        if b == MOVE_LEFT_BYTE {
            Some(Tokens::MoveLeft(1))
        } else if b == MOVE_RIGHT_BYTE {
            Some(Tokens::MoveRight(1))
        } else if b == INCREMENT_BYTE {
            Some(Tokens::Increment(1))
        } else if b == DECREMENT_BYTE {
            Some(Tokens::Decrement(1))
        } else if b == WRITE_BYTE {
            Some(Tokens::Write(1))
        } else if b == READ_BYTE {
            Some(Tokens::Read(1))
        } else if b == JUMP_IF_ZERO_BYTE {
            Some(Tokens::JumpIfZero(1))
        } else if b == JUMP_UNLESS_ZERO_BYTE {
            Some(Tokens::JumpUnlessZero(1))
        } else {
            None
        }
    }
}

/// The token a recognized source byte stands for, with count one; `None`
/// for a comment byte.
pub open spec fn spec_tokens_of_byte(b: u8) -> Option<Tokens> {
    if b == MOVE_LEFT_BYTE {
        Some(Tokens::MoveLeft(1))
    } else if b == MOVE_RIGHT_BYTE {
        Some(Tokens::MoveRight(1))
    } else if b == INCREMENT_BYTE {
        Some(Tokens::Increment(1))
    } else if b == DECREMENT_BYTE {
        Some(Tokens::Decrement(1))
    } else if b == WRITE_BYTE {
        Some(Tokens::Write(1))
    } else if b == READ_BYTE {
        Some(Tokens::Read(1))
    } else if b == JUMP_IF_ZERO_BYTE {
        Some(Tokens::JumpIfZero(1))
    } else if b == JUMP_UNLESS_ZERO_BYTE {
        Some(Tokens::JumpUnlessZero(1))
    } else {
        None
    }
}

/// Equality on tokens compares the operation kind only, the repeat count is
/// irrelevant.
impl PartialEq for Tokens {
    fn eq(&self, other: &Tokens) -> (r: bool) {
        matches!(
            (self, other),
            (Tokens::MoveLeft(_), Tokens::MoveLeft(_))
                | (Tokens::MoveRight(_), Tokens::MoveRight(_))
                | (Tokens::Increment(_), Tokens::Increment(_))
                | (Tokens::Decrement(_), Tokens::Decrement(_))
                | (Tokens::Write(_), Tokens::Write(_))
                | (Tokens::Read(_), Tokens::Read(_))
                | (Tokens::JumpIfZero(_), Tokens::JumpIfZero(_))
                | (Tokens::JumpUnlessZero(_), Tokens::JumpUnlessZero(_))
        )
    }
}

impl vstd::std_specs::cmp::PartialEqSpecImpl for Tokens {
    open spec fn obeys_eq_spec() -> bool {
        true
    }

    open spec fn eq_spec(&self, other: &Tokens) -> bool {
        self.same_kind(*other)
    }
}

} // verus!
