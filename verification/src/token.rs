use crate::digits::dec_digits;
use crate::digits::usize_to_string;
use vstd::prelude::*;
use vstd::string::StringExecFns;

verus! {

/// The eight operations of the language. Each variant carries the number of
/// consecutive identical source operations it stands for (its repeat count,
/// always at least one in tokenizer output).
#[derive(Debug, Clone, Copy)]
pub enum Token {
    /// Move the data pointer one cell to the left.
    MoveLeft(usize),
    /// Move the data pointer one cell to the right.
    MoveRight(usize),
    /// Increment the byte at the data pointer, wrapping past 255.
    Increment(usize),
    /// Decrement the byte at the data pointer, wrapping below 0.
    Decrement(usize),
    /// Output the byte at the data pointer.
    Write(usize),
    /// Read one byte from the input source into the current cell.
    Read(usize),
    /// If the current cell is zero, jump past the matching closing jump.
    JumpIfZero(usize),
    /// If the current cell is non-zero, jump back to the matching opening jump.
    JumpUnlessZero(usize),
}

impl Token {
    /// The repeat count carried by the token.
    pub open spec fn count(self) -> usize {
        match self {
            Token::MoveLeft(c) => c,
            Token::MoveRight(c) => c,
            Token::Increment(c) => c,
            Token::Decrement(c) => c,
            Token::Write(c) => c,
            Token::Read(c) => c,
            Token::JumpIfZero(c) => c,
            Token::JumpUnlessZero(c) => c,
        }
    }

    /// The same operation with another repeat count.
    pub open spec fn with_count(self, n: usize) -> Token {
        match self {
            Token::MoveLeft(_) => Token::MoveLeft(n),
            Token::MoveRight(_) => Token::MoveRight(n),
            Token::Increment(_) => Token::Increment(n),
            Token::Decrement(_) => Token::Decrement(n),
            Token::Write(_) => Token::Write(n),
            Token::Read(_) => Token::Read(n),
            Token::JumpIfZero(_) => Token::JumpIfZero(n),
            Token::JumpUnlessZero(_) => Token::JumpUnlessZero(n),
        }
    }

    /// True when both tokens are the same operation, whatever their counts.
    /// This is the equality the run-length merging of the tokenizer uses.
    pub open spec fn same_kind(self, other: Token) -> bool {
        other == self.with_count(other.count())
    }

    /// The operation character of the token, as it stands in source text.
    pub open spec fn symbol(self) -> char {
        match self {
            Token::MoveLeft(_) => '<',
            Token::MoveRight(_) => '>',
            Token::Increment(_) => '+',
            Token::Decrement(_) => '-',
            Token::Write(_) => '.',
            Token::Read(_) => ',',
            Token::JumpIfZero(_) => '[',
            Token::JumpUnlessZero(_) => ']',
        }
    }

    /// The rendered form of the token: its repeat count in decimal, then its
    /// operation character.
    pub open spec fn spec_render(self) -> Seq<char> {
        dec_digits(self.count() as nat) + seq![self.symbol()]
    }

    /// Mutable access to the repeat count, used by the tokenizer to extend
    /// the run being accumulated.
    pub fn inner(&mut self) -> (r: &mut usize)
        ensures
            *r == old(self).count(),
            *final(self) == old(self).with_count(*final(r)),
    {
        match self {
            Token::MoveLeft(count) => count,
            Token::MoveRight(count) => count,
            Token::Increment(count) => count,
            Token::Decrement(count) => count,
            Token::Write(count) => count,
            Token::Read(count) => count,
            Token::JumpIfZero(count) => count,
            Token::JumpUnlessZero(count) => count,
        }
    }

    /// The token a recognized source byte opens, with count one; `None` for
    /// any other byte, which the tokenizer treats as a comment.
    pub fn from_byte(b: u8) -> (r: Option<Token>)
        ensures
            r == spec_token_of(b),
    {
        if b == MOVE_LEFT_BYTE {
            Some(Token::MoveLeft(1))
        } else if b == MOVE_RIGHT_BYTE {
            Some(Token::MoveRight(1))
        } else if b == INCREMENT_BYTE {
            Some(Token::Increment(1))
        } else if b == DECREMENT_BYTE {
            Some(Token::Decrement(1))
        } else if b == WRITE_BYTE {
            Some(Token::Write(1))
        } else if b == READ_BYTE {
            Some(Token::Read(1))
        } else if b == JUMP_IF_ZERO_BYTE {
            Some(Token::JumpIfZero(1))
        } else if b == JUMP_UNLESS_ZERO_BYTE {
            Some(Token::JumpUnlessZero(1))
        } else {
            None
        }
    }

    /// The rendered form of the token: its repeat count in decimal, then its
    /// operation character, so that `3<` stands for a run of three `<`.
    pub fn render(&self) -> (r: String)
        ensures
            r@ == self.spec_render(),
    {
        let mut t = *self;
        let count = *t.inner();
        let mut s = usize_to_string(count);
        let sym: &'static str = match self {
            Token::MoveLeft(_) => "<",
            Token::MoveRight(_) => ">",
            Token::Increment(_) => "+",
            Token::Decrement(_) => "-",
            Token::Write(_) => ".",
            Token::Read(_) => ",",
            Token::JumpIfZero(_) => "[",
            Token::JumpUnlessZero(_) => "]",
        };
        proof {
            reveal_strlit("<");
            reveal_strlit(">");
            reveal_strlit("+");
            reveal_strlit("-");
            reveal_strlit(".");
            reveal_strlit(",");
            reveal_strlit("[");
            reveal_strlit("]");
            assert(sym@ =~= seq![self.symbol()]);
        }
        s.append(sym);
        s
    }
}

/// The ASCII bytes of the eight operation characters.
pub const MOVE_LEFT_BYTE: u8 = 60;

pub const MOVE_RIGHT_BYTE: u8 = 62;

pub const INCREMENT_BYTE: u8 = 43;

pub const DECREMENT_BYTE: u8 = 45;

pub const WRITE_BYTE: u8 = 46;

pub const READ_BYTE: u8 = 44;

pub const JUMP_IF_ZERO_BYTE: u8 = 91;

pub const JUMP_UNLESS_ZERO_BYTE: u8 = 93;

/// The token a recognized source byte stands for, with count one; `None`
/// for a comment byte.
pub open spec fn spec_token_of(b: u8) -> Option<Token> {
    if b == MOVE_LEFT_BYTE {
        Some(Token::MoveLeft(1))
    } else if b == MOVE_RIGHT_BYTE {
        Some(Token::MoveRight(1))
    } else if b == INCREMENT_BYTE {
        Some(Token::Increment(1))
    } else if b == DECREMENT_BYTE {
        Some(Token::Decrement(1))
    } else if b == WRITE_BYTE {
        Some(Token::Write(1))
    } else if b == READ_BYTE {
        Some(Token::Read(1))
    } else if b == JUMP_IF_ZERO_BYTE {
        Some(Token::JumpIfZero(1))
    } else if b == JUMP_UNLESS_ZERO_BYTE {
        Some(Token::JumpUnlessZero(1))
    } else {
        None
    }
}

/// True for the eight bytes that are operations; every other byte is a
/// comment.
pub open spec fn is_op(b: u8) -> bool {
    spec_token_of(b) is Some
}

/// Equality on tokens compares the operation kind only: the repeat count is
/// irrelevant, so that the tokenizer can match a fresh token of count one
/// against the run it is accumulating.
impl PartialEq for Token {
    fn eq(&self, other: &Token) -> (r: bool) {
        matches!(
            (self, other),
            (Token::MoveLeft(_), Token::MoveLeft(_))
                | (Token::MoveRight(_), Token::MoveRight(_))
                | (Token::Increment(_), Token::Increment(_))
                | (Token::Decrement(_), Token::Decrement(_))
                | (Token::Write(_), Token::Write(_))
                | (Token::Read(_), Token::Read(_))
                | (Token::JumpIfZero(_), Token::JumpIfZero(_))
                | (Token::JumpUnlessZero(_), Token::JumpUnlessZero(_))
        )
    }
}

impl vstd::std_specs::cmp::PartialEqSpecImpl for Token {
    open spec fn obeys_eq_spec() -> bool {
        true
    }

    open spec fn eq_spec(&self, other: &Token) -> bool {
        self.same_kind(*other)
    }
}

} // verus!
