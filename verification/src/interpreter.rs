use crate::input::Input;
use crate::instruction_handler::Config;
use crate::instruction_handler::Error;
use crate::instruction_handler::InstructionHandler;
use crate::instruction_handler::ProtoState;
use crate::instruction_handler::run_steps;
use crate::token::Token;
use vstd::prelude::*;

verus! {

/// The number of cells the tape starts with.
pub const CAPACITY: usize = 32;

/// The number of cells added at each growth step: half the initial capacity.
pub const INCREMENT: usize = CAPACITY / 2;

/// The backend that executes the token sequence directly, simulating an
/// unbounded byte tape. The tape starts with `CAPACITY` zeroed cells and the
/// data pointer at its midpoint; whenever a move would leave the tape, the
/// tape first grows by whole `INCREMENT` steps on that side.
#[derive(Debug)]
pub struct Interpreter {
    /// The index of the cell operations act upon.
    pub data_ptr: usize,
    /// The cells, grown on demand to simulate an infinite tape.
    pub tape: Vec<u8>,
}

/// The interpreter as mathematics: a pointer into a sequence of cells.
pub ghost struct InterpreterModel {
    pub data_ptr: int,
    pub tape: Seq<u8>,
}

impl View for Interpreter {
    type V = InterpreterModel;

    open spec fn view(&self) -> InterpreterModel {
        InterpreterModel { data_ptr: self.data_ptr as int, tape: self.tape@ }
    }
}

/// The tape invariant: the data pointer always indexes a valid cell, and the
/// tape length stays a whole number of growth steps.
pub open spec fn interp_inv(m: InterpreterModel) -> bool {
    &&& 0 <= m.data_ptr < m.tape.len()
    &&& m.tape.len() as int % (INCREMENT as int) == 0
}

/// `n` zeroed cells.
pub open spec fn zero_cells(n: nat) -> Seq<u8> {
    Seq::new(n, |i: int| 0u8)
}

/// How many growth steps cover a deficit of `d` cells: the ceiling of
/// `d / INCREMENT`, at least one whenever `d` is positive.
pub open spec fn growth_amount(d: int) -> int {
    (d + (INCREMENT - 1)) / (INCREMENT as int)
}

/// The signed contribution of a token to the forward bracket counter.
pub open spec fn fwd_delta(t: Token) -> int {
    match t {
        Token::JumpIfZero(c) => c as int,
        Token::JumpUnlessZero(c) => -(c as int),
        _ => 0,
    }
}

/// The signed contribution of a token to the backward bracket counter.
pub open spec fn bwd_delta(t: Token) -> int {
    match t {
        Token::JumpIfZero(c) => -(c as int),
        Token::JumpUnlessZero(c) => c as int,
        _ => 0,
    }
}

/// The forward scan for the close matching an open bracket: walks right from
/// `index` updating the counter with each token, and yields the index just
/// past the token on which the counter reached zero, or `None` when the
/// sequence ends first.
pub open spec fn fwd_scan(tokens: Seq<Token>, index: int, counter: int) -> Option<int>
    decreases tokens.len() - index,
{
    if counter == 0 {
        Some(index)
    } else if index >= tokens.len() {
        None
    } else {
        fwd_scan(tokens, index + 1, counter + fwd_delta(tokens[index]))
    }
}

/// The backward scan for the open matching a close bracket: walks left from
/// `index` updating the counter with each token, and yields the index just
/// before the token on which the counter reached zero, or `None` when the
/// sequence start is passed first.
pub open spec fn bwd_scan(tokens: Seq<Token>, index: int, counter: int) -> Option<int>
    decreases index + 1,
{
    if counter == 0 {
        Some(index)
    } else if index < 0 {
        None
    } else {
        bwd_scan(tokens, index - 1, counter + bwd_delta(tokens[index]))
    }
}

/// Moving left by `count`: when the pointer would underrun, enough whole
/// growth steps of zeroed cells are put on the left first, which shifts the
/// pointer right by the cells added; then the pointer moves left by `count`.
pub open spec fn interp_move_left(pre: ProtoState<InterpreterModel>, count: usize) -> Result<
    ProtoState<InterpreterModel>,
    Error,
> {
    let m = pre.handler;
    if count <= m.data_ptr {
        Ok(
            ProtoState {
                handler: InterpreterModel { data_ptr: m.data_ptr - count, tape: m.tape },
                out: pre.out,
                ip: pre.ip + 1,
            },
        )
    } else {
        let added = INCREMENT * growth_amount(count - m.data_ptr);
        if m.tape.len() + added > usize::MAX {
            Err(Error::TapeOverflow)
        } else {
            Ok(
                ProtoState {
                    handler: InterpreterModel {
                        data_ptr: m.data_ptr + added - count,
                        tape: zero_cells(added as nat) + m.tape,
                    },
                    out: pre.out,
                    ip: pre.ip + 1,
                },
            )
        }
    }
}

/// Moving right by `count`: when the pointer would reach or pass the end,
/// enough whole growth steps of zeroed cells are appended on the right
/// first — enough to put the landing cell strictly inside the tape, since
/// the pointer must never be left outside it; the pointer index itself is
/// unaffected by right growth.
pub open spec fn interp_move_right(pre: ProtoState<InterpreterModel>, count: usize) -> Result<
    ProtoState<InterpreterModel>,
    Error,
> {
    let m = pre.handler;
    if m.data_ptr + count < m.tape.len() {
        Ok(
            ProtoState {
                handler: InterpreterModel { data_ptr: m.data_ptr + count, tape: m.tape },
                out: pre.out,
                ip: pre.ip + 1,
            },
        )
    } else {
        let added = INCREMENT * growth_amount(m.data_ptr + count - m.tape.len() + 1);
        if m.tape.len() + added > usize::MAX {
            Err(Error::TapeOverflow)
        } else {
            Ok(
                ProtoState {
                    handler: InterpreterModel {
                        data_ptr: m.data_ptr + count,
                        tape: m.tape + zero_cells(added as nat),
                    },
                    out: pre.out,
                    ip: pre.ip + 1,
                },
            )
        }
    }
}

/// Incrementing the current cell by `count`, wrapping at 256.
pub open spec fn interp_increment(pre: ProtoState<InterpreterModel>, count: usize) -> Result<
    ProtoState<InterpreterModel>,
    Error,
> {
    let m = pre.handler;
    Ok(
        ProtoState {
            handler: InterpreterModel {
                data_ptr: m.data_ptr,
                tape: m.tape.update(m.data_ptr, ((m.tape[m.data_ptr] + count) % 256) as u8),
            },
            out: pre.out,
            ip: pre.ip + 1,
        },
    )
}

/// Decrementing the current cell by `count`, wrapping below zero.
pub open spec fn interp_decrement(pre: ProtoState<InterpreterModel>, count: usize) -> Result<
    ProtoState<InterpreterModel>,
    Error,
> {
    let m = pre.handler;
    Ok(
        ProtoState {
            handler: InterpreterModel {
                data_ptr: m.data_ptr,
                tape: m.tape.update(m.data_ptr, ((m.tape[m.data_ptr] - count) % 256) as u8),
            },
            out: pre.out,
            ip: pre.ip + 1,
        },
    )
}

/// Writing the current cell, as the character with that code, `count` times.
pub open spec fn interp_write(pre: ProtoState<InterpreterModel>, count: usize) -> Result<
    ProtoState<InterpreterModel>,
    Error,
> {
    let m = pre.handler;
    Ok(
        ProtoState {
            handler: m,
            out: pre.out + Seq::new(count as nat, |i: int| m.tape[m.data_ptr] as char),
            ip: pre.ip + 1,
        },
    )
}

/// Reading `count` bytes one at a time into the current cell, each
/// overwriting the last; running out of input before `count` bytes is fatal.
pub open spec fn interp_read(
    pre: ProtoState<InterpreterModel>,
    count: usize,
    inp: Seq<u8>,
) -> Result<(ProtoState<InterpreterModel>, Seq<u8>), Error> {
    let m = pre.handler;
    if count == 0 {
        Ok((ProtoState { handler: m, out: pre.out, ip: pre.ip + 1 }, inp))
    } else if count <= inp.len() {
        Ok(
            (
                ProtoState {
                    handler: InterpreterModel {
                        data_ptr: m.data_ptr,
                        tape: m.tape.update(m.data_ptr, inp[count - 1]),
                    },
                    out: pre.out,
                    ip: pre.ip + 1,
                },
                inp.skip(count as int),
            ),
        )
    } else {
        Err(Error::UnexpectedEndOfInput)
    }
}

/// A `JumpIfZero` with the current cell non-zero falls through; with the
/// cell zero the matching close is found by the forward scan and the
/// instruction pointer set just past it, or the run fails as unmatched.
pub open spec fn interp_jump_if_zero(
    pre: ProtoState<InterpreterModel>,
    count: usize,
    tokens: Seq<Token>,
) -> Result<ProtoState<InterpreterModel>, Error> {
    let m = pre.handler;
    if m.tape[m.data_ptr] != 0 {
        Ok(ProtoState { handler: m, out: pre.out, ip: pre.ip + 1 })
    } else {
        match fwd_scan(tokens, pre.ip + 1, 1) {
            Some(j) => Ok(ProtoState { handler: m, out: pre.out, ip: j }),
            None => Err(Error::UnmatchedOpenBracket(pre.ip as usize)),
        }
    }
}

/// A `JumpUnlessZero` with the current cell zero falls through; with the
/// cell non-zero the matching open is found by the backward scan and the
/// instruction pointer set one past it, or the run fails as unmatched. The
/// scan yields the index just before the token on which its counter reached
/// zero — the matching open — so one past that open is two past the yield.
pub open spec fn interp_jump_unless_zero(
    pre: ProtoState<InterpreterModel>,
    count: usize,
    tokens: Seq<Token>,
) -> Result<ProtoState<InterpreterModel>, Error> {
    let m = pre.handler;
    if m.tape[m.data_ptr] == 0 {
        Ok(ProtoState { handler: m, out: pre.out, ip: pre.ip + 1 })
    } else {
        match bwd_scan(tokens, pre.ip - 1, 1) {
            Some(j) => Ok(ProtoState { handler: m, out: pre.out, ip: j + 2 }),
            None => Err(Error::UnmatchedCloseBracket(pre.ip as usize)),
        }
    }
}

/// Relies on String::push: appends the given character to the end of the
/// string.
#[verifier::external_body]
fn push_char(s: &mut String, c: char)
    ensures
        final(s)@ == old(s)@ + seq![c],
{
    s.push(c)
}

impl Default for Interpreter {
    fn default() -> (r: Interpreter)
        ensures
            r@.tape == zero_cells(CAPACITY as nat),
            r@.data_ptr == INCREMENT as int,
            interp_inv(r@),
    {
        Interpreter::new()
    }
}

impl Interpreter {
    /// A fresh interpreter: `CAPACITY` zeroed cells with the data pointer at
    /// the midpoint.
    pub fn new() -> (r: Interpreter)
        ensures
            r@.tape == zero_cells(CAPACITY as nat),
            r@.data_ptr == INCREMENT as int,
            interp_inv(r@),
    {
        let tape: Vec<u8> = vec![0u8; CAPACITY];
        proof {
            assert(tape@ =~= zero_cells(CAPACITY as nat));
        }
        Interpreter { tape, data_ptr: INCREMENT }
    }

    /// Grows the tape by `amount` whole steps on the left: the zeroed cells
    /// are put in front, and the data pointer is shifted right by the same
    /// number of cells, so it still denotes the cell it did before — the
    /// last ensures clause is that pointer-preservation invariant.
    fn increment_left(&mut self, amount: usize)
        requires
            interp_inv(old(self)@),
            amount >= 1,
            INCREMENT * amount + old(self)@.tape.len() <= usize::MAX,
        ensures
            final(self)@.tape == zero_cells((INCREMENT * amount) as nat) + old(self)@.tape,
            final(self)@.data_ptr == old(self)@.data_ptr + INCREMENT * amount,
            final(self)@.tape[final(self)@.data_ptr] == old(self)@.tape[old(self)@.data_ptr],
    {
        let total = INCREMENT * amount;
        let mut grown: Vec<u8> = vec![0u8; total];
        grown.append(&mut self.tape);
        self.tape = grown;
        self.data_ptr = self.data_ptr + total;
        proof {
            assert(self@.tape =~= zero_cells(total as nat) + old(self)@.tape);
        }
    }

    /// Grows the tape by `amount` whole steps on the right: the zeroed cells
    /// are appended, and the data pointer needs no adjustment.
    fn increment_right(&mut self, amount: usize)
        requires
            interp_inv(old(self)@),
            amount >= 1,
            INCREMENT * amount + old(self)@.tape.len() <= usize::MAX,
        ensures
            final(self)@.tape == old(self)@.tape + zero_cells((INCREMENT * amount) as nat),
            final(self)@.data_ptr == old(self)@.data_ptr,
    {
        let total = INCREMENT * amount;
        let mut added: Vec<u8> = vec![0u8; total];
        self.tape.append(&mut added);
        proof {
            assert(self@.tape =~= old(self)@.tape + zero_cells(total as nat));
        }
    }
}

/// The number of growth steps covering deficit `d`, computed without the
/// ceiling shorthand.
proof fn lemma_growth_amount(d: int)
    requires
        d >= 1,
    ensures
        growth_amount(d) == d / (INCREMENT as int) + if d % (INCREMENT as int) == 0 {
            0int
        } else {
            1int
        },
        INCREMENT * growth_amount(d) >= d,
        growth_amount(d) >= 1,
{
    let i = INCREMENT as int;
    assert(d == i * (d / i) + d % i) by {
        vstd::arithmetic::div_mod::lemma_fundamental_div_mod(d, i);
    }
    assert(d + (i - 1) == i * ((d + (i - 1)) / i) + (d + (i - 1)) % i) by {
        vstd::arithmetic::div_mod::lemma_fundamental_div_mod(d + (i - 1), i);
    }
    assert((d + (i - 1)) / i == d / i + if d % i == 0 {
        0int
    } else {
        1int
    }) by (nonlinear_arith)
        requires
            i == 16,
            d >= 1,
            d == i * (d / i) + d % i,
            d + (i - 1) == i * ((d + (i - 1)) / i) + (d + (i - 1)) % i,
            0 <= d % i < i,
            0 <= (d + (i - 1)) % i < i,
    ;
    assert(i * growth_amount(d) >= d) by (nonlinear_arith)
        requires
            i == 16,
            d >= 1,
            growth_amount(d) == (d + (i - 1)) / i,
            d + (i - 1) == i * ((d + (i - 1)) / i) + (d + (i - 1)) % i,
            0 <= (d + (i - 1)) % i < i,
    ;
}


/// The scan counter's magnitude stays within what the scanned tokens can
/// contribute, so the next addition cannot leave a machine double word.
pub(crate) proof fn lemma_scan_counter_bound(mag: int, cc: int, scanned: int)
    requires
        0 <= scanned,
        scanned + 1 <= usize::MAX as int,
        0 <= cc <= usize::MAX as int,
        0 <= mag,
        mag <= 1 + scanned * (usize::MAX as int),
    ensures
        mag + cc <= 1 + (scanned + 1) * (usize::MAX as int),
        1 + (scanned + 1) * (usize::MAX as int) <= u128::MAX as int,
        1 + scanned * (usize::MAX as int) <= 1 + (scanned + 1) * (usize::MAX as int),
{
    let m = usize::MAX as int;
    assert(scanned * m + m == (scanned + 1) * m) by (nonlinear_arith);
    assert((scanned + 1) * m <= m * m) by (nonlinear_arith)
        requires
            scanned + 1 <= m,
            m >= 0,
    ;
    assert(m <= u64::MAX as int);
    assert(m * m <= (u64::MAX as int) * (u64::MAX as int)) by (nonlinear_arith)
        requires
            0 <= m <= u64::MAX as int,
    ;
}

impl InstructionHandler for Interpreter {
    open spec fn wf(&self) -> bool {
        interp_inv(self@)
    }

    open spec fn spec_move_left(
        pre: ProtoState<InterpreterModel>,
        count: usize,
        tokens: Seq<Token>,
    ) -> Result<ProtoState<InterpreterModel>, Error> {
        interp_move_left(pre, count)
    }

    open spec fn spec_move_right(
        pre: ProtoState<InterpreterModel>,
        count: usize,
        tokens: Seq<Token>,
    ) -> Result<ProtoState<InterpreterModel>, Error> {
        interp_move_right(pre, count)
    }

    open spec fn spec_increment(
        pre: ProtoState<InterpreterModel>,
        count: usize,
        tokens: Seq<Token>,
    ) -> Result<ProtoState<InterpreterModel>, Error> {
        interp_increment(pre, count)
    }

    open spec fn spec_decrement(
        pre: ProtoState<InterpreterModel>,
        count: usize,
        tokens: Seq<Token>,
    ) -> Result<ProtoState<InterpreterModel>, Error> {
        interp_decrement(pre, count)
    }

    open spec fn spec_write(
        pre: ProtoState<InterpreterModel>,
        count: usize,
        tokens: Seq<Token>,
    ) -> Result<ProtoState<InterpreterModel>, Error> {
        interp_write(pre, count)
    }

    open spec fn spec_read(
        pre: ProtoState<InterpreterModel>,
        count: usize,
        tokens: Seq<Token>,
        inp: Seq<u8>,
    ) -> Result<(ProtoState<InterpreterModel>, Seq<u8>), Error> {
        interp_read(pre, count, inp)
    }

    open spec fn spec_jump_if_zero(
        pre: ProtoState<InterpreterModel>,
        count: usize,
        tokens: Seq<Token>,
    ) -> Result<ProtoState<InterpreterModel>, Error> {
        interp_jump_if_zero(pre, count, tokens)
    }

    open spec fn spec_jump_unless_zero(
        pre: ProtoState<InterpreterModel>,
        count: usize,
        tokens: Seq<Token>,
    ) -> Result<ProtoState<InterpreterModel>, Error> {
        interp_jump_unless_zero(pre, count, tokens)
    }

    open spec fn spec_finish(handler: InterpreterModel, out: Seq<char>) -> (
        InterpreterModel,
        Seq<char>,
    ) {
        (handler, out)
    }

    /// Moves the data pointer `count` cells to the left, growing the tape
    /// first when the move would leave it.
    fn move_ptr_left(
        &mut self,
        count: usize,
        tokens: &Vec<Token>,
        writer: &mut String,
        instruction_ptr: &mut usize,
    ) -> (r: Result<(), Error>) {
        proof {
            vstd::std_specs::vec::axiom_spec_len(tokens);
        }
        if count > self.data_ptr {
            let difference = count - self.data_ptr;
            let amount = difference / INCREMENT + if difference % INCREMENT == 0 {
                0
            } else {
                1
            };
            proof {
                lemma_growth_amount(difference as int);
            }
            if amount > (usize::MAX - self.tape.len()) / INCREMENT {
                proof {
                    vstd::arithmetic::div_mod::lemma_fundamental_div_mod(
                        (usize::MAX - self.tape@.len() as int),
                        INCREMENT as int,
                    );
                }
                return Err(Error::TapeOverflow);
            }
            proof {
                vstd::arithmetic::div_mod::lemma_fundamental_div_mod(
                    (usize::MAX - self.tape@.len() as int),
                    INCREMENT as int,
                );
            }
            self.increment_left(amount);
        }
        self.data_ptr = self.data_ptr - count;
        *instruction_ptr = *instruction_ptr + 1;
        Ok(())
    }

    /// Moves the data pointer `count` cells to the right, growing the tape
    /// first when the move would reach or pass its end.
    fn move_ptr_right(
        &mut self,
        count: usize,
        tokens: &Vec<Token>,
        writer: &mut String,
        instruction_ptr: &mut usize,
    ) -> (r: Result<(), Error>) {
        proof {
            vstd::std_specs::vec::axiom_spec_len(tokens);
        }
        if count >= self.tape.len() - self.data_ptr {
            let deficit = count - (self.tape.len() - self.data_ptr) + 1;
            let amount = deficit / INCREMENT + if deficit % INCREMENT == 0 {
                0
            } else {
                1
            };
            proof {
                lemma_growth_amount(deficit as int);
            }
            if amount > (usize::MAX - self.tape.len()) / INCREMENT {
                proof {
                    vstd::arithmetic::div_mod::lemma_fundamental_div_mod(
                        (usize::MAX - self.tape@.len() as int),
                        INCREMENT as int,
                    );
                }
                return Err(Error::TapeOverflow);
            }
            proof {
                vstd::arithmetic::div_mod::lemma_fundamental_div_mod(
                    (usize::MAX - self.tape@.len() as int),
                    INCREMENT as int,
                );
            }
            self.increment_right(amount);
        }
        self.data_ptr = self.data_ptr + count;
        *instruction_ptr = *instruction_ptr + 1;
        Ok(())
    }

    /// Adds `count` to the current cell with eight-bit wrap-around.
    fn increment_ptr(
        &mut self,
        count: usize,
        tokens: &Vec<Token>,
        writer: &mut String,
        instruction_ptr: &mut usize,
    ) -> (r: Result<(), Error>) {
        proof {
            vstd::std_specs::vec::axiom_spec_len(tokens);
        }
        let cell = self.tape[self.data_ptr];
        let step = (count % 256) as u8;
        self.tape[self.data_ptr] = cell.wrapping_add(step);
        proof {
            let c = cell as int;
            let n = count as int;
            let q = n / 256;
            let rem = n % 256;
            vstd::arithmetic::div_mod::lemma_fundamental_div_mod(n, 256);
            assert(step as int == rem);
            if c + rem <= 255 {
                vstd::arithmetic::div_mod::lemma_fundamental_div_mod_converse(
                    c + n,
                    256,
                    q,
                    c + rem,
                );
            } else {
                vstd::arithmetic::div_mod::lemma_fundamental_div_mod_converse(
                    c + n,
                    256,
                    q + 1,
                    c + rem - 256,
                );
            }
        }
        *instruction_ptr = *instruction_ptr + 1;
        Ok(())
    }

    /// Subtracts `count` from the current cell with eight-bit wrap-around.
    fn decrement_ptr(
        &mut self,
        count: usize,
        tokens: &Vec<Token>,
        writer: &mut String,
        instruction_ptr: &mut usize,
    ) -> (r: Result<(), Error>) {
        proof {
            vstd::std_specs::vec::axiom_spec_len(tokens);
        }
        let cell = self.tape[self.data_ptr];
        let step = (count % 256) as u8;
        self.tape[self.data_ptr] = cell.wrapping_sub(step);
        proof {
            let c = cell as int;
            let n = count as int;
            let q = n / 256;
            let rem = n % 256;
            vstd::arithmetic::div_mod::lemma_fundamental_div_mod(n, 256);
            assert(step as int == rem);
            if c - rem >= 0 {
                vstd::arithmetic::div_mod::lemma_fundamental_div_mod_converse(
                    c - n,
                    256,
                    -q,
                    c - rem,
                );
            } else {
                vstd::arithmetic::div_mod::lemma_fundamental_div_mod_converse(
                    c - n,
                    256,
                    -q - 1,
                    c - rem + 256,
                );
            }
        }
        *instruction_ptr = *instruction_ptr + 1;
        Ok(())
    }

    /// Emits the current cell, as the character with that code, `count`
    /// times.
    fn write_ptr(
        &mut self,
        count: usize,
        tokens: &Vec<Token>,
        writer: &mut String,
        instruction_ptr: &mut usize,
    ) -> (r: Result<(), Error>) {
        proof {
            vstd::std_specs::vec::axiom_spec_len(tokens);
        }
        let cell = self.tape[self.data_ptr];
        let c = cell as char;
        let mut i: usize = 0;
        while i < count
            invariant
                i <= count,
                c == self@.tape[self@.data_ptr] as char,
                writer@ == old(writer)@ + Seq::new(i as nat, |j: int| c),
                *self == *old(self),
            decreases count - i,
        {
            push_char(writer, c);
            i = i + 1;
            proof {
                assert(old(writer)@ + Seq::new((i - 1) as nat, |j: int| c) + seq![c] =~= old(
                    writer,
                )@ + Seq::new(i as nat, |j: int| c));
            }
        }
        *instruction_ptr = *instruction_ptr + 1;
        proof {
            assert(Seq::new(count as nat, |j: int| c) =~= Seq::new(
                count as nat,
                |j: int| old(self)@.tape[old(self)@.data_ptr] as char,
            ));
        }
        Ok(())
    }

    /// Reads `count` bytes, one at a time, each into the current cell;
    /// running out of input is fatal.
    fn read_ptr(
        &mut self,
        count: usize,
        tokens: &Vec<Token>,
        writer: &mut String,
        reader: &mut Input,
        instruction_ptr: &mut usize,
    ) -> (r: Result<(), Error>) {
        proof {
            vstd::std_specs::vec::axiom_spec_len(tokens);
        }
        let ghost inp0 = reader@;
        let ghost tape0 = self@.tape;
        let ghost dp0 = self@.data_ptr;
        let mut i: usize = 0;
        while i < count
            invariant
                interp_inv(self@),
                reader.wf(),
                i <= count,
                inp0 == old(reader)@,
                tape0 == old(self)@.tape,
                dp0 == old(self)@.data_ptr,
                i as int <= inp0.len(),
                reader@ == inp0.skip(i as int),
                self@.data_ptr == dp0,
                0 <= dp0 < tape0.len(),
                i == 0 ==> self@.tape == tape0,
                i > 0 ==> self@.tape == tape0.update(dp0, inp0[i - 1]),
                *instruction_ptr == *old(instruction_ptr),
                *writer == *old(writer),
            decreases count - i,
        {
            let ghost iv: int = i as int;
            match reader.read_byte() {
                Some(b) => {
                    self.tape[self.data_ptr] = b;
                    proof {
                        assert(b == inp0[iv]);
                        if i > 0 {
                            assert(tape0.update(dp0, inp0[iv - 1]).update(dp0, b) =~= tape0.update(
                                dp0,
                                b,
                            ));
                        }
                        assert(inp0.skip(iv).skip(1) =~= inp0.skip(iv + 1));
                    }
                },
                None => {
                    proof {
                        assert(inp0.skip(iv).len() == inp0.len() - iv);
                        assert(inp0.len() < count as int);
                    }
                    return Err(Error::UnexpectedEndOfInput);
                },
            }
            i = i + 1;
        }
        proof {
            assert(inp0.skip(0) =~= inp0);
        }
        *instruction_ptr = *instruction_ptr + 1;
        Ok(())
    }

    /// With the current cell zero, scans forward for the matching close and
    /// jumps just past it; otherwise falls through to the next instruction.
    fn jump_if_zero(
        &mut self,
        count: usize,
        tokens: &Vec<Token>,
        writer: &mut String,
        instruction_ptr: &mut usize,
    ) -> (r: Result<(), Error>) {
        proof {
            vstd::std_specs::vec::axiom_spec_len(tokens);
        }
        let curr_val = self.tape[self.data_ptr];
        if curr_val != 0 {
            *instruction_ptr = *instruction_ptr + 1;
            return Ok(());
        }
        let ghost start = *instruction_ptr as int;
        let mut index: usize = *instruction_ptr + 1;
        let mut mag: u128 = 1;
        let mut neg: bool = false;
        while mag != 0
            invariant
                interp_inv(self@),
                *self == *old(self),
                *writer == *old(writer),
                *instruction_ptr == *old(instruction_ptr),
                self@.tape[self@.data_ptr] == 0,
                tokens@.len() <= usize::MAX as int,
                start == *old(instruction_ptr) as int,
                0 <= start < tokens@.len(),
                start + 1 <= index as int <= tokens@.len(),
                neg ==> mag > 0,
                mag as int <= 1 + (index as int - (start + 1)) * (usize::MAX as int),
                fwd_scan(tokens@, start + 1, 1) == fwd_scan(
                    tokens@,
                    index as int,
                    if neg {
                        -(mag as int)
                    } else {
                        mag as int
                    },
                ),
            decreases tokens@.len() - index,
        {
            if index >= tokens.len() {
                return Err(Error::UnmatchedOpenBracket(*instruction_ptr));
            }
            let ghost counter = if neg {
                -(mag as int)
            } else {
                mag as int
            };
            let t = tokens[index];
            proof {
                lemma_scan_counter_bound(mag as int, t.count() as int, index as int - (start + 1));
            }
            match t {
                Token::JumpIfZero(c) => {
                    let cc = c as u128;
                    if neg {
                        if cc >= mag {
                            mag = cc - mag;
                            neg = false;
                        } else {
                            mag = mag - cc;
                        }
                    } else {
                        mag = mag + cc;
                    }
                },
                Token::JumpUnlessZero(c) => {
                    let cc = c as u128;
                    if !neg {
                        if cc >= mag {
                            mag = cc - mag;
                            neg = mag != 0;
                        } else {
                            mag = mag - cc;
                        }
                    } else {
                        mag = mag + cc;
                    }
                },
                _ => {},
            }
            proof {
                assert(fwd_scan(tokens@, index as int, counter) == fwd_scan(
                    tokens@,
                    index as int + 1,
                    counter + fwd_delta(t),
                ));
            }
            index = index + 1;
        }
        *instruction_ptr = index;
        Ok(())
    }

    /// With the current cell non-zero, scans backward for the matching open
    /// and jumps one past it; otherwise falls through to the next
    /// instruction.
    fn jump_unless_zero(
        &mut self,
        count: usize,
        tokens: &Vec<Token>,
        writer: &mut String,
        instruction_ptr: &mut usize,
    ) -> (r: Result<(), Error>) {
        proof {
            vstd::std_specs::vec::axiom_spec_len(tokens);
        }
        let curr_val = self.tape[self.data_ptr];
        if curr_val == 0 {
            *instruction_ptr = *instruction_ptr + 1;
            return Ok(());
        }
        let ghost start = *instruction_ptr as int;
        if *instruction_ptr == 0 {
            return Err(Error::UnmatchedCloseBracket(*instruction_ptr));
        }
        let mut index: usize = *instruction_ptr - 1;
        let mut mag: u128 = 1;
        let mut neg: bool = false;
        loop
            invariant
                interp_inv(self@),
                *self == *old(self),
                *writer == *old(writer),
                *instruction_ptr == *old(instruction_ptr),
                self@.tape[self@.data_ptr] != 0,
                tokens@.len() <= usize::MAX as int,
                start == *old(instruction_ptr) as int,
                0 <= start < tokens@.len(),
                0 <= index as int <= start - 1,
                neg ==> mag > 0,
                mag != 0,
                mag as int <= 1 + (start - 1 - index as int) * (usize::MAX as int),
                bwd_scan(tokens@, start - 1, 1) == bwd_scan(
                    tokens@,
                    index as int,
                    if neg {
                        -(mag as int)
                    } else {
                        mag as int
                    },
                ),
            decreases index,
        {
            let ghost counter = if neg {
                -(mag as int)
            } else {
                mag as int
            };
            let t = tokens[index];
            proof {
                lemma_scan_counter_bound(mag as int, t.count() as int, start - 1 - index as int);
                assert(bwd_scan(tokens@, index as int, counter) == bwd_scan(
                    tokens@,
                    index as int - 1,
                    counter + bwd_delta(t),
                ));
            }
            match t {
                Token::JumpIfZero(c) => {
                    let cc = c as u128;
                    if !neg {
                        if cc >= mag {
                            mag = cc - mag;
                            neg = mag != 0;
                        } else {
                            mag = mag - cc;
                        }
                    } else {
                        mag = mag + cc;
                    }
                },
                Token::JumpUnlessZero(c) => {
                    let cc = c as u128;
                    if neg {
                        if cc >= mag {
                            mag = cc - mag;
                            neg = false;
                        } else {
                            mag = mag - cc;
                        }
                    } else {
                        mag = mag + cc;
                    }
                },
                _ => {},
            }
            if mag == 0 && !neg {
                *instruction_ptr = index + 1;
                return Ok(());
            }
            if index == 0 {
                return Err(Error::UnmatchedCloseBracket(*instruction_ptr));
            }
            index = index - 1;
        }
    }

    /// The interpreter has nothing to flush: its finalize hook is a no-op.
    fn finish(&mut self, writer: &mut String) {
    }
}

/// True when every token is a move, left or right.
pub open spec fn all_moves(tokens: Seq<Token>) -> bool {
    forall|i: int|
        0 <= i < tokens.len() ==> (tokens[i] is MoveLeft || #[trigger] tokens[i] is MoveRight)
}

/// True when every token is an increment or a decrement.
pub open spec fn all_arith(tokens: Seq<Token>) -> bool {
    forall|i: int|
        0 <= i < tokens.len() ==> (tokens[i] is Increment || #[trigger] tokens[i] is Decrement)
}

/// The signed cell displacement of the tokens in `[i, j)`: moves right add
/// their count, moves left subtract it, other tokens contribute nothing.
pub open spec fn net_displacement(tokens: Seq<Token>, i: int, j: int) -> int
    decreases j - i,
{
    if i >= j {
        0
    } else {
        net_displacement(tokens, i, j - 1) + (match tokens[j - 1] {
            Token::MoveRight(c) => c as int,
            Token::MoveLeft(c) => -(c as int),
            _ => 0,
        })
    }
}

/// The signed cell delta of the tokens in `[i, j)`: increments add their
/// count, decrements subtract it, other tokens contribute nothing.
pub open spec fn net_delta(tokens: Seq<Token>, i: int, j: int) -> int
    decreases j - i,
{
    if i >= j {
        0
    } else {
        net_delta(tokens, i, j - 1) + (match tokens[j - 1] {
            Token::Increment(c) => c as int,
            Token::Decrement(c) => -(c as int),
            _ => 0,
        })
    }
}

/// The law of moves: dispatching a sequence of only move operations leaves
/// the data pointer at its initial position plus the net signed
/// displacement, once the cells that left growth put in front are accounted
/// for; the tape is the initial tape with whole growth steps of zeroed
/// cells on either side, so its length stays a multiple of the growth
/// increment away from the initial capacity; and nothing is written or
/// read. The only conceivable failure is a tape grown past what a machine
/// word can index.
pub proof fn lemma_moves_net_displacement(
    init: Config<InterpreterModel>,
    tokens: Seq<Token>,
    n: nat,
)
    requires
        interp_inv(init.st.handler),
        0 <= init.st.ip,
        all_moves(tokens),
    ensures
        match run_steps::<Interpreter>(init, tokens, n) {
            Ok(c) => {
                let left = c.st.handler.data_ptr - init.st.handler.data_ptr - net_displacement(
                    tokens,
                    init.st.ip,
                    c.st.ip,
                );
                let right = c.st.handler.tape.len() - init.st.handler.tape.len() - left;
                &&& interp_inv(c.st.handler)
                &&& init.st.ip <= c.st.ip
                &&& left >= 0 && left % (INCREMENT as int) == 0
                &&& right >= 0 && right % (INCREMENT as int) == 0
                &&& c.st.handler.tape == zero_cells(left as nat) + init.st.handler.tape
                    + zero_cells(right as nat)
                &&& c.st.out == init.st.out
                &&& c.inp == init.inp
            },
            Err(e) => e == Error::TapeOverflow,
        },
    decreases n,
{
    if n == 0 {
        assert(init.st.handler.tape =~= zero_cells(0) + init.st.handler.tape + zero_cells(0));
    } else {
        lemma_moves_net_displacement(init, tokens, (n - 1) as nat);
        match run_steps::<Interpreter>(init, tokens, (n - 1) as nat) {
            Ok(c) => {
                if 0 <= c.st.ip < tokens.len() {
                    let left = c.st.handler.data_ptr - init.st.handler.data_ptr
                        - net_displacement(tokens, init.st.ip, c.st.ip);
                    let right = c.st.handler.tape.len() - init.st.handler.tape.len() - left;
                    let t = tokens[c.st.ip];
                    assert(net_displacement(tokens, init.st.ip, c.st.ip + 1) == net_displacement(
                        tokens,
                        init.st.ip,
                        c.st.ip,
                    ) + (match t {
                        Token::MoveRight(cnt) => cnt as int,
                        Token::MoveLeft(cnt) => -(cnt as int),
                        _ => 0,
                    }));
                    match run_steps::<Interpreter>(init, tokens, n) {
                        Ok(c2) => {
                            match t {
                                Token::MoveLeft(cnt) => {
                                    if cnt <= c.st.handler.data_ptr {
                                        assert(c2.st.handler.tape == c.st.handler.tape);
                                    } else {
                                        let added = INCREMENT * growth_amount(
                                            cnt - c.st.handler.data_ptr,
                                        );
                                        lemma_growth_amount(cnt - c.st.handler.data_ptr);
                                        vstd::arithmetic::div_mod::lemma_mod_multiples_basic(
                                            growth_amount(cnt - c.st.handler.data_ptr),
                                            INCREMENT as int,
                                        );
                                        assert(c2.st.handler.tape =~= zero_cells(
                                            (added + left) as nat,
                                        ) + init.st.handler.tape + zero_cells(right as nat));
                                        vstd::arithmetic::div_mod::lemma_add_mod_noop(
                                            added,
                                            left,
                                            INCREMENT as int,
                                        );
                                        vstd::arithmetic::div_mod::lemma_add_mod_noop(
                                            c.st.handler.tape.len() as int,
                                            added,
                                            INCREMENT as int,
                                        );
                                        assert(c2.st.handler.tape.len() == c.st.handler.tape.len()
                                            + added);
                                        assert(c2.st.handler.tape.len() as int % (
                                        INCREMENT as int) == 0);
                                        assert(0 <= c2.st.handler.data_ptr
                                            < c2.st.handler.tape.len());
                                    }
                                },
                                Token::MoveRight(cnt) => {
                                    if c.st.handler.data_ptr + cnt < c.st.handler.tape.len() {
                                        assert(c2.st.handler.tape == c.st.handler.tape);
                                    } else {
                                        let deficit = c.st.handler.data_ptr + cnt
                                            - c.st.handler.tape.len() + 1;
                                        let added = INCREMENT * growth_amount(deficit);
                                        lemma_growth_amount(deficit);
                                        vstd::arithmetic::div_mod::lemma_mod_multiples_basic(
                                            growth_amount(deficit),
                                            INCREMENT as int,
                                        );
                                        assert(c2.st.handler.tape =~= zero_cells(left as nat)
                                            + init.st.handler.tape + zero_cells(
                                            (right + added) as nat,
                                        ));
                                        vstd::arithmetic::div_mod::lemma_add_mod_noop(
                                            right,
                                            added,
                                            INCREMENT as int,
                                        );
                                        vstd::arithmetic::div_mod::lemma_add_mod_noop(
                                            c.st.handler.tape.len() as int,
                                            added,
                                            INCREMENT as int,
                                        );
                                        assert(c2.st.handler.tape.len() == c.st.handler.tape.len()
                                            + added);
                                        assert(c2.st.handler.tape.len() as int % (
                                        INCREMENT as int) == 0);
                                        assert(0 <= c2.st.handler.data_ptr
                                            < c2.st.handler.tape.len());
                                    }
                                },
                                _ => {
                                    assert(false);
                                },
                            }
                        },
                        Err(_) => {},
                    }
                }
            },
            Err(_) => {},
        }
    }
}

/// The wrap-around law: dispatching a sequence of only increments and
/// decrements never fails, moves nothing, and leaves the current cell at
/// its initial value plus the net delta, modulo 256; every other cell is
/// untouched.
pub proof fn lemma_arith_net_delta(init: Config<InterpreterModel>, tokens: Seq<Token>, n: nat)
    requires
        interp_inv(init.st.handler),
        0 <= init.st.ip,
        all_arith(tokens),
    ensures
        match run_steps::<Interpreter>(init, tokens, n) {
            Ok(c) => {
                let dp = init.st.handler.data_ptr;
                &&& interp_inv(c.st.handler)
                &&& init.st.ip <= c.st.ip
                &&& c.st.handler.data_ptr == dp
                &&& c.st.handler.tape == init.st.handler.tape.update(
                    dp,
                    (((init.st.handler.tape[dp] + net_delta(tokens, init.st.ip, c.st.ip)) % 256)
                        as u8),
                )
                &&& c.st.out == init.st.out
                &&& c.inp == init.inp
            },
            Err(_) => false,
        },
    decreases n,
{
    let dp = init.st.handler.data_ptr;
    let cell0 = init.st.handler.tape[dp] as int;
    if n == 0 {
        vstd::arithmetic::div_mod::lemma_small_mod(cell0 as nat, 256);
        assert(init.st.handler.tape =~= init.st.handler.tape.update(dp, ((cell0 % 256) as u8)));
    } else {
        lemma_arith_net_delta(init, tokens, (n - 1) as nat);
        match run_steps::<Interpreter>(init, tokens, (n - 1) as nat) {
            Ok(c) => {
                if 0 <= c.st.ip < tokens.len() {
                    let t = tokens[c.st.ip];
                    let delta = net_delta(tokens, init.st.ip, c.st.ip);
                    assert(net_delta(tokens, init.st.ip, c.st.ip + 1) == delta + (match t {
                        Token::Increment(cnt) => cnt as int,
                        Token::Decrement(cnt) => -(cnt as int),
                        _ => 0,
                    }));
                    let prior = (cell0 + delta) % 256;
                    assert(c.st.handler.tape[dp] == prior as u8);
                    match t {
                        Token::Increment(cnt) => {
                            assert((prior + cnt) % 256 == (cell0 + delta + cnt) % 256) by {
                                vstd::arithmetic::div_mod::lemma_add_mod_noop(
                                    cell0 + delta,
                                    cnt as int,
                                    256,
                                );
                                vstd::arithmetic::div_mod::lemma_add_mod_noop(
                                    prior,
                                    cnt as int,
                                    256,
                                );
                                vstd::arithmetic::div_mod::lemma_mod_twice(cell0 + delta, 256);
                            }
                            assert(init.st.handler.tape.update(dp, (prior as u8)).update(
                                dp,
                                (((prior + cnt) % 256) as u8),
                            ) =~= init.st.handler.tape.update(
                                dp,
                                (((cell0 + delta + cnt) % 256) as u8),
                            ));
                        },
                        Token::Decrement(cnt) => {
                            assert((prior - cnt) % 256 == (cell0 + delta - cnt) % 256) by {
                                vstd::arithmetic::div_mod::lemma_sub_mod_noop(
                                    cell0 + delta,
                                    cnt as int,
                                    256,
                                );
                                vstd::arithmetic::div_mod::lemma_sub_mod_noop(
                                    prior,
                                    cnt as int,
                                    256,
                                );
                                vstd::arithmetic::div_mod::lemma_mod_twice(cell0 + delta, 256);
                            }
                            assert(init.st.handler.tape.update(dp, (prior as u8)).update(
                                dp,
                                (((prior - cnt) % 256) as u8),
                            ) =~= init.st.handler.tape.update(
                                dp,
                                (((cell0 + delta - cnt) % 256) as u8),
                            ));
                        },
                        _ => {
                            assert(false);
                        },
                    }
                }
            },
            Err(_) => {},
        }
    }
}

} // verus!
