use crate::input::Input;
use crate::instruction_handler::Config;
use crate::instruction_handler::Error;
use crate::instruction_handler::InstructionHandler;
use crate::instruction_handler::ProtoState;
use crate::instruction_handler::apply_finish;
use crate::instruction_handler::completes_to;
use crate::instruction_handler::protocol_step;
use crate::instruction_handler::run_steps;
use crate::token::Token;
use vstd::prelude::*;

verus! {

/// How many protocol steps one call of `interpret` will take at most: far
/// past what any machine could step through, so in practice a run ends by
/// completing or by failing, never by running the budget dry.
pub const STEP_BUDGET: u128 = u128::MAX;

/// The driver of the dispatch protocol: it owns the token sequence for one
/// run, the instruction pointer, the output sink and the input source, and
/// one concrete handler. It only selects which handler method to invoke per
/// token kind; jump semantics live entirely in the handlers.
pub struct Parser<I> where I: InstructionHandler {
    /// The pointer to the current instruction within the token sequence.
    instruction_ptr: usize,
    /// The output sink the handlers write to.
    writer: String,
    /// The input source the read operation draws from.
    reader: Input,
    /// The backend that handles each operation: an interpreter or a
    /// compiler.
    instruction_handler: I,
}

impl<I> Parser<I> where I: InstructionHandler {
    /// The text written to the output sink so far.
    pub closed spec fn spec_writer(&self) -> Seq<char> {
        self.writer@
    }

    /// The bytes of the input source not yet consumed.
    pub closed spec fn spec_input(&self) -> Seq<u8> {
        self.reader@
    }

    /// The handler in its current state.
    pub closed spec fn spec_handler(&self) -> I {
        self.instruction_handler
    }

    /// The instruction pointer.
    pub closed spec fn spec_ip(&self) -> int {
        self.instruction_ptr as int
    }

    /// A well-formed parser holds a well-formed handler and input source.
    pub closed spec fn wf(&self) -> bool {
        self.instruction_handler.wf() && self.reader.wf()
    }

    /// The parser as a configuration of the dispatch protocol.
    pub open spec fn config(&self) -> Config<I::V> {
        Config {
            st: ProtoState {
                handler: self.spec_handler()@,
                out: self.spec_writer(),
                ip: self.spec_ip(),
            },
            inp: self.spec_input(),
        }
    }

    /// A fresh driver over the given sink, source and handler, with the
    /// instruction pointer at the start.
    pub fn new(writer: String, reader: Input, instruction_handler: I) -> (r: Parser<I>)
        requires
            instruction_handler.wf(),
            reader.wf(),
        ensures
            r.wf(),
            r.spec_writer() == writer@,
            r.spec_input() == reader@,
            r.spec_handler() == instruction_handler,
            r.spec_ip() == 0,
    {
        Parser { writer, reader, instruction_handler, instruction_ptr: 0 }
    }

    /// The output sink, for reading back what a run produced.
    pub fn writer(&self) -> (r: &String)
        ensures
            r@ == self.spec_writer(),
    {
        &self.writer
    }

    /// The instruction pointer.
    pub fn instruction_ptr(&self) -> (r: usize)
        ensures
            r as int == self.spec_ip(),
    {
        self.instruction_ptr
    }

    /// The handler, for reading back its state after a run.
    pub fn instruction_handler(&self) -> (r: &I)
        ensures
            *r == self.spec_handler(),
    {
        &self.instruction_handler
    }

    /// Drives the token sequence exactly once: while the instruction pointer
    /// is inside the sequence, the token under it selects the handler method
    /// invoked, and the whole sequence is passed on so that the handler can
    /// scan for matching jumps itself. When the loop leaves the sequence the
    /// finalize hook runs, exactly once. A successful run is some number of
    /// protocol steps followed by the finalize hook; a failed run stops at
    /// the first failing step and promises nothing of the state left behind.
    pub fn interpret(&mut self, tokens: Vec<Token>) -> (r: Result<(), Error>)
        requires
            old(self).wf(),
        ensures
            match r {
                Ok(_) => final(self).wf() && exists|n: nat|
                    completes_to::<I>(old(self).config(), tokens@, n, final(self).config()),
                Err(e) => (exists|n: nat|
                    run_steps::<I>(old(self).config(), tokens@, n) == Err::<Config<I::V>, Error>(
                        e,
                    )) || (e == Error::OutOfSteps && match run_steps::<I>(
                    old(self).config(),
                    tokens@,
                    STEP_BUDGET as nat,
                ) {
                    Ok(c) => 0 <= c.st.ip < tokens@.len(),
                    Err(_) => false,
                }),
            },
    {
        let ghost init = old(self).config();
        let mut fuel: u128 = STEP_BUDGET;
        while self.instruction_ptr < tokens.len()
            invariant
                self.wf(),
                init == old(self).config(),
                run_steps::<I>(init, tokens@, (STEP_BUDGET - fuel) as nat) == Ok::<
                    Config<I::V>,
                    Error,
                >(self.config()),
            decreases fuel,
        {
            if fuel == 0 {
                proof {
                    assert(run_steps::<I>(old(self).config(), tokens@, STEP_BUDGET as nat)
                        == Ok::<Config<I::V>, Error>(self.config()));
                    assert(0 <= self.config().st.ip < tokens@.len());
                }
                return Err(Error::OutOfSteps);
            }
            let ghost prev = self.config();
            fuel = fuel - 1;
            let t = tokens[self.instruction_ptr];
            let step_result = match t {
                Token::MoveLeft(count) => self.instruction_handler.move_ptr_left(
                    count,
                    &tokens,
                    &mut self.writer,
                    &mut self.instruction_ptr,
                ),
                Token::MoveRight(count) => self.instruction_handler.move_ptr_right(
                    count,
                    &tokens,
                    &mut self.writer,
                    &mut self.instruction_ptr,
                ),
                Token::Increment(count) => self.instruction_handler.increment_ptr(
                    count,
                    &tokens,
                    &mut self.writer,
                    &mut self.instruction_ptr,
                ),
                Token::Decrement(count) => self.instruction_handler.decrement_ptr(
                    count,
                    &tokens,
                    &mut self.writer,
                    &mut self.instruction_ptr,
                ),
                Token::Write(count) => self.instruction_handler.write_ptr(
                    count,
                    &tokens,
                    &mut self.writer,
                    &mut self.instruction_ptr,
                ),
                Token::JumpIfZero(count) => self.instruction_handler.jump_if_zero(
                    count,
                    &tokens,
                    &mut self.writer,
                    &mut self.instruction_ptr,
                ),
                Token::JumpUnlessZero(count) => self.instruction_handler.jump_unless_zero(
                    count,
                    &tokens,
                    &mut self.writer,
                    &mut self.instruction_ptr,
                ),
                Token::Read(count) => self.instruction_handler.read_ptr(
                    count,
                    &tokens,
                    &mut self.writer,
                    &mut self.reader,
                    &mut self.instruction_ptr,
                ),
            };
            proof {
                assert(run_steps::<I>(init, tokens@, (STEP_BUDGET - fuel - 1) as nat) == Ok::<
                    Config<I::V>,
                    Error,
                >(prev));
                assert((STEP_BUDGET - fuel) as nat == (STEP_BUDGET - fuel - 1) as nat + 1);
            }
            match step_result {
                Ok(_) => {
                    proof {
                        assert(protocol_step::<I>(prev, tokens@) == Ok::<Config<I::V>, Error>(
                            self.config(),
                        ));
                        assert(run_steps::<I>(init, tokens@, (STEP_BUDGET - fuel) as nat) == Ok::<
                            Config<I::V>,
                            Error,
                        >(self.config()));
                    }
                },
                Err(e) => {
                    proof {
                        assert(protocol_step::<I>(prev, tokens@) == Err::<Config<I::V>, Error>(e));
                        assert(run_steps::<I>(init, tokens@, (STEP_BUDGET - fuel) as nat) == Err::<
                            Config<I::V>,
                            Error,
                        >(e));
                        assert(run_steps::<I>(old(self).config(), tokens@, (STEP_BUDGET
                            - fuel) as nat) == Err::<Config<I::V>, Error>(e));
                        assert(exists|n: nat|
                            run_steps::<I>(old(self).config(), tokens@, n) == Err::<
                                Config<I::V>,
                                Error,
                            >(e));
                    }
                    return Err(e);
                },
            }
        }
        let ghost before_finish = self.config();
        self.instruction_handler.finish(&mut self.writer);
        proof {
            assert(self.config() == apply_finish::<I>(before_finish));
            assert(completes_to::<I>(init, tokens@, (STEP_BUDGET - fuel) as nat, self.config()));
        }
        Ok(())
    }
}

} // verus!
