use crate::input::Input;
use crate::token::Token;
use vstd::prelude::*;

verus! {

/// A fatal condition: every one of these aborts the current run or compile
/// at once, and nothing is promised of the partial output it leaves behind.
#[derive(Debug, Clone, Copy, PartialEq, Eq, Structural)]
pub enum Error {
    /// A `JumpIfZero` whose matching close was not found scanning forward to
    /// the end of the sequence; carries the position of the opening token.
    UnmatchedOpenBracket(usize),
    /// A `JumpUnlessZero` whose matching open was not found scanning backward
    /// to the start of the sequence; carries the position of the closing
    /// token.
    UnmatchedCloseBracket(usize),
    /// A `Read` exhausted the input source before its repeat count was
    /// satisfied.
    UnexpectedEndOfInput,
    /// The compiler's outer dispatch received a `JumpUnlessZero` directly;
    /// those are consumed only while a loop body is being rendered, so this
    /// is an internal invariant violation, not a user-facing condition.
    UnreachableJump,
    /// The tape would have to grow past what a machine word can index.
    TapeOverflow,
    /// The loop label counter would wrap, so no fresh label pair is left.
    LabelOverflow,
    /// The driver's step budget ran dry. The budget keeps the driving loop
    /// provably finite; it is far past what any machine could step through,
    /// so only a program that never terminates reaches this.
    OutOfSteps,
}

/// The state a handler method acts on, as the dispatch protocol sees it: the
/// handler's own state (as its mathematical view), the text written to the
/// output sink so far, and the instruction pointer.
pub ghost struct ProtoState<M> {
    pub handler: M,
    pub out: Seq<char>,
    pub ip: int,
}

/// An instruction handler is anything that can handle every operation of
/// the language. The dispatch protocol owns the token sequence and the
/// instruction pointer and only selects which method to invoke per token
/// kind; each method receives the full token sequence so that jump logic can
/// scan forward or backward itself. Each method's behaviour is pinned by a
/// spec transition function of the implementing backend, so the driver's
/// contract composes them into a run.
pub trait InstructionHandler: View + Sized {
    /// The handler's well-formedness, established at construction and
    /// preserved by every successful method call.
    spec fn wf(&self) -> bool;

    /// What handling a `MoveLeft` of the given count does to the state.
    spec fn spec_move_left(pre: ProtoState<Self::V>, count: usize, tokens: Seq<Token>) -> Result<
        ProtoState<Self::V>,
        Error,
    >;

    /// What handling a `MoveRight` of the given count does to the state.
    spec fn spec_move_right(pre: ProtoState<Self::V>, count: usize, tokens: Seq<Token>) -> Result<
        ProtoState<Self::V>,
        Error,
    >;

    /// What handling an `Increment` of the given count does to the state.
    spec fn spec_increment(pre: ProtoState<Self::V>, count: usize, tokens: Seq<Token>) -> Result<
        ProtoState<Self::V>,
        Error,
    >;

    /// What handling a `Decrement` of the given count does to the state.
    spec fn spec_decrement(pre: ProtoState<Self::V>, count: usize, tokens: Seq<Token>) -> Result<
        ProtoState<Self::V>,
        Error,
    >;

    /// What handling a `Write` of the given count does to the state.
    spec fn spec_write(pre: ProtoState<Self::V>, count: usize, tokens: Seq<Token>) -> Result<
        ProtoState<Self::V>,
        Error,
    >;

    /// What handling a `Read` of the given count does to the state and to
    /// the remaining input.
    spec fn spec_read(
        pre: ProtoState<Self::V>,
        count: usize,
        tokens: Seq<Token>,
        inp: Seq<u8>,
    ) -> Result<(ProtoState<Self::V>, Seq<u8>), Error>;

    /// What handling a `JumpIfZero` of the given count does to the state.
    spec fn spec_jump_if_zero(pre: ProtoState<Self::V>, count: usize, tokens: Seq<Token>) -> Result<
        ProtoState<Self::V>,
        Error,
    >;

    /// What handling a `JumpUnlessZero` of the given count does to the state.
    spec fn spec_jump_unless_zero(
        pre: ProtoState<Self::V>,
        count: usize,
        tokens: Seq<Token>,
    ) -> Result<ProtoState<Self::V>, Error>;

    /// What the finalize hook does to the handler state and the output
    /// text; the driver invokes it exactly once, after the dispatch loop has
    /// run off the end of the sequence.
    spec fn spec_finish(handler: Self::V, out: Seq<char>) -> (Self::V, Seq<char>);

    fn move_ptr_left(
        &mut self,
        count: usize,
        tokens: &Vec<Token>,
        writer: &mut String,
        instruction_ptr: &mut usize,
    ) -> (r: Result<(), Error>)
        requires
            old(self).wf(),
            *old(instruction_ptr) < tokens@.len(),
        ensures
            ({
                let pre = ProtoState {
                    handler: old(self)@,
                    out: old(writer)@,
                    ip: *old(instruction_ptr) as int,
                };
                match Self::spec_move_left(pre, count, tokens@) {
                    Ok(post) => r is Ok && final(self).wf() && final(self)@ == post.handler
                        && final(writer)@ == post.out && *final(instruction_ptr) as int == post.ip,
                    Err(e) => r == Err::<(), Error>(e),
                }
            }),
    ;

    fn move_ptr_right(
        &mut self,
        count: usize,
        tokens: &Vec<Token>,
        writer: &mut String,
        instruction_ptr: &mut usize,
    ) -> (r: Result<(), Error>)
        requires
            old(self).wf(),
            *old(instruction_ptr) < tokens@.len(),
        ensures
            ({
                let pre = ProtoState {
                    handler: old(self)@,
                    out: old(writer)@,
                    ip: *old(instruction_ptr) as int,
                };
                match Self::spec_move_right(pre, count, tokens@) {
                    Ok(post) => r is Ok && final(self).wf() && final(self)@ == post.handler
                        && final(writer)@ == post.out && *final(instruction_ptr) as int == post.ip,
                    Err(e) => r == Err::<(), Error>(e),
                }
            }),
    ;

    fn increment_ptr(
        &mut self,
        count: usize,
        tokens: &Vec<Token>,
        writer: &mut String,
        instruction_ptr: &mut usize,
    ) -> (r: Result<(), Error>)
        requires
            old(self).wf(),
            *old(instruction_ptr) < tokens@.len(),
        ensures
            ({
                let pre = ProtoState {
                    handler: old(self)@,
                    out: old(writer)@,
                    ip: *old(instruction_ptr) as int,
                };
                match Self::spec_increment(pre, count, tokens@) {
                    Ok(post) => r is Ok && final(self).wf() && final(self)@ == post.handler
                        && final(writer)@ == post.out && *final(instruction_ptr) as int == post.ip,
                    Err(e) => r == Err::<(), Error>(e),
                }
            }),
    ;

    fn decrement_ptr(
        &mut self,
        count: usize,
        tokens: &Vec<Token>,
        writer: &mut String,
        instruction_ptr: &mut usize,
    ) -> (r: Result<(), Error>)
        requires
            old(self).wf(),
            *old(instruction_ptr) < tokens@.len(),
        ensures
            ({
                let pre = ProtoState {
                    handler: old(self)@,
                    out: old(writer)@,
                    ip: *old(instruction_ptr) as int,
                };
                match Self::spec_decrement(pre, count, tokens@) {
                    Ok(post) => r is Ok && final(self).wf() && final(self)@ == post.handler
                        && final(writer)@ == post.out && *final(instruction_ptr) as int == post.ip,
                    Err(e) => r == Err::<(), Error>(e),
                }
            }),
    ;

    fn write_ptr(
        &mut self,
        count: usize,
        tokens: &Vec<Token>,
        writer: &mut String,
        instruction_ptr: &mut usize,
    ) -> (r: Result<(), Error>)
        requires
            old(self).wf(),
            *old(instruction_ptr) < tokens@.len(),
        ensures
            ({
                let pre = ProtoState {
                    handler: old(self)@,
                    out: old(writer)@,
                    ip: *old(instruction_ptr) as int,
                };
                match Self::spec_write(pre, count, tokens@) {
                    Ok(post) => r is Ok && final(self).wf() && final(self)@ == post.handler
                        && final(writer)@ == post.out && *final(instruction_ptr) as int == post.ip,
                    Err(e) => r == Err::<(), Error>(e),
                }
            }),
    ;

    fn read_ptr(
        &mut self,
        count: usize,
        tokens: &Vec<Token>,
        writer: &mut String,
        reader: &mut Input,
        instruction_ptr: &mut usize,
    ) -> (r: Result<(), Error>)
        requires
            old(self).wf(),
            old(reader).wf(),
            *old(instruction_ptr) < tokens@.len(),
        ensures
            final(reader).wf(),
            ({
                let pre = ProtoState {
                    handler: old(self)@,
                    out: old(writer)@,
                    ip: *old(instruction_ptr) as int,
                };
                match Self::spec_read(pre, count, tokens@, old(reader)@) {
                    Ok((post, inp)) => r is Ok && final(self).wf() && final(self)@ == post.handler
                        && final(writer)@ == post.out && *final(instruction_ptr) as int == post.ip
                        && final(reader)@ == inp,
                    Err(e) => r == Err::<(), Error>(e),
                }
            }),
    ;

    fn jump_if_zero(
        &mut self,
        count: usize,
        tokens: &Vec<Token>,
        writer: &mut String,
        instruction_ptr: &mut usize,
    ) -> (r: Result<(), Error>)
        requires
            old(self).wf(),
            *old(instruction_ptr) < tokens@.len(),
        ensures
            ({
                let pre = ProtoState {
                    handler: old(self)@,
                    out: old(writer)@,
                    ip: *old(instruction_ptr) as int,
                };
                match Self::spec_jump_if_zero(pre, count, tokens@) {
                    Ok(post) => r is Ok && final(self).wf() && final(self)@ == post.handler
                        && final(writer)@ == post.out && *final(instruction_ptr) as int == post.ip,
                    Err(e) => r == Err::<(), Error>(e),
                }
            }),
    ;

    fn jump_unless_zero(
        &mut self,
        count: usize,
        tokens: &Vec<Token>,
        writer: &mut String,
        instruction_ptr: &mut usize,
    ) -> (r: Result<(), Error>)
        requires
            old(self).wf(),
            *old(instruction_ptr) < tokens@.len(),
        ensures
            ({
                let pre = ProtoState {
                    handler: old(self)@,
                    out: old(writer)@,
                    ip: *old(instruction_ptr) as int,
                };
                match Self::spec_jump_unless_zero(pre, count, tokens@) {
                    Ok(post) => r is Ok && final(self).wf() && final(self)@ == post.handler
                        && final(writer)@ == post.out && *final(instruction_ptr) as int == post.ip,
                    Err(e) => r == Err::<(), Error>(e),
                }
            }),
    ;

    fn finish(&mut self, writer: &mut String)
        requires
            old(self).wf(),
        ensures
            final(self).wf(),
            ({
                let post = Self::spec_finish(old(self)@, old(writer)@);
                final(self)@ == post.0 && final(writer)@ == post.1
            }),
    ;
}

/// The driver-side state of a run: the protocol state plus the remaining
/// input bytes.
pub ghost struct Config<M> {
    pub st: ProtoState<M>,
    pub inp: Seq<u8>,
}

/// One step of the dispatch protocol: the token under the instruction
/// pointer selects the handler transition that is applied.
pub open spec fn protocol_step<I: InstructionHandler>(c: Config<I::V>, tokens: Seq<Token>) -> Result<
    Config<I::V>,
    Error,
>
    recommends
        0 <= c.st.ip < tokens.len(),
{
    match tokens[c.st.ip] {
        Token::MoveLeft(n) => keep_input::<I>(I::spec_move_left(c.st, n, tokens), c.inp),
        Token::MoveRight(n) => keep_input::<I>(I::spec_move_right(c.st, n, tokens), c.inp),
        Token::Increment(n) => keep_input::<I>(I::spec_increment(c.st, n, tokens), c.inp),
        Token::Decrement(n) => keep_input::<I>(I::spec_decrement(c.st, n, tokens), c.inp),
        Token::Write(n) => keep_input::<I>(I::spec_write(c.st, n, tokens), c.inp),
        Token::JumpIfZero(n) => keep_input::<I>(I::spec_jump_if_zero(c.st, n, tokens), c.inp),
        Token::JumpUnlessZero(n) => keep_input::<I>(
            I::spec_jump_unless_zero(c.st, n, tokens),
            c.inp,
        ),
        Token::Read(n) => match I::spec_read(c.st, n, tokens, c.inp) {
            Ok((st, inp)) => Ok(Config { st, inp }),
            Err(e) => Err(e),
        },
    }
}

/// Pairs a transition result that does not touch the input source back up
/// with the unchanged input.
pub open spec fn keep_input<I: InstructionHandler>(
    r: Result<ProtoState<I::V>, Error>,
    inp: Seq<u8>,
) -> Result<Config<I::V>, Error> {
    match r {
        Ok(st) => Ok(Config { st, inp }),
        Err(e) => Err(e),
    }
}

/// `n` steps of the dispatch protocol from a starting configuration; once
/// the instruction pointer runs off the end of the sequence the
/// configuration is stable, so extra steps change nothing.
pub open spec fn run_steps<I: InstructionHandler>(
    c: Config<I::V>,
    tokens: Seq<Token>,
    n: nat,
) -> Result<Config<I::V>, Error>
    decreases n,
{
    if n == 0 {
        Ok(c)
    } else {
        match run_steps::<I>(c, tokens, (n - 1) as nat) {
            Ok(c2) => if c2.st.ip < 0 || c2.st.ip >= tokens.len() {
                Ok(c2)
            } else {
                protocol_step::<I>(c2, tokens)
            },
            Err(e) => Err(e),
        }
    }
}

/// The finalize hook applied to a configuration: handler state and output
/// text pass through it, instruction pointer and input are untouched.
pub open spec fn apply_finish<I: InstructionHandler>(c: Config<I::V>) -> Config<I::V> {
    let post = I::spec_finish(c.st.handler, c.st.out);
    Config { st: ProtoState { handler: post.0, out: post.1, ip: c.st.ip }, inp: c.inp }
}

/// A complete run: after `n` steps the instruction pointer has left the
/// sequence, and the finalize hook has been applied to what the steps
/// produced.
pub open spec fn completes_to<I: InstructionHandler>(
    init: Config<I::V>,
    tokens: Seq<Token>,
    n: nat,
    fin: Config<I::V>,
) -> bool {
    match run_steps::<I>(init, tokens, n) {
        Ok(c) => c.st.ip >= tokens.len() && fin == apply_finish::<I>(c),
        Err(_) => false,
    }
}

/// Once a run has left the token sequence it is stable: further steps do
/// not change it. Hence any two complete runs from the same configuration
/// end in the same place, whatever step counts witnessed them: the protocol
/// is deterministic.
pub proof fn lemma_run_steps_stable<I: InstructionHandler>(
    c: Config<I::V>,
    tokens: Seq<Token>,
    n: nat,
    m: nat,
)
    requires
        n <= m,
        match run_steps::<I>(c, tokens, n) {
            Ok(d) => d.st.ip >= tokens.len(),
            Err(_) => true,
        },
    ensures
        run_steps::<I>(c, tokens, m) == run_steps::<I>(c, tokens, n),
    decreases m,
{
    if m > n {
        lemma_run_steps_stable::<I>(c, tokens, n, (m - 1) as nat);
    }
}

/// The dispatch protocol is deterministic: two complete runs from the same
/// configuration over the same tokens end in the same final configuration.
pub proof fn lemma_complete_run_unique<I: InstructionHandler>(
    init: Config<I::V>,
    tokens: Seq<Token>,
    n1: nat,
    n2: nat,
    fin1: Config<I::V>,
    fin2: Config<I::V>,
)
    requires
        completes_to::<I>(init, tokens, n1, fin1),
        completes_to::<I>(init, tokens, n2, fin2),
    ensures
        fin1 == fin2,
{
    if n1 <= n2 {
        lemma_run_steps_stable::<I>(init, tokens, n1, n2);
    } else {
        lemma_run_steps_stable::<I>(init, tokens, n2, n1);
    }
}

} // verus!
