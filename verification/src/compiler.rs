use crate::digits::dec_digits;
use crate::digits::usize_to_string;
use crate::fasm_boilerplate::break_helper;
use crate::fasm_boilerplate::break_text;
use crate::fasm_boilerplate::fasm_boilerplate;
use crate::fasm_boilerplate::fasm_boilerplate_text;
use crate::fasm_boilerplate::multi_dec;
use crate::fasm_boilerplate::multi_dec_text;
use crate::fasm_boilerplate::multi_inc;
use crate::fasm_boilerplate::multi_inc_text;
use crate::fasm_boilerplate::multi_left;
use crate::fasm_boilerplate::multi_left_text;
use crate::fasm_boilerplate::multi_right;
use crate::fasm_boilerplate::multi_right_text;
use crate::fasm_boilerplate::write_helper;
use crate::fasm_boilerplate::write_text;
use crate::input::Input;
use crate::instruction_handler::Config;
use crate::instruction_handler::Error;
use crate::instruction_handler::InstructionHandler;
use crate::instruction_handler::ProtoState;
use crate::instruction_handler::completes_to;
use crate::instruction_handler::protocol_step;
use crate::instruction_handler::run_steps;
use crate::lexer::Lexer;
use crate::lexer::tokens_of;
use crate::parser::Parser;
use crate::token::Token;
use vstd::prelude::*;
use vstd::string::StringExecFns;
use vstd::string::StringSliceAdditionalSpecFns;

verus! {

/// The backend that translates the token sequence into assembly text. It
/// emits instructions for each token into the output sink, keeps a flag per
/// optional helper subroutine so that only the helpers actually used are
/// appended at the end, numbers loop label pairs from a private counter, and
/// accumulates rendered loop header and body blocks to flush after the main
/// instruction stream.
#[derive(Debug)]
pub struct Compiler {
    has_multi_increment: bool,
    has_multi_decrement: bool,
    has_multi_move_left: bool,
    has_multi_move_right: bool,
    has_write: bool,
    jump_count: usize,
    jump_list: Vec<String>,
}

/// The compiler's state as mathematics.
pub ghost struct CompilerModel {
    pub has_multi_increment: bool,
    pub has_multi_decrement: bool,
    pub has_multi_move_left: bool,
    pub has_multi_move_right: bool,
    pub has_write: bool,
    pub jump_count: int,
    pub jump_list: Seq<Seq<char>>,
}

impl View for Compiler {
    type V = CompilerModel;

    closed spec fn view(&self) -> CompilerModel {
        CompilerModel {
            has_multi_increment: self.has_multi_increment,
            has_multi_decrement: self.has_multi_decrement,
            has_multi_move_left: self.has_multi_move_left,
            has_multi_move_right: self.has_multi_move_right,
            has_write: self.has_write,
            jump_count: self.jump_count as int,
            jump_list: self.jump_list@.map_values(|s: String| s@),
        }
    }
}

/// A compiler before any token was dispatched: no helper needed, no loop
/// numbered, nothing deferred.
pub open spec fn initial_compiler_model() -> CompilerModel {
    CompilerModel {
        has_multi_increment: false,
        has_multi_decrement: false,
        has_multi_move_left: false,
        has_multi_move_right: false,
        has_write: false,
        jump_count: 0,
        jump_list: Seq::empty(),
    }
}

/// The instructions for one operation with a repeat count: a count of one
/// is a single direct instruction, a larger count loads the count and calls
/// the operation's shared helper.
pub open spec fn op_text(count: usize, single: Seq<char>, multi: Seq<char>) -> Seq<char> {
    if count > 1 {
        "    mov ecx, "@ + dec_digits(count as nat) + "\n"@ + multi
    } else {
        single
    }
}

/// `n` copies of `s`, concatenated.
pub open spec fn repeat_seq(n: nat, s: Seq<char>) -> Seq<char>
    decreases n,
{
    if n == 0 {
        Seq::empty()
    } else {
        repeat_seq((n - 1) as nat, s) + s
    }
}

/// One call of the shared output helper.
pub open spec fn call_w_line() -> Seq<char> {
    "    call _w\n"@
}

/// The header label of loop `k`.
pub open spec fn header_label(k: nat) -> Seq<char> {
    "_j"@ + dec_digits(k) + "z"@
}

/// The body label of loop `k`.
pub open spec fn body_label(k: nat) -> Seq<char> {
    "_j"@ + dec_digits(k) + "b"@
}

/// The call into loop `k`'s header, emitted in place of the loop.
pub open spec fn call_line(k: nat) -> Seq<char> {
    "    call "@ + header_label(k) + "\n"@
}

/// Loop `k`'s header block: test the current cell, leave through the shared
/// exit label when it is zero, enter the body otherwise.
pub open spec fn header_block(k: nat) -> Seq<char> {
    header_label(k) + ":\n"@ + "    cmp byte [ebx], 0\n"@ + "    je _b\n"@ + "    jne "@
        + body_label(k)
}

/// Loop `k`'s body block: the rendered inner instructions, then a retest of
/// the current cell that repeats the body while it is non-zero and falls
/// through to the shared exit label otherwise.
pub open spec fn body_block(k: nat, body: Seq<char>) -> Seq<char> {
    body_label(k) + ":\n"@ + body + "    cmp byte [ebx], 0\n"@ + "    jne "@ + body_label(k)
        + "\n"@ + "    je _b"@
}

/// The instructions a non-jump token emits.
pub open spec fn simple_text(t: Token) -> Seq<char> {
    match t {
        Token::MoveLeft(c) => op_text(c, "    dec ebx\n"@, "    call _l\n"@),
        Token::MoveRight(c) => op_text(c, "    inc ebx\n"@, "    call _r\n"@),
        Token::Increment(c) => op_text(c, "    inc byte [ebx]\n"@, "    call _u\n"@),
        Token::Decrement(c) => op_text(c, "    dec byte [ebx]\n"@, "    call _d\n"@),
        Token::Write(c) => repeat_seq(c as nat, call_w_line()),
        _ => Seq::empty(),
    }
}

/// The helper flags a non-jump token switches on.
pub open spec fn simple_flags(m: CompilerModel, t: Token) -> CompilerModel {
    match t {
        Token::MoveLeft(c) => CompilerModel {
            has_multi_move_left: m.has_multi_move_left || c > 1,
            ..m
        },
        Token::MoveRight(c) => CompilerModel {
            has_multi_move_right: m.has_multi_move_right || c > 1,
            ..m
        },
        Token::Increment(c) => CompilerModel {
            has_multi_increment: m.has_multi_increment || c > 1,
            ..m
        },
        Token::Decrement(c) => CompilerModel {
            has_multi_decrement: m.has_multi_decrement || c > 1,
            ..m
        },
        Token::Write(_) => CompilerModel { has_write: true, ..m },
        _ => m,
    }
}

/// What a non-jump token does to a protocol state: its text goes to the
/// sink, its flags are switched on, the instruction pointer advances.
pub open spec fn comp_simple(pre: ProtoState<CompilerModel>, t: Token) -> ProtoState<
    CompilerModel,
> {
    ProtoState {
        handler: simple_flags(pre.handler, t),
        out: pre.out + simple_text(t),
        ip: pre.ip + 1,
    }
}

/// One loop being rendered: how many opens are outstanding, the body text
/// accumulated so far, the loop's label number, and where its opening token
/// stood (for the error report).
pub ghost struct Frame {
    pub open_jumps: int,
    pub body: Seq<char>,
    pub label: int,
    pub start: int,
}

/// The state of a loop-body rendering in flight: the compiler state and the
/// stack of loops being rendered, innermost last.
pub ghost struct CompRun {
    pub model: CompilerModel,
    pub stack: Seq<Frame>,
}

/// One token of loop-body rendering. Text of non-jump tokens goes into the
/// innermost body; a nested open emits its call line there, pushes a fresh
/// frame and takes the next label number; a close lowers the innermost
/// outstanding-open counter by its count, and exactly at zero the loop's
/// header and body blocks are moved to the deferred list.
pub open spec fn comp_step(tokens: Seq<Token>, s: CompRun, ip: int) -> Result<CompRun, Error>
    recommends
        s.stack.len() > 0,
        0 <= ip < tokens.len(),
{
    let top = s.stack.last();
    match tokens[ip] {
        Token::JumpIfZero(c) => {
            if s.model.jump_count == usize::MAX as int {
                Err(Error::LabelOverflow)
            } else {
                let k = s.model.jump_count;
                Ok(
                    CompRun {
                        model: CompilerModel { jump_count: k + 1, ..s.model },
                        stack: s.stack.update(
                            s.stack.len() - 1,
                            Frame { body: top.body + call_line(k as nat), ..top },
                        ).push(Frame { open_jumps: 1, body: Seq::empty(), label: k, start: ip }),
                    },
                )
            }
        },
        Token::JumpUnlessZero(c) => {
            let open2 = top.open_jumps - c;
            if open2 == 0 {
                Ok(
                    CompRun {
                        model: CompilerModel {
                            jump_list: s.model.jump_list + seq![
                                header_block(top.label as nat),
                                body_block(top.label as nat, top.body),
                            ],
                            ..s.model
                        },
                        stack: s.stack.drop_last(),
                    },
                )
            } else {
                Ok(
                    CompRun {
                        model: s.model,
                        stack: s.stack.update(
                            s.stack.len() - 1,
                            Frame { open_jumps: open2, ..top },
                        ),
                    },
                )
            }
        },
        Token::Read(_) => Ok(s),
        t => Ok(
            CompRun {
                model: simple_flags(s.model, t),
                stack: s.stack.update(
                    s.stack.len() - 1,
                    Frame { body: top.body + simple_text(t), ..top },
                ),
            },
        ),
    }
}

/// Loop-body rendering run to completion: tokens are consumed one at a time
/// until every frame has closed; running off the end of the sequence with a
/// frame still open is the unmatched-open-bracket failure, reported at the
/// innermost open.
pub open spec fn comp_run(tokens: Seq<Token>, s: CompRun, ip: int) -> Result<
    (CompilerModel, int),
    Error,
>
    decreases tokens.len() - ip,
{
    if s.stack.len() == 0 {
        Ok((s.model, ip))
    } else if ip < 0 || ip >= tokens.len() {
        Err(Error::UnmatchedOpenBracket(s.stack.last().start as usize))
    } else {
        match comp_step(tokens, s, ip) {
            Ok(s2) => comp_run(tokens, s2, ip + 1),
            Err(e) => Err(e),
        }
    }
}

/// Every deferred block followed by a line break, in order.
pub open spec fn blocks_text(bs: Seq<Seq<char>>) -> Seq<char>
    decreases bs.len(),
{
    if bs.len() == 0 {
        Seq::empty()
    } else {
        blocks_text(bs.drop_last()) + bs.last() + "\n"@
    }
}

/// The conditionally included helper subroutines, in their fixed order, each
/// followed by a line break; a helper appears exactly when its flag was
/// switched on, and the shared exit label when any loop was numbered.
pub open spec fn helpers_text(m: CompilerModel) -> Seq<char> {
    (if m.has_multi_increment {
        multi_inc_text() + "\n"@
    } else {
        Seq::empty()
    }) + (if m.has_multi_decrement {
        multi_dec_text() + "\n"@
    } else {
        Seq::empty()
    }) + (if m.has_multi_move_right {
        multi_right_text() + "\n"@
    } else {
        Seq::empty()
    }) + (if m.has_multi_move_left {
        multi_left_text() + "\n"@
    } else {
        Seq::empty()
    }) + (if m.has_write {
        write_text() + "\n"@
    } else {
        Seq::empty()
    }) + (if m.jump_count > 0 {
        break_text() + "\n"@
    } else {
        Seq::empty()
    })
}

/// Everything the finalize hook appends: the jump to program termination,
/// the deferred loop blocks, then the helpers whose flags are on.
pub open spec fn finish_text(m: CompilerModel) -> Seq<char> {
    "    jmp _e\n"@ + blocks_text(m.jump_list) + helpers_text(m)
}

/// Appends the instructions for one operation with a repeat count: one
/// direct instruction for a count of one, otherwise a load of the count and
/// a call of the operation's shared helper.
fn emit_op(writer: &mut String, count: usize, single: &'static str, multi: &'static str)
    ensures
        final(writer)@ == old(writer)@ + op_text(count, single@, multi@),
{
    if count > 1 {
        writer.append("    mov ecx, ");
        let n = usize_to_string(count);
        writer.append(n.as_str());
        writer.append("\n");
        writer.append(multi);
        proof {
            assert(writer@ =~= old(writer)@ + ("    mov ecx, "@ + dec_digits(count as nat) + "\n"@
                + multi@));
        }
    } else {
        writer.append(single);
    }
}

impl Compiler {
    /// A fresh compiler over the given sink; the fixed preamble is written
    /// at once, before any token is dispatched.
    pub fn new(writer: &mut String) -> (r: Compiler)
        ensures
            final(writer)@ == old(writer)@ + fasm_boilerplate_text(),
            r@ == initial_compiler_model(),
            r.wf(),
    {
        writer.append(fasm_boilerplate());
        let r = Compiler {
            has_multi_increment: false,
            has_multi_decrement: false,
            has_multi_move_left: false,
            has_multi_move_right: false,
            has_write: false,
            jump_count: 0,
            jump_list: Vec::new(),
        };
        proof {
            assert(r@.jump_list =~= Seq::<Seq<char>>::empty());
        }
        r
    }
}

/// A loop-body rendering run ends past the tokens it consumed: when it
/// comes back successfully, the instruction pointer has advanced by at
/// least one token.
pub proof fn lemma_comp_run_advances(tokens: Seq<Token>, s: CompRun, ip: int)
    requires
        s.stack.len() > 0,
    ensures
        match comp_run(tokens, s, ip) {
            Ok((m2, ip2)) => ip < ip2 <= tokens.len(),
            Err(_) => true,
        },
    decreases tokens.len() - ip,
{
    if ip < 0 || ip >= tokens.len() {
    } else {
        match comp_step(tokens, s, ip) {
            Ok(s2) => {
                if s2.stack.len() > 0 {
                    lemma_comp_run_advances(tokens, s2, ip + 1);
                }
            },
            Err(_) => {},
        }
    }
}

/// Frames below the innermost are untouched while it renders: running with
/// a frame pushed onto a stack is running with that frame alone and then
/// continuing with the stack from where that run ended. This is what lets
/// each recursive loop rendering be verified on its own frame.
#[verifier::rlimit(60)]
pub proof fn lemma_comp_run_frames(
    tokens: Seq<Token>,
    base: Seq<Frame>,
    f: Frame,
    m: CompilerModel,
    ip: int,
)
    ensures
        comp_run(tokens, CompRun { model: m, stack: base.push(f) }, ip) == (match comp_run(
            tokens,
            CompRun { model: m, stack: seq![f] },
            ip,
        ) {
            Ok((m2, ip2)) => comp_run(tokens, CompRun { model: m2, stack: base }, ip2),
            Err(e) => Err(e),
        }),
    decreases tokens.len() - ip,
{
    let big = CompRun { model: m, stack: base.push(f) };
    let small = CompRun { model: m, stack: seq![f] };
    assert(big.stack.last() == f);
    assert(small.stack.last() == f);
    if ip < 0 || ip >= tokens.len() {
    } else {
        match tokens[ip] {
            Token::JumpIfZero(c) => {
                if m.jump_count == usize::MAX as int {
                } else {
                    let k = m.jump_count;
                    let m2 = CompilerModel { jump_count: k + 1, ..m };
                    let f2 = Frame { body: f.body + call_line(k as nat), ..f };
                    let g = Frame { open_jumps: 1, body: Seq::empty(), label: k, start: ip };
                    assert(big.stack.update(big.stack.len() - 1, f2) =~= base.push(f2));
                    assert(small.stack.update(0, f2) =~= seq![f2]);
                    assert(comp_run(tokens, big, ip) == comp_run(
                        tokens,
                        CompRun { model: m2, stack: base.push(f2).push(g) },
                        ip + 1,
                    ));
                    assert(comp_run(tokens, small, ip) == comp_run(
                        tokens,
                        CompRun { model: m2, stack: seq![f2].push(g) },
                        ip + 1,
                    ));
                    lemma_comp_run_frames(tokens, base.push(f2), g, m2, ip + 1);
                    lemma_comp_run_frames(tokens, seq![f2], g, m2, ip + 1);
                    match comp_run(tokens, CompRun { model: m2, stack: seq![g] }, ip + 1) {
                        Ok((m3, ip3)) => {
                            lemma_comp_run_advances(
                                tokens,
                                CompRun { model: m2, stack: seq![g] },
                                ip + 1,
                            );
                            lemma_comp_run_frames(tokens, base, f2, m3, ip3);
                            assert(comp_run(tokens, big, ip) == comp_run(
                                tokens,
                                CompRun { model: m3, stack: base.push(f2) },
                                ip3,
                            ));
                            assert(comp_run(tokens, small, ip) == comp_run(
                                tokens,
                                CompRun { model: m3, stack: seq![f2] },
                                ip3,
                            ));
                            match comp_run(tokens, CompRun { model: m3, stack: seq![f2] }, ip3) {
                                Ok((m4, ip4)) => {
                                    assert(comp_run(tokens, big, ip) == comp_run(
                                        tokens,
                                        CompRun { model: m4, stack: base },
                                        ip4,
                                    ));
                                    assert(comp_run(tokens, small, ip) == Ok::<
                                        (CompilerModel, int),
                                        Error,
                                    >((m4, ip4)));
                                    assert(comp_run(tokens, big, ip) == (match comp_run(
                                        tokens,
                                        small,
                                        ip,
                                    ) {
                                        Ok((mm, ipp)) => comp_run(
                                            tokens,
                                            CompRun { model: mm, stack: base },
                                            ipp,
                                        ),
                                        Err(e) => Err(e),
                                    }));
                                },
                                Err(_) => {
                                    assert(comp_run(tokens, big, ip) == (match comp_run(
                                        tokens,
                                        small,
                                        ip,
                                    ) {
                                        Ok((mm, ipp)) => comp_run(
                                            tokens,
                                            CompRun { model: mm, stack: base },
                                            ipp,
                                        ),
                                        Err(e) => Err(e),
                                    }));
                                },
                            }
                        },
                        Err(_) => {
                            assert(comp_run(tokens, big, ip) == (match comp_run(
                                tokens,
                                small,
                                ip,
                            ) {
                                Ok((mm, ipp)) => comp_run(
                                    tokens,
                                    CompRun { model: mm, stack: base },
                                    ipp,
                                ),
                                Err(e) => Err(e),
                            }));
                        },
                    }
                }
            },
            Token::JumpUnlessZero(c) => {
                let open2 = f.open_jumps - c;
                if open2 == 0 {
                    let m2 = CompilerModel {
                        jump_list: m.jump_list + seq![
                            header_block(f.label as nat),
                            body_block(f.label as nat, f.body),
                        ],
                        ..m
                    };
                    assert(big.stack.drop_last() =~= base);
                    assert(small.stack.drop_last() =~= Seq::<Frame>::empty());
                    assert(comp_run(tokens, CompRun { model: m2, stack: Seq::empty() }, ip + 1)
                        == Ok::<(CompilerModel, int), Error>((m2, ip + 1)));
                    assert(comp_run(tokens, big, ip) == (match comp_run(tokens, small, ip) {
                    Ok((mm, ipp)) => comp_run(tokens, CompRun { model: mm, stack: base }, ipp),
                    Err(e) => Err(e),
                }));
                } else {
                    let f2 = Frame { open_jumps: open2, ..f };
                    assert(big.stack.update(big.stack.len() - 1, f2) =~= base.push(f2));
                    assert(small.stack.update(0, f2) =~= seq![f2]);
                    lemma_comp_run_frames(tokens, base, f2, m, ip + 1);
                    assert(comp_run(tokens, big, ip) == (match comp_run(tokens, small, ip) {
                    Ok((mm, ipp)) => comp_run(tokens, CompRun { model: mm, stack: base }, ipp),
                    Err(e) => Err(e),
                }));
                }
            },
            Token::Read(_) => {
                lemma_comp_run_frames(tokens, base, f, m, ip + 1);
                assert(comp_run(tokens, big, ip) == (match comp_run(tokens, small, ip) {
                    Ok((mm, ipp)) => comp_run(tokens, CompRun { model: mm, stack: base }, ipp),
                    Err(e) => Err(e),
                }));
            },
            t => {
                let f2 = Frame { body: f.body + simple_text(t), ..f };
                let m2 = simple_flags(m, t);
                assert(big.stack.update(big.stack.len() - 1, f2) =~= base.push(f2));
                assert(small.stack.update(0, f2) =~= seq![f2]);
                lemma_comp_run_frames(tokens, base, f2, m2, ip + 1);
                assert(comp_run(tokens, big, ip) == (match comp_run(tokens, small, ip) {
                    Ok((mm, ipp)) => comp_run(tokens, CompRun { model: mm, stack: base }, ipp),
                    Err(e) => Err(e),
                }));
            },
        }
    }
}

impl Default for Compiler {
    /// A fresh compiler that has written nothing yet.
    fn default() -> (r: Compiler)
        ensures
            r@ == initial_compiler_model(),
            r.wf(),
    {
        let r = Compiler {
            has_multi_increment: false,
            has_multi_decrement: false,
            has_multi_move_left: false,
            has_multi_move_right: false,
            has_write: false,
            jump_count: 0,
            jump_list: Vec::new(),
        };
        proof {
            assert(r@.jump_list =~= Seq::<Seq<char>>::empty());
        }
        r
    }
}

/// Scaling by a non-negative factor keeps an inequality.
proof fn lemma_mul_mono(a: int, b: int, m: int)
    requires
        a <= b,
        0 <= m,
    ensures
        a * m <= b * m,
{
    assert(a * m <= b * m) by (nonlinear_arith)
        requires
            a <= b,
            0 <= m,
    ;
}

/// Dispatching a `JumpIfZero`: the loop takes the next label number, its
/// call line goes to the sink, and the body rendering consumes tokens until
/// the loop closes; the state that rendering ends in is the result.
pub open spec fn comp_jump_if_zero(pre: ProtoState<CompilerModel>, tokens: Seq<Token>) -> Result<
    ProtoState<CompilerModel>,
    Error,
> {
    if pre.handler.jump_count == usize::MAX as int {
        Err(Error::LabelOverflow)
    } else {
        let k = pre.handler.jump_count;
        let s0 = CompRun {
            model: CompilerModel { jump_count: k + 1, ..pre.handler },
            stack: seq![Frame { open_jumps: 1, body: Seq::empty(), label: k, start: pre.ip }],
        };
        match comp_run(tokens, s0, pre.ip + 1) {
            Ok((m2, ip2)) => Ok(
                ProtoState { handler: m2, out: pre.out + call_line(k as nat), ip: ip2 },
            ),
            Err(e) => Err(e),
        }
    }
}

impl Compiler {
    /// Renders one loop: emits the call line for a fresh label pair, then
    /// re-drives the dispatch over the same tokens from the next index into
    /// a private body buffer, itself handling nested opens by recursion and
    /// closes by the outstanding-open counter, until this loop closes; the
    /// rendered header and body blocks join the deferred list.
    #[verifier::rlimit(100)]
    fn render_jump(
        &mut self,
        tokens: &Vec<Token>,
        writer: &mut String,
        instruction_ptr: &mut usize,
    ) -> (r: Result<(), Error>)
        requires
            *old(instruction_ptr) < tokens@.len(),
        ensures
            ({
                let pre = ProtoState {
                    handler: old(self)@,
                    out: old(writer)@,
                    ip: *old(instruction_ptr) as int,
                };
                match comp_jump_if_zero(pre, tokens@) {
                    Ok(post) => r is Ok && final(self)@ == post.handler && final(writer)@
                        == post.out && *final(instruction_ptr) as int == post.ip,
                    Err(e) => r == Err::<(), Error>(e),
                }
            }),
        decreases tokens@.len() - *old(instruction_ptr),
    {
        proof {
            vstd::std_specs::vec::axiom_spec_len(tokens);
        }
        if self.jump_count == usize::MAX {
            return Err(Error::LabelOverflow);
        }
        let k = self.jump_count;
        self.jump_count = self.jump_count + 1;
        let num = usize_to_string(k);
        writer.append("    call ");
        writer.append("_j");
        writer.append(num.as_str());
        writer.append("z");
        writer.append("\n");
        proof {
            assert(writer@ =~= old(writer)@ + call_line(k as nat));
        }
        let start_idx: usize = *instruction_ptr;
        let ghost start = start_idx as int;
        let ghost m0 = self@;
        let ghost f0 = Frame { open_jumps: 1, body: Seq::empty(), label: k as int, start: start };
        *instruction_ptr = start_idx + 1;
        let mut body = String::new();
        let mut d: u128 = 0;
        proof {
            assert(Seq::<char>::empty() =~= body@);
        }
        loop
            invariant
                tokens@.len() <= usize::MAX as int,
                start == *old(instruction_ptr) as int,
                start_idx as int == start,
                0 <= start < tokens@.len(),
                start + 1 <= *instruction_ptr as int <= tokens@.len(),
                k as int == old(self)@.jump_count,
                k < usize::MAX,
                m0 == (CompilerModel { jump_count: k as int + 1, ..old(self)@ }),
                f0 == (Frame {
                    open_jumps: 1,
                    body: Seq::<char>::empty(),
                    label: k as int,
                    start: start,
                }),
                num@ == dec_digits(k as nat),
                writer@ == old(writer)@ + call_line(k as nat),
                d as int <= 1 + (*instruction_ptr as int - (start + 1)) * (usize::MAX as int),
                comp_run(
                    tokens@,
                    CompRun {
                        model: self@,
                        stack: seq![
                            Frame {
                                open_jumps: 1 - d as int,
                                body: body@,
                                label: k as int,
                                start: start,
                            },
                        ],
                    },
                    *instruction_ptr as int,
                ) == comp_run(tokens@, CompRun { model: m0, stack: seq![f0] }, start + 1),
            decreases tokens@.len() - *instruction_ptr,
        {
            let ghost target = comp_run(tokens@, CompRun { model: m0, stack: seq![f0] }, start + 1);
            let ghost prev_model = self@;
            let ghost prev_body = body@;
            let ghost prev_ip = *instruction_ptr as int;
            let ghost prev_frame = Frame {
                open_jumps: 1 - d as int,
                body: body@,
                label: k as int,
                start: start,
            };
            if *instruction_ptr >= tokens.len() {
                return Err(Error::UnmatchedOpenBracket(start_idx));
            }
            let t = tokens[*instruction_ptr];
            match t {
                Token::MoveLeft(c) => {
                    let res = self.move_ptr_left(c, tokens, &mut body, instruction_ptr);
                    proof {
                        render_simple_step(
                            tokens@,
                            prev_model,
                            prev_frame,
                            prev_ip,
                            self@,
                            body@,
                            t,
                        );
                        lemma_mul_mono(
                            prev_ip - (start + 1),
                            *instruction_ptr as int - (start + 1),
                            usize::MAX as int,
                        );
                    }
                    match res {
                        Ok(_) => {},
                        Err(e) => {
                            proof {
                                assert(false);
                            }
                            return Err(e);
                        },
                    }
                },
                Token::MoveRight(c) => {
                    let res = self.move_ptr_right(c, tokens, &mut body, instruction_ptr);
                    proof {
                        render_simple_step(
                            tokens@,
                            prev_model,
                            prev_frame,
                            prev_ip,
                            self@,
                            body@,
                            t,
                        );
                        lemma_mul_mono(
                            prev_ip - (start + 1),
                            *instruction_ptr as int - (start + 1),
                            usize::MAX as int,
                        );
                    }
                    match res {
                        Ok(_) => {},
                        Err(e) => {
                            proof {
                                assert(false);
                            }
                            return Err(e);
                        },
                    }
                },
                Token::Increment(c) => {
                    let res = self.increment_ptr(c, tokens, &mut body, instruction_ptr);
                    proof {
                        render_simple_step(
                            tokens@,
                            prev_model,
                            prev_frame,
                            prev_ip,
                            self@,
                            body@,
                            t,
                        );
                        lemma_mul_mono(
                            prev_ip - (start + 1),
                            *instruction_ptr as int - (start + 1),
                            usize::MAX as int,
                        );
                    }
                    match res {
                        Ok(_) => {},
                        Err(e) => {
                            proof {
                                assert(false);
                            }
                            return Err(e);
                        },
                    }
                },
                Token::Decrement(c) => {
                    let res = self.decrement_ptr(c, tokens, &mut body, instruction_ptr);
                    proof {
                        render_simple_step(
                            tokens@,
                            prev_model,
                            prev_frame,
                            prev_ip,
                            self@,
                            body@,
                            t,
                        );
                        lemma_mul_mono(
                            prev_ip - (start + 1),
                            *instruction_ptr as int - (start + 1),
                            usize::MAX as int,
                        );
                    }
                    match res {
                        Ok(_) => {},
                        Err(e) => {
                            proof {
                                assert(false);
                            }
                            return Err(e);
                        },
                    }
                },
                Token::Write(c) => {
                    let res = self.write_ptr(c, tokens, &mut body, instruction_ptr);
                    proof {
                        render_simple_step(
                            tokens@,
                            prev_model,
                            prev_frame,
                            prev_ip,
                            self@,
                            body@,
                            t,
                        );
                        lemma_mul_mono(
                            prev_ip - (start + 1),
                            *instruction_ptr as int - (start + 1),
                            usize::MAX as int,
                        );
                    }
                    match res {
                        Ok(_) => {},
                        Err(e) => {
                            proof {
                                assert(false);
                            }
                            return Err(e);
                        },
                    }
                },
                Token::Read(c) => {
                    *instruction_ptr = *instruction_ptr + 1;
                    proof {
                        assert(comp_step(
                            tokens@,
                            CompRun { model: prev_model, stack: seq![prev_frame] },
                            prev_ip,
                        ) == Ok::<CompRun, Error>(
                            CompRun { model: prev_model, stack: seq![prev_frame] },
                        ));
                        lemma_mul_mono(
                            prev_ip - (start + 1),
                            *instruction_ptr as int - (start + 1),
                            usize::MAX as int,
                        );
                    }
                },
                Token::JumpIfZero(c) => {
                    let ghost g = Frame {
                        open_jumps: 1,
                        body: Seq::<char>::empty(),
                        label: prev_model.jump_count,
                        start: prev_ip,
                    };
                    let ghost f2 = Frame {
                        body: prev_body + call_line(prev_model.jump_count as nat),
                        ..prev_frame
                    };
                    let res = self.render_jump(tokens, &mut body, instruction_ptr);
                    proof {
                        if prev_model.jump_count == usize::MAX as int {
                            assert(res == Err::<(), Error>(Error::LabelOverflow));
                            assert(comp_step(
                                tokens@,
                                CompRun { model: prev_model, stack: seq![prev_frame] },
                                prev_ip,
                            ) == Err::<CompRun, Error>(Error::LabelOverflow));
                        } else {
                            let m1 = CompilerModel {
                                jump_count: prev_model.jump_count + 1,
                                ..prev_model
                            };
                            assert(seq![prev_frame].update(0, f2) =~= seq![f2]);
                            assert(comp_step(
                                tokens@,
                                CompRun { model: prev_model, stack: seq![prev_frame] },
                                prev_ip,
                            ) == Ok::<CompRun, Error>(
                                CompRun { model: m1, stack: seq![f2].push(g) },
                            ));
                            lemma_comp_run_frames(tokens@, seq![f2], g, m1, prev_ip + 1);
                            match comp_run(
                                tokens@,
                                CompRun { model: m1, stack: seq![g] },
                                prev_ip + 1,
                            ) {
                                Ok((m2, ip2)) => {
                                    lemma_comp_run_advances(
                                        tokens@,
                                        CompRun { model: m1, stack: seq![g] },
                                        prev_ip + 1,
                                    );
                                    assert(seq![f2] =~= seq![
                                        Frame {
                                            open_jumps: 1 - d as int,
                                            body: body@,
                                            label: k as int,
                                            start: start,
                                        },
                                    ]);
                                    lemma_mul_mono(
                                        prev_ip - (start + 1),
                                        *instruction_ptr as int - (start + 1),
                                        usize::MAX as int,
                                    );
                                },
                                Err(_) => {},
                            }
                        }
                    }
                    match res {
                        Ok(_) => {},
                        Err(e) => {
                            proof {
                                assert(comp_run(
                                    tokens@,
                                    CompRun { model: prev_model, stack: seq![prev_frame] },
                                    prev_ip,
                                ) == Err::<(CompilerModel, int), Error>(e));
                            }
                            return Err(e);
                        },
                    }
                },
                Token::JumpUnlessZero(c) => {
                    proof {
                        crate::interpreter::lemma_scan_counter_bound(
                            d as int,
                            c as int,
                            prev_ip - (start + 1),
                        );
                    }
                    d = d + (c as u128);
                    *instruction_ptr = *instruction_ptr + 1;
                    if d == 1 {
                        let ghost m2 = CompilerModel {
                            jump_list: prev_model.jump_list + seq![
                                header_block(k as nat),
                                body_block(k as nat, prev_body),
                            ],
                            ..prev_model
                        };
                        proof {
                            assert(seq![prev_frame].drop_last() =~= Seq::<Frame>::empty());
                            assert(comp_step(
                                tokens@,
                                CompRun { model: prev_model, stack: seq![prev_frame] },
                                prev_ip,
                            ) == Ok::<CompRun, Error>(
                                CompRun { model: m2, stack: Seq::empty() },
                            ));
                            assert(comp_run(
                                tokens@,
                                CompRun { model: m2, stack: Seq::empty() },
                                prev_ip + 1,
                            ) == Ok::<(CompilerModel, int), Error>((m2, prev_ip + 1)));
                        }
                        let mut jump_header = String::new();
                        jump_header.append("_j");
                        jump_header.append(num.as_str());
                        jump_header.append("z");
                        jump_header.append(":\n");
                        jump_header.append("    cmp byte [ebx], 0\n");
                        jump_header.append("    je _b\n");
                        jump_header.append("    jne ");
                        jump_header.append("_j");
                        jump_header.append(num.as_str());
                        jump_header.append("b");
                        proof {
                            assert(jump_header@ =~= header_block(k as nat));
                        }
                        let mut jump_body = String::new();
                        jump_body.append("_j");
                        jump_body.append(num.as_str());
                        jump_body.append("b");
                        jump_body.append(":\n");
                        jump_body.append(body.as_str());
                        jump_body.append("    cmp byte [ebx], 0\n");
                        jump_body.append("    jne ");
                        jump_body.append("_j");
                        jump_body.append(num.as_str());
                        jump_body.append("b");
                        jump_body.append("\n");
                        jump_body.append("    je _b");
                        proof {
                            assert(jump_body@ =~= body_block(k as nat, prev_body));
                        }
                        self.jump_list.push(jump_header);
                        self.jump_list.push(jump_body);
                        proof {
                            assert(self@.jump_list =~= prev_model.jump_list + seq![
                                header_block(k as nat),
                                body_block(k as nat, prev_body),
                            ]);
                            assert(self@ == m2);
                        }
                        return Ok(());
                    }
                    proof {
                        let f2 = Frame { open_jumps: 1 - d as int, ..prev_frame };
                        assert(seq![prev_frame].update(0, f2) =~= seq![f2]);
                        assert(comp_step(
                            tokens@,
                            CompRun { model: prev_model, stack: seq![prev_frame] },
                            prev_ip,
                        ) == Ok::<CompRun, Error>(CompRun { model: prev_model, stack: seq![f2] }));
                    }
                },
            }
        }
    }
}

impl InstructionHandler for Compiler {
    open spec fn wf(&self) -> bool {
        true
    }

    open spec fn spec_move_left(
        pre: ProtoState<CompilerModel>,
        count: usize,
        tokens: Seq<Token>,
    ) -> Result<ProtoState<CompilerModel>, Error> {
        Ok(comp_simple(pre, Token::MoveLeft(count)))
    }

    open spec fn spec_move_right(
        pre: ProtoState<CompilerModel>,
        count: usize,
        tokens: Seq<Token>,
    ) -> Result<ProtoState<CompilerModel>, Error> {
        Ok(comp_simple(pre, Token::MoveRight(count)))
    }

    open spec fn spec_increment(
        pre: ProtoState<CompilerModel>,
        count: usize,
        tokens: Seq<Token>,
    ) -> Result<ProtoState<CompilerModel>, Error> {
        Ok(comp_simple(pre, Token::Increment(count)))
    }

    open spec fn spec_decrement(
        pre: ProtoState<CompilerModel>,
        count: usize,
        tokens: Seq<Token>,
    ) -> Result<ProtoState<CompilerModel>, Error> {
        Ok(comp_simple(pre, Token::Decrement(count)))
    }

    open spec fn spec_write(
        pre: ProtoState<CompilerModel>,
        count: usize,
        tokens: Seq<Token>,
    ) -> Result<ProtoState<CompilerModel>, Error> {
        Ok(comp_simple(pre, Token::Write(count)))
    }

    open spec fn spec_read(
        pre: ProtoState<CompilerModel>,
        count: usize,
        tokens: Seq<Token>,
        inp: Seq<u8>,
    ) -> Result<(ProtoState<CompilerModel>, Seq<u8>), Error> {
        Ok((ProtoState { handler: pre.handler, out: pre.out, ip: pre.ip + 1 }, inp))
    }

    open spec fn spec_jump_if_zero(
        pre: ProtoState<CompilerModel>,
        count: usize,
        tokens: Seq<Token>,
    ) -> Result<ProtoState<CompilerModel>, Error> {
        comp_jump_if_zero(pre, tokens)
    }

    open spec fn spec_jump_unless_zero(
        pre: ProtoState<CompilerModel>,
        count: usize,
        tokens: Seq<Token>,
    ) -> Result<ProtoState<CompilerModel>, Error> {
        Err(Error::UnreachableJump)
    }

    open spec fn spec_finish(handler: CompilerModel, out: Seq<char>) -> (
        CompilerModel,
        Seq<char>,
    ) {
        (handler, out + finish_text(handler))
    }

    /// A single move left is one direct pointer decrement; a longer one
    /// loads the count and calls the shared helper, whose inclusion flag is
    /// switched on.
    fn move_ptr_left(
        &mut self,
        count: usize,
        tokens: &Vec<Token>,
        writer: &mut String,
        instruction_ptr: &mut usize,
    ) -> (r: Result<(), Error>) {
        proof {
            vstd::std_specs::vec::axiom_spec_len(tokens);
        }
        if count > 1 {
            self.has_multi_move_left = true;
        }
        emit_op(writer, count, "    dec ebx\n", "    call _l\n");
        *instruction_ptr = *instruction_ptr + 1;
        Ok(())
    }

    /// A single move right is one direct pointer increment; a longer one
    /// loads the count and calls the shared helper, whose inclusion flag is
    /// switched on.
    fn move_ptr_right(
        &mut self,
        count: usize,
        tokens: &Vec<Token>,
        writer: &mut String,
        instruction_ptr: &mut usize,
    ) -> (r: Result<(), Error>) {
        proof {
            vstd::std_specs::vec::axiom_spec_len(tokens);
        }
        if count > 1 {
            self.has_multi_move_right = true;
        }
        emit_op(writer, count, "    inc ebx\n", "    call _r\n");
        *instruction_ptr = *instruction_ptr + 1;
        Ok(())
    }

    /// A single increment is one direct byte increment on the current cell;
    /// a longer one loads the count and calls the shared helper, whose
    /// inclusion flag is switched on.
    fn increment_ptr(
        &mut self,
        count: usize,
        tokens: &Vec<Token>,
        writer: &mut String,
        instruction_ptr: &mut usize,
    ) -> (r: Result<(), Error>) {
        proof {
            vstd::std_specs::vec::axiom_spec_len(tokens);
        }
        if count > 1 {
            self.has_multi_increment = true;
        }
        emit_op(writer, count, "    inc byte [ebx]\n", "    call _u\n");
        *instruction_ptr = *instruction_ptr + 1;
        Ok(())
    }

    /// A single decrement is one direct byte decrement on the current cell;
    /// a longer one loads the count and calls the shared helper, whose
    /// inclusion flag is switched on.
    fn decrement_ptr(
        &mut self,
        count: usize,
        tokens: &Vec<Token>,
        writer: &mut String,
        instruction_ptr: &mut usize,
    ) -> (r: Result<(), Error>) {
        proof {
            vstd::std_specs::vec::axiom_spec_len(tokens);
        }
        if count > 1 {
            self.has_multi_decrement = true;
        }
        emit_op(writer, count, "    dec byte [ebx]\n", "    call _d\n");
        *instruction_ptr = *instruction_ptr + 1;
        Ok(())
    }

    /// Writes lower to one call of the shared output helper per unit of the
    /// count; the helper's inclusion flag is switched on.
    fn write_ptr(
        &mut self,
        count: usize,
        tokens: &Vec<Token>,
        writer: &mut String,
        instruction_ptr: &mut usize,
    ) -> (r: Result<(), Error>) {
        proof {
            vstd::std_specs::vec::axiom_spec_len(tokens);
        }
        self.has_write = true;
        let mut i: usize = 0;
        while i < count
            invariant
                i <= count,
                writer@ == old(writer)@ + repeat_seq(i as nat, call_w_line()),
            decreases count - i,
        {
            writer.append("    call _w\n");
            i = i + 1;
            proof {
                assert(writer@ =~= old(writer)@ + repeat_seq(i as nat, call_w_line()));
            }
        }
        *instruction_ptr = *instruction_ptr + 1;
        Ok(())
    }

    /// Input is out of scope for the generated program: a known limitation,
    /// only the instruction pointer advances.
    fn read_ptr(
        &mut self,
        count: usize,
        tokens: &Vec<Token>,
        writer: &mut String,
        reader: &mut Input,
        instruction_ptr: &mut usize,
    ) -> (r: Result<(), Error>) {
        proof {
            vstd::std_specs::vec::axiom_spec_len(tokens);
        }
        *instruction_ptr = *instruction_ptr + 1;
        Ok(())
    }

    /// Dispatching a `JumpIfZero` renders the whole loop, including every
    /// nested one, and leaves the instruction pointer past the close.
    fn jump_if_zero(
        &mut self,
        count: usize,
        tokens: &Vec<Token>,
        writer: &mut String,
        instruction_ptr: &mut usize,
    ) -> (r: Result<(), Error>) {
        self.render_jump(tokens, writer, instruction_ptr)
    }

    /// A `JumpUnlessZero` is consumed only inside a loop rendering; the
    /// outer dispatch reaching one is an internal invariant violation.
    fn jump_unless_zero(
        &mut self,
        count: usize,
        tokens: &Vec<Token>,
        writer: &mut String,
        instruction_ptr: &mut usize,
    ) -> (r: Result<(), Error>) {
        Err(Error::UnreachableJump)
    }

    /// Emits the jump to program termination, flushes every deferred loop
    /// block, then appends each helper subroutine whose flag is on, in the
    /// fixed order.
    #[verifier::rlimit(100)]
    fn finish(&mut self, writer: &mut String) {
        writer.append("    jmp _e\n");
        let ghost base = old(writer)@ + "    jmp _e\n"@;
        let ghost jumps = self@.jump_list;
        proof {
            assert(writer@ == base + blocks_text(jumps.take(0)));
        }
        let mut idx: usize = 0;
        while idx < self.jump_list.len()
            invariant
                *self == *old(self),
                jumps == self@.jump_list,
                idx as int <= jumps.len(),
                jumps.len() == self.jump_list@.len(),
                base == old(writer)@ + "    jmp _e\n"@,
                writer@ == base + blocks_text(jumps.take(idx as int)),
            decreases self.jump_list@.len() - idx,
        {
            let block = &self.jump_list[idx];
            writer.append(block.as_str());
            writer.append("\n");
            proof {
                assert(block@ == jumps[idx as int]);
            }
            idx = idx + 1;
            proof {
                assert(jumps.take(idx as int).drop_last() =~= jumps.take(idx as int - 1));
                assert(jumps.take(idx as int).last() == jumps[idx as int - 1]);
                assert(writer@ =~= base + blocks_text(jumps.take(idx as int)));
            }
        }
        proof {
            assert(jumps.take(jumps.len() as int) =~= jumps);
        }
        let ghost upto = old(writer)@ + "    jmp _e\n"@ + blocks_text(jumps);
        proof {
            assert(writer@ =~= upto);
        }
        self.append_helpers(writer);
        proof {
            assert(writer@ =~= old(writer)@ + finish_text(old(self)@));
        }
    }
}

impl Compiler {
    /// Appends each optional helper subroutine whose flag is on, in the
    /// fixed order, ending with the shared loop-exit label when any loop
    /// was numbered.
    #[verifier::rlimit(100)]
    fn append_helpers(&self, writer: &mut String)
        ensures
            final(writer)@ == old(writer)@ + helpers_text(self@),
    {
        let ghost m = self@;
        let ghost mut acc: Seq<char> = old(writer)@;
        if self.has_multi_increment {
            writer.append(multi_inc());
            writer.append("\n");
            proof {
                acc = acc + (multi_inc_text() + "\n"@);
                assert(writer@ =~= acc);
            }
        } else {
            proof {
                acc = acc + Seq::<char>::empty();
                assert(writer@ =~= acc);
            }
        }
        if self.has_multi_decrement {
            writer.append(multi_dec());
            writer.append("\n");
            proof {
                acc = acc + (multi_dec_text() + "\n"@);
                assert(writer@ =~= acc);
            }
        } else {
            proof {
                acc = acc + Seq::<char>::empty();
                assert(writer@ =~= acc);
            }
        }
        if self.has_multi_move_right {
            writer.append(multi_right());
            writer.append("\n");
            proof {
                acc = acc + (multi_right_text() + "\n"@);
                assert(writer@ =~= acc);
            }
        } else {
            proof {
                acc = acc + Seq::<char>::empty();
                assert(writer@ =~= acc);
            }
        }
        if self.has_multi_move_left {
            writer.append(multi_left());
            writer.append("\n");
            proof {
                acc = acc + (multi_left_text() + "\n"@);
                assert(writer@ =~= acc);
            }
        } else {
            proof {
                acc = acc + Seq::<char>::empty();
                assert(writer@ =~= acc);
            }
        }
        if self.has_write {
            writer.append(write_helper());
            writer.append("\n");
            proof {
                acc = acc + (write_text() + "\n"@);
                assert(writer@ =~= acc);
            }
        } else {
            proof {
                acc = acc + Seq::<char>::empty();
                assert(writer@ =~= acc);
            }
        }
        if self.jump_count > 0 {
            writer.append(break_helper());
            writer.append("\n");
            proof {
                acc = acc + (break_text() + "\n"@);
                assert(writer@ =~= acc);
            }
        } else {
            proof {
                acc = acc + Seq::<char>::empty();
                assert(writer@ =~= acc);
            }
        }
        proof {
            let w0 = old(writer)@;
            let h1 = if m.has_multi_increment {
                multi_inc_text() + "\n"@
            } else {
                Seq::<char>::empty()
            };
            let h2 = if m.has_multi_decrement {
                multi_dec_text() + "\n"@
            } else {
                Seq::<char>::empty()
            };
            let h3 = if m.has_multi_move_right {
                multi_right_text() + "\n"@
            } else {
                Seq::<char>::empty()
            };
            let h4 = if m.has_multi_move_left {
                multi_left_text() + "\n"@
            } else {
                Seq::<char>::empty()
            };
            let h5 = if m.has_write {
                write_text() + "\n"@
            } else {
                Seq::<char>::empty()
            };
            let h6 = if m.jump_count > 0 {
                break_text() + "\n"@
            } else {
                Seq::<char>::empty()
            };
            assert(acc == w0 + h1 + h2 + h3 + h4 + h5 + h6);
            vstd::seq_lib::lemma_concat_associative(w0, h1, h2);
            vstd::seq_lib::lemma_concat_associative(w0, h1 + h2, h3);
            vstd::seq_lib::lemma_concat_associative(w0, h1 + h2 + h3, h4);
            vstd::seq_lib::lemma_concat_associative(w0, h1 + h2 + h3 + h4, h5);
            vstd::seq_lib::lemma_concat_associative(w0, h1 + h2 + h3 + h4 + h5, h6);
            assert(acc == w0 + (h1 + h2 + h3 + h4 + h5 + h6));
            assert(helpers_text(m) == h1 + h2 + h3 + h4 + h5 + h6);
        }
    }

}

/// The compute half of assembling: tokenize the source, then drive the
/// token sequence once through a fresh compiler over a sink seeded with the
/// fixed preamble, finalize, and hand back the assembly text. Nothing is
/// read or written here; persisting the text is the caller's business.
pub fn assemble_text(source: &str) -> (r: Result<String, Error>)
    ensures
        ({
            let tokens = tokens_of(source.spec_bytes());
            let init = Config::<CompilerModel> {
                st: ProtoState {
                    handler: initial_compiler_model(),
                    out: fasm_boilerplate_text(),
                    ip: 0,
                },
                inp: Seq::<u8>::empty(),
            };
            match r {
                Ok(out) => exists|n: nat, fin: Config<CompilerModel>|
                    completes_to::<Compiler>(init, tokens, n, fin) && out@ == fin.st.out,
                Err(e) => exists|n: nat|
                    run_steps::<Compiler>(init, tokens, n) == Err::<Config<CompilerModel>, Error>(
                        e,
                    ),
            }
        }),
{
    let tokens = Lexer::tokenize(source);
    proof {
        vstd::std_specs::vec::axiom_spec_len(&tokens);
    }
    let ghost tseq = tokens@;
    let mut writer = String::new();
    let compiler = Compiler::new(&mut writer);
    let reader = Input::new(Vec::new());
    let mut parser = Parser::new(writer, reader, compiler);
    proof {
        assert(parser.spec_writer() =~= fasm_boilerplate_text());
        assert(parser.spec_input() =~= Seq::<u8>::empty());
    }
    let ghost init = parser.config();
    match parser.interpret(tokens) {
        Ok(_) => Ok(parser.writer().clone()),
        Err(e) => {
            proof {
                if e == Error::OutOfSteps {
                    // neither way the driver can report an empty budget: a
                    // compiler run never errs with it, and it advances the
                    // instruction pointer every step, so a budget past the
                    // sequence length cannot run dry
                    if exists|n: nat|
                        run_steps::<Compiler>(init, tseq, n) == Err::<
                            Config<CompilerModel>,
                            Error,
                        >(Error::OutOfSteps) {
                        let n = choose|n: nat|
                            run_steps::<Compiler>(init, tseq, n) == Err::<
                                Config<CompilerModel>,
                                Error,
                            >(Error::OutOfSteps);
                        lemma_compiler_progress(init, tseq, n);
                    } else {
                        lemma_compiler_progress(init, tseq, crate::parser::STEP_BUDGET as nat);
                    }
                    assert(false);
                }
            }
            Err(e)
        },
    }
}

/// Loop-body rendering fails only as an unmatched open or as label
/// exhaustion; it never yields the driver's step-budget error.
proof fn lemma_comp_run_not_out_of_steps(tokens: Seq<Token>, s: CompRun, ip: int)
    ensures
        comp_run(tokens, s, ip) != Err::<(CompilerModel, int), Error>(Error::OutOfSteps),
    decreases tokens.len() - ip,
{
    if s.stack.len() == 0 {
    } else if ip < 0 || ip >= tokens.len() {
    } else {
        match comp_step(tokens, s, ip) {
            Ok(s2) => {
                lemma_comp_run_not_out_of_steps(tokens, s2, ip + 1);
            },
            Err(_) => {},
        }
    }
}

/// Every dispatch step of the compiler advances the instruction pointer,
/// and none of its failures is the step-budget error.
proof fn lemma_compiler_step_advances(c: Config<CompilerModel>, tokens: Seq<Token>)
    requires
        0 <= c.st.ip < tokens.len(),
    ensures
        match protocol_step::<Compiler>(c, tokens) {
            Ok(c2) => c.st.ip < c2.st.ip <= tokens.len(),
            Err(e) => e != Error::OutOfSteps,
        },
{
    match tokens[c.st.ip] {
        Token::JumpIfZero(n) => {
            if c.st.handler.jump_count == usize::MAX as int {
            } else {
                let k = c.st.handler.jump_count;
                let s0 = CompRun {
                    model: CompilerModel { jump_count: k + 1, ..c.st.handler },
                    stack: seq![
                        Frame { open_jumps: 1, body: Seq::empty(), label: k, start: c.st.ip },
                    ],
                };
                lemma_comp_run_advances(tokens, s0, c.st.ip + 1);
                lemma_comp_run_not_out_of_steps(tokens, s0, c.st.ip + 1);
            }
        },
        _ => {},
    }
}

/// A compiler run makes progress: after `n` steps it has left the token
/// sequence or has advanced the instruction pointer by at least `n`, and no
/// number of steps makes it fail with the step-budget error. In particular
/// a budget past the sequence length can never run dry.
pub proof fn lemma_compiler_progress(init: Config<CompilerModel>, tokens: Seq<Token>, n: nat)
    requires
        0 <= init.st.ip,
    ensures
        match run_steps::<Compiler>(init, tokens, n) {
            Ok(c) => init.st.ip <= c.st.ip && (c.st.ip >= tokens.len() || c.st.ip - init.st.ip
                >= n),
            Err(e) => e != Error::OutOfSteps,
        },
    decreases n,
{
    if n == 0 {
    } else {
        lemma_compiler_progress(init, tokens, (n - 1) as nat);
        match run_steps::<Compiler>(init, tokens, (n - 1) as nat) {
            Ok(c2) => {
                if 0 <= c2.st.ip < tokens.len() {
                    lemma_compiler_step_advances(c2, tokens);
                }
            },
            Err(_) => {},
        }
    }
}

/// The determinism law of the compiler: two complete compiles of the same
/// token sequence from the same starting configuration end in the same
/// configuration, so the assembly text they produce is byte-identical,
/// whatever step counts witnessed them.
pub proof fn lemma_compile_deterministic(
    init: Config<CompilerModel>,
    tokens: Seq<Token>,
    n1: nat,
    n2: nat,
    fin1: Config<CompilerModel>,
    fin2: Config<CompilerModel>,
)
    requires
        completes_to::<Compiler>(init, tokens, n1, fin1),
        completes_to::<Compiler>(init, tokens, n2, fin2),
    ensures
        fin1 == fin2,
        fin1.st.out == fin2.st.out,
{
    crate::instruction_handler::lemma_complete_run_unique::<Compiler>(
        init,
        tokens,
        n1,
        n2,
        fin1,
        fin2,
    );
}

/// `needle` occurs somewhere inside `hay`.
pub open spec fn contains_seq(hay: Seq<char>, needle: Seq<char>) -> bool {
    exists|i: int|
        0 <= i && i + needle.len() <= hay.len() && #[trigger] hay.subrange(i, i + needle.len())
            == needle
}

/// The middle piece of a three-way concatenation occurs in the whole.
proof fn lemma_contains_middle(a: Seq<char>, b: Seq<char>, c: Seq<char>)
    ensures
        contains_seq(a + b + c, b),
{
    let hay = a + b + c;
    let i = a.len() as int;
    assert(hay.subrange(i, i + b.len()) =~= b);
    assert(0 <= i && i + b.len() <= hay.len() && hay.subrange(i, i + b.len()) == b);
}

/// The conditional helper pieces, named for the proofs below.
spec fn hpiece(on: bool, text: Seq<char>) -> Seq<char> {
    if on {
        text + "\n"@
    } else {
        Seq::<char>::empty()
    }
}

/// The finalized text, flattened: the sink content, then the jump to
/// termination, the deferred blocks, and the six conditional helper pieces
/// in their fixed order, all under one left-leaning concatenation.
proof fn lemma_finish_flat(m: CompilerModel, out: Seq<char>)
    ensures
        out + finish_text(m) == out + "    jmp _e\n"@ + blocks_text(m.jump_list) + hpiece(
            m.has_multi_increment,
            multi_inc_text(),
        ) + hpiece(m.has_multi_decrement, multi_dec_text()) + hpiece(
            m.has_multi_move_right,
            multi_right_text(),
        ) + hpiece(m.has_multi_move_left, multi_left_text()) + hpiece(m.has_write, write_text())
            + hpiece(m.jump_count > 0, break_text()),
{
    let p1 = hpiece(m.has_multi_increment, multi_inc_text());
    let p2 = hpiece(m.has_multi_decrement, multi_dec_text());
    let p3 = hpiece(m.has_multi_move_right, multi_right_text());
    let p4 = hpiece(m.has_multi_move_left, multi_left_text());
    let p5 = hpiece(m.has_write, write_text());
    let p6 = hpiece(m.jump_count > 0, break_text());
    let jmp = "    jmp _e\n"@;
    let blocks = blocks_text(m.jump_list);
    assert(helpers_text(m) == p1 + p2 + p3 + p4 + p5 + p6);
    vstd::seq_lib::lemma_concat_associative(out, jmp + blocks, helpers_text(m));
    vstd::seq_lib::lemma_concat_associative(out, jmp, blocks);
    let a = out + jmp + blocks;
    vstd::seq_lib::lemma_concat_associative(a, p1 + p2 + p3 + p4 + p5, p6);
    vstd::seq_lib::lemma_concat_associative(a, p1 + p2 + p3 + p4, p5);
    vstd::seq_lib::lemma_concat_associative(a, p1 + p2 + p3, p4);
    vstd::seq_lib::lemma_concat_associative(a, p1 + p2, p3);
    vstd::seq_lib::lemma_concat_associative(a, p1, p2);
}

proof fn lemma_include_inc(m: CompilerModel, out: Seq<char>)
    requires
        m.has_multi_increment,
    ensures
        contains_seq(out + finish_text(m), multi_inc_text()),
{
    let p1 = hpiece(m.has_multi_increment, multi_inc_text());
    let p2 = hpiece(m.has_multi_decrement, multi_dec_text());
    let p3 = hpiece(m.has_multi_move_right, multi_right_text());
    let p4 = hpiece(m.has_multi_move_left, multi_left_text());
    let p5 = hpiece(m.has_write, write_text());
    let p6 = hpiece(m.jump_count > 0, break_text());
    let a = out + "    jmp _e\n"@ + blocks_text(m.jump_list);
    lemma_finish_flat(m, out);
    let head = a;
    let tail = ((((("\n"@ + p2) + p3) + p4) + p5) + p6);
    assert(head + p1 == head + (multi_inc_text() + "\n"@));
    vstd::seq_lib::lemma_concat_associative(head, multi_inc_text(), "\n"@);
    vstd::seq_lib::lemma_concat_associative(head + multi_inc_text(), "\n"@, p2);
    vstd::seq_lib::lemma_concat_associative(head + multi_inc_text(), ("\n"@ + p2), p3);
    vstd::seq_lib::lemma_concat_associative(head + multi_inc_text(), (("\n"@ + p2) + p3), p4);
    vstd::seq_lib::lemma_concat_associative(head + multi_inc_text(), ((("\n"@ + p2) + p3) + p4), p5);
    vstd::seq_lib::lemma_concat_associative(head + multi_inc_text(), (((("\n"@ + p2) + p3) + p4) + p5), p6);
    assert(out + finish_text(m) == head + multi_inc_text() + tail);
    lemma_contains_middle(head, multi_inc_text(), tail);
}

proof fn lemma_include_dec(m: CompilerModel, out: Seq<char>)
    requires
        m.has_multi_decrement,
    ensures
        contains_seq(out + finish_text(m), multi_dec_text()),
{
    let p1 = hpiece(m.has_multi_increment, multi_inc_text());
    let p2 = hpiece(m.has_multi_decrement, multi_dec_text());
    let p3 = hpiece(m.has_multi_move_right, multi_right_text());
    let p4 = hpiece(m.has_multi_move_left, multi_left_text());
    let p5 = hpiece(m.has_write, write_text());
    let p6 = hpiece(m.jump_count > 0, break_text());
    let a = out + "    jmp _e\n"@ + blocks_text(m.jump_list);
    lemma_finish_flat(m, out);
    let head = a + p1;
    let tail = (((("\n"@ + p3) + p4) + p5) + p6);
    assert(head + p2 == head + (multi_dec_text() + "\n"@));
    vstd::seq_lib::lemma_concat_associative(head, multi_dec_text(), "\n"@);
    vstd::seq_lib::lemma_concat_associative(head + multi_dec_text(), "\n"@, p3);
    vstd::seq_lib::lemma_concat_associative(head + multi_dec_text(), ("\n"@ + p3), p4);
    vstd::seq_lib::lemma_concat_associative(head + multi_dec_text(), (("\n"@ + p3) + p4), p5);
    vstd::seq_lib::lemma_concat_associative(head + multi_dec_text(), ((("\n"@ + p3) + p4) + p5), p6);
    assert(out + finish_text(m) == head + multi_dec_text() + tail);
    lemma_contains_middle(head, multi_dec_text(), tail);
}

proof fn lemma_include_right(m: CompilerModel, out: Seq<char>)
    requires
        m.has_multi_move_right,
    ensures
        contains_seq(out + finish_text(m), multi_right_text()),
{
    let p1 = hpiece(m.has_multi_increment, multi_inc_text());
    let p2 = hpiece(m.has_multi_decrement, multi_dec_text());
    let p3 = hpiece(m.has_multi_move_right, multi_right_text());
    let p4 = hpiece(m.has_multi_move_left, multi_left_text());
    let p5 = hpiece(m.has_write, write_text());
    let p6 = hpiece(m.jump_count > 0, break_text());
    let a = out + "    jmp _e\n"@ + blocks_text(m.jump_list);
    lemma_finish_flat(m, out);
    let head = a + p1 + p2;
    let tail = ((("\n"@ + p4) + p5) + p6);
    assert(head + p3 == head + (multi_right_text() + "\n"@));
    vstd::seq_lib::lemma_concat_associative(head, multi_right_text(), "\n"@);
    vstd::seq_lib::lemma_concat_associative(head + multi_right_text(), "\n"@, p4);
    vstd::seq_lib::lemma_concat_associative(head + multi_right_text(), ("\n"@ + p4), p5);
    vstd::seq_lib::lemma_concat_associative(head + multi_right_text(), (("\n"@ + p4) + p5), p6);
    assert(out + finish_text(m) == head + multi_right_text() + tail);
    lemma_contains_middle(head, multi_right_text(), tail);
}

proof fn lemma_include_left(m: CompilerModel, out: Seq<char>)
    requires
        m.has_multi_move_left,
    ensures
        contains_seq(out + finish_text(m), multi_left_text()),
{
    let p1 = hpiece(m.has_multi_increment, multi_inc_text());
    let p2 = hpiece(m.has_multi_decrement, multi_dec_text());
    let p3 = hpiece(m.has_multi_move_right, multi_right_text());
    let p4 = hpiece(m.has_multi_move_left, multi_left_text());
    let p5 = hpiece(m.has_write, write_text());
    let p6 = hpiece(m.jump_count > 0, break_text());
    let a = out + "    jmp _e\n"@ + blocks_text(m.jump_list);
    lemma_finish_flat(m, out);
    let head = a + p1 + p2 + p3;
    let tail = (("\n"@ + p5) + p6);
    assert(head + p4 == head + (multi_left_text() + "\n"@));
    vstd::seq_lib::lemma_concat_associative(head, multi_left_text(), "\n"@);
    vstd::seq_lib::lemma_concat_associative(head + multi_left_text(), "\n"@, p5);
    vstd::seq_lib::lemma_concat_associative(head + multi_left_text(), ("\n"@ + p5), p6);
    assert(out + finish_text(m) == head + multi_left_text() + tail);
    lemma_contains_middle(head, multi_left_text(), tail);
}

proof fn lemma_include_write(m: CompilerModel, out: Seq<char>)
    requires
        m.has_write,
    ensures
        contains_seq(out + finish_text(m), write_text()),
{
    let p1 = hpiece(m.has_multi_increment, multi_inc_text());
    let p2 = hpiece(m.has_multi_decrement, multi_dec_text());
    let p3 = hpiece(m.has_multi_move_right, multi_right_text());
    let p4 = hpiece(m.has_multi_move_left, multi_left_text());
    let p5 = hpiece(m.has_write, write_text());
    let p6 = hpiece(m.jump_count > 0, break_text());
    let a = out + "    jmp _e\n"@ + blocks_text(m.jump_list);
    lemma_finish_flat(m, out);
    let head = a + p1 + p2 + p3 + p4;
    let tail = ("\n"@ + p6);
    assert(head + p5 == head + (write_text() + "\n"@));
    vstd::seq_lib::lemma_concat_associative(head, write_text(), "\n"@);
    vstd::seq_lib::lemma_concat_associative(head + write_text(), "\n"@, p6);
    assert(out + finish_text(m) == head + write_text() + tail);
    lemma_contains_middle(head, write_text(), tail);
}

proof fn lemma_include_brk(m: CompilerModel, out: Seq<char>)
    requires
        m.jump_count > 0,
    ensures
        contains_seq(out + finish_text(m), break_text()),
{
    let p1 = hpiece(m.has_multi_increment, multi_inc_text());
    let p2 = hpiece(m.has_multi_decrement, multi_dec_text());
    let p3 = hpiece(m.has_multi_move_right, multi_right_text());
    let p4 = hpiece(m.has_multi_move_left, multi_left_text());
    let p5 = hpiece(m.has_write, write_text());
    let p6 = hpiece(m.jump_count > 0, break_text());
    let a = out + "    jmp _e\n"@ + blocks_text(m.jump_list);
    lemma_finish_flat(m, out);
    let head = a + p1 + p2 + p3 + p4 + p5;
    let tail = "\n"@;
    assert(head + p6 == head + (break_text() + "\n"@));
    vstd::seq_lib::lemma_concat_associative(head, break_text(), "\n"@);

    assert(out + finish_text(m) == head + break_text() + tail);
    lemma_contains_middle(head, break_text(), tail);
}

/// Each helper subroutine whose flag is on stands in the finalized output.
pub proof fn lemma_finish_includes_helpers(m: CompilerModel, out: Seq<char>)
    ensures
        m.has_multi_increment ==> contains_seq(out + finish_text(m), multi_inc_text()),
        m.has_multi_decrement ==> contains_seq(out + finish_text(m), multi_dec_text()),
        m.has_multi_move_right ==> contains_seq(out + finish_text(m), multi_right_text()),
        m.has_multi_move_left ==> contains_seq(out + finish_text(m), multi_left_text()),
        m.has_write ==> contains_seq(out + finish_text(m), write_text()),
        m.jump_count > 0 ==> contains_seq(out + finish_text(m), break_text()),
{
    if m.has_multi_increment {
        lemma_include_inc(m, out);
    }
    if m.has_multi_decrement {
        lemma_include_dec(m, out);
    }
    if m.has_multi_move_right {
        lemma_include_right(m, out);
    }
    if m.has_multi_move_left {
        lemma_include_left(m, out);
    }
    if m.has_write {
        lemma_include_write(m, out);
    }
    if m.jump_count > 0 {
        lemma_include_brk(m, out);
    }
}

/// The helper-inclusion law, at the level of a complete compile: in the
/// assembly a complete run produces, each helper subroutine whose flag the
/// dispatched operations switched on stands in the output text.
pub proof fn lemma_helpers_in_output(
    init: Config<CompilerModel>,
    tokens: Seq<Token>,
    n: nat,
    fin: Config<CompilerModel>,
)
    requires
        completes_to::<Compiler>(init, tokens, n, fin),
    ensures
        fin.st.handler.has_multi_increment ==> contains_seq(fin.st.out, multi_inc_text()),
        fin.st.handler.has_multi_decrement ==> contains_seq(fin.st.out, multi_dec_text()),
        fin.st.handler.has_multi_move_right ==> contains_seq(fin.st.out, multi_right_text()),
        fin.st.handler.has_multi_move_left ==> contains_seq(fin.st.out, multi_left_text()),
        fin.st.handler.has_write ==> contains_seq(fin.st.out, write_text()),
        fin.st.handler.jump_count > 0 ==> contains_seq(fin.st.out, break_text()),
{
    match run_steps::<Compiler>(init, tokens, n) {
        Ok(c) => {
            lemma_finish_includes_helpers(c.st.handler, c.st.out);
        },
        Err(_) => {},
    }
}

/// One non-jump token of body rendering corresponds to one step of the
/// rendering machine on the singleton frame.
proof fn render_simple_step(
    tokens: Seq<Token>,
    prev_model: CompilerModel,
    prev_frame: Frame,
    prev_ip: int,
    new_model: CompilerModel,
    new_body: Seq<char>,
    t: Token,
)
    requires
        0 <= prev_ip < tokens.len(),
        tokens[prev_ip] == t,
        !(t is JumpIfZero),
        !(t is JumpUnlessZero),
        !(t is Read),
        prev_frame.body.len() >= 0,
        new_model == simple_flags(prev_model, t),
        new_body == prev_frame.body + simple_text(t),
    ensures
        comp_step(tokens, CompRun { model: prev_model, stack: seq![prev_frame] }, prev_ip) == Ok::<
            CompRun,
            Error,
        >(CompRun { model: new_model, stack: seq![Frame { body: new_body, ..prev_frame }] }),
{
    let f2 = Frame { body: new_body, ..prev_frame };
    assert(seq![prev_frame].update(0, Frame { body: prev_frame.body + simple_text(t), ..prev_frame })
        =~= seq![f2]);
}

} // verus!
