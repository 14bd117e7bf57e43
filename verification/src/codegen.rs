//! The code generator: a tree walk over each top-level statement that leaves
//! the statement's value in the `rbx` accumulator register and, for `return`,
//! triggers the process-exit system call. The emitted text is exactly the
//! rendering of the instruction sequence `spec_gen_program` gives.

use vstd::prelude::*;

use crate::parser::{Expression, SpecExpr, ExpressionType, ReturnExpression};
use crate::tokens::{TokenType, SpecToken, int_str, i64_to_string};

verus! {

/// A fatal code-generation error: generation aborts at the first one.
#[derive(Debug, Clone, Copy, PartialEq, Eq)]
pub enum GenError {
    /// A top-level statement that is not a `return`: the only valid top-level
    /// form of the steady-state grammar.
    UnsupportedTopLevel(ExpressionType),
    /// A node kind with no emission rule at its position.
    UnsupportedOperand(ExpressionType),
    /// An operator with no emission rule: only `!`, `+` and `-` have one.
    UnsupportedOperator(TokenType),
    /// A `return` nested inside an expression.
    ReturnInsideExpression,
}

/// One emitted instruction. The accumulator is always `rbx`.
#[derive(Debug, Clone, Copy, PartialEq, Eq, Structural)]
pub enum Instr {
    /// `mov rbx, v`: load an immediate into the accumulator.
    MovImm(i64),
    /// `add rbx, v`: add an immediate to the accumulator.
    AddImm(i64),
    /// `sub rbx, v`: subtract an immediate from the accumulator.
    SubImm(i64),
    /// `xor rbx, 1`: flip the low bit of the accumulator.
    FlipLowBit,
    /// `mov rax, 1`: load the exit system call number.
    LoadExitCall,
    /// `int 0x80`: trigger the system call.
    Interrupt,
}

/// The value loaded for a negated number literal: zero is falsy and negates
/// to 1, any other value is truthy and negates to 0.
pub open spec fn negation_load(v: i64) -> i64 {
    if v == 0 {
        1
    } else {
        0
    }
}

/// The two-instruction process-exit sequence closing every `return`.
pub open spec fn exit_sequence() -> Seq<Instr> {
    seq![Instr::LoadExitCall, Instr::Interrupt]
}

/// The instructions for the operand of a logical negation: a number literal
/// loads its negated truth value, and a nested negation recurses and then
/// flips the low bit, so that double negation toggles rather than recomputes.
pub open spec fn spec_gen_negation(operand: SpecExpr) -> Result<Seq<Instr>, GenError>
    decreases operand,
{
    match operand {
        SpecExpr::Number { token, value } => Ok(seq![Instr::MovImm(negation_load(value))]),
        SpecExpr::Prefix { token, right } => if token.kind == TokenType::Bang {
            match spec_gen_negation(*right) {
                Ok(instrs) => Ok(instrs.push(Instr::FlipLowBit)),
                Err(e) => Err(e),
            }
        } else {
            Err(GenError::UnsupportedOperator(token.kind))
        },
        SpecExpr::Return { .. } => Err(GenError::ReturnInsideExpression),
        _ => Err(GenError::UnsupportedOperand(operand.kind())),
    }
}

/// The instruction for one literal of an additive chain: the first literal is
/// loaded, every later one is added or subtracted as its pending operator
/// says.
pub open spec fn chain_instr(pending: Option<TokenType>, v: i64) -> Instr {
    match pending {
        None => Instr::MovImm(v),
        Some(k) => if k == TokenType::Plus {
            Instr::AddImm(v)
        } else {
            Instr::SubImm(v)
        },
    }
}

/// The instructions for an additive chain, flattened left to right: the
/// right-leaning tree the parser builds for surface-level left-associative
/// addition and subtraction accumulates strictly in source order. `pending`
/// is the operator owed to the next literal; `None` marks the first literal,
/// which is loaded rather than accumulated.
pub open spec fn spec_gen_chain(e: SpecExpr, pending: Option<TokenType>) -> Result<
    Seq<Instr>,
    GenError,
>
    decreases e,
{
    match e {
        SpecExpr::Number { token, value } => Ok(seq![chain_instr(pending, value)]),
        SpecExpr::Infix { token, left, right } => if token.kind == TokenType::Plus || token.kind
            == TokenType::Minus {
            match spec_gen_chain(*left, pending) {
                Err(e) => Err(e),
                Ok(l) => match spec_gen_chain(*right, Some(token.kind)) {
                    Err(e) => Err(e),
                    Ok(r) => Ok(l + r),
                },
            }
        } else {
            Err(GenError::UnsupportedOperator(token.kind))
        },
        SpecExpr::Return { .. } => Err(GenError::ReturnInsideExpression),
        _ => Err(GenError::UnsupportedOperand(e.kind())),
    }
}

/// The instructions leaving a `return`'s value in the accumulator.
pub open spec fn spec_gen_value(e: SpecExpr) -> Result<Seq<Instr>, GenError> {
    match e {
        SpecExpr::Number { token, value } => Ok(seq![Instr::MovImm(value)]),
        SpecExpr::Infix { .. } => spec_gen_chain(e, None),
        SpecExpr::Prefix { token, right } => if token.kind == TokenType::Bang {
            spec_gen_negation(*right)
        } else {
            Err(GenError::UnsupportedOperator(token.kind))
        },
        SpecExpr::Return { .. } => Err(GenError::ReturnInsideExpression),
        _ => Err(GenError::UnsupportedOperand(e.kind())),
    }
}

/// The instructions for one top-level statement: only `return` is a valid
/// top-level form, and it computes its value and then exits with it.
pub open spec fn spec_gen_statement(e: SpecExpr) -> Result<Seq<Instr>, GenError> {
    match e {
        SpecExpr::Return { token, value } => match spec_gen_value(*value) {
            Ok(body) => Ok(body + exit_sequence()),
            Err(err) => Err(err),
        },
        _ => Err(GenError::UnsupportedTopLevel(e.kind())),
    }
}

/// The instructions for the statements from position `i` on, in program
/// order.
pub open spec fn spec_gen_at(prog: Seq<SpecExpr>, i: int) -> Result<Seq<Instr>, GenError>
    decreases prog.len() - i,
    when 0 <= i
{
    if i >= prog.len() {
        Ok(Seq::empty())
    } else {
        match spec_gen_statement(prog[i]) {
            Err(e) => Err(e),
            Ok(first) => match spec_gen_at(prog, i + 1) {
                Err(e) => Err(e),
                Ok(rest) => Ok(first + rest),
            },
        }
    }
}

/// The instructions for a whole program, or the first generation error.
pub open spec fn spec_gen_program(prog: Seq<SpecExpr>) -> Result<Seq<Instr>, GenError> {
    spec_gen_at(prog, 0)
}

/// One line of assembly text: the line's characters and the line feed ending
/// it.
pub open spec fn line_chars(s: Seq<char>) -> Seq<char> {
    s + "\n"@
}

/// The assembly text of one instruction, its line ending included.
pub open spec fn instr_chars(i: Instr) -> Seq<char> {
    match i {
        Instr::MovImm(v) => "mov rbx, "@ + int_str(v as int) + "\n"@,
        Instr::AddImm(v) => "add rbx, "@ + int_str(v as int) + "\n"@,
        Instr::SubImm(v) => "sub rbx, "@ + int_str(v as int) + "\n"@,
        Instr::FlipLowBit => line_chars("xor rbx, 1"@),
        Instr::LoadExitCall => line_chars("mov rax, 1"@),
        Instr::Interrupt => line_chars("int 0x80"@),
    }
}

/// The assembly text of an instruction sequence, in order.
pub open spec fn render_instrs(instrs: Seq<Instr>) -> Seq<char>
    decreases instrs.len(),
{
    if instrs.len() == 0 {
        Seq::empty()
    } else {
        instr_chars(instrs[0]) + render_instrs(instrs.drop_first())
    }
}

/// The fixed prelude declaring the entry point, emitted once per program.
pub open spec fn prelude_chars() -> Seq<char> {
    line_chars("section .text"@) + line_chars("global _start"@) + line_chars("_start:"@)
}

/// Rendering distributes over concatenation of instruction sequences.
pub proof fn lemma_render_concat(a: Seq<Instr>, b: Seq<Instr>)
    ensures
        render_instrs(a + b) == render_instrs(a) + render_instrs(b),
    decreases a.len(),
{
    if a.len() == 0 {
        assert(a + b =~= b);
        assert(Seq::<char>::empty() + render_instrs(b) =~= render_instrs(b));
    } else {
        lemma_render_concat(a.drop_first(), b);
        assert((a + b).drop_first() =~= a.drop_first() + b);
        assert((a + b)[0] == a[0]);
        assert(instr_chars(a[0]) + (render_instrs(a.drop_first()) + render_instrs(b))
            =~= (instr_chars(a[0]) + render_instrs(a.drop_first())) + render_instrs(b));
    }
}

/// The text of a single instruction is its rendering.
proof fn lemma_render_one(i: Instr)
    ensures
        render_instrs(seq![i]) == instr_chars(i),
{
    let s = seq![i];
    assert(s[0] == i);
    assert(s.drop_first() =~= Seq::<Instr>::empty());
    assert(render_instrs(Seq::<Instr>::empty()) == Seq::<char>::empty());
    assert(render_instrs(s) == instr_chars(i) + Seq::<char>::empty());
    assert(instr_chars(i) + Seq::<char>::empty() =~= instr_chars(i));
}

/// Rendering one appended instruction appends its text.
pub proof fn lemma_render_push(instrs: Seq<Instr>, i: Instr)
    ensures
        render_instrs(instrs.push(i)) == render_instrs(instrs) + instr_chars(i),
{
    assert(instrs.push(i) =~= instrs + seq![i]);
    lemma_render_concat(instrs, seq![i]);
    lemma_render_one(i);
}

/// The accumulator value after one instruction. Loads and accumulates follow
/// the instruction's arithmetic; the low-bit flip toggles the parity bit,
/// which on the boolean values 0 and 1 is exactly logical negation. The two
/// exit instructions leave the accumulator alone.
pub open spec fn step_acc(i: Instr, acc: int) -> int {
    match i {
        Instr::MovImm(v) => v as int,
        Instr::AddImm(v) => acc + v,
        Instr::SubImm(v) => acc - v,
        Instr::FlipLowBit => if acc % 2 == 0 {
            acc + 1
        } else {
            acc - 1
        },
        Instr::LoadExitCall => acc,
        Instr::Interrupt => acc,
    }
}

/// The accumulator value after running an instruction sequence from `acc`.
pub open spec fn run_acc(instrs: Seq<Instr>, acc: int) -> int
    decreases instrs.len(),
{
    if instrs.len() == 0 {
        acc
    } else {
        run_acc(instrs.drop_first(), step_acc(instrs[0], acc))
    }
}

/// The truth value of a number literal: zero is false, any other value true.
pub open spec fn truth_value(v: i64) -> int {
    if v == 0 {
        0
    } else {
        1
    }
}

/// Double negation toggles correctly: the code for `!!n` is one load of the
/// negated truth value of `n` followed by one low-bit flip, and its net value
/// equals loading the truth value of `n` directly — `!!n` is 1 for any
/// nonzero `n` and 0 for zero, with zero treated as false and any nonzero
/// literal as true.
pub proof fn lemma_double_negation_toggles(
    outer: SpecToken,
    inner: SpecToken,
    num: SpecToken,
    n: i64,
)
    requires
        outer.kind == TokenType::Bang,
        inner.kind == TokenType::Bang,
    ensures
        ({
            let e = SpecExpr::Prefix {
                token: outer,
                right: Box::new(
                    SpecExpr::Prefix {
                        token: inner,
                        right: Box::new(SpecExpr::Number { token: num, value: n }),
                    },
                ),
            };
            &&& spec_gen_value(e) == Ok::<Seq<Instr>, GenError>(
                seq![Instr::MovImm(negation_load(n)), Instr::FlipLowBit],
            )
            &&& run_acc(spec_gen_value(e)->Ok_0, 0) == truth_value(n)
            &&& run_acc(spec_gen_value(e)->Ok_0, 0) == run_acc(
                seq![Instr::MovImm(if n == 0 {
                        0i64
                    } else {
                        1i64
                    })],
                0,
            )
        }),
{
    let lit = SpecExpr::Number { token: num, value: n };
    let once = SpecExpr::Prefix { token: inner, right: Box::new(lit) };
    let e = SpecExpr::Prefix { token: outer, right: Box::new(once) };
    assert(spec_gen_negation(lit) == Ok::<Seq<Instr>, GenError>(
        seq![Instr::MovImm(negation_load(n))],
    ));
    assert(spec_gen_negation(once) == Ok::<Seq<Instr>, GenError>(
        seq![Instr::MovImm(negation_load(n))].push(Instr::FlipLowBit),
    ));
    let instrs = seq![Instr::MovImm(negation_load(n)), Instr::FlipLowBit];
    assert(seq![Instr::MovImm(negation_load(n))].push(Instr::FlipLowBit) =~= instrs);
    assert(instrs.drop_first() =~= seq![Instr::FlipLowBit]);
    assert(seq![Instr::FlipLowBit].drop_first() =~= Seq::<Instr>::empty());
    let loaded = step_acc(instrs[0], 0);
    assert(loaded == negation_load(n) as int);
    let flipped = step_acc(Instr::FlipLowBit, loaded);
    assert(run_acc(Seq::<Instr>::empty(), flipped) == flipped);
    assert(run_acc(seq![Instr::FlipLowBit], loaded) == flipped);
    assert(run_acc(instrs, 0) == flipped);
    assert(flipped == truth_value(n));
    let direct = seq![Instr::MovImm(if n == 0 {
        0i64
    } else {
        1i64
    })];
    let dv = step_acc(direct[0], 0);
    assert(run_acc(Seq::<Instr>::empty(), dv) == dv);
    assert(direct.drop_first() =~= Seq::<Instr>::empty());
    assert(run_acc(direct, 0) == dv);
}

/// Whether an expression is an additive chain: number literals joined by the
/// additive operators, the shape the generator flattens.
pub open spec fn is_additive_chain(e: SpecExpr) -> bool
    decreases e,
{
    match e {
        SpecExpr::Number { .. } => true,
        SpecExpr::Infix { token, left, right } => (token.kind == TokenType::Plus || token.kind
            == TokenType::Minus) && is_additive_chain(*left) && is_additive_chain(*right),
        _ => false,
    }
}

/// The literal values of an additive chain, in source order.
pub open spec fn chain_leaves(e: SpecExpr) -> Seq<i64>
    decreases e,
{
    match e {
        SpecExpr::Number { token, value } => seq![value],
        SpecExpr::Infix { token, left, right } => chain_leaves(*left) + chain_leaves(*right),
        _ => Seq::empty(),
    }
}

/// The operator owed to each literal of an additive chain, in source order:
/// the chain's entry operation for the first literal, and for every later one
/// the operator written immediately before it.
pub open spec fn chain_pending_ops(e: SpecExpr, pending: Option<TokenType>) -> Seq<
    Option<TokenType>,
>
    decreases e,
{
    match e {
        SpecExpr::Number { .. } => seq![pending],
        SpecExpr::Infix { token, left, right } => chain_pending_ops(*left, pending)
            + chain_pending_ops(*right, Some(token.kind)),
        _ => Seq::empty(),
    }
}

/// Left-associative flattening: the code for an additive chain is exactly one
/// instruction per literal, in source order — entered with no pending
/// operator, one load of the first literal, then one accumulate per later
/// literal with the operator written before it — regardless of the
/// right-leaning tree shape the parser produced.
pub proof fn lemma_chain_flattening(e: SpecExpr, pending: Option<TokenType>)
    requires
        is_additive_chain(e),
    ensures
        spec_gen_chain(e, pending) is Ok,
        ({
            let instrs = spec_gen_chain(e, pending)->Ok_0;
            let leaves = chain_leaves(e);
            let ops = chain_pending_ops(e, pending);
            &&& leaves.len() >= 1
            &&& ops.len() == leaves.len()
            &&& instrs.len() == leaves.len()
            &&& ops[0] == pending
            &&& forall|i: int| 1 <= i < ops.len() ==> (#[trigger] ops[i]) is Some
            &&& forall|i: int|
                0 <= i < instrs.len() ==> instrs[i] == chain_instr(ops[i], leaves[i])
        }),
    decreases e,
{
    match e {
        SpecExpr::Number { token, value } => {},
        SpecExpr::Infix { token, left, right } => {
            lemma_chain_flattening(*left, pending);
            lemma_chain_flattening(*right, Some(token.kind));
            let li = spec_gen_chain(*left, pending)->Ok_0;
            let ri = spec_gen_chain(*right, Some(token.kind))->Ok_0;
            let instrs = spec_gen_chain(e, pending)->Ok_0;
            assert(instrs == li + ri);
            let lops = chain_pending_ops(*left, pending);
            let rops = chain_pending_ops(*right, Some(token.kind));
            let lleaves = chain_leaves(*left);
            let rleaves = chain_leaves(*right);
            assert forall|i: int|
                1 <= i < chain_pending_ops(e, pending).len() implies (#[trigger] chain_pending_ops(
                e,
                pending,
            )[i]) is Some by {
                if i < lops.len() {
                    assert((lops + rops)[i] == lops[i]);
                } else {
                    assert((lops + rops)[i] == rops[i - lops.len()]);
                }
            }
            assert(forall|i: int|
                0 <= i < instrs.len() ==> instrs[i] == chain_instr(
                    chain_pending_ops(e, pending)[i],
                    chain_leaves(e)[i],
                )) by {
                assert(forall|i: int|
                    0 <= i < lleaves.len() ==> (li + ri)[i] == li[i] && (lops + rops)[i] == lops[i]
                        && (lleaves + rleaves)[i] == lleaves[i]);
                assert(forall|i: int|
                    lleaves.len() <= i < instrs.len() ==> (li + ri)[i] == ri[i - lleaves.len()] && (
                    lops + rops)[i] == rops[i - lleaves.len()] && (lleaves + rleaves)[i]
                        == rleaves[i - lleaves.len()]);
            }
        },
        _ => {},
    }
}

/// Running a concatenation of instruction sequences runs the parts in order.
pub proof fn lemma_run_acc_concat(a: Seq<Instr>, b: Seq<Instr>, acc: int)
    ensures
        run_acc(a + b, acc) == run_acc(b, run_acc(a, acc)),
    decreases a.len(),
{
    if a.len() == 0 {
        assert(a + b =~= b);
    } else {
        assert((a + b).drop_first() =~= a.drop_first() + b);
        assert((a + b)[0] == a[0]);
        lemma_run_acc_concat(a.drop_first(), b, step_acc(a[0], acc));
    }
}

/// Running a single instruction takes one step.
proof fn lemma_run_acc_one(i: Instr, acc: int)
    ensures
        run_acc(seq![i], acc) == step_acc(i, acc),
{
    let s = seq![i];
    assert(s[0] == i);
    assert(s.drop_first() =~= Seq::<Instr>::empty());
    assert(run_acc(Seq::<Instr>::empty(), step_acc(i, acc)) == step_acc(i, acc));
}

/// One accumulation step of a left-to-right evaluation: a load replaces the
/// accumulator, an addition or subtraction combines with it.
pub open spec fn apply_pending(acc: int, pending: Option<TokenType>, v: i64) -> int {
    match pending {
        None => v as int,
        Some(k) => if k == TokenType::Plus {
            acc + v
        } else {
            acc - v
        },
    }
}

/// The surface value of an additive chain: its literals combined strictly
/// left to right, each with the operation owed to it.
pub open spec fn chain_surface_value(leaves: Seq<i64>, ops: Seq<Option<TokenType>>) -> int
    decreases leaves.len(),
{
    if leaves.len() == 0 {
        0
    } else if leaves.len() == 1 {
        apply_pending(0, ops[0], leaves[0])
    } else {
        apply_pending(
            chain_surface_value(leaves.drop_last(), ops.drop_last()),
            ops[leaves.len() - 1],
            leaves[leaves.len() - 1],
        )
    }
}

proof fn lemma_run_chain_shape(
    leaves: Seq<i64>,
    ops: Seq<Option<TokenType>>,
    instrs: Seq<Instr>,
    acc0: int,
)
    requires
        leaves.len() >= 1,
        ops.len() == leaves.len(),
        instrs.len() == leaves.len(),
        ops[0] is None,
        forall|i: int| 1 <= i < ops.len() ==> (#[trigger] ops[i]) is Some,
        forall|i: int| 0 <= i < instrs.len() ==> instrs[i] == chain_instr(ops[i], leaves[i]),
    ensures
        run_acc(instrs, acc0) == chain_surface_value(leaves, ops),
    decreases leaves.len(),
{
    let n = leaves.len() as int;
    if n == 1 {
        assert(instrs[0] == chain_instr(ops[0], leaves[0]));
        assert(instrs =~= seq![Instr::MovImm(leaves[0])]);
        lemma_run_acc_one(Instr::MovImm(leaves[0]), acc0);
    } else {
        let front = instrs.drop_last();
        lemma_run_chain_shape(leaves.drop_last(), ops.drop_last(), front, acc0);
        assert(instrs =~= front + seq![instrs[n - 1]]);
        lemma_run_acc_concat(front, seq![instrs[n - 1]], acc0);
        lemma_run_acc_one(instrs[n - 1], run_acc(front, acc0));
        assert(instrs[n - 1] == chain_instr(ops[n - 1], leaves[n - 1]));
        assert(ops[n - 1] is Some);
    }
}

/// Running the code for an additive chain, entered with no pending operator,
/// leaves in the accumulator the chain's literals combined strictly left to
/// right, whatever the accumulator held before: the semantic content of the
/// flattening.
pub proof fn lemma_chain_code_value(e: SpecExpr, acc0: int)
    requires
        is_additive_chain(e),
    ensures
        spec_gen_chain(e, None) is Ok,
        run_acc(spec_gen_chain(e, None)->Ok_0, acc0) == chain_surface_value(
            chain_leaves(e),
            chain_pending_ops(e, None),
        ),
{
    lemma_chain_flattening(e, None);
    lemma_run_chain_shape(
        chain_leaves(e),
        chain_pending_ops(e, None),
        spec_gen_chain(e, None)->Ok_0,
        acc0,
    );
}

/// The process-exit sequence leaves the accumulator untouched: a return
/// statement exits with exactly its value's accumulator result.
pub proof fn lemma_exit_preserves_accumulator(body: Seq<Instr>, acc0: int)
    ensures
        run_acc(body + exit_sequence(), acc0) == run_acc(body, acc0),
{
    lemma_run_acc_concat(body, exit_sequence(), acc0);
    let after = run_acc(body, acc0);
    assert(exit_sequence()[0] == Instr::LoadExitCall);
    assert(exit_sequence().drop_first() =~= seq![Instr::Interrupt]);
    lemma_run_acc_one(Instr::Interrupt, after);
}

/// Appends the instructions still to be generated to those already emitted.
pub open spec fn gen_continue(done: Seq<Instr>, rest: Result<Seq<Instr>, GenError>) -> Result<
    Seq<Instr>,
    GenError,
> {
    match rest {
        Ok(instrs) => Ok(done + instrs),
        Err(e) => Err(e),
    }
}

/// The compiler: the assembly text accumulated so far.
pub struct Compiler {
    pub code: String,
}

impl Compiler {
    /// A compiler with nothing emitted yet.
    fn new() -> (c: Compiler)
        ensures
            c.code@ == Seq::<char>::empty(),
    {
        Compiler { code: String::new() }
    }

    /// Appends one line of assembly text, ending its line.
    fn asm_write(&mut self, line: &str)
        ensures
            final(self).code@ == old(self).code@ + line_chars(line@),
    {
        self.code.append(line);
        self.code.append("\n");
        proof {
            assert((old(self).code@ + line@) + "\n"@ =~= old(self).code@ + (line@ + "\n"@));
        }
    }

    /// Appends one instruction line built from an opcode prefix and an
    /// immediate operand.
    fn asm_immediate(&mut self, prefix: &str, v: i64)
        ensures
            final(self).code@ == old(self).code@ + (prefix@ + int_str(v as int) + "\n"@),
    {
        let mut line = String::from_str(prefix);
        let num = i64_to_string(v);
        line.append(num.as_str());
        self.asm_write(line.as_str());
        proof {
            assert(old(self).code@ + ((prefix@ + int_str(v as int)) + "\n"@) =~= old(self).code@ + (
            prefix@ + int_str(v as int) + "\n"@));
        }
    }

    /// Emits the fixed prelude declaring the entry point.
    fn build_prelude(&mut self)
        ensures
            final(self).code@ == old(self).code@ + prelude_chars(),
    {
        self.asm_write("section .text");
        self.asm_write("global _start");
        self.asm_write("_start:");
        proof {
            assert(((old(self).code@ + line_chars("section .text"@)) + line_chars("global _start"@))
                + line_chars("_start:"@) =~= old(self).code@ + prelude_chars());
        }
    }

    /// Emits the code for the operand of a logical negation: the rendering of
    /// exactly the instructions `spec_gen_negation` gives.
    fn emit_code_for_negation(&mut self, operand: &Expression) -> (r: Result<(), GenError>)
        ensures
            match (r, spec_gen_negation(operand.model())) {
                (Ok(()), Ok(instrs)) => final(self).code@ == old(self).code@ + render_instrs(
                    instrs,
                ),
                (Err(e), Err(se)) => e == se,
                _ => false,
            },
        decreases operand,
    {
        match operand {
            Expression::Number(n) => {
                let v: i64 = if n.value == 0 {
                    1
                } else {
                    0
                };
                self.asm_immediate("mov rbx, ", v);
                proof {
                    lemma_render_one(Instr::MovImm(negation_load(n.value)));
                }
                Ok(())
            },
            Expression::Prefix(p) => {
                if p.token.token_type == TokenType::Bang {
                    let ghost inner = spec_gen_negation(p.right.model());
                    match self.emit_code_for_negation(&*p.right) {
                        Ok(()) => {
                            let ghost mid = self.code@;
                            self.asm_write("xor rbx, 1");
                            proof {
                                lemma_render_push(inner->Ok_0, Instr::FlipLowBit);
                                assert((old(self).code@ + render_instrs(inner->Ok_0)) + instr_chars(
                                    Instr::FlipLowBit,
                                ) =~= old(self).code@ + (render_instrs(inner->Ok_0) + instr_chars(
                                    Instr::FlipLowBit,
                                )));
                            }
                            Ok(())
                        },
                        Err(e) => Err(e),
                    }
                } else {
                    Err(GenError::UnsupportedOperator(p.token.token_type))
                }
            },
            Expression::Return(_) => Err(GenError::ReturnInsideExpression),
            _ => Err(GenError::UnsupportedOperand(operand.get_type())),
        }
    }

    /// Emits the code for an additive chain, flattening the right-leaning
    /// tree into a strict left-to-right accumulation. `pending` carries the
    /// operator owed to the next literal; `None` marks the first
    /// contribution, which is loaded rather than accumulated.
    fn emit_code_for_addition(&mut self, e: &Expression, pending: Option<TokenType>) -> (r: Result<
        (),
        GenError,
    >)
        ensures
            match (r, spec_gen_chain(e.model(), pending)) {
                (Ok(()), Ok(instrs)) => final(self).code@ == old(self).code@ + render_instrs(
                    instrs,
                ),
                (Err(e), Err(se)) => e == se,
                _ => false,
            },
        decreases e,
    {
        match e {
            Expression::Number(n) => {
                match pending {
                    None => self.asm_immediate("mov rbx, ", n.value),
                    Some(k) => if k == TokenType::Plus {
                        self.asm_immediate("add rbx, ", n.value)
                    } else {
                        self.asm_immediate("sub rbx, ", n.value)
                    },
                }
                proof {
                    lemma_render_one(chain_instr(pending, n.value));
                }
                Ok(())
            },
            Expression::Infix(inf) => {
                let k = inf.token.token_type;
                if k == TokenType::Plus || k == TokenType::Minus {
                    let ghost lres = spec_gen_chain(inf.left.model(), pending);
                    match self.emit_code_for_addition(&*inf.left, pending) {
                        Err(e) => Err(e),
                        Ok(()) => {
                            let ghost rres = spec_gen_chain(inf.right.model(), Some(k));
                            match self.emit_code_for_addition(&*inf.right, Some(k)) {
                                Err(e) => Err(e),
                                Ok(()) => {
                                    proof {
                                        lemma_render_concat(lres->Ok_0, rres->Ok_0);
                                        assert((old(self).code@ + render_instrs(lres->Ok_0))
                                            + render_instrs(rres->Ok_0) =~= old(self).code@ + (
                                        render_instrs(lres->Ok_0) + render_instrs(rres->Ok_0)));
                                    }
                                    Ok(())
                                },
                            }
                        },
                    }
                } else {
                    Err(GenError::UnsupportedOperator(k))
                }
            },
            Expression::Return(_) => Err(GenError::ReturnInsideExpression),
            _ => Err(GenError::UnsupportedOperand(e.get_type())),
        }
    }

    /// Emits the code for one `return` statement: its value's instructions,
    /// then the process-exit sequence.
    fn emit_code_for_return(&mut self, ret: &ReturnExpression) -> (r: Result<(), GenError>)
        ensures
            match (r, spec_gen_value(ret.value.model())) {
                (Ok(()), Ok(body)) => final(self).code@ == old(self).code@ + render_instrs(
                    body + exit_sequence(),
                ),
                (Err(e), Err(se)) => e == se,
                _ => false,
            },
        decreases ret,
    {
        let value: &Expression = &*ret.value;
        let body_result: Result<(), GenError> = match value {
            Expression::Number(n) => {
                self.asm_immediate("mov rbx, ", n.value);
                proof {
                    lemma_render_one(Instr::MovImm(n.value));
                }
                Ok(())
            },
            Expression::Infix(_) => self.emit_code_for_addition(value, None),
            Expression::Prefix(p) => {
                if p.token.token_type == TokenType::Bang {
                    self.emit_code_for_negation(&*p.right)
                } else {
                    Err(GenError::UnsupportedOperator(p.token.token_type))
                }
            },
            Expression::Return(_) => Err(GenError::ReturnInsideExpression),
            _ => Err(GenError::UnsupportedOperand(value.get_type())),
        };
        match body_result {
            Err(e) => Err(e),
            Ok(()) => {
                let ghost body = spec_gen_value(ret.value.model())->Ok_0;
                self.asm_write("mov rax, 1");
                self.asm_write("int 0x80");
                proof {
                    lemma_render_concat(body, exit_sequence());
                    lemma_render_one(Instr::Interrupt);
                    assert(exit_sequence().drop_first() =~= seq![Instr::Interrupt]);
                    assert(render_instrs(exit_sequence()) == instr_chars(Instr::LoadExitCall)
                        + instr_chars(Instr::Interrupt));
                    assert(((old(self).code@ + render_instrs(body)) + line_chars("mov rax, 1"@))
                        + line_chars("int 0x80"@) =~= old(self).code@ + (render_instrs(body) + (
                    instr_chars(Instr::LoadExitCall) + instr_chars(Instr::Interrupt))));
                }
                Ok(())
            },
        }
    }

    /// Emits the code for one top-level statement: only `return` has an
    /// emission rule at the top level.
    fn emit_code_for_expression(&mut self, e: &Expression) -> (r: Result<(), GenError>)
        ensures
            match (r, spec_gen_statement(e.model())) {
                (Ok(()), Ok(instrs)) => final(self).code@ == old(self).code@ + render_instrs(
                    instrs,
                ),
                (Err(e), Err(se)) => e == se,
                _ => false,
            },
    {
        match e {
            Expression::Return(ret) => self.emit_code_for_return(ret),
            _ => Err(GenError::UnsupportedTopLevel(e.get_type())),
        }
    }

    /// Emits the prelude and then every statement in program order.
    fn compile(&mut self, expressions: &Vec<Expression>) -> (r: Result<(), GenError>)
        ensures
            match (r, spec_gen_program(expressions.deep_view())) {
                (Ok(()), Ok(instrs)) => final(self).code@ == old(self).code@ + prelude_chars()
                    + render_instrs(instrs),
                (Err(e), Err(se)) => e == se,
                _ => false,
            },
    {
        let ghost prog = expressions.deep_view();
        self.build_prelude();
        let ghost base = self.code@;
        let ghost mut done: Seq<Instr> = Seq::empty();
        let mut i: usize = 0;
        proof {
            assert(Seq::<Instr>::empty() + spec_gen_at(prog, 0)->Ok_0 =~= spec_gen_at(
                prog,
                0,
            )->Ok_0);
            assert(base + render_instrs(done) =~= base);
        }
        while i < expressions.len()
            invariant
                i <= expressions@.len(),
                prog == expressions.deep_view(),
                prog.len() == expressions@.len(),
                base == old(self).code@ + prelude_chars(),
                self.code@ == base + render_instrs(done),
                spec_gen_program(prog) == gen_continue(done, spec_gen_at(prog, i as int)),
            decreases expressions@.len() - i,
        {
            let ghost done0 = done;
            match self.emit_code_for_expression(&expressions[i]) {
                Err(e) => {
                    return Err(e);
                },
                Ok(()) => {
                    proof {
                        let stmt = spec_gen_statement(prog[i as int])->Ok_0;
                        done = done + stmt;
                        lemma_render_concat(done0, stmt);
                        assert((base + render_instrs(done0)) + render_instrs(stmt) =~= base + (
                        render_instrs(done0) + render_instrs(stmt)));
                        if spec_gen_at(prog, i + 1) is Ok {
                            let rest = spec_gen_at(prog, i + 1)->Ok_0;
                            assert(done0 + (stmt + rest) =~= (done0 + stmt) + rest);
                        }
                    }
                    i = i + 1;
                },
            }
        }
        proof {
            assert(spec_gen_at(prog, i as int) == Ok::<Seq<Instr>, GenError>(Seq::empty()));
            assert(done + Seq::<Instr>::empty() =~= done);
        }
        Ok(())
    }
}

/// Generates the assembly text for a parsed program: the fixed prelude, then
/// the rendering of exactly the instructions `spec_gen_program` gives, or the
/// first generation error.
pub fn generate_code(expressions: Vec<Expression>) -> (r: Result<String, GenError>)
    ensures
        match (r, spec_gen_program(expressions.deep_view())) {
            (Ok(s), Ok(instrs)) => s@ == prelude_chars() + render_instrs(instrs),
            (Err(e), Err(se)) => e == se,
            _ => false,
        },
{
    let mut compiler = Compiler::new();
    match compiler.compile(&expressions) {
        Ok(()) => {
            proof {
                assert(Seq::<char>::empty() + prelude_chars() + render_instrs(
                    spec_gen_program(expressions.deep_view())->Ok_0,
                ) =~= prelude_chars() + render_instrs(spec_gen_program(expressions.deep_view())->Ok_0));
            }
            Ok(compiler.code)
        },
        Err(e) => Err(e),
    }
}

} // verus!
