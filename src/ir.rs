use vstd::prelude::*;

use crate::ast::{AstNode, BinaryOperator, Expression, Statement};
use crate::text::{decimal, signed_decimal};

verus! {

/// Why a syntax tree could not be lowered to IR.
#[derive(Debug, PartialEq)]
pub enum CodegenError {
    /// A reference to, or an assignment of, a name that no earlier declaration introduced.
    UndeclaredVariable { name: String },
}

/// An instruction operand: a virtual register or an immediate integer.
pub enum Operand {
    Register(nat),
    Immediate(int),
}

/// The instructions that lowering emits inside the entry routine.
pub enum Instr {
    /// `%dst = alloca i64, align 8`: a stack slot.
    Alloca { dst: nat },
    /// `store i64 value, i64* %slot, align 8`
    Store { value: Operand, slot: nat },
    /// `%dst = load i64, i64* %slot, align 8`
    Load { dst: nat, slot: nat },
    /// `%dst = op i64 lhs, rhs`
    Arith { dst: nat, op: BinaryOperator, lhs: Operand, rhs: Operand },
    /// `%dst = call ... @printf(..., i64 value)`
    Call { dst: nat, value: Operand },
}

/// The slot register of each declared name.
pub type Slots = Map<Seq<char>, nat>;

/// Lowers an expression with `next` as the first free register: its
/// instructions, the operand that holds its value, and the next free register.
pub open spec fn lower_expression(e: Expression, slots: Slots, next: nat) -> Result<
    (Seq<Instr>, Operand, nat),
    CodegenError,
>
    decreases e,
{
    match e {
        Expression::Number(n) => Ok((Seq::empty(), Operand::Immediate(n as int), next)),
        Expression::Variable(name) => if slots.contains_key(name@) {
            Ok(
                (
                    seq![Instr::Load { dst: next, slot: slots[name@] }],
                    Operand::Register(next),
                    next + 1,
                ),
            )
        } else {
            Err(CodegenError::UndeclaredVariable { name })
        },
        Expression::Binary { left, operator, right } => match lower_expression(*left, slots, next) {
            Err(err) => Err(err),
            Ok((li, lhs, n1)) => match lower_expression(*right, slots, n1) {
                Err(err) => Err(err),
                Ok((ri, rhs, n2)) => Ok(
                    (
                        li + ri + seq![Instr::Arith { dst: n2, op: operator, lhs, rhs }],
                        Operand::Register(n2),
                        n2 + 1,
                    ),
                ),
            },
        },
    }
}

/// Lowers a statement: its instructions, the slots after it, and the next free register.
pub open spec fn lower_statement(s: Statement, slots: Slots, next: nat) -> Result<
    (Seq<Instr>, Slots, nat),
    CodegenError,
> {
    match s {
        Statement::Print(e) => match lower_expression(e, slots, next) {
            Err(err) => Err(err),
            Ok((is, value, n)) => Ok((is.push(Instr::Call { dst: n, value }), slots, n + 1)),
        },
        Statement::VarDecl { name, value, is_mutable: _ } => {
            let declared = slots.insert(name@, next);
            match lower_expression(value, declared, next + 1) {
                Err(err) => Err(err),
                Ok((is, v, n)) => Ok(
                    (
                        seq![Instr::Alloca { dst: next }] + is.push(Instr::Store { value: v, slot: next }),
                        declared,
                        n,
                    ),
                ),
            }
        },
        Statement::Assignment { name, value } => if slots.contains_key(name@) {
            match lower_expression(value, slots, next) {
                Err(err) => Err(err),
                Ok((is, v, n)) => Ok((is.push(Instr::Store { value: v, slot: slots[name@] }), slots, n)),
            }
        } else {
            Err(CodegenError::UndeclaredVariable { name })
        },
        Statement::Expression(e) => match lower_expression(e, slots, next) {
            Err(err) => Err(err),
            Ok((is, _, n)) => Ok((is, slots, n)),
        },
    }
}

/// Lowers the statements of `ss` from index `i` on, after the instructions in `acc`.
pub open spec fn lower_from(ss: Seq<Statement>, i: nat, slots: Slots, next: nat, acc: Seq<Instr>) -> Result<
    Seq<Instr>,
    CodegenError,
>
    decreases ss.len() - i,
{
    if i >= ss.len() {
        Ok(acc)
    } else {
        match lower_statement(ss[i as int], slots, next) {
            Err(err) => Err(err),
            Ok((is, s2, n)) => lower_from(ss, i + 1, s2, n, acc + is),
        }
    }
}

/// The instructions of a program's entry routine: registers are numbered
/// from 1, and no name is declared at the start.
pub open spec fn lower_program(ss: Seq<Statement>) -> Result<Seq<Instr>, CodegenError> {
    lower_from(ss, 0, Map::empty(), 1, Seq::empty())
}

pub open spec fn register_text(r: nat) -> Seq<char> {
    seq!['%'] + decimal(r)
}

pub open spec fn operand_text(o: Operand) -> Seq<char> {
    match o {
        Operand::Register(r) => register_text(r),
        Operand::Immediate(v) => signed_decimal(v),
    }
}

/// The IR mnemonic of an operator (division is signed).
pub open spec fn operator_text(op: BinaryOperator) -> Seq<char> {
    match op {
        BinaryOperator::Add => "add"@,
        BinaryOperator::Subtract => "sub"@,
        BinaryOperator::Multiply => "mul"@,
        BinaryOperator::Divide => "sdiv"@,
    }
}

/// The text of an instruction, without indentation or line end.
pub open spec fn instr_text(i: Instr) -> Seq<char> {
    match i {
        Instr::Alloca { dst } => register_text(dst) + " = alloca i64, align 8"@,
        Instr::Store { value, slot } => "store i64 "@ + operand_text(value) + ", i64* "@
            + register_text(slot) + ", align 8"@,
        Instr::Load { dst, slot } => register_text(dst) + " = load i64, i64* "@ + register_text(slot)
            + ", align 8"@,
        Instr::Arith { dst, op, lhs, rhs } => register_text(dst) + " = "@ + operator_text(op)
            + " i64 "@ + operand_text(lhs) + ", "@ + operand_text(rhs),
        Instr::Call { dst, value } => register_text(dst) + " = call i32 (i8*, ...) @printf(i8* getelementptr inbounds ([6 x i8], [6 x i8]* @.str, i32 0, i32 0), i64 "@
            + operand_text(value) + ")"@,
    }
}

/// A line of the entry routine's body: two spaces of indentation, the text, a line end.
pub open spec fn body_line(text: Seq<char>) -> Seq<char> {
    "  "@ + text + seq!['\n']
}

/// The lines of a sequence of instructions.
pub open spec fn body_text(is: Seq<Instr>) -> Seq<char>
    decreases is.len(),
{
    if is.len() == 0 {
        Seq::empty()
    } else {
        body_text(is.drop_last()) + body_line(instr_text(is.last()))
    }
}

/// A line at module scope.
pub open spec fn module_line(text: Seq<char>) -> Seq<char> {
    text + seq!['\n']
}

/// Everything before the first instruction: the module header, the
/// declaration of the output primitive, its format string, and the start of
/// the entry routine.
pub open spec fn preamble_text() -> Seq<char> {
    module_line("; ModuleID = 'swift_module'"@) + module_line("source_filename = \"swift_source\""@)
        + module_line(""@) + module_line("declare i32 @printf(i8*, ...)"@) + module_line(""@)
        + module_line("@.str = private unnamed_addr constant [6 x i8] c\"%lld\\0A\\00\", align 1"@)
        + module_line(""@) + module_line("define i32 @main() {"@) + module_line("entry:"@)
}

/// Everything after the last instruction: the zero return and the routine's end.
pub open spec fn epilogue_text() -> Seq<char> {
    body_line("ret i32 0"@) + module_line("}"@)
}

/// The IR text of a program, or the first lowering error.
pub open spec fn program_ir(ss: Seq<Statement>) -> Result<Seq<char>, CodegenError> {
    match lower_program(ss) {
        Err(err) => Err(err),
        Ok(is) => Ok(preamble_text() + body_text(is) + epilogue_text()),
    }
}

/// The IR text of a syntax tree, or the first lowering error.
pub open spec fn ast_ir(ast: AstNode) -> Result<Seq<char>, CodegenError> {
    match ast {
        AstNode::Program(ss) => program_ir(ss@),
    }
}

pub proof fn lemma_body_text_concat(a: Seq<Instr>, b: Seq<Instr>)
    ensures
        body_text(a + b) == body_text(a) + body_text(b),
    decreases b.len(),
{
    if b.len() == 0 {
        assert(a + b =~= a);
        assert(body_text(a) + body_text(b) =~= body_text(a));
    } else {
        lemma_body_text_concat(a, b.drop_last());
        assert((a + b).drop_last() =~= a + b.drop_last());
        assert(body_text(a + b) =~= body_text(a) + body_text(b));
    }
}

/// The register that an instruction defines, if it defines one.
pub open spec fn defined_register(i: Instr) -> Option<nat> {
    match i {
        Instr::Alloca { dst } => Some(dst),
        Instr::Store { .. } => None,
        Instr::Load { dst, .. } => Some(dst),
        Instr::Arith { dst, .. } => Some(dst),
        Instr::Call { dst, .. } => Some(dst),
    }
}

/// The registers that a sequence of instructions defines, in emission order.
pub open spec fn defined_registers(is: Seq<Instr>) -> Seq<nat>
    decreases is.len(),
{
    if is.len() == 0 {
        Seq::empty()
    } else {
        match defined_register(is.last()) {
            Some(r) => defined_registers(is.drop_last()).push(r),
            None => defined_registers(is.drop_last()),
        }
    }
}

/// `rs` is `from, from + 1, from + 2, ...`
pub open spec fn consecutive(rs: Seq<nat>, from: nat) -> bool {
    forall|k: int| 0 <= k < rs.len() ==> #[trigger] rs[k] == from + k
}

proof fn lemma_defined_registers_concat(a: Seq<Instr>, b: Seq<Instr>)
    ensures
        defined_registers(a + b) == defined_registers(a) + defined_registers(b),
    decreases b.len(),
{
    if b.len() == 0 {
        assert(a + b =~= a);
        assert(defined_registers(a) + defined_registers(b) =~= defined_registers(a));
    } else {
        lemma_defined_registers_concat(a, b.drop_last());
        assert((a + b).drop_last() =~= a + b.drop_last());
        assert(defined_registers(a + b) =~= defined_registers(a) + defined_registers(b));
    }
}

proof fn lemma_single_register(i: Instr)
    ensures
        defined_registers(seq![i]) == match defined_register(i) {
            Some(r) => seq![r],
            None => Seq::<nat>::empty(),
        },
{
    assert(seq![i].drop_last() =~= Seq::<Instr>::empty());
    assert(defined_registers(seq![i].drop_last()) =~= Seq::<nat>::empty());
    assert(seq![i].last() == i);
    assert(defined_registers(seq![i]) =~= match defined_register(i) {
        Some(r) => seq![r],
        None => Seq::<nat>::empty(),
    });
}

proof fn lemma_consecutive_concat(a: Seq<nat>, b: Seq<nat>, from: nat)
    requires
        consecutive(a, from),
        consecutive(b, from + a.len()),
    ensures
        consecutive(a + b, from),
{
    assert forall|k: int| 0 <= k < (a + b).len() implies #[trigger] (a + b)[k] == from + k by {
        if k >= a.len() {
            assert((a + b)[k] == b[k - a.len()]);
        }
    }
}

proof fn lemma_expression_registers(e: Expression, slots: Slots, next: nat)
    ensures
        lower_expression(e, slots, next) matches Ok((is, _, n)) ==> consecutive(defined_registers(is), next)
            && n == next + defined_registers(is).len(),
    decreases e,
{
    match e {
        Expression::Number(_) => {
            assert(defined_registers(Seq::<Instr>::empty()) =~= Seq::<nat>::empty());
        },
        Expression::Variable(name) => {
            lemma_single_register(Instr::Load { dst: next, slot: slots[name@] });
        },
        Expression::Binary { left, operator, right } => {
            lemma_expression_registers(*left, slots, next);
            if let Ok((li, lo, n1)) = lower_expression(*left, slots, next) {
                lemma_expression_registers(*right, slots, n1);
                if let Ok((ri, ro, n2)) = lower_expression(*right, slots, n1) {
                    let instr = Instr::Arith { dst: n2, op: operator, lhs: lo, rhs: ro };
                    lemma_defined_registers_concat(li, ri);
                    lemma_defined_registers_concat(li + ri, seq![instr]);
                    lemma_single_register(instr);
                    lemma_consecutive_concat(defined_registers(li), defined_registers(ri), next);
                    lemma_consecutive_concat(defined_registers(li + ri), seq![n2], next);
                }
            }
        },
    }
}

proof fn lemma_statement_registers(s: Statement, slots: Slots, next: nat)
    ensures
        lower_statement(s, slots, next) matches Ok((is, _, n)) ==> consecutive(defined_registers(is), next)
            && n == next + defined_registers(is).len(),
{
    match s {
        Statement::Print(e) => {
            lemma_expression_registers(e, slots, next);
            if let Ok((is, v, n)) = lower_expression(e, slots, next) {
                let instr = Instr::Call { dst: n, value: v };
                assert(is.push(instr) =~= is + seq![instr]);
                lemma_defined_registers_concat(is, seq![instr]);
                lemma_single_register(instr);
                lemma_consecutive_concat(defined_registers(is), seq![n], next);
            }
        },
        Statement::VarDecl { name, value, is_mutable: _ } => {
            let declared = slots.insert(name@, next);
            lemma_expression_registers(value, declared, next + 1);
            if let Ok((is, v, n)) = lower_expression(value, declared, next + 1) {
                let alloca = Instr::Alloca { dst: next };
                let store = Instr::Store { value: v, slot: next };
                assert(seq![alloca] + is.push(store) =~= seq![alloca] + is + seq![store]);
                lemma_defined_registers_concat(seq![alloca], is);
                lemma_defined_registers_concat(seq![alloca] + is, seq![store]);
                lemma_single_register(alloca);
                lemma_single_register(store);
                lemma_consecutive_concat(seq![next], defined_registers(is), next);
                assert(defined_registers(seq![alloca] + is.push(store)) =~= seq![next] + defined_registers(is));
            }
        },
        Statement::Assignment { name, value } => {
            lemma_expression_registers(value, slots, next);
            if let Ok((is, v, n)) = lower_expression(value, slots, next) {
                let store = Instr::Store { value: v, slot: slots[name@] };
                assert(is.push(store) =~= is + seq![store]);
                lemma_defined_registers_concat(is, seq![store]);
                lemma_single_register(store);
                assert(defined_registers(is.push(store)) =~= defined_registers(is));
            }
        },
        Statement::Expression(e) => {
            lemma_expression_registers(e, slots, next);
        },
    }
}

proof fn lemma_lower_from_registers(ss: Seq<Statement>, i: nat, slots: Slots, next: nat, acc: Seq<Instr>)
    requires
        consecutive(defined_registers(acc), 1),
        next == 1 + defined_registers(acc).len(),
    ensures
        lower_from(ss, i, slots, next, acc) matches Ok(is) ==> consecutive(defined_registers(is), 1),
    decreases ss.len() - i,
{
    if i < ss.len() {
        lemma_statement_registers(ss[i as int], slots, next);
        if let Ok((is, s2, n)) = lower_statement(ss[i as int], slots, next) {
            lemma_defined_registers_concat(acc, is);
            lemma_consecutive_concat(defined_registers(acc), defined_registers(is), 1);
            lemma_lower_from_registers(ss, i + 1, s2, n, acc + is);
        }
    }
}

/// Virtual registers are defined in strictly increasing order and never
/// reused: in emission order the defined registers are `%1, %2, %3, ...`.
pub proof fn lemma_registers_increase(ss: Seq<Statement>)
    ensures
        lower_program(ss) matches Ok(is) ==> {
            let rs = defined_registers(is);
            &&& consecutive(rs, 1)
            &&& forall|j: int, k: int| 0 <= j < k < rs.len() ==> rs[j] < rs[k]
        },
{
    assert(defined_registers(Seq::<Instr>::empty()) =~= Seq::<nat>::empty());
    lemma_lower_from_registers(ss, 0, Map::empty(), 1, Seq::empty());
    if let Ok(is) = lower_program(ss) {
        let rs = defined_registers(is);
        assert forall|j: int, k: int| 0 <= j < k < rs.len() implies rs[j] < rs[k] by {
            assert(rs[j] == 1 + j);
            assert(rs[k] == 1 + k);
        }
    }
}

/// Whether operand `o` reads register `r`.
pub open spec fn operand_reads(o: Operand, r: nat) -> bool {
    o matches Operand::Register(x) && x == r
}

/// Whether instruction `i` reads register `r` (as a value or as a slot).
pub open spec fn reads(i: Instr, r: nat) -> bool {
    match i {
        Instr::Alloca { .. } => false,
        Instr::Store { value, slot } => operand_reads(value, r) || slot == r,
        Instr::Load { slot, .. } => slot == r,
        Instr::Arith { lhs, rhs, .. } => operand_reads(lhs, r) || operand_reads(rhs, r),
        Instr::Call { value, .. } => operand_reads(value, r),
    }
}

spec fn operand_below(o: Operand, n: nat) -> bool {
    match o {
        Operand::Register(x) => 1 <= x < n,
        Operand::Immediate(_) => true,
    }
}

spec fn reads_below(i: Instr, n: nat) -> bool {
    match i {
        Instr::Alloca { .. } => true,
        Instr::Store { value, slot } => operand_below(value, n) && 1 <= slot < n,
        Instr::Load { slot, .. } => 1 <= slot < n,
        Instr::Arith { lhs, rhs, .. } => operand_below(lhs, n) && operand_below(rhs, n),
        Instr::Call { value, .. } => operand_below(value, n),
    }
}

/// Each instruction reads only registers below `base` plus the number of
/// registers defined before it.
spec fn well_scoped(is: Seq<Instr>, base: nat) -> bool {
    forall|k: int|
        0 <= k < is.len() ==> reads_below(#[trigger] is[k], base + defined_registers(is.subrange(0, k)).len())
}

spec fn slots_below(slots: Slots, n: nat) -> bool {
    forall|name: Seq<char>| slots.contains_key(name) ==> 1 <= #[trigger] slots[name] < n
}

proof fn lemma_well_scoped_concat(a: Seq<Instr>, b: Seq<Instr>, base: nat)
    requires
        well_scoped(a, base),
        well_scoped(b, base + defined_registers(a).len()),
    ensures
        well_scoped(a + b, base),
{
    assert forall|k: int| 0 <= k < (a + b).len() implies reads_below(
        #[trigger] (a + b)[k],
        base + defined_registers((a + b).subrange(0, k)).len(),
    ) by {
        if k < a.len() {
            assert((a + b).subrange(0, k) =~= a.subrange(0, k));
            assert((a + b)[k] == a[k]);
        } else {
            let j = k - a.len();
            assert((a + b).subrange(0, k) =~= a + b.subrange(0, j));
            lemma_defined_registers_concat(a, b.subrange(0, j));
            assert((a + b)[k] == b[j]);
        }
    }
}

proof fn lemma_well_scoped_single(i: Instr, base: nat)
    requires
        reads_below(i, base),
    ensures
        well_scoped(seq![i], base),
{
    assert(seq![i].subrange(0, 0) =~= Seq::<Instr>::empty());
    assert(defined_registers(Seq::<Instr>::empty()) =~= Seq::<nat>::empty());
}

proof fn lemma_expression_scoped(e: Expression, slots: Slots, next: nat)
    requires
        1 <= next,
        slots_below(slots, next),
    ensures
        lower_expression(e, slots, next) matches Ok((is, op, n)) ==> well_scoped(is, next)
            && operand_below(op, n) && next <= n,
    decreases e,
{
    lemma_expression_registers(e, slots, next);
    match e {
        Expression::Number(_) => {},
        Expression::Variable(name) => {
            if slots.contains_key(name@) {
                lemma_well_scoped_single(Instr::Load { dst: next, slot: slots[name@] }, next);
            }
        },
        Expression::Binary { left, operator, right } => {
            lemma_expression_scoped(*left, slots, next);
            lemma_expression_registers(*left, slots, next);
            if let Ok((li, lo, n1)) = lower_expression(*left, slots, next) {
                assert(slots_below(slots, n1));
                lemma_expression_scoped(*right, slots, n1);
                lemma_expression_registers(*right, slots, n1);
                if let Ok((ri, ro, n2)) = lower_expression(*right, slots, n1) {
                    let instr = Instr::Arith { dst: n2, op: operator, lhs: lo, rhs: ro };
                    lemma_defined_registers_concat(li, ri);
                    lemma_well_scoped_concat(li, ri, next);
                    lemma_well_scoped_single(instr, n2);
                    lemma_well_scoped_concat(li + ri, seq![instr], next);
                }
            }
        },
    }
}

proof fn lemma_statement_scoped(s: Statement, slots: Slots, next: nat)
    requires
        1 <= next,
        slots_below(slots, next),
    ensures
        lower_statement(s, slots, next) matches Ok((is, s2, n)) ==> well_scoped(is, next) && slots_below(s2, n)
            && next <= n,
{
    lemma_statement_registers(s, slots, next);
    match s {
        Statement::Print(e) => {
            lemma_expression_scoped(e, slots, next);
            if let Ok((is, v, n)) = lower_expression(e, slots, next) {
                lemma_expression_registers(e, slots, next);
                let instr = Instr::Call { dst: n, value: v };
                assert(is.push(instr) =~= is + seq![instr]);
                lemma_well_scoped_single(instr, n);
                lemma_well_scoped_concat(is, seq![instr], next);
                assert(slots_below(slots, n + 1));
            }
        },
        Statement::VarDecl { name, value, is_mutable: _ } => {
            let declared = slots.insert(name@, next);
            assert(slots_below(declared, next + 1));
            lemma_expression_scoped(value, declared, next + 1);
            if let Ok((is, v, n)) = lower_expression(value, declared, next + 1) {
                lemma_expression_registers(value, declared, next + 1);
                let alloca = Instr::Alloca { dst: next };
                let store = Instr::Store { value: v, slot: next };
                lemma_single_register(alloca);
                lemma_well_scoped_single(alloca, next);
                lemma_well_scoped_concat(seq![alloca], is, next);
                lemma_defined_registers_concat(seq![alloca], is);
                lemma_well_scoped_single(store, n);
                lemma_well_scoped_concat(seq![alloca] + is, seq![store], next);
                assert(seq![alloca] + is.push(store) =~= seq![alloca] + is + seq![store]);
                assert(slots_below(declared, n));
            }
        },
        Statement::Assignment { name, value } => {
            lemma_expression_scoped(value, slots, next);
            if slots.contains_key(name@) {
                if let Ok((is, v, n)) = lower_expression(value, slots, next) {
                    lemma_expression_registers(value, slots, next);
                    let store = Instr::Store { value: v, slot: slots[name@] };
                    assert(is.push(store) =~= is + seq![store]);
                    lemma_well_scoped_single(store, n);
                    lemma_well_scoped_concat(is, seq![store], next);
                    assert(slots_below(slots, n));
                }
            }
        },
        Statement::Expression(e) => {
            lemma_expression_scoped(e, slots, next);
            if let Ok((is, v, n)) = lower_expression(e, slots, next) {
                assert(slots_below(slots, n));
            }
        },
    }
}

proof fn lemma_lower_from_scoped(ss: Seq<Statement>, i: nat, slots: Slots, next: nat, acc: Seq<Instr>)
    requires
        next == 1 + defined_registers(acc).len(),
        slots_below(slots, next),
        well_scoped(acc, 1),
    ensures
        lower_from(ss, i, slots, next, acc) matches Ok(is) ==> well_scoped(is, 1),
    decreases ss.len() - i,
{
    if i < ss.len() {
        lemma_statement_scoped(ss[i as int], slots, next);
        lemma_statement_registers(ss[i as int], slots, next);
        if let Ok((is, s2, n)) = lower_statement(ss[i as int], slots, next) {
            lemma_defined_registers_concat(acc, is);
            lemma_well_scoped_concat(acc, is, 1);
            lemma_lower_from_scoped(ss, i + 1, s2, n, acc + is);
        }
    }
}

proof fn lemma_read_was_defined(is: Seq<Instr>, k: int, r: nat)
    requires
        consecutive(defined_registers(is), 1),
        well_scoped(is, 1),
        0 <= k < is.len(),
        reads(is[k], r),
    ensures
        defined_registers(is.subrange(0, k)).contains(r),
{
    let pre = is.subrange(0, k);
    let post = is.subrange(k, is.len() as int);
    assert(is =~= pre + post);
    lemma_defined_registers_concat(pre, post);
    let ds = defined_registers(pre);
    assert(reads_below(is[k], 1 + ds.len()));
    assert(1 <= r < 1 + ds.len());
    assert(ds[r - 1] == defined_registers(is)[r - 1]);
    assert(ds[r - 1] == r);
}

/// Every register that an instruction reads, as a value or as a stack slot,
/// was defined by an earlier instruction.
pub proof fn lemma_registers_defined_before_use(ss: Seq<Statement>)
    ensures
        lower_program(ss) matches Ok(is) ==> forall|k: int, r: nat|
            0 <= k < is.len() && #[trigger] reads(is[k], r) ==> defined_registers(is.subrange(0, k)).contains(r),
{
    assert(defined_registers(Seq::<Instr>::empty()) =~= Seq::<nat>::empty());
    assert(slots_below(Map::empty(), 1));
    lemma_lower_from_scoped(ss, 0, Map::empty(), 1, Seq::empty());
    lemma_registers_increase(ss);
    if let Ok(is) = lower_program(ss) {
        assert forall|k: int, r: nat| 0 <= k < is.len() && #[trigger] reads(is[k], r) implies defined_registers(
            is.subrange(0, k),
        ).contains(r) by {
            lemma_read_was_defined(is, k, r);
        }
    }
}

} // verus!
