use vstd::prelude::*;

use crate::ast::{AstNode, BinaryOperator, Expression, Statement};
use crate::ir::{
    ast_ir, body_line, body_text, epilogue_text, instr_text, lemma_body_text_concat, lower_expression,
    lower_from, lower_program, lower_statement, module_line, operand_text, operator_text,
    preamble_text, program_ir, register_text, CodegenError, Instr, Slots,
};
use crate::text::{chars_of, push_decimal, push_signed_decimal, string_of};

verus! {

/// The slots that a list of (name, slot register) entries gives: a later
/// entry for a name replaces an earlier one.
pub open spec fn slots_of(vs: Seq<(String, usize)>) -> Slots
    decreases vs.len(),
{
    if vs.len() == 0 {
        Map::empty()
    } else {
        slots_of(vs.drop_last()).insert(vs.last().0@, vs.last().1 as nat)
    }
}

proof fn lemma_slots_unaffected(vs: Seq<(String, usize)>, i: int, name: Seq<char>)
    requires
        0 <= i <= vs.len(),
        forall|j: int| i <= j < vs.len() ==> (#[trigger] vs[j]).0@ != name,
    ensures
        slots_of(vs).contains_key(name) == slots_of(vs.subrange(0, i)).contains_key(name),
        slots_of(vs).contains_key(name) ==> slots_of(vs)[name] == slots_of(vs.subrange(0, i))[name],
    decreases vs.len(),
{
    if vs.len() == i {
        assert(vs.subrange(0, i) =~= vs);
    } else {
        lemma_slots_unaffected(vs.drop_last(), i, name);
        assert(vs.drop_last().subrange(0, i) =~= vs.subrange(0, i));
    }
}

/// Lowers a syntax tree to IR text. A generator holds the state of one
/// lowering: the text so far, the next free virtual register, and the slot
/// register of each declared name.
pub struct LLVMCodeGenerator {
    output: Vec<char>,
    next_register: usize,
    variables: Vec<(String, usize)>,
}

impl LLVMCodeGenerator {
    pub closed spec fn text(&self) -> Seq<char> {
        self.output@
    }

    pub closed spec fn next(&self) -> nat {
        self.next_register as nat
    }

    pub closed spec fn slots(&self) -> Slots {
        slots_of(self.variables@)
    }

    /// Registers are numbered from 1, and each one so far has a line of its
    /// own (of at least two characters) in the text, so the counter stays
    /// below half the text's length and cannot overflow.
    pub closed spec fn wf(&self) -> bool {
        &&& 1 <= self.next_register
        &&& 2 * (self.next_register - 1) <= self.output@.len()
    }

    pub fn new() -> (r: LLVMCodeGenerator)
        ensures
            r.wf(),
            r.text() == Seq::<char>::empty(),
            r.next() == 1,
            r.slots() == Map::<Seq<char>, nat>::empty(),
    {
        LLVMCodeGenerator { output: Vec::new(), next_register: 1, variables: Vec::new() }
    }

    fn alloc_register(&mut self) -> (r: usize)
        requires
            old(self).wf(),
        ensures
            r == old(self).next_register,
            1 <= r,
            2 * r <= old(self).output@.len() + 2,
            final(self).next_register == old(self).next_register + 1,
            final(self).output == old(self).output,
            final(self).variables == old(self).variables,
    {
        let text_len = self.output.len();
        assert(self.next_register + 1 <= usize::MAX);
        let reg = self.next_register;
        self.next_register = self.next_register + 1;
        reg
    }

    fn emit(&mut self, code: &Vec<char>)
        ensures
            final(self).output@ == old(self).output@ + code@,
            final(self).next_register == old(self).next_register,
            final(self).variables == old(self).variables,
    {
        let mut i: usize = 0;
        while i < code.len()
            invariant
                i <= code@.len(),
                self.output@ == old(self).output@ + code@.subrange(0, i as int),
                self.next_register == old(self).next_register,
                self.variables == old(self).variables,
            decreases code@.len() - i,
        {
            self.output.push(code[i]);
            i = i + 1;
            assert(self.output@ =~= old(self).output@ + code@.subrange(0, i as int));
        }
        assert(code@.subrange(0, code@.len() as int) =~= code@);
    }

    fn emit_line(&mut self, code: &str)
        ensures
            final(self).output@ == old(self).output@ + module_line(code@),
            final(self).next_register == old(self).next_register,
            final(self).variables == old(self).variables,
    {
        let mut line = chars_of(code);
        line.push('\n');
        self.emit(&line);
    }

    /// Appends a line of the entry routine's body.
    fn emit_body_line(&mut self, text: &Vec<char>)
        ensures
            final(self).output@ == old(self).output@ + body_line(text@),
            final(self).next_register == old(self).next_register,
            final(self).variables == old(self).variables,
    {
        let mut line = chars_of("  ");
        let mut i: usize = 0;
        let ghost start = line@;
        while i < text.len()
            invariant
                i <= text@.len(),
                line@ == start + text@.subrange(0, i as int),
            decreases text@.len() - i,
        {
            line.push(text[i]);
            i = i + 1;
            assert(line@ =~= start + text@.subrange(0, i as int));
        }
        assert(text@.subrange(0, text@.len() as int) =~= text@);
        line.push('\n');
        assert(line@ =~= body_line(text@));
        self.emit(&line);
    }

    fn lookup(&self, name: &String) -> (r: Option<usize>)
        ensures
            match r {
                Some(slot) => self.slots().contains_key(name@) && self.slots()[name@] == slot,
                None => !self.slots().contains_key(name@),
            },
    {
        let mut i: usize = self.variables.len();
        while i > 0
            invariant
                i <= self.variables@.len(),
                forall|j: int| i <= j < self.variables@.len() ==> (#[trigger] self.variables@[j]).0@ != name@,
            decreases i,
        {
            i = i - 1;
            if self.variables[i].0 == *name {
                proof {
                    let vs = self.variables@;
                    lemma_slots_unaffected(vs, i + 1, name@);
                    assert(vs.subrange(0, i + 1).drop_last() =~= vs.subrange(0, i as int));
                }
                return Some(self.variables[i].1);
            }
        }
        proof {
            lemma_slots_unaffected(self.variables@, 0, name@);
        }
        None
    }

    /// Appends the line of `instr`, whose text `line` holds.
    fn emit_instr(&mut self, line: &Vec<char>, Ghost(instr): Ghost<Instr>)
        requires
            1 <= old(self).next_register,
            2 * (old(self).next_register - 1) <= old(self).output@.len() + 2,
            line@ == instr_text(instr),
        ensures
            final(self).wf(),
            final(self).output@ == old(self).output@ + body_text(seq![instr]),
            final(self).next_register == old(self).next_register,
            final(self).variables == old(self).variables,
    {
        self.emit_body_line(line);
        proof {
            reveal_strlit("  ");
        }
        assert(body_line(line@).len() >= 2);
        assert(seq![instr].drop_last() =~= Seq::<Instr>::empty());
        assert(body_text(seq![instr].drop_last()) =~= Seq::<char>::empty());
        assert(body_text(seq![instr]) =~= body_line(instr_text(instr)));
    }

    fn visit_expression(&mut self, expr: &Expression) -> (r: Result<Vec<char>, CodegenError>)
        requires
            old(self).wf(),
        ensures
            final(self).wf(),
            final(self).variables == old(self).variables,
            match lower_expression(*expr, old(self).slots(), old(self).next()) {
                Ok((is, op, n)) => r matches Ok(t) && t@ == operand_text(op) && final(self).text()
                    == old(self).text() + body_text(is) && final(self).next() == n,
                Err(e) => r == Err::<Vec<char>, CodegenError>(e),
            },
        decreases expr,
    {
        match expr {
            Expression::Number(n) => {
                let mut t: Vec<char> = Vec::new();
                push_signed_decimal(&mut t, *n);
                assert(body_text(Seq::<Instr>::empty()) =~= Seq::<char>::empty());
                assert(self.output@ =~= old(self).output@ + body_text(Seq::<Instr>::empty()));
                Ok(t)
            },
            Expression::Variable(name) => match self.lookup(name) {
                None => Err(CodegenError::UndeclaredVariable { name: name.clone() }),
                Some(slot) => {
                    let dst = self.alloc_register();
                    let mut line: Vec<char> = Vec::new();
                    push_register(&mut line, dst);
                    push_str(&mut line, " = load i64, i64* ");
                    push_register(&mut line, slot);
                    push_str(&mut line, ", align 8");
                    let ghost instr = Instr::Load { dst: dst as nat, slot: slot as nat };
                    assert(line@ =~= instr_text(instr));
                    self.emit_instr(&line, Ghost(instr));
                    let mut t: Vec<char> = Vec::new();
                    push_register(&mut t, dst);
                    assert(t@ =~= register_text(dst as nat));
                    Ok(t)
                },
            },
            Expression::Binary { left, operator, right } => {
                let ghost text0 = self.output@;
                let lhs = match self.visit_expression(left) {
                    Ok(t) => t,
                    Err(e) => return Err(e),
                };
                let rhs = match self.visit_expression(right) {
                    Ok(t) => t,
                    Err(e) => return Err(e),
                };
                let dst = self.alloc_register();
                let mut line: Vec<char> = Vec::new();
                push_register(&mut line, dst);
                push_str(&mut line, " = ");
                push_str(&mut line, operator_name(*operator));
                push_str(&mut line, " i64 ");
                push_chars(&mut line, &lhs);
                push_str(&mut line, ", ");
                push_chars(&mut line, &rhs);
                let ghost (li, lo, n1) = lower_expression(**left, old(self).slots(), old(self).next())->Ok_0;
                let ghost (ri, ro, n2) = lower_expression(**right, old(self).slots(), n1)->Ok_0;
                let ghost instr = Instr::Arith { dst: n2, op: *operator, lhs: lo, rhs: ro };
                assert(line@ =~= instr_text(instr));
                self.emit_instr(&line, Ghost(instr));
                proof {
                    lemma_body_text_concat(li, ri);
                    lemma_body_text_concat(li + ri, seq![instr]);
                    assert(self.output@ =~= text0 + body_text(li + ri + seq![instr]));
                }
                let mut t: Vec<char> = Vec::new();
                push_register(&mut t, dst);
                assert(t@ =~= register_text(dst as nat));
                Ok(t)
            },
        }
    }

    fn visit_statement(&mut self, statement: &Statement) -> (r: Result<(), CodegenError>)
        requires
            old(self).wf(),
        ensures
            final(self).wf(),
            match lower_statement(*statement, old(self).slots(), old(self).next()) {
                Ok((is, slots, n)) => r is Ok && final(self).text() == old(self).text() + body_text(is)
                    && final(self).slots() == slots && final(self).next() == n,
                Err(e) => r == Err::<(), CodegenError>(e),
            },
    {
        let ghost text0 = self.output@;
        match statement {
            Statement::Print(expr) => {
                let value = match self.visit_expression(expr) {
                    Ok(t) => t,
                    Err(e) => return Err(e),
                };
                let call_reg = self.alloc_register();
                let mut line: Vec<char> = Vec::new();
                push_register(&mut line, call_reg);
                push_str(
                    &mut line,
                    " = call i32 (i8*, ...) @printf(i8* getelementptr inbounds ([6 x i8], [6 x i8]* @.str, i32 0, i32 0), i64 ",
                );
                push_chars(&mut line, &value);
                push_str(&mut line, ")");
                let ghost (is, v, n) = lower_expression(*expr, old(self).slots(), old(self).next())->Ok_0;
                let ghost instr = Instr::Call { dst: n, value: v };
                assert(line@ =~= instr_text(instr));
                self.emit_instr(&line, Ghost(instr));
                proof {
                    lemma_body_text_concat(is, seq![instr]);
                    assert(is.push(instr) =~= is + seq![instr]);
                    assert(self.output@ =~= text0 + body_text(is.push(instr)));
                }
                Ok(())
            },
            Statement::VarDecl { name, value, is_mutable: _ } => {
                let slot = self.alloc_register();
                let mut line: Vec<char> = Vec::new();
                push_register(&mut line, slot);
                push_str(&mut line, " = alloca i64, align 8");
                let ghost alloca = Instr::Alloca { dst: slot as nat };
                assert(line@ =~= instr_text(alloca));
                self.emit_instr(&line, Ghost(alloca));
                let ghost vars0 = self.variables@;
                self.variables.push((name.clone(), slot));
                assert(self.variables@.drop_last() =~= vars0);
                let v = match self.visit_expression(value) {
                    Ok(t) => t,
                    Err(e) => return Err(e),
                };
                let mut line: Vec<char> = Vec::new();
                push_str(&mut line, "store i64 ");
                push_chars(&mut line, &v);
                push_str(&mut line, ", i64* ");
                push_register(&mut line, slot);
                push_str(&mut line, ", align 8");
                let ghost declared = old(self).slots().insert(name@, slot as nat);
                let ghost (is, op, n) = lower_expression(*value, declared, slot as nat + 1)->Ok_0;
                let ghost store = Instr::Store { value: op, slot: slot as nat };
                assert(line@ =~= instr_text(store));
                self.emit_instr(&line, Ghost(store));
                proof {
                    lemma_body_text_concat(seq![alloca], is);
                    lemma_body_text_concat(seq![alloca] + is, seq![store]);
                    assert(seq![alloca] + is.push(store) =~= seq![alloca] + is + seq![store]);
                    assert(self.output@ =~= text0 + body_text(seq![alloca] + is.push(store)));
                }
                Ok(())
            },
            Statement::Assignment { name, value } => {
                let slot = match self.lookup(name) {
                    Some(s) => s,
                    None => return Err(CodegenError::UndeclaredVariable { name: name.clone() }),
                };
                let v = match self.visit_expression(value) {
                    Ok(t) => t,
                    Err(e) => return Err(e),
                };
                let mut line: Vec<char> = Vec::new();
                push_str(&mut line, "store i64 ");
                push_chars(&mut line, &v);
                push_str(&mut line, ", i64* ");
                push_register(&mut line, slot);
                push_str(&mut line, ", align 8");
                let ghost (is, op, n) = lower_expression(*value, old(self).slots(), old(self).next())->Ok_0;
                let ghost store = Instr::Store { value: op, slot: slot as nat };
                assert(line@ =~= instr_text(store));
                self.emit_instr(&line, Ghost(store));
                proof {
                    lemma_body_text_concat(is, seq![store]);
                    assert(is.push(store) =~= is + seq![store]);
                    assert(self.output@ =~= text0 + body_text(is.push(store)));
                }
                Ok(())
            },
            Statement::Expression(expr) => match self.visit_expression(expr) {
                Ok(_) => Ok(()),
                Err(e) => Err(e),
            },
        }
    }

    /// Lowers a syntax tree to IR text, starting from a fresh state: the
    /// text, the register counter and the declared names of any earlier run
    /// are dropped.
    pub fn generate(&mut self, ast: &AstNode) -> (r: Result<String, CodegenError>)
        ensures
            match ast_ir(*ast) {
                Ok(text) => r matches Ok(s) && s@ == text,
                Err(e) => r == Err::<String, CodegenError>(e),
            },
    {
        self.output = Vec::new();
        self.next_register = 1;
        self.variables = Vec::new();
        self.emit_line("; ModuleID = 'swift_module'");
        self.emit_line("source_filename = \"swift_source\"");
        self.emit_line("");
        self.emit_line("declare i32 @printf(i8*, ...)");
        self.emit_line("");
        self.emit_line("@.str = private unnamed_addr constant [6 x i8] c\"%lld\\0A\\00\", align 1");
        self.emit_line("");
        self.emit_line("define i32 @main() {");
        self.emit_line("entry:");
        assert(self.output@ =~= preamble_text());
        assert(self.variables@ =~= Seq::<(String, usize)>::empty());
        let AstNode::Program(statements) = ast;
        assert(ast_ir(*ast) == program_ir(statements@));
        let mut i: usize = 0;
        let ghost mut acc: Seq<Instr> = Seq::empty();
        assert(body_text(acc) =~= Seq::<char>::empty());
        assert(self.output@ =~= preamble_text() + body_text(acc));
        while i < statements.len()
            invariant
                self.wf(),
                ast_ir(*ast) == program_ir(statements@),
                i <= statements@.len(),
                self.output@ == preamble_text() + body_text(acc),
                lower_from(statements@, i as nat, self.slots(), self.next(), acc) == lower_program(
                    statements@,
                ),
            decreases statements@.len() - i,
        {
            let ghost slots0 = self.slots();
            let ghost next0 = self.next();
            match self.visit_statement(&statements[i]) {
                Ok(()) => {},
                Err(e) => return Err(e),
            }
            proof {
                let (is, s2, n) = lower_statement(statements@[i as int], slots0, next0)->Ok_0;
                lemma_body_text_concat(acc, is);
                acc = acc + is;
            }
            i = i + 1;
        }
        let ret = chars_of("ret i32 0");
        self.emit_body_line(&ret);
        self.emit_line("}");
        assert(self.output@ =~= preamble_text() + body_text(acc) + epilogue_text());
        Ok(string_of(&self.output))
    }
}

/// Appends the text of register `r` to `out`.
fn push_register(out: &mut Vec<char>, r: usize)
    ensures
        final(out)@ == old(out)@ + register_text(r as nat),
{
    out.push('%');
    push_decimal(out, r as u64);
    assert(out@ =~= old(out)@ + register_text(r as nat));
}

/// Appends the characters of `s` to `out`.
fn push_str(out: &mut Vec<char>, s: &str)
    ensures
        final(out)@ == old(out)@ + s@,
{
    let mut cs = chars_of(s);
    out.append(&mut cs);
}

/// Appends the characters of `v` to `out`.
fn push_chars(out: &mut Vec<char>, v: &Vec<char>)
    ensures
        final(out)@ == old(out)@ + v@,
{
    let mut i: usize = 0;
    while i < v.len()
        invariant
            i <= v@.len(),
            out@ == old(out)@ + v@.subrange(0, i as int),
        decreases v@.len() - i,
    {
        out.push(v[i]);
        i = i + 1;
        assert(out@ =~= old(out)@ + v@.subrange(0, i as int));
    }
    assert(v@.subrange(0, v@.len() as int) =~= v@);
}

fn operator_name(op: BinaryOperator) -> (r: &'static str)
    ensures
        r@ == operator_text(op),
{
    match op {
        BinaryOperator::Add => "add",
        BinaryOperator::Subtract => "sub",
        BinaryOperator::Multiply => "mul",
        BinaryOperator::Divide => "sdiv",
    }
}

} // verus!

verus! {

/// Lowers a syntax tree to IR text: the module preamble, one instruction
/// sequence per statement in the entry routine, and a zero return; or the
/// first reference to an undeclared name. The text depends on the tree alone.
pub fn generate_llvm(ast: &AstNode) -> (r: Result<String, CodegenError>)
    ensures
        match ast_ir(*ast) {
            Ok(text) => r matches Ok(s) && s@ == text,
            Err(e) => r == Err::<String, CodegenError>(e),
        },
{
    let mut generator = LLVMCodeGenerator::new();
    generator.generate(ast)
}

/// Generation is deterministic: what `generate` and `generate_llvm` return is
/// `ast_ir` of the tree, a function of the tree alone, so two generations
/// from the same tree give byte-identical text (or the same error), whatever
/// a generator held before.
pub proof fn lemma_generation_deterministic(first: AstNode, second: AstNode)
    requires
        first == second,
    ensures
        ast_ir(first) == ast_ir(second),
        ast_ir(first) is Ok ==> ast_ir(first)->Ok_0 == ast_ir(second)->Ok_0,
{
}

} // verus!
