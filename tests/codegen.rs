use std::collections::HashMap;

use tiny_swift::ast::{AstNode, BinaryOperator, Expression, Statement};
use tiny_swift::codegen::{generate_llvm, LLVMCodeGenerator};
use tiny_swift::compiler::{compile_to_ir, CompileError};
use tiny_swift::ir::CodegenError;
use tiny_swift::lexer::LexError;
use tiny_swift::parser::ParseError;
use tiny_swift::token::TokenType;

const PREAMBLE: &str = "; ModuleID = 'swift_module'\n\
source_filename = \"swift_source\"\n\
\n\
declare i32 @printf(i8*, ...)\n\
\n\
@.str = private unnamed_addr constant [6 x i8] c\"%lld\\0A\\00\", align 1\n\
\n\
define i32 @main() {\n\
entry:\n";

const EPILOGUE: &str = "  ret i32 0\n}\n";

const PRINTF: &str =
    "call i32 (i8*, ...) @printf(i8* getelementptr inbounds ([6 x i8], [6 x i8]* @.str, i32 0, i32 0), i64 ";

fn ir(src: &str) -> String {
    compile_to_ir(src).unwrap().ir
}

fn expected(body: &[&str]) -> String {
    let mut s = PREAMBLE.to_string();
    for line in body {
        s.push_str("  ");
        s.push_str(line);
        s.push('\n');
    }
    s.push_str(EPILOGUE);
    s
}

/// Runs the entry routine of generated IR, for the instruction forms the
/// generator emits, and returns what the output primitive printed.
fn run(ir: &str) -> Vec<i64> {
    let mut values: HashMap<String, i64> = HashMap::new();
    let mut memory: HashMap<String, i64> = HashMap::new();
    let mut printed = Vec::new();
    let value = |values: &HashMap<String, i64>, s: &str| -> i64 {
        if s.starts_with('%') {
            values[s]
        } else {
            s.parse::<i64>().unwrap()
        }
    };
    let body = ir.split("entry:\n").nth(1).unwrap();
    for line in body.lines() {
        let line = line.trim();
        if line == "ret i32 0" {
            break;
        }
        if let Some(rest) = line.strip_prefix("store i64 ") {
            let rest = rest.strip_suffix(", align 8").unwrap();
            let (v, slot) = rest.split_once(", i64* ").unwrap();
            let v = value(&values, v);
            memory.insert(slot.to_string(), v);
            continue;
        }
        let (dst, rhs) = line.split_once(" = ").unwrap();
        if rhs.starts_with("alloca") {
            memory.insert(dst.to_string(), 0);
        } else if let Some(slot) = rhs.strip_prefix("load i64, i64* ") {
            let slot = slot.strip_suffix(", align 8").unwrap();
            values.insert(dst.to_string(), memory[slot]);
        } else if let Some(arg) = rhs.strip_prefix(PRINTF) {
            let arg = arg.strip_suffix(')').unwrap();
            printed.push(value(&values, arg));
            values.insert(dst.to_string(), 0);
        } else {
            let (op, operands) = rhs.split_once(" i64 ").unwrap();
            let (a, b) = operands.split_once(", ").unwrap();
            let (a, b) = (value(&values, a), value(&values, b));
            let r = match op {
                "add" => a.wrapping_add(b),
                "sub" => a.wrapping_sub(b),
                "mul" => a.wrapping_mul(b),
                "sdiv" => a / b,
                other => panic!("unknown instruction {}", other),
            };
            values.insert(dst.to_string(), r);
        }
    }
    printed
}

/// The registers defined by the lines of the entry routine, in order.
fn defined_registers(ir: &str) -> Vec<u64> {
    let body = ir.split("entry:\n").nth(1).unwrap();
    body.lines()
        .filter_map(|l| l.trim().split_once(" = "))
        .map(|(dst, _)| dst.trim_start_matches('%').parse::<u64>().unwrap())
        .collect()
}

#[test]
fn precedence_ir_and_output() {
    let text = ir("print(2+3*4)");
    assert_eq!(
        text,
        expected(&[
            "%1 = mul i64 3, 4",
            "%2 = add i64 2, %1",
            &format!("%3 = {}%2)", PRINTF),
        ])
    );
    assert_eq!(run(&text), vec![14]);
}

#[test]
fn parenthesized_sum_times_four_prints_twenty() {
    let text = ir("print((2+3)*4)");
    assert_eq!(
        text,
        expected(&[
            "%1 = add i64 2, 3",
            "%2 = mul i64 %1, 4",
            &format!("%3 = {}%2)", PRINTF),
        ])
    );
    assert_eq!(run(&text), vec![20]);
}

#[test]
fn let_then_print_prints_five() {
    let text = ir("let x = 5 print(x)");
    assert_eq!(
        text,
        expected(&[
            "%1 = alloca i64, align 8",
            "store i64 5, i64* %1, align 8",
            "%2 = load i64, i64* %1, align 8",
            &format!("%3 = {}%2)", PRINTF),
        ])
    );
    assert_eq!(run(&text), vec![5]);
}

#[test]
fn reassigned_var_prints_nine() {
    let text = ir("var x = 5 x = 9 print(x)");
    assert_eq!(
        text,
        expected(&[
            "%1 = alloca i64, align 8",
            "store i64 5, i64* %1, align 8",
            "store i64 9, i64* %1, align 8",
            "%2 = load i64, i64* %1, align 8",
            &format!("%3 = {}%2)", PRINTF),
        ])
    );
    assert_eq!(run(&text), vec![9]);
}

#[test]
fn undeclared_variable_fails_without_ir() {
    assert_eq!(
        compile_to_ir("print(y)").unwrap_err(),
        CompileError::Codegen(CodegenError::UndeclaredVariable { name: "y".to_string() })
    );
    let program = AstNode::Program(vec![Statement::Print(Expression::Variable("y".to_string()))]);
    assert_eq!(
        generate_llvm(&program),
        Err(CodegenError::UndeclaredVariable { name: "y".to_string() })
    );
}

#[test]
fn assignment_to_undeclared_variable_fails() {
    assert_eq!(
        compile_to_ir("let x = 1 z = x").unwrap_err(),
        CompileError::Codegen(CodegenError::UndeclaredVariable { name: "z".to_string() })
    );
}

#[test]
fn division_truncates_and_subtraction_goes_negative() {
    let text = ir("print(7/2)");
    assert!(text.contains("  %1 = sdiv i64 7, 2\n"));
    assert_eq!(run(&text), vec![3]);
    let text = ir("print(0-7)");
    assert!(text.contains("  %1 = sub i64 0, 7\n"));
    assert_eq!(run(&text), vec![-7]);
    assert_eq!(run(&ir("print((0-7)/2)")), vec![-3]);
}

#[test]
fn immutable_binding_may_be_reassigned() {
    assert_eq!(run(&ir("let x = 1 x = 2 print(x)")), vec![2]);
}

#[test]
fn expression_statement_is_evaluated_and_discarded() {
    let text = ir("let a = 2 a * 3 print(a)");
    assert_eq!(
        text,
        expected(&[
            "%1 = alloca i64, align 8",
            "store i64 2, i64* %1, align 8",
            "%2 = load i64, i64* %1, align 8",
            "%3 = mul i64 %2, 3",
            "%4 = load i64, i64* %1, align 8",
            &format!("%5 = {}%4)", PRINTF),
        ])
    );
    assert_eq!(compile_to_ir("q + 1").unwrap_err(),
        CompileError::Codegen(CodegenError::UndeclaredVariable { name: "q".to_string() }));
}

#[test]
fn empty_program_has_only_preamble_and_return() {
    assert_eq!(ir(""), expected(&[]));
    assert_eq!(generate_llvm(&AstNode::Program(vec![])), Ok(expected(&[])));
}

#[test]
fn negative_and_extreme_literals_are_written_in_decimal() {
    let program = AstNode::Program(vec![
        Statement::Print(Expression::Number(-42)),
        Statement::Print(Expression::Number(i64::MIN)),
        Statement::Print(Expression::Number(i64::MAX)),
        Statement::Print(Expression::Number(0)),
    ]);
    let text = generate_llvm(&program).unwrap();
    assert_eq!(
        text,
        expected(&[
            &format!("%1 = {}-42)", PRINTF),
            &format!("%2 = {}-9223372036854775808)", PRINTF),
            &format!("%3 = {}9223372036854775807)", PRINTF),
            &format!("%4 = {}0)", PRINTF),
        ])
    );
}

#[test]
fn generating_twice_gives_identical_text() {
    let src = "var total = 1 let step = 2 * (3 + 4) total = total + step / 2 print(total) print(total - step)";
    let program = compile_to_ir(src).unwrap().program;
    let first = generate_llvm(&program).unwrap();
    let second = generate_llvm(&program).unwrap();
    assert_eq!(first, second);
    let mut generator = LLVMCodeGenerator::new();
    let third = generator.generate(&program).unwrap();
    let fourth = generator.generate(&program).unwrap();
    assert_eq!(first, third);
    assert_eq!(third, fourth);
    assert_eq!(run(&first), vec![8, -6]);
}

#[test]
fn registers_strictly_increase_from_one() {
    let src = "var a = 1 let b = a + 2 * a a = (a + b) * (b - a) / 2 print(a) a print(b + a)";
    let regs = defined_registers(&ir(src));
    assert!(!regs.is_empty());
    for (i, r) in regs.iter().enumerate() {
        assert_eq!(*r, i as u64 + 1);
    }
    let body = ir(src);
    let body = body.split("entry:\n").nth(1).unwrap();
    let mut defined = 0u64;
    for line in body.lines() {
        let line = line.trim();
        let (dst, rhs) = match line.split_once(" = ") {
            Some((d, r)) => (Some(d), r),
            None => (None, line),
        };
        for word in rhs.split(|c: char| c == ' ' || c == ',' || c == ')') {
            if let Some(n) = word.strip_prefix('%') {
                let n: u64 = n.parse().unwrap();
                assert!(1 <= n && n <= defined, "{} read before it is defined", word);
            }
        }
        if dst.is_some() {
            defined += 1;
        }
    }
}

#[test]
fn pipeline_reports_the_failing_stage() {
    assert_eq!(
        compile_to_ir("print(1) @").unwrap_err(),
        CompileError::Lex(LexError::UnexpectedCharacter('@', 9))
    );
    match compile_to_ir("print(1+2").unwrap_err() {
        CompileError::Parse(ParseError::ExpectedToken { expected, found }) => {
            assert_eq!(expected, TokenType::RightParen);
            assert_eq!(found.token_type, TokenType::EndOfInput);
        }
        other => panic!("unexpected {:?}", other),
    }
    let out = compile_to_ir("print(1)").unwrap();
    assert_eq!(out.tokens.len(), 5);
    assert_eq!(out.program, AstNode::Program(vec![Statement::Print(Expression::Number(1))]));
    assert_eq!(generate_llvm(&out.program).unwrap(), out.ir);
    let _ = BinaryOperator::Add;
}

#[test]
fn values_beyond_32_bits_are_printed_in_full() {
    let text = ir("print(2147483648)");
    assert_eq!(text, expected(&[&format!("%1 = {}2147483648)", PRINTF)]));
    assert_eq!(run(&text), vec![2147483648]);
    assert_eq!(run(&ir("let big = 3000000000 print(big * 3)")), vec![9000000000]);
}
