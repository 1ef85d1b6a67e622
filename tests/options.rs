use tiny_swift::backend::LLVMCompiler;
use tiny_swift::compiler::Compiler;
use tiny_swift::options::{has_verbose, CompilerOption};


#[test]
fn verbose_flags_are_recognised() {
    assert_eq!(CompilerOption::from_literal("-v"), Some(CompilerOption::Verbose));
    assert_eq!(CompilerOption::from_literal("--verbose"), Some(CompilerOption::Verbose));
    assert_eq!(CompilerOption::from_literal("-verbose"), None);
    assert_eq!(CompilerOption::from_literal("--v"), None);
    assert_eq!(CompilerOption::from_literal(""), None);
}

#[test]
fn compiler_settings_carry_the_options() {
    let compiler = Compiler::new(vec![CompilerOption::Verbose]);
    assert!(compiler.is_verbose());
    assert!(compiler.backend().is_verbose());
    assert_eq!(compiler.backend().output_dir(), "target/llvm");
    let quiet = Compiler::new(vec![]);
    assert!(!quiet.is_verbose());
    assert!(!LLVMCompiler::new(vec![]).is_verbose());
    assert!(has_verbose(&vec![CompilerOption::Verbose]));
}
