use vstd::prelude::*;

use crate::text::{chars_of, same_chars};

verus! {

/// A command-line option of the compiler.
#[derive(Debug, Clone, Copy, PartialEq, Eq, Structural)]
pub enum CompilerOption {
    /// Echo the tokens, the syntax tree and the IR while compiling.
    Verbose,
}

impl CompilerOption {
    /// The option that a command-line argument names: `-v` and `--verbose`
    /// name `Verbose`; any other argument names none.
    pub fn from_literal(option_literal: &str) -> (r: Option<CompilerOption>)
        ensures
            r == if option_literal@ == "-v"@ || option_literal@ == "--verbose"@ {
                Some(CompilerOption::Verbose)
            } else {
                None
            },
    {
        let given = chars_of(option_literal);
        if same_chars(&given, &chars_of("-v")) || same_chars(&given, &chars_of("--verbose")) {
            Some(CompilerOption::Verbose)
        } else {
            None
        }
    }
}

/// A copy of a list of options.
pub fn copy_options(options: &Vec<CompilerOption>) -> (r: Vec<CompilerOption>)
    ensures
        r@ == options@,
{
    let mut r: Vec<CompilerOption> = Vec::new();
    let mut i: usize = 0;
    while i < options.len()
        invariant
            i <= options@.len(),
            r@ == options@.subrange(0, i as int),
        decreases options@.len() - i,
    {
        r.push(options[i]);
        i = i + 1;
        assert(r@ =~= options@.subrange(0, i as int));
    }
    assert(options@.subrange(0, options@.len() as int) =~= options@);
    r
}

/// Whether `options` asks for verbose output.
pub fn has_verbose(options: &Vec<CompilerOption>) -> (r: bool)
    ensures
        r == options@.contains(CompilerOption::Verbose),
{
    let mut i: usize = 0;
    while i < options.len()
        invariant
            i <= options@.len(),
            forall|j: int| 0 <= j < i ==> options@[j] != CompilerOption::Verbose,
        decreases options@.len() - i,
    {
        if options[i] == CompilerOption::Verbose {
            return true;
        }
        i = i + 1;
    }
    false
}

} // verus!
