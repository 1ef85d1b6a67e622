use vstd::prelude::*;

use crate::options::{has_verbose, CompilerOption};
use crate::text::{chars_of, string_of};

verus! {

/// The settings of the toolchain step that runs the generated IR: where its
/// files go, and the options that govern what it echoes.
pub struct LLVMCompiler {
    output_dir: String,
    options: Vec<CompilerOption>,
}

impl LLVMCompiler {
    pub closed spec fn output_dir_view(&self) -> Seq<char> {
        self.output_dir@
    }

    pub closed spec fn options_view(&self) -> Seq<CompilerOption> {
        self.options@
    }

    /// Settings that write to `target/llvm`.
    pub fn new(options: Vec<CompilerOption>) -> (r: LLVMCompiler)
        ensures
            r.output_dir_view() == "target/llvm"@,
            r.options_view() == options@,
    {
        let dir = chars_of("target/llvm");
        LLVMCompiler { output_dir: string_of(&dir), options }
    }

    /// The directory that the IR, assembly and executable are written to.
    pub fn output_dir(&self) -> (r: &String)
        ensures
            r@ == self.output_dir_view(),
    {
        &self.output_dir
    }

    /// Whether the toolchain step echoes what it does.
    pub fn is_verbose(&self) -> (r: bool)
        ensures
            r == self.options_view().contains(CompilerOption::Verbose),
    {
        has_verbose(&self.options)
    }
}

} // verus!
