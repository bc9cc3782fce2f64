use vstd::prelude::*;

verus! {

/// What one invocation should do: write assembly for a source file, start
/// the interactive line-by-line front end, or compile a source file through
/// the external assembler. The strings are the source path and the optional
/// output path.
#[derive(Debug)]
pub enum RunMode {
    Assemble(String, Option<String>),
    Repl,
    Compile(String, Option<String>),
}

/// The command-line surface. The front end collects the raw flags and
/// values; `run_mode` is the decision of what they mean.
pub struct Args;

/// The run mode the parsed command line selects: a source with the
/// assemble flag writes assembly, a source without it compiles, no source
/// without the flag starts the interactive front end, and the assemble flag
/// without a source selects nothing — the front end rejects that
/// combination before it ever gets here.
pub open spec fn spec_run_mode(
    assemble: bool,
    source: Option<String>,
    output: Option<String>,
) -> Option<RunMode> {
    match source {
        Some(src) => if assemble {
            Some(RunMode::Assemble(src, output))
        } else {
            Some(RunMode::Compile(src, output))
        },
        None => if assemble {
            None
        } else {
            Some(RunMode::Repl)
        },
    }
}

impl Args {
    /// Decides the run mode from the collected command line values.
    pub fn run_mode(assemble: bool, source: Option<String>, output: Option<String>) -> (r: Option<
        RunMode,
    >)
        ensures
            r == spec_run_mode(assemble, source, output),
    {
        match (source, assemble) {
            (Some(src), true) => Some(RunMode::Assemble(src, output)),
            (Some(src), false) => Some(RunMode::Compile(src, output)),
            (None, false) => Some(RunMode::Repl),
            (None, true) => None,
        }
    }
}

} // verus!
