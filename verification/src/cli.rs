//! The run's command-line surface: plain values handed in by the caller.
use vstd::prelude::*;

verus! {

/// The positional arguments of a run: the directory whose source files
/// are scanned, the template file, and where the output goes.
pub struct Cli {
    pub package_dir: String,
    pub template_file: String,
    pub output_dir: String,
    pub output_file: String,
}

} // verus!
