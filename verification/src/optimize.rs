//! Compressing the images of a directory. The command accepts its arguments
//! and does nothing yet.

use vstd::prelude::*;

verus! {

/// The arguments of an image optimization.
pub struct OptimizeArgs {
    pub input: String,
    pub output: Option<String>,
    /// Quality from 1 to 100.
    pub quality: u8,
    pub keep_original: bool,
}

/// Runs an image optimization: it succeeds without doing anything.
pub fn run(args: OptimizeArgs) -> (r: Result<(), String>)
    ensures
        r is Ok,
{
    Ok(())
}

} // verus!
