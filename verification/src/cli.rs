use vstd::prelude::*;

verus! {

/// The options a run of the interpreter is made with.
pub struct Args {
    /// The path of the test file, as text.
    pub file: String,
    pub disable_warnings: bool,
    pub disable_style_warnings: bool,
    pub disable_magic_warnings: bool,
    /// The most times a regex repetition without upper bound is expanded.
    pub max_size: u32,
    pub debug: bool,
}

impl Clone for Args {
    fn clone(&self) -> (r: Args)
        ensures
            r.file@ == self.file@,
            r.disable_warnings == self.disable_warnings,
            r.disable_style_warnings == self.disable_style_warnings,
            r.disable_magic_warnings == self.disable_magic_warnings,
            r.max_size == self.max_size,
            r.debug == self.debug,
    {
        Args {
            file: self.file.clone(),
            disable_warnings: self.disable_warnings,
            disable_style_warnings: self.disable_style_warnings,
            disable_magic_warnings: self.disable_magic_warnings,
            max_size: self.max_size,
            debug: self.debug,
        }
    }
}

} // verus!
