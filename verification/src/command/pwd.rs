//! The `pwd` builtin: prints the working directory. Reading the directory
//! is the process owner's part; nothing of it is decided here.

use super::Command;
use vstd::prelude::*;

verus! {

/// The `pwd` builtin.
#[derive(Clone, Copy, Debug, PartialEq, Eq, Structural)]
pub struct Pwd;

impl Command for Pwd {
    open spec fn name_spec(&self) -> Seq<char> {
        "pwd"@
    }

    fn name(&self) -> (r: String) {
        "pwd".to_owned()
    }
}

} // verus!
