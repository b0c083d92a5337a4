//! The `exit` builtin: ends the session with a caller-supplied status.
//! Deciding the status is verified here; ending the process is the process
//! owner's part.

use super::Command;
use crate::text::parse_i32;
use crate::text::parse_i32_spec;
use vstd::prelude::*;

verus! {

/// The `exit` builtin.
#[derive(Clone, Copy, Debug, PartialEq, Eq, Structural)]
pub struct Exit;

impl Command for Exit {
    open spec fn name_spec(&self) -> Seq<char> {
        "exit"@
    }

    fn name(&self) -> (r: String) {
        "exit".to_owned()
    }
}

/// The status `exit` ends with: the first argument token read as a decimal
/// integer, or `0` when there is none or it does not parse.
pub open spec fn exit_code_spec(args: Seq<Seq<char>>) -> int {
    if args.len() == 0 {
        0
    } else {
        match parse_i32_spec(args[0]) {
            Some(v) => v as int,
            None => 0,
        }
    }
}

impl Exit {
    /// The status to end the session with, for the given argument tokens.
    pub fn exit_code(&self, args: &Vec<String>) -> (r: i32)
        ensures
            r == exit_code_spec(args.deep_view()),
    {
        if args.len() == 0 {
            0
        } else {
            proof {
                assert(args.deep_view()[0] == args@[0]@);
            }
            match parse_i32(args[0].as_str()) {
                Some(v) => v,
                None => 0,
            }
        }
    }
}

} // verus!
