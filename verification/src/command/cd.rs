//! The `cd` builtin: changes the working directory. Deciding the target —
//! the home directory or a named one — is verified here; changing the
//! directory is the process owner's part.

use super::Command;
use crate::text::trim;
use crate::text::trim_spec;
use vstd::prelude::*;

verus! {

/// The `cd` builtin.
#[derive(Clone, Copy, Debug, PartialEq, Eq, Structural)]
pub struct Cd;

impl Command for Cd {
    open spec fn name_spec(&self) -> Seq<char> {
        "cd"@
    }

    fn name(&self) -> (r: String) {
        "cd".to_owned()
    }
}

/// Where `cd` goes.
#[derive(Debug, PartialEq, Eq)]
pub enum CdTarget {
    /// The home directory: no argument was given, or it trimmed to `~`.
    Home,
    /// The named directory.
    Dir(String),
}

/// The directory `cd` asks for: `None` stands for the home directory and
/// is chosen when no argument is given or the first trims to `~`; any
/// other first argument names the directory, trimmed.
pub open spec fn cd_target_spec(args: Seq<Seq<char>>) -> Option<Seq<char>> {
    if args.len() == 0 {
        None
    } else {
        let t = trim_spec(args[0]);
        if t == "~"@ {
            None
        } else {
            Some(t)
        }
    }
}

impl Cd {
    /// The target directory for the given argument tokens, and whether too
    /// many arguments were given (more than one, which `cd` reports while
    /// still using the first).
    pub fn plan(&self, args: &Vec<String>) -> (r: (CdTarget, bool))
        ensures
            match r.0 {
                CdTarget::Home => cd_target_spec(args.deep_view()) is None,
                CdTarget::Dir(d) => cd_target_spec(args.deep_view()) == Some(d@),
            },
            r.1 == (args.deep_view().len() > 1),
    {
        let too_many = args.len() > 1;
        if args.len() == 0 {
            return (CdTarget::Home, too_many);
        }
        proof {
            assert(args.deep_view()[0] == args@[0]@);
        }
        let t = trim(args[0].as_str());
        let home = "~".to_owned();
        if t == home {
            (CdTarget::Home, too_many)
        } else {
            (CdTarget::Dir(t), too_many)
        }
    }
}

} // verus!
