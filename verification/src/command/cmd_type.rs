//! The `type` builtin: says for each named command whether it is a shell
//! builtin, an executable on the search path, or unknown. The name
//! classification is verified here; the path search and the printing are
//! the process owner's part.

use super::builtins_list;
use super::Command;
use crate::text::trim;
use crate::text::trim_spec;
use vstd::prelude::*;

verus! {

/// The `type` builtin.
#[derive(Clone, Copy, Debug, PartialEq, Eq, Structural)]
pub struct CmdType;

impl Command for CmdType {
    open spec fn name_spec(&self) -> Seq<char> {
        "type"@
    }

    fn name(&self) -> (r: String) {
        "type".to_owned()
    }
}

/// The names `type` reports as shell builtins: exactly the names of the
/// registered built-in commands.
pub open spec fn shell_builtin_name(s: Seq<char>) -> bool {
    exists|i: int| 0 <= i < builtins_list().len() && builtins_list()[i].name_spec() == s
}

impl CmdType {
    /// The names to classify: each argument token, trimmed, in order.
    #[verifier::loop_isolation(false)]
    pub fn names(&self, args: &Vec<String>) -> (r: Vec<String>)
        ensures
            r.deep_view() == args.deep_view().map_values(|t: Seq<char>| trim_spec(t)),
    {
        let ghost dv = args.deep_view();
        let mut r: Vec<String> = Vec::new();
        let mut i: usize = 0;
        while i < args.len()
            invariant
                0 <= i <= args@.len(),
                r.deep_view() == dv.take(i as int).map_values(|t: Seq<char>| trim_spec(t)),
            decreases args@.len() - i,
        {
            let ghost pre = r.deep_view();
            let t = trim(args[i].as_str());
            proof {
                assert(dv[i as int] == args@[i as int]@);
            }
            r.push(t);
            i = i + 1;
            proof {
                assert(r.deep_view() =~= pre.push(trim_spec(dv[i - 1])));
                assert(r.deep_view() =~= dv.take(i as int).map_values(
                    |t: Seq<char>| trim_spec(t),
                ));
            }
        }
        proof {
            assert(dv.take(args@.len() as int) =~= dv);
        }
        r
    }

    /// Whether `type` reports the name as a shell builtin.
    pub fn is_shell_builtin(&self, name: &String) -> (r: bool)
        ensures
            r == shell_builtin_name(name@),
    {
        let r = *name == "cat".to_owned() || *name == "cd".to_owned() || *name
            == "type".to_owned() || *name == "echo".to_owned() || *name == "exit".to_owned()
            || *name == "pwd".to_owned();
        proof {
            assert(builtins_list()[0].name_spec() == "cat"@);
            assert(builtins_list()[1].name_spec() == "cd"@);
            assert(builtins_list()[2].name_spec() == "type"@);
            assert(builtins_list()[3].name_spec() == "echo"@);
            assert(builtins_list()[4].name_spec() == "exit"@);
            assert(builtins_list()[5].name_spec() == "pwd"@);
        }
        r
    }
}

} // verus!
