//! The `cat` builtin: prints the contents of the named files. Choosing
//! which names to read is verified here; reading them is the process
//! owner's part.

use super::Command;
use crate::text::trim;
use crate::text::trim_spec;
use vstd::prelude::*;

verus! {

/// The `cat` builtin.
#[derive(Clone, Copy, Debug, PartialEq, Eq, Structural)]
pub struct Cat;

impl Command for Cat {
    open spec fn name_spec(&self) -> Seq<char> {
        "cat"@
    }

    fn name(&self) -> (r: String) {
        "cat".to_owned()
    }
}

/// The file names `cat` will read, in order: each argument token trimmed,
/// with the tokens that trim to nothing dropped.
pub open spec fn cat_files_spec(args: Seq<Seq<char>>) -> Seq<Seq<char>>
    decreases args.len(),
{
    if args.len() == 0 {
        Seq::empty()
    } else {
        let rest = cat_files_spec(args.drop_last());
        let t = trim_spec(args.last());
        if t.len() == 0 {
            rest
        } else {
            rest + seq![t]
        }
    }
}

impl Cat {
    /// The trimmed, non-blank file names among the argument tokens.
    #[verifier::loop_isolation(false)]
    pub fn files(&self, args: &Vec<String>) -> (r: Vec<String>)
        ensures
            r.deep_view() == cat_files_spec(args.deep_view()),
    {
        let ghost dv = args.deep_view();
        let mut r: Vec<String> = Vec::new();
        let mut i: usize = 0;
        proof {
            assert(dv.take(0) =~= Seq::<Seq<char>>::empty());
            assert(r.deep_view() =~= cat_files_spec(dv.take(0)));
        }
        while i < args.len()
            invariant
                0 <= i <= args@.len(),
                r.deep_view() == cat_files_spec(dv.take(i as int)),
            decreases args@.len() - i,
        {
            let ghost pre = r.deep_view();
            let t = trim(args[i].as_str());
            proof {
                assert(dv[i as int] == args@[i as int]@);
            }
            if !t.as_str().is_empty() {
                r.push(t);
                proof {
                    assert(r.deep_view() =~= pre + seq![trim_spec(dv[i as int])]);
                }
            }
            i = i + 1;
            proof {
                assert(dv.take(i as int).drop_last() =~= dv.take(i - 1));
                assert(dv.take(i as int).last() == dv[i - 1]);
            }
        }
        proof {
            assert(dv.take(args@.len() as int) =~= dv);
        }
        r
    }
}

} // verus!
