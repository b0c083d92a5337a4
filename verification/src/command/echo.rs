//! The `echo` builtin: prints its argument tokens back, followed by a
//! newline.

use super::Command;
use crate::text::push_char;
use vstd::prelude::*;
use vstd::string::StringExecFns;

verus! {

/// The `echo` builtin.
#[derive(Clone, Copy, Debug, PartialEq, Eq, Structural)]
pub struct Echo;

impl Command for Echo {
    open spec fn name_spec(&self) -> Seq<char> {
        "echo"@
    }

    fn name(&self) -> (r: String) {
        "echo".to_owned()
    }
}

/// The given token texts joined in order, one space between neighbours.
pub open spec fn join_spaced(ts: Seq<Seq<char>>) -> Seq<char>
    decreases ts.len(),
{
    if ts.len() == 0 {
        Seq::empty()
    } else if ts.len() == 1 {
        ts[0]
    } else {
        join_spaced(ts.drop_last()) + seq![' '] + ts.last()
    }
}

/// What `echo` prints for its argument tokens (the content tokens after
/// the command name): the tokens joined with single spaces, ending in a
/// newline.
pub open spec fn echo_output_spec(args: Seq<Seq<char>>) -> Seq<char> {
    join_spaced(args) + seq!['\n']
}

impl Echo {
    /// The full output line for the given argument tokens.
    #[verifier::loop_isolation(false)]
    pub fn output(&self, args: &Vec<String>) -> (r: String)
        ensures
            r@ == echo_output_spec(args.deep_view()),
    {
        let ghost dv = args.deep_view();
        let mut r = String::new();
        let mut i: usize = 0;
        proof {
            assert(dv.take(0) =~= Seq::<Seq<char>>::empty());
            assert(r@ =~= join_spaced(dv.take(0)));
        }
        while i < args.len()
            invariant
                0 <= i <= args@.len(),
                r@ == join_spaced(dv.take(i as int)),
            decreases args@.len() - i,
        {
            let ghost pre = r@;
            if i > 0 {
                push_char(&mut r, ' ');
            }
            r.append(args[i].as_str());
            i = i + 1;
            proof {
                assert(dv[i - 1] == args@[i - 1]@);
                assert(dv.take(i as int).drop_last() =~= dv.take(i - 1));
                assert(dv.take(i as int).last() == dv[i - 1]);
                if i == 1 {
                    assert(pre =~= Seq::<char>::empty());
                    assert(r@ =~= dv[0]);
                    assert(dv.take(1)[0] == dv[0]);
                } else {
                    assert(r@ =~= (pre + seq![' ']) + dv[i - 1]);
                    assert((pre + seq![' ']) + dv[i - 1] =~= pre + seq![' '] + dv[i - 1]);
                }
            }
        }
        proof {
            assert(dv.take(args@.len() as int) =~= dv);
        }
        push_char(&mut r, '\n');
        r
    }
}

} // verus!
