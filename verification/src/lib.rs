//! A small interactive-shell core: a quoting/escaping line tokenizer, a
//! registry of built-in commands, and a dispatcher that resolves the first
//! token of a line against that registry.
//!
//! The tokenizer and the dispatch decisions are verified; reading input,
//! spawning processes and every other effect live outside this crate and
//! consume the plain values produced here.

pub mod command;
pub mod parser;
pub mod text;

use crate::command::builtins;
use crate::command::builtins_list;
use crate::command::BuiltinCommand;
use crate::command::Command;
use crate::parser::Token;
use crate::text::trim;
use crate::text::trim_spec;
use vstd::prelude::*;

verus! {

/// The state owned by one shell session: the registry of built-in
/// commands, built once at session start and read-only afterwards.
pub struct ShellContext {
    pub commands: Vec<BuiltinCommand>,
}

/// What one tokenized line resolves to. Running the chosen command — the
/// printing, spawning and waiting — is the caller's part; this value is
/// the whole decision.
pub enum Dispatch {
    /// No content tokens: nothing to do.
    Empty,
    /// The command is the builtin at `index` in the registry; `args` are
    /// the content tokens after the command name.
    Builtin { index: usize, args: Vec<String> },
    /// No builtin answers to `name`: search the path for it and, if found,
    /// spawn it with the full original token list `argv`.
    External { name: String, argv: Vec<String> },
}

/// The texts of the content tokens of a tokenized line: the separator
/// markers dropped — by their marker flag, never by their text, so an
/// escaped or quoted space stays an argument — everything else kept in
/// order.
pub open spec fn content_tokens(ts: Seq<(Seq<char>, bool)>) -> Seq<Seq<char>>
    decreases ts.len(),
{
    if ts.len() == 0 {
        Seq::empty()
    } else {
        let rest = content_tokens(ts.drop_last());
        if ts.last().1 {
            rest
        } else {
            rest + seq![ts.last().0]
        }
    }
}

/// The texts of all tokens of a line, separator markers included, in
/// order: what an external command receives as its argument vector.
pub open spec fn token_texts(ts: Seq<(Seq<char>, bool)>) -> Seq<Seq<char>> {
    ts.map_values(|p: (Seq<char>, bool)| p.0)
}

impl Default for ShellContext {
    /// The same registry `new` builds: the fixed built-in set.
    fn default() -> (r: Self)
        ensures
            r.wf(),
            r.commands@ == builtins_list(),
    {
        Self::new()
    }
}

impl ShellContext {
    /// Every registered name is distinct, so a lookup has at most one
    /// answer.
    pub open spec fn wf(&self) -> bool {
        forall|i: int, j: int|
            0 <= i < j < self.commands@.len() ==> self.commands@[i].name_spec()
                != self.commands@[j].name_spec()
    }

    /// True when some registry entry carries the given name.
    pub open spec fn has_builtin(&self, name: Seq<char>) -> bool {
        exists|i: int| 0 <= i < self.commands@.len() && self.commands@[i].name_spec() == name
    }

    /// Builds the registry from the fixed built-in set, one entry per
    /// command.
    pub fn new() -> (r: Self)
        ensures
            r.wf(),
            r.commands@ == builtins_list(),
    {
        let r = ShellContext { commands: builtins() };
        proof {
            command::lemma_builtin_names_distinct();
        }
        r
    }

    /// Resolves one tokenized line: nothing when no content token is left
    /// once the separator markers are dropped; the matching registry entry
    /// with the content tokens after the name for a builtin; otherwise the
    /// trimmed command name with the full original token list, to be
    /// looked up on the search path.
    #[verifier::loop_isolation(false)]
    pub fn dispatch(&self, groups: &Vec<Token>) -> (d: Dispatch)
        ensures
            match d {
                Dispatch::Empty => content_tokens(groups.deep_view()).len() == 0,
                Dispatch::Builtin { index, args } => {
                    &&& content_tokens(groups.deep_view()).len() > 0
                    &&& index < self.commands@.len()
                    &&& self.commands@[index as int].name_spec() == trim_spec(
                        content_tokens(groups.deep_view())[0],
                    )
                    &&& args.deep_view() == content_tokens(groups.deep_view()).drop_first()
                },
                Dispatch::External { name, argv } => {
                    &&& content_tokens(groups.deep_view()).len() > 0
                    &&& name@ == trim_spec(content_tokens(groups.deep_view())[0])
                    &&& !self.has_builtin(trim_spec(content_tokens(groups.deep_view())[0]))
                    &&& argv.deep_view() == token_texts(groups.deep_view())
                },
            },
            content_tokens(groups.deep_view()).len() == 0 <==> d is Empty,
            content_tokens(groups.deep_view()).len() > 0 && self.has_builtin(
                trim_spec(content_tokens(groups.deep_view())[0]),
            ) <==> d is Builtin,
    {
        let ghost dv = groups.deep_view();
        let mut content: Vec<String> = Vec::new();
        let mut i: usize = 0;
        proof {
            assert(dv.take(0) =~= Seq::<(Seq<char>, bool)>::empty());
            assert(content.deep_view() =~= content_tokens(dv.take(0)));
        }
        while i < groups.len()
            invariant
                0 <= i <= groups@.len(),
                content.deep_view() == content_tokens(dv.take(i as int)),
            decreases groups@.len() - i,
        {
            let ghost pre = content.deep_view();
            proof {
                assert(dv[i as int] == groups@[i as int].deep_view());
            }
            if !groups[i].sep {
                content.push(groups[i].text.clone());
                proof {
                    assert(content.deep_view() =~= pre + seq![dv[i as int].0]);
                }
            }
            i = i + 1;
            proof {
                assert(dv.take(i as int).drop_last() =~= dv.take(i - 1));
                assert(dv.take(i as int).last() == dv[i - 1]);
            }
        }
        proof {
            assert(dv.take(groups@.len() as int) =~= dv);
        }
        let ghost cv = content_tokens(dv);
        if content.len() == 0 {
            return Dispatch::Empty;
        }
        proof {
            assert(cv[0] == content@[0]@);
        }
        let name = trim(content[0].as_str());
        let mut k: usize = 0;
        while k < self.commands.len()
            invariant
                0 <= k <= self.commands@.len(),
                forall|j: int| 0 <= j < k ==> self.commands@[j].name_spec() != name@,
            decreases self.commands@.len() - k,
        {
            let entry_name = self.commands[k].name();
            if entry_name == name {
                let mut args: Vec<String> = Vec::new();
                let mut j: usize = 1;
                while j < content.len()
                    invariant
                        1 <= j <= content@.len(),
                        args.deep_view() == cv.subrange(1, j as int),
                        content.deep_view() == cv,
                    decreases content@.len() - j,
                {
                    let ghost pre = args.deep_view();
                    args.push(content[j].clone());
                    j = j + 1;
                    proof {
                        assert(content@[j - 1]@ == cv[j - 1]);
                        assert(args.deep_view() =~= pre.push(cv[j - 1]));
                        assert(args.deep_view() =~= cv.subrange(1, j as int));
                    }
                }
                proof {
                    assert(cv.subrange(1, content@.len() as int) =~= cv.drop_first());
                }
                return Dispatch::Builtin { index: k, args };
            }
            k = k + 1;
        }
        let mut argv: Vec<String> = Vec::new();
        let mut j: usize = 0;
        while j < groups.len()
            invariant
                0 <= j <= groups@.len(),
                argv.deep_view() == token_texts(dv.take(j as int)),
            decreases groups@.len() - j,
        {
            let ghost pre = argv.deep_view();
            argv.push(groups[j].text.clone());
            j = j + 1;
            proof {
                assert(dv[j - 1] == groups@[j - 1].deep_view());
                assert(argv.deep_view() =~= pre.push(dv[j - 1].0));
                assert(argv.deep_view() =~= token_texts(dv.take(j as int)));
            }
        }
        proof {
            assert(dv.take(groups@.len() as int) =~= dv);
        }
        Dispatch::External { name, argv }
    }
}

} // verus!
