//! The built-in commands and their common interface.
//!
//! Each builtin is a unit struct with a verified decision core: the part of
//! its behaviour that is a function from argument tokens to plain values
//! (what to print, which status to exit with, which directory to enter).
//! The effects themselves — printing, touching the file system, ending the
//! process — belong to the caller that owns the process.

pub mod cat;
pub mod cd;
pub mod cmd_type;
pub mod echo;
pub mod exit;
pub mod pwd;

pub use cat::Cat;
pub use cd::Cd;
pub use cmd_type::CmdType;
pub use echo::Echo;
pub use exit::Exit;
pub use pwd::Pwd;

use vstd::prelude::*;

verus! {

/// How a command name resolves: a builtin run in-process, an executable
/// found on the search path, or nothing known under that name.
#[derive(Debug, PartialEq, Eq, Structural)]
pub enum CommandType {
    Builtin,
    External,
    Unknown,
}

impl Default for CommandType {
    /// A registered command is a builtin unless it says otherwise.
    fn default() -> (r: Self)
        ensures
            r == CommandType::Builtin,
    {
        CommandType::Builtin
    }
}

/// A command of the shell: the name it is registered under and how it
/// classifies itself. Every command registered here is a builtin.
pub trait Command: Sized {
    /// The name this command answers to.
    spec fn name_spec(&self) -> Seq<char>;

    /// The name this command is registered under.
    fn name(&self) -> (r: String)
        ensures
            r@ == self.name_spec(),
    ;

    /// How this command classifies itself.
    fn command_type(&self) -> (r: CommandType)
        ensures
            r == CommandType::Builtin,
    {
        CommandType::default()
    }

    fn is_built_in(&self) -> (r: bool)
        ensures
            r,
    {
        self.command_type() == CommandType::Builtin
    }

    fn is_external(&self) -> (r: bool)
        ensures
            !r,
    {
        self.command_type() == CommandType::External
    }

    fn is_unknown(&self) -> (r: bool)
        ensures
            !r,
    {
        self.command_type() == CommandType::Unknown
    }
}

/// One entry of the registry: any of the six built-in commands.
#[derive(Clone, Copy, Debug, PartialEq, Eq, Structural)]
pub enum BuiltinCommand {
    Cat(Cat),
    Cd(Cd),
    CmdType(CmdType),
    Echo(Echo),
    Exit(Exit),
    Pwd(Pwd),
}

impl Command for BuiltinCommand {
    open spec fn name_spec(&self) -> Seq<char> {
        match self {
            BuiltinCommand::Cat(c) => c.name_spec(),
            BuiltinCommand::Cd(c) => c.name_spec(),
            BuiltinCommand::CmdType(c) => c.name_spec(),
            BuiltinCommand::Echo(c) => c.name_spec(),
            BuiltinCommand::Exit(c) => c.name_spec(),
            BuiltinCommand::Pwd(c) => c.name_spec(),
        }
    }

    fn name(&self) -> (r: String) {
        match self {
            BuiltinCommand::Cat(c) => c.name(),
            BuiltinCommand::Cd(c) => c.name(),
            BuiltinCommand::CmdType(c) => c.name(),
            BuiltinCommand::Echo(c) => c.name(),
            BuiltinCommand::Exit(c) => c.name(),
            BuiltinCommand::Pwd(c) => c.name(),
        }
    }
}

/// The fixed built-in set, in registration order.
pub open spec fn builtins_list() -> Seq<BuiltinCommand> {
    seq![
        BuiltinCommand::Cat(Cat),
        BuiltinCommand::Cd(Cd),
        BuiltinCommand::CmdType(CmdType),
        BuiltinCommand::Echo(Echo),
        BuiltinCommand::Exit(Exit),
        BuiltinCommand::Pwd(Pwd),
    ]
}

/// Builds the fixed built-in set, in registration order.
pub fn builtins() -> (r: Vec<BuiltinCommand>)
    ensures
        r@ == builtins_list(),
{
    let mut v: Vec<BuiltinCommand> = Vec::new();
    v.push(BuiltinCommand::Cat(Cat));
    v.push(BuiltinCommand::Cd(Cd));
    v.push(BuiltinCommand::CmdType(CmdType));
    v.push(BuiltinCommand::Echo(Echo));
    v.push(BuiltinCommand::Exit(Exit));
    v.push(BuiltinCommand::Pwd(Pwd));
    proof {
        assert(v@ =~= builtins_list());
    }
    v
}

/// The six registered names are pairwise distinct, so a registry built from
/// them resolves each name to at most one entry.
pub proof fn lemma_builtin_names_distinct()
    ensures
        forall|i: int, j: int|
            0 <= i < j < builtins_list().len() ==> builtins_list()[i].name_spec()
                != builtins_list()[j].name_spec(),
{
    reveal_strlit("cat");
    reveal_strlit("cd");
    reveal_strlit("type");
    reveal_strlit("echo");
    reveal_strlit("exit");
    reveal_strlit("pwd");
    assert forall|i: int, j: int|
        0 <= i < j < builtins_list().len() implies builtins_list()[i].name_spec()
        != builtins_list()[j].name_spec() by {
        let a = builtins_list()[i].name_spec();
        let b = builtins_list()[j].name_spec();
        if a.len() == b.len() {
            assert(a[0] != b[0] || a[1] != b[1]);
        }
    }
}

} // verus!
