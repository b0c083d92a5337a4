use rust_shell::command::{builtins, Cat, Cd, CmdType, Command, CommandType, Echo, Exit};
use rust_shell::command::cd::CdTarget;
use rust_shell::parser::{parse_line, Token};
use rust_shell::text::{parse_i32, render_usize, trim};
use rust_shell::{Dispatch, ShellContext};

fn strings(v: &[&str]) -> Vec<String> {
    v.iter().map(|s| s.to_string()).collect()
}

/// A token list of content tokens only, as a quoted line would yield.
fn content(v: &[&str]) -> Vec<Token> {
    v.iter()
        .map(|s| Token {
            text: s.to_string(),
            sep: false,
        })
        .collect()
}

#[test]
fn builtins_are_registered_in_order() {
    let names: Vec<String> = builtins().iter().map(|b| b.name()).collect();
    assert_eq!(names, strings(&["cat", "cd", "type", "echo", "exit", "pwd"]));
}

#[test]
fn every_builtin_classifies_itself_as_builtin() {
    for b in builtins() {
        assert_eq!(b.command_type(), CommandType::Builtin);
        assert!(b.is_built_in());
        assert!(!b.is_external());
        assert!(!b.is_unknown());
    }
}

#[test]
fn command_type_defaults_to_builtin() {
    assert_eq!(CommandType::default(), CommandType::Builtin);
}

#[test]
fn default_context_holds_the_same_registry() {
    let by_default = ShellContext::default();
    let by_new = ShellContext::new();
    let a: Vec<String> = by_default.commands.iter().map(|b| b.name()).collect();
    let b: Vec<String> = by_new.commands.iter().map(|b| b.name()).collect();
    assert_eq!(a, b);
}

#[test]
fn each_builtin_answers_to_its_name() {
    assert_eq!(Cat.name(), "cat");
    assert_eq!(Cd.name(), "cd");
    assert_eq!(CmdType.name(), "type");
    assert_eq!(Echo.name(), "echo");
    assert_eq!(Exit.name(), "exit");
    assert_eq!(rust_shell::command::Pwd.name(), "pwd");
}

#[test]
fn dispatching_echo_produces_its_line() {
    let ctx = ShellContext::new();
    let groups = content(&["echo", "hi"]);
    match ctx.dispatch(&groups) {
        Dispatch::Builtin { index, args } => {
            assert_eq!(ctx.commands[index].name(), "echo");
            assert_eq!(Echo.output(&args), "hi\n");
        }
        _ => panic!("echo must resolve to a builtin"),
    }
}

#[test]
fn dispatching_a_full_tokenized_line() {
    let ctx = ShellContext::new();
    let (groups, err) = parse_line("echo hi");
    assert!(err.is_none());
    match ctx.dispatch(&groups) {
        Dispatch::Builtin { index, args } => {
            assert_eq!(ctx.commands[index].name(), "echo");
            // the handler gets the content tokens after the name
            assert_eq!(args, strings(&["hi"]));
            assert_eq!(Echo.output(&args), "hi\n");
        }
        _ => panic!("echo must resolve to a builtin"),
    }
}

#[test]
fn a_line_of_only_spaces_is_a_no_op() {
    let ctx = ShellContext::new();
    let (groups, err) = parse_line("   ");
    assert!(err.is_none());
    // the separator marker alone carries no command: nothing is resolved
    assert!(matches!(ctx.dispatch(&groups), Dispatch::Empty));
}

#[test]
fn cd_through_the_dispatcher_gets_its_directory() {
    let ctx = ShellContext::new();
    let (groups, err) = parse_line("cd somedir");
    assert!(err.is_none());
    match ctx.dispatch(&groups) {
        Dispatch::Builtin { index, args } => {
            assert_eq!(ctx.commands[index].name(), "cd");
            assert_eq!(
                Cd.plan(&args),
                (CdTarget::Dir("somedir".to_string()), false)
            );
        }
        _ => panic!("cd must resolve to a builtin"),
    }
}

#[test]
fn a_space_argument_reaches_its_builtin() {
    let ctx = ShellContext::new();
    // a backslash-escaped space is a content token: it stays an argument
    let (groups, err) = parse_line("echo \\ ");
    assert!(err.is_none());
    match ctx.dispatch(&groups) {
        Dispatch::Builtin { index, args } => {
            assert_eq!(ctx.commands[index].name(), "echo");
            assert_eq!(args, strings(&[" "]));
            assert_eq!(Echo.output(&args), " \n");
        }
        _ => panic!("echo must resolve to a builtin"),
    }

    // a quoted space likewise
    let (groups, err) = parse_line("echo ' '");
    assert!(err.is_none());
    match ctx.dispatch(&groups) {
        Dispatch::Builtin { args, .. } => {
            assert_eq!(args, strings(&[" "]));
        }
        _ => panic!("echo must resolve to a builtin"),
    }
}

#[test]
fn exit_through_the_dispatcher_gets_its_status() {
    let ctx = ShellContext::new();
    let (groups, err) = parse_line("exit 5");
    assert!(err.is_none());
    match ctx.dispatch(&groups) {
        Dispatch::Builtin { index, args } => {
            assert_eq!(ctx.commands[index].name(), "exit");
            assert_eq!(Exit.exit_code(&args), 5);
        }
        _ => panic!("exit must resolve to a builtin"),
    }
}

#[test]
fn dispatching_an_unknown_name_spawns_nothing() {
    let ctx = ShellContext::new();
    let groups = content(&["nonexistent-cmd"]);
    match ctx.dispatch(&groups) {
        Dispatch::External { name, argv } => {
            // only a report: the caller searches the path and, finding no
            // file of this name, prints a "not found" style message
            assert_eq!(name, "nonexistent-cmd");
            assert_eq!(argv, strings(&["nonexistent-cmd"]));
        }
        _ => panic!("an unknown name must be handed to the path search"),
    }
}

#[test]
fn dispatching_nothing_is_a_no_op() {
    let ctx = ShellContext::new();
    let groups: Vec<Token> = Vec::new();
    assert!(matches!(ctx.dispatch(&groups), Dispatch::Empty));
}

#[test]
fn dispatch_trims_the_command_name() {
    let ctx = ShellContext::new();
    let groups = content(&[" echo ", "x"]);
    match ctx.dispatch(&groups) {
        Dispatch::Builtin { index, args } => {
            assert_eq!(ctx.commands[index].name(), "echo");
            assert_eq!(args, strings(&["x"]));
        }
        _ => panic!("a padded echo must still resolve to the builtin"),
    }
}

#[test]
fn echo_joins_its_arguments() {
    assert_eq!(Echo.output(&strings(&["hi"])), "hi\n");
    assert_eq!(Echo.output(&strings(&["a", "b"])), "a b\n");
    assert_eq!(Echo.output(&strings(&["a b", "c"])), "a b c\n");
    assert_eq!(Echo.output(&strings(&[])), "\n");
}

#[test]
fn exit_reads_its_status_from_the_first_argument() {
    assert_eq!(Exit.exit_code(&strings(&["5"])), 5);
    assert_eq!(Exit.exit_code(&strings(&["-3"])), -3);
    assert_eq!(Exit.exit_code(&strings(&["+7"])), 7);
    assert_eq!(Exit.exit_code(&strings(&[])), 0);
    assert_eq!(Exit.exit_code(&strings(&["x"])), 0);
    assert_eq!(Exit.exit_code(&strings(&["2147483647"])), 2147483647);
    assert_eq!(Exit.exit_code(&strings(&["-2147483648"])), -2147483648);
    // out of range for a 32-bit status: fall back to zero
    assert_eq!(Exit.exit_code(&strings(&["2147483648"])), 0);
    assert_eq!(Exit.exit_code(&strings(&["99999999999999999999"])), 0);
}

#[test]
fn cat_keeps_the_trimmed_non_blank_names() {
    let args = strings(&[" ", "  a.txt  ", " ", "b.txt", ""]);
    assert_eq!(Cat.files(&args), strings(&["a.txt", "b.txt"]));
}

#[test]
fn cd_picks_home_or_the_named_directory() {
    assert_eq!(Cd.plan(&strings(&[])), (CdTarget::Home, false));
    assert_eq!(Cd.plan(&strings(&["~"])), (CdTarget::Home, false));
    assert_eq!(
        Cd.plan(&strings(&[" /tmp "])),
        (CdTarget::Dir("/tmp".to_string()), false)
    );
    assert_eq!(
        Cd.plan(&strings(&["a", "b"])),
        (CdTarget::Dir("a".to_string()), true)
    );
}

#[test]
fn type_knows_the_builtin_names() {
    // every registered builtin, `cat` included, is reported as one
    for name in ["cat", "cd", "type", "echo", "exit", "pwd"] {
        assert!(CmdType.is_shell_builtin(&name.to_string()));
    }
    assert!(!CmdType.is_shell_builtin(&"ls".to_string()));
    assert!(!CmdType.is_shell_builtin(&"".to_string()));
    assert_eq!(
        CmdType.names(&strings(&[" ls ", "cd"])),
        strings(&["ls", "cd"])
    );
}

#[test]
fn trim_strips_blank_edges_only() {
    assert_eq!(trim("  a b  "), "a b");
    assert_eq!(trim("\t x \r\n"), "x");
    assert_eq!(trim("   "), "");
    assert_eq!(trim(""), "");
    assert_eq!(trim("inner"), "inner");
}

#[test]
fn render_usize_writes_decimal() {
    assert_eq!(render_usize(0), "0");
    assert_eq!(render_usize(7), "7");
    assert_eq!(render_usize(90210), "90210");
}

#[test]
fn parse_i32_accepts_signed_decimal_only() {
    assert_eq!(parse_i32("0"), Some(0));
    assert_eq!(parse_i32("-0"), Some(0));
    assert_eq!(parse_i32("123"), Some(123));
    assert_eq!(parse_i32("+123"), Some(123));
    assert_eq!(parse_i32("-123"), Some(-123));
    assert_eq!(parse_i32(""), None);
    assert_eq!(parse_i32("-"), None);
    assert_eq!(parse_i32("+"), None);
    assert_eq!(parse_i32(" 1"), None);
    assert_eq!(parse_i32("1 "), None);
    assert_eq!(parse_i32("12x"), None);
    assert_eq!(parse_i32("2147483647"), Some(i32::MAX));
    assert_eq!(parse_i32("2147483648"), None);
    assert_eq!(parse_i32("-2147483648"), Some(i32::MIN));
    assert_eq!(parse_i32("-2147483649"), None);
}
