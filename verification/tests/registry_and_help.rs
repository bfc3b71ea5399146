//! The registry: registration and shadowing, enumeration, tag grouping and
//! the help commands.

use dpm::{
    evaluate_string, register_builtin_commands, Command, CommandRegistry, Context, Handler,
    PrintCommand, SumCommand, Tag, Value,
};

#[test]
fn registering_twice_shadows_the_first() {
    let mut registry = CommandRegistry::new();
    registry.register_closure("twice", "first registration", Handler::Sum);
    registry.register_closure("twice", "second registration", Handler::Concat);

    let got = registry.get("twice").unwrap();
    assert_eq!(got.description, "second registration");
    assert!(matches!(got.handler, Handler::Concat));
    assert_eq!(registry.list_commands().len(), 1);
}

#[test]
fn get_returns_registered_command() {
    let mut registry = CommandRegistry::new();
    registry.register(SumCommand.command());
    assert!(registry.get("sum").is_some());
    assert!(registry.get("missing").is_none());
    assert_eq!(registry.get("sum").unwrap().name, "sum");
}

#[test]
fn list_commands_in_registration_order() {
    let mut registry = CommandRegistry::new();
    registry.register(PrintCommand.command());
    registry.register(SumCommand.command());
    assert_eq!(registry.list_commands(), vec!["print".to_string(), "sum".to_string()]);
}

#[test]
fn descriptions_and_help_rows() {
    let mut registry = CommandRegistry::new();
    registry.register(SumCommand.command());
    let rows = registry.get_commands_with_descriptions();
    assert_eq!(rows, vec![("sum".to_string(), "Sum a list of integers".to_string())]);
    let help = registry.get_commands_with_help();
    assert_eq!(help.len(), 1);
    assert_eq!(help[0].2, "(sum number1 number2 ...)");
}

#[test]
fn grouping_orders_tags_and_names() {
    let mut registry = CommandRegistry::new();
    let late = Tag::new("zeta", 50, "Zeta Commands");
    let early = Tag::new("alpha", 1, "Alpha Commands");
    registry.register(Command {
        name: "zz",
        description: "d1",
        syntax: "s1",
        examples: "e1",
        tag: late,
        handler: Handler::Sum,
    });
    registry.register(Command {
        name: "aa",
        description: "d2",
        syntax: "s2",
        examples: "e2",
        tag: early,
        handler: Handler::Sum,
    });
    registry.register(Command {
        name: "mm",
        description: "d3",
        syntax: "s3",
        examples: "e3",
        tag: late,
        handler: Handler::Sum,
    });

    let groups = registry.get_commands_grouped_by_tags();
    assert_eq!(groups.len(), 2);
    // Tags ordered by declared sort order.
    assert_eq!(groups[0].0.name, "alpha");
    assert_eq!(groups[1].0.name, "zeta");
    // Commands sharing a tag appear together, alphabetically by name.
    assert_eq!(groups[0].1, vec![("aa".to_string(), "d2".to_string())]);
    assert_eq!(
        groups[1].1,
        vec![("mm".to_string(), "d3".to_string()), ("zz".to_string(), "d1".to_string())]
    );

    let with_help = registry.get_commands_grouped_by_tags_with_help();
    assert_eq!(with_help.len(), 2);
    assert_eq!(with_help[1].1[0].0, "mm");
    assert_eq!(with_help[1].1[0].2, "s3");
}

#[test]
fn builtin_grouping_places_management_before_core() {
    let mut registry = CommandRegistry::new();
    register_builtin_commands(&mut registry);
    let groups = registry.get_commands_grouped_by_tags();
    assert_eq!(groups.len(), 2);
    assert_eq!(groups[0].0.name, "commands");
    assert_eq!(groups[1].0.name, "core");
    let core_names: Vec<&str> = groups[1].1.iter().map(|p| p.0.as_str()).collect();
    let mut sorted = core_names.clone();
    sorted.sort();
    assert_eq!(core_names, sorted);
}

#[test]
fn help_lists_commands_under_their_tags() {
    let mut registry = CommandRegistry::new();
    register_builtin_commands(&mut registry);
    let mut ctx = Context::new(registry);

    let out = evaluate_string("(help)", &mut ctx).unwrap();
    let text = match out {
        Value::Str(s) => s,
        other => panic!("expected text, got {:?}", other),
    };
    assert!(text.starts_with("Available commands:\n\n"));
    assert!(text.contains("=== Command Management ==="));
    assert!(text.contains("=== Core Commands ==="));
    assert!(text.contains("  sum          - Sum a list of integers\n"));
    assert!(text.contains("Use (help \"command-name\") for detailed help"));
}

#[test]
fn detailed_help_for_one_command() {
    let mut registry = CommandRegistry::new();
    register_builtin_commands(&mut registry);
    let mut ctx = Context::new(registry);

    let out = evaluate_string("(help \"sum\")", &mut ctx).unwrap();
    let text = out.to_string();
    assert!(text.contains("=== DETAILED HELP FOR 'sum' ==="));
    assert!(text.contains("Syntax: (sum number1 number2 ...)"));

    let err = evaluate_string("(help \"nothing\")", &mut ctx).unwrap_err();
    assert_eq!(err, "Command 'nothing' not found");

    let err = evaluate_string("(help \"a\" \"b\")", &mut ctx).unwrap_err();
    assert_eq!(err, "help expects at most one argument");
}

#[test]
fn long_help_covers_every_command() {
    let mut registry = CommandRegistry::new();
    register_builtin_commands(&mut registry);
    let names = registry.list_commands();
    let mut ctx = Context::new(registry);
    let out = evaluate_string("(help-long)", &mut ctx).unwrap().to_string();
    assert!(out.starts_with("=== DETAILED COMMAND REFERENCE ===\n\n"));
    for name in names {
        assert!(out.contains(&format!("Command: {}\n", name)));
    }
    assert!(out.contains("=== GENERAL USAGE ==="));
    assert_eq!(
        evaluate_string("(help-long 1)", &mut ctx).unwrap_err(),
        "help-long expects no arguments"
    );
}

#[test]
fn grouping_files_each_command_exactly_once() {
    let mut registry = CommandRegistry::new();
    register_builtin_commands(&mut registry);
    let names = registry.list_commands();
    let groups = registry.get_commands_grouped_by_tags();
    // No group is empty, and the groups together hold exactly the
    // registered commands, each exactly once.
    let mut filed: Vec<String> = Vec::new();
    for (_, rows) in &groups {
        assert!(!rows.is_empty());
        for (name, _) in rows {
            assert!(!filed.contains(name));
            filed.push(name.clone());
        }
    }
    assert_eq!(filed.len(), names.len());
    for name in &names {
        assert!(filed.contains(name));
    }
}
