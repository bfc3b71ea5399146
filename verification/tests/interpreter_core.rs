//! The value model and the evaluator: conversions, truthiness, rendering,
//! dispatch, and the built-in handlers.

use dpm::{
    bools_to_values, evaluate_string, register_builtin_commands, value_to_bool, value_to_int,
    value_to_list, value_to_string, CommandRegistry, Context, Value,
};

fn fresh_context() -> Context {
    let mut registry = CommandRegistry::new();
    register_builtin_commands(&mut registry);
    Context::new(registry)
}

#[test]
fn test_value_conversions() {
    let int_val = Value::Int(42);
    let ast_val = int_val.to_ast();
    let back_val = Value::from_ast(&ast_val);
    assert_eq!(int_val, back_val);

    let bool_true = Value::Bool(true);
    let ast_true = bool_true.to_ast();
    let back_true = Value::from_ast(&ast_true);
    assert_eq!(bool_true, back_true);

    let bool_false = Value::Bool(false);
    let ast_false = bool_false.to_ast();
    let back_false = Value::from_ast(&ast_false);
    assert_eq!(bool_false, back_false);
}

#[test]
fn round_trip_nested_lists() {
    let v = Value::List(vec![
        Value::Int(1),
        Value::Str("two".to_string()),
        Value::List(vec![Value::Bool(true), Value::Nil, Value::List(vec![])]),
    ]);
    let back = Value::from_ast(&v.to_ast());
    assert_eq!(v, back);
}

#[test]
fn test_basic_evaluation() {
    let mut ctx = fresh_context();
    let result = evaluate_string("(sum 1 2 3)", &mut ctx).unwrap();
    assert_eq!(result, Value::Int(6));
}

#[test]
fn test_boolean_functionality() {
    let bool_values = bools_to_values(vec![true, false, true]);
    assert_eq!(bool_values.len(), 3);
    assert_eq!(bool_values[0], Value::Bool(true));
    assert_eq!(bool_values[1], Value::Bool(false));
    assert_eq!(bool_values[2], Value::Bool(true));

    let true_val = Value::Bool(true);
    let false_val = Value::Bool(false);
    assert_eq!(value_to_bool(&true_val).unwrap(), true);
    assert_eq!(value_to_bool(&false_val).unwrap(), false);

    assert_eq!(true_val.is_truthy(), true);
    assert_eq!(false_val.is_truthy(), false);

    assert_eq!(true_val.to_string(), "true");
    assert_eq!(false_val.to_string(), "false");
}

#[test]
fn truthiness_rules() {
    assert!(!Value::Nil.is_truthy());
    assert!(!Value::Int(0).is_truthy());
    assert!(!Value::Bool(false).is_truthy());
    assert!(Value::Int(7).is_truthy());
    assert!(Value::Str(String::new()).is_truthy());
    assert!(Value::List(vec![]).is_truthy());
}

#[test]
fn rendering_values() {
    assert_eq!(Value::Bool(true).to_string(), "true");
    assert_eq!(Value::Nil.to_string(), "nil");
    assert_eq!(
        Value::List(vec![Value::Int(1), Value::Int(2)]).to_string(),
        "(1 2)"
    );
    assert_eq!(Value::Int(-17).to_string(), "-17");
    assert_eq!(Value::Int(i64::MIN).to_string(), "-9223372036854775808");
    assert_eq!(
        Value::List(vec![Value::Str("a".to_string()), Value::Nil]).to_string(),
        "(a nil)"
    );
}

#[test]
fn conversion_errors_name_the_value() {
    assert_eq!(
        value_to_int(&Value::Str("x".to_string())).unwrap_err(),
        "Expected integer, got: x"
    );
    assert_eq!(value_to_string(&Value::Int(9)).unwrap_err(), "Expected string, got: 9");
    assert_eq!(value_to_list(&Value::Nil).unwrap_err(), "Expected list, got: nil");
    assert_eq!(value_to_bool(&Value::Int(1)).unwrap_err(), "Expected boolean, got: 1");
    assert_eq!(value_to_list(&Value::List(vec![Value::Int(3)])).unwrap(), vec![Value::Int(3)]);
}

#[test]
fn test_print_command() {
    let mut ctx = fresh_context();
    let result = evaluate_string("(print \"Hello\" \"World\")", &mut ctx).unwrap();
    assert_eq!(result, Value::Str("Hello World".to_string()));
}

#[test]
fn test_debug_command() {
    let mut ctx = fresh_context();

    let result = evaluate_string("(debug \"true\")", &mut ctx).unwrap();
    assert_eq!(result, Value::Str("Debug printing enabled".to_string()));
    assert_eq!(ctx.get_debug_print(), true);

    let result = evaluate_string("(debug \"false\")", &mut ctx).unwrap();
    assert_eq!(result, Value::Str("Debug printing disabled".to_string()));
    assert_eq!(ctx.get_debug_print(), false);

    let result = evaluate_string("(debug \"TRUE\")", &mut ctx).unwrap();
    assert_eq!(result, Value::Str("Debug printing enabled".to_string()));

    let result = evaluate_string("(debug \"False\")", &mut ctx).unwrap();
    assert_eq!(result, Value::Str("Debug printing disabled".to_string()));

    ctx.set_variable("testVar".to_string(), Value::Int(42));
    let result = evaluate_string("(debug)", &mut ctx).unwrap();
    assert!(result.to_string().contains("testVar = 42"));
    assert!(result.to_string().contains("debugPrint = false"));

    let error_result = evaluate_string("(debug \"invalid\")", &mut ctx);
    assert!(error_result.is_err());
    assert!(error_result.unwrap_err().contains("must be 'true' or 'false'"));

    let error_result = evaluate_string("(debug \"true\" \"extra\")", &mut ctx);
    assert!(error_result.is_err());
    assert!(error_result.unwrap_err().contains("exactly one argument"));
}

#[test]
fn unknown_command_names_the_head() {
    let mut ctx = fresh_context();
    let result = evaluate_string("(nope 1)", &mut ctx);
    assert!(result.is_err());
    let msg = result.unwrap_err();
    assert_eq!(msg, "Unknown command: nope");
    assert!(msg.contains("nope"));
}

#[test]
fn nested_calls_evaluate_depth_first() {
    let mut ctx = fresh_context();
    let result = evaluate_string("(sum 1 (multiply 2 3) (sum 4 5))", &mut ctx).unwrap();
    assert_eq!(result, Value::Int(16));
}

#[test]
fn sum_accepts_lists_and_rejects_text() {
    let mut ctx = fresh_context();
    assert_eq!(
        evaluate_string("(sum 1 (list 2 3) 4)", &mut ctx).unwrap(),
        Value::Int(10)
    );
    let err = evaluate_string("(sum 1 \"x\")", &mut ctx).unwrap_err();
    assert_eq!(err, "Cannot sum non-integer value: x");
}

#[test]
fn multiply_arity_and_types() {
    let mut ctx = fresh_context();
    assert_eq!(evaluate_string("(multiply 6 7)", &mut ctx).unwrap(), Value::Int(42));
    assert_eq!(
        evaluate_string("(multiply 1 2 3)", &mut ctx).unwrap_err(),
        "multiply expects exactly 2 arguments"
    );
    assert_eq!(
        evaluate_string("(multiply 1 \"b\")", &mut ctx).unwrap_err(),
        "Expected integer, got: b"
    );
}

#[test]
fn concat_joins_renderings() {
    let mut ctx = fresh_context();
    assert_eq!(
        evaluate_string("(concat \"A\" \"B\" \"C\")", &mut ctx).unwrap(),
        Value::Str("ABC".to_string())
    );
    assert_eq!(
        evaluate_string("(concat \"n=\" 42)", &mut ctx).unwrap(),
        Value::Str("n=42".to_string())
    );
}

#[test]
fn list_commands_build_and_split() {
    let mut ctx = fresh_context();
    assert_eq!(
        evaluate_string("(list 1 2 3)", &mut ctx).unwrap(),
        Value::List(vec![Value::Int(1), Value::Int(2), Value::Int(3)])
    );
    assert_eq!(evaluate_string("(list-first (list 1 2 3))", &mut ctx).unwrap(), Value::Int(1));
    assert_eq!(
        evaluate_string("(list-rest (list 1 2 3))", &mut ctx).unwrap(),
        Value::List(vec![Value::Int(2), Value::Int(3)])
    );
    assert_eq!(evaluate_string("(list-first (list))", &mut ctx).unwrap(), Value::Nil);
    assert_eq!(
        evaluate_string("(list-first 5)", &mut ctx).unwrap_err(),
        "first expects a list argument"
    );
    assert_eq!(
        evaluate_string("(list-rest 5)", &mut ctx).unwrap_err(),
        "rest expects a list argument"
    );
}

#[test]
fn evaluation_keeps_last_result_and_side_effects() {
    let mut ctx = fresh_context();
    let result = evaluate_string(
        "(set-var \"a\" \"1\") (set-var \"b\" \"2\") (sum 5 6)",
        &mut ctx,
    )
    .unwrap();
    assert_eq!(result, Value::Int(11));
    assert_eq!(ctx.get_variable("a"), Some(&Value::Str("1".to_string())));
    assert_eq!(ctx.get_variable("b"), Some(&Value::Str("2".to_string())));
}

#[test]
fn failure_aborts_remaining_expressions() {
    let mut ctx = fresh_context();
    let result = evaluate_string("(set-var \"a\" \"1\") (nope) (set-var \"b\" \"2\")", &mut ctx);
    assert!(result.is_err());
    assert_eq!(ctx.get_variable("a"), Some(&Value::Str("1".to_string())));
    assert_eq!(ctx.get_variable("b"), None);
}

#[test]
fn head_must_be_a_symbol() {
    let mut ctx = fresh_context();
    let err = evaluate_string("(1 2 3)", &mut ctx).unwrap_err();
    assert_eq!(err, "First element of list must be a command name");
}

#[test]
fn pipe_behavior() {
    let mut ctx = fresh_context();
    // All arguments are evaluated first; a nonempty list value fails the
    // re-evaluation head check, since converted values carry no symbols.
    assert_eq!(evaluate_string("(pipe)", &mut ctx).unwrap(), Value::Nil);
    assert_eq!(evaluate_string("(pipe 7 (list))", &mut ctx).unwrap(), Value::Int(7));
    assert_eq!(
        evaluate_string("(pipe 7 3)", &mut ctx).unwrap_err(),
        "Pipe arguments must be command lists"
    );
    assert_eq!(
        evaluate_string("(pipe 7 (list 1 2))", &mut ctx).unwrap_err(),
        "First element of list must be a command name"
    );
}

#[test]
fn get_basedir_reads_the_context() {
    let mut ctx = fresh_context();
    assert_eq!(evaluate_string("(get-basedir)", &mut ctx).unwrap(), Value::Str(".".to_string()));
    ctx.set_basedir("/tmp/work".to_string());
    assert_eq!(
        evaluate_string("(get-basedir)", &mut ctx).unwrap(),
        Value::Str("/tmp/work".to_string())
    );
}

#[test]
fn sum_wraps_on_overflow() {
    let mut ctx = fresh_context();
    let result = evaluate_string("(sum 9223372036854775807 1)", &mut ctx).unwrap();
    assert_eq!(result, Value::Int(i64::MIN));
}

#[test]
fn test_interpolate_variables_simple() {
    let registry = CommandRegistry::new();
    let mut ctx = Context::new(registry);
    ctx.set_variable("NAME".to_string(), Value::Str("test".to_string()));

    let result = dpm::interpolate_variables("Hello ${NAME}!", &ctx).unwrap();
    assert_eq!(result, "Hello test!");
}

#[test]
fn test_interpolate_variables_nested() {
    let registry = CommandRegistry::new();
    let mut ctx = Context::new(registry);
    ctx.set_variable("PREFIX".to_string(), Value::Str("app".to_string()));
    ctx.set_variable("SUFFIX".to_string(), Value::Str("${PREFIX}_config".to_string()));

    // With single-pass interpolation, nested references are not resolved.
    let result = dpm::interpolate_variables("File: ${SUFFIX}.json", &ctx).unwrap();
    assert_eq!(result, "File: ${PREFIX}_config.json");
}

#[test]
fn test_interpolate_variables_single_pass() {
    let registry = CommandRegistry::new();
    let mut ctx = Context::new(registry);
    ctx.set_variable("A".to_string(), Value::Str("${B}".to_string()));
    ctx.set_variable("B".to_string(), Value::Str("value_b".to_string()));

    // With single-pass interpolation, A resolves to "${B}" (not "value_b").
    let result = dpm::interpolate_variables("${A}", &ctx).unwrap();
    assert_eq!(result, "${B}");
}

#[test]
fn set_var_interpolates_references() {
    let mut ctx = fresh_context();
    evaluate_string("(set-var \"b\" \"x\")", &mut ctx).unwrap();
    let result = evaluate_string("(set-var \"a\" \"${b}\")", &mut ctx).unwrap();
    assert_eq!(result, Value::Str("Variable 'a' set to 'x'".to_string()));
    assert_eq!(ctx.get_variable("a"), Some(&Value::Str("x".to_string())));
    // An unknown reference stays verbatim.
    evaluate_string("(set-var \"c\" \"keep ${missing} here\")", &mut ctx).unwrap();
    assert_eq!(
        ctx.get_variable("c"),
        Some(&Value::Str("keep ${missing} here".to_string()))
    );
}

#[test]
fn set_var_falls_back_to_the_environment_table() {
    let mut ctx = fresh_context();
    ctx.set_environment(vec![("HOMEBASE".to_string(), "/srv".to_string())]);
    evaluate_string("(set-var \"p\" \"${HOMEBASE}/data\")", &mut ctx).unwrap();
    assert_eq!(ctx.get_variable("p"), Some(&Value::Str("/srv/data".to_string())));
    // A session variable of the same name wins over the environment entry.
    evaluate_string("(set-var \"HOMEBASE\" \"/home\")", &mut ctx).unwrap();
    evaluate_string("(set-var \"q\" \"${HOMEBASE}\")", &mut ctx).unwrap();
    assert_eq!(ctx.get_variable("q"), Some(&Value::Str("/home".to_string())));
}

#[test]
fn interpolation_renders_non_string_variables() {
    let registry = CommandRegistry::new();
    let mut ctx = Context::new(registry);
    ctx.set_variable("N".to_string(), Value::Int(42));
    let result = dpm::interpolate_variables("n=${N}", &ctx).unwrap();
    assert_eq!(result, "n=42");
    // An empty reference is no reference.
    let result = dpm::interpolate_variables("${} $ {N}", &ctx).unwrap();
    assert_eq!(result, "${} $ {N}");
}

#[test]
fn printing_commands_log_their_output() {
    let mut ctx = fresh_context();
    evaluate_string("(print \"a\" \"b\") (print 7)", &mut ctx).unwrap();
    assert_eq!(
        ctx.take_output(),
        vec!["a b\n".to_string(), "7\n".to_string()]
    );
    // Taking the output clears the log.
    assert_eq!(ctx.take_output(), Vec::<String>::new());
    evaluate_string("(debug \"true\")", &mut ctx).unwrap();
    let logged = ctx.take_output();
    assert_eq!(logged.len(), 1);
    assert!(logged[0].contains("Debug printing enabled"));
    evaluate_string("(help \"sum\")", &mut ctx).unwrap();
    let logged = ctx.take_output();
    assert_eq!(logged.len(), 1);
    assert!(logged[0].contains("=== DETAILED HELP FOR 'sum' ==="));
}
