//! The variable commands: get-var and set-var, looked up through the
//! registry and executed against a session context.

use dpm::{register_get_var_command, register_set_var_command, register_var_commands};
use dpm::{CommandRegistry, Context, Value};

#[test]
fn test_get_var_command() {
    let mut registry = CommandRegistry::new();
    register_get_var_command(&mut registry);
    let mut ctx = Context::new(registry);

    ctx.set_variable("test_key".to_string(), Value::Str("test_value".to_string()));

    let args = vec![Value::Str("test_key".to_string())];
    let result = ctx.registry.get("get-var").unwrap().execute(args, &mut ctx).unwrap();

    assert_eq!(result, Value::Str("test_value".to_string()));
}

#[test]
fn test_get_var_not_found() {
    let mut registry = CommandRegistry::new();
    register_get_var_command(&mut registry);
    let mut ctx = Context::new(registry);

    let args = vec![Value::Str("nonexistent_key".to_string())];
    let result = ctx.registry.get("get-var").unwrap().execute(args, &mut ctx);

    assert!(result.is_err());
    assert_eq!(result.unwrap_err(), "Variable 'nonexistent_key' not found");
}

#[test]
fn test_get_var_wrong_arg_count() {
    let mut registry = CommandRegistry::new();
    register_get_var_command(&mut registry);
    let mut ctx = Context::new(registry);

    let args = vec![
        Value::Str("key1".to_string()),
        Value::Str("key2".to_string()),
    ];
    let result = ctx.registry.get("get-var").unwrap().execute(args, &mut ctx);

    assert!(result.is_err());
    assert_eq!(result.unwrap_err(), "get-var expects exactly one argument (key)");
}

#[test]
fn test_get_var_non_string_key() {
    let mut registry = CommandRegistry::new();
    register_get_var_command(&mut registry);
    let mut ctx = Context::new(registry);

    let args = vec![Value::Int(123)];
    let result = ctx.registry.get("get-var").unwrap().execute(args, &mut ctx);

    assert!(result.is_err());
    assert_eq!(result.unwrap_err(), "get-var key must be a string");
}

#[test]
fn test_get_var_different_value_types() {
    let mut registry = CommandRegistry::new();
    register_get_var_command(&mut registry);
    let mut ctx = Context::new(registry);

    ctx.set_variable("int_key".to_string(), Value::Int(42));
    let args = vec![Value::Str("int_key".to_string())];
    let result = ctx.registry.get("get-var").unwrap().execute(args, &mut ctx).unwrap();
    assert_eq!(result, Value::Int(42));

    ctx.set_variable(
        "list_key".to_string(),
        Value::List(vec![Value::Str("a".to_string()), Value::Str("b".to_string())]),
    );
    let args = vec![Value::Str("list_key".to_string())];
    let result = ctx.registry.get("get-var").unwrap().execute(args, &mut ctx).unwrap();
    assert_eq!(
        result,
        Value::List(vec![Value::Str("a".to_string()), Value::Str("b".to_string())])
    );
}

#[test]
fn test_set_var_command() {
    let mut registry = CommandRegistry::new();
    register_set_var_command(&mut registry);
    let mut ctx = Context::new(registry);

    let args = vec![
        Value::Str("test_key".to_string()),
        Value::Str("test_value".to_string()),
    ];
    let result = ctx.registry.get("set-var").unwrap().execute(args, &mut ctx).unwrap();

    assert_eq!(
        result,
        Value::Str("Variable 'test_key' set to 'test_value'".to_string())
    );

    assert_eq!(
        ctx.get_variable("test_key"),
        Some(&Value::Str("test_value".to_string()))
    );
}

#[test]
fn test_set_var_wrong_arg_count() {
    let mut registry = CommandRegistry::new();
    register_set_var_command(&mut registry);
    let mut ctx = Context::new(registry);

    let args = vec![Value::Str("only_one_arg".to_string())];
    let result = ctx.registry.get("set-var").unwrap().execute(args, &mut ctx);

    assert!(result.is_err());
    assert_eq!(
        result.unwrap_err(),
        "set-var expects exactly two arguments (key, value)"
    );
}

#[test]
fn test_set_var_non_string_args() {
    let mut registry = CommandRegistry::new();
    register_set_var_command(&mut registry);
    let mut ctx = Context::new(registry);

    let args = vec![Value::Int(123), Value::Str("value".to_string())];
    let result = ctx.registry.get("set-var").unwrap().execute(args, &mut ctx);

    assert!(result.is_err());
    assert_eq!(result.unwrap_err(), "set-var key must be a string");

    let args = vec![Value::Str("key".to_string()), Value::Int(456)];
    let result = ctx.registry.get("set-var").unwrap().execute(args, &mut ctx);

    assert!(result.is_err());
    assert_eq!(result.unwrap_err(), "set-var value must be a string");
}

#[test]
fn vars_test_get_var_command() {
    let mut registry = CommandRegistry::new();
    register_get_var_command(&mut registry);
    let mut ctx = Context::new(registry);

    ctx.set_variable("test_key".to_string(), Value::Str("test_value".to_string()));

    let args = vec![Value::Str("test_key".to_string())];
    let result = ctx.registry.get("get-var").unwrap().execute(args, &mut ctx).unwrap();

    assert_eq!(result, Value::Str("test_value".to_string()));
}

#[test]
fn vars_test_get_var_not_found() {
    let mut registry = CommandRegistry::new();
    register_get_var_command(&mut registry);
    let mut ctx = Context::new(registry);

    let args = vec![Value::Str("nonexistent_key".to_string())];
    let result = ctx.registry.get("get-var").unwrap().execute(args, &mut ctx);

    assert!(result.is_err());
    assert_eq!(result.unwrap_err(), "Variable 'nonexistent_key' not found");
}

#[test]
fn vars_test_get_var_wrong_arg_count() {
    let mut registry = CommandRegistry::new();
    register_get_var_command(&mut registry);
    let mut ctx = Context::new(registry);

    let args = vec![
        Value::Str("key1".to_string()),
        Value::Str("key2".to_string()),
    ];
    let result = ctx.registry.get("get-var").unwrap().execute(args, &mut ctx);

    assert!(result.is_err());
    assert_eq!(result.unwrap_err(), "get-var expects exactly one argument (key)");
}

#[test]
fn vars_test_get_var_non_string_key() {
    let mut registry = CommandRegistry::new();
    register_get_var_command(&mut registry);
    let mut ctx = Context::new(registry);

    let args = vec![Value::Int(123)];
    let result = ctx.registry.get("get-var").unwrap().execute(args, &mut ctx);

    assert!(result.is_err());
    assert_eq!(result.unwrap_err(), "get-var key must be a string");
}

#[test]
fn vars_test_get_var_different_value_types() {
    let mut registry = CommandRegistry::new();
    register_get_var_command(&mut registry);
    let mut ctx = Context::new(registry);

    ctx.set_variable("int_key".to_string(), Value::Int(42));
    let args = vec![Value::Str("int_key".to_string())];
    let result = ctx.registry.get("get-var").unwrap().execute(args, &mut ctx).unwrap();
    assert_eq!(result, Value::Int(42));

    ctx.set_variable(
        "list_key".to_string(),
        Value::List(vec![Value::Str("a".to_string()), Value::Str("b".to_string())]),
    );
    let args = vec![Value::Str("list_key".to_string())];
    let result = ctx.registry.get("get-var").unwrap().execute(args, &mut ctx).unwrap();
    assert_eq!(
        result,
        Value::List(vec![Value::Str("a".to_string()), Value::Str("b".to_string())])
    );
}

#[test]
fn vars_test_set_var_command() {
    let mut registry = CommandRegistry::new();
    register_set_var_command(&mut registry);
    let mut ctx = Context::new(registry);

    let args = vec![
        Value::Str("test_key".to_string()),
        Value::Str("test_value".to_string()),
    ];
    let result = ctx.registry.get("set-var").unwrap().execute(args, &mut ctx).unwrap();

    assert_eq!(
        result,
        Value::Str("Variable 'test_key' set to 'test_value'".to_string())
    );

    assert_eq!(
        ctx.get_variable("test_key"),
        Some(&Value::Str("test_value".to_string()))
    );
}

#[test]
fn vars_test_set_var_wrong_arg_count() {
    let mut registry = CommandRegistry::new();
    register_set_var_command(&mut registry);
    let mut ctx = Context::new(registry);

    let args = vec![Value::Str("only_one_arg".to_string())];
    let result = ctx.registry.get("set-var").unwrap().execute(args, &mut ctx);

    assert!(result.is_err());
    assert_eq!(
        result.unwrap_err(),
        "set-var expects exactly two arguments (key, value)"
    );
}

#[test]
fn vars_test_set_var_non_string_args() {
    let mut registry = CommandRegistry::new();
    register_set_var_command(&mut registry);
    let mut ctx = Context::new(registry);

    let args = vec![Value::Int(123), Value::Str("value".to_string())];
    let result = ctx.registry.get("set-var").unwrap().execute(args, &mut ctx);

    assert!(result.is_err());
    assert_eq!(result.unwrap_err(), "set-var key must be a string");

    let args = vec![Value::Str("key".to_string()), Value::Int(456)];
    let result = ctx.registry.get("set-var").unwrap().execute(args, &mut ctx);

    assert!(result.is_err());
    assert_eq!(result.unwrap_err(), "set-var value must be a string");
}

#[test]
fn test_register_var_commands() {
    let mut registry = CommandRegistry::new();
    register_var_commands(&mut registry);
    let mut ctx = Context::new(registry);

    assert!(ctx.registry.get("get-var").is_some());
    assert!(ctx.registry.get("set-var").is_some());

    let set_args = vec![
        Value::Str("test_key".to_string()),
        Value::Str("test_value".to_string()),
    ];
    ctx.registry.get("set-var").unwrap().execute(set_args, &mut ctx).unwrap();

    let get_args = vec![Value::Str("test_key".to_string())];
    let result = ctx.registry.get("get-var").unwrap().execute(get_args, &mut ctx).unwrap();

    assert_eq!(result, Value::Str("test_value".to_string()));
}
