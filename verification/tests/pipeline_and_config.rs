//! The command-line pipeline, the runtime configuration, the
//! container-runner configuration commands, and the directory digest.

use dpm::plan::{
    parse_pipeline, parse_pipeline_with_registry, Config, Operation, PlanCommand, Step,
    ExecutionPlan,
};
use dpm::{
    build_docker_config, compute_dir_md5, compute_version_updates, evaluate_string,
    register_builtin_commands, CommandRegistry, Context, EmojiCatalog, Value, VersionInfo,
};

fn fresh_context() -> Context {
    let mut registry = CommandRegistry::new();
    register_builtin_commands(&mut registry);
    Context::new(registry)
}

#[test]
fn test_build_docker_config_defaults() {
    let ctx = fresh_context();
    let config = build_docker_config(&ctx);
    assert_eq!(config.compose_args, vec!["compose", "run", "--rm", "--no-deps", "-T"]);
    assert_eq!(config.make_args, vec!["make", "make"]);
    assert_eq!(config.socket_path, None);
    assert!(config.pre_commands.is_empty());
    assert!(config.post_commands.is_empty());
}

#[test]
fn test_docker_compose_args_command() {
    let mut ctx = fresh_context();
    let result = evaluate_string(
        "(docker-compose-args \"compose\" \"run\" \"--rm\")",
        &mut ctx,
    )
    .unwrap();
    assert_eq!(result, Value::Str("Docker Compose arguments configured".to_string()));
    let config = build_docker_config(&ctx);
    assert_eq!(config.compose_args, vec!["compose", "run", "--rm"]);
}

#[test]
fn test_docker_make_args_command() {
    let mut ctx = fresh_context();
    let result = evaluate_string("(docker-make-args \"npm\" \"run\" \"dev\")", &mut ctx).unwrap();
    assert_eq!(result, Value::Str("Docker make arguments configured".to_string()));
    let config = build_docker_config(&ctx);
    assert_eq!(config.make_args, vec!["npm", "run", "dev"]);
}

#[test]
fn test_docker_socket_command() {
    let mut ctx = fresh_context();
    let result = evaluate_string("(docker-socket \"/custom/docker.sock\")", &mut ctx).unwrap();
    assert_eq!(
        result,
        Value::Str("Docker socket path set to: /custom/docker.sock".to_string())
    );
    let config = build_docker_config(&ctx);
    assert_eq!(config.socket_path, Some("/custom/docker.sock".to_string()));
}

#[test]
fn test_docker_socket_command_invalid_args() {
    let mut ctx = fresh_context();
    let err = evaluate_string("(docker-socket \"/path1\" \"/path2\")", &mut ctx).unwrap_err();
    assert!(err.contains("requires exactly one argument"));
    let err = evaluate_string("(docker-socket 5)", &mut ctx).unwrap_err();
    assert_eq!(err, "docker-socket argument must be a string");
}

#[test]
fn test_docker_pre_post_multiple_commands() {
    let mut ctx = fresh_context();
    evaluate_string("(docker-pre \"mkdir\" \"-p\" \"logs\")", &mut ctx).unwrap();
    evaluate_string("(docker-pre \"echo\" \"Starting...\")", &mut ctx).unwrap();
    evaluate_string("(docker-post \"echo\" \"Completed\")", &mut ctx).unwrap();
    evaluate_string("(docker-post \"rm\" \"-rf\" \"temp\")", &mut ctx).unwrap();
    let config = build_docker_config(&ctx);
    assert_eq!(
        config.pre_commands,
        vec![vec!["mkdir", "-p", "logs"], vec!["echo", "Starting..."]]
    );
    assert_eq!(
        config.post_commands,
        vec![vec!["echo", "Completed"], vec!["rm", "-rf", "temp"]]
    );
}

#[test]
fn test_docker_reset_command() {
    let mut ctx = fresh_context();
    evaluate_string("(docker-compose-args \"custom\" \"compose\")", &mut ctx).unwrap();
    evaluate_string("(docker-socket \"/custom/socket\")", &mut ctx).unwrap();
    let result = evaluate_string("(docker-reset)", &mut ctx).unwrap();
    assert_eq!(result, Value::Str("Docker configuration reset to defaults".to_string()));
    let config = build_docker_config(&ctx);
    assert_eq!(config.compose_args, vec!["compose", "run", "--rm", "--no-deps", "-T"]);
    assert_eq!(config.socket_path, None);
    let err = evaluate_string("(docker-reset \"invalid\")", &mut ctx).unwrap_err();
    assert!(err.contains("takes no arguments"));
}

#[test]
fn test_docker_show_config_command() {
    let mut ctx = fresh_context();
    let out = evaluate_string("(docker-show-config)", &mut ctx).unwrap().to_string();
    assert!(out.contains("=== Docker Configuration ==="));
    assert!(out.contains("Compose args:"));
    assert!(out.contains("Make args:"));
    assert!(out.contains("Socket path:"));
    assert!(out.contains("\"compose\", \"run\", \"--rm\", \"--no-deps\", \"-T\""));
    let err = evaluate_string("(docker-show-config \"invalid\")", &mut ctx).unwrap_err();
    assert!(err.contains("takes no arguments"));
}

#[test]
fn test_build_docker_config_with_nil_values() {
    let mut ctx = fresh_context();
    ctx.set_variable(
        "docker_compose_args".to_string(),
        Value::List(vec![Value::Str("custom".to_string())]),
    );
    ctx.set_variable("docker_socket_path".to_string(), Value::Str("/custom".to_string()));
    let config = build_docker_config(&ctx);
    assert_eq!(config.compose_args, vec!["custom"]);
    assert_eq!(config.socket_path, Some("/custom".to_string()));

    ctx.set_variable("docker_compose_args".to_string(), Value::Nil);
    ctx.set_variable("docker_socket_path".to_string(), Value::Nil);
    let config = build_docker_config(&ctx);
    assert_eq!(config.compose_args, vec!["compose", "run", "--rm", "--no-deps", "-T"]);
    assert_eq!(config.socket_path, None);
}

#[test]
fn config_knows_its_variables() {
    let mut config = Config::new();
    assert_eq!(config.docker_dev_path().unwrap(), "./dev/docker");
    assert_eq!(config.versions_folder().unwrap(), "dev/docker_versions");
    config.set("DOCKER_DEV_PATH", "./elsewhere").unwrap();
    assert_eq!(config.get("DOCKER_DEV_PATH").unwrap(), "./elsewhere");
    let err = config.set("NO_SUCH_KEY", "x").unwrap_err();
    assert_eq!(err, "Unknown configuration variable: NO_SUCH_KEY");
    config.add_variable("EXTRA", "1");
    assert_eq!(config.get("EXTRA").unwrap(), "1");
    config.add_variable("EXTRA", "2");
    assert_eq!(config.get("EXTRA").unwrap(), "1");
}

#[test]
fn steps_parse_from_arguments() {
    let args: Vec<String> = ["clean", "force", "config", "A=B", "run", "x", "y"]
        .iter()
        .map(|s| s.to_string())
        .collect();
    let steps = parse_pipeline(args).unwrap();
    assert_eq!(steps.len(), 3);
    assert!(matches!(&steps[0], Step::Clean { force: true }));
    match &steps[1] {
        Step::Config { key, value } => {
            assert_eq!(key, "A");
            assert_eq!(value, "B");
        },
        other => panic!("expected a config step, got {:?}", other),
    }
    match &steps[2] {
        Step::Run { args } => assert_eq!(args, &vec!["x".to_string(), "y".to_string()]),
        other => panic!("expected a run step, got {:?}", other),
    }
}

#[test]
fn step_errors_name_the_problem() {
    let args: Vec<String> = ["config"].iter().map(|s| s.to_string()).collect();
    assert_eq!(
        parse_pipeline(args).unwrap_err(),
        "Config step requires key=value argument"
    );
    let args: Vec<String> = ["config", "broken"].iter().map(|s| s.to_string()).collect();
    assert_eq!(
        parse_pipeline(args).unwrap_err(),
        "Invalid config format: 'broken'. Expected key=value"
    );
    let args: Vec<String> = ["bogus"].iter().map(|s| s.to_string()).collect();
    assert_eq!(parse_pipeline(args).unwrap_err(), "Unknown command: 'bogus'");
    assert_eq!(
        parse_pipeline(Vec::new()).unwrap_err(),
        "No valid steps found in pipeline"
    );
}

#[test]
fn step_displays() {
    assert_eq!(Step::Clean { force: true }.display(), "clean --force");
    assert_eq!(
        Step::Config { key: "K".to_string(), value: "V".to_string() }.display(),
        "config K=V"
    );
    assert_eq!(
        Step::WriteEnv { output: "out.env".to_string() }.display(),
        "write-env --output out.env"
    );
    assert_eq!(Step::UpdateVersions.display(), "update-versions");
    assert_eq!(Step::Run { args: vec![] }.display(), "run");
    assert_eq!(
        Step::Run { args: vec!["a".to_string(), "b".to_string()] }.display(),
        "run a b"
    );
}

#[test]
fn pipeline_commands_parse_and_display() {
    let args: Vec<String> = ["write-env", "output", "o.env", "update-versions", "run"]
        .iter()
        .map(|s| s.to_string())
        .collect();
    let cmds = parse_pipeline_with_registry(args).unwrap();
    assert_eq!(cmds.len(), 3);
    assert!(matches!(cmds[0], PlanCommand::WriteEnv(_)));
    assert!(matches!(cmds[1], PlanCommand::UpdateVersions(_)));
    assert!(matches!(cmds[2], PlanCommand::Run(_)));
    assert_eq!(cmds[0].display(), "write_env");
    assert_eq!(cmds[0].name(), "write_env");
    assert!(!cmds[0].is_config_command());

    let args: Vec<String> = ["nonsense"].iter().map(|s| s.to_string()).collect();
    assert_eq!(
        parse_pipeline_with_registry(args).unwrap_err(),
        "Unknown command: nonsense"
    );
}

#[test]
fn execution_plan_bookkeeping() {
    let mut plan = ExecutionPlan::new(".env.docker".to_string(), None, vec![], false);
    assert!(!plan.has_operations());
    plan.add_operation(Operation::Config { key: "A".to_string(), value: "B".to_string() });
    plan.add_operation(Operation::Run);
    assert!(plan.has_operations());
    assert_eq!(plan.operation_names(), vec!["cfg(A=B)".to_string(), "run".to_string()]);
    assert!(plan.commands[0].is_config_command());
    let ctx = plan.create_execution_context();
    assert_eq!(ctx.input_env, ".env.docker");
    assert!(ctx.env_vars.is_none());
    assert_eq!(Operation::WriteEnv.name(), "write_env");
    assert_eq!(
        Operation::Config { key: "A".to_string(), value: "B".to_string() }.display(),
        "cfg(A=B)"
    );
}

#[test]
fn directory_digest_of_nothing() {
    // The digest of no files is the digest of the empty concatenation,
    // truncated to eight hex digits. A digest routine that handed its input
    // back unchanged would render as the empty string instead.
    let files: Vec<(String, Vec<u8>)> = Vec::new();
    assert_eq!(compute_dir_md5(&files), "d41d8cd9");
}

#[test]
fn directory_digest_depends_on_contents() {
    let one = vec![("a.txt".to_string(), b"initial content".to_vec())];
    let two = vec![("a.txt".to_string(), b"modified content".to_vec())];
    let d1 = compute_dir_md5(&one);
    let d2 = compute_dir_md5(&two);
    assert_eq!(d1.len(), 8);
    assert_eq!(d2.len(), 8);
    assert_ne!(d1, d2);
    assert_ne!(d1, "d41d8cd9");
    // The same contents digest the same.
    let again = vec![("a.txt".to_string(), b"initial content".to_vec())];
    assert_eq!(compute_dir_md5(&again), d1);
}

#[test]
fn emoji_catalog_messages() {
    assert!(EmojiCatalog::debug_enabled().contains("Debug printing enabled"));
    assert!(EmojiCatalog::debug_disabled().contains("Debug printing disabled"));
    assert_ne!(EmojiCatalog::status(true), EmojiCatalog::status(false));
}

#[test]
fn version_updates_advance_on_changed_checksums() {
    let existing = vec![
        ("APP_VERSION".to_string(), "3".to_string()),
        ("APP_CHECKSUM".to_string(), "aaaa".to_string()),
        ("DB".to_string(), "7.bbbb".to_string()),
    ];
    let versions = vec![
        (
            "APP".to_string(),
            VersionInfo {
                v_name: "APP".to_string(),
                real_name: "app".to_string(),
                checksum: "cccc".to_string(),
            },
        ),
        (
            "DB".to_string(),
            VersionInfo {
                v_name: "DB".to_string(),
                real_name: "db".to_string(),
                checksum: "bbbb".to_string(),
            },
        ),
        (
            "NEW".to_string(),
            VersionInfo {
                v_name: "NEW".to_string(),
                real_name: "new".to_string(),
                checksum: "dddd".to_string(),
            },
        ),
    ];
    let (updated, changes) = compute_version_updates(&existing, &versions);
    // APP changed: 3 -> 4. DB (old-form record) unchanged: stays 7.
    // NEW is fresh: starts at 1. Two changes in all.
    assert_eq!(changes, 2);
    let get = |k: &str| {
        updated
            .iter()
            .find(|p| p.0 == k)
            .map(|p| p.1.clone())
            .unwrap_or_default()
    };
    assert_eq!(get("APP_VERSION"), "4");
    assert_eq!(get("APP_CHECKSUM"), "cccc");
    assert_eq!(get("DB_VERSION"), "7");
    assert_eq!(get("DB_CHECKSUM"), "bbbb");
    assert_eq!(get("NEW_VERSION"), "1");
    assert_eq!(get("NEW_CHECKSUM"), "dddd");
}

#[test]
fn env_text_parses_bindings() {
    let text = "# header comment\nA=1\n  B = two \n\nnot-a-binding\n =no-key\nA=3\nC=x=y\n";
    let pairs = dpm::parse_env_text(text);
    assert_eq!(
        pairs,
        vec![
            ("A".to_string(), "3".to_string()),
            ("B".to_string(), "two".to_string()),
            ("C".to_string(), "x=y".to_string()),
        ]
    );
    assert_eq!(dpm::parse_env_text(""), Vec::<(String, String)>::new());
}
