//! An embedded S-expression command interpreter: a small Lisp-style front end
//! that parses textual expressions into syntax trees, represents runtime data
//! with a closed value model, and evaluates expressions by dispatching list
//! heads to named command handlers that share a mutable session context.

pub mod ast;
pub mod builtins;
pub mod context;
pub mod dockercfg;
pub mod emoji;
pub mod envfile;
pub mod eval;
pub mod hashing;
pub mod interp;
pub mod helptext;
pub mod parser;
pub mod plan;
pub mod registry;
pub mod strutil;
pub mod values;
pub mod versioning;

pub use ast::Ast;
pub use builtins::{
    register_builtin_commands, register_docker_config_commands, register_get_basedir_command,
    register_get_var_command, register_help_commands, register_list_commands,
    register_set_var_command, register_var_commands, ConcatCommand, DebugCommand, MultiplyCommand,
    PipeCommand, PrintCommand, SumCommand,
};
pub use context::{Context, VersionInfo};
pub use dockercfg::{build_docker_config, DockerCommandConfig};
pub use emoji::EmojiCatalog;
pub use eval::{evaluate, evaluate_string};
pub use hashing::compute_dir_md5;
pub use interp::interpolate_variables;
pub use envfile::parse_env_text;
pub use versioning::compute_version_updates;
pub use parser::{format_sexpr, parse_string, parse_string_normalized};
pub use registry::{Command, CommandRegistry, Handler, Tag};
pub use values::{
    bools_to_values, ints_to_values, strings_to_values, value_to_bool, value_to_int,
    value_to_list, value_to_string, Value,
};
