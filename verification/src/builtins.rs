//! The built-in commands and their registration. Commands that perform
//! input/output (file access, subprocesses) are the embedding application's
//! affair and are not provided here.

use vstd::prelude::*;

use crate::registry::{
    commands_tag, core_tag, reg_insert, Command, CommandModel, CommandRegistry, Handler, TagModel,
};

verus! {

/// The model of the core tag.
pub open spec fn core_tag_model() -> TagModel {
    TagModel { name: "core"@, order: 1000u32, text: "Core Commands"@ }
}

/// The model of the command-management tag.
pub open spec fn commands_tag_model() -> TagModel {
    TagModel { name: "commands"@, order: 2u32, text: "Command Management"@ }
}

/// Sequential registration of a list of commands.
pub open spec fn registered_all(base: Seq<CommandModel>, cmds: Seq<CommandModel>) -> Seq<
    CommandModel,
>
    decreases cmds,
{
    if cmds.len() == 0 {
        base
    } else {
        reg_insert(registered_all(base, cmds.drop_last()), cmds.last())
    }
}

proof fn lemma_registered_none(base: Seq<CommandModel>)
    ensures
        registered_all(base, Seq::<CommandModel>::empty()) == base,
{
}

proof fn lemma_registered_snoc(base: Seq<CommandModel>, cmds: Seq<CommandModel>, c: CommandModel)
    ensures
        registered_all(base, cmds.push(c)) == reg_insert(registered_all(base, cmds), c),
{
    assert(cmds.push(c).drop_last() =~= cmds);
    assert(cmds.push(c).last() == c);
}

/// The print command: joins the rendered arguments with spaces. Displaying
/// the joined text is the embedding application's affair; the result value
/// carries it.
pub struct PrintCommand;

/// The model of the print command.
pub open spec fn print_command_model() -> CommandModel {
    CommandModel {
        name: "print"@,
        description: "Print arguments to stdout"@,
        syntax: "(print arg1 arg2 ...)"@,
        examples: "  (print \"Hello World\")\n  (print \"Sum is:\" (sum 1 2 3))"@,
        tag: core_tag_model(),
        handler: Handler::Print,
    }
}

impl PrintCommand {
    /// The registrable command.
    pub fn command(&self) -> (c: Command)
        ensures
            c@ == print_command_model(),
    {
        Command {
            name: "print",
            description: "Print arguments to stdout",
            syntax: "(print arg1 arg2 ...)",
            examples: "  (print \"Hello World\")\n  (print \"Sum is:\" (sum 1 2 3))",
            tag: core_tag(),
            handler: Handler::Print,
        }
    }
}

/// The sum command: sums integers and lists of integers.
pub struct SumCommand;

/// The model of the sum command.
pub open spec fn sum_command_model() -> CommandModel {
    CommandModel {
        name: "sum"@,
        description: "Sum a list of integers"@,
        syntax: "(sum number1 number2 ...)"@,
        examples: "  (sum 1 2 3)        ; Returns 6\n  (sum 10 20)        ; Returns 30"@,
        tag: core_tag_model(),
        handler: Handler::Sum,
    }
}

impl SumCommand {
    /// The registrable command.
    pub fn command(&self) -> (c: Command)
        ensures
            c@ == sum_command_model(),
    {
        Command {
            name: "sum",
            description: "Sum a list of integers",
            syntax: "(sum number1 number2 ...)",
            examples: "  (sum 1 2 3)        ; Returns 6\n  (sum 10 20)        ; Returns 30",
            tag: core_tag(),
            handler: Handler::Sum,
        }
    }
}

/// The multiply command: multiplies two integers.
pub struct MultiplyCommand;

/// The model of the multiply command.
pub open spec fn multiply_command_model() -> CommandModel {
    CommandModel {
        name: "multiply"@,
        description: "Multiply two numbers"@,
        syntax: "(multiply number1 number2)"@,
        examples: "  (multiply 6 7)      ; Returns 42\n  (multiply 3 4)      ; Returns 12"@,
        tag: core_tag_model(),
        handler: Handler::Multiply,
    }
}

impl MultiplyCommand {
    /// The registrable command.
    pub fn command(&self) -> (c: Command)
        ensures
            c@ == multiply_command_model(),
    {
        Command {
            name: "multiply",
            description: "Multiply two numbers",
            syntax: "(multiply number1 number2)",
            examples: "  (multiply 6 7)      ; Returns 42\n  (multiply 3 4)      ; Returns 12",
            tag: core_tag(),
            handler: Handler::Multiply,
        }
    }
}

/// The concat command: concatenates the rendered arguments.
pub struct ConcatCommand;

/// The model of the concat command.
pub open spec fn concat_command_model() -> CommandModel {
    CommandModel {
        name: "concat"@,
        description: "Concatenate strings"@,
        syntax: "(concat string1 string2 ...)"@,
        examples: "  (concat \"Hello\" \" \" \"World\") ; Returns \"Hello World\"\n  (concat \"A\" \"B\" \"C\")         ; Returns \"ABC\""@,
        tag: core_tag_model(),
        handler: Handler::Concat,
    }
}

impl ConcatCommand {
    /// The registrable command.
    pub fn command(&self) -> (c: Command)
        ensures
            c@ == concat_command_model(),
    {
        Command {
            name: "concat",
            description: "Concatenate strings",
            syntax: "(concat string1 string2 ...)",
            examples: "  (concat \"Hello\" \" \" \"World\") ; Returns \"Hello World\"\n  (concat \"A\" \"B\" \"C\")         ; Returns \"ABC\"",
            tag: core_tag(),
            handler: Handler::Concat,
        }
    }
}

/// The debug command: shows the session state, or sets the debug flag.
pub struct DebugCommand;

/// The model of the debug command.
pub open spec fn debug_command_model() -> CommandModel {
    CommandModel {
        name: "debug"@,
        description: "Print current program state or set debug printing true/false"@,
        syntax: "(debug) or (debug \"true\"|\"false\")"@,
        examples: "  (debug)          ; Print session variables\n  (debug \"true\")    ; Enable debug printing\n  (debug \"false\")   ; Disable debug printing"@,
        tag: core_tag_model(),
        handler: Handler::Debug,
    }
}

impl DebugCommand {
    /// The registrable command.
    pub fn command(&self) -> (c: Command)
        ensures
            c@ == debug_command_model(),
    {
        Command {
            name: "debug",
            description: "Print current program state or set debug printing true/false",
            syntax: "(debug) or (debug \"true\"|\"false\")",
            examples: "  (debug)          ; Print session variables\n  (debug \"true\")    ; Enable debug printing\n  (debug \"false\")   ; Disable debug printing",
            tag: core_tag(),
            handler: Handler::Debug,
        }
    }
}

/// The pipe command: threads a value through re-evaluated command lists. A
/// converted value never holds a symbol in head position, so the
/// re-evaluation of any nonempty command list fails the head check; empty
/// lists are skipped.
pub struct PipeCommand;

/// The model of the pipe command.
pub open spec fn pipe_command_model() -> CommandModel {
    CommandModel {
        name: "pipe"@,
        description: "Execute a pipeline of commands, passing results between them"@,
        syntax: "(pipe command1 command2 ...)"@,
        examples: "  (pipe (sum 1 2 3) (print \"Result:\"))"@,
        tag: core_tag_model(),
        handler: Handler::Pipe,
    }
}

impl PipeCommand {
    /// The registrable command.
    pub fn command(&self) -> (c: Command)
        ensures
            c@ == pipe_command_model(),
    {
        Command {
            name: "pipe",
            description: "Execute a pipeline of commands, passing results between them",
            syntax: "(pipe command1 command2 ...)",
            examples: "  (pipe (sum 1 2 3) (print \"Result:\"))",
            tag: core_tag(),
            handler: Handler::Pipe,
        }
    }
}

/// The model of the get-var command.
pub open spec fn get_var_command_model() -> CommandModel {
    CommandModel {
        name: "get-var"@,
        description: "Get a variable from the context with the given key"@,
        syntax: "(get-var key)"@,
        examples: "  (get-var \"name\")        ; Get variable 'name'\n  (get-var \"count\")       ; Get variable 'count'\n  (get-var \"path\")        ; Get variable 'path'"@,
        tag: commands_tag_model(),
        handler: Handler::GetVar,
    }
}

/// The model of the set-var command.
pub open spec fn set_var_command_model() -> CommandModel {
    CommandModel {
        name: "set-var"@,
        description: "Set a variable in the context with the given key and value"@,
        syntax: "(set-var key value)"@,
        examples: "  (set-var \"name\" \"John\")        ; Set variable 'name' to 'John'\n  (set-var \"count\" \"42\")         ; Set variable 'count' to '42'\n  (set-var \"path\" \"/home/user\")   ; Set variable 'path' to '/home/user'"@,
        tag: commands_tag_model(),
        handler: Handler::SetVar,
    }
}

/// Register the get-var command.
pub fn register_get_var_command(registry: &mut CommandRegistry)
    ensures
        final(registry)@ == reg_insert(old(registry)@, get_var_command_model()),
{
    registry.register_closure_with_help_and_tag(
        "get-var",
        "Get a variable from the context with the given key",
        "(get-var key)",
        "  (get-var \"name\")        ; Get variable 'name'\n  (get-var \"count\")       ; Get variable 'count'\n  (get-var \"path\")        ; Get variable 'path'",
        commands_tag(),
        Handler::GetVar,
    );
}

/// Register the set-var command.
pub fn register_set_var_command(registry: &mut CommandRegistry)
    ensures
        final(registry)@ == reg_insert(old(registry)@, set_var_command_model()),
{
    registry.register_closure_with_help_and_tag(
        "set-var",
        "Set a variable in the context with the given key and value",
        "(set-var key value)",
        "  (set-var \"name\" \"John\")        ; Set variable 'name' to 'John'\n  (set-var \"count\" \"42\")         ; Set variable 'count' to '42'\n  (set-var \"path\" \"/home/user\")   ; Set variable 'path' to '/home/user'",
        commands_tag(),
        Handler::SetVar,
    );
}

/// The variable commands, in registration order.
pub open spec fn var_command_models() -> Seq<CommandModel> {
    seq![get_var_command_model(), set_var_command_model()]
}

/// Register both variable commands.
pub fn register_var_commands(registry: &mut CommandRegistry)
    ensures
        final(registry)@ == registered_all(old(registry)@, var_command_models()),
{
    register_get_var_command(registry);
    register_set_var_command(registry);
    proof {
        let base = old(registry)@;
        lemma_registered_none(base);
        lemma_registered_snoc(base, Seq::<CommandModel>::empty(), get_var_command_model());
        lemma_registered_snoc(base, seq![get_var_command_model()], set_var_command_model());
        assert(Seq::<CommandModel>::empty().push(get_var_command_model()) =~= seq![
            get_var_command_model(),
        ]);
        assert(seq![get_var_command_model()].push(set_var_command_model())
            =~= var_command_models());
    }
}

/// The list-utility commands, in registration order.
pub open spec fn list_command_models() -> Seq<CommandModel> {
    seq![
        CommandModel {
            name: "list"@,
            description: "Create a list from arguments"@,
            syntax: "(list element1 element2 ...)"@,
            examples: "  (list 1 2 3)       ; Creates [1, 2, 3]\n  (list \"a\" \"b\")     ; Creates [\"a\", \"b\"]"@,
            tag: core_tag_model(),
            handler: Handler::ListNew,
        },
        CommandModel {
            name: "list-first"@,
            description: "Get first element of a list"@,
            syntax: "(first list)"@,
            examples: "  (first (list 1 2 3))  ; Returns 1\n  (first (list \"a\" \"b\")) ; Returns \"a\""@,
            tag: core_tag_model(),
            handler: Handler::ListFirst,
        },
        CommandModel {
            name: "list-rest"@,
            description: "Get all but first element of a list"@,
            syntax: "(rest list)"@,
            examples: "  (rest (list 1 2 3))   ; Returns [2, 3]\n  (rest (list \"a\" \"b\")) ; Returns [\"b\"]"@,
            tag: core_tag_model(),
            handler: Handler::ListRest,
        },
    ]
}

/// Register the list-utility commands.
pub fn register_list_commands(registry: &mut CommandRegistry)
    ensures
        final(registry)@ == registered_all(old(registry)@, list_command_models()),
{
    registry.register_closure_with_help(
        "list",
        "Create a list from arguments",
        "(list element1 element2 ...)",
        "  (list 1 2 3)       ; Creates [1, 2, 3]\n  (list \"a\" \"b\")     ; Creates [\"a\", \"b\"]",
        Handler::ListNew,
    );
    registry.register_closure_with_help(
        "list-first",
        "Get first element of a list",
        "(first list)",
        "  (first (list 1 2 3))  ; Returns 1\n  (first (list \"a\" \"b\")) ; Returns \"a\"",
        Handler::ListFirst,
    );
    registry.register_closure_with_help(
        "list-rest",
        "Get all but first element of a list",
        "(rest list)",
        "  (rest (list 1 2 3))   ; Returns [2, 3]\n  (rest (list \"a\" \"b\")) ; Returns [\"b\"]",
        Handler::ListRest,
    );
    proof {
        let base = old(registry)@;
        let ms = list_command_models();
        lemma_registered_none(base);
        lemma_registered_snoc(base, Seq::<CommandModel>::empty(), ms[0]);
        lemma_registered_snoc(base, seq![ms[0]], ms[1]);
        lemma_registered_snoc(base, seq![ms[0], ms[1]], ms[2]);
        assert(Seq::<CommandModel>::empty().push(ms[0]) =~= seq![ms[0]]);
        assert(seq![ms[0]].push(ms[1]) =~= seq![ms[0], ms[1]]);
        assert(seq![ms[0], ms[1]].push(ms[2]) =~= ms);
    }
}

/// The help commands, in registration order.
pub open spec fn help_command_models() -> Seq<CommandModel> {
    seq![
        CommandModel {
            name: "help"@,
            description: "Show short help for all commands or detailed help for a specific command"@,
            syntax: "(help [command-name])"@,
            examples: "  (help)              ; Shows short help for all commands\n  (help \"sum\")         ; Shows detailed help for the sum command"@,
            tag: core_tag_model(),
            handler: Handler::Help,
        },
        CommandModel {
            name: "help-long"@,
            description: "Show detailed help with syntax and examples"@,
            syntax: "(help-long)"@,
            examples: "  (help-long)         ; Shows this detailed help"@,
            tag: core_tag_model(),
            handler: Handler::HelpLong,
        },
    ]
}

/// Register the help commands.
pub fn register_help_commands(registry: &mut CommandRegistry)
    ensures
        final(registry)@ == registered_all(old(registry)@, help_command_models()),
{
    registry.register_closure_with_help(
        "help",
        "Show short help for all commands or detailed help for a specific command",
        "(help [command-name])",
        "  (help)              ; Shows short help for all commands\n  (help \"sum\")         ; Shows detailed help for the sum command",
        Handler::Help,
    );
    registry.register_closure_with_help(
        "help-long",
        "Show detailed help with syntax and examples",
        "(help-long)",
        "  (help-long)         ; Shows this detailed help",
        Handler::HelpLong,
    );
    proof {
        let base = old(registry)@;
        let ms = help_command_models();
        lemma_registered_none(base);
        lemma_registered_snoc(base, Seq::<CommandModel>::empty(), ms[0]);
        lemma_registered_snoc(base, seq![ms[0]], ms[1]);
        assert(Seq::<CommandModel>::empty().push(ms[0]) =~= seq![ms[0]]);
        assert(seq![ms[0]].push(ms[1]) =~= ms);
    }
}

/// The container-runner configuration commands, in registration order.
pub open spec fn docker_config_command_models() -> Seq<CommandModel> {
    seq![
        CommandModel {
            name: "docker-compose-args"@,
            description: "Configure Docker Compose arguments"@,
            syntax: "(docker-compose-args arg1 arg2 ...)"@,
            examples: "  (docker-compose-args \"compose\" \"run\" \"--rm\")  ; Set compose arguments\n  (docker-compose-args \"-f\" \"custom-compose.yml\")   ; Use custom compose file"@,
            tag: commands_tag_model(),
            handler: Handler::DockerComposeArgs,
        },
        CommandModel {
            name: "docker-make-args"@,
            description: "Configure Docker make arguments"@,
            syntax: "(docker-make-args arg1 arg2 ...)"@,
            examples: "  (docker-make-args \"make\" \"build\")     ; Set make arguments\n  (docker-make-args \"npm\" \"run\" \"dev\")  ; Use npm instead of make"@,
            tag: commands_tag_model(),
            handler: Handler::DockerMakeArgs,
        },
        CommandModel {
            name: "docker-socket"@,
            description: "Set custom Docker socket path"@,
            syntax: "(docker-socket path)"@,
            examples: "  (docker-socket \"/var/run/docker.sock\")           ; Set standard socket\n  (docker-socket \"/home/user/.docker/desktop/docker.sock\") ; Set custom socket"@,
            tag: commands_tag_model(),
            handler: Handler::DockerSocket,
        },
        CommandModel {
            name: "docker-pre"@,
            description: "Add pre-hook command to execute before Docker command"@,
            syntax: "(docker-pre command arg1 arg2 ...)"@,
            examples: "  (docker-pre \"echo\" \"Starting Docker...\")  ; Add echo command\n  (docker-pre \"mkdir\" \"-p\" \"logs\")          ; Create logs directory"@,
            tag: commands_tag_model(),
            handler: Handler::DockerPre,
        },
        CommandModel {
            name: "docker-post"@,
            description: "Add post-hook command to execute after Docker command"@,
            syntax: "(docker-post command arg1 arg2 ...)"@,
            examples: "  (docker-post \"echo\" \"Docker completed\")  ; Add echo command\n  (docker-post \"rm\" \"-rf\" \"temp\")          ; Clean up temp files"@,
            tag: commands_tag_model(),
            handler: Handler::DockerPost,
        },
        CommandModel {
            name: "docker-reset"@,
            description: "Reset Docker configuration to defaults"@,
            syntax: "(docker-reset)"@,
            examples: "  (docker-reset)  ; Reset all Docker configuration to defaults"@,
            tag: commands_tag_model(),
            handler: Handler::DockerReset,
        },
        CommandModel {
            name: "docker-show-config"@,
            description: "Show current Docker configuration"@,
            syntax: "(docker-show-config)"@,
            examples: "  (docker-show-config)  ; Display current Docker configuration"@,
            tag: commands_tag_model(),
            handler: Handler::DockerShowConfig,
        },
    ]
}

/// Register the container-runner configuration commands. The command that
/// actually invokes the container runner performs input/output and belongs
/// to the embedding application.
pub fn register_docker_config_commands(registry: &mut CommandRegistry)
    ensures
        final(registry)@ == registered_all(old(registry)@, docker_config_command_models()),
{
    registry.register_closure_with_help_and_tag(
        "docker-compose-args",
        "Configure Docker Compose arguments",
        "(docker-compose-args arg1 arg2 ...)",
        "  (docker-compose-args \"compose\" \"run\" \"--rm\")  ; Set compose arguments\n  (docker-compose-args \"-f\" \"custom-compose.yml\")   ; Use custom compose file",
        commands_tag(),
        Handler::DockerComposeArgs,
    );
    registry.register_closure_with_help_and_tag(
        "docker-make-args",
        "Configure Docker make arguments",
        "(docker-make-args arg1 arg2 ...)",
        "  (docker-make-args \"make\" \"build\")     ; Set make arguments\n  (docker-make-args \"npm\" \"run\" \"dev\")  ; Use npm instead of make",
        commands_tag(),
        Handler::DockerMakeArgs,
    );
    registry.register_closure_with_help_and_tag(
        "docker-socket",
        "Set custom Docker socket path",
        "(docker-socket path)",
        "  (docker-socket \"/var/run/docker.sock\")           ; Set standard socket\n  (docker-socket \"/home/user/.docker/desktop/docker.sock\") ; Set custom socket",
        commands_tag(),
        Handler::DockerSocket,
    );
    registry.register_closure_with_help_and_tag(
        "docker-pre",
        "Add pre-hook command to execute before Docker command",
        "(docker-pre command arg1 arg2 ...)",
        "  (docker-pre \"echo\" \"Starting Docker...\")  ; Add echo command\n  (docker-pre \"mkdir\" \"-p\" \"logs\")          ; Create logs directory",
        commands_tag(),
        Handler::DockerPre,
    );
    registry.register_closure_with_help_and_tag(
        "docker-post",
        "Add post-hook command to execute after Docker command",
        "(docker-post command arg1 arg2 ...)",
        "  (docker-post \"echo\" \"Docker completed\")  ; Add echo command\n  (docker-post \"rm\" \"-rf\" \"temp\")          ; Clean up temp files",
        commands_tag(),
        Handler::DockerPost,
    );
    registry.register_closure_with_help_and_tag(
        "docker-reset",
        "Reset Docker configuration to defaults",
        "(docker-reset)",
        "  (docker-reset)  ; Reset all Docker configuration to defaults",
        commands_tag(),
        Handler::DockerReset,
    );
    registry.register_closure_with_help_and_tag(
        "docker-show-config",
        "Show current Docker configuration",
        "(docker-show-config)",
        "  (docker-show-config)  ; Display current Docker configuration",
        commands_tag(),
        Handler::DockerShowConfig,
    );
    proof {
        let base = old(registry)@;
        let ms = docker_config_command_models();
        lemma_registered_none(base);
        lemma_registered_snoc(base, Seq::<CommandModel>::empty(), ms[0]);
        lemma_registered_snoc(base, seq![ms[0]], ms[1]);
        lemma_registered_snoc(base, seq![ms[0], ms[1]], ms[2]);
        lemma_registered_snoc(base, seq![ms[0], ms[1], ms[2]], ms[3]);
        lemma_registered_snoc(base, seq![ms[0], ms[1], ms[2], ms[3]], ms[4]);
        lemma_registered_snoc(base, seq![ms[0], ms[1], ms[2], ms[3], ms[4]], ms[5]);
        lemma_registered_snoc(base, seq![ms[0], ms[1], ms[2], ms[3], ms[4], ms[5]], ms[6]);
        assert(Seq::<CommandModel>::empty().push(ms[0]) =~= seq![ms[0]]);
        assert(seq![ms[0]].push(ms[1]) =~= seq![ms[0], ms[1]]);
        assert(seq![ms[0], ms[1]].push(ms[2]) =~= seq![ms[0], ms[1], ms[2]]);
        assert(seq![ms[0], ms[1], ms[2]].push(ms[3]) =~= seq![ms[0], ms[1], ms[2], ms[3]]);
        assert(seq![ms[0], ms[1], ms[2], ms[3]].push(ms[4]) =~= seq![
            ms[0],
            ms[1],
            ms[2],
            ms[3],
            ms[4],
        ]);
        assert(seq![ms[0], ms[1], ms[2], ms[3], ms[4]].push(ms[5]) =~= seq![
            ms[0],
            ms[1],
            ms[2],
            ms[3],
            ms[4],
            ms[5],
        ]);
        assert(seq![ms[0], ms[1], ms[2], ms[3], ms[4], ms[5]].push(ms[6]) =~= ms);
    }
}

/// The model of the get-basedir command.
pub open spec fn get_basedir_command_model() -> CommandModel {
    CommandModel {
        name: "get-basedir"@,
        description: "Get the current base directory from the context"@,
        syntax: "(get-basedir)"@,
        examples: "  (get-basedir)                 ; Get the current base directory path"@,
        tag: commands_tag_model(),
        handler: Handler::GetBasedir,
    }
}

/// Register the get-basedir command. Setting the base directory from a path
/// that must exist on disk is the embedding application's affair.
pub fn register_get_basedir_command(registry: &mut CommandRegistry)
    ensures
        final(registry)@ == reg_insert(old(registry)@, get_basedir_command_model()),
{
    registry.register_closure_with_help_and_tag(
        "get-basedir",
        "Get the current base directory from the context",
        "(get-basedir)",
        "  (get-basedir)                 ; Get the current base directory path",
        commands_tag(),
        Handler::GetBasedir,
    );
}

/// All built-in commands the library provides, in registration order.
pub open spec fn builtin_registry(base: Seq<CommandModel>) -> Seq<CommandModel> {
    let s1 = reg_insert(base, print_command_model());
    let s2 = reg_insert(s1, sum_command_model());
    let s3 = reg_insert(s2, pipe_command_model());
    let s4 = reg_insert(s3, multiply_command_model());
    let s5 = reg_insert(s4, concat_command_model());
    let s6 = reg_insert(s5, debug_command_model());
    let s7 = registered_all(s6, list_command_models());
    let s8 = registered_all(s7, help_command_models());
    let s9 = registered_all(s8, var_command_models());
    let s10 = reg_insert(s9, get_basedir_command_model());
    registered_all(s10, docker_config_command_models())
}

/// Register every built-in command: the core commands, the list utilities,
/// the help commands, the variable commands, the base-directory reader, and
/// the container-runner configuration commands.
pub fn register_builtin_commands(registry: &mut CommandRegistry)
    ensures
        final(registry)@ == builtin_registry(old(registry)@),
{
    registry.register(PrintCommand.command());
    registry.register(SumCommand.command());
    registry.register(PipeCommand.command());
    registry.register(MultiplyCommand.command());
    registry.register(ConcatCommand.command());
    registry.register(DebugCommand.command());
    register_list_commands(registry);
    register_help_commands(registry);
    register_var_commands(registry);
    register_get_basedir_command(registry);
    register_docker_config_commands(registry);
}

} // verus!
