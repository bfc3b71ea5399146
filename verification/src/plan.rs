//! The command-line pipeline: runtime configuration, parsed operations and
//! steps, and the execution plan. Running a plan performs input/output
//! (directory hashing, environment files, subprocesses) and is the embedding
//! application's affair; everything here is the pure parsing and bookkeeping
//! around it.

use vstd::prelude::*;
use vstd::string::*;

use crate::context::{assoc_get, assoc_set};
use crate::dockercfg::{pair_views, lemma_pair_views, str_views, lemma_str_views};
use crate::strutil::{str_eq, string_from_chars, chars_of};

verus! {

/// Default path of the directory holding container build contexts.
pub const DOCKER_DEV_PATH_KEY: &'static str = "DOCKER_DEV_PATH";

/// Default path of the directory holding versioning files.
pub const VERSIONS_FOLDER_KEY: &'static str = "VERSIONS_FOLDER";

/// Runtime configuration: a small table of known variables with defaults.
#[derive(Debug)]
pub struct Config {
    variables: Vec<(String, String)>,
}

impl View for Config {
    type V = Seq<(Seq<char>, Seq<char>)>;

    closed spec fn view(&self) -> Seq<(Seq<char>, Seq<char>)> {
        pair_views(self.variables@)
    }
}

/// The default configuration table.
pub open spec fn default_config() -> Seq<(Seq<char>, Seq<char>)> {
    seq![("DOCKER_DEV_PATH"@, "./dev/docker"@), ("VERSIONS_FOLDER"@, "dev/docker_versions"@)]
}

impl Clone for Config {
    /// A clone has the same model as the original.
    fn clone(&self) -> (r: Self)
        ensures
            r@ == self@,
    {
        let mut variables: Vec<(String, String)> = Vec::new();
        let mut i: usize = 0;
        proof {
            lemma_pair_views(self.variables@);
        }
        while i < self.variables.len()
            invariant
                i <= self.variables@.len(),
                self@.len() == self.variables@.len(),
                forall|j: int|
                    0 <= j < self.variables@.len() ==> self@[j] == (
                        self.variables@[j].0@,
                        self.variables@[j].1@,
                    ),
                variables@.len() == i,
                forall|j: int|
                    0 <= j < i ==> (variables@[j].0@, variables@[j].1@) == self@[j],
            decreases self.variables@.len() - i,
        {
            variables.push((self.variables[i].0.clone(), self.variables[i].1.clone()));
            i = i + 1;
        }
        let r = Config { variables };
        proof {
            lemma_pair_views(r.variables@);
            assert(r@ =~= self@);
        }
        r
    }
}

impl Default for Config {
    /// The default configuration.
    fn default() -> (r: Self)
        ensures
            r@ == default_config(),
    {
        Config::new()
    }
}

impl Config {
    /// A new configuration holding the default variables.
    pub fn new() -> (r: Self)
        ensures
            r@ == default_config(),
    {
        let mut variables: Vec<(String, String)> = Vec::new();
        variables.push((String::from_str("DOCKER_DEV_PATH"), String::from_str("./dev/docker")));
        variables.push(
            (String::from_str("VERSIONS_FOLDER"), String::from_str("dev/docker_versions")),
        );
        let r = Config { variables };
        proof {
            lemma_pair_views(r.variables@);
            assert(r@ =~= default_config());
        }
        r
    }

    /// Update a known configuration variable; an unknown key is rejected with
    /// an error naming it.
    pub fn set(&mut self, key: &str, value: &str) -> (r: Result<(), String>)
        ensures
            match r {
                Result::Ok(_) => assoc_get(old(self)@, key@) is Some && final(self)@ == assoc_set(
                    old(self)@,
                    key@,
                    value@,
                ),
                Result::Err(e) => assoc_get(old(self)@, key@) is None && final(self)@ == old(
                    self,
                )@ && e@ == "Unknown configuration variable: "@ + key@,
            },
    {
        let ghost orig = pair_views(self.variables@);
        proof {
            lemma_pair_views(self.variables@);
        }
        let n = self.variables.len();
        let mut i: usize = 0;
        while i < n
            invariant
                i <= n,
                n == self.variables@.len(),
                orig == pair_views(self.variables@),
                orig == old(self)@,
                orig.len() == n,
                forall|j: int|
                    0 <= j < n ==> orig[j] == (self.variables@[j].0@, self.variables@[j].1@),
                forall|j: int| 0 <= j < i ==> orig[j].0 != key@,
            decreases n - i,
        {
            if str_eq(self.variables[i].0.as_str(), key) {
                proof {
                    assert(orig[i as int].0 == key@);
                    assert(crate::context::assoc_find(orig, key@) == i as int) by {
                        crate::context::lemma_assoc_find(orig, key@);
                        let fm = crate::context::assoc_find(orig, key@);
                        if fm < i as int {
                            assert(orig[fm].0 == key@);
                        }
                        if fm > i as int {
                            assert(orig[i as int].0 != key@);
                        }
                    }
                }
                let ghost pre = self.variables@;
                let owned_key = String::from_str(key);
                let owned_value = String::from_str(value);
                self.variables.remove(i);
                self.variables.insert(i, (owned_key, owned_value));
                proof {
                    assert(self.variables@ =~= pre.update(
                        i as int,
                        (self.variables@[i as int].0, self.variables@[i as int].1),
                    ));
                    lemma_pair_views(self.variables@);
                    assert(pair_views(self.variables@) =~= orig.update(i as int, (key@, value@)));
                }
                return Ok(());
            }
            i = i + 1;
        }
        proof {
            crate::context::lemma_assoc_find(orig, key@);
            if crate::context::assoc_find(orig, key@) < n {
                assert(orig[crate::context::assoc_find(orig, key@)].0 == key@);
            }
        }
        let mut msg = String::from_str("Unknown configuration variable: ");
        msg.append(key);
        proof {
            assert(msg@ =~= "Unknown configuration variable: "@ + key@);
        }
        Err(msg)
    }

    /// The value of a configuration variable, if it is known.
    pub fn get(&self, key: &str) -> (r: Option<&String>)
        ensures
            match r {
                Option::Some(v) => assoc_get(self@, key@) == Option::Some(v@),
                Option::None => assoc_get(self@, key@) is None,
            },
    {
        proof {
            lemma_pair_views(self.variables@);
            crate::context::lemma_assoc_find(self@, key@);
        }
        let n = self.variables.len();
        let mut i: usize = 0;
        while i < n
            invariant
                i <= n,
                n == self.variables@.len(),
                self@.len() == n,
                forall|j: int|
                    0 <= j < n ==> self@[j] == (self.variables@[j].0@, self.variables@[j].1@),
                forall|j: int| 0 <= j < i ==> self@[j].0 != key@,
            decreases n - i,
        {
            if str_eq(self.variables[i].0.as_str(), key) {
                proof {
                    assert(self@[i as int].0 == key@);
                    assert(crate::context::assoc_find(self@, key@) == i as int) by {
                        crate::context::lemma_assoc_find(self@, key@);
                        let fm = crate::context::assoc_find(self@, key@);
                        if fm < i as int {
                            assert(self@[fm].0 == key@);
                        }
                        if fm > i as int {
                            assert(self@[i as int].0 != key@);
                        }
                    }
                }
                return Some(&self.variables[i].1);
            }
            i = i + 1;
        }
        proof {
            crate::context::lemma_assoc_find(self@, key@);
            if crate::context::assoc_find(self@, key@) < n {
                assert(self@[crate::context::assoc_find(self@, key@)].0 == key@);
            }
        }
        None
    }

    /// The path of the container build-context directory. The default table
    /// always holds this key; the lookup is total rather than panicking.
    pub fn docker_dev_path(&self) -> (r: Option<&String>)
        ensures
            match r {
                Option::Some(v) => assoc_get(self@, "DOCKER_DEV_PATH"@) == Option::Some(v@),
                Option::None => assoc_get(self@, "DOCKER_DEV_PATH"@) is None,
            },
    {
        self.get("DOCKER_DEV_PATH")
    }

    /// The path of the versioning-file directory.
    pub fn versions_folder(&self) -> (r: Option<&String>)
        ensures
            match r {
                Option::Some(v) => assoc_get(self@, "VERSIONS_FOLDER"@) == Option::Some(v@),
                Option::None => assoc_get(self@, "VERSIONS_FOLDER"@) is None,
            },
    {
        self.get("VERSIONS_FOLDER")
    }

    /// All configured variables, in table order.
    pub fn get_all_variables(&self) -> (r: &Vec<(String, String)>)
        ensures
            pair_views(r@) == self@,
    {
        &self.variables
    }

    /// Add a configuration variable with a default value; an existing key is
    /// left unchanged.
    pub fn add_variable(&mut self, key: &str, default_value: &str)
        ensures
            final(self)@ == if assoc_get(old(self)@, key@) is Some {
                old(self)@
            } else {
                old(self)@.push((key@, default_value@))
            },
    {
        let ghost orig = pair_views(self.variables@);
        proof {
            lemma_pair_views(self.variables@);
        }
        let n = self.variables.len();
        let mut i: usize = 0;
        while i < n
            invariant
                i <= n,
                n == self.variables@.len(),
                orig == pair_views(self.variables@),
                orig == old(self)@,
                orig.len() == n,
                forall|j: int|
                    0 <= j < n ==> orig[j] == (self.variables@[j].0@, self.variables@[j].1@),
                forall|j: int| 0 <= j < i ==> orig[j].0 != key@,
            decreases n - i,
        {
            if str_eq(self.variables[i].0.as_str(), key) {
                proof {
                    crate::context::lemma_assoc_find(orig, key@);
                    let fm = crate::context::assoc_find(orig, key@);
                    if fm > i as int {
                        assert(orig[i as int].0 != key@);
                    }
                    assert(orig[fm].0 == key@ || fm <= i as int);
                    if fm == orig.len() {
                        assert(orig[i as int].0 != key@);
                    }
                }
                return ;
            }
            i = i + 1;
        }
        proof {
            crate::context::lemma_assoc_find(orig, key@);
            if crate::context::assoc_find(orig, key@) < n {
                assert(orig[crate::context::assoc_find(orig, key@)].0 == key@);
            }
        }
        let ghost pre = self.variables@;
        self.variables.push((String::from_str(key), String::from_str(default_value)));
        proof {
            assert(self.variables@.drop_last() =~= pre);
            assert(pair_views(self.variables@) == pair_views(self.variables@.drop_last()).push(
                (self.variables@.last().0@, self.variables@.last().1@),
            ));
            assert(pair_views(self.variables@) =~= orig.push((key@, default_value@)));
        }
    }
}

/// Everything a plan execution reads and fills in: the configuration, the
/// chosen environment files, extra arguments, and the data later passes
/// compute (paths, environment variables, directory digests).
#[derive(Debug)]
pub struct ExecutionContext {
    pub config: Config,
    pub input_env: String,
    pub output_env: Option<String>,
    pub args: Vec<String>,
    pub verbose: bool,
    pub host_project_path: Option<String>,
    pub docker_dev_path: Option<String>,
    pub env_vars: Option<Vec<(String, String)>>,
    pub existing_env_vars: Option<Vec<(String, String)>>,
    pub md5_values: Option<Vec<(String, String)>>,
}

impl ExecutionContext {
    /// A fresh execution context with nothing computed yet.
    pub fn new(
        config: Config,
        input_env: String,
        output_env: Option<String>,
        args: Vec<String>,
        verbose: bool,
    ) -> (r: Self)
        ensures
            r.config@ == config@,
            r.input_env@ == input_env@,
            r.output_env == output_env,
            r.args@ == args@,
            r.verbose == verbose,
            r.host_project_path is None,
            r.docker_dev_path is None,
            r.env_vars is None,
            r.existing_env_vars is None,
            r.md5_values is None,
    {
        ExecutionContext {
            config,
            input_env,
            output_env,
            args,
            verbose,
            host_project_path: None,
            docker_dev_path: None,
            env_vars: None,
            existing_env_vars: None,
            md5_values: None,
        }
    }
}

/// The clean command of the pipeline.
#[derive(Debug)]
pub struct CleanCommand {
    pub force: bool,
}

impl CleanCommand {
    /// A clean command, forced or not.
    pub fn new(force: bool) -> (r: Self)
        ensures
            r.force == force,
    {
        CleanCommand { force }
    }

    /// The pipeline word this command answers to.
    pub fn command_name() -> (r: &'static str)
        ensures
            r@ == "clean"@,
    {
        "clean"
    }

    /// The display form: `clean`, with ` --force` when forced.
    pub fn display(&self) -> (r: String)
        ensures
            r@ == if self.force {
                "clean --force"@
            } else {
                "clean"@
            },
    {
        if self.force {
            String::from_str("clean --force")
        } else {
            String::from_str("clean")
        }
    }
}

/// The configuration command of the pipeline.
#[derive(Debug)]
pub struct ConfigCommand {
    pub key: String,
    pub value: String,
}

impl ConfigCommand {
    /// A configuration command for one key and value.
    pub fn new(key: String, value: String) -> (r: Self)
        ensures
            r.key@ == key@,
            r.value@ == value@,
    {
        ConfigCommand { key, value }
    }

    /// The pipeline word this command answers to.
    pub fn command_name() -> (r: &'static str)
        ensures
            r@ == "config"@,
    {
        "config"
    }

    /// The display form: `cfg(key=value)`.
    pub fn display(&self) -> (r: String)
        ensures
            r@ == "cfg("@ + self.key@ + "="@ + self.value@ + ")"@,
    {
        let mut out = String::from_str("cfg(");
        out.append(self.key.as_str());
        out.append("=");
        out.append(self.value.as_str());
        out.append(")");
        proof {
            assert(out@ =~= "cfg("@ + self.key@ + "="@ + self.value@ + ")"@);
        }
        out
    }

    /// Apply this command: set the configuration variable, rejecting unknown
    /// keys.
    pub fn execute(&self, context: &mut ExecutionContext) -> (r: Result<(), String>)
        ensures
            match r {
                Result::Ok(_) => assoc_get(old(context).config@, self.key@) is Some
                    && final(context).config@ == assoc_set(
                    old(context).config@,
                    self.key@,
                    self.value@,
                ),
                Result::Err(e) => assoc_get(old(context).config@, self.key@) is None
                    && final(context).config@ == old(context).config@ && e@
                    == "Unknown configuration variable: "@ + self.key@,
            },
    {
        context.config.set(self.key.as_str(), self.value.as_str())
    }
}

/// The environment-writing command of the pipeline; its execution writes a
/// file and is the embedding application's affair.
#[derive(Debug)]
pub struct WriteEnvCommand;

impl WriteEnvCommand {
    /// The pipeline word this command answers to.
    pub fn command_name() -> (r: &'static str)
        ensures
            r@ == "write-env"@,
    {
        "write-env"
    }

    /// The display form.
    pub fn display(&self) -> (r: String)
        ensures
            r@ == "write_env"@,
    {
        String::from_str("write_env")
    }
}

/// The version-update command of the pipeline; its execution reads and
/// writes versioning files and is the embedding application's affair.
#[derive(Debug)]
pub struct UpdateVersionsCommand;

impl UpdateVersionsCommand {
    /// The pipeline word this command answers to.
    pub fn command_name() -> (r: &'static str)
        ensures
            r@ == "update-versions"@,
    {
        "update-versions"
    }

    /// The display form.
    pub fn display(&self) -> (r: String)
        ensures
            r@ == "update_versions"@,
    {
        String::from_str("update_versions")
    }
}

/// The container-run command of the pipeline; its execution starts a
/// subprocess and is the embedding application's affair.
#[derive(Debug)]
pub struct RunCommand;

impl RunCommand {
    /// The pipeline word this command answers to.
    pub fn command_name() -> (r: &'static str)
        ensures
            r@ == "run"@,
    {
        "run"
    }

    /// The display form.
    pub fn display(&self) -> (r: String)
        ensures
            r@ == "run"@,
    {
        String::from_str("run")
    }
}

/// A parsed pipeline command.
#[derive(Debug)]
pub enum PlanCommand {
    /// Clean temporary files.
    Clean(CleanCommand),
    /// Set a configuration variable.
    Config(ConfigCommand),
    /// Write the combined environment file.
    WriteEnv(WriteEnvCommand),
    /// Update component versions.
    UpdateVersions(UpdateVersionsCommand),
    /// Run the container command.
    Run(RunCommand),
}

/// Mathematical model of a parsed pipeline command.
pub ghost enum PlanCommandModel {
    Clean(bool),
    Config(Seq<char>, Seq<char>),
    WriteEnv,
    UpdateVersions,
    Run,
}

impl View for PlanCommand {
    type V = PlanCommandModel;

    open spec fn view(&self) -> PlanCommandModel {
        match self {
            PlanCommand::Clean(c) => PlanCommandModel::Clean(c.force),
            PlanCommand::Config(c) => PlanCommandModel::Config(c.key@, c.value@),
            PlanCommand::WriteEnv(_) => PlanCommandModel::WriteEnv,
            PlanCommand::UpdateVersions(_) => PlanCommandModel::UpdateVersions,
            PlanCommand::Run(_) => PlanCommandModel::Run,
        }
    }
}

impl PlanCommand {
    /// The command's short name, for logging.
    pub fn name(&self) -> (r: &'static str)
        ensures
            r@ == match self@ {
                PlanCommandModel::Clean(_) => "clean"@,
                PlanCommandModel::Config(_, _) => "cfg"@,
                PlanCommandModel::WriteEnv => "write_env"@,
                PlanCommandModel::UpdateVersions => "update_versions"@,
                PlanCommandModel::Run => "run"@,
            },
    {
        match self {
            PlanCommand::Clean(_) => "clean",
            PlanCommand::Config(_) => "cfg",
            PlanCommand::WriteEnv(_) => "write_env",
            PlanCommand::UpdateVersions(_) => "update_versions",
            PlanCommand::Run(_) => "run",
        }
    }

    /// Whether this is a configuration command, run in the first pass.
    pub fn is_config_command(&self) -> (r: bool)
        ensures
            r == (self@ is Config),
    {
        match self {
            PlanCommand::Config(_) => true,
            _ => false,
        }
    }

    /// The display form of the command.
    pub fn display(&self) -> (r: String)
        ensures
            r@ == plan_command_display(self@),
    {
        match self {
            PlanCommand::Clean(c) => {
                if c.force {
                    String::from_str("clean --force")
                } else {
                    String::from_str("clean")
                }
            },
            PlanCommand::Config(c) => c.display(),
            PlanCommand::WriteEnv(c) => c.display(),
            PlanCommand::UpdateVersions(c) => c.display(),
            PlanCommand::Run(c) => c.display(),
        }
    }
}

/// The display form of a pipeline command.
pub open spec fn plan_command_display(c: PlanCommandModel) -> Seq<char> {
    match c {
        PlanCommandModel::Clean(force) => if force {
            "clean --force"@
        } else {
            "clean"@
        },
        PlanCommandModel::Config(k, v) => "cfg("@ + k + "="@ + v + ")"@,
        PlanCommandModel::WriteEnv => "write_env"@,
        PlanCommandModel::UpdateVersions => "update_versions"@,
        PlanCommandModel::Run => "run"@,
    }
}


/// An operation requested on the command line.
#[derive(Debug)]
pub enum Operation {
    /// Set a configuration variable.
    Config { key: String, value: String },
    /// Write the combined environment file.
    WriteEnv,
    /// Update component versions.
    UpdateVersions,
    /// Run the container command.
    Run,
}

/// Mathematical model of an `Operation`.
pub ghost enum OperationModel {
    Config(Seq<char>, Seq<char>),
    WriteEnv,
    UpdateVersions,
    Run,
}

impl View for Operation {
    type V = OperationModel;

    open spec fn view(&self) -> OperationModel {
        match self {
            Operation::Config { key, value } => OperationModel::Config(key@, value@),
            Operation::WriteEnv => OperationModel::WriteEnv,
            Operation::UpdateVersions => OperationModel::UpdateVersions,
            Operation::Run => OperationModel::Run,
        }
    }
}

impl Operation {
    /// The operation's short name, for logging.
    pub fn name(&self) -> (r: &'static str)
        ensures
            r@ == match self@ {
                OperationModel::Config(_, _) => "cfg"@,
                OperationModel::WriteEnv => "write_env"@,
                OperationModel::UpdateVersions => "update_versions"@,
                OperationModel::Run => "run"@,
            },
    {
        match self {
            Operation::Config { .. } => "cfg",
            Operation::WriteEnv => "write_env",
            Operation::UpdateVersions => "update_versions",
            Operation::Run => "run",
        }
    }

    /// The display form of the operation, parameters included.
    pub fn display(&self) -> (r: String)
        ensures
            r@ == match self@ {
                OperationModel::Config(k, v) => "cfg("@ + k + "="@ + v + ")"@,
                OperationModel::WriteEnv => "write_env"@,
                OperationModel::UpdateVersions => "update_versions"@,
                OperationModel::Run => "run"@,
            },
    {
        match self {
            Operation::Config { key, value } => {
                let mut out = String::from_str("cfg(");
                out.append(key.as_str());
                out.append("=");
                out.append(value.as_str());
                out.append(")");
                proof {
                    assert(out@ =~= "cfg("@ + key@ + "="@ + value@ + ")"@);
                }
                out
            },
            Operation::WriteEnv => String::from_str("write_env"),
            Operation::UpdateVersions => String::from_str("update_versions"),
            Operation::Run => String::from_str("run"),
        }
    }

    /// The pipeline command performing this operation.
    pub fn to_command(&self) -> (r: PlanCommand)
        ensures
            r@ == operation_to_command(self@),
    {
        match self {
            Operation::Config { key, value } => PlanCommand::Config(
                ConfigCommand::new(key.clone(), value.clone()),
            ),
            Operation::WriteEnv => PlanCommand::WriteEnv(WriteEnvCommand),
            Operation::UpdateVersions => PlanCommand::UpdateVersions(UpdateVersionsCommand),
            Operation::Run => PlanCommand::Run(RunCommand),
        }
    }
}

/// The pipeline command an operation maps to.
pub open spec fn operation_to_command(op: OperationModel) -> PlanCommandModel {
    match op {
        OperationModel::Config(k, v) => PlanCommandModel::Config(k, v),
        OperationModel::WriteEnv => PlanCommandModel::WriteEnv,
        OperationModel::UpdateVersions => PlanCommandModel::UpdateVersions,
        OperationModel::Run => PlanCommandModel::Run,
    }
}

/// A parsed pipeline step.
#[derive(Debug)]
pub enum Step {
    /// Clean temporary files, optionally forced.
    Clean { force: bool },
    /// Set a configuration variable.
    Config { key: String, value: String },
    /// Write the environment file to the given output.
    WriteEnv { output: String },
    /// Update component versions.
    UpdateVersions,
    /// Run the container command with extra arguments.
    Run { args: Vec<String> },
}

/// Mathematical model of a `Step`.
pub ghost enum StepModel {
    Clean(bool),
    Config(Seq<char>, Seq<char>),
    WriteEnv(Seq<char>),
    UpdateVersions,
    Run(Seq<Seq<char>>),
}

impl View for Step {
    type V = StepModel;

    open spec fn view(&self) -> StepModel {
        match self {
            Step::Clean { force } => StepModel::Clean(*force),
            Step::Config { key, value } => StepModel::Config(key@, value@),
            Step::WriteEnv { output } => StepModel::WriteEnv(output@),
            Step::UpdateVersions => StepModel::UpdateVersions,
            Step::Run { args } => StepModel::Run(str_views(args@)),
        }
    }
}

/// The words that start a pipeline step.
pub open spec fn is_known_word(a: Seq<char>) -> bool {
    a == "clean"@ || a == "config"@ || a == "write-env"@ || a == "update-versions"@ || a == "run"@
}

fn is_known_word_exec(a: &str) -> (r: bool)
    ensures
        r == is_known_word(a@),
{
    str_eq(a, "clean") || str_eq(a, "config") || str_eq(a, "write-env") || str_eq(
        a,
        "update-versions",
    ) || str_eq(a, "run")
}

/// The first position of `=` in a string, or its length.
pub open spec fn eq_pos(s: Seq<char>, i: int) -> int
    decreases s.len() - i,
{
    if 0 <= i < s.len() && s[i] != '=' {
        eq_pos(s, i + 1)
    } else {
        i
    }
}

pub proof fn lemma_eq_pos(s: Seq<char>, i: int)
    requires
        0 <= i <= s.len(),
    ensures
        i <= eq_pos(s, i) <= s.len(),
        eq_pos(s, i) < s.len() ==> s[eq_pos(s, i)] == '=',
        forall|j: int| i <= j < eq_pos(s, i) ==> s[j] != '=',
    decreases s.len() - i,
{
    if i < s.len() && s[i] != '=' {
        lemma_eq_pos(s, i + 1);
    }
}

/// The end of a run-argument stretch: arguments are collected until the next
/// known command word.
pub open spec fn run_end(args: Seq<Seq<char>>, i: int) -> int
    decreases args.len() - i,
{
    if 0 <= i < args.len() && !is_known_word(args[i]) {
        run_end(args, i + 1)
    } else {
        i
    }
}

proof fn lemma_run_end(args: Seq<Seq<char>>, i: int)
    requires
        0 <= i <= args.len(),
    ensures
        i <= run_end(args, i) <= args.len(),
    decreases args.len() - i,
{
    if i < args.len() && !is_known_word(args[i]) {
        lemma_run_end(args, i + 1);
    }
}

/// What one step parse yields: the step and the position after its consumed
/// arguments, or an error. `i` is the position just after the command word.
pub open spec fn step_parse_spec(cmd: Seq<char>, args: Seq<Seq<char>>, i: int) -> Result<
    (StepModel, int),
    Seq<char>,
> {
    if cmd == "clean"@ {
        let force = 0 <= i < args.len() && args[i] == "force"@;
        Result::Ok(
            (
                StepModel::Clean(force),
                if force {
                    i + 1
                } else {
                    i
                },
            ),
        )
    } else if cmd == "config"@ {
        if !(0 <= i < args.len()) {
            Result::Err("Config step requires key=value argument"@)
        } else {
            let a = args[i];
            let e = eq_pos(a, 0);
            if e < a.len() {
                Result::Ok(
                    (StepModel::Config(a.subrange(0, e), a.subrange(e + 1, a.len() as int)), i + 1),
                )
            } else {
                Result::Err("Invalid config format: '"@ + a + "'. Expected key=value"@)
            }
        }
    } else if cmd == "write-env"@ {
        if !(0 <= i < args.len()) {
            Result::Err("write-env step requires output <file>"@)
        } else if args[i] == "output"@ {
            if i + 1 < args.len() {
                Result::Ok((StepModel::WriteEnv(args[i + 1]), i + 2))
            } else {
                Result::Err("write-env output requires a filename"@)
            }
        } else {
            Result::Err("write-env step requires output <file>"@)
        }
    } else if cmd == "update-versions"@ {
        Result::Ok((StepModel::UpdateVersions, i))
    } else if cmd == "run"@ {
        Result::Ok((StepModel::Run(args.subrange(i, run_end(args, i))), run_end(args, i)))
    } else {
        Result::Err("Unknown command: '"@ + cmd + "'"@)
    }
}

impl Step {
    /// The step's short name, for logging.
    pub fn name(&self) -> (r: &'static str)
        ensures
            r@ == match self@ {
                StepModel::Clean(_) => "clean"@,
                StepModel::Config(_, _) => "config"@,
                StepModel::WriteEnv(_) => "write-env"@,
                StepModel::UpdateVersions => "update-versions"@,
                StepModel::Run(_) => "run"@,
            },
    {
        match self {
            Step::Clean { .. } => "clean",
            Step::Config { .. } => "config",
            Step::WriteEnv { .. } => "write-env",
            Step::UpdateVersions => "update-versions",
            Step::Run { .. } => "run",
        }
    }

    /// Parse one step: `command` is the step word, and `pos` the cursor into
    /// the remaining arguments, advanced over what the step consumes.
    pub fn parse_from_args(command: &str, args: &Vec<String>, pos: &mut usize) -> (r: Result<
        Step,
        String,
    >)
        requires
            *old(pos) <= args@.len(),
        ensures
            *old(pos) <= *final(pos) <= args@.len(),
            match r {
                Result::Ok(st) => step_parse_spec(command@, str_views(args@), *old(pos) as int)
                    == Result::<(StepModel, int), Seq<char>>::Ok((st@, *final(pos) as int)),
                Result::Err(e) => step_parse_spec(command@, str_views(args@), *old(pos) as int)
                    matches Result::Err(msg) && e@ == msg,
            },
    {
        let ghost views = str_views(args@);
        proof {
            lemma_str_views(args@);
        }
        if str_eq(command, "clean") {
            let force = *pos < args.len() && str_eq(args[*pos].as_str(), "force");
            if force {
                *pos = *pos + 1;
            }
            Ok(Step::Clean { force })
        } else if str_eq(command, "config") {
            if *pos >= args.len() {
                return Err(String::from_str("Config step requires key=value argument"));
            }
            let a = &args[*pos];
            let cs = chars_of(a.as_str());
            let n = cs.len();
            let mut e: usize = 0;
            proof {
                lemma_eq_pos(a@, 0);
            }
            while e < n && cs[e] != '='
                invariant
                    e <= n,
                    n == cs@.len(),
                    cs@ == a@,
                    forall|j: int| 0 <= j < e ==> cs@[j] != '=',
                decreases n - e,
            {
                e = e + 1;
            }
            proof {
                assert(eq_pos(a@, 0) == e as int) by {
                    lemma_eq_pos(a@, 0);
                    let fm = eq_pos(a@, 0);
                    if fm < e as int {
                        assert(a@[fm] == '=');
                    }
                    if fm > e as int && (e as int) < a@.len() {
                        assert(a@[e as int] != '=');
                    }
                }
            }
            if e < n {
                let mut key: Vec<char> = Vec::new();
                let mut k: usize = 0;
                while k < e
                    invariant
                        k <= e <= n,
                        n == cs@.len(),
                        key@ =~= cs@.subrange(0, k as int),
                    decreases e - k,
                {
                    key.push(cs[k]);
                    k = k + 1;
                }
                let mut value: Vec<char> = Vec::new();
                let mut v: usize = e + 1;
                while v < n
                    invariant
                        e + 1 <= v <= n,
                        n == cs@.len(),
                        value@ =~= cs@.subrange(e + 1, v as int),
                    decreases n - v,
                {
                    value.push(cs[v]);
                    v = v + 1;
                }
                let st = Step::Config {
                    key: string_from_chars(key.as_slice()),
                    value: string_from_chars(value.as_slice()),
                };
                *pos = *pos + 1;
                proof {
                    assert(key@ =~= a@.subrange(0, e as int));
                    assert(value@ =~= a@.subrange(e + 1, a@.len() as int));
                }
                Ok(st)
            } else {
                let mut msg = String::from_str("Invalid config format: '");
                msg.append(a.as_str());
                msg.append("'. Expected key=value");
                proof {
                    assert(msg@ =~= "Invalid config format: '"@ + a@ + "'. Expected key=value"@);
                }
                Err(msg)
            }
        } else if str_eq(command, "write-env") {
            if *pos >= args.len() {
                return Err(String::from_str("write-env step requires output <file>"));
            }
            if str_eq(args[*pos].as_str(), "output") {
                if *pos + 1 < args.len() {
                    let output = args[*pos + 1].clone();
                    *pos = *pos + 2;
                    Ok(Step::WriteEnv { output })
                } else {
                    Err(String::from_str("write-env output requires a filename"))
                }
            } else {
                Err(String::from_str("write-env step requires output <file>"))
            }
        } else if str_eq(command, "update-versions") {
            Ok(Step::UpdateVersions)
        } else if str_eq(command, "run") {
            let mut collected: Vec<String> = Vec::new();
            proof {
                lemma_run_end(views, *pos as int);
            }
            while *pos < args.len() && !is_known_word_exec(args[*pos].as_str())
                invariant
                    *old(pos) <= *pos <= args@.len(),
                    views == str_views(args@),
                    views.len() == args@.len(),
                    forall|j: int| 0 <= j < args@.len() ==> views[j] == args@[j]@,
                    run_end(views, *old(pos) as int) == run_end(views, *pos as int),
                    collected@.len() == *pos - *old(pos),
                    forall|j: int|
                        0 <= j < collected@.len() ==> collected@[j]@ == views[*old(pos) + j],
                decreases args@.len() - *pos,
            {
                collected.push(args[*pos].clone());
                *pos = *pos + 1;
            }
            proof {
                assert(run_end(views, *pos as int) == *pos as int);
                lemma_str_views(collected@);
                assert(str_views(collected@) =~= views.subrange(
                    *old(pos) as int,
                    run_end(views, *old(pos) as int),
                ));
            }
            Ok(Step::Run { args: collected })
        } else {
            let mut msg = String::from_str("Unknown command: '");
            msg.append(command);
            msg.append("'");
            proof {
                assert(msg@ =~= "Unknown command: '"@ + command@ + "'"@);
            }
            Err(msg)
        }
    }

    /// The display form of the step, parameters included.
    pub fn display(&self) -> (r: String)
        ensures
            r@ == step_display(self@),
    {
        match self {
            Step::Clean { force } => {
                if *force {
                    String::from_str("clean --force")
                } else {
                    String::from_str("clean")
                }
            },
            Step::Config { key, value } => {
                let mut out = String::from_str("config ");
                out.append(key.as_str());
                out.append("=");
                out.append(value.as_str());
                proof {
                    assert(out@ =~= "config "@ + key@ + "="@ + value@);
                }
                out
            },
            Step::WriteEnv { output } => {
                let mut out = String::from_str("write-env --output ");
                out.append(output.as_str());
                proof {
                    assert(out@ =~= "write-env --output "@ + output@);
                }
                out
            },
            Step::UpdateVersions => String::from_str("update-versions"),
            Step::Run { args } => {
                proof {
                    lemma_str_views(args@);
                }
                if args.len() == 0 {
                    String::from_str("run")
                } else {
                    let mut out = String::from_str("run ");
                    let ghost views = str_views(args@);
                    let mut i: usize = 0;
                    while i < args.len()
                        invariant
                            i <= args@.len(),
                            views == str_views(args@),
                            views.len() == args@.len(),
                            forall|j: int| 0 <= j < args@.len() ==> views[j] == args@[j]@,
                            out@ == "run "@ + join_words(views.take(i as int)),
                        decreases args@.len() - i,
                    {
                        if i > 0 {
                            out.append(" ");
                        }
                        out.append(args[i].as_str());
                        proof {
                            assert(views.take(i + 1).drop_last() =~= views.take(i as int));
                            assert(views.take(i + 1).last() == views[i as int]);
                            if i == 0 {
                                assert(views.take(1).len() == 1);
                            }
                            assert(out@ =~= "run "@ + join_words(views.take(i + 1)));
                        }
                        i = i + 1;
                    }
                    proof {
                        assert(views.take(args@.len() as int) =~= views);
                    }
                    out
                }
            },
        }
    }

    /// The pipeline command performing this step.
    pub fn to_command(&self) -> (r: PlanCommand)
        ensures
            r@ == step_to_command(self@),
    {
        match self {
            Step::Clean { force } => PlanCommand::Clean(CleanCommand::new(*force)),
            Step::Config { key, value } => PlanCommand::Config(
                ConfigCommand::new(key.clone(), value.clone()),
            ),
            Step::WriteEnv { .. } => PlanCommand::WriteEnv(WriteEnvCommand),
            Step::UpdateVersions => PlanCommand::UpdateVersions(UpdateVersionsCommand),
            Step::Run { .. } => PlanCommand::Run(RunCommand),
        }
    }
}

/// The display form of a step.
pub open spec fn step_display(st: StepModel) -> Seq<char> {
    match st {
        StepModel::Clean(force) => if force {
            "clean --force"@
        } else {
            "clean"@
        },
        StepModel::Config(k, v) => "config "@ + k + "="@ + v,
        StepModel::WriteEnv(out) => "write-env --output "@ + out,
        StepModel::UpdateVersions => "update-versions"@,
        StepModel::Run(args) => if args.len() == 0 {
            "run"@
        } else {
            "run "@ + join_words(args)
        },
    }
}

/// Words joined with single spaces.
pub open spec fn join_words(xs: Seq<Seq<char>>) -> Seq<char>
    decreases xs,
{
    if xs.len() == 0 {
        Seq::empty()
    } else if xs.len() == 1 {
        xs[0]
    } else {
        join_words(xs.drop_last()) + " "@ + xs.last()
    }
}

/// The pipeline command a step maps to; the run step's own arguments are
/// carried by the plan, not the command.
pub open spec fn step_to_command(st: StepModel) -> PlanCommandModel {
    match st {
        StepModel::Clean(force) => PlanCommandModel::Clean(force),
        StepModel::Config(k, v) => PlanCommandModel::Config(k, v),
        StepModel::WriteEnv(_) => PlanCommandModel::WriteEnv,
        StepModel::UpdateVersions => PlanCommandModel::UpdateVersions,
        StepModel::Run(_) => PlanCommandModel::Run,
    }
}

/// The models of a vector of steps.
pub open spec fn step_views(s: Seq<Step>) -> Seq<StepModel>
    decreases s,
{
    if s.len() == 0 {
        Seq::empty()
    } else {
        step_views(s.drop_last()).push(s.last()@)
    }
}

/// The steps parsed from the arguments, starting at `i`: each argument in
/// command position must be a step word, whose step then consumes what
/// follows it.
pub open spec fn steps_from(args: Seq<Seq<char>>, i: int) -> Result<Seq<StepModel>, Seq<char>>
    decreases args.len() - i,
{
    if !(0 <= i < args.len()) {
        Result::Ok(Seq::empty())
    } else {
        match step_parse_spec(args[i], args, i + 1) {
            Result::Ok((st, j)) => {
                match steps_from(args, crate::parser::past(args.len() as int, i, j)) {
                    Result::Ok(rest) => Result::Ok(seq![st] + rest),
                    Result::Err(e) => Result::Err(e),
                }
            },
            Result::Err(e) => Result::Err(e),
        }
    }
}

/// The steps a whole argument list denotes; an empty list is an error.
pub open spec fn pipeline_spec(args: Seq<Seq<char>>) -> Result<Seq<StepModel>, Seq<char>> {
    if args.len() == 0 {
        Result::Err("No valid steps found in pipeline"@)
    } else {
        steps_from(args, 0)
    }
}

/// Already-parsed steps prefixed onto the rest of a pipeline parse.
pub open spec fn prepend_steps(p: Seq<StepModel>, r: Result<Seq<StepModel>, Seq<char>>) -> Result<
    Seq<StepModel>,
    Seq<char>,
> {
    match r {
        Result::Ok(rest) => Result::Ok(p + rest),
        Result::Err(e) => Result::Err(e),
    }
}

/// Parse a whole argument list into pipeline steps: each argument in command
/// position starts a step, which may consume the arguments after it.
pub fn parse_pipeline(args: Vec<String>) -> (r: Result<Vec<Step>, String>)
    ensures
        match r {
            Result::Ok(steps) => pipeline_spec(str_views(args@)) == Result::<
                Seq<StepModel>,
                Seq<char>,
            >::Ok(step_views(steps@)),
            Result::Err(e) => pipeline_spec(str_views(args@)) matches Result::Err(msg) && e@
                == msg,
        },
{
    let ghost views = str_views(args@);
    proof {
        lemma_str_views(args@);
    }
    if args.len() == 0 {
        return Err(String::from_str("No valid steps found in pipeline"));
    }
    let mut steps: Vec<Step> = Vec::new();
    let mut pos: usize = 0;
    proof {
        assert(step_views(steps@) =~= Seq::<StepModel>::empty());
        assert(Seq::<StepModel>::empty() + Seq::<StepModel>::empty()
            =~= Seq::<StepModel>::empty());
    }
    while pos < args.len()
        invariant
            pos <= args@.len(),
            views == str_views(args@),
            views.len() == args@.len(),
            forall|j: int| 0 <= j < args@.len() ==> views[j] == args@[j]@,
            args@.len() > 0,
            steps_from(views, 0) == prepend_steps(step_views(steps@), steps_from(views, pos as int)),
        decreases args@.len() - pos,
    {
        let ghost pre_pos = pos as int;
        let command = args[pos].clone();
        pos = pos + 1;
        match Step::parse_from_args(command.as_str(), &args, &mut pos) {
            Ok(st) => {
                proof {
                    assert(crate::parser::past(views.len() as int, pre_pos, pos as int)
                        == pos as int);
                }
                let ghost pre_steps = step_views(steps@);
                let ghost pre_vec = steps@;
                steps.push(st);
                proof {
                    assert(steps@.drop_last() =~= pre_vec);
                    assert(step_views(steps@) == step_views(steps@.drop_last()).push(
                        steps@.last()@,
                    ));
                    match steps_from(views, pos as int) {
                        Result::Ok(rest) => {
                            assert(pre_steps.push(steps@.last()@) + rest =~= pre_steps + (seq![
                                steps@.last()@,
                            ] + rest));
                        },
                        Result::Err(_) => {},
                    }
                }
            },
            Err(e) => {
                return Err(e);
            },
        }
    }
    proof {
        match steps_from(views, pos as int) {
            Result::Ok(rest) => {
                assert(step_views(steps@) + rest =~= step_views(steps@));
            },
            Result::Err(_) => {},
        }
    }
    Ok(steps)
}

/// The models of a vector of pipeline commands.
pub open spec fn plan_command_views(s: Seq<PlanCommand>) -> Seq<PlanCommandModel>
    decreases s,
{
    if s.len() == 0 {
        Seq::empty()
    } else {
        plan_command_views(s.drop_last()).push(s.last()@)
    }
}

/// `plan_command_views` maps the sequence pointwise.
pub proof fn lemma_plan_command_views(s: Seq<PlanCommand>)
    ensures
        plan_command_views(s).len() == s.len(),
        forall|i: int| 0 <= i < s.len() ==> plan_command_views(s)[i] == s[i]@,
    decreases s,
{
    if s.len() > 0 {
        lemma_plan_command_views(s.drop_last());
        assert(plan_command_views(s) == plan_command_views(s.drop_last()).push(s.last()@));
        assert forall|i: int| 0 <= i < s.len() implies plan_command_views(s)[i] == s[i]@ by {
            if i < s.len() - 1 {
                assert(plan_command_views(s)[i] == plan_command_views(s.drop_last())[i]);
                assert(s.drop_last()[i] == s[i]);
            }
        }
    } else {
        assert(plan_command_views(s) == Seq::<PlanCommandModel>::empty());
    }
}

/// The pipeline commands parsed from the arguments, starting at `i`. The
/// grammar is the step grammar; an argument that is no step word is rejected
/// with an error naming it.
pub open spec fn commands_from(args: Seq<Seq<char>>, i: int) -> Result<
    Seq<PlanCommandModel>,
    Seq<char>,
>
    decreases args.len() - i,
{
    if !(0 <= i < args.len()) {
        Result::Ok(Seq::empty())
    } else if !is_known_word(args[i]) {
        Result::Err("Unknown command: "@ + args[i])
    } else {
        match step_parse_spec(args[i], args, i + 1) {
            Result::Ok((st, j)) => {
                match commands_from(args, crate::parser::past(args.len() as int, i, j)) {
                    Result::Ok(rest) => Result::Ok(seq![step_to_command(st)] + rest),
                    Result::Err(e) => Result::Err(e),
                }
            },
            Result::Err(e) => Result::Err(e),
        }
    }
}

/// The pipeline commands a whole argument list denotes.
pub open spec fn pipeline_commands_spec(args: Seq<Seq<char>>) -> Result<
    Seq<PlanCommandModel>,
    Seq<char>,
> {
    if args.len() == 0 {
        Result::Err("No valid commands found"@)
    } else {
        commands_from(args, 0)
    }
}

/// Already-parsed commands prefixed onto the rest of a pipeline parse.
pub open spec fn prepend_commands(
    p: Seq<PlanCommandModel>,
    r: Result<Seq<PlanCommandModel>, Seq<char>>,
) -> Result<Seq<PlanCommandModel>, Seq<char>> {
    match r {
        Result::Ok(rest) => Result::Ok(p + rest),
        Result::Err(e) => Result::Err(e),
    }
}

/// Parse a whole argument list into pipeline commands. Each step word
/// dispatches to its command's parser; the step grammar decides what each
/// command consumes.
pub fn parse_pipeline_with_registry(args: Vec<String>) -> (r: Result<Vec<PlanCommand>, String>)
    ensures
        match r {
            Result::Ok(cmds) => pipeline_commands_spec(str_views(args@)) == Result::<
                Seq<PlanCommandModel>,
                Seq<char>,
            >::Ok(plan_command_views(cmds@)),
            Result::Err(e) => pipeline_commands_spec(str_views(args@)) matches Result::Err(msg)
                && e@ == msg,
        },
{
    let ghost views = str_views(args@);
    proof {
        lemma_str_views(args@);
    }
    if args.len() == 0 {
        return Err(String::from_str("No valid commands found"));
    }
    let mut cmds: Vec<PlanCommand> = Vec::new();
    let mut pos: usize = 0;
    proof {
        assert(plan_command_views(cmds@) =~= Seq::<PlanCommandModel>::empty());
        assert(Seq::<PlanCommandModel>::empty() + Seq::<PlanCommandModel>::empty()
            =~= Seq::<PlanCommandModel>::empty());
    }
    while pos < args.len()
        invariant
            pos <= args@.len(),
            views == str_views(args@),
            views.len() == args@.len(),
            forall|j: int| 0 <= j < args@.len() ==> views[j] == args@[j]@,
            args@.len() > 0,
            commands_from(views, 0) == prepend_commands(
                plan_command_views(cmds@),
                commands_from(views, pos as int),
            ),
        decreases args@.len() - pos,
    {
        let ghost pre_pos = pos as int;
        let command = args[pos].clone();
        if !is_known_word_exec(command.as_str()) {
            let mut msg = String::from_str("Unknown command: ");
            msg.append(command.as_str());
            proof {
                assert(msg@ =~= "Unknown command: "@ + views[pre_pos]);
            }
            return Err(msg);
        }
        pos = pos + 1;
        match Step::parse_from_args(command.as_str(), &args, &mut pos) {
            Ok(st) => {
                proof {
                    assert(crate::parser::past(views.len() as int, pre_pos, pos as int)
                        == pos as int);
                }
                let cmd = st.to_command();
                let ghost pre_cmds = plan_command_views(cmds@);
                let ghost pre_vec = cmds@;
                cmds.push(cmd);
                proof {
                    assert(cmds@.drop_last() =~= pre_vec);
                    assert(plan_command_views(cmds@) == plan_command_views(
                        cmds@.drop_last(),
                    ).push(cmds@.last()@));
                    match commands_from(views, pos as int) {
                        Result::Ok(rest) => {
                            assert(pre_cmds.push(cmds@.last()@) + rest =~= pre_cmds + (seq![
                                cmds@.last()@,
                            ] + rest));
                        },
                        Result::Err(_) => {},
                    }
                }
            },
            Err(e) => {
                return Err(e);
            },
        }
    }
    proof {
        match commands_from(views, pos as int) {
            Result::Ok(rest) => {
                assert(plan_command_views(cmds@) + rest =~= plan_command_views(cmds@));
            },
            Result::Err(_) => {},
        }
    }
    Ok(cmds)
}

/// The parsed commands and everything their execution needs.
#[derive(Debug)]
pub struct ExecutionPlan {
    /// The commands, in execution order.
    pub commands: Vec<PlanCommand>,
    /// The input environment file path.
    pub input_env: String,
    /// The output environment file path, if any.
    pub output_env: Option<String>,
    /// Extra arguments for the container command.
    pub args: Vec<String>,
    /// Verbose output.
    pub verbose: bool,
    /// The runtime configuration.
    pub config: Config,
}

impl ExecutionPlan {
    /// A new, empty plan.
    pub fn new(
        input_env: String,
        output_env: Option<String>,
        args: Vec<String>,
        verbose: bool,
    ) -> (r: Self)
        ensures
            r.commands@.len() == 0,
            r.input_env@ == input_env@,
            r.output_env == output_env,
            r.args@ == args@,
            r.verbose == verbose,
            r.config@ == default_config(),
    {
        ExecutionPlan {
            commands: Vec::new(),
            input_env,
            output_env,
            args,
            verbose,
            config: Config::new(),
        }
    }

    /// Append a command to the plan.
    pub fn add_command(&mut self, command: PlanCommand)
        ensures
            final(self).commands@ == old(self).commands@.push(command),
            final(self).input_env == old(self).input_env,
            final(self).output_env == old(self).output_env,
            final(self).args == old(self).args,
            final(self).verbose == old(self).verbose,
            final(self).config == old(self).config,
    {
        self.commands.push(command);
    }

    /// Append an operation to the plan, as its command.
    pub fn add_operation(&mut self, operation: Operation)
        ensures
            final(self).commands@.len() == old(self).commands@.len() + 1,
            final(self).commands@.last()@ == operation_to_command(operation@),
            forall|j: int|
                0 <= j < old(self).commands@.len() ==> final(self).commands@[j] == old(
                    self,
                ).commands@[j],
            final(self).input_env == old(self).input_env,
            final(self).output_env == old(self).output_env,
            final(self).args == old(self).args,
            final(self).verbose == old(self).verbose,
            final(self).config == old(self).config,
    {
        let cmd = operation.to_command();
        self.commands.push(cmd);
    }

    /// Whether the plan holds any command.
    pub fn has_operations(&self) -> (r: bool)
        ensures
            r == (self.commands@.len() != 0),
    {
        self.commands.len() != 0
    }

    /// The display forms of the plan's commands, in order.
    pub fn operation_names(&self) -> (r: Vec<String>)
        ensures
            r@.len() == self.commands@.len(),
            forall|j: int|
                0 <= j < self.commands@.len() ==> r@[j]@ == plan_command_display(
                    self.commands@[j]@,
                ),
    {
        let mut r: Vec<String> = Vec::new();
        let mut i: usize = 0;
        while i < self.commands.len()
            invariant
                i <= self.commands@.len(),
                r@.len() == i,
                forall|j: int|
                    0 <= j < i ==> r@[j]@ == plan_command_display(self.commands@[j]@),
            decreases self.commands@.len() - i,
        {
            r.push(self.commands[i].display());
            i = i + 1;
        }
        r
    }

    /// A fresh execution context carrying the plan's configuration and
    /// parameters.
    pub fn create_execution_context(&self) -> (r: ExecutionContext)
        ensures
            r.config@ == self.config@,
            r.input_env@ == self.input_env@,
            match r.output_env {
                Option::Some(o) => self.output_env matches Option::Some(s) && o@ == s@,
                Option::None => self.output_env is None,
            },
            str_views(r.args@) == str_views(self.args@),
            r.verbose == self.verbose,
            r.host_project_path is None,
            r.docker_dev_path is None,
            r.env_vars is None,
            r.existing_env_vars is None,
            r.md5_values is None,
    {
        let output_env = match &self.output_env {
            Some(s) => Some(s.clone()),
            None => None,
        };
        let mut args: Vec<String> = Vec::new();
        let mut i: usize = 0;
        proof {
            lemma_str_views(self.args@);
        }
        while i < self.args.len()
            invariant
                i <= self.args@.len(),
                args@.len() == i,
                forall|j: int| 0 <= j < i ==> args@[j]@ == self.args@[j]@,
            decreases self.args@.len() - i,
        {
            args.push(self.args[i].clone());
            i = i + 1;
        }
        proof {
            lemma_str_views(args@);
            assert(str_views(args@) =~= str_views(self.args@));
        }
        ExecutionContext::new(
            self.config.clone(),
            self.input_env.clone(),
            output_env,
            args,
            self.verbose,
        )
    }
}

} // verus!
