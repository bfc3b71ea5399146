//! Configuration for the container-runner command, read from session
//! variables set by the configuration commands.

use vstd::prelude::*;
use vstd::string::*;

use crate::context::{assoc_get, Context, ContextModel};
use crate::values::{lemma_value_views, value_views, Value, ValueModel};

verus! {

/// Configuration of the container-runner command.
#[derive(Debug)]
pub struct DockerCommandConfig {
    /// Arguments for the compose invocation.
    pub compose_args: Vec<String>,
    /// Arguments naming the service and command to run.
    pub make_args: Vec<String>,
    /// Custom socket path; `None` means auto-detect.
    pub socket_path: Option<String>,
    /// Environment variables to set.
    pub env_vars: Vec<(String, String)>,
    /// Commands to run before the main invocation.
    pub pre_commands: Vec<Vec<String>>,
    /// Commands to run after the main invocation.
    pub post_commands: Vec<Vec<String>>,
}

/// Mathematical model of a `DockerCommandConfig`.
pub ghost struct DockerConfigModel {
    pub compose_args: Seq<Seq<char>>,
    pub make_args: Seq<Seq<char>>,
    pub socket_path: Option<Seq<char>>,
    pub env_vars: Seq<(Seq<char>, Seq<char>)>,
    pub pre_commands: Seq<Seq<Seq<char>>>,
    pub post_commands: Seq<Seq<Seq<char>>>,
}

/// The views of a vector of string pairs.
pub open spec fn pair_views(s: Seq<(String, String)>) -> Seq<(Seq<char>, Seq<char>)>
    decreases s,
{
    if s.len() == 0 {
        Seq::empty()
    } else {
        pair_views(s.drop_last()).push((s.last().0@, s.last().1@))
    }
}

/// `pair_views` maps the sequence pointwise.
pub proof fn lemma_pair_views(s: Seq<(String, String)>)
    ensures
        pair_views(s).len() == s.len(),
        forall|i: int| 0 <= i < s.len() ==> pair_views(s)[i] == (s[i].0@, s[i].1@),
    decreases s,
{
    if s.len() > 0 {
        lemma_pair_views(s.drop_last());
        assert(pair_views(s) == pair_views(s.drop_last()).push((s.last().0@, s.last().1@)));
        assert forall|i: int| 0 <= i < s.len() implies pair_views(s)[i] == (s[i].0@, s[i].1@) by {
            if i < s.len() - 1 {
                assert(pair_views(s)[i] == pair_views(s.drop_last())[i]);
                assert(s.drop_last()[i] == s[i]);
            }
        }
    } else {
        assert(pair_views(s) == Seq::<(Seq<char>, Seq<char>)>::empty());
    }
}

/// The views of a vector of strings.
pub open spec fn str_views(s: Seq<String>) -> Seq<Seq<char>>
    decreases s,
{
    if s.len() == 0 {
        Seq::empty()
    } else {
        str_views(s.drop_last()).push(s.last()@)
    }
}

/// `str_views` maps the sequence pointwise.
pub proof fn lemma_str_views(s: Seq<String>)
    ensures
        str_views(s).len() == s.len(),
        forall|i: int| 0 <= i < s.len() ==> str_views(s)[i] == s[i]@,
    decreases s,
{
    if s.len() > 0 {
        lemma_str_views(s.drop_last());
        assert(str_views(s) == str_views(s.drop_last()).push(s.last()@));
        assert forall|i: int| 0 <= i < s.len() implies str_views(s)[i] == s[i]@ by {
            if i < s.len() - 1 {
                assert(str_views(s)[i] == str_views(s.drop_last())[i]);
                assert(s.drop_last()[i] == s[i]);
            }
        }
    } else {
        assert(str_views(s) == Seq::<Seq<char>>::empty());
    }
}

/// The views of a vector of string vectors.
pub open spec fn strs_views(s: Seq<Vec<String>>) -> Seq<Seq<Seq<char>>>
    decreases s,
{
    if s.len() == 0 {
        Seq::empty()
    } else {
        strs_views(s.drop_last()).push(str_views(s.last()@))
    }
}

/// `strs_views` maps the sequence pointwise.
pub proof fn lemma_strs_views(s: Seq<Vec<String>>)
    ensures
        strs_views(s).len() == s.len(),
        forall|i: int| 0 <= i < s.len() ==> strs_views(s)[i] == str_views(s[i]@),
    decreases s,
{
    if s.len() > 0 {
        lemma_strs_views(s.drop_last());
        assert(strs_views(s) == strs_views(s.drop_last()).push(str_views(s.last()@)));
        assert forall|i: int| 0 <= i < s.len() implies strs_views(s)[i] == str_views(s[i]@) by {
            if i < s.len() - 1 {
                assert(strs_views(s)[i] == strs_views(s.drop_last())[i]);
                assert(s.drop_last()[i] == s[i]);
            }
        }
    } else {
        assert(strs_views(s) == Seq::<Seq<Seq<char>>>::empty());
    }
}

impl View for DockerCommandConfig {
    type V = DockerConfigModel;

    open spec fn view(&self) -> DockerConfigModel {
        DockerConfigModel {
            compose_args: str_views(self.compose_args@),
            make_args: str_views(self.make_args@),
            socket_path: match self.socket_path {
                Option::Some(s) => Option::Some(s@),
                Option::None => Option::None,
            },
            env_vars: pair_views(self.env_vars@),
            pre_commands: strs_views(self.pre_commands@),
            post_commands: strs_views(self.post_commands@),
        }
    }
}

/// The default compose arguments.
pub open spec fn default_compose_args() -> Seq<Seq<char>> {
    seq!["compose"@, "run"@, "--rm"@, "--no-deps"@, "-T"@]
}

/// The default make arguments.
pub open spec fn default_make_args() -> Seq<Seq<char>> {
    seq!["make"@, "make"@]
}

/// The model of the default configuration.
pub open spec fn default_docker_config() -> DockerConfigModel {
    DockerConfigModel {
        compose_args: default_compose_args(),
        make_args: default_make_args(),
        socket_path: Option::None,
        env_vars: Seq::empty(),
        pre_commands: Seq::empty(),
        post_commands: Seq::empty(),
    }
}

impl Default for DockerCommandConfig {
    /// The default configuration: the standard compose and make arguments, no
    /// custom socket, and no hooks.
    fn default() -> (r: Self)
        ensures
            r@ == default_docker_config(),
    {
        let mut compose_args: Vec<String> = Vec::new();
        compose_args.push(String::from_str("compose"));
        compose_args.push(String::from_str("run"));
        compose_args.push(String::from_str("--rm"));
        compose_args.push(String::from_str("--no-deps"));
        compose_args.push(String::from_str("-T"));
        let mut make_args: Vec<String> = Vec::new();
        make_args.push(String::from_str("make"));
        make_args.push(String::from_str("make"));
        let r = DockerCommandConfig {
            compose_args,
            make_args,
            socket_path: None,
            env_vars: Vec::new(),
            pre_commands: Vec::new(),
            post_commands: Vec::new(),
        };
        proof {
            lemma_str_views(r.compose_args@);
            lemma_str_views(r.make_args@);
            assert(str_views(r.compose_args@) =~= default_compose_args());
            assert(str_views(r.make_args@) =~= default_make_args());
            assert(pair_views(r.env_vars@) =~= Seq::<(Seq<char>, Seq<char>)>::empty());
            assert(strs_views(r.pre_commands@) =~= Seq::<Seq<Seq<char>>>::empty());
            assert(strs_views(r.post_commands@) =~= Seq::<Seq<Seq<char>>>::empty());
        }
        r
    }
}

/// The text payloads of a sequence of values, keeping string values only.
pub open spec fn str_payloads(items: Seq<ValueModel>) -> Seq<Seq<char>>
    decreases items,
{
    if items.len() == 0 {
        Seq::empty()
    } else {
        let p = str_payloads(items.drop_last());
        match items.last() {
            ValueModel::Str(s) => p.push(s),
            _ => p,
        }
    }
}

/// The command lines held by a sequence of hook values: each list element's
/// text payloads, empty command lines dropped.
pub open spec fn hook_payloads(hooks: Seq<ValueModel>) -> Seq<Seq<Seq<char>>>
    decreases hooks,
{
    if hooks.len() == 0 {
        Seq::empty()
    } else {
        let p = hook_payloads(hooks.drop_last());
        match hooks.last() {
            ValueModel::List(cmd) => if str_payloads(cmd).len() > 0 {
                p.push(str_payloads(cmd))
            } else {
                p
            },
            _ => p,
        }
    }
}

/// The compose arguments a variable value selects: the text payloads of a
/// list; anything else keeps the default.
pub open spec fn args_of_var(v: Option<ValueModel>, dflt: Seq<Seq<char>>) -> Seq<Seq<char>> {
    match v {
        Option::Some(ValueModel::List(items)) => str_payloads(items),
        _ => dflt,
    }
}

/// The hooks a variable value selects: the command lines of a list; anything
/// else means none.
pub open spec fn hooks_of_var(v: Option<ValueModel>) -> Seq<Seq<Seq<char>>> {
    match v {
        Option::Some(ValueModel::List(hooks)) => hook_payloads(hooks),
        _ => Seq::empty(),
    }
}

/// The socket path a variable value selects.
pub open spec fn socket_of_var(v: Option<ValueModel>) -> Option<Seq<char>> {
    match v {
        Option::Some(ValueModel::Str(s)) => Option::Some(s),
        _ => Option::None,
    }
}

/// The configuration the session variables describe.
pub open spec fn docker_config_spec(ctx: ContextModel) -> DockerConfigModel {
    DockerConfigModel {
        compose_args: args_of_var(
            assoc_get(ctx.variables, "docker_compose_args"@),
            default_compose_args(),
        ),
        make_args: args_of_var(assoc_get(ctx.variables, "docker_make_args"@), default_make_args()),
        socket_path: socket_of_var(assoc_get(ctx.variables, "docker_socket_path"@)),
        env_vars: Seq::empty(),
        pre_commands: hooks_of_var(assoc_get(ctx.variables, "docker_pre_hooks"@)),
        post_commands: hooks_of_var(assoc_get(ctx.variables, "docker_post_hooks"@)),
    }
}

/// The text payloads of a list value, as strings.
fn collect_str_payloads(items: &Vec<Value>) -> (r: Vec<String>)
    ensures
        str_views(r@) == str_payloads(value_views(items@)),
{
    let ghost models = value_views(items@);
    proof {
        lemma_value_views(items@);
    }
    let mut r: Vec<String> = Vec::new();
    let mut i: usize = 0;
    proof {
        lemma_str_views(r@);
        assert(str_views(r@) =~= str_payloads(models.take(0)));
    }
    while i < items.len()
        invariant
            i <= items@.len(),
            models == value_views(items@),
            models.len() == items@.len(),
            forall|j: int| 0 <= j < items@.len() ==> models[j] == items@[j]@,
            str_views(r@) == str_payloads(models.take(i as int)),
        decreases items@.len() - i,
    {
        proof {
            assert(models.take(i + 1).drop_last() =~= models.take(i as int));
            assert(models.take(i + 1).last() == models[i as int]);
        }
        match &items[i] {
            Value::Str(s) => {
                let ghost pre = r@;
                r.push(s.clone());
                proof {
                    assert(r@.drop_last() =~= pre);
                    assert(str_views(r@) == str_views(r@.drop_last()).push(r@.last()@));
                }
            },
            _ => {},
        }
        i = i + 1;
    }
    proof {
        assert(models.take(items@.len() as int) =~= models);
    }
    r
}

/// Build the container-runner configuration from the session variables. A
/// list under `docker_compose_args` or `docker_make_args` replaces the
/// default argument list with its text payloads; a string under
/// `docker_socket_path` sets the socket; lists of command lists under
/// `docker_pre_hooks` and `docker_post_hooks` queue hook commands; `nil` or
/// an unexpected shape keeps the default.
pub fn build_docker_config(ctx: &Context) -> (r: DockerCommandConfig)
    ensures
        r@ == docker_config_spec(ctx@),
{
    let mut config = DockerCommandConfig::default();
    match ctx.get_variable("docker_compose_args") {
        Some(v) => match v {
            Value::List(items) => {
                config.compose_args = collect_str_payloads(items);
            },
            _ => {},
        },
        None => {},
    }
    match ctx.get_variable("docker_make_args") {
        Some(v) => match v {
            Value::List(items) => {
                config.make_args = collect_str_payloads(items);
            },
            _ => {},
        },
        None => {},
    }
    match ctx.get_variable("docker_socket_path") {
        Some(v) => match v {
            Value::Str(path) => {
                config.socket_path = Some(path.clone());
            },
            _ => {
                config.socket_path = None;
            },
        },
        None => {},
    }
    match ctx.get_variable("docker_pre_hooks") {
        Some(v) => match v {
            Value::List(hooks) => {
                config.pre_commands = collect_hooks(hooks);
            },
            _ => {
                config.pre_commands = Vec::new();
                proof {
                    assert(strs_views(config.pre_commands@) =~= Seq::<Seq<Seq<char>>>::empty());
                }
            },
        },
        None => {},
    }
    match ctx.get_variable("docker_post_hooks") {
        Some(v) => match v {
            Value::List(hooks) => {
                config.post_commands = collect_hooks(hooks);
            },
            _ => {
                config.post_commands = Vec::new();
                proof {
                    assert(strs_views(config.post_commands@) =~= Seq::<Seq<Seq<char>>>::empty());
                }
            },
        },
        None => {},
    }
    config
}

/// The command lines held by a list of hook values.
fn collect_hooks(hooks: &Vec<Value>) -> (r: Vec<Vec<String>>)
    ensures
        strs_views(r@) == hook_payloads(value_views(hooks@)),
{
    let ghost models = value_views(hooks@);
    proof {
        lemma_value_views(hooks@);
    }
    let mut r: Vec<Vec<String>> = Vec::new();
    let mut i: usize = 0;
    proof {
        assert(strs_views(r@) =~= hook_payloads(models.take(0)));
    }
    while i < hooks.len()
        invariant
            i <= hooks@.len(),
            models == value_views(hooks@),
            models.len() == hooks@.len(),
            forall|j: int| 0 <= j < hooks@.len() ==> models[j] == hooks@[j]@,
            strs_views(r@) == hook_payloads(models.take(i as int)),
        decreases hooks@.len() - i,
    {
        proof {
            assert(models.take(i + 1).drop_last() =~= models.take(i as int));
            assert(models.take(i + 1).last() == models[i as int]);
        }
        match &hooks[i] {
            Value::List(cmd_args) => {
                let cmd = collect_str_payloads(cmd_args);
                proof {
                    crate::dockercfg::lemma_str_views(cmd@);
                }
                if cmd.len() > 0 {
                    let ghost pre = r@;
                    r.push(cmd);
                    proof {
                        assert(r@.drop_last() =~= pre);
                        assert(strs_views(r@) == strs_views(r@.drop_last()).push(
                            str_views(r@.last()@),
                        ));
                    }
                }
            },
            _ => {},
        }
        i = i + 1;
    }
    proof {
        assert(models.take(hooks@.len() as int) =~= models);
    }
    r
}

} // verus!
