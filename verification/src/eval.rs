//! The evaluator: dispatches compound forms to registered command handlers,
//! evaluating arguments strictly left to right, and converts atomic literals
//! through the value model. Every handler is specified as a pure transformer
//! of the session context, and `evaluate` is proved equal to that
//! specification.

use vstd::prelude::*;
use vstd::string::*;
use vstd::wrapping::i64_specs;

use crate::ast::{ast_views, lemma_ast_views, value_of_ast, Ast, AstModel};
use crate::context::{assoc_get, assoc_set, debug_info_spec, Context, ContextModel};
use crate::dockercfg::{build_docker_config, docker_config_spec, str_views};
use crate::helptext::{
    help_detail, help_long_text, help_overview, render_help_detail, render_help_long,
    render_help_overview, render_show_config, show_config_text,
};
use crate::parser::{normalize_spec, parse_string, parse_string_normalized, parse_string_spec};
use crate::registry::{reg_get, Command, Handler};
use crate::strutil::{int_str, lower_spec, str_eq, to_ascii_lowercase};
use crate::values::{
    lemma_value_views, val_str, vals_str, value_views, Value, ValueModel,
};

verus! {

/// The outcome of one evaluation step: a value or an error message.
pub type Outcome = Result<ValueModel, Seq<char>>;

/// Whether an executable result carries exactly the outcome of the model.
pub open spec fn outcome_matches(r: Result<Value, String>, out: Outcome) -> bool {
    match r {
        Result::Ok(v) => out == Outcome::Ok(v@),
        Result::Err(e) => out == Outcome::Err(e@),
    }
}

/// Sum over one list argument's elements.
pub open spec fn sum_list(items: Seq<ValueModel>, acc: i64) -> Result<i64, Seq<char>>
    decreases items.len(),
{
    if items.len() == 0 {
        Result::Ok(acc)
    } else {
        match items[0] {
            ValueModel::Int(i) => sum_list(
                items.drop_first(),
                i64_specs::wrapping_add(acc, i as i64),
            ),
            _ => Result::Err("Cannot sum non-integer value: "@ + val_str(items[0])),
        }
    }
}

/// Sum over the arguments: integers and lists of integers.
pub open spec fn sum_fold(args: Seq<ValueModel>, acc: i64) -> Result<i64, Seq<char>>
    decreases args.len(),
{
    if args.len() == 0 {
        Result::Ok(acc)
    } else {
        match args[0] {
            ValueModel::Int(i) => sum_fold(args.drop_first(), i64_specs::wrapping_add(acc, i as i64)),
            ValueModel::List(items) => match sum_list(items, acc) {
                Result::Ok(acc2) => sum_fold(args.drop_first(), acc2),
                Result::Err(e) => Result::Err(e),
            },
            _ => Result::Err("Cannot sum non-integer value: "@ + val_str(args[0])),
        }
    }
}

/// The sum command: the wrapped sum of all integer arguments and elements of
/// list arguments; an error naming the first non-integer encountered.
pub open spec fn sum_spec(args: Seq<ValueModel>) -> Outcome {
    match sum_fold(args, 0i64) {
        Result::Ok(total) => Outcome::Ok(ValueModel::Int(total as int)),
        Result::Err(e) => Outcome::Err(e),
    }
}

/// The multiply command: the wrapped product of exactly two integers.
pub open spec fn multiply_spec(args: Seq<ValueModel>) -> Outcome {
    if args.len() != 2 {
        Outcome::Err("multiply expects exactly 2 arguments"@)
    } else {
        match args[0] {
            ValueModel::Int(a) => match args[1] {
                ValueModel::Int(b) => Outcome::Ok(
                    ValueModel::Int(i64_specs::wrapping_mul(a as i64, b as i64) as int),
                ),
                _ => Outcome::Err(crate::values::expected_msg("Expected integer, got: "@, args[1])),
            },
            _ => Outcome::Err(crate::values::expected_msg("Expected integer, got: "@, args[0])),
        }
    }
}

/// The concatenation of the rendered arguments, with no separator.
pub open spec fn vals_concat(args: Seq<ValueModel>) -> Seq<char>
    decreases args,
{
    if args.len() == 0 {
        Seq::empty()
    } else {
        vals_concat(args.drop_last()) + val_str(args.last())
    }
}

/// Scanning the pipe arguments after the first: an empty command list is
/// skipped; a nonempty one is re-evaluated, which always fails the head
/// check, since a converted value never holds a symbol in head position; a
/// non-list argument is rejected.
pub open spec fn pipe_scan(args: Seq<ValueModel>, i: int) -> Outcome
    decreases args.len() - i,
{
    if i < 0 || i >= args.len() {
        Outcome::Ok(args[0])
    } else {
        match args[i] {
            ValueModel::List(items) => if items.len() == 0 {
                pipe_scan(args, i + 1)
            } else {
                Outcome::Err("First element of list must be a command name"@)
            },
            _ => Outcome::Err("Pipe arguments must be command lists"@),
        }
    }
}

/// The pipe command.
pub open spec fn pipe_spec(args: Seq<ValueModel>) -> Outcome {
    if args.len() == 0 {
        Outcome::Ok(ValueModel::Nil)
    } else {
        pipe_scan(args, 1)
    }
}

/// The text forms of the arguments: strings kept, integers rendered, anything
/// else unacceptable.
pub open spec fn strs_of_args(args: Seq<ValueModel>) -> Option<Seq<Seq<char>>>
    decreases args,
{
    if args.len() == 0 {
        Option::Some(Seq::empty())
    } else {
        match strs_of_args(args.drop_last()) {
            Option::Some(p) => match args.last() {
                ValueModel::Str(s) => Option::Some(p.push(s)),
                ValueModel::Int(i) => Option::Some(p.push(int_str(i))),
                _ => Option::None,
            },
            Option::None => Option::None,
        }
    }
}

/// The string values the arguments convert to, for hook command lines.
pub open spec fn strvals_of_args(args: Seq<ValueModel>) -> Option<Seq<ValueModel>> {
    match strs_of_args(args) {
        Option::Some(ss) => Option::Some(Seq::new(ss.len(), |i: int| ValueModel::Str(ss[i]))),
        Option::None => Option::None,
    }
}

/// The prior hook list held by a variable: a list's elements, else none.
pub open spec fn prior_hooks(v: Option<ValueModel>) -> Seq<ValueModel> {
    match v {
        Option::Some(ValueModel::List(h)) => h,
        _ => Seq::empty(),
    }
}

/// The context with one piece of console text appended to the output log.
pub open spec fn logged(ctx: ContextModel, line: Seq<char>) -> ContextModel {
    ContextModel { output: ctx.output.push(line), ..ctx }
}

/// What one handler yields and how it changes the context, as a function of
/// the fully evaluated arguments and the context at call time.
pub open spec fn run_handler(h: Handler, args: Seq<ValueModel>, ctx: ContextModel) -> (
    Outcome,
    ContextModel,
) {
    match h {
        Handler::Print => (
            Outcome::Ok(ValueModel::Str(vals_str(args))),
            logged(ctx, vals_str(args) + "\n"@),
        ),
        Handler::Sum => (sum_spec(args), ctx),
        Handler::Multiply => (multiply_spec(args), ctx),
        Handler::Concat => (Outcome::Ok(ValueModel::Str(vals_concat(args))), ctx),
        Handler::Debug => if args.len() == 0 {
            (
                Outcome::Ok(ValueModel::Str(debug_info_spec(ctx))),
                logged(ctx, debug_info_spec(ctx)),
            )
        } else if args.len() != 1 {
            (
                Outcome::Err(
                    "{EmojiCatalog::} debug command accepts either no arguments or exactly one argument (true/false)"@,
                ),
                ctx,
            )
        } else {
            match args[0] {
                ValueModel::Str(s) => if lower_spec(s) == "true"@ {
                    (
                        Outcome::Ok(ValueModel::Str("Debug printing enabled"@)),
                        ContextModel {
                            debug_print: true,
                            ..logged(ctx, "{EMOJI_THINKING} Debug printing enabled"@ + "\n"@)
                        },
                    )
                } else if lower_spec(s) == "false"@ {
                    (
                        Outcome::Ok(ValueModel::Str("Debug printing disabled"@)),
                        ContextModel {
                            debug_print: false,
                            ..logged(ctx, "{EMOJI_THINKING} Debug printing disabled"@ + "\n"@)
                        },
                    )
                } else {
                    (Outcome::Err("debug command argument must be 'true' or 'false'"@), ctx)
                },
                _ => (
                    Outcome::Err("debug command argument must be a string ('true' or 'false')"@),
                    ctx,
                ),
            }
        },
        Handler::Pipe => (pipe_spec(args), ctx),
        Handler::ListNew => (Outcome::Ok(ValueModel::List(args)), ctx),
        Handler::ListFirst => if args.len() != 1 {
            (Outcome::Err("first expects exactly one argument"@), ctx)
        } else {
            match args[0] {
                ValueModel::List(items) => if items.len() == 0 {
                    (Outcome::Ok(ValueModel::Nil), ctx)
                } else {
                    (Outcome::Ok(items[0]), ctx)
                },
                _ => (Outcome::Err("first expects a list argument"@), ctx),
            }
        },
        Handler::ListRest => if args.len() != 1 {
            (Outcome::Err("rest expects exactly one argument"@), ctx)
        } else {
            match args[0] {
                ValueModel::List(items) => if items.len() <= 1 {
                    (Outcome::Ok(ValueModel::List(Seq::empty())), ctx)
                } else {
                    (Outcome::Ok(ValueModel::List(items.drop_first())), ctx)
                },
                _ => (Outcome::Err("rest expects a list argument"@), ctx),
            }
        },
        Handler::Help => if args.len() > 1 {
            (Outcome::Err("help expects at most one argument"@), ctx)
        } else if args.len() == 1 {
            match args[0] {
                ValueModel::Str(name) => match reg_get(ctx.registry, name) {
                    Option::Some(c) => (
                        Outcome::Ok(ValueModel::Str(help_detail(name, c))),
                        logged(ctx, help_detail(name, c) + "\n"@),
                    ),
                    Option::None => (
                        Outcome::Err("Command '"@ + name + "' not found"@),
                        ctx,
                    ),
                },
                _ => (Outcome::Err("Command name must be a string"@), ctx),
            }
        } else {
            (
                Outcome::Ok(ValueModel::Str(help_overview(ctx.registry))),
                logged(ctx, help_overview(ctx.registry) + "\n"@),
            )
        },
        Handler::HelpLong => if args.len() != 0 {
            (Outcome::Err("help-long expects no arguments"@), ctx)
        } else {
            (
                Outcome::Ok(ValueModel::Str(help_long_text(ctx.registry))),
                logged(ctx, help_long_text(ctx.registry) + "\n"@),
            )
        },
        Handler::GetVar => if args.len() != 1 {
            (Outcome::Err("get-var expects exactly one argument (key)"@), ctx)
        } else {
            match args[0] {
                ValueModel::Str(key) => match assoc_get(ctx.variables, key) {
                    Option::Some(v) => (Outcome::Ok(v), ctx),
                    Option::None => (
                        Outcome::Err("Variable '"@ + key + "' not found"@),
                        ctx,
                    ),
                },
                _ => (Outcome::Err("get-var key must be a string"@), ctx),
            }
        },
        Handler::SetVar => if args.len() != 2 {
            (Outcome::Err("set-var expects exactly two arguments (key, value)"@), ctx)
        } else {
            match args[0] {
                ValueModel::Str(key) => match args[1] {
                    ValueModel::Str(value) => {
                        let stored = crate::interp::interp_spec(
                            value,
                            ctx.variables,
                            ctx.environment,
                        );
                        (
                            Outcome::Ok(
                                ValueModel::Str(
                                    "Variable '"@ + key + "' set to '"@ + stored + "'"@,
                                ),
                            ),
                            ContextModel {
                                variables: assoc_set(ctx.variables, key, ValueModel::Str(stored)),
                                ..ctx
                            },
                        )
                    },
                    _ => (Outcome::Err("set-var value must be a string"@), ctx),
                },
                _ => (Outcome::Err("set-var key must be a string"@), ctx),
            }
        },
        Handler::GetBasedir => if args.len() != 0 {
            (Outcome::Err("get-basedir expects no arguments"@), ctx)
        } else {
            (Outcome::Ok(ValueModel::Str(ctx.basedir)), ctx)
        },
        Handler::DockerComposeArgs => match strs_of_args(args) {
            Option::Some(ss) => (
                Outcome::Ok(ValueModel::Str("Docker Compose arguments configured"@)),
                ContextModel {
                    variables: assoc_set(
                        ctx.variables,
                        "docker_compose_args"@,
                        ValueModel::List(Seq::new(ss.len(), |i: int| ValueModel::Str(ss[i]))),
                    ),
                    ..ctx
                },
            ),
            Option::None => (
                Outcome::Err("docker-compose-args arguments must be strings or integers"@),
                ctx,
            ),
        },
        Handler::DockerMakeArgs => match strs_of_args(args) {
            Option::Some(ss) => (
                Outcome::Ok(ValueModel::Str("Docker make arguments configured"@)),
                ContextModel {
                    variables: assoc_set(
                        ctx.variables,
                        "docker_make_args"@,
                        ValueModel::List(Seq::new(ss.len(), |i: int| ValueModel::Str(ss[i]))),
                    ),
                    ..ctx
                },
            ),
            Option::None => (
                Outcome::Err("docker-make-args arguments must be strings or integers"@),
                ctx,
            ),
        },
        Handler::DockerSocket => if args.len() != 1 {
            (Outcome::Err("docker-socket requires exactly one argument (socket path)"@), ctx)
        } else {
            match args[0] {
                ValueModel::Str(path) => (
                    Outcome::Ok(ValueModel::Str("Docker socket path set to: "@ + path)),
                    ContextModel {
                        variables: assoc_set(
                            ctx.variables,
                            "docker_socket_path"@,
                            ValueModel::Str(path),
                        ),
                        ..ctx
                    },
                ),
                _ => (Outcome::Err("docker-socket argument must be a string"@), ctx),
            }
        },
        Handler::DockerPre => if args.len() == 0 {
            (Outcome::Err("docker-pre requires at least one argument (command)"@), ctx)
        } else {
            match strvals_of_args(args) {
                Option::Some(cmd) => (
                    Outcome::Ok(ValueModel::Str("Docker pre-hook command added"@)),
                    ContextModel {
                        variables: assoc_set(
                            ctx.variables,
                            "docker_pre_hooks"@,
                            ValueModel::List(
                                prior_hooks(assoc_get(ctx.variables, "docker_pre_hooks"@)).push(
                                    ValueModel::List(cmd),
                                ),
                            ),
                        ),
                        ..ctx
                    },
                ),
                Option::None => (
                    Outcome::Err("docker-pre arguments must be strings or integers"@),
                    ctx,
                ),
            }
        },
        Handler::DockerPost => if args.len() == 0 {
            (Outcome::Err("docker-post requires at least one argument (command)"@), ctx)
        } else {
            match strvals_of_args(args) {
                Option::Some(cmd) => (
                    Outcome::Ok(ValueModel::Str("Docker post-hook command added"@)),
                    ContextModel {
                        variables: assoc_set(
                            ctx.variables,
                            "docker_post_hooks"@,
                            ValueModel::List(
                                prior_hooks(assoc_get(ctx.variables, "docker_post_hooks"@)).push(
                                    ValueModel::List(cmd),
                                ),
                            ),
                        ),
                        ..ctx
                    },
                ),
                Option::None => (
                    Outcome::Err("docker-post arguments must be strings or integers"@),
                    ctx,
                ),
            }
        },
        Handler::DockerReset => if args.len() != 0 {
            (Outcome::Err("docker-reset takes no arguments"@), ctx)
        } else {
            (
                Outcome::Ok(ValueModel::Str("Docker configuration reset to defaults"@)),
                ContextModel {
                    variables: assoc_set(
                        assoc_set(
                            assoc_set(
                                assoc_set(
                                    assoc_set(
                                        ctx.variables,
                                        "docker_compose_args"@,
                                        ValueModel::Nil,
                                    ),
                                    "docker_make_args"@,
                                    ValueModel::Nil,
                                ),
                                "docker_socket_path"@,
                                ValueModel::Nil,
                            ),
                            "docker_pre_hooks"@,
                            ValueModel::Nil,
                        ),
                        "docker_post_hooks"@,
                        ValueModel::Nil,
                    ),
                    ..ctx
                },
            )
        },
        Handler::DockerShowConfig => if args.len() != 0 {
            (Outcome::Err("docker-show-config takes no arguments"@), ctx)
        } else {
            (
                Outcome::Ok(ValueModel::Str(show_config_text(docker_config_spec(ctx)))),
                logged(ctx, show_config_text(docker_config_spec(ctx)) + "\n"@),
            )
        },
    }
}

/// Evaluation of one expression: a compound form dispatches its symbol head
/// through the registry and evaluates the arguments strictly left to right;
/// an atomic literal denotes its value.
pub open spec fn eval_spec(ast: AstModel, ctx: ContextModel) -> (Outcome, ContextModel)
    decreases ast,
{
    match ast {
        AstModel::List(items) => {
            if items.len() == 0 {
                (Outcome::Err("First element of list must be a command name"@), ctx)
            } else {
                match items[0] {
                    AstModel::Symbol(name) => match reg_get(ctx.registry, name) {
                        Option::None => (
                            Outcome::Err("Unknown command: "@ + name),
                            ctx,
                        ),
                        Option::Some(cmd) => {
                            let (argr, ctx2) = eval_args_spec(items.drop_first(), ctx);
                            match argr {
                                Result::Ok(vals) => run_handler(cmd.handler, vals, ctx2),
                                Result::Err(e) => (Outcome::Err(e), ctx2),
                            }
                        },
                    },
                    _ => (Outcome::Err("First element of list must be a command name"@), ctx),
                }
            }
        },
        _ => (Outcome::Ok(value_of_ast(ast)), ctx),
    }
}

/// Evaluation of a sequence of argument expressions, left to right, threading
/// the context.
pub open spec fn eval_args_spec(items: Seq<AstModel>, ctx: ContextModel) -> (
    Result<Seq<ValueModel>, Seq<char>>,
    ContextModel,
)
    decreases items,
{
    if items.len() == 0 {
        (Result::Ok(Seq::empty()), ctx)
    } else {
        let (r0, ctx1) = eval_spec(items[0], ctx);
        match r0 {
            Result::Ok(v) => {
                let (rr, ctx2) = eval_args_spec(items.drop_first(), ctx1);
                match rr {
                    Result::Ok(vs) => (Result::Ok(seq![v] + vs), ctx2),
                    Result::Err(e) => (Result::Err(e), ctx2),
                }
            },
            Result::Err(e) => (Result::Err(e), ctx1),
        }
    }
}

/// Already-evaluated arguments prefixed onto the rest of an argument
/// evaluation.
pub open spec fn args_prepend(
    p: Seq<ValueModel>,
    r: (Result<Seq<ValueModel>, Seq<char>>, ContextModel),
) -> (Result<Seq<ValueModel>, Seq<char>>, ContextModel) {
    match r.0 {
        Result::Ok(vs) => (Result::Ok(p + vs), r.1),
        Result::Err(e) => (Result::Err(e), r.1),
    }
}

fn err_string(s: &'static str) -> (r: Result<Value, String>)
    ensures
        r matches Result::Err(e) && e@ == s@,
{
    Err(String::from_str(s))
}

fn ok_str(s: &'static str) -> (r: Result<Value, String>)
    ensures
        r matches Result::Ok(v) && v@ == ValueModel::Str(s@),
{
    Ok(Value::Str(String::from_str(s)))
}

fn exec_sum(args: &Vec<Value>) -> (r: Result<Value, String>)
    ensures
        outcome_matches(r, sum_spec(value_views(args@))),
{
    let ghost models = value_views(args@);
    proof {
        lemma_value_views(args@);
        assert(models.skip(0) =~= models);
    }
    let mut total: i64 = 0;
    let mut i: usize = 0;
    while i < args.len()
        invariant
            i <= args@.len(),
            models == value_views(args@),
            models.len() == args@.len(),
            forall|j: int| 0 <= j < args@.len() ==> models[j] == args@[j]@,
            sum_fold(models, 0i64) == sum_fold(models.skip(i as int), total),
        decreases args@.len() - i,
    {
        let ghost rest = models.skip(i as int);
        proof {
            assert(rest[0] == models[i as int]);
            assert(rest.drop_first() =~= models.skip(i + 1));
        }
        match &args[i] {
            Value::Int(v) => {
                total = total.wrapping_add(*v);
            },
            Value::List(items) => {
                let ghost lmodels = value_views(items@);
                let ghost sum_start = total;
                proof {
                    lemma_value_views(items@);
                    assert(lmodels.skip(0) =~= lmodels);
                }
                let mut k: usize = 0;
                while k < items.len()
                    invariant
                        k <= items@.len(),
                        models == value_views(args@),
                        lmodels == value_views(items@),
                        lmodels.len() == items@.len(),
                        forall|j: int| 0 <= j < items@.len() ==> lmodels[j] == items@[j]@,
                        sum_list(lmodels, sum_start) == sum_list(lmodels.skip(k as int), total),
                        sum_fold(models, 0i64) == match sum_list(lmodels, sum_start) {
                            Result::Ok(a2) => sum_fold(models.skip(i + 1), a2),
                            Result::Err(e) => Result::Err(e),
                        },
                    decreases items@.len() - k,
                {
                    let ghost lrest = lmodels.skip(k as int);
                    proof {
                        assert(lrest[0] == lmodels[k as int]);
                        assert(lrest.drop_first() =~= lmodels.skip(k + 1));
                    }
                    match &items[k] {
                        Value::Int(v) => {
                            total = total.wrapping_add(*v);
                        },
                        _ => {
                            let mut msg = String::from_str("Cannot sum non-integer value: ");
                            let shown = items[k].to_string();
                            msg.append(shown.as_str());
                            proof {
                                assert(msg@ =~= "Cannot sum non-integer value: "@ + val_str(
                                    lmodels[k as int],
                                ));
                            }
                            return Err(msg);
                        },
                    }
                    k = k + 1;
                }
                proof {
                    assert(lmodels.skip(items@.len() as int).len() == 0);
                }
            },
            _ => {
                let mut msg = String::from_str("Cannot sum non-integer value: ");
                let shown = args[i].to_string();
                msg.append(shown.as_str());
                proof {
                    assert(msg@ =~= "Cannot sum non-integer value: "@ + val_str(
                        models[i as int],
                    ));
                }
                return Err(msg);
            },
        }
        i = i + 1;
    }
    proof {
        assert(models.skip(args@.len() as int).len() == 0);
    }
    Ok(Value::Int(total))
}

fn exec_multiply(args: &Vec<Value>) -> (r: Result<Value, String>)
    ensures
        outcome_matches(r, multiply_spec(value_views(args@))),
{
    proof {
        lemma_value_views(args@);
    }
    if args.len() != 2 {
        return err_string("multiply expects exactly 2 arguments");
    }
    let a = match crate::values::value_to_int(&args[0]) {
        Ok(v) => v,
        Err(e) => {
            return Err(e);
        },
    };
    let b = match crate::values::value_to_int(&args[1]) {
        Ok(v) => v,
        Err(e) => {
            return Err(e);
        },
    };
    Ok(Value::Int(a.wrapping_mul(b)))
}

fn render_print(args: &Vec<Value>) -> (r: String)
    ensures
        r@ == vals_str(value_views(args@)),
{
    let ghost models = value_views(args@);
    proof {
        lemma_value_views(args@);
    }
    let mut out = String::new();
    let mut i: usize = 0;
    while i < args.len()
        invariant
            i <= args@.len(),
            models == value_views(args@),
            models.len() == args@.len(),
            forall|j: int| 0 <= j < args@.len() ==> models[j] == args@[j]@,
            out@ == vals_str(models.take(i as int)),
        decreases args@.len() - i,
    {
        if i > 0 {
            crate::strutil::push_char(&mut out, ' ');
        }
        let shown = args[i].to_string();
        out.append(shown.as_str());
        proof {
            crate::values::lemma_vals_str_snoc(models.take(i as int), models[i as int]);
            assert(models.take(i + 1) =~= models.take(i as int).push(models[i as int]));
            assert(out@ =~= vals_str(models.take(i + 1)));
        }
        i = i + 1;
    }
    proof {
        assert(models.take(args@.len() as int) =~= models);
    }
    out
}

fn exec_concat(args: &Vec<Value>) -> (r: Result<Value, String>)
    ensures
        outcome_matches(r, Outcome::Ok(ValueModel::Str(vals_concat(value_views(args@))))),
{
    let ghost models = value_views(args@);
    proof {
        lemma_value_views(args@);
    }
    let mut out = String::new();
    let mut i: usize = 0;
    while i < args.len()
        invariant
            i <= args@.len(),
            models == value_views(args@),
            models.len() == args@.len(),
            forall|j: int| 0 <= j < args@.len() ==> models[j] == args@[j]@,
            out@ == vals_concat(models.take(i as int)),
        decreases args@.len() - i,
    {
        let shown = args[i].to_string();
        out.append(shown.as_str());
        proof {
            assert(models.take(i + 1).drop_last() =~= models.take(i as int));
            assert(models.take(i + 1).last() == models[i as int]);
            assert(out@ =~= vals_concat(models.take(i + 1)));
        }
        i = i + 1;
    }
    proof {
        assert(models.take(args@.len() as int) =~= models);
    }
    Ok(Value::Str(out))
}

fn exec_pipe(args: &Vec<Value>) -> (r: Result<Value, String>)
    ensures
        outcome_matches(r, pipe_spec(value_views(args@))),
{
    let ghost models = value_views(args@);
    proof {
        lemma_value_views(args@);
    }
    if args.len() == 0 {
        return Ok(Value::Nil);
    }
    let mut i: usize = 1;
    while i < args.len()
        invariant
            1 <= i <= args@.len(),
            args@.len() >= 1,
            models == value_views(args@),
            models.len() == args@.len(),
            forall|j: int| 0 <= j < args@.len() ==> models[j] == args@[j]@,
            pipe_scan(models, 1) == pipe_scan(models, i as int),
        decreases args@.len() - i,
    {
        match &args[i] {
            Value::List(items) => {
                if items.len() != 0 {
                    proof {
                        lemma_value_views(items@);
                        assert(models[i as int] matches ValueModel::List(l) && l.len() != 0);
                    }
                    return err_string("First element of list must be a command name");
                }
                proof {
                    lemma_value_views(items@);
                }
            },
            _ => {
                return err_string("Pipe arguments must be command lists");
            },
        }
        i = i + 1;
    }
    let first = args[0].clone();
    Ok(first)
}

fn exec_list_first(args: &Vec<Value>) -> (r: Result<Value, String>)
    ensures
        outcome_matches(
            r,
            if value_views(args@).len() != 1 {
                Outcome::Err("first expects exactly one argument"@)
            } else {
                match value_views(args@)[0] {
                    ValueModel::List(items) => if items.len() == 0 {
                        Outcome::Ok(ValueModel::Nil)
                    } else {
                        Outcome::Ok(items[0])
                    },
                    _ => Outcome::Err("first expects a list argument"@),
                }
            },
        ),
{
    proof {
        lemma_value_views(args@);
    }
    if args.len() != 1 {
        return err_string("first expects exactly one argument");
    }
    match &args[0] {
        Value::List(items) => {
            proof {
                lemma_value_views(items@);
            }
            if items.len() == 0 {
                Ok(Value::Nil)
            } else {
                Ok(items[0].clone())
            }
        },
        _ => err_string("first expects a list argument"),
    }
}

fn exec_list_rest(args: &Vec<Value>) -> (r: Result<Value, String>)
    ensures
        outcome_matches(
            r,
            if value_views(args@).len() != 1 {
                Outcome::Err("rest expects exactly one argument"@)
            } else {
                match value_views(args@)[0] {
                    ValueModel::List(items) => if items.len() <= 1 {
                        Outcome::Ok(ValueModel::List(Seq::empty()))
                    } else {
                        Outcome::Ok(ValueModel::List(items.drop_first()))
                    },
                    _ => Outcome::Err("rest expects a list argument"@),
                }
            },
        ),
{
    proof {
        lemma_value_views(args@);
    }
    if args.len() != 1 {
        return err_string("rest expects exactly one argument");
    }
    match &args[0] {
        Value::List(items) => {
            let ghost lmodels = value_views(items@);
            proof {
                lemma_value_views(items@);
            }
            if items.len() <= 1 {
                let empty: Vec<Value> = Vec::new();
                proof {
                    lemma_value_views(empty@);
                    assert(value_views(empty@) =~= Seq::<ValueModel>::empty());
                }
                Ok(Value::List(empty))
            } else {
                let mut rest: Vec<Value> = Vec::new();
                let mut k: usize = 1;
                while k < items.len()
                    invariant
                        1 <= k <= items@.len(),
                        lmodels == value_views(items@),
                        lmodels.len() == items@.len(),
                        forall|j: int| 0 <= j < items@.len() ==> lmodels[j] == items@[j]@,
                        rest@.len() == k - 1,
                        forall|j: int| 0 <= j < k - 1 ==> rest@[j]@ == lmodels[j + 1],
                    decreases items@.len() - k,
                {
                    rest.push(items[k].clone());
                    k = k + 1;
                }
                proof {
                    lemma_value_views(rest@);
                    assert(value_views(rest@) =~= lmodels.drop_first());
                }
                Ok(Value::List(rest))
            }
        },
        _ => err_string("rest expects a list argument"),
    }
}

/// Convert the arguments to text: strings kept, integers rendered.
fn args_to_strings(args: &Vec<Value>) -> (r: Result<Vec<String>, ()>)
    ensures
        match r {
            Result::Ok(ss) => strs_of_args(value_views(args@)) == Option::Some(str_views(ss@)),
            Result::Err(_) => strs_of_args(value_views(args@)) is None,
        },
{
    let ghost models = value_views(args@);
    proof {
        lemma_value_views(args@);
    }
    let mut ss: Vec<String> = Vec::new();
    let mut i: usize = 0;
    proof {
        crate::dockercfg::lemma_str_views(ss@);
        assert(str_views(ss@) =~= Seq::<Seq<char>>::empty());
        assert(strs_of_args(models.take(0)) == Option::Some(str_views(ss@)));
    }
    while i < args.len()
        invariant
            i <= args@.len(),
            models == value_views(args@),
            models.len() == args@.len(),
            forall|j: int| 0 <= j < args@.len() ==> models[j] == args@[j]@,
            strs_of_args(models.take(i as int)) == Option::Some(str_views(ss@)),
        decreases args@.len() - i,
    {
        proof {
            assert(models.take(i + 1).drop_last() =~= models.take(i as int));
            assert(models.take(i + 1).last() == models[i as int]);
        }
        let ghost pre = ss@;
        match &args[i] {
            Value::Str(s) => {
                ss.push(s.clone());
            },
            Value::Int(v) => {
                ss.push(crate::strutil::i64_to_string(*v));
            },
            _ => {
                proof {
                    assert(strs_of_args(models.take(i + 1)) is None);
                    lemma_strs_of_args_extend_none(models, i as int);
                }
                return Err(());
            },
        }
        proof {
            assert(ss@.drop_last() =~= pre);
            assert(str_views(ss@) == str_views(ss@.drop_last()).push(ss@.last()@));
        }
        i = i + 1;
    }
    proof {
        assert(models.take(args@.len() as int) =~= models);
    }
    Ok(ss)
}

/// Once a prefix of the arguments is unacceptable, the whole sequence is.
proof fn lemma_strs_of_args_extend_none(models: Seq<ValueModel>, i: int)
    requires
        0 <= i < models.len(),
        strs_of_args(models.take(i + 1)) is None,
    ensures
        strs_of_args(models) is None,
    decreases models.len() - i,
{
    if i + 1 == models.len() {
        assert(models.take(i + 1) =~= models);
    } else {
        assert(models.take(i + 2).drop_last() =~= models.take(i + 1));
        lemma_strs_of_args_extend_none(models, i + 1);
    }
}

/// Build the string-value list for a converted argument vector.
fn strings_as_values(ss: Vec<String>) -> (r: Vec<Value>)
    ensures
        value_views(r@) == Seq::new(str_views(ss@).len(), |i: int| ValueModel::Str(str_views(ss@)[i])),
{
    let ghost views = str_views(ss@);
    proof {
        crate::dockercfg::lemma_str_views(ss@);
    }
    let vals = crate::values::strings_to_values(ss);
    proof {
        assert(value_views(vals@) =~= Seq::new(
            views.len(),
            |i: int| ValueModel::Str(views[i]),
        ));
    }
    vals
}

impl Command {
    /// Run this command's behavior on fully evaluated arguments and the
    /// session context.
    pub fn execute(&self, args: Vec<Value>, ctx: &mut Context) -> (r: Result<Value, String>)
        ensures
            ({
                let (out, c2) = run_handler(self@.handler, value_views(args@), old(ctx)@);
                outcome_matches(r, out) && final(ctx)@ == c2
            }),
    {
        let ghost models = value_views(args@);
        proof {
            lemma_value_views(args@);
        }
        match self.handler {
            Handler::Print => {
                let text = render_print(&args);
                let mut line = text.clone();
                line.append("\n");
                ctx.emit(line);
                Ok(Value::Str(text))
            },
            Handler::Sum => exec_sum(&args),
            Handler::Multiply => exec_multiply(&args),
            Handler::Concat => exec_concat(&args),
            Handler::Pipe => exec_pipe(&args),
            Handler::ListNew => Ok(Value::List(args)),
            Handler::ListFirst => exec_list_first(&args),
            Handler::ListRest => exec_list_rest(&args),
            Handler::Debug => {
                if args.len() == 0 {
                    let info = ctx.print_debug_info();
                    ctx.emit(info.clone());
                    return Ok(Value::Str(info));
                }
                if args.len() != 1 {
                    return err_string(
                        "{EmojiCatalog::} debug command accepts either no arguments or exactly one argument (true/false)",
                    );
                }
                match &args[0] {
                    Value::Str(s) => {
                        let lowered = to_ascii_lowercase(s.as_str());
                        if str_eq(lowered.as_str(), "true") {
                            ctx.set_debug_print(true);
                            let mut line = crate::emoji::EmojiCatalog::debug_enabled();
                            line.append("\n");
                            ctx.emit(line);
                            ok_str("Debug printing enabled")
                        } else if str_eq(lowered.as_str(), "false") {
                            ctx.set_debug_print(false);
                            let mut line = crate::emoji::EmojiCatalog::debug_disabled();
                            line.append("\n");
                            ctx.emit(line);
                            ok_str("Debug printing disabled")
                        } else {
                            err_string("debug command argument must be 'true' or 'false'")
                        }
                    },
                    _ => err_string("debug command argument must be a string ('true' or 'false')"),
                }
            },
            Handler::Help => {
                if args.len() > 1 {
                    return err_string("help expects at most one argument");
                }
                if args.len() == 1 {
                    match &args[0] {
                        Value::Str(name) => match ctx.registry.get(name.as_str()) {
                            Some(c) => {
                                let text = render_help_detail(name.as_str(), &c);
                                let mut line = text.clone();
                                line.append("\n");
                                ctx.emit(line);
                                Ok(Value::Str(text))
                            },
                            None => {
                                let mut msg = String::from_str("Command '");
                                msg.append(name.as_str());
                                msg.append("' not found");
                                proof {
                                    assert(msg@ =~= "Command '"@ + name@ + "' not found"@);
                                }
                                Err(msg)
                            },
                        },
                        _ => err_string("Command name must be a string"),
                    }
                } else {
                    let text = render_help_overview(&ctx.registry);
                    let mut line = text.clone();
                    line.append("\n");
                    ctx.emit(line);
                    Ok(Value::Str(text))
                }
            },
            Handler::HelpLong => {
                if args.len() != 0 {
                    return err_string("help-long expects no arguments");
                }
                let text = render_help_long(&ctx.registry);
                let mut line = text.clone();
                line.append("\n");
                ctx.emit(line);
                Ok(Value::Str(text))
            },
            Handler::GetVar => {
                if args.len() != 1 {
                    return err_string("get-var expects exactly one argument (key)");
                }
                match &args[0] {
                    Value::Str(key) => match ctx.get_variable(key.as_str()) {
                        Some(v) => {
                            let out = v.clone();
                            Ok(out)
                        },
                        None => {
                            let mut msg = String::from_str("Variable '");
                            msg.append(key.as_str());
                            msg.append("' not found");
                            proof {
                                assert(msg@ =~= "Variable '"@ + key@ + "' not found"@);
                            }
                            Err(msg)
                        },
                    },
                    _ => err_string("get-var key must be a string"),
                }
            },
            Handler::SetVar => {
                if args.len() != 2 {
                    return err_string("set-var expects exactly two arguments (key, value)");
                }
                let key = match &args[0] {
                    Value::Str(s) => s.clone(),
                    _ => {
                        return err_string("set-var key must be a string");
                    },
                };
                let value = match &args[1] {
                    Value::Str(s) => s.clone(),
                    _ => {
                        return err_string("set-var value must be a string");
                    },
                };
                let stored = match crate::interp::interpolate_variables(value.as_str(), ctx) {
                    Ok(s) => s,
                    Err(e) => {
                        return Err(e);
                    },
                };
                let mut msg = String::from_str("Variable '");
                msg.append(key.as_str());
                msg.append("' set to '");
                msg.append(stored.as_str());
                msg.append("'");
                proof {
                    assert(msg@ =~= "Variable '"@ + key@ + "' set to '"@ + stored@ + "'"@);
                }
                ctx.set_variable(key, Value::Str(stored));
                Ok(Value::Str(msg))
            },
            Handler::GetBasedir => {
                if args.len() != 0 {
                    return err_string("get-basedir expects no arguments");
                }
                let dir = ctx.get_basedir().clone();
                Ok(Value::Str(dir))
            },
            Handler::DockerComposeArgs => {
                match args_to_strings(&args) {
                    Ok(ss) => {
                        let vals = strings_as_values(ss);
                        ctx.set_variable(
                            String::from_str("docker_compose_args"),
                            Value::List(vals),
                        );
                        ok_str("Docker Compose arguments configured")
                    },
                    Err(_) => err_string(
                        "docker-compose-args arguments must be strings or integers",
                    ),
                }
            },
            Handler::DockerMakeArgs => {
                match args_to_strings(&args) {
                    Ok(ss) => {
                        let vals = strings_as_values(ss);
                        ctx.set_variable(String::from_str("docker_make_args"), Value::List(vals));
                        ok_str("Docker make arguments configured")
                    },
                    Err(_) => err_string("docker-make-args arguments must be strings or integers"),
                }
            },
            Handler::DockerSocket => {
                if args.len() != 1 {
                    return err_string("docker-socket requires exactly one argument (socket path)");
                }
                match &args[0] {
                    Value::Str(path) => {
                        let mut msg = String::from_str("Docker socket path set to: ");
                        msg.append(path.as_str());
                        proof {
                            assert(msg@ =~= "Docker socket path set to: "@ + path@);
                        }
                        ctx.set_variable(
                            String::from_str("docker_socket_path"),
                            Value::Str(path.clone()),
                        );
                        Ok(Value::Str(msg))
                    },
                    _ => err_string("docker-socket argument must be a string"),
                }
            },
            Handler::DockerPre => {
                if args.len() == 0 {
                    return err_string("docker-pre requires at least one argument (command)");
                }
                match args_to_strings(&args) {
                    Ok(ss) => {
                        let vals = strings_as_values(ss);
                        let mut hooks: Vec<Value> = match ctx.get_variable("docker_pre_hooks") {
                            Some(v) => match v {
                                Value::List(h) => {
                                    let ghost hm = value_views(h@);
                                    proof {
                                        lemma_value_views(h@);
                                    }
                                    let mut copy: Vec<Value> = Vec::new();
                                    let mut k: usize = 0;
                                    while k < h.len()
                                        invariant
                                            k <= h@.len(),
                                            hm == value_views(h@),
                                            hm.len() == h@.len(),
                                            forall|j: int| 0 <= j < h@.len() ==> hm[j] == h@[j]@,
                                            copy@.len() == k,
                                            forall|j: int| 0 <= j < k ==> copy@[j]@ == hm[j],
                                        decreases h@.len() - k,
                                    {
                                        copy.push(h[k].clone());
                                        k = k + 1;
                                    }
                                    proof {
                                        lemma_value_views(copy@);
                                        assert(value_views(copy@) =~= hm);
                                    }
                                    copy
                                },
                                _ => Vec::new(),
                            },
                            None => Vec::new(),
                        };
                        proof {
                            if value_views(hooks@).len() == 0 {
                                lemma_value_views(hooks@);
                                assert(value_views(hooks@) =~= Seq::<ValueModel>::empty());
                            }
                        }
                        let ghost prior = value_views(hooks@);
                        hooks.push(Value::List(vals));
                        proof {
                            lemma_value_views(hooks@);
                            assert(hooks@.drop_last() =~= hooks@.subrange(0, hooks@.len() - 1));
                            assert(value_views(hooks@) =~= prior.push(hooks@.last()@));
                        }
                        ctx.set_variable(String::from_str("docker_pre_hooks"), Value::List(hooks));
                        ok_str("Docker pre-hook command added")
                    },
                    Err(_) => err_string("docker-pre arguments must be strings or integers"),
                }
            },
            Handler::DockerPost => {
                if args.len() == 0 {
                    return err_string("docker-post requires at least one argument (command)");
                }
                match args_to_strings(&args) {
                    Ok(ss) => {
                        let vals = strings_as_values(ss);
                        let mut hooks: Vec<Value> = match ctx.get_variable("docker_post_hooks") {
                            Some(v) => match v {
                                Value::List(h) => {
                                    let ghost hm = value_views(h@);
                                    proof {
                                        lemma_value_views(h@);
                                    }
                                    let mut copy: Vec<Value> = Vec::new();
                                    let mut k: usize = 0;
                                    while k < h.len()
                                        invariant
                                            k <= h@.len(),
                                            hm == value_views(h@),
                                            hm.len() == h@.len(),
                                            forall|j: int| 0 <= j < h@.len() ==> hm[j] == h@[j]@,
                                            copy@.len() == k,
                                            forall|j: int| 0 <= j < k ==> copy@[j]@ == hm[j],
                                        decreases h@.len() - k,
                                    {
                                        copy.push(h[k].clone());
                                        k = k + 1;
                                    }
                                    proof {
                                        lemma_value_views(copy@);
                                        assert(value_views(copy@) =~= hm);
                                    }
                                    copy
                                },
                                _ => Vec::new(),
                            },
                            None => Vec::new(),
                        };
                        proof {
                            if value_views(hooks@).len() == 0 {
                                lemma_value_views(hooks@);
                                assert(value_views(hooks@) =~= Seq::<ValueModel>::empty());
                            }
                        }
                        let ghost prior = value_views(hooks@);
                        hooks.push(Value::List(vals));
                        proof {
                            lemma_value_views(hooks@);
                            assert(hooks@.drop_last() =~= hooks@.subrange(0, hooks@.len() - 1));
                            assert(value_views(hooks@) =~= prior.push(hooks@.last()@));
                        }
                        ctx.set_variable(String::from_str("docker_post_hooks"), Value::List(hooks));
                        ok_str("Docker post-hook command added")
                    },
                    Err(_) => err_string("docker-post arguments must be strings or integers"),
                }
            },
            Handler::DockerReset => {
                if args.len() != 0 {
                    return err_string("docker-reset takes no arguments");
                }
                ctx.set_variable(String::from_str("docker_compose_args"), Value::Nil);
                ctx.set_variable(String::from_str("docker_make_args"), Value::Nil);
                ctx.set_variable(String::from_str("docker_socket_path"), Value::Nil);
                ctx.set_variable(String::from_str("docker_pre_hooks"), Value::Nil);
                ctx.set_variable(String::from_str("docker_post_hooks"), Value::Nil);
                ok_str("Docker configuration reset to defaults")
            },
            Handler::DockerShowConfig => {
                if args.len() != 0 {
                    return err_string("docker-show-config takes no arguments");
                }
                let config = build_docker_config(ctx);
                let text = render_show_config(&config);
                let mut line = text.clone();
                line.append("\n");
                ctx.emit(line);
                Ok(Value::Str(text))
            },
        }
    }
}

/// Evaluate one expression against the context: the head of a compound form
/// must be a symbol naming a registered command, whose handler then runs on
/// the strictly left-to-right evaluated arguments; atomic literals denote
/// their values.
pub fn evaluate(ast: &Ast, ctx: &mut Context) -> (r: Result<Value, String>)
    ensures
        ({
            let (out, c2) = eval_spec(ast@, old(ctx)@);
            outcome_matches(r, out) && final(ctx)@ == c2
        }),
    decreases ast,
{
    match ast {
        Ast::List(items) => {
            let ghost nmodels = ast_views(items@);
            proof {
                lemma_ast_views(items@);
            }
            if items.len() == 0 {
                return err_string("First element of list must be a command name");
            }
            let name: &String = match &items[0] {
                Ast::Symbol(s) => s,
                _ => {
                    return err_string("First element of list must be a command name");
                },
            };
            let cmd = match ctx.registry.get(name.as_str()) {
                Some(c) => c,
                None => {
                    let mut msg = String::from_str("Unknown command: ");
                    msg.append(name.as_str());
                    proof {
                        assert(msg@ =~= "Unknown command: "@ + name@);
                    }
                    return Err(msg);
                },
            };
            let ghost argms = nmodels.drop_first();
            let ghost ctx0 = ctx@;
            let ghost sym = name@;
            let mut vals: Vec<Value> = Vec::new();
            let mut i: usize = 1;
            proof {
                lemma_value_views(vals@);
                assert(value_views(vals@) =~= Seq::<ValueModel>::empty());
                assert(argms.skip(0) =~= argms);
            }
            while i < items.len()
                invariant
                    1 <= i <= items@.len(),
                    nmodels == ast_views(items@),
                    nmodels.len() == items@.len(),
                    forall|j: int| 0 <= j < items@.len() ==> nmodels[j] == items@[j]@,
                    argms == nmodels.drop_first(),
                    ctx0 == old(ctx)@,
                    ast@ == AstModel::List(nmodels),
                    nmodels[0] == AstModel::Symbol(sym),
                    reg_get(ctx0.registry, sym) == Option::Some(cmd@),
                    eval_args_spec(argms, ctx0) == args_prepend(
                        value_views(vals@),
                        eval_args_spec(argms.skip(i - 1), ctx@),
                    ),
                    decreases_to!(ast => items@),
                decreases items@.len() - i,
            {
                let ghost rest = argms.skip(i - 1);
                proof {
                    assert(rest[0] == argms[i - 1]);
                    assert(argms[i - 1] == nmodels[i as int]);
                    assert(rest.drop_first() =~= argms.skip(i as int));
                    assert(decreases_to!(items@ => items@[i as int]));
                }
                let v = match evaluate(&items[i], ctx) {
                    Ok(v) => v,
                    Err(e) => {
                        return Err(e);
                    },
                };
                let ghost pre_vals = value_views(vals@);
                let ghost pre_vec = vals@;
                vals.push(v);
                proof {
                    lemma_value_views(vals@);
                    assert(vals@.drop_last() =~= pre_vec);
                    assert(value_views(vals@) == value_views(vals@.drop_last()).push(
                        vals@.last()@,
                    ));
                    assert(value_views(vals@) =~= pre_vals.push(vals@.last()@));
                    match eval_args_spec(rest.drop_first(), ctx@).0 {
                        Result::Ok(vs) => {
                            assert(pre_vals.push(vals@.last()@) + vs =~= pre_vals + (seq![
                                vals@.last()@,
                            ] + vs));
                        },
                        Result::Err(_) => {},
                    }
                }
                i = i + 1;
            }
            proof {
                assert(argms.skip(items@.len() - 1).len() == 0);
                assert(value_views(vals@) + Seq::<ValueModel>::empty() =~= value_views(vals@));
            }
            cmd.execute(vals, ctx)
        },
        _ => {
            proof {
                assert(!(ast@ is List));
            }
            Ok(Value::from_ast(ast))
        },
    }
}

/// Evaluation of a sequence of top-level expressions in order, keeping the
/// last result; a failure aborts the remaining expressions.
pub open spec fn eval_nodes_spec(nodes: Seq<AstModel>, ctx: ContextModel, last: ValueModel) -> (
    Outcome,
    ContextModel,
)
    decreases nodes,
{
    if nodes.len() == 0 {
        (Outcome::Ok(last), ctx)
    } else {
        let (r0, ctx1) = eval_spec(nodes[0], ctx);
        match r0 {
            Result::Ok(v) => eval_nodes_spec(nodes.drop_first(), ctx1, v),
            Result::Err(e) => (Outcome::Err(e), ctx1),
        }
    }
}

/// What evaluating a whole input yields: the input is parsed through the
/// normalized path, falling back to the raw path, and the resulting
/// expressions are evaluated in order; the last result is kept, nil if there
/// are none.
pub open spec fn eval_string_spec(input: Seq<char>, ctx: ContextModel) -> (Outcome, ContextModel) {
    let parsed = match parse_string_spec(normalize_spec(input)) {
        Result::Ok(nodes) => Result::Ok(nodes),
        Result::Err(_) => parse_string_spec(input),
    };
    match parsed {
        Result::Ok(nodes) => eval_nodes_spec(nodes, ctx, ValueModel::Nil),
        Result::Err(e) => (Outcome::Err(e), ctx),
    }
}

/// Evaluate a whole input string: parse it (normalized path first, raw path
/// as fallback), then evaluate each top-level expression in order, keeping
/// the last result. A failure aborts the remaining expressions of this input,
/// with side effects of the earlier ones already applied.
pub fn evaluate_string(input: &str, ctx: &mut Context) -> (r: Result<Value, String>)
    ensures
        ({
            let (out, c2) = eval_string_spec(input@, old(ctx)@);
            outcome_matches(r, out) && final(ctx)@ == c2
        }),
{
    let nodes = match parse_string_normalized(input) {
        Ok(nodes) => nodes,
        Err(_) => match parse_string(input) {
            Ok(nodes) => nodes,
            Err(e) => {
                return Err(e);
            },
        },
    };
    let ghost nmodels = ast_views(nodes@);
    let ghost ctx0 = ctx@;
    proof {
        lemma_ast_views(nodes@);
        assert(nmodels.skip(0) =~= nmodels);
    }
    let mut last = Value::Nil;
    let mut i: usize = 0;
    while i < nodes.len()
        invariant
            i <= nodes@.len(),
            nmodels == ast_views(nodes@),
            nmodels.len() == nodes@.len(),
            forall|j: int| 0 <= j < nodes@.len() ==> nmodels[j] == nodes@[j]@,
            eval_string_spec(input@, old(ctx)@) == eval_nodes_spec(
                nmodels.skip(i as int),
                ctx@,
                last@,
            ),
        decreases nodes@.len() - i,
    {
        let ghost rest = nmodels.skip(i as int);
        proof {
            assert(rest[0] == nmodels[i as int]);
            assert(rest.drop_first() =~= nmodels.skip(i + 1));
        }
        match evaluate(&nodes[i], ctx) {
            Ok(v) => {
                last = v;
            },
            Err(e) => {
                return Err(e);
            },
        }
        i = i + 1;
    }
    proof {
        assert(nmodels.skip(nodes@.len() as int).len() == 0);
    }
    Ok(last)
}

} // verus!
