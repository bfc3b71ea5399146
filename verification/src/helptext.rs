//! Rendering of help output and of the container-runner configuration.

use vstd::prelude::*;
use vstd::string::*;

use crate::dockercfg::DockerConfigModel;
use crate::registry::{groups_spec, CommandModel, CommandRegistry, GroupModel, Tag, Command};
use crate::registry::{group_views, lemma_group_views, lemma_cmd_views, cmd_views};
use crate::strutil::push_char;

verus! {

/// A run of spaces.
pub open spec fn spaces(n: int) -> Seq<char>
    decreases n,
{
    if n <= 0 {
        Seq::empty()
    } else {
        spaces(n - 1).push(' ')
    }
}

/// A command name padded with spaces to the help column width.
pub open spec fn pad12(name: Seq<char>) -> Seq<char> {
    name + spaces(12 - name.len())
}

/// One line of the short help: the padded name and the description.
pub open spec fn desc_line(c: CommandModel) -> Seq<char> {
    "  "@ + pad12(c.name) + " - "@ + c.description + "\n"@
}

/// The short-help lines of a group's commands.
pub open spec fn group_desc_lines(cmds: Seq<CommandModel>) -> Seq<char>
    decreases cmds,
{
    if cmds.len() == 0 {
        Seq::empty()
    } else {
        group_desc_lines(cmds.drop_last()) + desc_line(cmds.last())
    }
}

/// The short-help sections, one per group.
pub open spec fn help_groups_text(gs: Seq<GroupModel>) -> Seq<char>
    decreases gs,
{
    if gs.len() == 0 {
        Seq::empty()
    } else {
        help_groups_text(gs.drop_last()) + "=== "@ + gs.last().0.text + " ===\n"@
            + group_desc_lines(gs.last().1) + "\n"@
    }
}

/// The whole short-help text over a registry.
pub open spec fn help_overview(reg: Seq<CommandModel>) -> Seq<char> {
    "Available commands:\n\n"@ + help_groups_text(groups_spec(reg))
        + "Use (help \"command-name\") for detailed help on a specific command.\n"@
}

/// The detailed help for one command, headed by the name it was asked under.
pub open spec fn help_detail(name_arg: Seq<char>, c: CommandModel) -> Seq<char> {
    "=== DETAILED HELP FOR '"@ + name_arg + "' ===\n\nCommand: "@ + c.name + "\nDescription: "@
        + c.description + "\nSyntax: "@ + c.syntax + "\nExamples:\n"@ + c.examples + "\n"@
}

/// One block of the long help.
pub open spec fn cmd_help_block(c: CommandModel) -> Seq<char> {
    "Command: "@ + c.name + "\nDescription: "@ + c.description + "\nSyntax: "@ + c.syntax
        + "\nExamples:\n"@ + c.examples + "\n\n"@
}

/// The long-help blocks of a group's commands.
pub open spec fn group_help_blocks(cmds: Seq<CommandModel>) -> Seq<char>
    decreases cmds,
{
    if cmds.len() == 0 {
        Seq::empty()
    } else {
        group_help_blocks(cmds.drop_last()) + cmd_help_block(cmds.last())
    }
}

/// The long-help sections, one per group.
pub open spec fn long_groups_text(gs: Seq<GroupModel>) -> Seq<char>
    decreases gs,
{
    if gs.len() == 0 {
        Seq::empty()
    } else {
        long_groups_text(gs.drop_last()) + "=== "@ + gs.last().0.text + " ===\n\n"@
            + group_help_blocks(gs.last().1) + "\n"@
    }
}

/// The closing usage notes of the long help.
pub open spec fn usage_notes() -> Seq<char> {
    "=== GENERAL USAGE ===\nAll commands use Lisp-style syntax with parentheses:\n  (command-name arg1 arg2 ...)\n\nCommands can be nested:\n  (print (sum 1 2 3))  ; Prints the result of sum\n\nMultiple expressions can be evaluated:\n  ./dpm '(sum 1 2 3)' '(print \"Hello\")'\n"@
}

/// The whole long-help text over a registry.
pub open spec fn help_long_text(reg: Seq<CommandModel>) -> Seq<char> {
    "=== DETAILED COMMAND REFERENCE ===\n\n"@ + long_groups_text(groups_spec(reg))
        + usage_notes()
}

fn append_pad12(out: &mut String, name: &'static str)
    ensures
        final(out)@ == old(out)@ + pad12(name@),
{
    let n = name.unicode_len();
    out.append(name);
    let ghost base = out@;
    let mut w = n;
    while w < 12
        invariant
            n <= w <= 12 || (w == n && n >= 12),
            n == name@.len(),
            base == old(out)@ + name@,
            out@ == base + spaces(w - n),
        decreases 12 - w,
    {
        push_char(out, ' ');
        w = w + 1;
    }
    proof {
        if n >= 12 {
            assert(spaces(12 - name@.len()) == Seq::<char>::empty());
        }
        assert(out@ =~= old(out)@ + pad12(name@));
    }
}

/// Render the short help over the registry's grouped commands.
pub fn render_help_overview(reg: &CommandRegistry) -> (r: String)
    ensures
        r@ == help_overview(reg@),
{
    let groups = reg.grouped_commands();
    let ghost gs = groups_spec(reg@);
    proof {
        lemma_group_views(groups@);
    }
    let mut out = String::from_str("Available commands:\n\n");
    let gl = groups.len();
    let mut g: usize = 0;
    let ghost head = out@;
    while g < gl
        invariant
            g <= gl,
            gl == groups@.len(),
            gs == group_views(groups@),
            gs.len() == gl,
            forall|j: int| 0 <= j < gl ==> gs[j] == (groups@[j].0@, cmd_views(groups@[j].1@)),
            head == "Available commands:\n\n"@,
            out@ == head + help_groups_text(gs.take(g as int)),
        decreases gl - g,
    {
        out.append("=== ");
        out.append(groups[g].0.text);
        out.append(" ===\n");
        let ghost cmds = gs[g as int].1;
        proof {
            lemma_cmd_views(groups@[g as int].1@);
        }
        let ghost mid = out@;
        let cl = groups[g].1.len();
        let mut i: usize = 0;
        while i < cl
            invariant
                i <= cl,
                g < gl,
                gl == groups@.len(),
                cl == groups@[g as int].1@.len(),
                cmds == cmd_views(groups@[g as int].1@),
                cmds.len() == cl,
                forall|j: int| 0 <= j < cl ==> cmds[j] == groups@[g as int].1@[j]@,
                out@ == mid + group_desc_lines(cmds.take(i as int)),
            decreases cl - i,
        {
            out.append("  ");
            append_pad12(&mut out, groups[g].1[i].name);
            out.append(" - ");
            out.append(groups[g].1[i].description);
            out.append("\n");
            proof {
                assert(cmds.take(i + 1).drop_last() =~= cmds.take(i as int));
                assert(cmds.take(i + 1).last() == cmds[i as int]);
                assert(out@ =~= mid + group_desc_lines(cmds.take(i + 1)));
            }
            i = i + 1;
        }
        out.append("\n");
        proof {
            assert(cmds.take(cl as int) =~= cmds);
            assert(gs.take(g + 1).drop_last() =~= gs.take(g as int));
            assert(gs.take(g + 1).last() == gs[g as int]);
            assert(out@ =~= head + help_groups_text(gs.take(g + 1)));
        }
        g = g + 1;
    }
    proof {
        assert(gs.take(gl as int) =~= gs);
    }
    out.append("Use (help \"command-name\") for detailed help on a specific command.\n");
    proof {
        assert(out@ =~= help_overview(reg@));
    }
    out
}

/// Render the detailed help for one command under the name it was asked for.
pub fn render_help_detail(name_arg: &str, c: &Command) -> (r: String)
    ensures
        r@ == help_detail(name_arg@, c@),
{
    let mut out = String::from_str("=== DETAILED HELP FOR '");
    out.append(name_arg);
    out.append("' ===\n\nCommand: ");
    out.append(c.name);
    out.append("\nDescription: ");
    out.append(c.description);
    out.append("\nSyntax: ");
    out.append(c.syntax);
    out.append("\nExamples:\n");
    out.append(c.examples);
    out.append("\n");
    proof {
        assert(out@ =~= help_detail(name_arg@, c@));
    }
    out
}

/// Render the long help over the registry's grouped commands.
pub fn render_help_long(reg: &CommandRegistry) -> (r: String)
    ensures
        r@ == help_long_text(reg@),
{
    let groups = reg.grouped_commands();
    let ghost gs = groups_spec(reg@);
    proof {
        lemma_group_views(groups@);
    }
    let mut out = String::from_str("=== DETAILED COMMAND REFERENCE ===\n\n");
    let gl = groups.len();
    let mut g: usize = 0;
    let ghost head = out@;
    while g < gl
        invariant
            g <= gl,
            gl == groups@.len(),
            gs == group_views(groups@),
            gs.len() == gl,
            forall|j: int| 0 <= j < gl ==> gs[j] == (groups@[j].0@, cmd_views(groups@[j].1@)),
            head == "=== DETAILED COMMAND REFERENCE ===\n\n"@,
            out@ == head + long_groups_text(gs.take(g as int)),
        decreases gl - g,
    {
        out.append("=== ");
        out.append(groups[g].0.text);
        out.append(" ===\n\n");
        let ghost cmds = gs[g as int].1;
        proof {
            lemma_cmd_views(groups@[g as int].1@);
        }
        let ghost mid = out@;
        let cl = groups[g].1.len();
        let mut i: usize = 0;
        while i < cl
            invariant
                i <= cl,
                g < gl,
                gl == groups@.len(),
                cl == groups@[g as int].1@.len(),
                cmds == cmd_views(groups@[g as int].1@),
                cmds.len() == cl,
                forall|j: int| 0 <= j < cl ==> cmds[j] == groups@[g as int].1@[j]@,
                out@ == mid + group_help_blocks(cmds.take(i as int)),
            decreases cl - i,
        {
            out.append("Command: ");
            out.append(groups[g].1[i].name);
            out.append("\nDescription: ");
            out.append(groups[g].1[i].description);
            out.append("\nSyntax: ");
            out.append(groups[g].1[i].syntax);
            out.append("\nExamples:\n");
            out.append(groups[g].1[i].examples);
            out.append("\n\n");
            proof {
                assert(cmds.take(i + 1).drop_last() =~= cmds.take(i as int));
                assert(cmds.take(i + 1).last() == cmds[i as int]);
                assert(out@ =~= mid + group_help_blocks(cmds.take(i + 1)));
            }
            i = i + 1;
        }
        out.append("\n");
        proof {
            assert(cmds.take(cl as int) =~= cmds);
            assert(gs.take(g + 1).drop_last() =~= gs.take(g as int));
            assert(gs.take(g + 1).last() == gs[g as int]);
            assert(out@ =~= head + long_groups_text(gs.take(g + 1)));
        }
        g = g + 1;
    }
    proof {
        assert(gs.take(gl as int) =~= gs);
    }
    out.append(
        "=== GENERAL USAGE ===\nAll commands use Lisp-style syntax with parentheses:\n  (command-name arg1 arg2 ...)\n\nCommands can be nested:\n  (print (sum 1 2 3))  ; Prints the result of sum\n\nMultiple expressions can be evaluated:\n  ./dpm '(sum 1 2 3)' '(print \"Hello\")'\n",
    );
    proof {
        assert(out@ =~= help_long_text(reg@));
    }
    out
}

/// The escaped form of one character inside a rendered string literal.
pub open spec fn dbg_escape_char(c: char) -> Seq<char> {
    if c == '"' {
        seq!['\\', '"']
    } else if c == '\\' {
        seq!['\\', '\\']
    } else if c == '\n' {
        seq!['\\', 'n']
    } else if c == '\t' {
        seq!['\\', 't']
    } else if c == '\r' {
        seq!['\\', 'r']
    } else {
        seq![c]
    }
}

/// The escaped body of a rendered string literal.
pub open spec fn dbg_escape(s: Seq<char>) -> Seq<char>
    decreases s,
{
    if s.len() == 0 {
        Seq::empty()
    } else {
        dbg_escape(s.drop_last()) + dbg_escape_char(s.last())
    }
}

/// A rendered string literal: quoted and escaped.
pub open spec fn dbg_str(s: Seq<char>) -> Seq<char> {
    seq!['"'] + dbg_escape(s) + seq!['"']
}

/// The comma-separated renderings of a sequence of strings.
pub open spec fn dbg_str_inner(xs: Seq<Seq<char>>) -> Seq<char>
    decreases xs,
{
    if xs.len() == 0 {
        Seq::empty()
    } else if xs.len() == 1 {
        dbg_str(xs[0])
    } else {
        dbg_str_inner(xs.drop_last()) + ", "@ + dbg_str(xs.last())
    }
}

/// A rendered list of strings.
pub open spec fn dbg_str_list(xs: Seq<Seq<char>>) -> Seq<char> {
    seq!['['] + dbg_str_inner(xs) + seq![']']
}

/// A rendered optional string.
pub open spec fn dbg_opt(x: Option<Seq<char>>) -> Seq<char> {
    match x {
        Option::Some(s) => "Some("@ + dbg_str(s) + ")"@,
        Option::None => "None"@,
    }
}

/// The comma-separated renderings of a sequence of string lists.
pub open spec fn dbg_lists_inner(xss: Seq<Seq<Seq<char>>>) -> Seq<char>
    decreases xss,
{
    if xss.len() == 0 {
        Seq::empty()
    } else if xss.len() == 1 {
        dbg_str_list(xss[0])
    } else {
        dbg_lists_inner(xss.drop_last()) + ", "@ + dbg_str_list(xss.last())
    }
}

/// A rendered list of string lists.
pub open spec fn dbg_lists(xss: Seq<Seq<Seq<char>>>) -> Seq<char> {
    seq!['['] + dbg_lists_inner(xss) + seq![']']
}

/// The rendered container-runner configuration.
pub open spec fn show_config_text(cfg: DockerConfigModel) -> Seq<char> {
    "=== Docker Configuration ===\nCompose args: "@ + dbg_str_list(cfg.compose_args)
        + "\nMake args: "@ + dbg_str_list(cfg.make_args) + "\nSocket path: "@ + dbg_opt(
        cfg.socket_path,
    ) + "\nPre-commands: "@ + dbg_lists(cfg.pre_commands) + "\nPost-commands: "@ + dbg_lists(
        cfg.post_commands,
    ) + "\n============================"@
}

/// Append the rendering of one string literal.
fn append_dbg_str(out: &mut String, s: &str)
    ensures
        final(out)@ == old(out)@ + dbg_str(s@),
{
    push_char(out, '"');
    let n = s.unicode_len();
    let mut i: usize = 0;
    let ghost head = old(out)@ + seq!['"'];
    while i < n
        invariant
            i <= n,
            n == s@.len(),
            head == old(out)@ + seq!['"'],
            out@ == head + dbg_escape(s@.take(i as int)),
        decreases n - i,
    {
        let c = s.get_char(i);
        if c == '"' {
            push_char(out, '\\');
            push_char(out, '"');
        } else if c == '\\' {
            push_char(out, '\\');
            push_char(out, '\\');
        } else if c == '\n' {
            push_char(out, '\\');
            push_char(out, 'n');
        } else if c == '\t' {
            push_char(out, '\\');
            push_char(out, 't');
        } else if c == '\r' {
            push_char(out, '\\');
            push_char(out, 'r');
        } else {
            push_char(out, c);
        }
        proof {
            assert(s@.take(i + 1).drop_last() =~= s@.take(i as int));
            assert(s@.take(i + 1).last() == s@[i as int]);
            assert(out@ =~= head + dbg_escape(s@.take(i + 1)));
        }
        i = i + 1;
    }
    push_char(out, '"');
    proof {
        assert(s@.take(n as int) =~= s@);
        assert(out@ =~= old(out)@ + dbg_str(s@));
    }
}

/// Append the rendering of a list of strings.
fn append_dbg_str_list(out: &mut String, xs: &Vec<String>)
    ensures
        final(out)@ == old(out)@ + dbg_str_list(crate::dockercfg::str_views(xs@)),
{
    let ghost views = crate::dockercfg::str_views(xs@);
    proof {
        crate::dockercfg::lemma_str_views(xs@);
    }
    push_char(out, '[');
    let n = xs.len();
    let mut i: usize = 0;
    let ghost head = old(out)@ + seq!['['];
    while i < n
        invariant
            i <= n,
            n == xs@.len(),
            views == crate::dockercfg::str_views(xs@),
            views.len() == n,
            forall|j: int| 0 <= j < n ==> views[j] == xs@[j]@,
            head == old(out)@ + seq!['['],
            out@ == head + dbg_str_inner(views.take(i as int)),
        decreases n - i,
    {
        if i > 0 {
            out.append(", ");
        }
        append_dbg_str(out, xs[i].as_str());
        proof {
            assert(views.take(i + 1).drop_last() =~= views.take(i as int));
            assert(views.take(i + 1).last() == views[i as int]);
            if i == 0 {
                assert(views.take(1).len() == 1);
                assert(views.take(1)[0] == views[0]);
            }
            assert(out@ =~= head + dbg_str_inner(views.take(i + 1)));
        }
        i = i + 1;
    }
    push_char(out, ']');
    proof {
        assert(views.take(n as int) =~= views);
        assert(out@ =~= old(out)@ + dbg_str_list(views));
    }
}

/// Append the rendering of a list of string lists.
fn append_dbg_lists(out: &mut String, xss: &Vec<Vec<String>>)
    ensures
        final(out)@ == old(out)@ + dbg_lists(crate::dockercfg::strs_views(xss@)),
{
    let ghost views = crate::dockercfg::strs_views(xss@);
    proof {
        crate::dockercfg::lemma_strs_views(xss@);
    }
    push_char(out, '[');
    let n = xss.len();
    let mut i: usize = 0;
    let ghost head = old(out)@ + seq!['['];
    while i < n
        invariant
            i <= n,
            n == xss@.len(),
            views == crate::dockercfg::strs_views(xss@),
            views.len() == n,
            forall|j: int| 0 <= j < n ==> views[j] == crate::dockercfg::str_views(xss@[j]@),
            head == old(out)@ + seq!['['],
            out@ == head + dbg_lists_inner(views.take(i as int)),
        decreases n - i,
    {
        if i > 0 {
            out.append(", ");
        }
        append_dbg_str_list(out, &xss[i]);
        proof {
            assert(views.take(i + 1).drop_last() =~= views.take(i as int));
            assert(views.take(i + 1).last() == views[i as int]);
            if i == 0 {
                assert(views.take(1).len() == 1);
                assert(views.take(1)[0] == views[0]);
            }
            assert(out@ =~= head + dbg_lists_inner(views.take(i + 1)));
        }
        i = i + 1;
    }
    push_char(out, ']');
    proof {
        assert(views.take(n as int) =~= views);
        assert(out@ =~= old(out)@ + dbg_lists(views));
    }
}

/// Render the container-runner configuration.
pub fn render_show_config(cfg: &crate::dockercfg::DockerCommandConfig) -> (r: String)
    ensures
        r@ == show_config_text(cfg@),
{
    let mut out = String::from_str("=== Docker Configuration ===\nCompose args: ");
    append_dbg_str_list(&mut out, &cfg.compose_args);
    out.append("\nMake args: ");
    append_dbg_str_list(&mut out, &cfg.make_args);
    out.append("\nSocket path: ");
    match &cfg.socket_path {
        Some(s) => {
            out.append("Some(");
            append_dbg_str(&mut out, s.as_str());
            out.append(")");
        },
        None => {
            out.append("None");
        },
    }
    out.append("\nPre-commands: ");
    append_dbg_lists(&mut out, &cfg.pre_commands);
    out.append("\nPost-commands: ");
    append_dbg_lists(&mut out, &cfg.post_commands);
    out.append("\n============================");
    proof {
        assert(out@ =~= show_config_text(cfg@));
    }
    out
}

} // verus!
