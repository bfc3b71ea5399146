//! Commands and the command registry: a name-to-handler table supporting
//! registration (last registration for a name wins), lookup, and enumeration.

use vstd::prelude::*;
use vstd::string::*;

use crate::strutil::{str_eq, str_le, str_le_str};

verus! {

/// A category tag for grouping commands in help output. Tags are compared by
/// `order` for stable grouping; `text` is the heading shown for the group.
#[derive(Debug, Clone, Copy, PartialEq, Eq)]
pub struct Tag {
    pub name: &'static str,
    pub order: u32,
    pub text: &'static str,
}

/// Mathematical model of a `Tag`.
pub ghost struct TagModel {
    pub name: Seq<char>,
    pub order: u32,
    pub text: Seq<char>,
}

impl View for Tag {
    type V = TagModel;

    open spec fn view(&self) -> TagModel {
        TagModel { name: self.name@, order: self.order, text: self.text@ }
    }
}

impl Tag {
    /// A tag with the given name, sort order and display text.
    pub fn new(name: &'static str, order: u32, text: &'static str) -> (r: Self)
        ensures
            r@ == (TagModel { name: name@, order: order, text: text@ }),
    {
        Tag { name, order, text }
    }
}

/// The default tag for commands registered without one.
pub fn core_tag() -> (r: Tag)
    ensures
        r@ == (TagModel { name: "core"@, order: 1000u32, text: "Core Commands"@ }),
{
    Tag::new("core", 1000, "Core Commands")
}

/// The tag of the command-management commands.
pub fn commands_tag() -> (r: Tag)
    ensures
        r@ == (TagModel { name: "commands"@, order: 2u32, text: "Command Management"@ }),
{
    Tag::new("commands", 2, "Command Management")
}

/// The tag of the commands that wrap the language's standard library.
pub fn rust_tag() -> (r: Tag)
    ensures
        r@ == (TagModel { name: "rust"@, order: 9999u32, text: "Rust Standard Library"@ }),
{
    Tag::new("rust", 9999, "Rust Standard Library")
}

/// The behavior a command dispatches to. Command bodies are entries of this
/// dispatch table rather than stored closures, so that each behavior carries
/// a verified contract.
#[derive(Debug, Clone, Copy, PartialEq, Eq)]
pub enum Handler {
    /// Join the rendered arguments with spaces.
    Print,
    /// Sum integers and lists of integers, wrapping on overflow.
    Sum,
    /// Multiply two integers, wrapping on overflow.
    Multiply,
    /// Concatenate the rendered arguments.
    Concat,
    /// Show session state, or set the debug-print flag.
    Debug,
    /// Thread a value through re-evaluated command lists.
    Pipe,
    /// Build a list from the arguments.
    ListNew,
    /// First element of a list.
    ListFirst,
    /// All but the first element of a list.
    ListRest,
    /// Short help, or detailed help for one command.
    Help,
    /// Detailed help for every command.
    HelpLong,
    /// Read a session variable.
    GetVar,
    /// Write a session variable, interpolating `${name}` references in the
    /// value against the session variables and the environment table.
    SetVar,
    /// Read the session base directory.
    GetBasedir,
    /// Configure container-runner compose arguments.
    DockerComposeArgs,
    /// Configure container-runner make arguments.
    DockerMakeArgs,
    /// Configure the container-runner socket path.
    DockerSocket,
    /// Queue a command to run before the container runner.
    DockerPre,
    /// Queue a command to run after the container runner.
    DockerPost,
    /// Reset the container-runner configuration.
    DockerReset,
    /// Render the container-runner configuration.
    DockerShowConfig,
}

/// A registered command: its dispatch name, help texts, tag, and behavior.
#[derive(Debug, Clone, Copy)]
pub struct Command {
    pub name: &'static str,
    pub description: &'static str,
    pub syntax: &'static str,
    pub examples: &'static str,
    pub tag: Tag,
    pub handler: Handler,
}

/// Mathematical model of a `Command`.
pub ghost struct CommandModel {
    pub name: Seq<char>,
    pub description: Seq<char>,
    pub syntax: Seq<char>,
    pub examples: Seq<char>,
    pub tag: TagModel,
    pub handler: Handler,
}

impl View for Command {
    type V = CommandModel;

    open spec fn view(&self) -> CommandModel {
        CommandModel {
            name: self.name@,
            description: self.description@,
            syntax: self.syntax@,
            examples: self.examples@,
            tag: self.tag@,
            handler: self.handler,
        }
    }
}

/// The models of a sequence of commands, element by element.
pub open spec fn cmd_views(s: Seq<Command>) -> Seq<CommandModel>
    decreases s,
{
    if s.len() == 0 {
        Seq::empty()
    } else {
        cmd_views(s.drop_last()).push(s.last()@)
    }
}

/// `cmd_views` maps the sequence pointwise.
pub proof fn lemma_cmd_views(s: Seq<Command>)
    ensures
        cmd_views(s).len() == s.len(),
        forall|i: int| 0 <= i < s.len() ==> cmd_views(s)[i] == s[i]@,
    decreases s,
{
    if s.len() > 0 {
        lemma_cmd_views(s.drop_last());
        assert(cmd_views(s) == cmd_views(s.drop_last()).push(s.last()@));
        assert forall|i: int| 0 <= i < s.len() implies cmd_views(s)[i] == s[i]@ by {
            if i < s.len() - 1 {
                assert(cmd_views(s)[i] == cmd_views(s.drop_last())[i]);
                assert(s.drop_last()[i] == s[i]);
            }
        }
    } else {
        assert(cmd_views(s) == Seq::<CommandModel>::empty());
    }
}

/// The first index whose command has the given name, or the length if none.
pub open spec fn first_match(cmds: Seq<CommandModel>, name: Seq<char>) -> int
    decreases cmds,
{
    if cmds.len() == 0 {
        0
    } else if cmds[0].name == name {
        0
    } else {
        1 + first_match(cmds.drop_first(), name)
    }
}

/// `first_match` is the first matching index.
pub proof fn lemma_first_match(cmds: Seq<CommandModel>, name: Seq<char>)
    ensures
        0 <= first_match(cmds, name) <= cmds.len(),
        first_match(cmds, name) < cmds.len() ==> cmds[first_match(cmds, name)].name == name,
        forall|j: int| 0 <= j < first_match(cmds, name) ==> cmds[j].name != name,
    decreases cmds,
{
    if cmds.len() > 0 && cmds[0].name != name {
        lemma_first_match(cmds.drop_first(), name);
        let k = first_match(cmds, name);
        assert forall|j: int| 0 <= j < k implies cmds[j].name != name by {
            if j > 0 {
                assert(cmds.drop_first()[j - 1] == cmds[j]);
            }
        }
        if k < cmds.len() {
            assert(cmds.drop_first()[k - 1] == cmds[k]);
        }
    }
}

/// The command registered under a name, if any.
pub open spec fn reg_get(cmds: Seq<CommandModel>, name: Seq<char>) -> Option<CommandModel> {
    let k = first_match(cmds, name);
    if k < cmds.len() {
        Option::Some(cmds[k])
    } else {
        Option::None
    }
}

/// Registration: replace the command already holding this name, else append.
pub open spec fn reg_insert(cmds: Seq<CommandModel>, c: CommandModel) -> Seq<CommandModel> {
    let k = first_match(cmds, c.name);
    if k < cmds.len() {
        cmds.update(k, c)
    } else {
        cmds.push(c)
    }
}

/// The registry: a table from names to commands. The last registration for a
/// given name wins; lookups hand out copies, so a long handler call never
/// holds the table.
#[derive(Debug)]
pub struct CommandRegistry {
    commands: Vec<Command>,
}

impl View for CommandRegistry {
    type V = Seq<CommandModel>;

    closed spec fn view(&self) -> Seq<CommandModel> {
        cmd_views(self.commands@)
    }
}

impl Clone for CommandRegistry {
    /// A clone has the same model as the original.
    fn clone(&self) -> (r: Self)
        ensures
            r@ == self@,
    {
        let mut commands: Vec<Command> = Vec::new();
        let mut i: usize = 0;
        while i < self.commands.len()
            invariant
                i <= self.commands@.len(),
                commands@ =~= self.commands@.subrange(0, i as int),
            decreases self.commands@.len() - i,
        {
            commands.push(self.commands[i]);
            i = i + 1;
        }
        proof {
            assert(commands@ =~= self.commands@);
        }
        CommandRegistry { commands }
    }
}

impl CommandRegistry {
    /// A new, empty registry.
    pub fn new() -> (r: Self)
        ensures
            r@ == Seq::<CommandModel>::empty(),
    {
        let r = CommandRegistry { commands: Vec::new() };
        proof {
            assert(cmd_views(r.commands@) == Seq::<CommandModel>::empty());
        }
        r
    }

    /// The number of registered commands.
    pub fn len(&self) -> (n: usize)
        ensures
            n == self@.len(),
    {
        proof {
            lemma_cmd_views(self.commands@);
        }
        self.commands.len()
    }

    /// The command at a position, for enumeration.
    pub fn command_at(&self, i: usize) -> (c: Command)
        requires
            i < self@.len(),
        ensures
            c@ == self@[i as int],
    {
        proof {
            lemma_cmd_views(self.commands@);
        }
        self.commands[i]
    }

    /// Register a command: a command already holding this name is replaced,
    /// silently and by design, so that re-registration shadows.
    pub fn register(&mut self, command: Command)
        ensures
            final(self)@ == reg_insert(old(self)@, command@),
    {
        proof {
            lemma_cmd_views(self.commands@);
            lemma_first_match(self@, command@.name);
        }
        let ghost orig = self@;
        let n = self.commands.len();
        let mut i: usize = 0;
        while i < n
            invariant
                i <= n,
                n == self.commands@.len(),
                orig == cmd_views(self.commands@),
                orig == old(self)@,
                orig.len() == n,
                forall|j: int| 0 <= j < n ==> orig[j] == self.commands@[j]@,
                forall|j: int| 0 <= j < i ==> orig[j].name != command@.name,
            decreases n - i,
        {
            if str_eq(self.commands[i].name, command.name) {
                proof {
                    assert(orig[i as int].name == command@.name);
                    assert(first_match(orig, command@.name) == i as int) by {
                        lemma_first_match(orig, command@.name);
                        let fm = first_match(orig, command@.name);
                        if fm < i as int {
                            assert(orig[fm].name == command@.name);
                        }
                        if fm > i as int {
                            assert(orig[i as int].name != command@.name);
                        }
                    }
                }
                let ghost pre = self.commands@;
                self.commands.remove(i);
                self.commands.insert(i, command);
                proof {
                    assert(self.commands@ =~= pre.update(i as int, command));
                    lemma_cmd_views(self.commands@);
                    assert(cmd_views(self.commands@) =~= orig.update(i as int, command@));
                }
                return ;
            }
            i = i + 1;
        }
        proof {
            lemma_first_match(orig, command@.name);
            assert(first_match(orig, command@.name) == n as int) by {
                if first_match(orig, command@.name) < n {
                    assert(orig[first_match(orig, command@.name)].name == command@.name);
                }
            }
        }
        let ghost pre = self.commands@;
        self.commands.push(command);
        proof {
            assert(self.commands@.drop_last() =~= pre);
            assert(cmd_views(self.commands@) == cmd_views(self.commands@.drop_last()).push(
                self.commands@.last()@,
            ));
            assert(cmd_views(self.commands@) =~= orig.push(command@));
        }
    }

    /// Register a behavior under a name with a description; help texts take
    /// their defaults, and the tag defaults to the core tag.
    pub fn register_closure(&mut self, name: &'static str, description: &'static str, handler: Handler)
        ensures
            final(self)@ == reg_insert(
                old(self)@,
                CommandModel {
                    name: name@,
                    description: description@,
                    syntax: "Syntax not documented"@,
                    examples: "Examples not available"@,
                    tag: TagModel { name: "core"@, order: 1000u32, text: "Core Commands"@ },
                    handler,
                },
            ),
    {
        let tag = core_tag();
        self.register_closure_with_tag(name, description, tag, handler);
    }

    /// Register a behavior under a name with a description and a tag.
    pub fn register_closure_with_tag(
        &mut self,
        name: &'static str,
        description: &'static str,
        tag: Tag,
        handler: Handler,
    )
        ensures
            final(self)@ == reg_insert(
                old(self)@,
                CommandModel {
                    name: name@,
                    description: description@,
                    syntax: "Syntax not documented"@,
                    examples: "Examples not available"@,
                    tag: tag@,
                    handler,
                },
            ),
    {
        self.register(
            Command {
                name,
                description,
                syntax: "Syntax not documented",
                examples: "Examples not available",
                tag,
                handler,
            },
        );
    }

    /// Register a behavior with full help information and the core tag.
    pub fn register_closure_with_help(
        &mut self,
        name: &'static str,
        description: &'static str,
        syntax: &'static str,
        examples: &'static str,
        handler: Handler,
    )
        ensures
            final(self)@ == reg_insert(
                old(self)@,
                CommandModel {
                    name: name@,
                    description: description@,
                    syntax: syntax@,
                    examples: examples@,
                    tag: TagModel { name: "core"@, order: 1000u32, text: "Core Commands"@ },
                    handler,
                },
            ),
    {
        let tag = core_tag();
        self.register_closure_with_help_and_tag(name, description, syntax, examples, tag, handler);
    }

    /// Register a behavior with full help information and a tag.
    pub fn register_closure_with_help_and_tag(
        &mut self,
        name: &'static str,
        description: &'static str,
        syntax: &'static str,
        examples: &'static str,
        tag: Tag,
        handler: Handler,
    )
        ensures
            final(self)@ == reg_insert(
                old(self)@,
                CommandModel {
                    name: name@,
                    description: description@,
                    syntax: syntax@,
                    examples: examples@,
                    tag: tag@,
                    handler,
                },
            ),
    {
        self.register(Command { name, description, syntax, examples, tag, handler });
    }

    /// Look a command up by name; a copy of the registered command is
    /// returned.
    pub fn get(&self, name: &str) -> (r: Option<Command>)
        ensures
            match r {
                Option::Some(c) => reg_get(self@, name@) == Option::Some(c@),
                Option::None => reg_get(self@, name@) is None,
            },
    {
        proof {
            lemma_cmd_views(self.commands@);
            lemma_first_match(self@, name@);
        }
        let n = self.commands.len();
        let mut i: usize = 0;
        while i < n
            invariant
                i <= n,
                n == self.commands@.len(),
                self@.len() == n,
                forall|j: int| 0 <= j < n ==> self@[j] == self.commands@[j]@,
                forall|j: int| 0 <= j < i ==> self@[j].name != name@,
        decreases n - i,
        {
            if str_eq(self.commands[i].name, name) {
                proof {
                    assert(self@[i as int].name == name@);
                    assert(first_match(self@, name@) == i as int) by {
                        lemma_first_match(self@, name@);
                        let fm = first_match(self@, name@);
                        if fm < i as int {
                            assert(self@[fm].name == name@);
                        }
                        if fm > i as int {
                            assert(self@[i as int].name != name@);
                        }
                    }
                }
                return Some(self.commands[i]);
            }
            i = i + 1;
        }
        proof {
            lemma_first_match(self@, name@);
            if first_match(self@, name@) < n {
                assert(self@[first_match(self@, name@)].name == name@);
            }
        }
        None
    }

    /// The names of all registered commands, in registration order.
    pub fn list_commands(&self) -> (r: Vec<String>)
        ensures
            r@.len() == self@.len(),
            forall|i: int| 0 <= i < self@.len() ==> r@[i]@ == self@[i].name,
    {
        proof {
            lemma_cmd_views(self.commands@);
        }
        let n = self.commands.len();
        let mut r: Vec<String> = Vec::new();
        let mut i: usize = 0;
        while i < n
            invariant
                i <= n,
                n == self.commands@.len(),
                self@.len() == n,
                forall|j: int| 0 <= j < n ==> self@[j] == self.commands@[j]@,
                r@.len() == i,
                forall|j: int| 0 <= j < i ==> r@[j]@ == self@[j].name,
            decreases n - i,
        {
            r.push(String::from_str(self.commands[i].name));
            i = i + 1;
        }
        r
    }

    /// All commands with their descriptions, in registration order.
    pub fn get_commands_with_descriptions(&self) -> (r: Vec<(String, String)>)
        ensures
            r@.len() == self@.len(),
            forall|i: int|
                0 <= i < self@.len() ==> r@[i].0@ == self@[i].name && r@[i].1@
                    == self@[i].description,
    {
        proof {
            lemma_cmd_views(self.commands@);
        }
        let n = self.commands.len();
        let mut r: Vec<(String, String)> = Vec::new();
        let mut i: usize = 0;
        while i < n
            invariant
                i <= n,
                n == self.commands@.len(),
                self@.len() == n,
                forall|j: int| 0 <= j < n ==> self@[j] == self.commands@[j]@,
                r@.len() == i,
                forall|j: int|
                    0 <= j < i ==> r@[j].0@ == self@[j].name && r@[j].1@ == self@[j].description,
            decreases n - i,
        {
            let c = self.commands[i];
            r.push((String::from_str(c.name), String::from_str(c.description)));
            i = i + 1;
        }
        r
    }

    /// All commands with their full help texts, in registration order.
    pub fn get_commands_with_help(&self) -> (r: Vec<(String, String, String, String)>)
        ensures
            r@.len() == self@.len(),
            forall|i: int|
                0 <= i < self@.len() ==> r@[i].0@ == self@[i].name && r@[i].1@
                    == self@[i].description && r@[i].2@ == self@[i].syntax && r@[i].3@
                    == self@[i].examples,
    {
        proof {
            lemma_cmd_views(self.commands@);
        }
        let n = self.commands.len();
        let mut r: Vec<(String, String, String, String)> = Vec::new();
        let mut i: usize = 0;
        while i < n
            invariant
                i <= n,
                n == self.commands@.len(),
                self@.len() == n,
                forall|j: int| 0 <= j < n ==> self@[j] == self.commands@[j]@,
                r@.len() == i,
                forall|j: int|
                    0 <= j < i ==> r@[j].0@ == self@[j].name && r@[j].1@ == self@[j].description
                        && r@[j].2@ == self@[j].syntax && r@[j].3@ == self@[j].examples,
            decreases n - i,
        {
            let c = self.commands[i];
            r.push(
                (
                    String::from_str(c.name),
                    String::from_str(c.description),
                    String::from_str(c.syntax),
                    String::from_str(c.examples),
                ),
            );
            i = i + 1;
        }
        r
    }
}

/// Registering two commands under the same name leaves only the second
/// resolvable: the later registration shadows the earlier one.
pub proof fn lemma_register_shadowing(
    cmds: Seq<CommandModel>,
    c1: CommandModel,
    c2: CommandModel,
)
    requires
        c1.name == c2.name,
    ensures
        reg_get(reg_insert(reg_insert(cmds, c1), c2), c1.name) == Option::Some(c2),
{
    lemma_first_match(cmds, c1.name);
    let k = first_match(cmds, c1.name);
    let after1 = reg_insert(cmds, c1);
    lemma_first_match(after1, c1.name);
    let k1 = first_match(after1, c1.name);
    assert(k1 <= k) by {
        if k1 > k {
            if k < cmds.len() {
                assert(after1[k].name == c1.name);
            } else {
                assert(after1[k].name == c1.name);
            }
        }
    }
    assert(after1[k1].name == c1.name);
    assert(k1 == k) by {
        if k1 < k {
            assert(after1[k1] == cmds[k1]);
            assert(cmds[k1].name != c1.name);
        }
    }
    let after2 = reg_insert(after1, c2);
    lemma_first_match(after1, c2.name);
    assert(first_match(after1, c2.name) == k) by {
        let k2 = first_match(after1, c2.name);
        if k2 < k {
            assert(after1[k2] == cmds[k2]);
            assert(cmds[k2].name != c1.name);
        }
        if k2 > k {
            assert(after1[k].name == c2.name);
        }
    }
    assert(after2 == after1.update(k, c2));
    lemma_first_match(after2, c2.name);
    let k3 = first_match(after2, c2.name);
    assert(after2[k].name == c2.name);
    assert(k3 <= k);
    assert(k3 == k) by {
        if k3 < k {
            assert(after2[k3] == after1[k3] && after1[k3] == cmds[k3]);
            assert(cmds[k3].name != c1.name);
        }
    }
    assert(reg_get(after2, c1.name) == Option::Some(c2));
}


/// A help group: a tag and the commands carrying it.
pub type GroupModel = (TagModel, Seq<CommandModel>);

/// The first group whose tag has the given name, or the length if none.
pub open spec fn find_group(gs: Seq<GroupModel>, name: Seq<char>) -> int
    decreases gs,
{
    if gs.len() == 0 {
        0
    } else if gs[0].0.name == name {
        0
    } else {
        1 + find_group(gs.drop_first(), name)
    }
}

/// `find_group` is the first matching index.
pub proof fn lemma_find_group(gs: Seq<GroupModel>, name: Seq<char>)
    ensures
        0 <= find_group(gs, name) <= gs.len(),
        find_group(gs, name) < gs.len() ==> gs[find_group(gs, name)].0.name == name,
        forall|j: int| 0 <= j < find_group(gs, name) ==> gs[j].0.name != name,
    decreases gs,
{
    if gs.len() > 0 && gs[0].0.name != name {
        lemma_find_group(gs.drop_first(), name);
        let k = find_group(gs, name);
        assert forall|j: int| 0 <= j < k implies gs[j].0.name != name by {
            if j > 0 {
                assert(gs.drop_first()[j - 1] == gs[j]);
            }
        }
        if k < gs.len() {
            assert(gs.drop_first()[k - 1] == gs[k]);
        }
    }
}

/// Insert a command into a name-sorted command sequence, keeping the order.
pub open spec fn insert_by_name(items: Seq<CommandModel>, c: CommandModel) -> Seq<CommandModel>
    decreases items,
{
    if items.len() == 0 {
        seq![c]
    } else if str_le(c.name, items[0].name) {
        seq![c] + items
    } else {
        seq![items[0]] + insert_by_name(items.drop_first(), c)
    }
}

/// Insert a group into an order-sorted group sequence, after any group with
/// the same order.
pub open spec fn insert_group(gs: Seq<GroupModel>, g: GroupModel) -> Seq<GroupModel>
    decreases gs,
{
    if gs.len() == 0 {
        seq![g]
    } else if g.0.order < gs[0].0.order {
        seq![g] + gs
    } else {
        seq![gs[0]] + insert_group(gs.drop_first(), g)
    }
}

/// One step of grouping: file the command under its tag's group, creating
/// the group at its order-sorted position if it is new.
pub open spec fn group_step(gs: Seq<GroupModel>, c: CommandModel) -> Seq<GroupModel> {
    let k = find_group(gs, c.tag.name);
    if k < gs.len() {
        gs.update(k, (gs[k].0, insert_by_name(gs[k].1, c)))
    } else {
        insert_group(gs, (c.tag, seq![c]))
    }
}

/// The commands grouped by tag: groups appear in tag order, and each group
/// lists its commands sorted by name. Groups are keyed by tag name; the
/// first-registered command's tag supplies the group's display data.
pub open spec fn groups_spec(cmds: Seq<CommandModel>) -> Seq<GroupModel>
    decreases cmds,
{
    if cmds.len() == 0 {
        Seq::empty()
    } else {
        group_step(groups_spec(cmds.drop_last()), cmds.last())
    }
}

/// The views of a vector of groups.
pub open spec fn group_views(s: Seq<(Tag, Vec<Command>)>) -> Seq<GroupModel>
    decreases s,
{
    if s.len() == 0 {
        Seq::empty()
    } else {
        group_views(s.drop_last()).push((s.last().0@, cmd_views(s.last().1@)))
    }
}

/// `group_views` maps the sequence pointwise.
pub proof fn lemma_group_views(s: Seq<(Tag, Vec<Command>)>)
    ensures
        group_views(s).len() == s.len(),
        forall|i: int| 0 <= i < s.len() ==> group_views(s)[i] == (s[i].0@, cmd_views(s[i].1@)),
    decreases s,
{
    if s.len() > 0 {
        lemma_group_views(s.drop_last());
        assert(group_views(s) == group_views(s.drop_last()).push(
            (s.last().0@, cmd_views(s.last().1@)),
        ));
        assert forall|i: int| 0 <= i < s.len() implies group_views(s)[i] == (
        s[i].0@,
        cmd_views(s[i].1@),
        ) by {
            if i < s.len() - 1 {
                assert(group_views(s)[i] == group_views(s.drop_last())[i]);
                assert(s.drop_last()[i] == s[i]);
            }
        }
    } else {
        assert(group_views(s) == Seq::<GroupModel>::empty());
    }
}

proof fn lemma_insert_by_name_at(items: Seq<CommandModel>, c: CommandModel, p: int)
    requires
        0 <= p <= items.len(),
        forall|j: int| 0 <= j < p ==> !str_le(c.name, items[j].name),
        p < items.len() ==> str_le(c.name, items[p].name),
    ensures
        insert_by_name(items, c) == items.subrange(0, p) + seq![c] + items.subrange(
            p,
            items.len() as int,
        ),
    decreases p,
{
    if p == 0 {
        if items.len() == 0 {
            assert(insert_by_name(items, c) =~= items.subrange(0, 0) + seq![c] + items.subrange(
                0,
                items.len() as int,
            ));
        } else {
            assert(str_le(c.name, items[0].name));
            assert(insert_by_name(items, c) =~= items.subrange(0, 0) + seq![c] + items.subrange(
                0,
                items.len() as int,
            ));
        }
    } else {
        assert(!str_le(c.name, items[0].name));
        let tail = items.drop_first();
        assert forall|j: int| 0 <= j < p - 1 implies !str_le(c.name, tail[j].name) by {
            assert(tail[j] == items[j + 1]);
        }
        if p - 1 < tail.len() {
            assert(tail[p - 1] == items[p]);
        }
        lemma_insert_by_name_at(tail, c, p - 1);
        assert(insert_by_name(items, c) =~= items.subrange(0, p) + seq![c] + items.subrange(
            p,
            items.len() as int,
        )) by {
            assert(tail.subrange(0, p - 1) =~= items.subrange(1, p));
            assert(tail.subrange(p - 1, tail.len() as int) =~= items.subrange(
                p,
                items.len() as int,
            ));
        }
    }
}

proof fn lemma_insert_group_at(gs: Seq<GroupModel>, g: GroupModel, p: int)
    requires
        0 <= p <= gs.len(),
        forall|j: int| 0 <= j < p ==> gs[j].0.order <= g.0.order,
        p < gs.len() ==> g.0.order < gs[p].0.order,
    ensures
        insert_group(gs, g) == gs.subrange(0, p) + seq![g] + gs.subrange(p, gs.len() as int),
    decreases p,
{
    if p == 0 {
        assert(insert_group(gs, g) =~= gs.subrange(0, 0) + seq![g] + gs.subrange(
            0,
            gs.len() as int,
        ));
    } else {
        assert(gs[0].0.order <= g.0.order);
        let tail = gs.drop_first();
        assert forall|j: int| 0 <= j < p - 1 implies tail[j].0.order <= g.0.order by {
            assert(tail[j] == gs[j + 1]);
        }
        if p - 1 < tail.len() {
            assert(tail[p - 1] == gs[p]);
        }
        lemma_insert_group_at(tail, g, p - 1);
        assert(insert_group(gs, g) =~= gs.subrange(0, p) + seq![g] + gs.subrange(
            p,
            gs.len() as int,
        )) by {
            assert(tail.subrange(0, p - 1) =~= gs.subrange(1, p));
            assert(tail.subrange(p - 1, tail.len() as int) =~= gs.subrange(p, gs.len() as int));
        }
    }
}

impl CommandRegistry {
    /// The registered commands grouped by tag: groups in tag order, commands
    /// within a group sorted by name.
    pub fn grouped_commands(&self) -> (r: Vec<(Tag, Vec<Command>)>)
        ensures
            group_views(r@) == groups_spec(self@),
    {
        proof {
            lemma_cmd_views(self.commands@);
        }
        let n = self.commands.len();
        let mut groups: Vec<(Tag, Vec<Command>)> = Vec::new();
        let mut i: usize = 0;
        proof {
            assert(group_views(groups@) =~= Seq::<GroupModel>::empty());
            assert(self@.take(0) =~= Seq::<CommandModel>::empty());
            assert(groups_spec(self@.take(0)) =~= Seq::<GroupModel>::empty());
        }
        while i < n
            invariant
                i <= n,
                n == self.commands@.len(),
                self@.len() == n,
                forall|j: int| 0 <= j < n ==> self@[j] == self.commands@[j]@,
                group_views(groups@) == groups_spec(self@.take(i as int)),
            decreases n - i,
        {
            let c = self.commands[i];
            let ghost gs = group_views(groups@);
            proof {
                lemma_group_views(groups@);
                assert(self@.take(i + 1).drop_last() =~= self@.take(i as int));
                assert(self@.take(i + 1).last() == self@[i as int]);
            }
            // Find the group with this command's tag name.
            let gl = groups.len();
            let mut k: usize = 0;
            let mut found: bool = false;
            while k < gl && !found
                invariant
                    k <= gl,
                    gl == groups@.len(),
                    gs == group_views(groups@),
                    gs.len() == gl,
                    forall|j: int| 0 <= j < gl ==> gs[j] == (groups@[j].0@, cmd_views(groups@[j].1@)),
                    c@ == self@[i as int],
                    !found ==> forall|j: int| 0 <= j < k ==> gs[j].0.name != c@.tag.name,
                    found ==> k < gl && gs[k as int].0.name == c@.tag.name && (forall|j: int|
                        0 <= j < k ==> gs[j].0.name != c@.tag.name),
                decreases gl - k, if found { 0int } else { 1int },
            {
                if str_eq(groups[k].0.name, c.tag.name) {
                    found = true;
                } else {
                    k = k + 1;
                }
            }
            if found {
                proof {
                    assert(find_group(gs, c@.tag.name) == k as int) by {
                        lemma_find_group(gs, c@.tag.name);
                        let fm = find_group(gs, c@.tag.name);
                        if fm < k as int {
                            assert(gs[fm].0.name == c@.tag.name);
                        }
                        if fm > k as int {
                            assert(gs[k as int].0.name != c@.tag.name);
                        }
                    }
                }
                let mut pair = groups.remove(k);
                let ghost old_items = cmd_views(pair.1@);
                proof {
                    lemma_cmd_views(pair.1@);
                }
                // Insert at the name-sorted position.
                let il = pair.1.len();
                let mut p: usize = 0;
                while p < il && !str_le_str(c.name, pair.1[p].name)
                    invariant
                        p <= il,
                        il == pair.1@.len(),
                        old_items == cmd_views(pair.1@),
                        old_items.len() == il,
                        forall|j: int| 0 <= j < il ==> old_items[j] == pair.1@[j]@,
                        c@ == self@[i as int],
                        forall|j: int| 0 <= j < p ==> !str_le(c@.name, old_items[j].name),
                    decreases il - p,
                {
                    p = p + 1;
                }
                proof {
                    lemma_insert_by_name_at(old_items, c@, p as int);
                }
                let ghost pre_items = pair.1@;
                pair.1.insert(p, c);
                proof {
                    assert(pair.1@ =~= pre_items.subrange(0, p as int) + seq![c]
                        + pre_items.subrange(p as int, pre_items.len() as int));
                    lemma_cmd_views(pair.1@);
                    assert(cmd_views(pair.1@) =~= insert_by_name(old_items, c@)) by {
                        assert forall|j: int| 0 <= j < pair.1@.len() implies cmd_views(pair.1@)[j]
                            == insert_by_name(old_items, c@)[j] by {
                            assert(insert_by_name(old_items, c@) == old_items.subrange(0, p as int)
                                + seq![c@] + old_items.subrange(p as int, old_items.len() as int));
                            if j < p as int {
                                assert(pair.1@[j] == pre_items[j]);
                            } else if j > p as int {
                                assert(pair.1@[j] == pre_items[j - 1]);
                            }
                        }
                    }
                }
                let ghost mid_groups = groups@;
                groups.insert(k, pair);
                proof {
                    assert(groups@ =~= mid_groups.insert(k as int, (pair.0, pair.1)));
                    lemma_group_views(groups@);
                    assert(group_views(groups@) =~= gs.update(
                        k as int,
                        (gs[k as int].0, insert_by_name(old_items, c@)),
                    )) by {
                        assert forall|j: int| 0 <= j < groups@.len() implies group_views(groups@)[j]
                            == gs.update(
                            k as int,
                            (gs[k as int].0, insert_by_name(old_items, c@)),
                        )[j] by {
                            if j < k as int {
                                assert(groups@[j] == mid_groups[j]);
                            } else if j > k as int {
                                assert(groups@[j] == mid_groups[j - 1]);
                            } else {
                                assert(groups@[j] == (pair.0, pair.1));
                            }
                        }
                    }
                    assert(gs[k as int].0 == groups@[k as int].0@);
                    assert(gs[k as int].1 == old_items);
                    assert(group_views(groups@) == group_step(gs, c@));
                }
            } else {
                proof {
                    assert(find_group(gs, c@.tag.name) == gl as int) by {
                        lemma_find_group(gs, c@.tag.name);
                        let fm = find_group(gs, c@.tag.name);
                        if fm < gl as int {
                            assert(gs[fm].0.name == c@.tag.name);
                        }
                    }
                }
                // Insert a new group at the order-sorted position.
                let mut p: usize = 0;
                while p < gl && groups[p].0.order <= c.tag.order
                    invariant
                        p <= gl,
                        gl == groups@.len(),
                        gs == group_views(groups@),
                        gs.len() == gl,
                        forall|j: int| 0 <= j < gl ==> gs[j] == (groups@[j].0@, cmd_views(groups@[j].1@)),
                        c@ == self@[i as int],
                        forall|j: int| 0 <= j < p ==> gs[j].0.order <= c@.tag.order,
                    decreases gl - p,
                {
                    p = p + 1;
                }
                proof {
                    if (p as int) < gs.len() {
                        assert(gs[p as int].0.order == groups@[p as int].0@.order);
                    }
                    lemma_insert_group_at(gs, (c@.tag, seq![c@]), p as int);
                }
                let mut items: Vec<Command> = Vec::new();
                items.push(c);
                proof {
                    lemma_cmd_views(items@);
                    assert(cmd_views(items@) =~= seq![c@]);
                }
                let ghost mid_groups = groups@;
                let tag = c.tag;
                groups.insert(p, (tag, items));
                proof {
                    lemma_group_views(groups@);
                    assert(group_views(groups@) =~= gs.subrange(0, p as int) + seq![
                        (c@.tag, seq![c@]),
                    ] + gs.subrange(p as int, gs.len() as int)) by {
                        assert forall|j: int| 0 <= j < groups@.len() implies group_views(groups@)[j]
                            == (gs.subrange(0, p as int) + seq![(c@.tag, seq![c@])] + gs.subrange(
                            p as int,
                            gs.len() as int,
                        ))[j] by {
                            if j < p as int {
                                assert(groups@[j] == mid_groups[j]);
                            } else if j > p as int {
                                assert(groups@[j] == mid_groups[j - 1]);
                            }
                        }
                    }
                    assert(group_views(groups@) == group_step(gs, c@));
                }
            }
            i = i + 1;
        }
        proof {
            assert(self@.take(n as int) =~= self@);
        }
        groups
    }
}


/// Rows of name and description matching a command sequence pointwise.
pub open spec fn desc_rows_match(rows: Seq<(String, String)>, cmds: Seq<CommandModel>) -> bool {
    rows.len() == cmds.len() && forall|i: int|
        0 <= i < rows.len() ==> rows[i].0@ == cmds[i].name && rows[i].1@ == cmds[i].description
}

/// Rows of full help texts matching a command sequence pointwise.
pub open spec fn help_rows_match(
    rows: Seq<(String, String, String, String)>,
    cmds: Seq<CommandModel>,
) -> bool {
    rows.len() == cmds.len() && forall|i: int|
        0 <= i < rows.len() ==> rows[i].0@ == cmds[i].name && rows[i].1@ == cmds[i].description
            && rows[i].2@ == cmds[i].syntax && rows[i].3@ == cmds[i].examples
}

impl CommandRegistry {
    /// The commands grouped by tag, with names and descriptions: groups in
    /// tag order, commands within a group alphabetically by name.
    pub fn get_commands_grouped_by_tags(&self) -> (r: Vec<(Tag, Vec<(String, String)>)>)
        ensures
            r@.len() == groups_spec(self@).len(),
            forall|g: int|
                0 <= g < r@.len() ==> r@[g].0@ == groups_spec(self@)[g].0 && desc_rows_match(
                    r@[g].1@,
                    groups_spec(self@)[g].1,
                ),
    {
        let groups = self.grouped_commands();
        let ghost gs = groups_spec(self@);
        proof {
            lemma_group_views(groups@);
        }
        let mut r: Vec<(Tag, Vec<(String, String)>)> = Vec::new();
        let gl = groups.len();
        let mut g: usize = 0;
        while g < gl
            invariant
                g <= gl,
                gl == groups@.len(),
                gs == group_views(groups@),
                gs.len() == gl,
                forall|j: int| 0 <= j < gl ==> gs[j] == (groups@[j].0@, cmd_views(groups@[j].1@)),
                r@.len() == g,
                forall|j: int|
                    0 <= j < g ==> r@[j].0@ == gs[j].0 && desc_rows_match(r@[j].1@, gs[j].1),
            decreases gl - g,
        {
            let ghost cmds = gs[g as int].1;
            proof {
                lemma_cmd_views(groups@[g as int].1@);
            }
            let cl = groups[g].1.len();
            let mut rows: Vec<(String, String)> = Vec::new();
            let mut i: usize = 0;
            while i < cl
                invariant
                    i <= cl,
                    g < gl,
                    gl == groups@.len(),
                    cl == groups@[g as int].1@.len(),
                    cmds == cmd_views(groups@[g as int].1@),
                    cmds.len() == cl,
                    forall|j: int| 0 <= j < cl ==> cmds[j] == groups@[g as int].1@[j]@,
                    rows@.len() == i,
                    forall|j: int|
                        0 <= j < i ==> rows@[j].0@ == cmds[j].name && rows@[j].1@
                            == cmds[j].description,
                decreases cl - i,
            {
                let c = groups[g].1[i];
                rows.push((String::from_str(c.name), String::from_str(c.description)));
                i = i + 1;
            }
            r.push((groups[g].0, rows));
            g = g + 1;
        }
        r
    }

    /// The commands grouped by tag, with full help texts: groups in tag
    /// order, commands within a group alphabetically by name.
    pub fn get_commands_grouped_by_tags_with_help(&self) -> (r: Vec<
        (Tag, Vec<(String, String, String, String)>),
    >)
        ensures
            r@.len() == groups_spec(self@).len(),
            forall|g: int|
                0 <= g < r@.len() ==> r@[g].0@ == groups_spec(self@)[g].0 && help_rows_match(
                    r@[g].1@,
                    groups_spec(self@)[g].1,
                ),
    {
        let groups = self.grouped_commands();
        let ghost gs = groups_spec(self@);
        proof {
            lemma_group_views(groups@);
        }
        let mut r: Vec<(Tag, Vec<(String, String, String, String)>)> = Vec::new();
        let gl = groups.len();
        let mut g: usize = 0;
        while g < gl
            invariant
                g <= gl,
                gl == groups@.len(),
                gs == group_views(groups@),
                gs.len() == gl,
                forall|j: int| 0 <= j < gl ==> gs[j] == (groups@[j].0@, cmd_views(groups@[j].1@)),
                r@.len() == g,
                forall|j: int|
                    0 <= j < g ==> r@[j].0@ == gs[j].0 && help_rows_match(r@[j].1@, gs[j].1),
            decreases gl - g,
        {
            let ghost cmds = gs[g as int].1;
            proof {
                lemma_cmd_views(groups@[g as int].1@);
            }
            let cl = groups[g].1.len();
            let mut rows: Vec<(String, String, String, String)> = Vec::new();
            let mut i: usize = 0;
            while i < cl
                invariant
                    i <= cl,
                    g < gl,
                    gl == groups@.len(),
                    cl == groups@[g as int].1@.len(),
                    cmds == cmd_views(groups@[g as int].1@),
                    cmds.len() == cl,
                    forall|j: int| 0 <= j < cl ==> cmds[j] == groups@[g as int].1@[j]@,
                    rows@.len() == i,
                    forall|j: int|
                        0 <= j < i ==> rows@[j].0@ == cmds[j].name && rows@[j].1@
                            == cmds[j].description && rows@[j].2@ == cmds[j].syntax && rows@[j].3@
                            == cmds[j].examples,
                decreases cl - i,
            {
                let c = groups[g].1[i];
                rows.push(
                    (
                        String::from_str(c.name),
                        String::from_str(c.description),
                        String::from_str(c.syntax),
                        String::from_str(c.examples),
                    ),
                );
                i = i + 1;
            }
            r.push((groups[g].0, rows));
            g = g + 1;
        }
        r
    }
}

/// A command sequence sorted alphabetically by name.
pub open spec fn names_sorted(cmds: Seq<CommandModel>) -> bool {
    forall|i: int, j: int| 0 <= i < j < cmds.len() ==> str_le(#[trigger] cmds[i].name, #[trigger] cmds[j].name)
}

/// A group sequence sorted by tag order.
pub open spec fn groups_ordered(gs: Seq<GroupModel>) -> bool {
    forall|i: int, j: int| 0 <= i < j < gs.len() ==> (#[trigger] gs[i].0).order <= (#[trigger] gs[j].0).order
}

/// Group tag names are pairwise distinct.
pub open spec fn groups_distinct(gs: Seq<GroupModel>) -> bool {
    forall|i: int, j: int| 0 <= i < j < gs.len() ==> (#[trigger] gs[i].0).name != (#[trigger] gs[j].0).name
}

/// Every group's command list is sorted by name.
pub open spec fn groups_names_sorted(gs: Seq<GroupModel>) -> bool {
    forall|g: int| 0 <= g < gs.len() ==> names_sorted((#[trigger] gs[g]).1)
}

/// The command is filed in some group carrying its tag's name.
pub open spec fn groups_contain(gs: Seq<GroupModel>, c: CommandModel) -> bool {
    exists|g: int, i: int|
        0 <= g < gs.len() && 0 <= i < gs[g].1.len() && (#[trigger] gs[g].1[i]) == c
            && gs[g].0.name == c.tag.name
}

proof fn lemma_name_insert_pos(items: Seq<CommandModel>, c: CommandModel) -> (p: int)
    ensures
        0 <= p <= items.len(),
        forall|j: int| 0 <= j < p ==> !str_le(c.name, (#[trigger] items[j]).name),
        p < items.len() ==> str_le(c.name, items[p].name),
        insert_by_name(items, c) == items.subrange(0, p) + seq![c] + items.subrange(
            p,
            items.len() as int,
        ),
    decreases items,
{
    let p: int = if items.len() == 0 {
        0
    } else if str_le(c.name, items[0].name) {
        0
    } else {
        let q = lemma_name_insert_pos(items.drop_first(), c);
        assert forall|j: int| 0 <= j < q + 1 implies !str_le(
            c.name,
            (#[trigger] items[j]).name,
        ) by {
            if j > 0 {
                assert(items.drop_first()[j - 1] == items[j]);
            }
        }
        if q + 1 < items.len() {
            assert(items.drop_first()[q] == items[q + 1]);
        }
        q + 1
    };
    lemma_insert_by_name_at(items, c, p);
    p
}

proof fn lemma_group_insert_pos(gs: Seq<GroupModel>, g: GroupModel) -> (p: int)
    ensures
        0 <= p <= gs.len(),
        forall|j: int| 0 <= j < p ==> (#[trigger] gs[j]).0.order <= g.0.order,
        p < gs.len() ==> g.0.order < gs[p].0.order,
        insert_group(gs, g) == gs.subrange(0, p) + seq![g] + gs.subrange(p, gs.len() as int),
    decreases gs,
{
    let p: int = if gs.len() == 0 {
        0
    } else if g.0.order < gs[0].0.order {
        0
    } else {
        let q = lemma_group_insert_pos(gs.drop_first(), g);
        assert forall|j: int| 0 <= j < q + 1 implies (#[trigger] gs[j]).0.order <= g.0.order by {
            if j > 0 {
                assert(gs.drop_first()[j - 1] == gs[j]);
            }
        }
        if q + 1 < gs.len() {
            assert(gs.drop_first()[q] == gs[q + 1]);
        }
        q + 1
    };
    lemma_insert_group_at(gs, g, p);
    p
}

/// Help grouping, as a law over the grouping function: commands sharing a
/// tag appear together in a single group (group tag names are distinct, and
/// every registered command is filed in the group carrying its tag's name),
/// groups are ordered by their tags' declared sort order, and the commands
/// within a group are ordered alphabetically by name.
#[verifier::rlimit(100)]
pub proof fn lemma_groups_spec_law(cmds: Seq<CommandModel>)
    ensures
        groups_ordered(groups_spec(cmds)),
        groups_distinct(groups_spec(cmds)),
        groups_names_sorted(groups_spec(cmds)),
        forall|k: int| 0 <= k < cmds.len() ==> groups_contain(groups_spec(cmds), #[trigger] cmds[k]),
    decreases cmds,
{
    if cmds.len() == 0 {
    } else {
        let prefix = cmds.drop_last();
        let c = cmds.last();
        lemma_groups_spec_law(prefix);
        let gs = groups_spec(prefix);
        let out = groups_spec(cmds);
        assert(out == group_step(gs, c));
        lemma_find_group(gs, c.tag.name);
        let k = find_group(gs, c.tag.name);
        if k < gs.len() {
            let items = gs[k].1;
            let merged = insert_by_name(items, c);
            assert(out == gs.update(k, (gs[k].0, merged)));
            let p = lemma_name_insert_pos(items, c);
            // Index map through the sorted insert.
            assert(merged.len() == items.len() + 1);
            assert forall|j: int| 0 <= j < p implies merged[j] == items[j] by {}
            assert(merged[p] == c);
            assert forall|j: int| p < j < merged.len() implies merged[j] == items[j - 1] by {}
            assert(names_sorted(merged)) by {
                assert forall|i: int, j: int| 0 <= i < j < merged.len() implies str_le(
                    (#[trigger] merged[i]).name,
                    (#[trigger] merged[j]).name,
                ) by {
                    if i < p && j < p {
                    } else if i < p && j == p {
                        crate::strutil::lemma_str_le_total(c.name, items[i].name);
                    } else if i < p && j > p {
                    } else if i == p && j > p {
                        if p < items.len() && j - 1 > p {
                            crate::strutil::lemma_str_le_trans(
                                c.name,
                                items[p].name,
                                items[j - 1].name,
                            );
                        }
                    }
                }
            }
            assert(groups_ordered(out)) by {
                assert forall|i: int, j: int| 0 <= i < j < out.len() implies (#[trigger] out[i]).0.order
                    <= (#[trigger] out[j]).0.order by {
                    assert(out[i].0 == gs[i].0);
                    assert(out[j].0 == gs[j].0);
                }
            }
            assert(groups_distinct(out)) by {
                assert forall|i: int, j: int| 0 <= i < j < out.len() implies (#[trigger] out[i]).0.name
                    != (#[trigger] out[j]).0.name by {
                    assert(out[i].0 == gs[i].0);
                    assert(out[j].0 == gs[j].0);
                }
            }
            assert(groups_names_sorted(out)) by {
                assert forall|g: int| 0 <= g < out.len() implies names_sorted(
                    (#[trigger] out[g]).1,
                ) by {
                    if g != k {
                        assert(out[g] == gs[g]);
                    }
                }
            }
            assert forall|w: int| 0 <= w < cmds.len() implies groups_contain(
                out,
                #[trigger] cmds[w],
            ) by {
                if w < cmds.len() - 1 {
                    assert(prefix[w] == cmds[w]);
                    assert(groups_contain(gs, cmds[w]));
                    let (g0, i0) = choose|g0: int, i0: int|
                        0 <= g0 < gs.len() && 0 <= i0 < gs[g0].1.len() && (#[trigger] gs[g0].1[i0])
                            == cmds[w] && gs[g0].0.name == cmds[w].tag.name;
                    if g0 != k {
                        assert(out[g0] == gs[g0]);
                        assert(out[g0].1[i0] == cmds[w] && out[g0].0.name == cmds[w].tag.name);
                    } else {
                        let j0: int = if i0 < p {
                            i0
                        } else {
                            i0 + 1
                        };
                        assert(out[k].1[j0] == cmds[w] && out[k].0.name == cmds[w].tag.name);
                    }
                } else {
                    assert(out[k].1[p] == c && out[k].0.name == c.tag.name);
                }
            }
        } else {
            let ng = (c.tag, seq![c]);
            assert(out == insert_group(gs, ng));
            let q = lemma_group_insert_pos(gs, ng);
            assert(out.len() == gs.len() + 1);
            assert forall|j: int| 0 <= j < q implies out[j] == gs[j] by {}
            assert(out[q] == ng);
            assert forall|j: int| q < j < out.len() implies out[j] == gs[j - 1] by {}
            assert(groups_ordered(out)) by {
                assert forall|i: int, j: int| 0 <= i < j < out.len() implies (#[trigger] out[i]).0.order
                    <= (#[trigger] out[j]).0.order by {
                    if i < q && j == q {
                    } else if i == q && j > q {
                        if q < gs.len() && j - 1 > q {
                        }
                    }
                }
            }
            assert(groups_distinct(out)) by {
                assert forall|i: int, j: int| 0 <= i < j < out.len() implies (#[trigger] out[i]).0.name
                    != (#[trigger] out[j]).0.name by {
                    if i == q {
                        assert(gs[j - 1].0.name != c.tag.name);
                    } else if j == q {
                        assert(gs[i].0.name != c.tag.name);
                    }
                }
            }
            assert(groups_names_sorted(out)) by {
                assert forall|g: int| 0 <= g < out.len() implies names_sorted(
                    (#[trigger] out[g]).1,
                ) by {
                    if g == q {
                        assert(out[g].1.len() == 1);
                    } else if g < q {
                        assert(out[g] == gs[g]);
                    } else {
                        assert(out[g] == gs[g - 1]);
                    }
                }
            }
            assert forall|w: int| 0 <= w < cmds.len() implies groups_contain(
                out,
                #[trigger] cmds[w],
            ) by {
                if w < cmds.len() - 1 {
                    assert(prefix[w] == cmds[w]);
                    assert(groups_contain(gs, cmds[w]));
                    let (g0, i0) = choose|g0: int, i0: int|
                        0 <= g0 < gs.len() && 0 <= i0 < gs[g0].1.len() && (#[trigger] gs[g0].1[i0])
                            == cmds[w] && gs[g0].0.name == cmds[w].tag.name;
                    let j0: int = if g0 < q {
                        g0
                    } else {
                        g0 + 1
                    };
                    assert(out[j0] == gs[g0]);
                    assert(out[j0].1[i0] == cmds[w] && out[j0].0.name == cmds[w].tag.name);
                } else {
                    assert(out[q].1[0] == c && out[q].0.name == c.tag.name);
                }
            }
        }
    }
}


/// Command names are pairwise distinct.
pub open spec fn names_distinct(cmds: Seq<CommandModel>) -> bool {
    forall|i: int, j: int|
        0 <= i < j < cmds.len() ==> (#[trigger] cmds[i]).name != (#[trigger] cmds[j]).name
}

/// Registration keeps names pairwise distinct: replacing keeps the name set,
/// and appending adds a name not yet present. Registries built from `new` by
/// `register` therefore bind each name at most once.
pub proof fn lemma_reg_insert_distinct(cmds: Seq<CommandModel>, c: CommandModel)
    requires
        names_distinct(cmds),
    ensures
        names_distinct(reg_insert(cmds, c)),
{
    lemma_first_match(cmds, c.name);
    let k = first_match(cmds, c.name);
    let out = reg_insert(cmds, c);
    if k < cmds.len() {
        assert forall|i: int, j: int| 0 <= i < j < out.len() implies (#[trigger] out[i]).name != (
        #[trigger] out[j]).name by {
            assert(out[i].name == cmds[i].name);
            assert(out[j].name == cmds[j].name);
        }
    } else {
        assert forall|i: int, j: int| 0 <= i < j < out.len() implies (#[trigger] out[i]).name != (
        #[trigger] out[j]).name by {
            if j == cmds.len() {
                assert(out[i] == cmds[i]);
                assert(cmds[i].name != c.name);
            } else {
                assert(out[i] == cmds[i]);
                assert(out[j] == cmds[j]);
            }
        }
    }
}

/// The number of commands filed across all groups.
pub open spec fn filed_count(gs: Seq<GroupModel>) -> int
    decreases gs,
{
    if gs.len() == 0 {
        0
    } else {
        filed_count(gs.drop_last()) + gs.last().1.len()
    }
}

proof fn lemma_filed_count_concat(a: Seq<GroupModel>, b: Seq<GroupModel>)
    ensures
        filed_count(a + b) == filed_count(a) + filed_count(b),
    decreases b,
{
    if b.len() == 0 {
        assert(a + b =~= a);
    } else {
        lemma_filed_count_concat(a, b.drop_last());
        assert((a + b).drop_last() =~= a + b.drop_last());
        assert((a + b).last() == b.last());
    }
}

proof fn lemma_filed_count_split(gs: Seq<GroupModel>, k: int)
    requires
        0 <= k < gs.len(),
    ensures
        filed_count(gs) == filed_count(gs.subrange(0, k)) + gs[k].1.len() + filed_count(
            gs.subrange(k + 1, gs.len() as int),
        ),
{
    assert(gs =~= gs.subrange(0, k) + seq![gs[k]] + gs.subrange(k + 1, gs.len() as int));
    lemma_filed_count_concat(gs.subrange(0, k) + seq![gs[k]], gs.subrange(k + 1, gs.len() as int));
    lemma_filed_count_concat(gs.subrange(0, k), seq![gs[k]]);
    assert(filed_count(seq![gs[k]]) == gs[k].1.len()) by {
        assert(seq![gs[k]].drop_last() =~= Seq::<GroupModel>::empty());
        assert(filed_count(Seq::<GroupModel>::empty()) == 0);
        assert(seq![gs[k]].last() == gs[k]);
        assert(filed_count(seq![gs[k]]) == filed_count(seq![gs[k]].drop_last())
            + seq![gs[k]].last().1.len());
    }
}

proof fn lemma_insert_by_name_len(items: Seq<CommandModel>, c: CommandModel)
    ensures
        insert_by_name(items, c).len() == items.len() + 1,
    decreases items,
{
    if items.len() > 0 && !str_le(c.name, items[0].name) {
        lemma_insert_by_name_len(items.drop_first(), c);
    }
}

/// One grouping step files exactly one more command.
proof fn lemma_group_step_count(gs: Seq<GroupModel>, c: CommandModel)
    ensures
        filed_count(group_step(gs, c)) == filed_count(gs) + 1,
{
    lemma_find_group(gs, c.tag.name);
    let k = find_group(gs, c.tag.name);
    if k < gs.len() {
        let merged = insert_by_name(gs[k].1, c);
        let out = gs.update(k, (gs[k].0, merged));
        lemma_insert_by_name_len(gs[k].1, c);
        lemma_filed_count_split(gs, k);
        lemma_filed_count_split(out, k);
        assert(out.subrange(0, k) =~= gs.subrange(0, k));
        assert(out.subrange(k + 1, out.len() as int) =~= gs.subrange(k + 1, gs.len() as int));
    } else {
        let ng = (c.tag, seq![c]);
        let p = lemma_group_insert_pos(gs, ng);
        let out = insert_group(gs, ng);
        lemma_filed_count_concat(gs.subrange(0, p) + seq![ng], gs.subrange(p, gs.len() as int));
        lemma_filed_count_concat(gs.subrange(0, p), seq![ng]);
        assert(filed_count(seq![ng]) == 1) by {
            assert(seq![ng].drop_last() =~= Seq::<GroupModel>::empty());
            assert(filed_count(Seq::<GroupModel>::empty()) == 0);
            assert(seq![ng].last() == ng);
            assert(filed_count(seq![ng]) == filed_count(seq![ng].drop_last())
                + seq![ng].last().1.len());
            assert(ng.1.len() == 1);
        }
        lemma_filed_count_concat(gs.subrange(0, p), gs.subrange(p, gs.len() as int));
        assert(gs =~= gs.subrange(0, p) + gs.subrange(p, gs.len() as int));
    }
}

/// The groups file exactly as many commands as are registered: together with
/// the grouping law, every registered command appears, and the counts leave
/// no room for an extra or repeated entry beyond the registered ones.
pub proof fn lemma_groups_spec_count(cmds: Seq<CommandModel>)
    ensures
        filed_count(groups_spec(cmds)) == cmds.len(),
    decreases cmds,
{
    if cmds.len() > 0 {
        lemma_groups_spec_count(cmds.drop_last());
        lemma_group_step_count(groups_spec(cmds.drop_last()), cmds.last());
    }
}

/// No group of the grouping is empty.
pub proof fn lemma_groups_spec_nonempty(cmds: Seq<CommandModel>)
    ensures
        forall|g: int|
            0 <= g < groups_spec(cmds).len() ==> (#[trigger] groups_spec(cmds)[g]).1.len() >= 1,
    decreases cmds,
{
    if cmds.len() > 0 {
        let gs = groups_spec(cmds.drop_last());
        let c = cmds.last();
        let out = groups_spec(cmds);
        lemma_groups_spec_nonempty(cmds.drop_last());
        lemma_find_group(gs, c.tag.name);
        let k = find_group(gs, c.tag.name);
        if k < gs.len() {
            lemma_insert_by_name_len(gs[k].1, c);
            assert forall|g: int| 0 <= g < out.len() implies (#[trigger] out[g]).1.len() >= 1 by {
                if g != k {
                    assert(out[g] == gs[g]);
                }
            }
        } else {
            let ng = (c.tag, seq![c]);
            let p = lemma_group_insert_pos(gs, ng);
            assert forall|g: int| 0 <= g < out.len() implies (#[trigger] out[g]).1.len() >= 1 by {
                if g < p {
                    assert(out[g] == gs[g]);
                } else if g > p {
                    assert(out[g] == gs[g - 1]);
                }
            }
        }
    }
}

} // verus!


