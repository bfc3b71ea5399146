//! The session context: the command registry and the mutable state threaded
//! through every evaluation — variable bindings, version records, a
//! debug-output flag and a base directory.

use vstd::prelude::*;
use vstd::string::*;

use crate::registry::{CommandModel, CommandRegistry};
use crate::strutil::str_eq;
use crate::values::{val_str, Value, ValueModel};

verus! {

/// Version information for one versioned element.
#[derive(Debug, PartialEq)]
pub struct VersionInfo {
    /// Variable name: the directory name in upper case, with non-alphanumeric
    /// characters replaced by underscores.
    pub v_name: String,
    /// The actual directory name.
    pub real_name: String,
    /// The checksum of the directory contents.
    pub checksum: String,
}

/// Mathematical model of a `VersionInfo`.
pub ghost struct VersionInfoModel {
    pub v_name: Seq<char>,
    pub real_name: Seq<char>,
    pub checksum: Seq<char>,
}

impl View for VersionInfo {
    type V = VersionInfoModel;

    open spec fn view(&self) -> VersionInfoModel {
        VersionInfoModel {
            v_name: self.v_name@,
            real_name: self.real_name@,
            checksum: self.checksum@,
        }
    }
}

impl Clone for VersionInfo {
    /// A clone has the same model as the original.
    fn clone(&self) -> (r: Self)
        ensures
            r@ == self@,
    {
        VersionInfo {
            v_name: self.v_name.clone(),
            real_name: self.real_name.clone(),
            checksum: self.checksum.clone(),
        }
    }
}

/// Mathematical model of a `Context`.
pub ghost struct ContextModel {
    pub registry: Seq<CommandModel>,
    pub variables: Seq<(Seq<char>, ValueModel)>,
    pub versions: Seq<(Seq<char>, VersionInfoModel)>,
    pub environment: Seq<(Seq<char>, Seq<char>)>,
    pub output: Seq<Seq<char>>,
    pub debug_print: bool,
    pub basedir: Seq<char>,
}

/// The session context. Variables and versions are association lists with
/// unique keys (kept unique by the setters); insertion order is preserved.
pub struct Context {
    /// Command registry for looking up commands.
    pub registry: CommandRegistry,
    /// Variable bindings of the session.
    pub variables: Vec<(String, Value)>,
    /// Version records of the session.
    pub versions: Vec<(String, VersionInfo)>,
    /// The process environment, handed in as plain values by the embedding
    /// application; reading it directly is the application's affair. The
    /// `${name}` interpolation falls back to this table.
    pub environment: Vec<(String, String)>,
    /// Text the printing commands emit, in order; the embedding application
    /// flushes it to its console.
    pub output: Vec<String>,
    /// Debug-output flag.
    pub debug_print: bool,
    /// Base directory for relative paths.
    pub basedir: String,
}

/// The models of an association list of values.
pub open spec fn var_views(s: Seq<(String, Value)>) -> Seq<(Seq<char>, ValueModel)>
    decreases s,
{
    if s.len() == 0 {
        Seq::empty()
    } else {
        var_views(s.drop_last()).push((s.last().0@, s.last().1@))
    }
}

/// `var_views` maps the sequence pointwise.
pub proof fn lemma_var_views(s: Seq<(String, Value)>)
    ensures
        var_views(s).len() == s.len(),
        forall|i: int| 0 <= i < s.len() ==> var_views(s)[i] == (s[i].0@, s[i].1@),
    decreases s,
{
    if s.len() > 0 {
        lemma_var_views(s.drop_last());
        assert(var_views(s) == var_views(s.drop_last()).push((s.last().0@, s.last().1@)));
        assert forall|i: int| 0 <= i < s.len() implies var_views(s)[i] == (s[i].0@, s[i].1@) by {
            if i < s.len() - 1 {
                assert(var_views(s)[i] == var_views(s.drop_last())[i]);
                assert(s.drop_last()[i] == s[i]);
            }
        }
    } else {
        assert(var_views(s) == Seq::<(Seq<char>, ValueModel)>::empty());
    }
}

/// The models of an association list of version records.
pub open spec fn version_views(s: Seq<(String, VersionInfo)>) -> Seq<(Seq<char>, VersionInfoModel)>
    decreases s,
{
    if s.len() == 0 {
        Seq::empty()
    } else {
        version_views(s.drop_last()).push((s.last().0@, s.last().1@))
    }
}

/// `version_views` maps the sequence pointwise.
pub proof fn lemma_version_views(s: Seq<(String, VersionInfo)>)
    ensures
        version_views(s).len() == s.len(),
        forall|i: int| 0 <= i < s.len() ==> version_views(s)[i] == (s[i].0@, s[i].1@),
    decreases s,
{
    if s.len() > 0 {
        lemma_version_views(s.drop_last());
        assert(version_views(s) == version_views(s.drop_last()).push(
            (s.last().0@, s.last().1@),
        ));
        assert forall|i: int| 0 <= i < s.len() implies version_views(s)[i] == (
        s[i].0@,
        s[i].1@,
        ) by {
            if i < s.len() - 1 {
                assert(version_views(s)[i] == version_views(s.drop_last())[i]);
                assert(s.drop_last()[i] == s[i]);
            }
        }
    } else {
        assert(version_views(s) == Seq::<(Seq<char>, VersionInfoModel)>::empty());
    }
}

/// The first index bound to a key, or the length if none.
pub open spec fn assoc_find<V>(s: Seq<(Seq<char>, V)>, key: Seq<char>) -> int
    decreases s,
{
    if s.len() == 0 {
        0
    } else if s[0].0 == key {
        0
    } else {
        1 + assoc_find(s.drop_first(), key)
    }
}

/// `assoc_find` is the first matching index.
pub proof fn lemma_assoc_find<V>(s: Seq<(Seq<char>, V)>, key: Seq<char>)
    ensures
        0 <= assoc_find(s, key) <= s.len(),
        assoc_find(s, key) < s.len() ==> s[assoc_find(s, key)].0 == key,
        forall|j: int| 0 <= j < assoc_find(s, key) ==> s[j].0 != key,
    decreases s,
{
    if s.len() > 0 && s[0].0 != key {
        lemma_assoc_find(s.drop_first(), key);
        let k = assoc_find(s, key);
        assert forall|j: int| 0 <= j < k implies s[j].0 != key by {
            if j > 0 {
                assert(s.drop_first()[j - 1] == s[j]);
            }
        }
        if k < s.len() {
            assert(s.drop_first()[k - 1] == s[k]);
        }
    }
}

/// The value bound to a key, if any.
pub open spec fn assoc_get<V>(s: Seq<(Seq<char>, V)>, key: Seq<char>) -> Option<V> {
    let k = assoc_find(s, key);
    if k < s.len() {
        Option::Some(s[k].1)
    } else {
        Option::None
    }
}

/// Binding a key: replace the binding already holding this key, else append.
pub open spec fn assoc_set<V>(s: Seq<(Seq<char>, V)>, key: Seq<char>, v: V) -> Seq<
    (Seq<char>, V),
> {
    let k = assoc_find(s, key);
    if k < s.len() {
        s.update(k, (key, v))
    } else {
        s.push((key, v))
    }
}

impl View for Context {
    type V = ContextModel;

    open spec fn view(&self) -> ContextModel {
        ContextModel {
            registry: self.registry@,
            variables: var_views(self.variables@),
            versions: version_views(self.versions@),
            environment: crate::dockercfg::pair_views(self.environment@),
            output: crate::dockercfg::str_views(self.output@),
            debug_print: self.debug_print,
            basedir: self.basedir@,
        }
    }
}

impl Context {
    /// A new context with the given registry, no variables, no versions, the
    /// debug flag off, and the current directory as base directory.
    pub fn new(registry: CommandRegistry) -> (r: Self)
        ensures
            r@.registry == registry@,
            r@.variables == Seq::<(Seq<char>, ValueModel)>::empty(),
            r@.versions == Seq::<(Seq<char>, VersionInfoModel)>::empty(),
            r@.environment == Seq::<(Seq<char>, Seq<char>)>::empty(),
            r@.output == Seq::<Seq<char>>::empty(),
            r@.debug_print == false,
            r@.basedir == "."@,
    {
        let r = Context {
            registry,
            variables: Vec::new(),
            versions: Vec::new(),
            environment: Vec::new(),
            output: Vec::new(),
            debug_print: false,
            basedir: String::from_str("."),
        };
        proof {
            assert(var_views(r.variables@) == Seq::<(Seq<char>, ValueModel)>::empty());
            assert(version_views(r.versions@) == Seq::<(Seq<char>, VersionInfoModel)>::empty());
            assert(crate::dockercfg::pair_views(r.environment@) == Seq::<
                (Seq<char>, Seq<char>),
            >::empty());
            assert(crate::dockercfg::str_views(r.output@) == Seq::<Seq<char>>::empty());
        }
        r
    }

    /// Append one piece of console text to the output log.
    pub fn emit(&mut self, line: String)
        ensures
            final(self)@ == (ContextModel { output: old(self)@.output.push(line@), ..old(self)@ }),
    {
        let ghost pre = self.output@;
        let ghost line_v = line@;
        self.output.push(line);
        proof {
            assert(self.output@.drop_last() =~= pre);
            assert(crate::dockercfg::str_views(self.output@) == crate::dockercfg::str_views(
                self.output@.drop_last(),
            ).push(self.output@.last()@));
            assert(crate::dockercfg::str_views(self.output@) == crate::dockercfg::str_views(
                pre,
            ).push(line_v));
        }
    }

    /// Take the accumulated console text, leaving the log empty; the
    /// embedding application writes it out.
    pub fn take_output(&mut self) -> (r: Vec<String>)
        ensures
            crate::dockercfg::str_views(r@) == old(self)@.output,
            final(self)@ == (ContextModel { output: Seq::<Seq<char>>::empty(), ..old(self)@ }),
    {
        let mut out: Vec<String> = Vec::new();
        core::mem::swap(&mut out, &mut self.output);
        proof {
            assert(crate::dockercfg::str_views(self.output@) == Seq::<Seq<char>>::empty());
        }
        out
    }

    /// Hand the process environment in as plain values; the embedding
    /// application fills this from its surroundings.
    pub fn set_environment(&mut self, environment: Vec<(String, String)>)
        ensures
            final(self)@ == (ContextModel {
                environment: crate::dockercfg::pair_views(environment@),
                ..old(self)@
            }),
    {
        self.environment = environment;
    }

    /// Bind a variable; an existing binding of the same name is replaced.
    pub fn set_variable(&mut self, name: String, value: Value)
        ensures
            final(self)@ == (ContextModel {
                variables: assoc_set(old(self)@.variables, name@, value@),
                ..old(self)@
            }),
    {
        let ghost orig = var_views(self.variables@);
        let ghost name_v = name@;
        let ghost value_v = value@;
        proof {
            lemma_var_views(self.variables@);
        }
        let n = self.variables.len();
        let mut i: usize = 0;
        while i < n
            invariant
                i <= n,
                n == self.variables@.len(),
                orig == var_views(self.variables@),
                orig == old(self)@.variables,
                old(self)@.registry == self@.registry,
                old(self)@.versions == self@.versions,
                old(self)@.environment == self@.environment,
                old(self)@.output == self@.output,
                old(self)@.debug_print == self@.debug_print,
                old(self)@.basedir == self@.basedir,
                orig.len() == n,
                name_v == name@,
                value_v == value@,
                forall|j: int| 0 <= j < n ==> orig[j] == (self.variables@[j].0@, self.variables@[j].1@),
                forall|j: int| 0 <= j < i ==> orig[j].0 != name_v,
            decreases n - i,
        {
            if str_eq(self.variables[i].0.as_str(), name.as_str()) {
                proof {
                    assert(orig[i as int].0 == name_v);
                    assert(assoc_find(orig, name_v) == i as int) by {
                        lemma_assoc_find(orig, name_v);
                        let fm = assoc_find(orig, name_v);
                        if fm < i as int {
                            assert(orig[fm].0 == name_v);
                        }
                        if fm > i as int {
                            assert(orig[i as int].0 != name_v);
                        }
                    }
                }
                let ghost pre = self.variables@;
                self.variables.remove(i);
                self.variables.insert(i, (name, value));
                proof {
                    assert(self.variables@ =~= pre.update(i as int, (name, value)));
                    lemma_var_views(self.variables@);
                    assert(var_views(self.variables@) =~= orig.update(
                        i as int,
                        (name_v, value_v),
                    ));
                }
                return ;
            }
            i = i + 1;
        }
        proof {
            assert(assoc_find(orig, name_v) == n as int) by {
                lemma_assoc_find(orig, name_v);
                let fm = assoc_find(orig, name_v);
                if fm < n as int {
                    assert(orig[fm].0 == name_v);
                }
            }
        }
        let ghost pre = self.variables@;
        self.variables.push((name, value));
        proof {
            assert(self.variables@.drop_last() =~= pre);
            assert(var_views(self.variables@) == var_views(self.variables@.drop_last()).push(
                (self.variables@.last().0@, self.variables@.last().1@),
            ));
            assert(var_views(self.variables@) =~= orig.push((name_v, value_v)));
        }
    }

    /// The value bound to a variable, if any.
    pub fn get_variable(&self, name: &str) -> (r: Option<&Value>)
        ensures
            match r {
                Option::Some(v) => assoc_get(self@.variables, name@) == Option::Some(v@),
                Option::None => assoc_get(self@.variables, name@) is None,
            },
    {
        proof {
            lemma_var_views(self.variables@);
            lemma_assoc_find(self@.variables, name@);
        }
        let n = self.variables.len();
        let mut i: usize = 0;
        while i < n
            invariant
                i <= n,
                n == self.variables@.len(),
                self@.variables.len() == n,
                forall|j: int|
                    0 <= j < n ==> self@.variables[j] == (
                        self.variables@[j].0@,
                        self.variables@[j].1@,
                    ),
                forall|j: int| 0 <= j < i ==> self@.variables[j].0 != name@,
            decreases n - i,
        {
            if str_eq(self.variables[i].0.as_str(), name) {
                proof {
                    assert(self@.variables[i as int].0 == name@);
                    assert(assoc_find(self@.variables, name@) == i as int) by {
                        lemma_assoc_find(self@.variables, name@);
                        let fm = assoc_find(self@.variables, name@);
                        if fm < i as int {
                            assert(self@.variables[fm].0 == name@);
                        }
                        if fm > i as int {
                            assert(self@.variables[i as int].0 != name@);
                        }
                    }
                }
                return Some(&self.variables[i].1);
            }
            i = i + 1;
        }
        proof {
            lemma_assoc_find(self@.variables, name@);
            if assoc_find(self@.variables, name@) < n {
                assert(self@.variables[assoc_find(self@.variables, name@)].0 == name@);
            }
        }
        None
    }

    /// Record version information; an existing record under the key is
    /// replaced.
    pub fn set_version(&mut self, key: String, version_info: VersionInfo)
        ensures
            final(self)@ == (ContextModel {
                versions: assoc_set(old(self)@.versions, key@, version_info@),
                ..old(self)@
            }),
    {
        let ghost orig = version_views(self.versions@);
        let ghost key_v = key@;
        let ghost info_v = version_info@;
        proof {
            lemma_version_views(self.versions@);
        }
        let n = self.versions.len();
        let mut i: usize = 0;
        while i < n
            invariant
                i <= n,
                n == self.versions@.len(),
                orig == version_views(self.versions@),
                orig == old(self)@.versions,
                old(self)@.registry == self@.registry,
                old(self)@.variables == self@.variables,
                old(self)@.environment == self@.environment,
                old(self)@.output == self@.output,
                old(self)@.debug_print == self@.debug_print,
                old(self)@.basedir == self@.basedir,
                orig.len() == n,
                key_v == key@,
                info_v == version_info@,
                forall|j: int| 0 <= j < n ==> orig[j] == (self.versions@[j].0@, self.versions@[j].1@),
                forall|j: int| 0 <= j < i ==> orig[j].0 != key_v,
            decreases n - i,
        {
            if str_eq(self.versions[i].0.as_str(), key.as_str()) {
                proof {
                    assert(orig[i as int].0 == key_v);
                    assert(assoc_find(orig, key_v) == i as int) by {
                        lemma_assoc_find(orig, key_v);
                        let fm = assoc_find(orig, key_v);
                        if fm < i as int {
                            assert(orig[fm].0 == key_v);
                        }
                        if fm > i as int {
                            assert(orig[i as int].0 != key_v);
                        }
                    }
                }
                let ghost pre = self.versions@;
                self.versions.remove(i);
                self.versions.insert(i, (key, version_info));
                proof {
                    assert(self.versions@ =~= pre.update(i as int, (key, version_info)));
                    lemma_version_views(self.versions@);
                    assert(version_views(self.versions@) =~= orig.update(
                        i as int,
                        (key_v, info_v),
                    ));
                }
                return ;
            }
            i = i + 1;
        }
        proof {
            assert(assoc_find(orig, key_v) == n as int) by {
                lemma_assoc_find(orig, key_v);
                let fm = assoc_find(orig, key_v);
                if fm < n as int {
                    assert(orig[fm].0 == key_v);
                }
            }
        }
        let ghost pre = self.versions@;
        self.versions.push((key, version_info));
        proof {
            assert(self.versions@.drop_last() =~= pre);
            assert(version_views(self.versions@) == version_views(
                self.versions@.drop_last(),
            ).push((self.versions@.last().0@, self.versions@.last().1@)));
            assert(version_views(self.versions@) =~= orig.push((key_v, info_v)));
        }
    }

    /// The version record under a key, if any.
    pub fn get_version(&self, key: &str) -> (r: Option<&VersionInfo>)
        ensures
            match r {
                Option::Some(v) => assoc_get(self@.versions, key@) == Option::Some(v@),
                Option::None => assoc_get(self@.versions, key@) is None,
            },
    {
        proof {
            lemma_version_views(self.versions@);
            lemma_assoc_find(self@.versions, key@);
        }
        let n = self.versions.len();
        let mut i: usize = 0;
        while i < n
            invariant
                i <= n,
                n == self.versions@.len(),
                self@.versions.len() == n,
                forall|j: int|
                    0 <= j < n ==> self@.versions[j] == (
                        self.versions@[j].0@,
                        self.versions@[j].1@,
                    ),
                forall|j: int| 0 <= j < i ==> self@.versions[j].0 != key@,
            decreases n - i,
        {
            if str_eq(self.versions[i].0.as_str(), key) {
                proof {
                    assert(self@.versions[i as int].0 == key@);
                    assert(assoc_find(self@.versions, key@) == i as int) by {
                        lemma_assoc_find(self@.versions, key@);
                        let fm = assoc_find(self@.versions, key@);
                        if fm < i as int {
                            assert(self@.versions[fm].0 == key@);
                        }
                        if fm > i as int {
                            assert(self@.versions[i as int].0 != key@);
                        }
                    }
                }
                return Some(&self.versions[i].1);
            }
            i = i + 1;
        }
        proof {
            lemma_assoc_find(self@.versions, key@);
            if assoc_find(self@.versions, key@) < n {
                assert(self@.versions[assoc_find(self@.versions, key@)].0 == key@);
            }
        }
        None
    }

    /// All version records, in insertion order.
    pub fn get_all_versions(&self) -> (r: &Vec<(String, VersionInfo)>)
        ensures
            version_views(r@) == self@.versions,
    {
        &self.versions
    }

    /// Set the debug-output flag.
    pub fn set_debug_print(&mut self, enabled: bool)
        ensures
            final(self)@ == (ContextModel { debug_print: enabled, ..old(self)@ }),
    {
        self.debug_print = enabled;
    }

    /// The debug-output flag.
    pub fn get_debug_print(&self) -> (r: bool)
        ensures
            r == self@.debug_print,
    {
        self.debug_print
    }

    /// Set the base directory.
    pub fn set_basedir(&mut self, path: String)
        ensures
            final(self)@ == (ContextModel { basedir: path@, ..old(self)@ }),
    {
        self.basedir = path;
    }

    /// The base directory.
    pub fn get_basedir(&self) -> (r: &String)
        ensures
            r@ == self@.basedir,
    {
        &self.basedir
    }
}

/// The rendering of a boolean.
pub open spec fn bool_str(b: bool) -> Seq<char> {
    if b {
        "true"@
    } else {
        "false"@
    }
}

/// The session-variable lines of the state dump.
pub open spec fn var_lines(vars: Seq<(Seq<char>, ValueModel)>) -> Seq<char>
    decreases vars,
{
    if vars.len() == 0 {
        Seq::empty()
    } else {
        var_lines(vars.drop_last()) + "  "@ + vars.last().0 + " = "@ + val_str(vars.last().1)
            + "\n"@
    }
}

/// The version lines of the state dump.
pub open spec fn version_lines(versions: Seq<(Seq<char>, VersionInfoModel)>) -> Seq<char>
    decreases versions,
{
    if versions.len() == 0 {
        Seq::empty()
    } else {
        version_lines(versions.drop_last()) + "  "@ + versions.last().0 + " = { v_name: "@
            + versions.last().1.v_name + ", real_name: "@ + versions.last().1.real_name
            + ", checksum: "@ + versions.last().1.checksum + " }\n"@
    }
}

/// The whole state dump.
pub open spec fn debug_info_spec(ctx: ContextModel) -> Seq<char> {
    "\n=== DEBUG: Current Program State ===\n"@ + "\n--- Fixed Context Variables ---\n"@
        + "  debugPrint = "@ + bool_str(ctx.debug_print) + "\n"@ + "  basedir = "@ + ctx.basedir
        + "\n"@ + "\n--- Session Variables ---\n"@ + (if ctx.variables.len() == 0 {
        "  (no variables set)\n"@
    } else {
        var_lines(ctx.variables)
    }) + "\n--- Version Information ---\n"@ + (if ctx.versions.len() == 0 {
        "  (no versions set)\n"@
    } else {
        version_lines(ctx.versions)
    }) + "\n=== End Debug Info ===\n"@
}

impl Context {
    /// Render the current session state: the fixed context variables, the
    /// session variables, and the version records.
    pub fn print_debug_info(&self) -> (r: String)
        ensures
            r@ == debug_info_spec(self@),
    {
        let mut out = String::from_str("\n=== DEBUG: Current Program State ===\n");
        out.append("\n--- Fixed Context Variables ---\n");
        out.append("  debugPrint = ");
        if self.debug_print {
            out.append("true");
        } else {
            out.append("false");
        }
        out.append("\n");
        out.append("  basedir = ");
        out.append(self.basedir.as_str());
        out.append("\n");
        out.append("\n--- Session Variables ---\n");
        proof {
            lemma_var_views(self.variables@);
        }
        if self.variables.len() == 0 {
            out.append("  (no variables set)\n");
        } else {
            let n = self.variables.len();
            let ghost vars = self@.variables;
            let mut i: usize = 0;
            let ghost head = out@;
            while i < n
                invariant
                    i <= n,
                    n == self.variables@.len(),
                    vars == self@.variables,
                    vars.len() == n,
                    forall|j: int|
                        0 <= j < n ==> vars[j] == (self.variables@[j].0@, self.variables@[j].1@),
                    out@ == head + var_lines(vars.take(i as int)),
                decreases n - i,
            {
                out.append("  ");
                out.append(self.variables[i].0.as_str());
                out.append(" = ");
                let rendered = self.variables[i].1.to_string();
                out.append(rendered.as_str());
                out.append("\n");
                proof {
                    assert(vars.take(i + 1).drop_last() =~= vars.take(i as int));
                    assert(vars.take(i + 1).last() == vars[i as int]);
                    assert(out@ =~= head + var_lines(vars.take(i + 1)));
                }
                i = i + 1;
            }
            proof {
                assert(vars.take(n as int) =~= vars);
            }
        }
        out.append("\n--- Version Information ---\n");
        proof {
            lemma_version_views(self.versions@);
        }
        if self.versions.len() == 0 {
            out.append("  (no versions set)\n");
        } else {
            let n = self.versions.len();
            let ghost vers = self@.versions;
            let mut i: usize = 0;
            let ghost head = out@;
            while i < n
                invariant
                    i <= n,
                    n == self.versions@.len(),
                    vers == self@.versions,
                    vers.len() == n,
                    forall|j: int|
                        0 <= j < n ==> vers[j] == (self.versions@[j].0@, self.versions@[j].1@),
                    out@ == head + version_lines(vers.take(i as int)),
                decreases n - i,
            {
                out.append("  ");
                out.append(self.versions[i].0.as_str());
                out.append(" = { v_name: ");
                out.append(self.versions[i].1.v_name.as_str());
                out.append(", real_name: ");
                out.append(self.versions[i].1.real_name.as_str());
                out.append(", checksum: ");
                out.append(self.versions[i].1.checksum.as_str());
                out.append(" }\n");
                proof {
                    assert(vers.take(i + 1).drop_last() =~= vers.take(i as int));
                    assert(vers.take(i + 1).last() == vers[i as int]);
                    assert(out@ =~= head + version_lines(vers.take(i + 1)));
                }
                i = i + 1;
            }
            proof {
                assert(vers.take(n as int) =~= vers);
            }
        }
        out.append("\n=== End Debug Info ===\n");
        proof {
            assert(out@ =~= debug_info_spec(self@));
        }
        out
    }
}

} // verus!
