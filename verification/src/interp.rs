//! Variable interpolation: each `${name}` reference in a text is replaced, in
//! a single pass, by the session variable of that name (rendered as text),
//! else by the environment entry of that name, else left verbatim.

use vstd::prelude::*;
use vstd::string::*;

use crate::context::{assoc_get, Context};
use crate::strutil::{chars_of, push_char, string_from_chars};
use crate::values::{val_str, ValueModel};
use crate::versioning::assoc_lookup;

verus! {

/// The first position at or after `i` holding `}`, or the length.
pub open spec fn close_pos(s: Seq<char>, i: int) -> int
    decreases s.len() - i,
{
    if 0 <= i < s.len() && s[i] != '}' {
        close_pos(s, i + 1)
    } else {
        i
    }
}

proof fn lemma_close_pos(s: Seq<char>, i: int)
    requires
        0 <= i <= s.len(),
    ensures
        i <= close_pos(s, i) <= s.len(),
        close_pos(s, i) < s.len() ==> s[close_pos(s, i)] == '}',
        forall|j: int| i <= j < close_pos(s, i) ==> s[j] != '}',
    decreases s.len() - i,
{
    if i < s.len() && s[i] != '}' {
        lemma_close_pos(s, i + 1);
    }
}

/// What one `${name}` reference resolves to: the rendered session variable,
/// else the environment entry, else the reference itself, verbatim.
pub open spec fn resolve_ref(
    name: Seq<char>,
    vars: Seq<(Seq<char>, ValueModel)>,
    env: Seq<(Seq<char>, Seq<char>)>,
) -> Seq<char> {
    match assoc_get(vars, name) {
        Option::Some(v) => val_str(v),
        Option::None => match assoc_get(env, name) {
            Option::Some(ev) => ev,
            Option::None => "${"@ + name + "}"@,
        },
    }
}

/// Single-pass interpolation of the text from position `i`: a `${` followed
/// by a nonempty run of non-`}` characters and a `}` is one reference;
/// replacement text is not rescanned.
pub open spec fn interp_from(
    s: Seq<char>,
    i: int,
    vars: Seq<(Seq<char>, ValueModel)>,
    env: Seq<(Seq<char>, Seq<char>)>,
) -> Seq<char>
    decreases s.len() - i,
{
    if !(0 <= i < s.len()) {
        Seq::empty()
    } else if s[i] == '$' && i + 1 < s.len() && s[i + 1] == '{' {
        let e = close_pos(s, i + 2);
        if e < s.len() && e > i + 2 {
            resolve_ref(s.subrange(i + 2, e), vars, env) + interp_from(s, e + 1, vars, env)
        } else {
            seq![s[i]] + interp_from(s, i + 1, vars, env)
        }
    } else {
        seq![s[i]] + interp_from(s, i + 1, vars, env)
    }
}

/// The interpolation of a whole text.
pub open spec fn interp_spec(
    s: Seq<char>,
    vars: Seq<(Seq<char>, ValueModel)>,
    env: Seq<(Seq<char>, Seq<char>)>,
) -> Seq<char> {
    interp_from(s, 0, vars, env)
}

/// Interpolate `${name}` references in a text against the context: session
/// variables first (rendered as text), then the context's environment table,
/// unknown references left verbatim, in a single pass. Interpolation cannot
/// fail; the `Result` shape is kept for its callers.
pub fn interpolate_variables(value: &str, ctx: &Context) -> (r: Result<String, String>)
    ensures
        r matches Result::Ok(s) && s@ == interp_spec(value@, ctx@.variables, ctx@.environment),
{
    let cs = chars_of(value);
    let n = cs.len();
    let mut out = String::new();
    let mut i: usize = 0;
    while i < n
        invariant
            i <= n,
            n == cs@.len(),
            cs@ == value@,
            interp_spec(value@, ctx@.variables, ctx@.environment) == out@ + interp_from(
                cs@,
                i as int,
                ctx@.variables,
                ctx@.environment,
            ),
        decreases n - i,
    {
        let c = cs[i];
        if c == '$' && i + 1 < n && cs[i + 1] == '{' {
            // Find the closing brace.
            let mut e: usize = i + 2;
            while e < n && cs[e] != '}'
                invariant
                    i + 2 <= e <= n,
                    n == cs@.len(),
                    forall|j: int| i + 2 <= j < e ==> cs@[j] != '}',
                decreases n - e,
            {
                e = e + 1;
            }
            proof {
                assert(close_pos(cs@, i + 2) == e as int) by {
                    lemma_close_pos(cs@, i + 2);
                    let fm = close_pos(cs@, i + 2);
                    if fm < e as int {
                        assert(cs@[fm] == '}');
                    }
                    if fm > e as int && (e as int) < cs@.len() {
                        assert(cs@[e as int] != '}');
                    }
                }
            }
            if e < n && e > i + 2 {
                let mut name_chars: Vec<char> = Vec::new();
                let mut k: usize = i + 2;
                while k < e
                    invariant
                        i + 2 <= k <= e <= n,
                        n == cs@.len(),
                        name_chars@ =~= cs@.subrange(i + 2, k as int),
                    decreases e - k,
                {
                    name_chars.push(cs[k]);
                    k = k + 1;
                }
                let name = string_from_chars(name_chars.as_slice());
                proof {
                    assert(name@ =~= cs@.subrange(i + 2, e as int));
                }
                let ghost pre_out = out@;
                match ctx.get_variable(name.as_str()) {
                    Some(v) => {
                        let rendered = v.to_string();
                        out.append(rendered.as_str());
                    },
                    None => match assoc_lookup(&ctx.environment, name.as_str()) {
                        Some(ev) => {
                            out.append(ev.as_str());
                        },
                        None => {
                            out.append("${");
                            out.append(name.as_str());
                            out.append("}");
                            proof {
                                assert(out@ =~= pre_out + ("${"@ + name@ + "}"@));
                            }
                        },
                    },
                }
                proof {
                    assert(out@ =~= pre_out + resolve_ref(
                        name@,
                        ctx@.variables,
                        ctx@.environment,
                    ));
                }
                i = e + 1;
            } else {
                push_char(&mut out, c);
                i = i + 1;
            }
        } else {
            push_char(&mut out, c);
            i = i + 1;
        }
    }
    proof {
        assert(out@ + interp_from(cs@, n as int, ctx@.variables, ctx@.environment) =~= out@);
    }
    Ok(out)
}

} // verus!
