//! The version-tracking rule: each versioned element carries a checksum; a
//! changed checksum advances the element's version number. The records are
//! kept as `NAME_VERSION` and `NAME_CHECKSUM` bindings, with an older
//! `NAME=version.checksum` form still read.

use vstd::prelude::*;
use vstd::string::*;

use crate::context::{assoc_get, assoc_set, version_views, VersionInfo, VersionInfoModel};
use crate::dockercfg::{lemma_pair_views, pair_views};
use crate::parser::{digits_end, digits_val, is_digit, lemma_digits_end, lemma_digits_val_nonneg};
use crate::strutil::{nat_str, u64_to_string};

verus! {

/// The decimal value of a string, when it is all digits, nonempty, and fits;
/// the fallback otherwise.
pub open spec fn parse_u32_or(s: Seq<char>, dflt: u32) -> u32 {
    if s.len() > 0 && digits_end(s, 0) == s.len() && digits_val(s, 0, s.len() as int)
        <= u32::MAX {
        digits_val(s, 0, s.len() as int) as u32
    } else {
        dflt
    }
}

fn parse_u32_exec(s: &str, dflt: u32) -> (r: u32)
    ensures
        r == parse_u32_or(s@, dflt),
{
    let cs = crate::strutil::chars_of(s);
    let n = cs.len();
    if n == 0 {
        return dflt;
    }
    let mut i: usize = 0;
    let mut acc: u64 = 0;
    let mut over: bool = false;
    let cap: u64 = 0xffffffff;
    proof {
        lemma_digits_end(cs@, 0);
    }
    while i < n
        invariant
            i <= n,
            n == cs@.len(),
            cs@ == s@,
            cap == u32::MAX,
            forall|j: int| 0 <= j < i ==> is_digit(cs@[j]),
            !over ==> acc as int == digits_val(cs@, 0, i as int) && acc <= cap,
            over ==> digits_val(cs@, 0, i as int) > cap,
        decreases n - i,
    {
        let c = cs[i];
        let u = c as u32;
        if !(48 <= u && u <= 57) {
            proof {
                lemma_digits_end(cs@, 0);
                if digits_end(cs@, 0) == cs@.len() {
                    assert(is_digit(cs@[i as int]));
                }
            }
            return dflt;
        }
        proof {
            lemma_digits_val_nonneg(cs@, 0, i as int);
        }
        if !over {
            let next = acc * 10 + ((u - 48) as u64);
            assert(next as int == digits_val(cs@, 0, i + 1));
            if next > cap {
                over = true;
            } else {
                acc = next;
            }
        } else {
            assert(digits_val(cs@, 0, i + 1) == digits_val(cs@, 0, i as int) * 10 + (
            cs@[i as int] as u32 - 48));
        }
        i = i + 1;
    }
    proof {
        assert(digits_end(cs@, 0) == cs@.len()) by {
            lemma_digits_end(cs@, 0);
            if digits_end(cs@, 0) < cs@.len() {
                assert(!is_digit(cs@[digits_end(cs@, 0)]));
            }
        }
    }
    if over {
        dflt
    } else {
        acc as u32
    }
}

/// The first position of `.` in a string, or its length.
pub open spec fn dot_pos(s: Seq<char>, i: int) -> int
    decreases s.len() - i,
{
    if 0 <= i < s.len() && s[i] != '.' {
        dot_pos(s, i + 1)
    } else {
        i
    }
}

proof fn lemma_dot_pos(s: Seq<char>, i: int)
    requires
        0 <= i <= s.len(),
    ensures
        i <= dot_pos(s, i) <= s.len(),
        dot_pos(s, i) < s.len() ==> s[dot_pos(s, i)] == '.',
        forall|j: int| i <= j < dot_pos(s, i) ==> s[j] != '.',
    decreases s.len() - i,
{
    if i < s.len() && s[i] != '.' {
        lemma_dot_pos(s, i + 1);
    }
}

/// The stored version number of an element: the `NAME_VERSION` binding, else
/// the part before the dot of an old-form `NAME` binding, else one.
pub open spec fn stored_version(existing: Seq<(Seq<char>, Seq<char>)>, v_name: Seq<char>) -> u32 {
    match assoc_get(existing, v_name + "_VERSION"@) {
        Option::Some(vs) => parse_u32_or(vs, 1),
        Option::None => match assoc_get(existing, v_name) {
            Option::Some(entry) => {
                let d = dot_pos(entry, 0);
                if d < entry.len() {
                    parse_u32_or(entry.subrange(0, d), 1)
                } else {
                    1
                }
            },
            Option::None => 1,
        },
    }
}

/// The stored checksum of an element: the `NAME_CHECKSUM` binding, else the
/// part after the dot of an old-form `NAME` binding, else empty.
pub open spec fn stored_checksum(existing: Seq<(Seq<char>, Seq<char>)>, v_name: Seq<char>) -> Seq<
    char,
> {
    match assoc_get(existing, v_name + "_CHECKSUM"@) {
        Option::Some(cs) => cs,
        Option::None => match assoc_get(existing, v_name) {
            Option::Some(entry) => {
                let d = dot_pos(entry, 0);
                if d < entry.len() {
                    entry.subrange(d + 1, entry.len() as int)
                } else {
                    Seq::empty()
                }
            },
            Option::None => Seq::empty(),
        },
    }
}

/// The version an element advances to: unchanged when the checksum matches;
/// one for a new element; the successor otherwise.
pub open spec fn next_version(
    existing: Seq<(Seq<char>, Seq<char>)>,
    v_name: Seq<char>,
    current: Seq<char>,
) -> u32 {
    let stored = stored_checksum(existing, v_name);
    if stored == current {
        stored_version(existing, v_name)
    } else if stored.len() == 0 {
        1u32
    } else {
        vstd::wrapping::u32_specs::wrapping_add(stored_version(existing, v_name), 1u32)
    }
}

/// The updated records and change count over a sequence of versioned
/// elements, in order.
pub open spec fn version_updates_spec(
    existing: Seq<(Seq<char>, Seq<char>)>,
    versions: Seq<(Seq<char>, VersionInfoModel)>,
) -> (Seq<(Seq<char>, Seq<char>)>, int)
    decreases versions,
{
    if versions.len() == 0 {
        (Seq::empty(), 0)
    } else {
        let (acc, changes) = version_updates_spec(existing, versions.drop_last());
        let v_name = versions.last().0;
        let current = versions.last().1.checksum;
        let acc2 = assoc_set(
            assoc_set(acc, v_name + "_VERSION"@, nat_str(next_version(existing, v_name, current) as nat)),
            v_name + "_CHECKSUM"@,
            current,
        );
        (
            acc2,
            changes + if stored_checksum(existing, v_name) == current {
                0int
            } else {
                1int
            },
        )
    }
}

fn suffixed(name: &str, suffix: &'static str) -> (r: String)
    ensures
        r@ == name@ + suffix@,
{
    let mut r = String::from_str(name);
    r.append(suffix);
    r
}

pub(crate) fn assoc_lookup<'a>(pairs: &'a Vec<(String, String)>, key: &str) -> (r: Option<&'a String>)
    ensures
        match r {
            Option::Some(v) => assoc_get(pair_views(pairs@), key@) == Option::Some(v@),
            Option::None => assoc_get(pair_views(pairs@), key@) is None,
        },
{
    let ghost views = pair_views(pairs@);
    proof {
        lemma_pair_views(pairs@);
        crate::context::lemma_assoc_find(views, key@);
    }
    let n = pairs.len();
    let mut i: usize = 0;
    while i < n
        invariant
            i <= n,
            n == pairs@.len(),
            views == pair_views(pairs@),
            views.len() == n,
            forall|j: int| 0 <= j < n ==> views[j] == (pairs@[j].0@, pairs@[j].1@),
            forall|j: int| 0 <= j < i ==> views[j].0 != key@,
        decreases n - i,
    {
        if crate::strutil::str_eq(pairs[i].0.as_str(), key) {
            proof {
                assert(views[i as int].0 == key@);
                assert(crate::context::assoc_find(views, key@) == i as int) by {
                    crate::context::lemma_assoc_find(views, key@);
                    let fm = crate::context::assoc_find(views, key@);
                    if fm < i as int {
                        assert(views[fm].0 == key@);
                    }
                    if fm > i as int {
                        assert(views[i as int].0 != key@);
                    }
                }
            }
            return Some(&pairs[i].1);
        }
        i = i + 1;
    }
    proof {
        crate::context::lemma_assoc_find(views, key@);
        if crate::context::assoc_find(views, key@) < n {
            assert(views[crate::context::assoc_find(views, key@)].0 == key@);
        }
    }
    None
}

pub(crate) fn assoc_store(pairs: &mut Vec<(String, String)>, key: String, value: String)
    ensures
        pair_views(final(pairs)@) == assoc_set(pair_views(old(pairs)@), key@, value@),
{
    let ghost orig = pair_views(pairs@);
    let ghost key_v = key@;
    let ghost value_v = value@;
    proof {
        lemma_pair_views(pairs@);
    }
    let n = pairs.len();
    let mut i: usize = 0;
    while i < n
        invariant
            i <= n,
            n == pairs@.len(),
            orig == pair_views(pairs@),
            orig == pair_views(old(pairs)@),
            orig.len() == n,
            key_v == key@,
            value_v == value@,
            forall|j: int| 0 <= j < n ==> orig[j] == (pairs@[j].0@, pairs@[j].1@),
            forall|j: int| 0 <= j < i ==> orig[j].0 != key_v,
        decreases n - i,
    {
        if crate::strutil::str_eq(pairs[i].0.as_str(), key.as_str()) {
            proof {
                assert(orig[i as int].0 == key_v);
                assert(crate::context::assoc_find(orig, key_v) == i as int) by {
                    crate::context::lemma_assoc_find(orig, key_v);
                    let fm = crate::context::assoc_find(orig, key_v);
                    if fm < i as int {
                        assert(orig[fm].0 == key_v);
                    }
                    if fm > i as int {
                        assert(orig[i as int].0 != key_v);
                    }
                }
            }
            let ghost pre = pairs@;
            pairs.remove(i);
            pairs.insert(i, (key, value));
            proof {
                assert(pairs@ =~= pre.update(i as int, (pairs@[i as int].0, pairs@[i as int].1)));
                lemma_pair_views(pairs@);
                assert(pair_views(pairs@) =~= orig.update(i as int, (key_v, value_v)));
            }
            return ;
        }
        i = i + 1;
    }
    proof {
        assert(crate::context::assoc_find(orig, key_v) == n as int) by {
            crate::context::lemma_assoc_find(orig, key_v);
            let fm = crate::context::assoc_find(orig, key_v);
            if fm < n as int {
                assert(orig[fm].0 == key_v);
            }
        }
    }
    let ghost pre = pairs@;
    pairs.push((key, value));
    proof {
        assert(pairs@.drop_last() =~= pre);
        assert(pair_views(pairs@) == pair_views(pairs@.drop_last()).push(
            (pairs@.last().0@, pairs@.last().1@),
        ));
        assert(pair_views(pairs@) =~= orig.push((key_v, value_v)));
    }
}

/// The stored version and checksum of one element, from the existing records.
fn read_stored(existing: &Vec<(String, String)>, v_name: &str) -> (r: (u32, String))
    ensures
        r.0 == stored_version(pair_views(existing@), v_name@),
        r.1@ == stored_checksum(pair_views(existing@), v_name@),
{
    let version_key = suffixed(v_name, "_VERSION");
    let checksum_key = suffixed(v_name, "_CHECKSUM");
    let version = match assoc_lookup(existing, version_key.as_str()) {
        Some(vs) => parse_u32_exec(vs.as_str(), 1),
        None => match assoc_lookup(existing, v_name) {
            Some(entry) => {
                let cs = crate::strutil::chars_of(entry.as_str());
                let n = cs.len();
                let mut d: usize = 0;
                while d < n && cs[d] != '.'
                    invariant
                        d <= n,
                        n == cs@.len(),
                        cs@ == entry@,
                        forall|j: int| 0 <= j < d ==> cs@[j] != '.',
                    decreases n - d,
                {
                    d = d + 1;
                }
                proof {
                    assert(dot_pos(entry@, 0) == d as int) by {
                        lemma_dot_pos(entry@, 0);
                        let fm = dot_pos(entry@, 0);
                        if fm < d as int {
                            assert(entry@[fm] == '.');
                        }
                        if fm > d as int && (d as int) < entry@.len() {
                            assert(entry@[d as int] != '.');
                        }
                    }
                }
                if d < n {
                    let mut head: Vec<char> = Vec::new();
                    let mut k: usize = 0;
                    while k < d
                        invariant
                            k <= d <= n,
                            n == cs@.len(),
                            head@ =~= cs@.subrange(0, k as int),
                        decreases d - k,
                    {
                        head.push(cs[k]);
                        k = k + 1;
                    }
                    let head_str = crate::strutil::string_from_chars(head.as_slice());
                    proof {
                        assert(head_str@ =~= entry@.subrange(0, d as int));
                    }
                    parse_u32_exec(head_str.as_str(), 1)
                } else {
                    1
                }
            },
            None => 1,
        },
    };
    let checksum = match assoc_lookup(existing, checksum_key.as_str()) {
        Some(cs) => cs.clone(),
        None => match assoc_lookup(existing, v_name) {
            Some(entry) => {
                let cs = crate::strutil::chars_of(entry.as_str());
                let n = cs.len();
                let mut d: usize = 0;
                while d < n && cs[d] != '.'
                    invariant
                        d <= n,
                        n == cs@.len(),
                        cs@ == entry@,
                        forall|j: int| 0 <= j < d ==> cs@[j] != '.',
                    decreases n - d,
                {
                    d = d + 1;
                }
                proof {
                    assert(dot_pos(entry@, 0) == d as int) by {
                        lemma_dot_pos(entry@, 0);
                        let fm = dot_pos(entry@, 0);
                        if fm < d as int {
                            assert(entry@[fm] == '.');
                        }
                        if fm > d as int && (d as int) < entry@.len() {
                            assert(entry@[d as int] != '.');
                        }
                    }
                }
                if d < n {
                    let mut tail: Vec<char> = Vec::new();
                    let mut k: usize = d + 1;
                    while k < n
                        invariant
                            d + 1 <= k <= n,
                            n == cs@.len(),
                            cs@ == entry@,
                            tail@ =~= cs@.subrange(d + 1, k as int),
                        decreases n - k,
                    {
                        tail.push(cs[k]);
                        k = k + 1;
                    }
                    let tail_str = crate::strutil::string_from_chars(tail.as_slice());
                    proof {
                        assert(tail_str@ =~= entry@.subrange(d + 1, entry@.len() as int));
                    }
                    tail_str
                } else {
                    String::new()
                }
            },
            None => String::new(),
        },
    };
    (version, checksum)
}

/// Compute the updated version records over the existing records and the
/// session's versioned elements, with the number of elements whose checksum
/// changed. Each element yields a `NAME_VERSION` and a `NAME_CHECKSUM`
/// binding; an unchanged checksum keeps the stored version, a new element
/// starts at one, and a changed checksum advances the version.
pub fn compute_version_updates(
    existing: &Vec<(String, String)>,
    versions: &Vec<(String, VersionInfo)>,
) -> (r: (Vec<(String, String)>, usize))
    ensures
        ({
            let (updated, changes) = version_updates_spec(
                pair_views(existing@),
                version_views(versions@),
            );
            pair_views(r.0@) == updated && r.1 as int == changes && changes <= versions@.len()
        }),
{
    let ghost ex = pair_views(existing@);
    let ghost vers = version_views(versions@);
    proof {
        crate::context::lemma_version_views(versions@);
    }
    let mut updated: Vec<(String, String)> = Vec::new();
    let mut changes: usize = 0;
    let mut i: usize = 0;
    proof {
        assert(pair_views(updated@) =~= Seq::<(Seq<char>, Seq<char>)>::empty());
        assert(version_updates_spec(ex, vers.take(0)) == (
            Seq::<(Seq<char>, Seq<char>)>::empty(),
            0int,
        ));
    }
    while i < versions.len()
        invariant
            i <= versions@.len(),
            ex == pair_views(existing@),
            vers == version_views(versions@),
            vers.len() == versions@.len(),
            forall|j: int| 0 <= j < versions@.len() ==> vers[j] == (versions@[j].0@, versions@[j].1@),
            version_updates_spec(ex, vers.take(i as int)) == (pair_views(updated@), changes as int),
            changes <= i,
        decreases versions@.len() - i,
    {
        let v_name = &versions[i].0;
        let current = &versions[i].1.checksum;
        let (version, stored) = read_stored(existing, v_name.as_str());
        let changed = !crate::strutil::str_eq(stored.as_str(), current.as_str());
        let new_version: u32 = if !changed {
            version
        } else if stored.as_str().is_empty() {
            1
        } else {
            version.wrapping_add(1)
        };
        let version_key = suffixed(v_name.as_str(), "_VERSION");
        let checksum_key = suffixed(v_name.as_str(), "_CHECKSUM");
        assoc_store(&mut updated, version_key, u64_to_string(new_version as u64));
        assoc_store(&mut updated, checksum_key, current.clone());
        if changed {
            changes = changes + 1;
        }
        proof {
            assert(vers.take(i + 1).drop_last() =~= vers.take(i as int));
            assert(vers.take(i + 1).last() == vers[i as int]);
            assert(new_version == next_version(ex, v_name@, current@));
            assert(nat_str(new_version as nat) == nat_str(
                next_version(ex, v_name@, current@) as nat,
            ));
        }
        i = i + 1;
    }
    proof {
        assert(vers.take(versions@.len() as int) =~= vers);
    }
    (updated, changes)
}

} // verus!
