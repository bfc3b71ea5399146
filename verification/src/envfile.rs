//! Parsing of environment-file text: `key=value` lines with surrounding
//! whitespace trimmed, blank lines and `#` comment lines skipped, a later
//! binding of a key replacing an earlier one. Reading the file itself is the
//! embedding application's affair.

use vstd::prelude::*;
use vstd::string::*;

use crate::context::assoc_set;
use crate::dockercfg::pair_views;
use crate::parser::split_lines;
use crate::plan::eq_pos;
use crate::strutil::{string_from_chars, trim_chars, trim_spec};
use crate::versioning::assoc_store;

verus! {

/// The binding one line yields: `None` for blank lines, comment lines, lines
/// without `=`, and lines whose key trims to nothing.
pub open spec fn env_line_binding(line: Seq<char>) -> Option<(Seq<char>, Seq<char>)> {
    let t = trim_spec(line);
    if t.len() == 0 || t[0] == '#' {
        Option::None
    } else {
        let e = eq_pos(t, 0);
        if e < t.len() {
            let key = trim_spec(t.subrange(0, e));
            let value = trim_spec(t.subrange(e + 1, t.len() as int));
            if key.len() == 0 {
                Option::None
            } else {
                Option::Some((key, value))
            }
        } else {
            Option::None
        }
    }
}

/// The bindings a sequence of lines yields, later keys replacing earlier
/// ones.
pub open spec fn env_lines_fold(lines: Seq<Seq<char>>) -> Seq<(Seq<char>, Seq<char>)>
    decreases lines,
{
    if lines.len() == 0 {
        Seq::empty()
    } else {
        let p = env_lines_fold(lines.drop_last());
        match env_line_binding(lines.last()) {
            Option::Some(kv) => assoc_set(p, kv.0, kv.1),
            Option::None => p,
        }
    }
}

/// The bindings a whole environment-file text yields.
pub open spec fn env_text_spec(s: Seq<char>) -> Seq<(Seq<char>, Seq<char>)> {
    env_lines_fold(split_lines(s))
}

/// Parse environment-file text into its bindings: `key=value` per line with
/// both sides trimmed, blank and `#` comment lines skipped, empty keys
/// skipped, a later binding of a key replacing an earlier one.
pub fn parse_env_text(contents: &str) -> (r: Vec<(String, String)>)
    ensures
        pair_views(r@) == env_text_spec(contents@),
{
    let all = crate::strutil::chars_of(contents);
    let n = all.len();
    // Split into lines.
    let mut done: Vec<Vec<char>> = Vec::new();
    let mut cur: Vec<char> = Vec::new();
    let mut i: usize = 0;
    proof {
        assert(all@.take(0) =~= Seq::<char>::empty());
        assert(crate::parser::line_views(done@) =~= Seq::<Seq<char>>::empty());
        assert(split_lines(all@.take(0)) =~= crate::parser::line_views(done@).push(cur@));
    }
    while i < n
        invariant
            i <= n,
            n == all@.len(),
            all@ == contents@,
            split_lines(all@.take(i as int)) == crate::parser::line_views(done@).push(cur@),
        decreases n - i,
    {
        let c = all[i];
        let ghost pre = all@.take(i as int);
        proof {
            assert(all@.take(i + 1).drop_last() =~= pre);
            assert(all@.take(i + 1).last() == c);
        }
        if c == '\n' {
            let ghost old_done = done@;
            let ghost old_cur = cur@;
            done.push(cur);
            cur = Vec::new();
            proof {
                assert(done@.drop_last() =~= old_done);
                assert(crate::parser::line_views(done@) == crate::parser::line_views(
                    done@.drop_last(),
                ).push(done@.last()@));
                assert(done@.last()@ == old_cur);
                assert(cur@ =~= Seq::<char>::empty());
                assert(split_lines(all@.take(i + 1)) =~= crate::parser::line_views(done@).push(
                    cur@,
                ));
            }
        } else {
            let ghost old_cur = cur@;
            cur.push(c);
            proof {
                let prev = split_lines(pre);
                assert(prev == crate::parser::line_views(done@).push(old_cur));
                assert(prev.last() == old_cur);
                assert(split_lines(all@.take(i + 1)) == prev.update(
                    prev.len() - 1,
                    prev.last().push(c),
                ));
                assert(prev.update(prev.len() - 1, prev.last().push(c))
                    =~= crate::parser::line_views(done@).push(cur@));
            }
        }
        i = i + 1;
    }
    proof {
        assert(all@.take(n as int) =~= all@);
    }
    let ghost old_done = done@;
    let ghost cur_v = cur@;
    done.push(cur);
    let ghost lines = crate::parser::line_views(done@);
    proof {
        assert(done@.drop_last() =~= old_done);
        assert(crate::parser::line_views(done@) == crate::parser::line_views(
            done@.drop_last(),
        ).push(done@.last()@));
        assert(done@.last()@ == cur_v);
        assert(lines == crate::parser::line_views(old_done).push(cur_v));
        assert(lines == split_lines(contents@));
        crate::parser::lemma_line_views(done@);
    }
    // Fold the lines into bindings.
    let mut out: Vec<(String, String)> = Vec::new();
    let m = done.len();
    let mut k: usize = 0;
    proof {
        assert(pair_views(out@) =~= Seq::<(Seq<char>, Seq<char>)>::empty());
        assert(lines.take(0) =~= Seq::<Seq<char>>::empty());
        assert(env_lines_fold(lines.take(0)) =~= pair_views(out@));
    }
    while k < m
        invariant
            k <= m,
            m == done@.len(),
            lines == crate::parser::line_views(done@),
            lines.len() == m,
            forall|j: int| 0 <= j < m ==> lines[j] == done@[j]@,
            pair_views(out@) == env_lines_fold(lines.take(k as int)),
        decreases m - k,
    {
        proof {
            assert(lines.take(k + 1).drop_last() =~= lines.take(k as int));
            assert(lines.take(k + 1).last() == lines[k as int]);
        }
        let t = trim_chars(&done[k]);
        if t.len() == 0 || t[0] == '#' {
        } else {
            let tn = t.len();
            let mut e: usize = 0;
            while e < tn && t[e] != '='
                invariant
                    e <= tn,
                    tn == t@.len(),
                    forall|j: int| 0 <= j < e ==> t@[j] != '=',
                decreases tn - e,
            {
                e = e + 1;
            }
            proof {
                assert(eq_pos(t@, 0) == e as int) by {
                    crate::plan::lemma_eq_pos(t@, 0);
                    let fm = eq_pos(t@, 0);
                    if fm < e as int {
                        assert(t@[fm] == '=');
                    }
                    if fm > e as int && (e as int) < t@.len() {
                        assert(t@[e as int] != '=');
                    }
                }
            }
            if e < tn {
                let mut head: Vec<char> = Vec::new();
                let mut p: usize = 0;
                while p < e
                    invariant
                        p <= e <= tn,
                        tn == t@.len(),
                        head@ =~= t@.subrange(0, p as int),
                    decreases e - p,
                {
                    head.push(t[p]);
                    p = p + 1;
                }
                let mut tail: Vec<char> = Vec::new();
                let mut q: usize = e + 1;
                while q < tn
                    invariant
                        e + 1 <= q <= tn,
                        tn == t@.len(),
                        tail@ =~= t@.subrange(e + 1, q as int),
                    decreases tn - q,
                {
                    tail.push(t[q]);
                    q = q + 1;
                }
                proof {
                    assert(head@ =~= t@.subrange(0, e as int));
                    assert(tail@ =~= t@.subrange(e + 1, t@.len() as int));
                }
                let key = trim_chars(&head);
                let value = trim_chars(&tail);
                if key.len() > 0 {
                    assoc_store(
                        &mut out,
                        string_from_chars(key.as_slice()),
                        string_from_chars(value.as_slice()),
                    );
                }
            }
        }
        k = k + 1;
    }
    proof {
        assert(lines.take(m as int) =~= lines);
    }
    out
}

} // verus!
