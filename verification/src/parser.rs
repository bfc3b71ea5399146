//! The expression parser. A single datum is parsed by a recursive-descent
//! parser over characters; whole inputs go through a scanner that tracks
//! paren depth, string-literal boundaries and backslash escapes, cutting the
//! input into candidate expressions (see `parse_string`). Inline comments are
//! the normalized entry point's affair (`parse_string_normalized`): the raw
//! parser does not recognize them.
//!
//! Grammar of one datum: `(` elements `)` (or `[` ... `]`), with an optional
//! dotted tail that is flattened into the element list; string literals in
//! double quotes with the escape set `\" \\ \a \b \t \n \v \f \r \0`;
//! integers in decimal with an optional sign and an optionally present
//! fraction part, which is discarded (a documented lossy truncation toward
//! zero); the literals `#t`, `#f` and `#nil`; quotation shorthands `'` `` ` ``
//! `,` `,@`; everything else is a symbol.

use vstd::prelude::*;
use vstd::string::*;

use crate::ast::{ast_views, lemma_ast_views, Ast, AstModel};
use crate::strutil::{chars_of, is_ws, is_ws_char, push_char, string_from_chars, trim_back, trim_chars, trim_front, trim_spec};

verus! {

/// Characters that end a number and may follow a dotted-tail marker.
pub open spec fn is_delim(c: char) -> bool {
    is_ws(c) || c == '(' || c == ')' || c == '[' || c == ']' || c == '"'
}

fn is_delim_char(c: char) -> (r: bool)
    ensures
        r == is_delim(c),
{
    is_ws_char(c) || c == '(' || c == ')' || c == '[' || c == ']' || c == '"'
}

/// Characters that may stand inside a symbol.
pub open spec fn is_symbol_char(c: char) -> bool {
    !is_ws(c) && c != '(' && c != ')' && c != '[' && c != ']' && c != '"' && c != ';' && c != '\''
        && c != '`' && c != ',' && c != '|'
}

fn is_symbol_char_exec(c: char) -> (r: bool)
    ensures
        r == is_symbol_char(c),
{
    !is_ws_char(c) && c != '(' && c != ')' && c != '[' && c != ']' && c != '"' && c != ';'
        && c != '\'' && c != '`' && c != ',' && c != '|'
}

/// Decimal digit test.
pub open spec fn is_digit(c: char) -> bool {
    48 <= c as u32 <= 57
}

fn is_digit_char(c: char) -> (r: bool)
    ensures
        r == is_digit(c),
{
    let u = c as u32;
    48 <= u && u <= 57
}

/// The first position at or after `i` holding a non-whitespace character.
pub open spec fn skip_ws_spec(s: Seq<char>, i: int) -> int
    decreases s.len() - i,
{
    if 0 <= i < s.len() && is_ws(s[i]) {
        skip_ws_spec(s, i + 1)
    } else {
        i
    }
}

/// `skip_ws_spec` moves forward, stays in bounds, and lands on non-whitespace.
pub proof fn lemma_skip_ws(s: Seq<char>, i: int)
    requires
        0 <= i <= s.len(),
    ensures
        i <= skip_ws_spec(s, i) <= s.len(),
        skip_ws_spec(s, i) < s.len() ==> !is_ws(s[skip_ws_spec(s, i)]),
        forall|j: int| i <= j < skip_ws_spec(s, i) ==> is_ws(s[j]),
    decreases s.len() - i,
{
    if i < s.len() && is_ws(s[i]) {
        lemma_skip_ws(s, i + 1);
    }
}

fn skip_ws(s: &Vec<char>, i: usize) -> (j: usize)
    requires
        i <= s@.len(),
    ensures
        j as int == skip_ws_spec(s@, i as int),
        i <= j <= s@.len(),
    decreases s@.len() - i,
{
    if i < s.len() && is_ws_char(s[i]) {
        skip_ws(s, i + 1)
    } else {
        i
    }
}

/// The character an escape marker denotes, if the escape is supported.
pub open spec fn escape_char_spec(c: char) -> Option<char> {
    if c == '"' {
        Option::Some('"')
    } else if c == '\\' {
        Option::Some('\\')
    } else if c == 'n' {
        Option::Some('\n')
    } else if c == 't' {
        Option::Some('\t')
    } else if c == 'r' {
        Option::Some('\r')
    } else if c == 'a' {
        Option::Some('\u{7}')
    } else if c == 'b' {
        Option::Some('\u{8}')
    } else if c == 'v' {
        Option::Some('\u{b}')
    } else if c == 'f' {
        Option::Some('\u{c}')
    } else if c == '0' {
        Option::Some('\u{0}')
    } else {
        Option::None
    }
}

fn escape_char(c: char) -> (r: Option<char>)
    ensures
        r == escape_char_spec(c),
{
    match c {
        '"' => Some('"'),
        '\\' => Some('\\'),
        'n' => Some('\n'),
        't' => Some('\t'),
        'r' => Some('\r'),
        'a' => Some('\u{7}'),
        'b' => Some('\u{8}'),
        'v' => Some('\u{b}'),
        'f' => Some('\u{c}'),
        '0' => Some('\u{0}'),
        _ => None,
    }
}

/// The body of a string literal starting at `i` (just after the opening
/// quote): its decoded content and the position after the closing quote.
pub open spec fn strlit_spec(s: Seq<char>, i: int) -> Result<(Seq<char>, int), Seq<char>>
    decreases s.len() - i,
{
    if i < 0 || i >= s.len() {
        Result::Err("unterminated string literal"@)
    } else if s[i] == '"' {
        Result::Ok((Seq::empty(), i + 1))
    } else if s[i] == '\\' {
        if i + 1 >= s.len() {
            Result::Err("unterminated string literal"@)
        } else {
            match escape_char_spec(s[i + 1]) {
                Option::None => Result::Err("unsupported escape sequence"@),
                Option::Some(m) => match strlit_spec(s, i + 2) {
                    Result::Ok((content, end)) => Result::Ok((seq![m] + content, end)),
                    Result::Err(e) => Result::Err(e),
                },
            }
        }
    } else {
        match strlit_spec(s, i + 1) {
            Result::Ok((content, end)) => Result::Ok((seq![s[i]] + content, end)),
            Result::Err(e) => Result::Err(e),
        }
    }
}

/// On success the string literal ends strictly after where it began.
pub proof fn lemma_strlit_progress(s: Seq<char>, i: int)
    requires
        0 <= i,
    ensures
        strlit_spec(s, i) matches Result::Ok((content, end)) ==> i < end <= s.len(),
    decreases s.len() - i,
{
    if 0 <= i < s.len() {
        if s[i] == '\\' {
            if i + 1 < s.len() {
                lemma_strlit_progress(s, i + 2);
            }
        } else if s[i] != '"' {
            lemma_strlit_progress(s, i + 1);
        }
    }
}

fn parse_strlit(s: &Vec<char>, start: usize) -> (r: Result<(String, usize), String>)
    requires
        start <= s@.len(),
    ensures
        match r {
            Result::Ok((content, end)) => strlit_spec(s@, start as int) == Result::<
                (Seq<char>, int),
                Seq<char>,
            >::Ok((content@, end as int)) && start < end <= s@.len(),
            Result::Err(e) => strlit_spec(s@, start as int) matches Result::Err(msg) && e@ == msg,
        },
{
    let mut acc: Vec<char> = Vec::new();
    let mut i: usize = start;
    loop
        invariant
            start <= i <= s@.len(),
            strlit_spec(s@, start as int) == prepend_strlit(acc@, strlit_spec(s@, i as int)),
        decreases s@.len() - i,
    {
        if i >= s.len() {
            return Err(String::from_str("unterminated string literal"));
        }
        let c = s[i];
        if c == '"' {
            proof {
                assert(strlit_spec(s@, i as int) == Result::<(Seq<char>, int), Seq<char>>::Ok(
                    (Seq::empty(), i + 1),
                ));
                assert(acc@ + Seq::<char>::empty() =~= acc@);
                lemma_strlit_progress(s@, start as int);
            }
            return Ok((string_from_chars(acc.as_slice()), i + 1));
        }
        if c == '\\' {
            if i + 1 >= s.len() {
                return Err(String::from_str("unterminated string literal"));
            }
            match escape_char(s[i + 1]) {
                None => {
                    return Err(String::from_str("unsupported escape sequence"));
                },
                Some(m) => {
                    let ghost old_acc = acc@;
                    acc.push(m);
                    proof {
                        assert(acc@ == old_acc.push(m));
                        match strlit_spec(s@, i + 2) {
                            Result::Ok((content, end)) => {
                                assert(strlit_spec(s@, i as int) == Result::<
                                    (Seq<char>, int),
                                    Seq<char>,
                                >::Ok((seq![m] + content, end)));
                                assert(old_acc.push(m) + content =~= old_acc + (seq![m]
                                    + content));
                            },
                            Result::Err(e) => {
                                assert(strlit_spec(s@, i as int) == Result::<
                                    (Seq<char>, int),
                                    Seq<char>,
                                >::Err(e));
                            },
                        }
                    }
                    i = i + 2;
                },
            }
        } else {
            let ghost old_acc = acc@;
            acc.push(c);
            proof {
                assert(acc@ == old_acc.push(c));
                match strlit_spec(s@, i + 1) {
                    Result::Ok((content, end)) => {
                        assert(strlit_spec(s@, i as int) == Result::<
                            (Seq<char>, int),
                            Seq<char>,
                        >::Ok((seq![c] + content, end)));
                        assert(old_acc.push(c) + content =~= old_acc + (seq![c] + content));
                    },
                    Result::Err(e) => {
                        assert(strlit_spec(s@, i as int) == Result::<
                            (Seq<char>, int),
                            Seq<char>,
                        >::Err(e));
                    },
                }
            }
            i = i + 1;
        }
    }
}

/// Prefixes already-decoded content onto the outcome of the rest of a string
/// literal.
pub open spec fn prepend_strlit(p: Seq<char>, r: Result<(Seq<char>, int), Seq<char>>) -> Result<
    (Seq<char>, int),
    Seq<char>,
> {
    match r {
        Result::Ok((content, end)) => Result::Ok((p + content, end)),
        Result::Err(e) => Result::Err(e),
    }
}

/// The end of the run of decimal digits starting at `i`.
pub open spec fn digits_end(s: Seq<char>, i: int) -> int
    decreases s.len() - i,
{
    if 0 <= i < s.len() && is_digit(s[i]) {
        digits_end(s, i + 1)
    } else {
        i
    }
}

pub proof fn lemma_digits_end(s: Seq<char>, i: int)
    requires
        0 <= i <= s.len(),
    ensures
        i <= digits_end(s, i) <= s.len(),
        forall|j: int| i <= j < digits_end(s, i) ==> is_digit(s[j]),
        digits_end(s, i) < s.len() ==> !is_digit(s[digits_end(s, i)]),
    decreases s.len() - i,
{
    if i < s.len() && is_digit(s[i]) {
        lemma_digits_end(s, i + 1);
    }
}

fn digits_end_exec(s: &Vec<char>, i: usize) -> (j: usize)
    requires
        i <= s@.len(),
    ensures
        j as int == digits_end(s@, i as int),
        i <= j <= s@.len(),
    decreases s@.len() - i,
{
    if i < s.len() && is_digit_char(s[i]) {
        digits_end_exec(s, i + 1)
    } else {
        i
    }
}

/// The value of the digit run `s[i..j]`, read in decimal.
pub open spec fn digits_val(s: Seq<char>, i: int, j: int) -> int
    decreases j - i,
{
    if i >= j {
        0
    } else {
        digits_val(s, i, j - 1) * 10 + (s[j - 1] as u32 - 48)
    }
}

pub proof fn lemma_digits_val_nonneg(s: Seq<char>, i: int, j: int)
    requires
        0 <= i,
        j <= s.len(),
        forall|k: int| i <= k < j ==> is_digit(s[k]),
    ensures
        digits_val(s, i, j) >= 0,
    decreases j - i,
{
    if i < j {
        lemma_digits_val_nonneg(s, i, j - 1);
    }
}

/// The magnitude above which a decimal literal no longer fits in an `i64`.
pub open spec fn i64_mag_cap() -> int {
    0x8000000000000000
}

/// An integer literal: optional sign, digits, and an optional fraction part
/// whose digits are discarded (truncation toward zero). The literal must end
/// at a delimiter. Values outside the `i64` range are rejected.
pub open spec fn number_spec(s: Seq<char>, i: int) -> Result<(AstModel, int), Seq<char>> {
    let neg = 0 <= i < s.len() && s[i] == '-';
    let d0 = if 0 <= i < s.len() && (s[i] == '-' || s[i] == '+') {
        i + 1
    } else {
        i
    };
    let d1 = digits_end(s, d0);
    if d1 == d0 {
        Result::Err("malformed number literal"@)
    } else {
        let end = if d1 < s.len() && s[d1] == '.' {
            digits_end(s, d1 + 1)
        } else {
            d1
        };
        let mag = digits_val(s, d0, d1);
        let v = if neg {
            -mag
        } else {
            mag
        };
        if end < s.len() && !is_delim(s[end]) {
            Result::Err("malformed number literal"@)
        } else if v < -i64_mag_cap() || v > i64_mag_cap() - 1 {
            Result::Err("integer literal out of range"@)
        } else {
            Result::Ok((AstModel::Int(v), end))
        }
    }
}

fn parse_number(s: &Vec<char>, i: usize) -> (r: Result<(Ast, usize), String>)
    requires
        i < s@.len(),
        is_digit(s@[i as int]) || ((s@[i as int] == '-' || s@[i as int] == '+') && i + 1 < s@.len()
            && is_digit(s@[i + 1])),
    ensures
        match r {
            Result::Ok((a, j)) => number_spec(s@, i as int) == Result::<
                (AstModel, int),
                Seq<char>,
            >::Ok((a@, j as int)) && i < j <= s@.len(),
            Result::Err(e) => number_spec(s@, i as int) matches Result::Err(msg) && e@ == msg,
        },
{
    let n = s.len();
    let neg = s[i] == '-';
    let d0: usize = if s[i] == '-' || s[i] == '+' {
        i + 1
    } else {
        i
    };
    let d1 = digits_end_exec(s, d0);
    proof {
        lemma_digits_end(s@, d0 as int);
    }
    assert(d1 > d0);
    let end: usize = if d1 < s.len() && s[d1] == '.' {
        digits_end_exec(s, d1 + 1)
    } else {
        d1
    };
    proof {
        if (d1 as int) < s@.len() && s@[d1 as int] == '.' {
            lemma_digits_end(s@, d1 + 1);
        }
    }
    // Accumulate the magnitude; beyond the cap only the fact of overflow
    // matters, since further digits cannot shrink the value.
    let cap: u128 = 9223372036854775808;
    let mut acc: u128 = 0;
    let mut over: bool = false;
    let mut j: usize = d0;
    while j < d1
        invariant
            d0 <= j <= d1,
            d1 <= s@.len(),
            forall|k: int| d0 <= k < d1 ==> is_digit(s@[k]),
            cap == i64_mag_cap(),
            !over ==> acc as int == digits_val(s@, d0 as int, j as int) && acc <= cap,
            over ==> digits_val(s@, d0 as int, j as int) > cap,
        decreases d1 - j,
    {
        let d: u128 = (s[j] as u32 - 48) as u128;
        proof {
            lemma_digits_val_nonneg(s@, d0 as int, j as int);
        }
        if !over {
            let next = acc * 10 + d;
            assert(next as int == digits_val(s@, d0 as int, j + 1));
            if next > cap {
                over = true;
            } else {
                acc = next;
            }
        } else {
            assert(digits_val(s@, d0 as int, j + 1) == digits_val(s@, d0 as int, j as int) * 10 + (
            s@[j as int] as u32 - 48));
        }
        j = j + 1;
    }
    if end < s.len() && !is_delim_char(s[end]) {
        return Err(String::from_str("malformed number literal"));
    }
    let ghost mag = digits_val(s@, d0 as int, d1 as int);
    if over {
        return Err(String::from_str("integer literal out of range"));
    }
    if neg {
        let v: i64 = if acc == cap {
            i64::MIN
        } else {
            -(acc as i64)
        };
        assert(v as int == -mag);
        Ok((Ast::Int(v), end))
    } else {
        if acc == cap {
            return Err(String::from_str("integer literal out of range"));
        }
        let v: i64 = acc as i64;
        assert(v as int == mag);
        Ok((Ast::Int(v), end))
    }
}

/// The end of the run of symbol characters starting at `i`.
pub open spec fn symbol_end(s: Seq<char>, i: int) -> int
    decreases s.len() - i,
{
    if 0 <= i < s.len() && is_symbol_char(s[i]) {
        symbol_end(s, i + 1)
    } else {
        i
    }
}

pub proof fn lemma_symbol_end(s: Seq<char>, i: int)
    requires
        0 <= i <= s.len(),
    ensures
        i <= symbol_end(s, i) <= s.len(),
        forall|j: int| i <= j < symbol_end(s, i) ==> is_symbol_char(s[j]),
        symbol_end(s, i) < s.len() ==> !is_symbol_char(s[symbol_end(s, i)]),
    decreases s.len() - i,
{
    if i < s.len() && is_symbol_char(s[i]) {
        lemma_symbol_end(s, i + 1);
    }
}

fn symbol_end_exec(s: &Vec<char>, i: usize) -> (j: usize)
    requires
        i <= s@.len(),
    ensures
        j as int == symbol_end(s@, i as int),
        i <= j <= s@.len(),
    decreases s@.len() - i,
{
    if i < s.len() && is_symbol_char_exec(s[i]) {
        symbol_end_exec(s, i + 1)
    } else {
        i
    }
}

/// A position strictly past `at` and within `len` when possible, used to
/// state recursion measures without presupposing the progress facts proved
/// separately. Wherever the parser applies it, the position `j` already lies
/// in `(at, len]`, and the clamp is the identity.
pub open spec fn past(len: int, at: int, j: int) -> int {
    if j <= at {
        at + 1
    } else if j <= len {
        j
    } else if at + 1 <= len {
        len
    } else {
        at + 1
    }
}

/// One datum starting exactly at `i` (no leading whitespace): its model and
/// the position just after it.
pub open spec fn datum_spec(s: Seq<char>, i: int) -> Result<(AstModel, int), Seq<char>>
    decreases s.len() - i, 1int, 0int,
{
    if !(0 <= i < s.len()) {
        Result::Err("unexpected end of input"@)
    } else {
        let c = s[i];
        if c == '(' {
            match list_spec(s, i + 1, ')') {
                Result::Ok((items, end)) => Result::Ok(
                    (
                        if items.len() == 0 {
                            AstModel::Nil
                        } else {
                            AstModel::List(items)
                        },
                        end,
                    ),
                ),
                Result::Err(e) => Result::Err(e),
            }
        } else if c == '[' {
            match list_spec(s, i + 1, ']') {
                Result::Ok((items, end)) => Result::Ok(
                    (
                        if items.len() == 0 {
                            AstModel::Nil
                        } else {
                            AstModel::List(items)
                        },
                        end,
                    ),
                ),
                Result::Err(e) => Result::Err(e),
            }
        } else if c == ')' || c == ']' {
            Result::Err("unexpected closing delimiter"@)
        } else if c == '"' {
            match strlit_spec(s, i + 1) {
                Result::Ok((content, end)) => Result::Ok((AstModel::Str(content), end)),
                Result::Err(e) => Result::Err(e),
            }
        } else if c == '#' {
            if i + 1 >= s.len() {
                Result::Err("unexpected end of input"@)
            } else if s[i + 1] == 't' {
                Result::Ok((AstModel::Bool(true), i + 2))
            } else if s[i + 1] == 'f' {
                Result::Ok((AstModel::Bool(false), i + 2))
            } else if s[i + 1] == 'n' && i + 4 <= s.len() && s[i + 2] == 'i' && s[i + 3] == 'l' {
                Result::Ok((AstModel::Nil, i + 4))
            } else {
                Result::Err("unsupported hash syntax"@)
            }
        } else if c == '\'' {
            quotation_spec(s, i, i + 1, "quote"@)
        } else if c == '`' {
            quotation_spec(s, i, i + 1, "quasiquote"@)
        } else if c == ',' {
            if i + 1 < s.len() && s[i + 1] == '@' {
                quotation_spec(s, i, i + 2, "unquote-splicing"@)
            } else {
                quotation_spec(s, i, i + 1, "unquote"@)
            }
        } else if is_digit(c) || ((c == '-' || c == '+') && i + 1 < s.len() && is_digit(
            s[i + 1],
        )) {
            number_spec(s, i)
        } else if is_symbol_char(c) {
            Result::Ok((AstModel::Symbol(s.subrange(i, symbol_end(s, i))), symbol_end(s, i)))
        } else {
            Result::Err("unexpected character"@)
        }
    }
}

/// A quotation shorthand at `i` whose quoted datum starts after `after`:
/// it denotes a two-element form of the quotation symbol and the datum.
pub open spec fn quotation_spec(s: Seq<char>, i: int, after: int, name: Seq<char>) -> Result<
    (AstModel, int),
    Seq<char>,
>
    decreases s.len() - i, 0int, 1int,
{
    if !(0 <= i < s.len()) {
        Result::Err("unexpected end of input"@)
    } else {
        let j = past(s.len() as int, i, skip_ws_spec(s, after));
        match datum_spec(s, j) {
            Result::Ok((d, k)) => Result::Ok(
                (AstModel::List(seq![AstModel::Symbol(name), d]), k),
            ),
            Result::Err(e) => Result::Err(e),
        }
    }
}

/// The elements of a list form, starting at `i` (just after the opening
/// delimiter) and ending at the matching `close`. A dotted tail is flattened
/// into the element sequence.
pub open spec fn list_spec(s: Seq<char>, i: int, close: char) -> Result<
    (Seq<AstModel>, int),
    Seq<char>,
>
    decreases s.len() - i, 2int, 0int,
{
    let j = if skip_ws_spec(s, i) < i {
        i
    } else {
        skip_ws_spec(s, i)
    };
    if j >= s.len() {
        Result::Err("unterminated list"@)
    } else if s[j] == close {
        Result::Ok((Seq::empty(), j + 1))
    } else if s[j] == ')' || s[j] == ']' {
        Result::Err("mismatched closing delimiter"@)
    } else if s[j] == '.' && (j + 1 >= s.len() || is_delim(s[j + 1])) {
        Result::Err("unexpected dotted tail"@)
    } else {
        match datum_spec(s, j) {
            Result::Ok((a, k)) => list_rest_spec(s, past(s.len() as int, j, k), close, a),
            Result::Err(e) => Result::Err(e),
        }
    }
}

/// The elements of a list form after at least one element has been read.
pub open spec fn list_rest_spec(s: Seq<char>, i: int, close: char, first: AstModel) -> Result<
    (Seq<AstModel>, int),
    Seq<char>,
>
    decreases s.len() - i, 2int, 1int,
{
    let j = if skip_ws_spec(s, i) < i {
        i
    } else {
        skip_ws_spec(s, i)
    };
    if j >= s.len() {
        Result::Err("unterminated list"@)
    } else if s[j] == close {
        Result::Ok((seq![first], j + 1))
    } else if s[j] == ')' || s[j] == ']' {
        Result::Err("mismatched closing delimiter"@)
    } else if s[j] == '.' && (j + 1 >= s.len() || is_delim(s[j + 1])) {
        let m = past(s.len() as int, j, skip_ws_spec(s, j + 1));
        match datum_spec(s, m) {
            Result::Ok((d, p)) => {
                let q = skip_ws_spec(s, p);
                if q < s.len() && s[q] == close {
                    Result::Ok((seq![first, d], q + 1))
                } else {
                    Result::Err("expected closing delimiter after dotted tail"@)
                }
            },
            Result::Err(e) => Result::Err(e),
        }
    } else {
        match datum_spec(s, j) {
            Result::Ok((a, k)) => match list_rest_spec(s, past(s.len() as int, j, k), close, a) {
                Result::Ok((items, end)) => Result::Ok((seq![first] + items, end)),
                Result::Err(e) => Result::Err(e),
            },
            Result::Err(e) => Result::Err(e),
        }
    }
}

/// Parse one datum starting exactly at `i`.
fn parse_datum(s: &Vec<char>, i: usize) -> (r: Result<(Ast, usize), String>)
    requires
        i <= s@.len(),
    ensures
        match r {
            Result::Ok((a, j)) => datum_spec(s@, i as int) == Result::<
                (AstModel, int),
                Seq<char>,
            >::Ok((a@, j as int)) && i < j <= s@.len(),
            Result::Err(e) => datum_spec(s@, i as int) matches Result::Err(msg) && e@ == msg,
        },
    decreases s@.len() - i, 1int, 0int,
{
    if i >= s.len() {
        return Err(String::from_str("unexpected end of input"));
    }
    let c = s[i];
    if c == '(' || c == '[' {
        let close = if c == '(' {
            ')'
        } else {
            ']'
        };
        match parse_list(s, i + 1, close) {
            Ok((items, end)) => {
                if items.len() == 0 {
                    proof {
                        lemma_ast_views(items@);
                    }
                    Ok((Ast::Nil, end))
                } else {
                    proof {
                        lemma_ast_views(items@);
                    }
                    Ok((Ast::List(items), end))
                }
            },
            Err(e) => Err(e),
        }
    } else if c == ')' || c == ']' {
        Err(String::from_str("unexpected closing delimiter"))
    } else if c == '"' {
        match parse_strlit(s, i + 1) {
            Ok((content, end)) => Ok((Ast::Str(content), end)),
            Err(e) => Err(e),
        }
    } else if c == '#' {
        if i + 1 >= s.len() {
            Err(String::from_str("unexpected end of input"))
        } else if s[i + 1] == 't' {
            Ok((Ast::Bool(true), i + 2))
        } else if s[i + 1] == 'f' {
            Ok((Ast::Bool(false), i + 2))
        } else if s[i + 1] == 'n' && s.len() - i >= 4 && s[i + 2] == 'i' && s[i + 3] == 'l' {
            Ok((Ast::Nil, i + 4))
        } else {
            Err(String::from_str("unsupported hash syntax"))
        }
    } else if c == '\'' {
        parse_quotation(s, i, i + 1, "quote")
    } else if c == '`' {
        parse_quotation(s, i, i + 1, "quasiquote")
    } else if c == ',' {
        if i + 1 < s.len() && s[i + 1] == '@' {
            parse_quotation(s, i, i + 2, "unquote-splicing")
        } else {
            parse_quotation(s, i, i + 1, "unquote")
        }
    } else if is_digit_char(c) {
        parse_number(s, i)
    } else if (c == '-' || c == '+') && i + 1 < s.len() && is_digit_char(s[i + 1]) {
        parse_number(s, i)
    } else if is_symbol_char_exec(c) {
        let end = symbol_end_exec(s, i);
        proof {
            lemma_symbol_end(s@, i as int);
        }
        let mut text: Vec<char> = Vec::new();
        let mut k: usize = i;
        while k < end
            invariant
                i <= k <= end <= s@.len(),
                text@ =~= s@.subrange(i as int, k as int),
            decreases end - k,
        {
            text.push(s[k]);
            k = k + 1;
        }
        assert(text@ =~= s@.subrange(i as int, end as int));
        Ok((Ast::Symbol(string_from_chars(text.as_slice())), end))
    } else {
        Err(String::from_str("unexpected character"))
    }
}

/// Parse a quotation shorthand: the marker sits at `i`, the quoted datum
/// starts after `after`.
fn parse_quotation(s: &Vec<char>, i: usize, after: usize, name: &str) -> (r: Result<
    (Ast, usize),
    String,
>)
    requires
        i < s@.len(),
        i < after <= s@.len(),
    ensures
        match r {
            Result::Ok((a, j)) => quotation_spec(s@, i as int, after as int, name@) == Result::<
                (AstModel, int),
                Seq<char>,
            >::Ok((a@, j as int)) && i < j <= s@.len(),
            Result::Err(e) => quotation_spec(s@, i as int, after as int, name@) matches Result::Err(
                msg,
            ) && e@ == msg,
        },
    decreases s@.len() - i, 0int, 1int,
{
    let j = skip_ws(s, after);
    proof {
        assert(past(s@.len() as int, i as int, skip_ws_spec(s@, after as int)) == j as int);
    }
    match parse_datum(s, j) {
        Ok((d, k)) => {
            let mut parts: Vec<Ast> = Vec::new();
            parts.push(Ast::Symbol(String::from_str(name)));
            parts.push(d);
            proof {
                lemma_ast_views(parts@);
                assert(ast_views(parts@) =~= seq![AstModel::Symbol(name@), parts@[1]@]);
            }
            Ok((Ast::List(parts), k))
        },
        Err(e) => Err(e),
    }
}

/// Parse the elements of a list form, starting just after the opening
/// delimiter.
fn parse_list(s: &Vec<char>, i: usize, close: char) -> (r: Result<(Vec<Ast>, usize), String>)
    requires
        i <= s@.len(),
    ensures
        match r {
            Result::Ok((items, end)) => list_spec(s@, i as int, close) == Result::<
                (Seq<AstModel>, int),
                Seq<char>,
            >::Ok((ast_views(items@), end as int)) && i < end <= s@.len(),
            Result::Err(e) => list_spec(s@, i as int, close) matches Result::Err(msg) && e@ == msg,
        },
    decreases s@.len() - i, 2int, 0int,
{
    let j = skip_ws(s, i);
    if j >= s.len() {
        return Err(String::from_str("unterminated list"));
    }
    let cj = s[j];
    if cj == close {
        let items: Vec<Ast> = Vec::new();
        proof {
            lemma_ast_views(items@);
            assert(ast_views(items@) =~= Seq::<AstModel>::empty());
        }
        return Ok((items, j + 1));
    }
    if cj == ')' || cj == ']' {
        return Err(String::from_str("mismatched closing delimiter"));
    }
    if cj == '.' && (j + 1 >= s.len() || is_delim_char(s[j + 1])) {
        return Err(String::from_str("unexpected dotted tail"));
    }
    match parse_datum(s, j) {
        Ok((a, k)) => {
            proof {
                assert(past(s@.len() as int, j as int, k as int) == k as int);
            }
            parse_list_rest(s, k, close, a)
        },
        Err(e) => Err(e),
    }
}

/// Parse the remaining elements of a list form after at least one element.
fn parse_list_rest(s: &Vec<char>, i: usize, close: char, first: Ast) -> (r: Result<
    (Vec<Ast>, usize),
    String,
>)
    requires
        i <= s@.len(),
    ensures
        match r {
            Result::Ok((items, end)) => list_rest_spec(s@, i as int, close, first@) == Result::<
                (Seq<AstModel>, int),
                Seq<char>,
            >::Ok((ast_views(items@), end as int)) && i < end <= s@.len(),
            Result::Err(e) => list_rest_spec(s@, i as int, close, first@) matches Result::Err(msg)
                && e@ == msg,
        },
    decreases s@.len() - i, 2int, 1int,
{
    let j = skip_ws(s, i);
    if j >= s.len() {
        return Err(String::from_str("unterminated list"));
    }
    let cj = s[j];
    if cj == close {
        let mut items: Vec<Ast> = Vec::new();
        items.push(first);
        proof {
            lemma_ast_views(items@);
            assert(ast_views(items@) =~= seq![items@[0]@]);
        }
        return Ok((items, j + 1));
    }
    if cj == ')' || cj == ']' {
        return Err(String::from_str("mismatched closing delimiter"));
    }
    if cj == '.' && (j + 1 >= s.len() || is_delim_char(s[j + 1])) {
        let m = skip_ws(s, j + 1);
        proof {
            assert(past(s@.len() as int, j as int, skip_ws_spec(s@, j + 1)) == m as int);
        }
        match parse_datum(s, m) {
            Ok((d, p)) => {
                let q = skip_ws(s, p);
                if q < s.len() && s[q] == close {
                    let mut items: Vec<Ast> = Vec::new();
                    items.push(first);
                    items.push(d);
                    proof {
                        lemma_ast_views(items@);
                        assert(ast_views(items@) =~= seq![items@[0]@, items@[1]@]);
                    }
                    Ok((items, q + 1))
                } else {
                    Err(String::from_str("expected closing delimiter after dotted tail"))
                }
            },
            Err(e) => Err(e),
        }
    } else {
        match parse_datum(s, j) {
            Ok((a, k)) => {
                proof {
                    assert(past(s@.len() as int, j as int, k as int) == k as int);
                }
                match parse_list_rest(s, k, close, a) {
                    Ok((items_in, end)) => {
                        let mut items = items_in;
                        let ghost tail_items = items@;
                        let ghost tail_views = ast_views(items@);
                        let ghost first_v = first@;
                        items.insert(0, first);
                        proof {
                            lemma_ast_views(items@);
                            lemma_ast_views(tail_items);
                            assert(items@.len() == tail_items.len() + 1);
                            assert(items@[0]@ == first_v);
                            assert forall|k2: int| 1 <= k2 < items@.len() implies items@[k2]
                                == tail_items[k2 - 1] by {}
                            assert(ast_views(items@) =~= seq![first_v] + tail_views);
                        }
                        Ok((items, end))
                    },
                    Err(e) => Err(e),
                }
            },
            Err(e) => Err(e),
        }
    }
}

/// One datum filling the whole input up to surrounding whitespace.
pub open spec fn parse_one_spec(s: Seq<char>) -> Result<AstModel, Seq<char>> {
    let i = skip_ws_spec(s, 0);
    if i >= s.len() {
        Result::Err("unexpected end of input"@)
    } else {
        match datum_spec(s, i) {
            Result::Ok((a, j)) => {
                if skip_ws_spec(s, j) < s.len() {
                    Result::Err("trailing characters"@)
                } else {
                    Result::Ok(a)
                }
            },
            Result::Err(e) => Result::Err(e),
        }
    }
}

fn parse_one(s: &Vec<char>) -> (r: Result<Ast, String>)
    ensures
        match r {
            Result::Ok(a) => parse_one_spec(s@) == Result::<AstModel, Seq<char>>::Ok(a@),
            Result::Err(e) => parse_one_spec(s@) matches Result::Err(msg) && e@ == msg,
        },
{
    let i = skip_ws(s, 0);
    if i >= s.len() {
        return Err(String::from_str("unexpected end of input"));
    }
    match parse_datum(s, i) {
        Ok((a, j)) => {
            let k = skip_ws(s, j);
            if k < s.len() {
                Err(String::from_str("trailing characters"))
            } else {
                Ok(a)
            }
        },
        Err(e) => Err(e),
    }
}

/// The multi-line scanner over the trimmed input `t`, from position `i` with
/// the given paren depth, string-literal state, escape state, candidate
/// buffer and results so far: whenever the depth returns to zero at a `)`,
/// the buffered candidate is parsed as one expression and the buffer resets.
pub open spec fn scan_spec(
    t: Seq<char>,
    i: int,
    depth: int,
    in_str: bool,
    esc: bool,
    buf: Seq<char>,
    results: Seq<AstModel>,
) -> Result<Seq<AstModel>, Seq<char>>
    decreases t.len() - i,
{
    if !(0 <= i < t.len()) {
        let rem = trim_spec(buf);
        if rem.len() == 0 {
            if results.len() == 0 {
                Result::Err("No valid expressions found"@)
            } else {
                Result::Ok(results)
            }
        } else if depth != 0 {
            Result::Err("Unbalanced parentheses: "@ + rem)
        } else {
            match parse_one_spec(rem) {
                Result::Ok(a) => Result::Ok(results.push(a)),
                Result::Err(e) => Result::Err("Parse error: "@ + e),
            }
        }
    } else {
        let c = t[i];
        if esc {
            scan_spec(t, i + 1, depth, in_str, false, buf.push(c), results)
        } else if in_str && c == '\\' {
            scan_spec(t, i + 1, depth, true, true, buf.push(c), results)
        } else if c == '"' {
            scan_spec(t, i + 1, depth, !in_str, false, buf.push(c), results)
        } else if !in_str && c == '(' {
            scan_spec(t, i + 1, depth + 1, in_str, false, buf.push(c), results)
        } else if !in_str && c == ')' {
            if depth - 1 == 0 {
                let e = trim_spec(buf.push(c));
                if e.len() == 0 {
                    scan_spec(t, i + 1, 0, in_str, false, Seq::empty(), results)
                } else {
                    match parse_one_spec(e) {
                        Result::Ok(v) => scan_spec(
                            t,
                            i + 1,
                            0,
                            in_str,
                            false,
                            Seq::empty(),
                            results.push(v),
                        ),
                        Result::Err(er) => Result::Err(
                            "Parse error in expression '"@ + e + "': "@ + er,
                        ),
                    }
                }
            } else {
                scan_spec(t, i + 1, depth - 1, in_str, false, buf.push(c), results)
            }
        } else {
            scan_spec(t, i + 1, depth, in_str, false, buf.push(c), results)
        }
    }
}

/// The sequence of expressions a whole input denotes: empty for blank input;
/// a single expression when the whole trimmed input parses as one; otherwise
/// whatever the multi-line scanner yields.
pub open spec fn parse_string_spec(input: Seq<char>) -> Result<Seq<AstModel>, Seq<char>> {
    let t = trim_spec(input);
    if t.len() == 0 {
        Result::Ok(Seq::empty())
    } else {
        match parse_one_spec(t) {
            Result::Ok(a) => Result::Ok(seq![a]),
            Result::Err(_) => scan_spec(t, 0, 0, false, false, Seq::empty(), Seq::empty()),
        }
    }
}

/// Parse a whole input into its sequence of expressions.
///
/// The fast path parses the trimmed input as one expression. Failing that, a
/// character scanner tracks paren depth, string boundaries and escapes, and
/// parses each candidate expression closed at depth zero. Unbalanced
/// parentheses at the end of input are an error naming the dangling text;
/// comment handling belongs to the normalized entry point
/// (`parse_string_normalized`), not to this raw path.
pub fn parse_string(input: &str) -> (r: Result<Vec<Ast>, String>)
    ensures
        match r {
            Result::Ok(nodes) => parse_string_spec(input@) == Result::<
                Seq<AstModel>,
                Seq<char>,
            >::Ok(ast_views(nodes@)),
            Result::Err(e) => parse_string_spec(input@) matches Result::Err(msg) && e@ == msg,
        },
{
    let all = chars_of(input);
    let t = trim_chars(&all);
    if t.len() == 0 {
        let nodes: Vec<Ast> = Vec::new();
        proof {
            lemma_ast_views(nodes@);
            assert(ast_views(nodes@) =~= Seq::<AstModel>::empty());
        }
        return Ok(nodes);
    }
    match parse_one(&t) {
        Ok(a) => {
            let mut nodes: Vec<Ast> = Vec::new();
            nodes.push(a);
            proof {
                lemma_ast_views(nodes@);
                assert(ast_views(nodes@) =~= seq![nodes@[0]@]);
            }
            return Ok(nodes);
        },
        Err(_) => {},
    }
    let n = t.len();
    let mut i: usize = 0;
    let mut depth: i128 = 0;
    let mut in_str: bool = false;
    let mut esc: bool = false;
    let mut buf: Vec<char> = Vec::new();
    let mut results: Vec<Ast> = Vec::new();
    proof {
        lemma_ast_views(results@);
        assert(ast_views(results@) =~= Seq::<AstModel>::empty());
        assert(buf@ =~= Seq::<char>::empty());
    }
    while i < n
        invariant
            i <= n,
            n == t@.len(),
            t@ == trim_spec(input@),
            t@.len() != 0,
            parse_one_spec(t@) is Err,
            -(i as int) <= depth as int <= i as int,
            scan_spec(t@, 0, 0, false, false, Seq::empty(), Seq::empty()) == scan_spec(
                t@,
                i as int,
                depth as int,
                in_str,
                esc,
                buf@,
                ast_views(results@),
            ),
        decreases n - i,
    {
        let c = t[i];
        let ghost pre_buf = buf@;
        let ghost pre_views = ast_views(results@);
        let ghost pre_depth = depth as int;
        if esc {
            buf.push(c);
            esc = false;
            proof {
                lemma_ast_views(results@);
            }
        } else if in_str && c == '\\' {
            buf.push(c);
            esc = true;
        } else if c == '"' {
            buf.push(c);
            in_str = !in_str;
        } else if !in_str && c == '(' {
            buf.push(c);
            depth = depth + 1;
        } else if !in_str && c == ')' {
            buf.push(c);
            if depth - 1 == 0 {
                let ghost old_results = ast_views(results@);
                let e = trim_chars(&buf);
                if e.len() == 0 {
                    buf = Vec::new();
                    proof {
                        assert(buf@ =~= Seq::<char>::empty());
                    }
                } else {
                    match parse_one(&e) {
                        Ok(v) => {
                            let ghost old_view = results@;
                            results.push(v);
                            buf = Vec::new();
                            proof {
                                lemma_ast_views(results@);
                                assert(results@.drop_last() =~= old_view);
                                assert(ast_views(results@) == ast_views(results@.drop_last()).push(
                                    results@.last()@,
                                ));
                                assert(ast_views(results@) =~= old_results.push(
                                    results@.last()@,
                                ));
                                assert(buf@ =~= Seq::<char>::empty());
                            }
                        },
                        Err(er) => {
                            let mut msg = String::from_str("Parse error in expression '");
                            let shown = string_from_chars(e.as_slice());
                            msg.append(shown.as_str());
                            msg.append("': ");
                            msg.append(er.as_str());
                            proof {
                                assert(msg@ =~= "Parse error in expression '"@ + e@ + "': "@
                                    + er@);
                                assert(buf@ == pre_buf.push(c));
                                assert(e@ == trim_spec(pre_buf.push(c)));
                                assert(scan_spec(
                                    t@,
                                    i as int,
                                    pre_depth,
                                    in_str,
                                    esc,
                                    pre_buf,
                                    pre_views,
                                ) matches Result::Err(m2) && m2 == msg@);
                            }
                            return Err(msg);
                        },
                    }
                }
                depth = 0;
            } else {
                depth = depth - 1;
            }
        } else {
            buf.push(c);
        }
        i = i + 1;
    }
    let rem = trim_chars(&buf);
    if rem.len() == 0 {
        if results.len() == 0 {
            proof {
                lemma_ast_views(results@);
            }
            return Err(String::from_str("No valid expressions found"));
        }
        proof {
            lemma_ast_views(results@);
        }
        return Ok(results);
    }
    if depth != 0 {
        let mut msg = String::from_str("Unbalanced parentheses: ");
        let shown = string_from_chars(rem.as_slice());
        msg.append(shown.as_str());
        proof {
            assert(msg@ =~= "Unbalanced parentheses: "@ + rem@);
        }
        return Err(msg);
    }
    match parse_one(&rem) {
        Ok(a) => {
            let ghost old_results = ast_views(results@);
            let ghost old_view = results@;
            results.push(a);
            proof {
                lemma_ast_views(results@);
                assert(results@.drop_last() =~= old_view);
                assert(ast_views(results@) == ast_views(results@.drop_last()).push(
                    results@.last()@,
                ));
                assert(ast_views(results@) =~= old_results.push(results@.last()@));
            }
            Ok(results)
        },
        Err(e) => {
            let mut msg = String::from_str("Parse error: ");
            msg.append(e.as_str());
            proof {
                assert(msg@ =~= "Parse error: "@ + e@);
            }
            Err(msg)
        },
    }
}

/// The input split at newline characters; the separators are dropped.
pub open spec fn split_lines(s: Seq<char>) -> Seq<Seq<char>>
    decreases s,
{
    if s.len() == 0 {
        seq![Seq::empty()]
    } else {
        let prev = split_lines(s.drop_last());
        if s.last() == '\n' {
            prev.push(Seq::empty())
        } else {
            prev.update(prev.len() - 1, prev.last().push(s.last()))
        }
    }
}

/// `split_lines` always yields at least one line.
pub proof fn lemma_split_lines_nonempty(s: Seq<char>)
    ensures
        split_lines(s).len() >= 1,
    decreases s,
{
    if s.len() > 0 {
        lemma_split_lines_nonempty(s.drop_last());
    }
}

/// One line with an inline comment cut: scanning from the given
/// string-literal and escape state, a `;` outside a string literal drops the
/// rest of the line. Yields the kept text and the state after the line.
pub open spec fn cut_line(line: Seq<char>, in_str: bool, esc: bool) -> (Seq<char>, bool, bool)
    decreases line.len(),
{
    if line.len() == 0 {
        (Seq::empty(), in_str, esc)
    } else {
        let c = line[0];
        if esc {
            prepend_cut(c, cut_line(line.drop_first(), in_str, false))
        } else if in_str {
            if c == '\\' {
                prepend_cut(c, cut_line(line.drop_first(), true, true))
            } else if c == '"' {
                prepend_cut(c, cut_line(line.drop_first(), false, false))
            } else {
                prepend_cut(c, cut_line(line.drop_first(), true, false))
            }
        } else if c == ';' {
            (Seq::empty(), false, false)
        } else if c == '"' {
            prepend_cut(c, cut_line(line.drop_first(), true, false))
        } else {
            prepend_cut(c, cut_line(line.drop_first(), false, false))
        }
    }
}

/// Prefixes one kept character onto the outcome of the rest of a line.
pub open spec fn prepend_cut(c: char, r: (Seq<char>, bool, bool)) -> (Seq<char>, bool, bool) {
    (seq![c] + r.0, r.1, r.2)
}

/// Joining two normalized pieces: a single space between them when both are
/// nonempty.
pub open spec fn join2(a: Seq<char>, b: Seq<char>) -> Seq<char> {
    if a.len() == 0 {
        b
    } else if b.len() == 0 {
        a
    } else {
        a + seq![' '] + b
    }
}

/// `join2` is associative.
pub proof fn lemma_join2_assoc(a: Seq<char>, b: Seq<char>, c: Seq<char>)
    ensures
        join2(join2(a, b), c) == join2(a, join2(b, c)),
{
    if a.len() != 0 && b.len() != 0 && c.len() != 0 {
        assert((a + seq![' '] + b) + seq![' '] + c =~= a + seq![' '] + (b + seq![' '] + c));
    }
}

/// Normalization of a sequence of lines from the given string-literal state:
/// each line is comment-cut and trimmed, empty lines are dropped, and the
/// rest are joined with single spaces.
pub open spec fn normalize_lines(lines: Seq<Seq<char>>, in_str: bool, esc: bool) -> Seq<char>
    decreases lines,
{
    if lines.len() == 0 {
        Seq::empty()
    } else {
        let (kept, s2, e2) = cut_line(lines[0], in_str, esc);
        join2(trim_spec(kept), normalize_lines(lines.drop_first(), s2, e2))
    }
}

/// Normalization of a whole input: comments cut, lines trimmed, empty lines
/// dropped, the rest joined with single spaces.
pub open spec fn normalize_spec(s: Seq<char>) -> Seq<char> {
    normalize_lines(split_lines(s), false, false)
}

/// The views of a vector of character-vector lines.
pub open spec fn line_views(s: Seq<Vec<char>>) -> Seq<Seq<char>>
    decreases s,
{
    if s.len() == 0 {
        Seq::empty()
    } else {
        line_views(s.drop_last()).push(s.last()@)
    }
}

/// `line_views` maps the sequence pointwise.
pub proof fn lemma_line_views(s: Seq<Vec<char>>)
    ensures
        line_views(s).len() == s.len(),
        forall|i: int| 0 <= i < s.len() ==> line_views(s)[i] == s[i]@,
    decreases s,
{
    if s.len() > 0 {
        lemma_line_views(s.drop_last());
        assert(line_views(s) == line_views(s.drop_last()).push(s.last()@));
        assert forall|i: int| 0 <= i < s.len() implies line_views(s)[i] == s[i]@ by {
            if i < s.len() - 1 {
                assert(line_views(s)[i] == line_views(s.drop_last())[i]);
                assert(s.drop_last()[i] == s[i]);
            }
        }
    } else {
        assert(line_views(s) == Seq::<Seq<char>>::empty());
    }
}

fn cut_line_exec(line: &Vec<char>, in_str0: bool, esc0: bool) -> (r: (Vec<char>, bool, bool))
    ensures
        cut_line(line@, in_str0, esc0) == (r.0@, r.1, r.2),
{
    let mut kept: Vec<char> = Vec::new();
    let mut in_str = in_str0;
    let mut esc = esc0;
    let mut i: usize = 0;
    let n = line.len();
    proof {
        assert(line@.skip(0) =~= line@);
    }
    while i < n
        invariant
            i <= n,
            n == line@.len(),
            cut_line(line@, in_str0, esc0) == prepend_cut_all(
                kept@,
                cut_line(line@.skip(i as int), in_str, esc),
            ),
        decreases n - i,
    {
        let c = line[i];
        let ghost rest = line@.skip(i as int);
        proof {
            assert(rest[0] == c);
            assert(rest.drop_first() =~= line@.skip(i + 1));
        }
        let ghost pre_kept = kept@;
        if esc {
            kept.push(c);
            esc = false;
            proof {
                lemma_prepend_cut_all(pre_kept, c, cut_line(line@.skip(i + 1), in_str, esc));
            }
        } else if in_str {
            if c == '\\' {
                kept.push(c);
                esc = true;
            } else if c == '"' {
                kept.push(c);
                in_str = false;
            } else {
                kept.push(c);
            }
            proof {
                lemma_prepend_cut_all(pre_kept, c, cut_line(line@.skip(i + 1), in_str, esc));
            }
        } else if c == ';' {
            proof {
                assert(cut_line(rest, in_str, esc) == (Seq::<char>::empty(), false, false));
                assert(kept@ + Seq::<char>::empty() =~= kept@);
            }
            return (kept, false, false);
        } else if c == '"' {
            kept.push(c);
            in_str = true;
            proof {
                lemma_prepend_cut_all(pre_kept, c, cut_line(line@.skip(i + 1), in_str, esc));
            }
        } else {
            kept.push(c);
            proof {
                lemma_prepend_cut_all(pre_kept, c, cut_line(line@.skip(i + 1), in_str, esc));
            }
        }
        i = i + 1;
    }
    proof {
        assert(line@.skip(n as int).len() == 0);
        assert(cut_line(line@.skip(n as int), in_str, esc) == (
            Seq::<char>::empty(),
            in_str,
            esc,
        ));
        assert(kept@ + Seq::<char>::empty() =~= kept@);
    }
    (kept, in_str, esc)
}

/// Prefixes already-kept text onto the outcome of the rest of a line.
pub open spec fn prepend_cut_all(p: Seq<char>, r: (Seq<char>, bool, bool)) -> (
    Seq<char>,
    bool,
    bool,
) {
    (p + r.0, r.1, r.2)
}

proof fn lemma_prepend_cut_all(p: Seq<char>, c: char, r: (Seq<char>, bool, bool))
    ensures
        prepend_cut_all(p, prepend_cut(c, r)) == prepend_cut_all(p.push(c), r),
{
    assert(p + (seq![c] + r.0) =~= p.push(c) + r.0);
}

/// Normalize a possibly multi-line input to a single line: inline comments
/// (a `;` outside a string literal) are cut to the end of their line, lines
/// are trimmed, empty lines are dropped, and the rest are joined with single
/// spaces.
pub fn format_sexpr(input: &str) -> (r: String)
    ensures
        r@ == normalize_spec(input@),
{
    let all = chars_of(input);
    let n = all.len();
    // Split into lines.
    let mut done: Vec<Vec<char>> = Vec::new();
    let mut cur: Vec<char> = Vec::new();
    let mut i: usize = 0;
    proof {
        assert(all@.take(0) =~= Seq::<char>::empty());
        assert(line_views(done@) =~= Seq::<Seq<char>>::empty());
        assert(split_lines(all@.take(0)) =~= line_views(done@).push(cur@));
    }
    while i < n
        invariant
            i <= n,
            n == all@.len(),
            all@ == input@,
            split_lines(all@.take(i as int)) == line_views(done@).push(cur@),
        decreases n - i,
    {
        let c = all[i];
        let ghost pre = all@.take(i as int);
        proof {
            assert(all@.take(i + 1).drop_last() =~= pre);
            assert(all@.take(i + 1).last() == c);
        }
        if c == '\n' {
            let ghost old_done = done@;
            let ghost old_cur = cur@;
            done.push(cur);
            cur = Vec::new();
            proof {
                assert(done@.drop_last() =~= old_done);
                assert(line_views(done@) == line_views(done@.drop_last()).push(
                    done@.last()@,
                ));
                assert(done@.last()@ == old_cur);
                assert(cur@ =~= Seq::<char>::empty());
                assert(split_lines(all@.take(i + 1)) =~= line_views(done@).push(cur@));
            }
        } else {
            let ghost old_cur = cur@;
            cur.push(c);
            proof {
                let prev = split_lines(pre);
                assert(prev == line_views(done@).push(old_cur));
                assert(prev.len() - 1 == line_views(done@).len());
                assert(prev.last() == old_cur);
                assert(split_lines(all@.take(i + 1)) == prev.update(
                    prev.len() - 1,
                    prev.last().push(c),
                ));
                assert(prev.update(prev.len() - 1, prev.last().push(c)) =~= line_views(
                    done@,
                ).push(cur@));
            }
        }
        i = i + 1;
    }
    proof {
        assert(all@.take(n as int) =~= all@);
    }
    let ghost old_done = done@;
    let ghost cur_v = cur@;
    done.push(cur);
    let ghost lines = line_views(done@);
    proof {
        assert(done@.drop_last() =~= old_done);
        assert(line_views(done@) == line_views(done@.drop_last()).push(done@.last()@));
        assert(done@.last()@ == cur_v);
        assert(lines == line_views(old_done).push(cur_v));
        assert(lines == split_lines(input@));
        lemma_line_views(done@);
    }
    // Cut, trim, and join the lines.
    let mut out = String::new();
    let mut in_str: bool = false;
    let mut esc: bool = false;
    let mut k: usize = 0;
    let m = done.len();
    proof {
        assert(lines.skip(0) =~= lines);
    }
    while k < m
        invariant
            k <= m,
            m == lines.len(),
            m == done@.len(),
            lines == line_views(done@),
            forall|j: int| 0 <= j < m ==> lines[j] == done@[j]@,
            normalize_spec(input@) == join2(out@, normalize_lines(lines.skip(k as int), in_str, esc)),
        decreases m - k,
    {
        let (kept, s2, e2) = cut_line_exec(&done[k], in_str, esc);
        let t = trim_chars(&kept);
        let ghost rest = lines.skip(k as int);
        proof {
            assert(rest[0] == done@[k as int]@);
            assert(rest.drop_first() =~= lines.skip(k + 1));
            assert(normalize_lines(rest, in_str, esc) == join2(
                trim_spec(kept@),
                normalize_lines(lines.skip(k + 1), s2, e2),
            ));
            lemma_join2_assoc(
                out@,
                trim_spec(kept@),
                normalize_lines(lines.skip(k + 1), s2, e2),
            );
        }
        let ghost old_out = out@;
        if t.len() > 0 {
            if out.as_str().is_empty() {
                let piece = string_from_chars(t.as_slice());
                out = piece;
            } else {
                push_char(&mut out, ' ');
                let piece = string_from_chars(t.as_slice());
                out.append(piece.as_str());
                proof {
                    assert(out@ =~= old_out + seq![' '] + t@);
                }
            }
        }
        proof {
            assert(out@ == join2(old_out, t@));
        }
        in_str = s2;
        esc = e2;
        k = k + 1;
    }
    proof {
        assert(lines.skip(m as int).len() == 0);
        assert(normalize_lines(lines.skip(m as int), in_str, esc) == Seq::<char>::empty());
    }
    out
}

/// Parse an input after normalization: comments cut, lines joined.
pub fn parse_string_normalized(input: &str) -> (r: Result<Vec<Ast>, String>)
    ensures
        match r {
            Result::Ok(nodes) => parse_string_spec(normalize_spec(input@)) == Result::<
                Seq<AstModel>,
                Seq<char>,
            >::Ok(ast_views(nodes@)),
            Result::Err(e) => parse_string_spec(normalize_spec(input@)) matches Result::Err(msg)
                && e@ == msg,
        },
{
    let normalized = format_sexpr(input);
    parse_string(normalized.as_str())
}


/// A multi-line input whose normalized, trimmed text parses as one complete
/// expression yields exactly that one node through the normalized entry
/// point: balanced parens across lines parse the same as the single-line
/// equivalent.
pub proof fn lemma_single_expression_normalized(input: Seq<char>, a: AstModel)
    requires
        trim_spec(normalize_spec(input)).len() > 0,
        parse_one_spec(trim_spec(normalize_spec(input))) == Result::<AstModel, Seq<char>>::Ok(a),
    ensures
        parse_string_spec(normalize_spec(input)) == Result::<Seq<AstModel>, Seq<char>>::Ok(
            seq![a],
        ),
{
}

/// The scanner state alone: paren depth, string-literal state and escape
/// state after reading `t[i..]` from the given state.
pub open spec fn scan_state(t: Seq<char>, i: int, depth: int, in_str: bool, esc: bool) -> (
    int,
    bool,
    bool,
)
    decreases t.len() - i,
{
    if !(0 <= i < t.len()) {
        (depth, in_str, esc)
    } else {
        let c = t[i];
        if esc {
            scan_state(t, i + 1, depth, in_str, false)
        } else if in_str && c == '\\' {
            scan_state(t, i + 1, depth, true, true)
        } else if c == '"' {
            scan_state(t, i + 1, depth, !in_str, false)
        } else if !in_str && c == '(' {
            scan_state(t, i + 1, depth + 1, in_str, false)
        } else if !in_str && c == ')' {
            scan_state(t, i + 1, depth - 1, in_str, false)
        } else {
            scan_state(t, i + 1, depth, in_str, false)
        }
    }
}

/// Trimming keeps a non-whitespace character.
proof fn lemma_trim_front_keeps(s: Seq<char>, w: int)
    requires
        0 <= w < s.len(),
        !is_ws(s[w]),
    ensures
        trim_front(s).len() > 0,
    decreases s.len(),
{
    if s.len() > 0 && is_ws(s[0]) {
        assert(w != 0);
        assert(s.drop_first()[w - 1] == s[w]);
        lemma_trim_front_keeps(s.drop_first(), w - 1);
    }
}

proof fn lemma_trim_back_keeps(s: Seq<char>, w: int)
    requires
        0 <= w < s.len(),
        !is_ws(s[w]),
    ensures
        trim_back(s).len() > 0,
    decreases s.len(),
{
    if s.len() > 0 && is_ws(s.last()) {
        assert(w != s.len() - 1);
        assert(s.drop_last()[w] == s[w]);
        lemma_trim_back_keeps(s.drop_last(), w);
    }
}

proof fn lemma_trim_keeps(s: Seq<char>, w: int)
    requires
        0 <= w < s.len(),
        !is_ws(s[w]),
    ensures
        trim_spec(s).len() > 0,
    decreases s.len(),
{
    lemma_trim_front_keeps(s, w);
    let tf = trim_front(s);
    lemma_trim_front_has(s, w);
    let w2 = choose|w2: int| 0 <= w2 < tf.len() && !is_ws(tf[w2]);
    lemma_trim_back_keeps(tf, w2);
}

proof fn lemma_trim_front_has(s: Seq<char>, w: int)
    requires
        0 <= w < s.len(),
        !is_ws(s[w]),
    ensures
        exists|w2: int| 0 <= w2 < trim_front(s).len() && !is_ws(#[trigger] trim_front(s)[w2]),
    decreases s.len(),
{
    if s.len() > 0 && is_ws(s[0]) {
        assert(s.drop_first()[w - 1] == s[w]);
        lemma_trim_front_has(s.drop_first(), w - 1);
        assert(trim_front(s) == trim_front(s.drop_first()));
        let w2 = choose|w2: int|
            0 <= w2 < trim_front(s.drop_first()).len() && !is_ws(
                #[trigger] trim_front(s.drop_first())[w2],
            );
        assert(!is_ws(trim_front(s)[w2]));
    } else {
        assert(trim_front(s) == s);
        assert(!is_ws(trim_front(s)[w]));
    }
}

/// When the scan of the rest of the input ends at a nonzero paren depth, and
/// the candidate buffer holds a non-whitespace character whenever the depth
/// is nonzero, the scanner fails with a non-empty error message and yields no
/// nodes.
proof fn lemma_scan_unbalanced(
    t: Seq<char>,
    i: int,
    depth: int,
    in_str: bool,
    esc: bool,
    buf: Seq<char>,
    results: Seq<AstModel>,
)
    requires
        scan_state(t, i, depth, in_str, esc).0 != 0,
        depth != 0 ==> exists|w: int| 0 <= w < buf.len() && !is_ws(#[trigger] buf[w]),
    ensures
        scan_spec(t, i, depth, in_str, esc, buf, results) matches Result::Err(msg) && msg.len()
            > 0,
    decreases t.len() - i,
{
    if !(0 <= i < t.len()) {
        assert(depth != 0);
        let w = choose|w: int| 0 <= w < buf.len() && !is_ws(buf[w]);
        lemma_trim_keeps(buf, w);
        let rem = trim_spec(buf);
        assert(scan_spec(t, i, depth, in_str, esc, buf, results) == Result::<
            Seq<AstModel>,
            Seq<char>,
        >::Err("Unbalanced parentheses: "@ + rem));
        proof_strlit_unbalanced_len();
    } else {
        let c = t[i];
        if esc {
            if depth != 0 {
                lemma_push_keeps(buf, c);
            }
            lemma_scan_unbalanced(t, i + 1, depth, in_str, false, buf.push(c), results);
        } else if in_str && c == '\\' {
            if depth != 0 {
                lemma_push_keeps(buf, c);
            }
            lemma_scan_unbalanced(t, i + 1, depth, true, true, buf.push(c), results);
        } else if c == '"' {
            assert(!is_ws(c));
            assert(buf.push(c)[buf.len() as int] == c);
            lemma_scan_unbalanced(t, i + 1, depth, !in_str, false, buf.push(c), results);
        } else if !in_str && c == '(' {
            assert(!is_ws(c));
            assert(buf.push(c)[buf.len() as int] == c);
            lemma_scan_unbalanced(t, i + 1, depth + 1, in_str, false, buf.push(c), results);
        } else if !in_str && c == ')' {
            if depth - 1 == 0 {
                assert(scan_state(t, i, depth, in_str, esc) == scan_state(
                    t,
                    i + 1,
                    depth - 1,
                    in_str,
                    false,
                ));
                let e = trim_spec(buf.push(c));
                if e.len() == 0 {
                    lemma_scan_unbalanced(t, i + 1, 0, in_str, false, Seq::empty(), results);
                } else {
                    match parse_one_spec(e) {
                        Result::Ok(v) => {
                            lemma_scan_unbalanced(
                                t,
                                i + 1,
                                0,
                                in_str,
                                false,
                                Seq::empty(),
                                results.push(v),
                            );
                        },
                        Result::Err(er) => {
                            lemma_parse_errors_nonempty(e);
                        },
                    }
                }
            } else {
                assert(!is_ws(c));
                assert(buf.push(c)[buf.len() as int] == c);
                lemma_scan_unbalanced(t, i + 1, depth - 1, in_str, false, buf.push(c), results);
            }
        } else {
            if depth != 0 {
                lemma_push_keeps(buf, c);
            }
            lemma_scan_unbalanced(t, i + 1, depth, in_str, false, buf.push(c), results);
        }
    }
}

proof fn lemma_push_keeps(buf: Seq<char>, c: char)
    requires
        exists|w: int| 0 <= w < buf.len() && !is_ws(#[trigger] buf[w]),
    ensures
        exists|w: int| 0 <= w < buf.push(c).len() && !is_ws(#[trigger] buf.push(c)[w]),
{
    let w = choose|w: int| 0 <= w < buf.len() && !is_ws(buf[w]);
    assert(buf.push(c)[w] == buf[w]);
}

proof fn proof_strlit_unbalanced_len()
    ensures
        "Unbalanced parentheses: "@.len() > 0,
{
    reveal_strlit("Unbalanced parentheses: ");
}

/// Every error of the single-datum parser is a non-empty message.
proof fn lemma_parse_errors_nonempty(s: Seq<char>)
    ensures
        parse_one_spec(s) matches Result::Err(e) ==> e.len() > 0,
{
    reveal_strlit("unexpected end of input");
    reveal_strlit("trailing characters");
    lemma_datum_errors_nonempty(s, skip_ws_spec(s, 0));
}

proof fn lemma_datum_errors_nonempty(s: Seq<char>, i: int)
    ensures
        datum_spec(s, i) matches Result::Err(e) ==> e.len() > 0,
    decreases s.len() - i, 1int, 2int,
{
    reveal_strlit("unexpected end of input");
    reveal_strlit("unexpected closing delimiter");
    reveal_strlit("unsupported hash syntax");
    reveal_strlit("unexpected character");
    reveal_strlit("malformed number literal");
    reveal_strlit("integer literal out of range");
    reveal_strlit("unterminated string literal");
    reveal_strlit("unsupported escape sequence");
    if 0 <= i < s.len() {
        let c = s[i];
        if c == '(' {
            lemma_list_errors_nonempty(s, i + 1, ')');
        } else if c == '[' {
            lemma_list_errors_nonempty(s, i + 1, ']');
        } else if c == '"' {
            lemma_strlit_errors_nonempty(s, i + 1);
        } else if c == '\'' {
            lemma_quotation_errors_nonempty(s, i, i + 1, "quote"@);
        } else if c == '`' {
            lemma_quotation_errors_nonempty(s, i, i + 1, "quasiquote"@);
        } else if c == ',' {
            if i + 1 < s.len() && s[i + 1] == '@' {
                lemma_quotation_errors_nonempty(s, i, i + 2, "unquote-splicing"@);
            } else {
                lemma_quotation_errors_nonempty(s, i, i + 1, "unquote"@);
            }
        }
    }
}

proof fn lemma_quotation_errors_nonempty(s: Seq<char>, i: int, after: int, name: Seq<char>)
    ensures
        quotation_spec(s, i, after, name) matches Result::Err(e) ==> e.len() > 0,
    decreases s.len() - i, 0int, 3int,
{
    reveal_strlit("unexpected end of input");
    if 0 <= i < s.len() {
        let j = past(s.len() as int, i, skip_ws_spec(s, after));
        lemma_datum_errors_nonempty(s, j);
    }
}

proof fn lemma_strlit_errors_nonempty(s: Seq<char>, i: int)
    ensures
        strlit_spec(s, i) matches Result::Err(e) ==> e.len() > 0,
    decreases s.len() - i,
{
    reveal_strlit("unterminated string literal");
    reveal_strlit("unsupported escape sequence");
    if 0 <= i < s.len() {
        if s[i] == '\\' {
            if i + 1 < s.len() {
                lemma_strlit_errors_nonempty(s, i + 2);
            }
        } else if s[i] != '"' {
            lemma_strlit_errors_nonempty(s, i + 1);
        }
    }
}

proof fn lemma_list_errors_nonempty(s: Seq<char>, i: int, close: char)
    ensures
        list_spec(s, i, close) matches Result::Err(e) ==> e.len() > 0,
    decreases s.len() - i, 2int, 3int,
{
    reveal_strlit("unterminated list");
    reveal_strlit("mismatched closing delimiter");
    reveal_strlit("unexpected dotted tail");
    let j = if skip_ws_spec(s, i) < i {
        i
    } else {
        skip_ws_spec(s, i)
    };
    if j < s.len() {
        if s[j] == close || s[j] == ')' || s[j] == ']' || (s[j] == '.' && (j + 1 >= s.len()
            || is_delim(s[j + 1]))) {
        } else {
            lemma_datum_errors_nonempty(s, j);
            match datum_spec(s, j) {
                Result::Ok((a, k)) => {
                    lemma_list_rest_errors_nonempty(s, past(s.len() as int, j, k), close, a);
                },
                Result::Err(_) => {},
            }
        }
    }
}

proof fn lemma_list_rest_errors_nonempty(s: Seq<char>, i: int, close: char, first: AstModel)
    ensures
        list_rest_spec(s, i, close, first) matches Result::Err(e) ==> e.len() > 0,
    decreases s.len() - i, 2int, 4int,
{
    reveal_strlit("unterminated list");
    reveal_strlit("mismatched closing delimiter");
    reveal_strlit("expected closing delimiter after dotted tail");
    let j = if skip_ws_spec(s, i) < i {
        i
    } else {
        skip_ws_spec(s, i)
    };
    if j < s.len() {
        if s[j] == close || s[j] == ')' || s[j] == ']' {
        } else if s[j] == '.' && (j + 1 >= s.len() || is_delim(s[j + 1])) {
            let m = past(s.len() as int, j, skip_ws_spec(s, j + 1));
            lemma_datum_errors_nonempty(s, m);
        } else {
            lemma_datum_errors_nonempty(s, j);
            match datum_spec(s, j) {
                Result::Ok((a, k)) => {
                    lemma_list_rest_errors_nonempty(s, past(s.len() as int, j, k), close, a);
                },
                Result::Err(_) => {},
            }
        }
    }
}


/// Unbalanced input fails parsing with a non-empty error message and
/// produces no nodes: when the character scan of the trimmed input ends at a
/// nonzero paren depth and the input is not one complete expression, parsing
/// is an error whose message is non-empty.
pub proof fn lemma_unbalanced_input_fails(input: Seq<char>)
    requires
        trim_spec(input).len() > 0,
        scan_state(trim_spec(input), 0, 0, false, false).0 != 0,
    ensures
        parse_string_spec(input) matches Result::Err(msg) && msg.len() > 0,
{
    let t = trim_spec(input);
    if parse_one_spec(t) is Ok {
        lemma_parse_one_balanced(t);
        assert(false);
    }
    lemma_scan_unbalanced(t, 0, 0, false, false, Seq::empty(), Seq::empty());
}


/// The scanner state after reading `t[i..j)` from the given state.
pub open spec fn scan_seg(
    t: Seq<char>,
    i: int,
    j: int,
    depth: int,
    in_str: bool,
    esc: bool,
) -> (int, bool, bool)
    decreases j - i,
{
    if !(0 <= i < j && i < t.len()) {
        (depth, in_str, esc)
    } else {
        let c = t[i];
        if esc {
            scan_seg(t, i + 1, j, depth, in_str, false)
        } else if in_str && c == '\\' {
            scan_seg(t, i + 1, j, depth, true, true)
        } else if c == '"' {
            scan_seg(t, i + 1, j, depth, !in_str, false)
        } else if !in_str && c == '(' {
            scan_seg(t, i + 1, j, depth + 1, in_str, false)
        } else if !in_str && c == ')' {
            scan_seg(t, i + 1, j, depth - 1, in_str, false)
        } else {
            scan_seg(t, i + 1, j, depth, in_str, false)
        }
    }
}

proof fn lemma_scan_state_is_seg(t: Seq<char>, i: int, depth: int, in_str: bool, esc: bool)
    ensures
        scan_state(t, i, depth, in_str, esc) == scan_seg(t, i, t.len() as int, depth, in_str, esc),
    decreases t.len() - i,
{
    if 0 <= i < t.len() {
        let c = t[i];
        if esc {
            lemma_scan_state_is_seg(t, i + 1, depth, in_str, false);
        } else if in_str && c == '\\' {
            lemma_scan_state_is_seg(t, i + 1, depth, true, true);
        } else if c == '"' {
            lemma_scan_state_is_seg(t, i + 1, depth, !in_str, false);
        } else if !in_str && c == '(' {
            lemma_scan_state_is_seg(t, i + 1, depth + 1, in_str, false);
        } else if !in_str && c == ')' {
            lemma_scan_state_is_seg(t, i + 1, depth - 1, in_str, false);
        } else {
            lemma_scan_state_is_seg(t, i + 1, depth, in_str, false);
        }
    }
}

proof fn lemma_scan_seg_compose(
    t: Seq<char>,
    i: int,
    k: int,
    j: int,
    depth: int,
    in_str: bool,
    esc: bool,
)
    requires
        0 <= i <= k <= j,
    ensures
        scan_seg(t, i, j, depth, in_str, esc) == ({
            let (d2, s2, e2) = scan_seg(t, i, k, depth, in_str, esc);
            scan_seg(t, k, j, d2, s2, e2)
        }),
    decreases k - i,
{
    if 0 <= i < k && i < t.len() {
        let c = t[i];
        if esc {
            lemma_scan_seg_compose(t, i + 1, k, j, depth, in_str, false);
        } else if in_str && c == '\\' {
            lemma_scan_seg_compose(t, i + 1, k, j, depth, true, true);
        } else if c == '"' {
            lemma_scan_seg_compose(t, i + 1, k, j, depth, !in_str, false);
        } else if !in_str && c == '(' {
            lemma_scan_seg_compose(t, i + 1, k, j, depth + 1, in_str, false);
        } else if !in_str && c == ')' {
            lemma_scan_seg_compose(t, i + 1, k, j, depth - 1, in_str, false);
        } else {
            lemma_scan_seg_compose(t, i + 1, k, j, depth, in_str, false);
        }
    }
}

/// Whether a character changes the scanner state outside a string literal.
pub open spec fn scan_special(c: char) -> bool {
    c == '(' || c == ')' || c == '"'
}

proof fn lemma_scan_seg_plain(t: Seq<char>, i: int, j: int, depth: int)
    requires
        forall|m: int| i <= m < j && m < t.len() ==> !scan_special(#[trigger] t[m]),
    ensures
        scan_seg(t, i, j, depth, false, false) == (depth, false, false),
    decreases j - i,
{
    if 0 <= i < j && i < t.len() {
        lemma_scan_seg_plain(t, i + 1, j, depth);
    }
}

proof fn lemma_strlit_neutral(t: Seq<char>, i: int, end: int, content: Seq<char>, depth: int)
    requires
        strlit_spec(t, i) == Result::<(Seq<char>, int), Seq<char>>::Ok((content, end)),
    ensures
        scan_seg(t, i, end, depth, true, false) == (depth, false, false),
    decreases t.len() - i,
{
    lemma_strlit_progress(t, i);
    if 0 <= i < t.len() {
        let c = t[i];
        if c == '"' {
            assert(end == i + 1);
            assert(scan_seg(t, i, end, depth, true, false) == scan_seg(
                t,
                i + 1,
                end,
                depth,
                false,
                false,
            ));
            assert(scan_seg(t, i + 1, end, depth, false, false) == (depth, false, false));
        } else if c == '\\' {
            match strlit_spec(t, i + 2) {
                Result::Ok((c2, e2)) => {
                    assert(end == e2);
                    lemma_strlit_progress(t, i + 2);
                    lemma_strlit_neutral(t, i + 2, end, c2, depth);
                    // The backslash sets the escape state; the next character
                    // is consumed by it.
                    assert(i + 1 < t.len());
                    assert(i + 2 <= end);
                    assert(scan_seg(t, i, end, depth, true, false) == scan_seg(
                        t,
                        i + 1,
                        end,
                        depth,
                        true,
                        true,
                    ));
                    assert(scan_seg(t, i + 1, end, depth, true, true) == scan_seg(
                        t,
                        i + 2,
                        end,
                        depth,
                        true,
                        false,
                    ));
                },
                Result::Err(_) => {
                    assert(false);
                },
            }
        } else {
            match strlit_spec(t, i + 1) {
                Result::Ok((c2, e2)) => {
                    assert(end == e2);
                    lemma_strlit_progress(t, i + 1);
                    lemma_strlit_neutral(t, i + 1, end, c2, depth);
                    assert(scan_seg(t, i, end, depth, true, false) == scan_seg(
                        t,
                        i + 1,
                        end,
                        depth,
                        true,
                        false,
                    ));
                },
                Result::Err(_) => {
                    assert(false);
                },
            }
        }
    }
}

proof fn lemma_ws_plain(t: Seq<char>, i: int, j: int, depth: int)
    requires
        0 <= i <= j <= t.len(),
        forall|m: int| i <= m < j ==> is_ws(#[trigger] t[m]),
    ensures
        scan_seg(t, i, j, depth, false, false) == (depth, false, false),
{
    assert forall|m: int| i <= m < j && m < t.len() implies !scan_special(#[trigger] t[m]) by {}
    lemma_scan_seg_plain(t, i, j, depth);
}

/// A successfully parsed datum is scanner-neutral: reading its characters
/// from a state outside a string literal returns the same state.
proof fn lemma_datum_neutral(s: Seq<char>, i: int, a: AstModel, j: int, depth: int)
    requires
        datum_spec(s, i) == Result::<(AstModel, int), Seq<char>>::Ok((a, j)),
    ensures
        scan_seg(s, i, j, depth, false, false) == (depth, false, false),
    decreases s.len() - i, 1int, 0int,
{
    lemma_datum_progress(s, i);
    let c = s[i];
    if c == '(' || c == '[' {
        let close: char = if c == '(' {
            ')'
        } else {
            ']'
        };
        match list_spec(s, i + 1, close) {
            Result::Ok((items, end)) => {
                assert(j == end);
                if c == '(' {
                    lemma_list_neutral(s, i + 1, close, items, end, depth + 1);
                    assert(scan_seg(s, i, j, depth, false, false) == scan_seg(
                        s,
                        i + 1,
                        j,
                        depth + 1,
                        false,
                        false,
                    ));
                } else {
                    lemma_list_neutral(s, i + 1, close, items, end, depth);
                    assert(scan_seg(s, i, j, depth, false, false) == scan_seg(
                        s,
                        i + 1,
                        j,
                        depth,
                        false,
                        false,
                    ));
                }
            },
            Result::Err(_) => {
                assert(false);
            },
        }
    } else if c == ')' || c == ']' {
        assert(false);
    } else if c == '"' {
        match strlit_spec(s, i + 1) {
            Result::Ok((content, end)) => {
                assert(j == end);
                lemma_strlit_neutral(s, i + 1, end, content, depth);
                assert(scan_seg(s, i, j, depth, false, false) == scan_seg(
                    s,
                    i + 1,
                    j,
                    depth,
                    true,
                    false,
                ));
            },
            Result::Err(_) => {
                assert(false);
            },
        }
    } else if c == '#' {
        assert forall|m: int| i <= m < j && m < s.len() implies !scan_special(
            #[trigger] s[m],
        ) by {
            if m == i {
            } else if m == i + 1 {
            } else {
                assert(s[i + 1] == 'n' && (m == i + 2 || m == i + 3));
            }
        }
        lemma_scan_seg_plain(s, i, j, depth);
    } else if c == '\'' {
        assert(!scan_special(s[i]));
        lemma_quotation_neutral(s, i, i + 1, "quote"@, a, j, depth);
    } else if c == '`' {
        assert(!scan_special(s[i]));
        lemma_quotation_neutral(s, i, i + 1, "quasiquote"@, a, j, depth);
    } else if c == ',' {
        if i + 1 < s.len() && s[i + 1] == '@' {
            assert(!scan_special(s[i]) && !scan_special(s[i + 1]));
            lemma_quotation_neutral(s, i, i + 2, "unquote-splicing"@, a, j, depth);
        } else {
            assert(!scan_special(s[i]));
            lemma_quotation_neutral(s, i, i + 1, "unquote"@, a, j, depth);
        }
    } else if is_digit(c) || ((c == '-' || c == '+') && i + 1 < s.len() && is_digit(s[i + 1])) {
        lemma_number_neutral(s, i, a, j, depth);
    } else {
        // A symbol: every character is a symbol character.
        lemma_symbol_end(s, i);
        assert forall|m: int| i <= m < j && m < s.len() implies !scan_special(
            #[trigger] s[m],
        ) by {
            assert(is_symbol_char(s[m]));
        }
        lemma_scan_seg_plain(s, i, j, depth);
    }
}

/// A parsed number's characters are all plain.
proof fn lemma_number_neutral(s: Seq<char>, i: int, a: AstModel, j: int, depth: int)
    requires
        number_spec(s, i) == Result::<(AstModel, int), Seq<char>>::Ok((a, j)),
        0 <= i < s.len(),
    ensures
        scan_seg(s, i, j, depth, false, false) == (depth, false, false),
{
    let d0 = if s[i] == '-' || s[i] == '+' {
        i + 1
    } else {
        i
    };
    let d1 = digits_end(s, d0);
    lemma_digits_end(s, d0);
    assert forall|m: int| i <= m < j && m < s.len() implies !scan_special(#[trigger] s[m]) by {
        if m < d0 {
        } else if m < d1 {
            assert(is_digit(s[m]));
        } else if m == d1 {
            assert(s[m] == '.');
        } else {
            lemma_digits_end(s, d1 + 1);
            assert(is_digit(s[m]));
        }
    }
    lemma_scan_seg_plain(s, i, j, depth);
}

/// A successfully parsed quotation is scanner-neutral.
proof fn lemma_quotation_neutral(
    s: Seq<char>,
    i: int,
    after: int,
    name: Seq<char>,
    a: AstModel,
    j: int,
    depth: int,
)
    requires
        quotation_spec(s, i, after, name) == Result::<(AstModel, int), Seq<char>>::Ok((a, j)),
        i < after <= i + 2,
        after <= s.len(),
        !scan_special(s[i]),
        after == i + 2 ==> i + 1 < s.len() && !scan_special(s[i + 1]),
    ensures
        scan_seg(s, i, j, depth, false, false) == (depth, false, false),
    decreases s.len() - i, 0int, 1int,
{
    assert(0 <= i < s.len());
    let k = past(s.len() as int, i, skip_ws_spec(s, after));
    match datum_spec(s, k) {
        Result::Ok((d2, end)) => {
            assert(j == end);
            lemma_skip_ws(s, after);
            assert(k == skip_ws_spec(s, after));
            lemma_datum_progress(s, k);
            // Marker characters and whitespace are plain.
            assert forall|m: int| i <= m < k && m < s.len() implies !scan_special(
                #[trigger] s[m],
            ) by {
                if m >= after {
                    assert(is_ws(s[m]));
                }
            }
            lemma_scan_seg_plain(s, i, k, depth);
            assert(i <= k <= j);
            lemma_scan_seg_compose(s, i, k, j, depth, false, false);
            lemma_datum_neutral(s, k, d2, j, depth);
        },
        Result::Err(_) => {
            assert(false);
        },
    }
}

/// A successfully parsed list body is scanner-neutral but for its closing
/// paren: a `)` close leaves the depth one lower, a `]` close leaves it
/// unchanged.
proof fn lemma_list_neutral(
    s: Seq<char>,
    i: int,
    close: char,
    items: Seq<AstModel>,
    end: int,
    depth: int,
)
    requires
        0 <= i,
        list_spec(s, i, close) == Result::<(Seq<AstModel>, int), Seq<char>>::Ok((items, end)),
        close == ')' || close == ']',
    ensures
        scan_seg(s, i, end, depth, false, false) == (
            if close == ')' {
                depth - 1
            } else {
                depth
            },
            false,
            false,
        ),
    decreases s.len() - i, 2int, 0int,
{
    lemma_list_progress(s, i, close);
    let j = if skip_ws_spec(s, i) < i {
        i
    } else {
        skip_ws_spec(s, i)
    };
    assert(j < s.len());
    lemma_skip_ws(s, i);
    assert(i <= j);
    lemma_ws_prefix_neutral(s, i, j, depth);
    if s[j] == close {
        assert(end == j + 1);
        lemma_scan_seg_compose(s, i, j, end, depth, false, false);
        assert(scan_seg(s, j, end, depth, false, false) == scan_seg(
            s,
            j + 1,
            end,
            if close == ')' {
                depth - 1
            } else {
                depth
            },
            false,
            false,
        ));
    } else {
        match datum_spec(s, j) {
            Result::Ok((a, k)) => {
                lemma_datum_progress(s, j);
                assert(past(s.len() as int, j, k) == k);
                match list_rest_spec(s, k, close, a) {
                    Result::Ok((items2, end2)) => {
                        assert(end2 == end);
                        lemma_list_rest_progress(s, k, close, a);
                        lemma_scan_seg_compose(s, i, j, end, depth, false, false);
                        lemma_datum_neutral(s, j, a, k, depth);
                        lemma_scan_seg_compose(s, j, k, end, depth, false, false);
                        lemma_list_rest_neutral(s, k, close, a, items2, end2, depth);
                    },
                    Result::Err(_) => {
                        assert(false);
                    },
                }
            },
            Result::Err(_) => {
                assert(false);
            },
        }
    }
}

/// The whitespace run the list parser skips is scanner-neutral.
proof fn lemma_ws_prefix_neutral(s: Seq<char>, i: int, j: int, depth: int)
    requires
        0 <= i <= s.len(),
        j == if skip_ws_spec(s, i) < i {
            i
        } else {
            skip_ws_spec(s, i)
        },
    ensures
        scan_seg(s, i, j, depth, false, false) == (depth, false, false),
{
    lemma_skip_ws(s, i);
    assert(j == skip_ws_spec(s, i));
    lemma_ws_plain(s, i, j, depth);
}

/// A successfully parsed list remainder is scanner-neutral but for its
/// closing paren.
proof fn lemma_list_rest_neutral(
    s: Seq<char>,
    i: int,
    close: char,
    first: AstModel,
    items: Seq<AstModel>,
    end: int,
    depth: int,
)
    requires
        0 <= i,
        list_rest_spec(s, i, close, first) == Result::<(Seq<AstModel>, int), Seq<char>>::Ok(
            (items, end),
        ),
        close == ')' || close == ']',
    ensures
        scan_seg(s, i, end, depth, false, false) == (
            if close == ')' {
                depth - 1
            } else {
                depth
            },
            false,
            false,
        ),
    decreases s.len() - i, 2int, 1int,
{
    lemma_list_rest_progress(s, i, close, first);
    let j = if skip_ws_spec(s, i) < i {
        i
    } else {
        skip_ws_spec(s, i)
    };
    assert(j < s.len());
    lemma_skip_ws(s, i);
    assert(i <= j);
    lemma_ws_prefix_neutral(s, i, j, depth);
    if s[j] == close {
        assert(end == j + 1);
        lemma_scan_seg_compose(s, i, j, end, depth, false, false);
        assert(scan_seg(s, j, end, depth, false, false) == scan_seg(
            s,
            j + 1,
            end,
            if close == ')' {
                depth - 1
            } else {
                depth
            },
            false,
            false,
        ));
    } else if s[j] == '.' && (j + 1 >= s.len() || is_delim(s[j + 1])) {
        let m = past(s.len() as int, j, skip_ws_spec(s, j + 1));
        match datum_spec(s, m) {
            Result::Ok((d2, p)) => {
                lemma_skip_ws(s, j + 1);
                assert(m == skip_ws_spec(s, j + 1));
                lemma_datum_progress(s, m);
                let q = skip_ws_spec(s, p);
                lemma_skip_ws(s, p);
                assert(q < s.len() && s[q] == close);
                assert(end == q + 1);
                assert(i <= j <= m <= p <= q <= end);
                lemma_scan_seg_compose(s, i, j, end, depth, false, false);
                // The dot and the whitespace before the tail datum are plain.
                assert forall|mm: int| j <= mm < m && mm < s.len() implies !scan_special(
                    #[trigger] s[mm],
                ) by {
                    if mm > j {
                        assert(is_ws(s[mm]));
                    }
                }
                lemma_scan_seg_plain(s, j, m, depth);
                lemma_scan_seg_compose(s, j, m, end, depth, false, false);
                lemma_datum_neutral(s, m, d2, p, depth);
                lemma_scan_seg_compose(s, m, p, end, depth, false, false);
                assert forall|mm: int| p <= mm < q && mm < s.len() implies !scan_special(
                    #[trigger] s[mm],
                ) by {
                    assert(is_ws(s[mm]));
                }
                lemma_scan_seg_plain(s, p, q, depth);
                lemma_scan_seg_compose(s, p, q, end, depth, false, false);
                assert(scan_seg(s, q, end, depth, false, false) == scan_seg(
                    s,
                    q + 1,
                    end,
                    if close == ')' {
                        depth - 1
                    } else {
                        depth
                    },
                    false,
                    false,
                ));
            },
            Result::Err(_) => {
                assert(false);
            },
        }
    } else {
        match datum_spec(s, j) {
            Result::Ok((a, k)) => {
                lemma_datum_progress(s, j);
                assert(past(s.len() as int, j, k) == k);
                match list_rest_spec(s, k, close, a) {
                    Result::Ok((items2, end2)) => {
                        assert(end2 == end);
                        lemma_list_rest_progress(s, k, close, a);
                        lemma_scan_seg_compose(s, i, j, end, depth, false, false);
                        lemma_datum_neutral(s, j, a, k, depth);
                        lemma_scan_seg_compose(s, j, k, end, depth, false, false);
                        lemma_list_rest_neutral(s, k, close, a, items2, end2, depth);
                    },
                    Result::Err(_) => {
                        assert(false);
                    },
                }
            },
            Result::Err(_) => {
                assert(false);
            },
        }
    }
}

/// On success a datum ends strictly after where it began and within bounds.
proof fn lemma_datum_progress(s: Seq<char>, i: int)
    ensures
        datum_spec(s, i) matches Result::Ok((a, j)) ==> i < j <= s.len() && 0 <= i < s.len(),
    decreases s.len() - i, 1int, 2int,
{
    if 0 <= i < s.len() {
        let c = s[i];
        if c == '(' {
            lemma_list_progress(s, i + 1, ')');
        } else if c == '[' {
            lemma_list_progress(s, i + 1, ']');
        } else if c == '"' {
            lemma_strlit_progress(s, i + 1);
        } else if c == '\'' {
            lemma_quotation_progress(s, i, i + 1, "quote"@);
        } else if c == '`' {
            lemma_quotation_progress(s, i, i + 1, "quasiquote"@);
        } else if c == ',' {
            if i + 1 < s.len() && s[i + 1] == '@' {
                lemma_quotation_progress(s, i, i + 2, "unquote-splicing"@);
            } else {
                lemma_quotation_progress(s, i, i + 1, "unquote"@);
            }
        } else if is_digit(c) || ((c == '-' || c == '+') && i + 1 < s.len() && is_digit(
            s[i + 1],
        )) {
            match number_spec(s, i) {
                Result::Ok((a, j)) => {
                    let d0 = if s[i] == '-' || s[i] == '+' {
                        i + 1
                    } else {
                        i
                    };
                    lemma_digits_end(s, d0);
                    if digits_end(s, d0) < s.len() && s[digits_end(s, d0)] == '.' {
                        lemma_digits_end(s, digits_end(s, d0) + 1);
                    }
                },
                Result::Err(_) => {},
            }
        } else if is_symbol_char(c) {
            lemma_symbol_end(s, i);
        }
    }
}

proof fn lemma_quotation_progress(s: Seq<char>, i: int, after: int, name: Seq<char>)
    requires
        0 <= i,
    ensures
        quotation_spec(s, i, after, name) matches Result::Ok((a, j)) ==> i < j <= s.len(),
    decreases s.len() - i, 0int, 3int,
{
    if 0 <= i < s.len() {
        let k = past(s.len() as int, i, skip_ws_spec(s, after));
        lemma_datum_progress(s, k);
    }
}

proof fn lemma_list_progress(s: Seq<char>, i: int, close: char)
    requires
        0 <= i,
    ensures
        list_spec(s, i, close) matches Result::Ok((items, end)) ==> i < end <= s.len(),
    decreases s.len() - i, 2int, 3int,
{
    let j = if skip_ws_spec(s, i) < i {
        i
    } else {
        skip_ws_spec(s, i)
    };
    if j < s.len() {
        if s[j] == close {
            if 0 <= i <= s.len() {
                lemma_skip_ws(s, i);
            }
        } else {
            match datum_spec(s, j) {
                Result::Ok((a, k)) => {
                    lemma_datum_progress(s, j);
                    lemma_list_rest_progress(s, past(s.len() as int, j, k), close, a);
                    if 0 <= i <= s.len() {
                        lemma_skip_ws(s, i);
                    }
                },
                Result::Err(_) => {},
            }
        }
    }
}

proof fn lemma_list_rest_progress(s: Seq<char>, i: int, close: char, first: AstModel)
    requires
        0 <= i,
    ensures
        list_rest_spec(s, i, close, first) matches Result::Ok((items, end)) ==> i < end
            <= s.len(),
    decreases s.len() - i, 2int, 4int,
{
    let j = if skip_ws_spec(s, i) < i {
        i
    } else {
        skip_ws_spec(s, i)
    };
    if j < s.len() {
        if s[j] == close {
            if 0 <= i <= s.len() {
                lemma_skip_ws(s, i);
            }
        } else if s[j] == '.' && (j + 1 >= s.len() || is_delim(s[j + 1])) {
            let m = past(s.len() as int, j, skip_ws_spec(s, j + 1));
            match datum_spec(s, m) {
                Result::Ok((d2, p)) => {
                    lemma_datum_progress(s, m);
                    lemma_skip_ws(s, p);
                    if 0 <= i <= s.len() {
                        lemma_skip_ws(s, i);
                    }
                },
                Result::Err(_) => {},
            }
        } else {
            match datum_spec(s, j) {
                Result::Ok((a, k)) => {
                    lemma_datum_progress(s, j);
                    lemma_list_rest_progress(s, past(s.len() as int, j, k), close, a);
                    if 0 <= i <= s.len() {
                        lemma_skip_ws(s, i);
                    }
                },
                Result::Err(_) => {},
            }
        }
    }
}

/// A complete single-expression parse leaves the scanner balanced: the scan
/// of the whole input from a fresh state ends at depth zero, outside any
/// string, with no escape pending.
pub proof fn lemma_parse_one_balanced(t: Seq<char>)
    requires
        parse_one_spec(t) is Ok,
    ensures
        scan_state(t, 0, 0, false, false) == (0int, false, false),
{
    let i = skip_ws_spec(t, 0);
    lemma_skip_ws(t, 0);
    match datum_spec(t, i) {
        Result::Ok((a, j)) => {
            lemma_datum_progress(t, i);
            let k = skip_ws_spec(t, j);
            lemma_skip_ws(t, j);
            assert(k == t.len());
            lemma_scan_state_is_seg(t, 0, 0, false, false);
            lemma_ws_plain(t, 0, i, 0);
            lemma_scan_seg_compose(t, 0, i, t.len() as int, 0, false, false);
            lemma_datum_neutral(t, i, a, j, 0);
            lemma_scan_seg_compose(t, i, j, t.len() as int, 0, false, false);
            lemma_ws_plain(t, j, k, 0);
        },
        Result::Err(_) => {
            assert(false);
        },
    }
}

} // verus!
