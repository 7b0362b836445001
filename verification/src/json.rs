//! The grammar of configuration source texts, and its parser and
//! printer.
//!
//! A source is a JSON-shaped text: `null`, `true`, `false`, decimal
//! integers, double-quoted strings, arrays in brackets and
//! string-keyed objects in braces, with blanks, tabs and line breaks
//! allowed between tokens.  A duplicated object key keeps the binding
//! written last.  Strings are read verbatim, with no escape
//! sequences: a string may hold any character except a double quote,
//! a backslash or a control character — exactly the characters a JSON
//! string carries unescaped — so the canonical text the printer emits
//! for a well-formed value is itself valid JSON.
//!
//! The whole grammar is first written down as specification functions
//! over `Seq<char>`; the executable parser and printer are proved to
//! return exactly what those functions say.  Both are total: the spec
//! parser is a function, so one text parses to one value — the loader's
//! determinism rests on this.

use vstd::prelude::*;

use crate::value::lemma_model_elems_len;
use crate::value::lemma_model_elems_push;
use crate::value::lemma_model_fields_len;
use crate::value::lemma_model_fields_push;
use crate::value::model_elems;
use crate::value::upsert_field;
use crate::value::model_fields;
use crate::value::upsert_model;
use crate::value::ConfigValue;
use crate::value::ValModel;

verus! {

/// A blank character: space, tab, carriage return or line break.
pub open spec fn is_ws_char(c: char) -> bool {
    c == ' ' || c == '\n' || c == '\t' || c == '\r'
}

/// A character a string may carry: anything but a double quote, a
/// backslash or a control character — exactly the characters a JSON
/// string holds without an escape sequence.
pub open spec fn is_clean_char(c: char) -> bool {
    c != '"' && c != '\\' && c as int >= 32
}

/// A text whose every character a string may carry.
pub open spec fn clean_text(cs: Seq<char>) -> bool {
    forall|k: int| 0 <= k < cs.len() ==> is_clean_char(#[trigger] cs[k])
}

/// A decimal digit.
pub open spec fn is_digit_char(c: char) -> bool {
    48 <= c as int <= 57
}

/// The numeric value of a decimal digit.
pub open spec fn digit_val(c: char) -> int {
    c as int - 48
}

/// What one step of parsing yields: a result together with the
/// position just past it, or the position where the text went wrong.
pub enum Parsed<T> {
    Found { v: T, next: int },
    Fail { at: int },
}

/// The position of the first non-blank character at or after `i`.
pub open spec fn skip_ws(s: Seq<char>, i: int) -> int
    decreases s.len() - i,
{
    if 0 <= i < s.len() && is_ws_char(s[i]) {
        skip_ws(s, i + 1)
    } else {
        i
    }
}

/// `skip_ws`, clamped into `[i, s.len()]` so that every caller can see
/// it never moves backwards.
pub open spec fn ws_end(s: Seq<char>, i: int) -> int {
    let k = skip_ws(s, i);
    if k < i {
        i
    } else if k > s.len() {
        s.len() as int
    } else {
        k
    }
}

pub proof fn lemma_skip_ws_bounds(s: Seq<char>, i: int)
    requires
        0 <= i <= s.len(),
    ensures
        i <= skip_ws(s, i) <= s.len(),
        ws_end(s, i) == skip_ws(s, i),
    decreases s.len() - i,
{
    if i < s.len() && is_ws_char(s[i]) {
        lemma_skip_ws_bounds(s, i + 1);
    }
}

/// The continuation position after a sub-parse that reported `n`:
/// `n` itself where it lies properly past `i`, and the next position
/// otherwise.  The parser's progress lemmas show the fallback is never
/// taken; it only makes termination of the definitions plain.
pub open spec fn adv(s: Seq<char>, i: int, n: int) -> int {
    if i < n <= s.len() + 1 {
        n
    } else {
        i + 1
    }
}

/// The body of a quoted string from `i` up to the closing quote; a
/// character a string may not carry fails the parse where it stands.
pub open spec fn spec_str_body(s: Seq<char>, i: int) -> Parsed<Seq<char>>
    decreases s.len() - i,
{
    if !(0 <= i < s.len()) {
        Parsed::Fail { at: s.len() as int }
    } else if s[i] == '"' {
        Parsed::Found { v: Seq::empty(), next: i + 1 }
    } else if !is_clean_char(s[i]) {
        Parsed::Fail { at: i }
    } else {
        match spec_str_body(s, i + 1) {
            Parsed::Found { v, next } => Parsed::Found { v: seq![s[i]] + v, next },
            Parsed::Fail { at } => Parsed::Fail { at },
        }
    }
}

/// A quoted string at `i`.
pub open spec fn spec_string(s: Seq<char>, i: int) -> Parsed<Seq<char>> {
    if 0 <= i < s.len() && s[i] == '"' {
        spec_str_body(s, i + 1)
    } else {
        Parsed::Fail { at: i }
    }
}

/// Reads digits from `i`, folding them onto `acc`; stops at the first
/// non-digit and reports the value and that position.
pub open spec fn spec_more_digits(s: Seq<char>, i: int, acc: int) -> (int, int)
    decreases s.len() - i,
{
    if 0 <= i < s.len() && is_digit_char(s[i]) {
        spec_more_digits(s, i + 1, acc * 10 + digit_val(s[i]))
    } else {
        (acc, i)
    }
}

/// A decimal integer at `i`: an optional minus sign and one or more
/// digits, failing where the value does not fit an `i64`.
pub open spec fn spec_number(s: Seq<char>, i: int) -> Parsed<ValModel> {
    if 0 <= i < s.len() && s[i] == '-' {
        if i + 1 < s.len() && is_digit_char(s[i + 1]) {
            let p = spec_more_digits(s, i + 1, 0);
            if -p.0 >= i64::MIN as int {
                Parsed::Found { v: ValModel::Int(-p.0), next: p.1 }
            } else {
                Parsed::Fail { at: i }
            }
        } else {
            Parsed::Fail { at: i }
        }
    } else if 0 <= i < s.len() && is_digit_char(s[i]) {
        let p = spec_more_digits(s, i, 0);
        if p.0 <= i64::MAX as int {
            Parsed::Found { v: ValModel::Int(p.0), next: p.1 }
        } else {
            Parsed::Fail { at: i }
        }
    } else {
        Parsed::Fail { at: i }
    }
}

/// A value at `i`: blanks, then one of the grammar's six forms.
pub open spec fn spec_value(s: Seq<char>, i: int) -> Parsed<ValModel>
    decreases s.len() + 1 - i, 0int,
{
    if !(0 <= i <= s.len()) {
        Parsed::Fail { at: i }
    } else {
        let j = ws_end(s, i);
        if j >= s.len() {
            Parsed::Fail { at: j }
        } else if s[j] == 'n' {
            if j + 4 <= s.len() && s[j + 1] == 'u' && s[j + 2] == 'l' && s[j + 3] == 'l' {
                Parsed::Found { v: ValModel::Null, next: j + 4 }
            } else {
                Parsed::Fail { at: j }
            }
        } else if s[j] == 't' {
            if j + 4 <= s.len() && s[j + 1] == 'r' && s[j + 2] == 'u' && s[j + 3] == 'e' {
                Parsed::Found { v: ValModel::Bool(true), next: j + 4 }
            } else {
                Parsed::Fail { at: j }
            }
        } else if s[j] == 'f' {
            if j + 5 <= s.len() && s[j + 1] == 'a' && s[j + 2] == 'l' && s[j + 3] == 's' && s[j + 4]
                == 'e' {
                Parsed::Found { v: ValModel::Bool(false), next: j + 5 }
            } else {
                Parsed::Fail { at: j }
            }
        } else if s[j] == '"' {
            match spec_string(s, j) {
                Parsed::Found { v, next } => Parsed::Found { v: ValModel::Str(v), next },
                Parsed::Fail { at } => Parsed::Fail { at },
            }
        } else if s[j] == '-' || is_digit_char(s[j]) {
            spec_number(s, j)
        } else if s[j] == '[' {
            match spec_elems(s, j + 1) {
                Parsed::Found { v, next } => Parsed::Found { v: ValModel::Arr(v), next },
                Parsed::Fail { at } => Parsed::Fail { at },
            }
        } else if s[j] == '{' {
            match spec_fields(s, j + 1) {
                Parsed::Found { v, next } => Parsed::Found { v: ValModel::Obj(v), next },
                Parsed::Fail { at } => Parsed::Fail { at },
            }
        } else {
            Parsed::Fail { at: j }
        }
    }
}

/// One `key: value` member of an object, at `i`.
pub open spec fn spec_member(s: Seq<char>, i: int) -> Parsed<(Seq<char>, ValModel)>
    decreases s.len() + 1 - i, 0int,
{
    if !(0 <= i <= s.len()) {
        Parsed::Fail { at: i }
    } else {
        let k = ws_end(s, i);
        match spec_string(s, k) {
            Parsed::Fail { at } => Parsed::Fail { at },
            Parsed::Found { v: key, next: kn } => {
                let c = ws_end(s, adv(s, k, kn));
                if c < s.len() && s[c] == ':' {
                    match spec_value(s, c + 1) {
                        Parsed::Found { v, next } => Parsed::Found { v: (key, v), next },
                        Parsed::Fail { at } => Parsed::Fail { at },
                    }
                } else {
                    Parsed::Fail { at: c }
                }
            },
        }
    }
}

/// The elements of an array, entered just past the opening bracket.
pub open spec fn spec_elems(s: Seq<char>, i: int) -> Parsed<Seq<ValModel>>
    decreases s.len() + 1 - i, 1int,
{
    if !(0 <= i <= s.len()) {
        Parsed::Fail { at: i }
    } else {
        let j = ws_end(s, i);
        if j < s.len() && s[j] == ']' {
            Parsed::Found { v: Seq::empty(), next: j + 1 }
        } else {
            match spec_value(s, i) {
                Parsed::Found { v, next } => spec_more_elems(s, adv(s, i, next), seq![v]),
                Parsed::Fail { at } => Parsed::Fail { at },
            }
        }
    }
}

/// The elements of an array after the first, each behind a comma.
pub open spec fn spec_more_elems(s: Seq<char>, i: int, acc: Seq<ValModel>) -> Parsed<Seq<ValModel>>
    decreases s.len() + 1 - i, 1int,
{
    if !(0 <= i <= s.len()) {
        Parsed::Fail { at: i }
    } else {
        let j = ws_end(s, i);
        if j >= s.len() {
            Parsed::Fail { at: j }
        } else if s[j] == ']' {
            Parsed::Found { v: acc, next: j + 1 }
        } else if s[j] == ',' {
            match spec_value(s, j + 1) {
                Parsed::Found { v, next } => spec_more_elems(s, adv(s, j + 1, next), acc.push(v)),
                Parsed::Fail { at } => Parsed::Fail { at },
            }
        } else {
            Parsed::Fail { at: j }
        }
    }
}

/// The members of an object, entered just past the opening brace.
pub open spec fn spec_fields(s: Seq<char>, i: int) -> Parsed<Seq<(Seq<char>, ValModel)>>
    decreases s.len() + 1 - i, 1int,
{
    if !(0 <= i <= s.len()) {
        Parsed::Fail { at: i }
    } else {
        let j = ws_end(s, i);
        if j < s.len() && s[j] == '}' {
            Parsed::Found { v: Seq::empty(), next: j + 1 }
        } else {
            match spec_member(s, i) {
                Parsed::Found { v, next } => spec_more_fields(s, adv(s, i, next), seq![v]),
                Parsed::Fail { at } => Parsed::Fail { at },
            }
        }
    }
}

/// The members of an object after the first, each behind a comma; a
/// repeated key keeps the binding written last.
pub open spec fn spec_more_fields(
    s: Seq<char>,
    i: int,
    acc: Seq<(Seq<char>, ValModel)>,
) -> Parsed<Seq<(Seq<char>, ValModel)>>
    decreases s.len() + 1 - i, 1int,
{
    if !(0 <= i <= s.len()) {
        Parsed::Fail { at: i }
    } else {
        let j = ws_end(s, i);
        if j >= s.len() {
            Parsed::Fail { at: j }
        } else if s[j] == '}' {
            Parsed::Found { v: acc, next: j + 1 }
        } else if s[j] == ',' {
            match spec_member(s, j + 1) {
                Parsed::Found { v, next } => spec_more_fields(
                    s,
                    adv(s, j + 1, next),
                    upsert_model(acc, v.0, v.1),
                ),
                Parsed::Fail { at } => Parsed::Fail { at },
            }
        } else {
            Parsed::Fail { at: j }
        }
    }
}

/// Where the scan from `i` crosses only carryable characters and
/// meets a closing quote at `k`, the string body is exactly the
/// characters between.
pub proof fn lemma_str_body_closed(s: Seq<char>, i: int, k: int)
    requires
        0 <= i <= k < s.len(),
        forall|m: int| i <= m < k ==> is_clean_char(#[trigger] s[m]),
        s[k] == '"',
    ensures
        spec_str_body(s, i) == (Parsed::Found { v: s.subrange(i, k), next: k + 1 }),
    decreases k - i,
{
    if i == k {
        assert(s.subrange(i, k) =~= Seq::<char>::empty());
    } else {
        lemma_str_body_closed(s, i + 1, k);
        assert(seq![s[i]] + s.subrange(i + 1, k) =~= s.subrange(i, k));
    }
}

/// Where only carryable characters and no closing quote follow `i`,
/// the string body fails at the end of the text.
pub proof fn lemma_str_body_open(s: Seq<char>, i: int)
    requires
        0 <= i <= s.len(),
        forall|m: int| i <= m < s.len() ==> is_clean_char(#[trigger] s[m]),
    ensures
        spec_str_body(s, i) == (Parsed::<Seq<char>>::Fail { at: s.len() as int }),
    decreases s.len() - i,
{
    if i < s.len() {
        lemma_str_body_open(s, i + 1);
    }
}

/// Where the scan from `i` crosses only carryable characters and then
/// meets one a string may not carry, the string body fails there.
pub proof fn lemma_str_body_stopped(s: Seq<char>, i: int, k: int)
    requires
        0 <= i <= k < s.len(),
        forall|m: int| i <= m < k ==> is_clean_char(#[trigger] s[m]),
        s[k] != '"',
        !is_clean_char(s[k]),
    ensures
        spec_str_body(s, i) == (Parsed::<Seq<char>>::Fail { at: k }),
    decreases k - i,
{
    if i < k {
        lemma_str_body_stopped(s, i + 1, k);
    }
}

/// A whole source text: one value, with nothing but blanks after it.
pub open spec fn spec_doc(s: Seq<char>) -> Parsed<ValModel> {
    match spec_value(s, 0) {
        Parsed::Fail { at } => Parsed::Fail { at },
        Parsed::Found { v, next } => {
            let e = ws_end(s, next);
            if e == s.len() {
                Parsed::Found { v, next: e }
            } else {
                Parsed::Fail { at: e }
            }
        },
    }
}

/// A syntax error in a source text, at a character offset.
#[derive(Clone, Copy, Debug, PartialEq, Eq, Structural)]
pub struct ParseError {
    pub at: usize,
}

fn is_ws(c: char) -> (r: bool)
    ensures
        r == is_ws_char(c),
{
    c == ' ' || c == '\n' || c == '\t' || c == '\r'
}

fn is_digit(c: char) -> (r: bool)
    ensures
        r == is_digit_char(c),
{
    let d = c as u32;
    48 <= d && d <= 57
}

fn is_clean(c: char) -> (r: bool)
    ensures
        r == is_clean_char(c),
{
    c != '"' && c != '\\' && c as u32 >= 32
}

/// The characters of a text, in order.
pub fn str_to_chars(s: &str) -> (r: Vec<char>)
    ensures
        r@ == s@,
{
    let n = s.unicode_len();
    let mut out: Vec<char> = Vec::new();
    let mut i: usize = 0;
    while i < n
        invariant
            n == s@.len(),
            0 <= i <= n,
            out@ =~= s@.subrange(0, i as int),
        decreases n - i,
    {
        out.push(s.get_char(i));
        i = i + 1;
    }
    proof {
        assert(out@ =~= s@);
    }
    out
}

/// Relies on `String::from_iter` over characters: the string holds
/// exactly the given characters, in order.
#[verifier::external_body]
fn chars_to_string(v: &Vec<char>) -> (r: String)
    ensures
        r@ == v@,
{
    v.iter().collect()
}

fn ws_end_exec(s: &Vec<char>, i: usize) -> (j: usize)
    requires
        i <= s.len(),
    ensures
        j as int == ws_end(s@, i as int),
        i <= j <= s.len(),
{
    let n = s.len();
    let mut j: usize = i;
    while j < n && is_ws(s[j])
        invariant
            n == s.len(),
            i <= j <= n,
            skip_ws(s@, i as int) == skip_ws(s@, j as int),
        decreases n - j,
    {
        j = j + 1;
    }
    proof {
        assert(skip_ws(s@, j as int) == j as int);
        lemma_skip_ws_bounds(s@, i as int);
    }
    j
}

/// Reads a quoted string at `i`; the returned string is the body, the
/// position the one past the closing quote.
fn parse_string_at(s: &Vec<char>, i: usize) -> (r: Result<(String, usize), ParseError>)
    requires
        i <= s.len(),
    ensures
        match r {
            Ok(p) => spec_string(s@, i as int) == (Parsed::Found {
                v: p.0@,
                next: p.1 as int,
            }) && i < p.1 <= s.len(),
            Err(e) => spec_string(s@, i as int) == (Parsed::<Seq<char>>::Fail {
                at: e.at as int,
            }),
        },
{
    let n = s.len();
    if i >= n || s[i] != '"' {
        return Err(ParseError { at: i });
    }
    let mut out: Vec<char> = Vec::new();
    let mut k: usize = i + 1;
    while k < n && is_clean(s[k])
        invariant
            n == s.len(),
            i + 1 <= k <= n,
            i < n,
            s@[i as int] == '"',
            out@ =~= s@.subrange(i + 1, k as int),
            forall|m: int| i + 1 <= m < k ==> is_clean_char(#[trigger] s@[m]),
        decreases n - k,
    {
        out.push(s[k]);
        k = k + 1;
    }
    if k >= n {
        proof {
            lemma_str_body_open(s@, i + 1);
        }
        return Err(ParseError { at: n });
    }
    if s[k] != '"' {
        proof {
            lemma_str_body_stopped(s@, i + 1, k as int);
        }
        return Err(ParseError { at: k });
    }
    proof {
        lemma_str_body_closed(s@, i + 1, k as int);
    }
    let text = chars_to_string(&out);
    Ok((text, k + 1))
}

/// Reads a decimal integer at `i`.
fn parse_number_at(s: &Vec<char>, i: usize) -> (r: Result<(i64, usize), ParseError>)
    requires
        i < s.len(),
        s@[i as int] == '-' || is_digit_char(s@[i as int]),
    ensures
        match r {
            Ok(p) => spec_number(s@, i as int) == (Parsed::Found {
                v: ValModel::Int(p.0 as int),
                next: p.1 as int,
            }) && i < p.1 <= s.len(),
            Err(e) => spec_number(s@, i as int) == (Parsed::<ValModel>::Fail {
                at: e.at as int,
            }),
        },
{
    let n = s.len();
    let negative = s[i] == '-';
    let d0: usize = if negative {
        i + 1
    } else {
        i
    };
    if d0 >= n || !is_digit(s[d0]) {
        return Err(ParseError { at: i });
    }
    let mut k: usize = d0;
    let mut acc: u64 = 0;
    let ghost mut g: int = 0int;
    let mut over: bool = false;
    while k < n && is_digit(s[k])
        invariant
            n == s.len(),
            d0 <= k <= n,
            g >= 0,
            spec_more_digits(s@, d0 as int, 0) == spec_more_digits(s@, k as int, g),
            !over ==> acc as int == g,
            over ==> g > u64::MAX as int,
        decreases n - k,
    {
        let d: u64 = (s[k] as u32 as u64) - 48;
        proof {
            assert(d as int == digit_val(s@[k as int]));
        }
        if !over {
            match acc.checked_mul(10) {
                Some(x) => match x.checked_add(d) {
                    Some(y) => {
                        acc = y;
                    },
                    None => {
                        over = true;
                    },
                },
                None => {
                    over = true;
                },
            }
        }
        proof {
            g = g * 10 + digit_val(s@[k as int]);
        }
        k = k + 1;
    }
    proof {
        assert(spec_more_digits(s@, k as int, g) == (g, k as int));
    }
    if negative {
        if over || acc > 9223372036854775808u64 {
            return Err(ParseError { at: i });
        }
        let v: i64 = if acc == 9223372036854775808u64 {
            i64::MIN
        } else {
            -(acc as i64)
        };
        Ok((v, k))
    } else {
        if over || acc > i64::MAX as u64 {
            return Err(ParseError { at: i });
        }
        Ok((acc as i64, k))
    }
}

/// Reads one value at `i`, exactly as `spec_value` says.
pub fn parse_value(s: &Vec<char>, i: usize) -> (r: Result<(ConfigValue, usize), ParseError>)
    requires
        i <= s.len(),
    ensures
        match r {
            Ok(p) => spec_value(s@, i as int) == (Parsed::Found {
                v: p.0.model(),
                next: p.1 as int,
            }) && i < p.1 <= s.len(),
            Err(e) => spec_value(s@, i as int) == (Parsed::<ValModel>::Fail {
                at: e.at as int,
            }),
        },
    decreases s@.len() + 1 - i, 0int,
{
    let n = s.len();
    let j = ws_end_exec(s, i);
    if j >= n {
        return Err(ParseError { at: j });
    }
    let c = s[j];
    if c == 'n' {
        if n - j >= 4 && s[j + 1] == 'u' && s[j + 2] == 'l' && s[j + 3] == 'l' {
            Ok((ConfigValue::Null, j + 4))
        } else {
            Err(ParseError { at: j })
        }
    } else if c == 't' {
        if n - j >= 4 && s[j + 1] == 'r' && s[j + 2] == 'u' && s[j + 3] == 'e' {
            Ok((ConfigValue::Bool(true), j + 4))
        } else {
            Err(ParseError { at: j })
        }
    } else if c == 'f' {
        if n - j >= 5 && s[j + 1] == 'a' && s[j + 2] == 'l' && s[j + 3] == 's' && s[j + 4] == 'e' {
            Ok((ConfigValue::Bool(false), j + 5))
        } else {
            Err(ParseError { at: j })
        }
    } else if c == '"' {
        match parse_string_at(s, j) {
            Ok((text, next)) => Ok((ConfigValue::Str(text), next)),
            Err(e) => Err(e),
        }
    } else if c == '-' || is_digit(c) {
        match parse_number_at(s, j) {
            Ok((v, next)) => Ok((ConfigValue::Int(v), next)),
            Err(e) => Err(e),
        }
    } else if c == '[' {
        match parse_elems(s, j + 1) {
            Ok((items, next)) => Ok((ConfigValue::Arr(items), next)),
            Err(e) => Err(e),
        }
    } else if c == '{' {
        match parse_fields(s, j + 1) {
            Ok((fields, next)) => Ok((ConfigValue::Obj(fields), next)),
            Err(e) => Err(e),
        }
    } else {
        Err(ParseError { at: j })
    }
}

/// Reads the elements of an array, entered just past the bracket.
fn parse_elems(s: &Vec<char>, i: usize) -> (r: Result<(Vec<ConfigValue>, usize), ParseError>)
    requires
        i <= s.len(),
    ensures
        match r {
            Ok(p) => spec_elems(s@, i as int) == (Parsed::Found {
                v: model_elems(p.0@),
                next: p.1 as int,
            }) && i < p.1 <= s.len(),
            Err(e) => spec_elems(s@, i as int) == (Parsed::<Seq<ValModel>>::Fail {
                at: e.at as int,
            }),
        },
    decreases s@.len() + 1 - i, 1int,
{
    let n = s.len();
    let j = ws_end_exec(s, i);
    if j < n && s[j] == ']' {
        let items: Vec<ConfigValue> = Vec::new();
        proof {
            assert(model_elems(items@) =~= Seq::<ValModel>::empty());
        }
        return Ok((items, j + 1));
    }
    match parse_value(s, i) {
        Err(e) => Err(e),
        Ok((v0, first_end)) => {
            let mut items: Vec<ConfigValue> = Vec::new();
            let ghost m0 = v0.model();
            proof {
                assert(model_elems(items@) =~= Seq::<ValModel>::empty());
                lemma_model_elems_push(items@, v0);
            }
            items.push(v0);
            let mut cur: usize = first_end;
            proof {
                assert(model_elems(items@) =~= seq![m0]);
            }
            loop
                invariant
                    n == s.len(),
                    i < cur <= n,
                    spec_elems(s@, i as int) == spec_more_elems(
                        s@,
                        cur as int,
                        model_elems(items@),
                    ),
                decreases n - cur,
            {
                let j2 = ws_end_exec(s, cur);
                if j2 >= n {
                    return Err(ParseError { at: j2 });
                }
                if s[j2] == ']' {
                    return Ok((items, j2 + 1));
                }
                if s[j2] != ',' {
                    return Err(ParseError { at: j2 });
                }
                match parse_value(s, j2 + 1) {
                    Err(e) => {
                        return Err(e);
                    },
                    Ok((v, nx)) => {
                        proof {
                            lemma_model_elems_push(items@, v);
                        }
                        items.push(v);
                        cur = nx;
                    },
                }
            }
        },
    }
}

/// Reads one `key: value` member of an object at `i`.
fn parse_member(s: &Vec<char>, i: usize) -> (r: Result<
    ((String, ConfigValue), usize),
    ParseError,
>)
    requires
        i <= s.len(),
    ensures
        match r {
            Ok(p) => spec_member(s@, i as int) == (Parsed::Found {
                v: (p.0.0@, p.0.1.model()),
                next: p.1 as int,
            }) && i < p.1 <= s.len(),
            Err(e) => spec_member(s@, i as int) == (Parsed::<(Seq<char>, ValModel)>::Fail {
                at: e.at as int,
            }),
        },
    decreases s@.len() + 1 - i, 0int,
{
    let n = s.len();
    let k = ws_end_exec(s, i);
    match parse_string_at(s, k) {
        Err(e) => Err(e),
        Ok((key, kn)) => {
            let c = ws_end_exec(s, kn);
            if c < n && s[c] == ':' {
                match parse_value(s, c + 1) {
                    Ok((v, next)) => Ok(((key, v), next)),
                    Err(e) => Err(e),
                }
            } else {
                Err(ParseError { at: c })
            }
        },
    }
}

/// Reads the members of an object, entered just past the brace.
fn parse_fields(s: &Vec<char>, i: usize) -> (r: Result<
    (Vec<(String, ConfigValue)>, usize),
    ParseError,
>)
    requires
        i <= s.len(),
    ensures
        match r {
            Ok(p) => spec_fields(s@, i as int) == (Parsed::Found {
                v: model_fields(p.0@),
                next: p.1 as int,
            }) && i < p.1 <= s.len(),
            Err(e) => spec_fields(s@, i as int) == (Parsed::<Seq<(Seq<char>, ValModel)>>::Fail {
                at: e.at as int,
            }),
        },
    decreases s@.len() + 1 - i, 1int,
{
    let n = s.len();
    let j = ws_end_exec(s, i);
    if j < n && s[j] == '}' {
        let fields: Vec<(String, ConfigValue)> = Vec::new();
        proof {
            assert(model_fields(fields@) =~= Seq::<(Seq<char>, ValModel)>::empty());
        }
        return Ok((fields, j + 1));
    }
    match parse_member(s, i) {
        Err(e) => Err(e),
        Ok(((key0, v0), first_end)) => {
            let mut fields: Vec<(String, ConfigValue)> = Vec::new();
            let ghost k0 = key0@;
            let ghost m0 = v0.model();
            proof {
                assert(model_fields(fields@) =~= Seq::<(Seq<char>, ValModel)>::empty());
                lemma_model_fields_push(fields@, key0, v0);
            }
            fields.push((key0, v0));
            let mut cur: usize = first_end;
            proof {
                assert(model_fields(fields@) =~= seq![(k0, m0)]);
            }
            loop
                invariant
                    n == s.len(),
                    i < cur <= n,
                    spec_fields(s@, i as int) == spec_more_fields(
                        s@,
                        cur as int,
                        model_fields(fields@),
                    ),
                decreases n - cur,
            {
                let j2 = ws_end_exec(s, cur);
                if j2 >= n {
                    return Err(ParseError { at: j2 });
                }
                if s[j2] == '}' {
                    return Ok((fields, j2 + 1));
                }
                if s[j2] != ',' {
                    return Err(ParseError { at: j2 });
                }
                match parse_member(s, j2 + 1) {
                    Err(e) => {
                        return Err(e);
                    },
                    Ok(((key, v), nx)) => {
                        upsert_field(&mut fields, key, v);
                        cur = nx;
                    },
                }
            }
        },
    }
}

/// Parses a whole source text, exactly as `spec_doc` says: the parsed
/// value where the text is one well-formed value with only blanks
/// around it, and the offset of the first offending character
/// otherwise.
pub fn parse_text(s: &str) -> (r: Result<ConfigValue, ParseError>)
    ensures
        match r {
            Ok(v) => spec_doc(s@) == (Parsed::Found { v: v.model(), next: s@.len() as int })
                && wf_model(v.model()),
            Err(e) => spec_doc(s@) == (Parsed::<ValModel>::Fail { at: e.at as int }),
        },
{
    let chars = str_to_chars(s);
    match parse_value(&chars, 0) {
        Err(e) => Err(e),
        Ok((v, next)) => {
            let e2 = ws_end_exec(&chars, next);
            if e2 == chars.len() {
                proof {
                    lemma_parsed_is_wf(s@);
                }
                Ok(v)
            } else {
                Err(ParseError { at: e2 })
            }
        },
    }
}

/// The character of one decimal digit.
pub open spec fn digit_char(d: int) -> char {
    if d == 0 {
        '0'
    } else if d == 1 {
        '1'
    } else if d == 2 {
        '2'
    } else if d == 3 {
        '3'
    } else if d == 4 {
        '4'
    } else if d == 5 {
        '5'
    } else if d == 6 {
        '6'
    } else if d == 7 {
        '7'
    } else if d == 8 {
        '8'
    } else {
        '9'
    }
}

/// The decimal digits of `n`, most significant first.
pub open spec fn dec_digits(n: nat) -> Seq<char>
    decreases n,
{
    if n < 10 {
        seq![digit_char(n as int)]
    } else {
        dec_digits(n / 10).push(digit_char((n % 10) as int))
    }
}

/// The canonical text of a value: no blanks, strings verbatim.
pub open spec fn spec_ser(m: ValModel) -> Seq<char>
    decreases m, 0int,
{
    match m {
        ValModel::Null => seq!['n', 'u', 'l', 'l'],
        ValModel::Bool(b) => if b {
            seq!['t', 'r', 'u', 'e']
        } else {
            seq!['f', 'a', 'l', 's', 'e']
        },
        ValModel::Int(i) => if i < 0 {
            seq!['-'] + dec_digits((-i) as nat)
        } else {
            dec_digits(i as nat)
        },
        ValModel::Str(cs) => seq!['"'] + cs + seq!['"'],
        ValModel::Arr(es) => seq!['['] + ser_elems(es, 0) + seq![']'],
        ValModel::Obj(fs) => seq!['{'] + ser_fields(fs, 0) + seq!['}'],
    }
}

/// The texts of the elements from `from` on, separated by commas.
pub open spec fn ser_elems(es: Seq<ValModel>, from: int) -> Seq<char>
    decreases es, es.len() - from,
{
    if !(0 <= from < es.len()) {
        Seq::empty()
    } else if from == 0 {
        spec_ser(es[0]) + ser_elems(es, 1)
    } else {
        seq![','] + spec_ser(es[from]) + ser_elems(es, from + 1)
    }
}

/// The texts of the members from `from` on, separated by commas.
pub open spec fn ser_fields(fs: Seq<(Seq<char>, ValModel)>, from: int) -> Seq<char>
    decreases fs, fs.len() - from,
{
    if !(0 <= from < fs.len()) {
        Seq::empty()
    } else if from == 0 {
        ser_member(fs[0]) + ser_fields(fs, 1)
    } else {
        seq![','] + ser_member(fs[from]) + ser_fields(fs, from + 1)
    }
}

/// The text of one object member.
pub open spec fn ser_member(f: (Seq<char>, ValModel)) -> Seq<char>
    decreases f, 1int,
{
    seq!['"'] + f.0 + seq!['"', ':'] + spec_ser(f.1)
}

fn digit_to_char(d: u64) -> (c: char)
    requires
        d < 10,
    ensures
        c == digit_char(d as int),
{
    if d == 0 {
        '0'
    } else if d == 1 {
        '1'
    } else if d == 2 {
        '2'
    } else if d == 3 {
        '3'
    } else if d == 4 {
        '4'
    } else if d == 5 {
        '5'
    } else if d == 6 {
        '6'
    } else if d == 7 {
        '7'
    } else if d == 8 {
        '8'
    } else {
        '9'
    }
}

fn push_dec(n: u64, out: &mut Vec<char>)
    ensures
        final(out)@ == old(out)@ + dec_digits(n as nat),
    decreases n,
{
    if n < 10 {
        out.push(digit_to_char(n));
    } else {
        push_dec(n / 10, out);
        out.push(digit_to_char(n % 10));
        proof {
            assert(old(out)@ + dec_digits((n / 10) as nat).push(digit_char((n % 10) as int)) =~= (
            old(out)@ + dec_digits((n / 10) as nat)).push(digit_char((n % 10) as int)));
        }
    }
}

/// Writes the canonical text of `v` onto `out`.
#[verifier::loop_isolation(false)]
#[verifier::rlimit(60)]
fn write_value(v: &ConfigValue, out: &mut Vec<char>)
    ensures
        final(out)@ == old(out)@ + spec_ser(v.model()),
    decreases v, 0int,
{
    match v {
        ConfigValue::Null => {
            out.push('n');
            out.push('u');
            out.push('l');
            out.push('l');
            proof {
                assert(out@ =~= old(out)@ + seq!['n', 'u', 'l', 'l']);
            }
        },
        ConfigValue::Bool(b) => {
            if *b {
                out.push('t');
                out.push('r');
                out.push('u');
                out.push('e');
                proof {
                    assert(out@ =~= old(out)@ + seq!['t', 'r', 'u', 'e']);
                }
            } else {
                out.push('f');
                out.push('a');
                out.push('l');
                out.push('s');
                out.push('e');
                proof {
                    assert(out@ =~= old(out)@ + seq!['f', 'a', 'l', 's', 'e']);
                }
            }
        },
        ConfigValue::Int(x) => {
            let i = *x;
            if i >= 0 {
                push_dec(i as u64, out);
            } else {
                out.push('-');
                let mag: u64 = ((-(i + 1)) as u64) + 1;
                proof {
                    assert(mag as int == -(i as int));
                }
                push_dec(mag, out);
                proof {
                    assert(old(out)@.push('-') + dec_digits(mag as nat) =~= old(out)@ + (
                    seq!['-'] + dec_digits(mag as nat)));
                }
            }
        },
        ConfigValue::Str(text) => {
            out.push('"');
            push_chars(text, out);
            out.push('"');
            proof {
                assert(out@ =~= old(out)@ + (seq!['"'] + text@ + seq!['"']));
            }
        },
        ConfigValue::Arr(items) => {
            let ghost es = model_elems(items@);
            proof {
                lemma_model_elems_len(items@);
            }
            out.push('[');
            let ghost base = out@;
            let n = items.len();
            let mut i: usize = 0;
            while i < n
                invariant
                    n == items.len(),
                    0 <= i <= n,
                    es == model_elems(items@),
                    es.len() == n,
                    forall|j: int| 0 <= j < n ==> es[j] == items@[j].model(),
                    out@ + ser_elems(es, i as int) =~= base + ser_elems(es, 0),
                decreases n - i,
            {
                let ghost prev = out@;
                if i > 0 {
                    out.push(',');
                }
                write_value(&items[i], out);
                proof {
                    if i == 0 {
                        assert(out@ + ser_elems(es, 1) =~= prev + ser_elems(es, 0));
                    } else {
                        assert(out@ + ser_elems(es, i + 1) =~= prev + ser_elems(es, i as int));
                    }
                }
                i = i + 1;
            }
            out.push(']');
            proof {
                assert(ser_elems(es, n as int) =~= Seq::<char>::empty());
                assert(base =~= old(out)@.push('['));
                assert(out@ =~= old(out)@ + (seq!['['] + ser_elems(es, 0) + seq![']']));
            }
        },
        ConfigValue::Obj(fields) => {
            let ghost fs = model_fields(fields@);
            proof {
                lemma_model_fields_len(fields@);
            }
            out.push('{');
            let ghost base = out@;
            let n = fields.len();
            let mut i: usize = 0;
            while i < n
                invariant
                    n == fields.len(),
                    0 <= i <= n,
                    fs == model_fields(fields@),
                    fs.len() == n,
                    forall|j: int| 0 <= j < n ==> fs[j] == (fields@[j].0@, fields@[j].1.model()),
                    out@ + ser_fields(fs, i as int) =~= base + ser_fields(fs, 0),
                decreases n - i,
            {
                let ghost prev = out@;
                if i > 0 {
                    out.push(',');
                }
                out.push('"');
                push_chars(&fields[i].0, out);
                out.push('"');
                out.push(':');
                write_value(&fields[i].1, out);
                proof {
                    assert(out@ =~= prev + (if i == 0 {
                        Seq::<char>::empty()
                    } else {
                        seq![',']
                    }) + ser_member(fs[i as int]));
                    if i == 0 {
                        assert(out@ + ser_fields(fs, 1) =~= prev + ser_fields(fs, 0));
                    } else {
                        assert(out@ + ser_fields(fs, i + 1) =~= prev + ser_fields(fs, i as int));
                    }
                }
                i = i + 1;
            }
            out.push('}');
            proof {
                assert(ser_fields(fs, n as int) =~= Seq::<char>::empty());
                assert(base =~= old(out)@.push('{'));
                assert(out@ =~= old(out)@ + (seq!['{'] + ser_fields(fs, 0) + seq!['}']));
            }
        },
    }
}

/// Appends the characters of `text` onto `out`.
fn push_chars(text: &String, out: &mut Vec<char>)
    ensures
        final(out)@ == old(out)@ + text@,
{
    let cs = str_to_chars(text.as_str());
    let n = cs.len();
    let mut i: usize = 0;
    while i < n
        invariant
            n == cs.len(),
            0 <= i <= n,
            cs@ == text@,
            out@ =~= old(out)@ + cs@.subrange(0, i as int),
        decreases n - i,
    {
        out.push(cs[i]);
        proof {
            assert(cs@.subrange(0, i + 1) =~= cs@.subrange(0, i as int).push(cs@[i as int]));
        }
        i = i + 1;
    }
    proof {
        assert(cs@.subrange(0, cs@.len() as int) =~= cs@);
        assert(out@ =~= old(out)@ + text@);
    }
}

/// A printed value is never empty, and its first character announces
/// its form: the dispatch character the parser switches on.
proof fn lemma_ser_first(m: ValModel)
    ensures
        spec_ser(m).len() >= 1,
        !is_ws_char(spec_ser(m)[0]),
        spec_ser(m)[0] != ']' && spec_ser(m)[0] != '}' && spec_ser(m)[0] != ',',
        m is Null ==> spec_ser(m)[0] == 'n',
        m matches ValModel::Bool(b) ==> spec_ser(m)[0] == (if b {
            't'
        } else {
            'f'
        }),
        m matches ValModel::Int(i) ==> (if i < 0 {
            spec_ser(m)[0] == '-'
        } else {
            is_digit_char(spec_ser(m)[0])
        }),
        m is Str ==> spec_ser(m)[0] == '"',
        m is Arr ==> spec_ser(m)[0] == '[',
        m is Obj ==> spec_ser(m)[0] == '{',
{
    match m {
        ValModel::Int(i) => {
            if i < 0 {
                lemma_dec_digits((-i) as nat);
                assert(spec_ser(m)[0] == '-');
            } else {
                lemma_dec_digits(i as nat);
                assert(spec_ser(m) == dec_digits(i as nat));
                assert(is_digit_char(spec_ser(m)[0]));
            }
        },
        _ => {},
    }
}

/// Prints an unsigned number as its decimal text.
pub fn dec_string(n: u64) -> (r: String)
    ensures
        r@ == dec_digits(n as nat),
{
    let mut out: Vec<char> = Vec::new();
    push_dec(n, &mut out);
    proof {
        assert(out@ =~= dec_digits(n as nat));
    }
    chars_to_string(&out)
}

/// A value the grammar can write and read back: every number fits an
/// `i64`, no string or key holds a double quote, and no object binds
/// a key twice.
pub open spec fn wf_model(m: ValModel) -> bool
    decreases m, 1int,
{
    match m {
        ValModel::Null => true,
        ValModel::Bool(b) => true,
        ValModel::Int(i) => i64::MIN <= i <= i64::MAX,
        ValModel::Str(cs) => clean_text(cs),
        ValModel::Arr(es) => wf_elems(es),
        ValModel::Obj(fs) => wf_fields(fs) && (forall|i: int, j: int|
            0 <= i < j < fs.len() ==> fs[i].0 != fs[j].0),
    }
}

pub open spec fn wf_elems(es: Seq<ValModel>) -> bool
    decreases es, 2int,
{
    if es.len() == 0 {
        true
    } else {
        wf_model(es.last()) && wf_elems(es.drop_last())
    }
}

pub open spec fn wf_fields(fs: Seq<(Seq<char>, ValModel)>) -> bool
    decreases fs, 2int,
{
    if fs.len() == 0 {
        true
    } else {
        clean_text(fs.last().0) && wf_model(fs.last().1) && wf_fields(fs.drop_last())
    }
}

pub proof fn lemma_wf_elems_index(es: Seq<ValModel>, i: int)
    requires
        wf_elems(es),
        0 <= i < es.len(),
    ensures
        wf_model(es[i]),
    decreases es.len(),
{
    if i < es.len() - 1 {
        assert(es.drop_last()[i] == es[i]);
        lemma_wf_elems_index(es.drop_last(), i);
    }
}

pub proof fn lemma_wf_fields_index(fs: Seq<(Seq<char>, ValModel)>, i: int)
    requires
        wf_fields(fs),
        0 <= i < fs.len(),
    ensures
        clean_text(fs[i].0),
        wf_model(fs[i].1),
    decreases fs.len(),
{
    if i < fs.len() - 1 {
        assert(fs.drop_last()[i] == fs[i]);
        lemma_wf_fields_index(fs.drop_last(), i);
    }
}

/// The number a run of digit characters denotes, folded onto `acc`.
pub open spec fn digits_value(ds: Seq<char>, acc: int) -> int
    decreases ds.len(),
{
    if ds.len() == 0 {
        acc
    } else {
        digits_value(ds.drop_first(), acc * 10 + digit_val(ds[0]))
    }
}

proof fn lemma_digits_value_push(ds: Seq<char>, c: char, acc: int)
    ensures
        digits_value(ds.push(c), acc) == digits_value(ds, acc) * 10 + digit_val(c),
    decreases ds.len(),
{
    if ds.len() == 0 {
        assert(ds.push(c)[0] == c);
        assert(ds.push(c).drop_first() =~= Seq::<char>::empty());
        assert(digits_value(Seq::<char>::empty(), acc * 10 + digit_val(c)) == acc * 10 + digit_val(
            c,
        ));
    } else {
        assert(ds.push(c)[0] == ds[0]);
        assert(ds.push(c).drop_first() =~= ds.drop_first().push(c));
        lemma_digits_value_push(ds.drop_first(), c, acc * 10 + digit_val(ds[0]));
    }
}

/// Every character of `dec_digits` is a digit, there is at least one,
/// and the run denotes the number it was printed from.
pub proof fn lemma_dec_digits(n: nat)
    ensures
        dec_digits(n).len() >= 1,
        forall|i: int| 0 <= i < dec_digits(n).len() ==> is_digit_char(#[trigger] dec_digits(n)[i]),
        digits_value(dec_digits(n), 0) == n,
    decreases n,
{
    if n < 10 {
        assert(digit_val(digit_char(n as int)) == n);
        assert(dec_digits(n) =~= seq![digit_char(n as int)]);
        assert(dec_digits(n).drop_first() =~= Seq::<char>::empty());
        assert(digits_value(Seq::<char>::empty(), n as int) == n);
        assert(digits_value(dec_digits(n), 0) == digits_value(
            dec_digits(n).drop_first(),
            0 * 10 + digit_val(dec_digits(n)[0]),
        ));
    } else {
        lemma_dec_digits(n / 10);
        let prefix = dec_digits(n / 10);
        let last = digit_char((n % 10) as int);
        assert(digit_val(last) == n % 10);
        lemma_digits_value_push(prefix, last, 0);
        assert(forall|i: int|
            0 <= i < prefix.len() ==> prefix.push(last)[i] == prefix[i]);
        assert(prefix.push(last)[prefix.len() as int] == last);
    }
}

/// Reading digits out of a text: where the text carries exactly the
/// digit run `ds` at `i`, followed by a non-digit or the end, the
/// reader consumes exactly the run and folds up its value.
proof fn lemma_more_digits_run(t: Seq<char>, i: int, ds: Seq<char>, acc: int)
    requires
        0 <= i,
        i + ds.len() <= t.len(),
        forall|k: int| 0 <= k < ds.len() ==> t[i + k] == ds[k],
        forall|k: int| 0 <= k < ds.len() ==> is_digit_char(#[trigger] ds[k]),
        i + ds.len() == t.len() || !is_digit_char(t[i + ds.len()]),
    ensures
        spec_more_digits(t, i, acc) == (digits_value(ds, acc), i + ds.len()),
    decreases ds.len(),
{
    if ds.len() == 0 {
    } else {
        assert(t[i] == ds[0]);
        let rest = ds.drop_first();
        assert(forall|k: int| 0 <= k < rest.len() ==> rest[k] == ds[k + 1]);
        lemma_more_digits_run(t, i + 1, rest, acc * 10 + digit_val(ds[0]));
    }
}

/// Prints a value as its canonical source text.
pub fn to_text(v: &ConfigValue) -> (r: String)
    ensures
        r@ == spec_ser(v.model()),
{
    let mut out: Vec<char> = Vec::new();
    write_value(v, &mut out);
    chars_to_string(&out)
}

proof fn lemma_parse_ser_value(t: Seq<char>, i: int, m: ValModel)
    requires
        wf_model(m),
        0 <= i,
        i + spec_ser(m).len() <= t.len(),
        forall|k: int| 0 <= k < spec_ser(m).len() ==> t[i + k] == spec_ser(m)[k],
        i + spec_ser(m).len() == t.len() || !is_digit_char(t[i + spec_ser(m).len()]),
    ensures
        spec_value(t, i) == (Parsed::Found { v: m, next: i + spec_ser(m).len() }),
    decreases m, 0int, 1int,
{
    lemma_ser_first(m);
    let ser = spec_ser(m);
    assert(t[i + 0] == ser[0]);
    assert(skip_ws(t, i) == i);
    assert(ws_end(t, i) == i);
    match m {
        ValModel::Null => {
            assert(ser =~= seq!['n', 'u', 'l', 'l']);
            assert(t[i + 1] == ser[1] && t[i + 2] == ser[2] && t[i + 3] == ser[3]);
        },
        ValModel::Bool(b) => {
            if b {
                assert(ser =~= seq!['t', 'r', 'u', 'e']);
                assert(t[i + 1] == ser[1] && t[i + 2] == ser[2] && t[i + 3] == ser[3]);
            } else {
                assert(ser =~= seq!['f', 'a', 'l', 's', 'e']);
                assert(t[i + 1] == ser[1] && t[i + 2] == ser[2] && t[i + 3] == ser[3] && t[i + 4]
                    == ser[4]);
            }
        },
        ValModel::Int(x) => {
            lemma_parse_ser_int(t, i, m);
        },
        ValModel::Str(cs) => {
            lemma_parse_ser_str(t, i, m);
        },
        ValModel::Arr(es) => {
            lemma_parse_ser_arr(t, i, m);
        },
        ValModel::Obj(fs) => {
            lemma_parse_ser_obj(t, i, m);
        },
    }
}

proof fn lemma_parse_ser_int(t: Seq<char>, i: int, m: ValModel)
    requires
        m is Int,
        wf_model(m),
        0 <= i,
        i + spec_ser(m).len() <= t.len(),
        forall|k: int| 0 <= k < spec_ser(m).len() ==> t[i + k] == spec_ser(m)[k],
        i + spec_ser(m).len() == t.len() || !is_digit_char(t[i + spec_ser(m).len()]),
    ensures
        spec_value(t, i) == (Parsed::Found { v: m, next: i + spec_ser(m).len() }),
    decreases m, 0int, 0int,
{
    lemma_ser_first(m);
    let ser = spec_ser(m);
    assert(t[i + 0] == ser[0]);
    assert(skip_ws(t, i) == i);
    assert(ws_end(t, i) == i);
    let x = m->Int_0;
    if x < 0 {
        let ds = dec_digits((-x) as nat);
        lemma_dec_digits((-x) as nat);
        assert(ser == seq!['-'] + ds);
        assert(ser.len() == 1 + ds.len());
        assert(t[i + 1] == ser[1] && ser[1] == ds[0]);
        assert forall|k2: int| 0 <= k2 < ds.len() implies t[i + 1 + k2] == ds[k2] by {
            assert(t[i + (1 + k2)] == ser[1 + k2]);
            assert(ser[1 + k2] == ds[k2]);
        }
        lemma_more_digits_run(t, i + 1, ds, 0);
        assert(spec_more_digits(t, i + 1, 0) == (-x, i + 1 + ds.len()));
    } else {
        let ds = dec_digits(x as nat);
        lemma_dec_digits(x as nat);
        assert(ser == ds);
        assert forall|k2: int| 0 <= k2 < ds.len() implies t[i + k2] == ds[k2] by {
            assert(t[i + k2] == ser[k2]);
        }
        lemma_more_digits_run(t, i, ds, 0);
        assert(spec_more_digits(t, i, 0) == (x as int, i + ds.len()));
    }
}

proof fn lemma_parse_ser_str(t: Seq<char>, i: int, m: ValModel)
    requires
        m is Str,
        wf_model(m),
        0 <= i,
        i + spec_ser(m).len() <= t.len(),
        forall|k: int| 0 <= k < spec_ser(m).len() ==> t[i + k] == spec_ser(m)[k],
    ensures
        spec_value(t, i) == (Parsed::Found { v: m, next: i + spec_ser(m).len() }),
    decreases m, 0int, 0int,
{
    lemma_ser_first(m);
    let ser = spec_ser(m);
    assert(t[i + 0] == ser[0]);
    assert(skip_ws(t, i) == i);
    assert(ws_end(t, i) == i);
    let cs = m->Str_0;
    assert(ser == seq!['"'] + cs + seq!['"']);
    assert(ser.len() == 2 + cs.len());
    assert forall|p: int| i + 1 <= p < i + 1 + cs.len() implies is_clean_char(
        #[trigger] t[p],
    ) by {
        assert(t[i + (p - i)] == ser[p - i]);
        assert(ser[p - i] == cs[p - i - 1]);
        assert(is_clean_char(cs[p - i - 1]));
    }
    assert(t[i + (1 + cs.len())] == ser[1 + cs.len() as int]);
    assert(ser[1 + cs.len() as int] == '"');
    lemma_str_body_closed(t, i + 1, i + 1 + cs.len());
    assert forall|k2: int| 0 <= k2 < cs.len() implies t.subrange(i + 1, i + 1 + cs.len())[k2]
        == cs[k2] by {
        assert(t[i + (1 + k2)] == ser[1 + k2]);
        assert(ser[1 + k2] == cs[k2]);
    }
    assert(t.subrange(i + 1, i + 1 + cs.len()) =~= cs);
}

proof fn lemma_parse_ser_arr(t: Seq<char>, i: int, m: ValModel)
    requires
        m is Arr,
        wf_model(m),
        0 <= i,
        i + spec_ser(m).len() <= t.len(),
        forall|k: int| 0 <= k < spec_ser(m).len() ==> t[i + k] == spec_ser(m)[k],
    ensures
        spec_value(t, i) == (Parsed::Found { v: m, next: i + spec_ser(m).len() }),
    decreases m, 0int, 0int,
{
    lemma_ser_first(m);
    let ser = spec_ser(m);
    assert(t[i + 0] == ser[0]);
    assert(skip_ws(t, i) == i);
    assert(ws_end(t, i) == i);
    let es = m->Arr_0;
    assert(ser == seq!['['] + ser_elems(es, 0) + seq![']']);
    let inner = ser_elems(es, 0);
    assert(ser.len() == 2 + inner.len());
    assert forall|k2: int| 0 <= k2 < inner.len() implies t[i + 1 + k2] == inner[k2] by {
        assert(t[i + (1 + k2)] == ser[1 + k2]);
        assert(ser[1 + k2] == inner[k2]);
    }
    assert(t[i + (1 + inner.len())] == ser[1 + inner.len() as int]);
    assert(ser[1 + inner.len() as int] == ']');
    lemma_parse_ser_elems(t, i + 1, es);
}

proof fn lemma_parse_ser_obj(t: Seq<char>, i: int, m: ValModel)
    requires
        m is Obj,
        wf_model(m),
        0 <= i,
        i + spec_ser(m).len() <= t.len(),
        forall|k: int| 0 <= k < spec_ser(m).len() ==> t[i + k] == spec_ser(m)[k],
    ensures
        spec_value(t, i) == (Parsed::Found { v: m, next: i + spec_ser(m).len() }),
    decreases m, 0int, 0int,
{
    lemma_ser_first(m);
    let ser = spec_ser(m);
    assert(t[i + 0] == ser[0]);
    assert(skip_ws(t, i) == i);
    assert(ws_end(t, i) == i);
    let fs = m->Obj_0;
    assert(ser == seq!['{'] + ser_fields(fs, 0) + seq!['}']);
    let inner = ser_fields(fs, 0);
    assert(ser.len() == 2 + inner.len());
    assert forall|k2: int| 0 <= k2 < inner.len() implies t[i + 1 + k2] == inner[k2] by {
        assert(t[i + (1 + k2)] == ser[1 + k2]);
        assert(ser[1 + k2] == inner[k2]);
    }
    assert(t[i + (1 + inner.len())] == ser[1 + inner.len() as int]);
    assert(ser[1 + inner.len() as int] == '}');
    lemma_parse_ser_fields(t, i + 1, fs);
}

#[verifier::rlimit(60)]
proof fn lemma_parse_ser_elems(t: Seq<char>, i: int, es: Seq<ValModel>)
    requires
        wf_elems(es),
        0 <= i,
        i + ser_elems(es, 0).len() + 1 <= t.len(),
        forall|k: int| 0 <= k < ser_elems(es, 0).len() ==> t[i + k] == ser_elems(es, 0)[k],
        t[i + ser_elems(es, 0).len()] == ']',
    ensures
        spec_elems(t, i) == (Parsed::Found { v: es, next: i + ser_elems(es, 0).len() + 1 }),
    decreases es, 1int, es.len() + 1,
{
    let ser = ser_elems(es, 0);
    assert forall|p: int| i <= p < i + ser.len() implies t[p] == ser[p - i] by {
        assert(t[i + (p - i)] == ser[p - i]);
    }
    if es.len() == 0 {
        assert(ser.len() == 0);
        assert(t[i] == ']');
        assert(skip_ws(t, i) == i);
        assert(ws_end(t, i) == i);
        assert(es =~= Seq::<ValModel>::empty());
    } else {
        lemma_wf_elems_index(es, 0);
        lemma_ser_first(es[0]);
        let s0 = spec_ser(es[0]);
        let rest = ser_elems(es, 1);
        assert(ser == s0 + rest);
        assert(ser.len() == s0.len() + rest.len());
        assert(t[i] == ser[0] && ser[0] == s0[0]);
        assert(skip_ws(t, i) == i);
        assert(ws_end(t, i) == i);
        assert forall|k2: int| 0 <= k2 < s0.len() implies t[i + k2] == s0[k2] by {
            assert(t[i + k2] == ser[k2]);
            assert(ser[k2] == s0[k2]);
        }
        if es.len() == 1 {
            assert(rest.len() == 0);
            assert(t[i + s0.len() as int] == ']');
        } else {
            lemma_wf_elems_index(es, 1);
            lemma_ser_first(es[1]);
            assert(rest == seq![','] + spec_ser(es[1]) + ser_elems(es, 2));
            assert(t[i + s0.len() as int] == ser[s0.len() as int]);
            assert(ser[s0.len() as int] == rest[0]);
            assert(rest[0] == ',');
        }
        lemma_parse_ser_value(t, i, es[0]);
        let n0 = i + s0.len() as int;
        assert(adv(t, i, n0) == n0);
        assert forall|k2: int| 0 <= k2 < rest.len() implies t[n0 + k2] == rest[k2] by {
            assert(t[i + (s0.len() + k2)] == ser[s0.len() + k2]);
            assert(ser[s0.len() + k2] == rest[k2]);
        }
        assert(t[n0 + rest.len() as int] == ']');
        lemma_parse_ser_more_elems(t, n0, es, 1);
        assert(seq![es[0]] =~= es.subrange(0, 1));
    }
}

#[verifier::rlimit(60)]
/// The text layout behind `spec_more_elems` at a comma: the comma,
/// the next element's text, the remaining elements' text, and the
/// closing bracket, in that order.
proof fn lemma_more_elems_shape(t: Seq<char>, i: int, es: Seq<ValModel>, k: int)
    requires
        1 <= k < es.len(),
        0 <= i,
        i + ser_elems(es, k).len() + 1 <= t.len(),
        forall|k2: int| 0 <= k2 < ser_elems(es, k).len() ==> t[i + k2] == ser_elems(es, k)[k2],
        t[i + ser_elems(es, k).len()] == ']',
    ensures
        t[i] == ',',
        ser_elems(es, k).len() == 1 + spec_ser(es[k]).len() + ser_elems(es, k + 1).len(),
        forall|k2: int|
            0 <= k2 < spec_ser(es[k]).len() ==> #[trigger] t[i + 1 + k2] == spec_ser(es[k])[k2],
        forall|k2: int|
            0 <= k2 < ser_elems(es, k + 1).len() ==> #[trigger] t[i + 1 + spec_ser(es[k]).len()
                + k2] == ser_elems(es, k + 1)[k2],
        t[i + 1 + spec_ser(es[k]).len() + ser_elems(es, k + 1).len()] == ']',
        k + 1 < es.len() ==> t[i + 1 + spec_ser(es[k]).len()] == ',',
        k + 1 == es.len() ==> t[i + 1 + spec_ser(es[k]).len()] == ']',
{
    let ser = ser_elems(es, k);
    let sk = spec_ser(es[k]);
    let rest = ser_elems(es, k + 1);
    assert(ser == seq![','] + sk + rest);
    assert(ser.len() == 1 + sk.len() + rest.len());
    assert(t[i + 0] == ser[0] && ser[0] == ',');
    assert forall|k2: int| 0 <= k2 < sk.len() implies #[trigger] t[i + 1 + k2] == sk[k2] by {
        assert(t[i + (1 + k2)] == ser[1 + k2]);
        assert(ser[1 + k2] == sk[k2]);
    }
    assert forall|k2: int| 0 <= k2 < rest.len() implies #[trigger] t[i + 1 + sk.len() + k2]
        == rest[k2] by {
        assert(t[i + (1 + sk.len() + k2)] == ser[1 + sk.len() + k2]);
        assert(ser[1 + sk.len() + k2] == rest[k2]);
    }
    if k + 1 < es.len() {
        assert(rest == seq![','] + spec_ser(es[k + 1]) + ser_elems(es, k + 2));
        assert(t[i + 1 + sk.len() + 0] == rest[0]);
        assert(rest[0] == ',');
    }
}

#[verifier::rlimit(60)]
proof fn lemma_parse_ser_more_elems(t: Seq<char>, i: int, es: Seq<ValModel>, k: int)
    requires
        wf_elems(es),
        1 <= k <= es.len(),
        0 <= i,
        i + ser_elems(es, k).len() + 1 <= t.len(),
        forall|k2: int| 0 <= k2 < ser_elems(es, k).len() ==> t[i + k2] == ser_elems(es, k)[k2],
        t[i + ser_elems(es, k).len()] == ']',
    ensures
        spec_more_elems(t, i, es.subrange(0, k)) == (Parsed::Found {
            v: es,
            next: i + ser_elems(es, k).len() + 1,
        }),
    decreases es, 1int, es.len() - k,
{
    if k == es.len() {
        assert(ser_elems(es, k).len() == 0);
        assert(t[i + 0] == ']');
        assert(skip_ws(t, i) == i);
        assert(ws_end(t, i) == i);
        assert(es.subrange(0, k) =~= es);
    } else {
        lemma_wf_elems_index(es, k);
        lemma_more_elems_shape(t, i, es, k);
        let sk = spec_ser(es[k]);
        let rest = ser_elems(es, k + 1);
        assert(skip_ws(t, i) == i);
        assert(ws_end(t, i) == i);
        assert forall|k2: int| 0 <= k2 < sk.len() implies t[(i + 1) + k2] == sk[k2] by {
            assert(t[i + 1 + k2] == sk[k2]);
        }
        lemma_parse_ser_value(t, i + 1, es[k]);
        let n1 = i + 1 + sk.len() as int;
        assert(adv(t, i + 1, n1) == n1);
        assert forall|k2: int| 0 <= k2 < rest.len() implies t[n1 + k2] == rest[k2] by {
            assert(t[i + 1 + sk.len() + k2] == rest[k2]);
        }
        assert(t[n1 + rest.len() as int] == ']');
        lemma_parse_ser_more_elems(t, n1, es, k + 1);
        assert(es.subrange(0, k).push(es[k]) =~= es.subrange(0, k + 1));
    }
}

#[verifier::rlimit(60)]
proof fn lemma_parse_ser_member(t: Seq<char>, i: int, f: (Seq<char>, ValModel))
    requires
        clean_text(f.0),
        wf_model(f.1),
        0 <= i,
        i + ser_member(f).len() <= t.len(),
        forall|k: int| 0 <= k < ser_member(f).len() ==> t[i + k] == ser_member(f)[k],
        i + ser_member(f).len() == t.len() || !is_digit_char(t[i + ser_member(f).len()]),
    ensures
        spec_member(t, i) == (Parsed::Found { v: f, next: i + ser_member(f).len() }),
    decreases f, 0int, 0int,
{
    let sm = ser_member(f);
    let key = f.0;
    let sv = spec_ser(f.1);
    assert(sm == seq!['"'] + key + seq!['"', ':'] + sv);
    assert(sm.len() == 3 + key.len() + sv.len());
    assert forall|p: int| i <= p < i + sm.len() implies t[p] == sm[p - i] by {
        assert(t[i + (p - i)] == sm[p - i]);
    }
    assert(t[i] == sm[0] && sm[0] == '"');
    assert(skip_ws(t, i) == i);
    assert(ws_end(t, i) == i);
    assert forall|p: int| i + 1 <= p < i + 1 + key.len() implies is_clean_char(#[trigger] t[p]) by {
        assert(t[p] == sm[p - i]);
        assert(sm[p - i] == key[p - i - 1]);
        assert(is_clean_char(key[p - i - 1]));
    }
    assert(t[i + 1 + key.len() as int] == sm[1 + key.len() as int]);
    assert(sm[1 + key.len() as int] == '"');
    lemma_str_body_closed(t, i + 1, i + 1 + key.len());
    assert forall|k2: int| 0 <= k2 < key.len() implies t.subrange(i + 1, i + 1 + key.len())[k2]
        == key[k2] by {
        assert(t[i + 1 + k2] == sm[1 + k2]);
        assert(sm[1 + k2] == key[k2]);
    }
    assert(t.subrange(i + 1, i + 1 + key.len()) =~= key);
    let kn = i + 2 + key.len() as int;
    assert(spec_string(t, i) == (Parsed::Found { v: key, next: kn }));
    assert(adv(t, i, kn) == kn);
    assert(t[i + (2 + key.len())] == sm[2 + key.len() as int]);
    assert(sm[2 + key.len() as int] == ':');
    assert(t[kn] == ':');
    assert(skip_ws(t, kn) == kn);
    assert(ws_end(t, kn) == kn);
    assert forall|k2: int| 0 <= k2 < sv.len() implies t[kn + 1 + k2] == sv[k2] by {
        assert(t[i + (3 + key.len() + k2)] == sm[3 + key.len() + k2]);
        assert(sm[3 + key.len() + k2] == sv[k2]);
    }
    lemma_parse_ser_value(t, kn + 1, f.1);
    assert(f == (f.0, f.1));
}

#[verifier::rlimit(60)]
proof fn lemma_parse_ser_fields(t: Seq<char>, i: int, fs: Seq<(Seq<char>, ValModel)>)
    requires
        wf_fields(fs),
        forall|a: int, b: int| 0 <= a < b < fs.len() ==> fs[a].0 != fs[b].0,
        0 <= i,
        i + ser_fields(fs, 0).len() + 1 <= t.len(),
        forall|k: int| 0 <= k < ser_fields(fs, 0).len() ==> t[i + k] == ser_fields(fs, 0)[k],
        t[i + ser_fields(fs, 0).len()] == '}',
    ensures
        spec_fields(t, i) == (Parsed::Found { v: fs, next: i + ser_fields(fs, 0).len() + 1 }),
    decreases fs, 1int, fs.len() + 1,
{
    let ser = ser_fields(fs, 0);
    assert forall|p: int| i <= p < i + ser.len() implies t[p] == ser[p - i] by {
        assert(t[i + (p - i)] == ser[p - i]);
    }
    if fs.len() == 0 {
        assert(ser.len() == 0);
        assert(t[i] == '}');
        assert(skip_ws(t, i) == i);
        assert(ws_end(t, i) == i);
        assert(fs =~= Seq::<(Seq<char>, ValModel)>::empty());
    } else {
        lemma_wf_fields_index(fs, 0);
        let s0 = ser_member(fs[0]);
        let rest = ser_fields(fs, 1);
        assert(ser == s0 + rest);
        assert(ser.len() == s0.len() + rest.len());
        assert(s0 == seq!['"'] + fs[0].0 + seq!['"', ':'] + spec_ser(fs[0].1));
        assert(s0[0] == '"');
        assert(t[i] == ser[0] && ser[0] == s0[0]);
        assert(skip_ws(t, i) == i);
        assert(ws_end(t, i) == i);
        assert forall|k2: int| 0 <= k2 < s0.len() implies t[i + k2] == s0[k2] by {
            assert(t[i + k2] == ser[k2]);
            assert(ser[k2] == s0[k2]);
        }
        if fs.len() == 1 {
            assert(rest.len() == 0);
            assert(t[i + s0.len() as int] == '}');
        } else {
            assert(rest == seq![','] + ser_member(fs[1]) + ser_fields(fs, 2));
            assert(t[i + s0.len() as int] == ser[s0.len() as int]);
            assert(ser[s0.len() as int] == rest[0]);
            assert(rest[0] == ',');
        }
        lemma_parse_ser_member(t, i, fs[0]);
        let n0 = i + s0.len() as int;
        assert(adv(t, i, n0) == n0);
        assert forall|k2: int| 0 <= k2 < rest.len() implies t[n0 + k2] == rest[k2] by {
            assert(t[i + (s0.len() + k2)] == ser[s0.len() + k2]);
            assert(ser[s0.len() + k2] == rest[k2]);
        }
        assert(t[n0 + rest.len() as int] == '}');
        lemma_parse_ser_more_fields(t, n0, fs, 1);
        assert(seq![fs[0]] =~= fs.subrange(0, 1));
    }
}

/// In a key-unique field list, upserting the next binding onto the
/// prefix before it just extends the prefix.
proof fn lemma_prefix_upsert_extends(fs: Seq<(Seq<char>, ValModel)>, k: int)
    requires
        forall|a: int, b: int| 0 <= a < b < fs.len() ==> fs[a].0 != fs[b].0,
        0 <= k < fs.len(),
    ensures
        upsert_model(fs.subrange(0, k), fs[k].0, fs[k].1) == fs.subrange(0, k + 1),
{
    assert forall|j: int| 0 <= j < fs.subrange(0, k).len() implies fs.subrange(0, k)[j].0
        != fs[k].0 by {
        assert(fs[j].0 != fs[k].0);
    }
    crate::value::lemma_upsert_absent(fs.subrange(0, k), fs[k].0, fs[k].1);
    assert(fs[k] == (fs[k].0, fs[k].1));
    assert(fs.subrange(0, k).push(fs[k]) =~= fs.subrange(0, k + 1));
}

/// The text layout behind `spec_more_fields` at a comma: the comma,
/// the next member's text, the remaining members' text, and the
/// closing brace, in that order.
proof fn lemma_more_fields_shape(t: Seq<char>, i: int, fs: Seq<(Seq<char>, ValModel)>, k: int)
    requires
        1 <= k < fs.len(),
        0 <= i,
        i + ser_fields(fs, k).len() + 1 <= t.len(),
        forall|k2: int| 0 <= k2 < ser_fields(fs, k).len() ==> t[i + k2] == ser_fields(fs, k)[k2],
        t[i + ser_fields(fs, k).len()] == '}',
    ensures
        t[i] == ',',
        ser_fields(fs, k).len() == 1 + ser_member(fs[k]).len() + ser_fields(fs, k + 1).len(),
        forall|k2: int|
            0 <= k2 < ser_member(fs[k]).len() ==> #[trigger] t[i + 1 + k2] == ser_member(
                fs[k],
            )[k2],
        forall|k2: int|
            0 <= k2 < ser_fields(fs, k + 1).len() ==> #[trigger] t[i + 1 + ser_member(
                fs[k],
            ).len() + k2] == ser_fields(fs, k + 1)[k2],
        t[i + 1 + ser_member(fs[k]).len() + ser_fields(fs, k + 1).len()] == '}',
        k + 1 < fs.len() ==> t[i + 1 + ser_member(fs[k]).len()] == ',',
        k + 1 == fs.len() ==> t[i + 1 + ser_member(fs[k]).len()] == '}',
{
    let ser = ser_fields(fs, k);
    let sk = ser_member(fs[k]);
    let rest = ser_fields(fs, k + 1);
    assert(ser == seq![','] + sk + rest);
    assert(ser.len() == 1 + sk.len() + rest.len());
    assert(t[i + 0] == ser[0] && ser[0] == ',');
    assert forall|k2: int| 0 <= k2 < sk.len() implies #[trigger] t[i + 1 + k2] == sk[k2] by {
        assert(t[i + (1 + k2)] == ser[1 + k2]);
        assert(ser[1 + k2] == sk[k2]);
    }
    assert forall|k2: int| 0 <= k2 < rest.len() implies #[trigger] t[i + 1 + sk.len() + k2]
        == rest[k2] by {
        assert(t[i + (1 + sk.len() + k2)] == ser[1 + sk.len() + k2]);
        assert(ser[1 + sk.len() + k2] == rest[k2]);
    }
    if k + 1 < fs.len() {
        assert(rest == seq![','] + ser_member(fs[k + 1]) + ser_fields(fs, k + 2));
        assert(t[i + 1 + sk.len() + 0] == rest[0]);
        assert(rest[0] == ',');
    }
}

#[verifier::rlimit(60)]
proof fn lemma_parse_ser_more_fields(t: Seq<char>, i: int, fs: Seq<(Seq<char>, ValModel)>, k: int)
    requires
        wf_fields(fs),
        forall|a: int, b: int| 0 <= a < b < fs.len() ==> fs[a].0 != fs[b].0,
        1 <= k <= fs.len(),
        0 <= i,
        i + ser_fields(fs, k).len() + 1 <= t.len(),
        forall|k2: int| 0 <= k2 < ser_fields(fs, k).len() ==> t[i + k2] == ser_fields(fs, k)[k2],
        t[i + ser_fields(fs, k).len()] == '}',
    ensures
        spec_more_fields(t, i, fs.subrange(0, k)) == (Parsed::Found {
            v: fs,
            next: i + ser_fields(fs, k).len() + 1,
        }),
    decreases fs, 1int, fs.len() - k,
{
    if k == fs.len() {
        assert(ser_fields(fs, k).len() == 0);
        assert(t[i + 0] == '}');
        assert(skip_ws(t, i) == i);
        assert(ws_end(t, i) == i);
        assert(fs.subrange(0, k) =~= fs);
    } else {
        lemma_wf_fields_index(fs, k);
        lemma_more_fields_shape(t, i, fs, k);
        let sk = ser_member(fs[k]);
        let rest = ser_fields(fs, k + 1);
        assert(skip_ws(t, i) == i);
        assert(ws_end(t, i) == i);
        assert forall|k2: int| 0 <= k2 < sk.len() implies t[(i + 1) + k2] == sk[k2] by {
            assert(t[i + 1 + k2] == sk[k2]);
        }
        lemma_parse_ser_member(t, i + 1, fs[k]);
        let n1 = i + 1 + sk.len() as int;
        assert(adv(t, i + 1, n1) == n1);
        lemma_prefix_upsert_extends(fs, k);
        assert forall|k2: int| 0 <= k2 < rest.len() implies t[n1 + k2] == rest[k2] by {
            assert(t[i + 1 + sk.len() + k2] == rest[k2]);
        }
        assert(t[n1 + rest.len() as int] == '}');
        lemma_parse_ser_more_fields(t, n1, fs, k + 1);
    }
}

proof fn lemma_wf_elems_pointwise(es: Seq<ValModel>)
    ensures
        wf_elems(es) <==> (forall|i: int| 0 <= i < es.len() ==> wf_model(#[trigger] es[i])),
    decreases es.len(),
{
    if es.len() > 0 {
        lemma_wf_elems_pointwise(es.drop_last());
        assert(forall|i: int| 0 <= i < es.len() - 1 ==> es.drop_last()[i] == es[i]);
        assert(es[es.len() - 1] == es.last());
    }
}

pub proof fn lemma_wf_fields_pointwise(fs: Seq<(Seq<char>, ValModel)>)
    ensures
        wf_fields(fs) <==> (forall|i: int|
            0 <= i < fs.len() ==> clean_text((#[trigger] fs[i]).0) && wf_model(fs[i].1)),
    decreases fs.len(),
{
    if fs.len() > 0 {
        lemma_wf_fields_pointwise(fs.drop_last());
        assert(forall|i: int| 0 <= i < fs.len() - 1 ==> fs.drop_last()[i] == fs[i]);
        assert(fs[fs.len() - 1] == fs.last());
    }
}

/// A read string body carries only carryable characters: the scan
/// stopped at the first quote and failed on anything else.
proof fn lemma_str_body_clean(s: Seq<char>, i: int)
    ensures
        spec_str_body(s, i) matches Parsed::Found { v, next } ==> clean_text(v),
    decreases s.len() - i,
{
    if 0 <= i < s.len() && s[i] != '"' && is_clean_char(s[i]) {
        lemma_str_body_clean(s, i + 1);
        match spec_str_body(s, i + 1) {
            Parsed::Found { v, next } => {
                let w = seq![s[i]] + v;
                assert forall|j: int| 0 <= j < w.len() implies is_clean_char(#[trigger] w[j]) by {
                    if j == 0 {
                        assert(w[0] == s[i]);
                    } else {
                        assert(w[j] == v[j - 1]);
                        assert(is_clean_char(v[j - 1]));
                    }
                }
            },
            Parsed::Fail { at } => {},
        }
    }
}

proof fn lemma_more_digits_nonneg(s: Seq<char>, i: int, acc: int)
    requires
        acc >= 0,
    ensures
        spec_more_digits(s, i, acc).0 >= 0,
    decreases s.len() - i,
{
    if 0 <= i < s.len() && is_digit_char(s[i]) {
        lemma_more_digits_nonneg(s, i + 1, acc * 10 + digit_val(s[i]));
    }
}

/// Whatever key a binding carries, an upsert into a quote-free,
/// well-formed, key-unique field list leaves it quote-free,
/// well-formed and key-unique.
pub proof fn lemma_upsert_wf(fs: Seq<(Seq<char>, ValModel)>, key: Seq<char>, v: ValModel)
    requires
        wf_fields(fs),
        forall|a: int, b: int| 0 <= a < b < fs.len() ==> fs[a].0 != fs[b].0,
        clean_text(key),
        wf_model(v),
    ensures
        wf_fields(upsert_model(fs, key, v)),
        forall|a: int, b: int|
            0 <= a < b < upsert_model(fs, key, v).len() ==> upsert_model(fs, key, v)[a].0
                != upsert_model(fs, key, v)[b].0,
{
    lemma_wf_fields_pointwise(fs);
    let up = upsert_model(fs, key, v);
    if exists|j: int| 0 <= j < fs.len() && fs[j].0 == key {
        let j = choose|j: int| 0 <= j < fs.len() && fs[j].0 == key;
        assert forall|j2: int| 0 <= j2 < j implies fs[j2].0 != key by {
            if fs[j2].0 == key {
                assert(fs[j2].0 != fs[j].0);
            }
        }
        crate::value::lemma_upsert_found(fs, key, v, j);
        assert(up =~= fs.update(j, (key, v)));
        lemma_wf_fields_pointwise(up);
        assert(forall|a: int| 0 <= a < up.len() ==> (#[trigger] up[a]).0 == fs[a].0);
    } else {
        assert forall|j2: int| 0 <= j2 < fs.len() implies fs[j2].0 != key by {
            if fs[j2].0 == key {
                assert(exists|j: int| 0 <= j < fs.len() && fs[j].0 == key);
            }
        }
        crate::value::lemma_upsert_absent(fs, key, v);
        assert(up =~= fs.push((key, v)));
        lemma_wf_fields_pointwise(up);
        assert(forall|a: int| 0 <= a < fs.len() ==> (#[trigger] up[a]) == fs[a]);
        assert(up[fs.len() as int] == (key, v));
    }
}

proof fn lemma_value_wf(s: Seq<char>, i: int)
    ensures
        spec_value(s, i) matches Parsed::Found { v, next } ==> wf_model(v),
    decreases s.len() + 1 - i, 0int,
{
    if 0 <= i <= s.len() {
        let j = ws_end(s, i);
        if j < s.len() {
            if s[j] == '"' {
                lemma_str_body_clean(s, j + 1);
            } else if s[j] == '-' || is_digit_char(s[j]) {
                if s[j] == '-' {
                    lemma_more_digits_nonneg(s, j + 1, 0);
                } else {
                    lemma_more_digits_nonneg(s, j, 0);
                }
            } else if s[j] == '[' {
                lemma_elems_wf(s, j + 1);
            } else if s[j] == '{' {
                lemma_fields_wf(s, j + 1);
            }
        }
    }
}

proof fn lemma_member_wf(s: Seq<char>, i: int)
    ensures
        spec_member(s, i) matches Parsed::Found { v, next } ==> clean_text(v.0) && wf_model(
            v.1,
        ),
    decreases s.len() + 1 - i, 0int,
{
    if 0 <= i <= s.len() {
        let k = ws_end(s, i);
        lemma_str_body_clean(s, k + 1);
        match spec_string(s, k) {
            Parsed::Found { v: key, next: kn } => {
                let c = ws_end(s, adv(s, k, kn));
                if c < s.len() && s[c] == ':' {
                    lemma_value_wf(s, c + 1);
                }
            },
            Parsed::Fail { at } => {},
        }
    }
}

proof fn lemma_elems_wf(s: Seq<char>, i: int)
    ensures
        spec_elems(s, i) matches Parsed::Found { v, next } ==> wf_elems(v),
    decreases s.len() + 1 - i, 1int,
{
    if 0 <= i <= s.len() {
        let j = ws_end(s, i);
        if j < s.len() && s[j] == ']' {
            assert(wf_elems(Seq::<ValModel>::empty()));
        } else {
            lemma_value_wf(s, i);
            match spec_value(s, i) {
                Parsed::Found { v, next } => {
                    assert(seq![v].drop_last() =~= Seq::<ValModel>::empty());
                    assert(wf_elems(Seq::<ValModel>::empty()));
                    assert(seq![v].last() == v);
                    assert(wf_elems(seq![v]));
                    lemma_more_elems_wf(s, adv(s, i, next), seq![v]);
                },
                Parsed::Fail { at } => {},
            }
        }
    }
}

proof fn lemma_more_elems_wf(s: Seq<char>, i: int, acc: Seq<ValModel>)
    requires
        wf_elems(acc),
    ensures
        spec_more_elems(s, i, acc) matches Parsed::Found { v, next } ==> wf_elems(v),
    decreases s.len() + 1 - i, 1int,
{
    if 0 <= i <= s.len() {
        let j = ws_end(s, i);
        if j < s.len() && s[j] != ']' && s[j] == ',' {
            lemma_value_wf(s, j + 1);
            match spec_value(s, j + 1) {
                Parsed::Found { v, next } => {
                    assert(acc.push(v).drop_last() =~= acc);
                    assert(wf_elems(acc.push(v)));
                    lemma_more_elems_wf(s, adv(s, j + 1, next), acc.push(v));
                },
                Parsed::Fail { at } => {},
            }
        }
    }
}

proof fn lemma_fields_wf(s: Seq<char>, i: int)
    ensures
        spec_fields(s, i) matches Parsed::Found { v, next } ==> wf_fields(v) && (forall|
            a: int,
            b: int,
        |
            0 <= a < b < v.len() ==> v[a].0 != v[b].0),
    decreases s.len() + 1 - i, 1int,
{
    if 0 <= i <= s.len() {
        let j = ws_end(s, i);
        if j < s.len() && s[j] == '}' {
            assert(wf_fields(Seq::<(Seq<char>, ValModel)>::empty()));
        } else {
            lemma_member_wf(s, i);
            match spec_member(s, i) {
                Parsed::Found { v, next } => {
                    assert(seq![v].drop_last() =~= Seq::<(Seq<char>, ValModel)>::empty());
                    assert(wf_fields(Seq::<(Seq<char>, ValModel)>::empty()));
                    assert(seq![v].last() == v);
                    assert(wf_fields(seq![v]));
                    lemma_more_fields_wf(s, adv(s, i, next), seq![v]);
                },
                Parsed::Fail { at } => {},
            }
        }
    }
}

proof fn lemma_more_fields_wf(s: Seq<char>, i: int, acc: Seq<(Seq<char>, ValModel)>)
    requires
        wf_fields(acc),
        forall|a: int, b: int| 0 <= a < b < acc.len() ==> acc[a].0 != acc[b].0,
    ensures
        spec_more_fields(s, i, acc) matches Parsed::Found { v, next } ==> wf_fields(v) && (forall|
            a: int,
            b: int,
        |
            0 <= a < b < v.len() ==> v[a].0 != v[b].0),
    decreases s.len() + 1 - i, 1int,
{
    if 0 <= i <= s.len() {
        let j = ws_end(s, i);
        if j < s.len() && s[j] != '}' && s[j] == ',' {
            lemma_member_wf(s, j + 1);
            match spec_member(s, j + 1) {
                Parsed::Found { v, next } => {
                    lemma_upsert_wf(acc, v.0, v.1);
                    lemma_more_fields_wf(s, adv(s, j + 1, next), upsert_model(acc, v.0, v.1));
                },
                Parsed::Fail { at } => {},
            }
        }
    }
}

/// Everything the parser accepts is well-formed, and so can be
/// printed and read back losslessly.
pub proof fn lemma_parsed_is_wf(s: Seq<char>)
    ensures
        spec_doc(s) matches Parsed::Found { v, next } ==> wf_model(v),
{
    lemma_value_wf(s, 0);
}

/// The printer and the parser interlock: any well-formed value,
/// printed as its canonical text, parses back to itself exactly.
pub proof fn lemma_print_parse_round_trip(m: ValModel)
    requires
        wf_model(m),
    ensures
        spec_doc(spec_ser(m)) == (Parsed::Found { v: m, next: spec_ser(m).len() as int }),
{
    let t = spec_ser(m);
    lemma_parse_ser_value(t, 0, m);
    assert(skip_ws(t, t.len() as int) == t.len());
    assert(ws_end(t, t.len() as int) == t.len());
}

} // verus!
