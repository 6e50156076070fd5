//! JSON parsing.
//!
//! The spec functions here define exactly which texts are accepted and
//! what value each one denotes: objects and arrays with insignificant
//! whitespace, strings with the standard escapes (`\uXXXX` limited to
//! Unicode scalar values), and integer numbers that fit in an `i64`.
//! Texts with a fractional part or exponent are not accepted. The
//! executable parser returns precisely what the spec functions say.

use vstd::prelude::*;
use vstd::string::StrSliceExecFns;

use crate::json::{jfields_from, jvals_from, JVal, Json};

verus! {

broadcast use {vstd::seq::group_seq_axioms, vstd::std_specs::vec::group_vec_axioms};

/// JSON insignificant whitespace.
pub open spec fn is_ws(c: char) -> bool {
    c == ' ' || c == '\t' || c == '\n' || c == '\r'
}

/// The first index at or after `i` holding a non-whitespace character.
pub open spec fn skip_ws(s: Seq<char>, i: int) -> int
    decreases s.len() - i,
{
    if 0 <= i < s.len() && is_ws(s[i]) {
        skip_ws(s, i + 1)
    } else {
        i
    }
}

/// A decimal digit.
pub open spec fn is_digit(c: char) -> bool {
    48 <= c as u32 <= 57
}

/// The value of a decimal digit character.
pub open spec fn digit_val(c: char) -> int {
    c as u32 - 48
}

/// The value of a hexadecimal digit character, or -1.
pub open spec fn hex_val(c: char) -> int {
    if is_digit(c) {
        digit_val(c)
    } else if 97 <= c as u32 <= 102 {
        c as u32 - 87
    } else if 65 <= c as u32 <= 70 {
        c as u32 - 55
    } else {
        -1
    }
}

/// The first index at or after `i` holding a non-digit character.
pub open spec fn digits_end(s: Seq<char>, i: int) -> int
    decreases s.len() - i,
{
    if 0 <= i < s.len() && is_digit(s[i]) {
        digits_end(s, i + 1)
    } else {
        i
    }
}

pub proof fn lemma_digits_end_bounds(s: Seq<char>, i: int)
    requires
        0 <= i <= s.len(),
    ensures
        i <= digits_end(s, i) <= s.len(),
        forall|k: int| i <= k < digits_end(s, i) ==> is_digit(s[k]),
        digits_end(s, i) < s.len() ==> !is_digit(s[digits_end(s, i)]),
    decreases s.len() - i,
{
    if i < s.len() && is_digit(s[i]) {
        lemma_digits_end_bounds(s, i + 1);
    }
}

/// Left fold of the digit characters in `s[i..j)` onto `acc`.
pub open spec fn digits_val(s: Seq<char>, i: int, j: int, acc: nat) -> nat
    decreases j - i,
{
    if i < j {
        digits_val(s, i + 1, j, acc * 10 + (if digit_val(s[i]) >= 0 {
            digit_val(s[i]) as nat
        } else {
            0
        }))
    } else {
        acc
    }
}

/// Magnitude bound of an `i64`.
pub open spec fn i64_mag_bound() -> nat {
    9223372036854775808nat
}

/// Parses a number at `i`: an optional minus, then digits with no
/// pointless leading zero, valued within `i64`.
pub open spec fn parse_number(s: Seq<char>, i: int) -> Option<(JVal, int)> {
    let neg = 0 <= i < s.len() && s[i] == '-';
    let d0 = if neg {
        i + 1
    } else {
        i
    };
    if !(0 <= d0 < s.len() && is_digit(s[d0])) {
        None
    } else {
        let j = digits_end(s, d0);
        if s[d0] == '0' && j != d0 + 1 {
            None
        } else {
            let mag = digits_val(s, d0, j, 0);
            if neg {
                if mag <= i64_mag_bound() {
                    Some((JVal::Int(-(mag as int)), j))
                } else {
                    None
                }
            } else {
                if mag < i64_mag_bound() {
                    Some((JVal::Int(mag as int), j))
                } else {
                    None
                }
            }
        }
    }
}

/// What a single-character escape stands for.
pub open spec fn esc_map(c: char) -> Option<char> {
    if c == '"' {
        Some('"')
    } else if c == '\\' {
        Some('\\')
    } else if c == '/' {
        Some('/')
    } else if c == 'b' {
        Some('\u{8}')
    } else if c == 'f' {
        Some('\u{c}')
    } else if c == 'n' {
        Some('\n')
    } else if c == 'r' {
        Some('\r')
    } else if c == 't' {
        Some('\t')
    } else {
        None
    }
}

/// A Unicode scalar value: a valid `char` code.
pub open spec fn is_scalar_code(u: int) -> bool {
    (0 <= u < 0xD800) || (0xE000 <= u <= 0x10FFFF)
}

/// The code of the `\uXXXX` escape whose four hex digits start at `i`.
pub open spec fn hex4_val(s: Seq<char>, i: int) -> int {
    hex_val(s[i]) * 4096 + hex_val(s[i + 1]) * 256 + hex_val(s[i + 2]) * 16 + hex_val(s[i + 3])
}

pub open spec fn hex4_ok(s: Seq<char>, i: int) -> bool {
    0 <= i && i + 4 <= s.len() && hex_val(s[i]) >= 0 && hex_val(s[i + 1]) >= 0 && hex_val(
        s[i + 2],
    ) >= 0 && hex_val(s[i + 3]) >= 0
}

/// Parses the body of a string literal from `i` up to and past the
/// closing quote, yielding the characters denoted.
pub open spec fn parse_str_body(s: Seq<char>, i: int) -> Option<(Seq<char>, int)>
    decreases s.len() - i, 0int,
{
    if !(0 <= i < s.len()) {
        None
    } else if s[i] == '"' {
        Some((Seq::empty(), i + 1))
    } else if s[i] == '\\' {
        if i + 1 < s.len() {
            if s[i + 1] == 'u' {
                if hex4_ok(s, i + 2) && is_scalar_code(hex4_val(s, i + 2)) {
                    match parse_str_body(s, i + 6) {
                        Some((rest, j)) => Some(
                            (seq![(hex4_val(s, i + 2) as u32) as char] + rest, j),
                        ),
                        None => None,
                    }
                } else {
                    None
                }
            } else {
                match esc_map(s[i + 1]) {
                    Some(c) => match parse_str_body(s, i + 2) {
                        Some((rest, j)) => Some((seq![c] + rest, j)),
                        None => None,
                    },
                    None => None,
                }
            }
        } else {
            None
        }
    } else if (s[i] as u32) < 32 {
        None
    } else {
        match parse_str_body(s, i + 1) {
            Some((rest, j)) => Some((seq![s[i]] + rest, j)),
            None => None,
        }
    }
}

/// Parses one JSON value whose first character is at `i`.
pub open spec fn parse_val(s: Seq<char>, i: int) -> Option<(JVal, int)>
    decreases s.len() - i, 2int,
{
    if !(0 <= i < s.len()) {
        None
    } else if s[i] == 'n' {
        if i + 4 <= s.len() && s[i + 1] == 'u' && s[i + 2] == 'l' && s[i + 3] == 'l' {
            Some((JVal::Null, i + 4))
        } else {
            None
        }
    } else if s[i] == 't' {
        if i + 4 <= s.len() && s[i + 1] == 'r' && s[i + 2] == 'u' && s[i + 3] == 'e' {
            Some((JVal::Bool(true), i + 4))
        } else {
            None
        }
    } else if s[i] == 'f' {
        if i + 5 <= s.len() && s[i + 1] == 'a' && s[i + 2] == 'l' && s[i + 3] == 's' && s[i + 4]
            == 'e' {
            Some((JVal::Bool(false), i + 5))
        } else {
            None
        }
    } else if s[i] == '"' {
        match parse_str_body(s, i + 1) {
            Some((cs, j)) => Some((JVal::Str(cs), j)),
            None => None,
        }
    } else if s[i] == '-' || is_digit(s[i]) {
        parse_number(s, i)
    } else if s[i] == '[' {
        let k = skip_ws(s, i + 1);
        if k < s.len() && s[k] == ']' {
            Some((JVal::Arr(Seq::empty()), k + 1))
        } else if i < k <= s.len() {
            match parse_elems(s, k) {
                Some((items, j)) => Some((JVal::Arr(items), j)),
                None => None,
            }
        } else {
            None
        }
    } else if s[i] == '{' {
        let k = skip_ws(s, i + 1);
        if k < s.len() && s[k] == '}' {
            Some((JVal::Obj(Seq::empty()), k + 1))
        } else if i < k <= s.len() {
            match parse_membs(s, k) {
                Some((fields, j)) => Some((JVal::Obj(fields), j)),
                None => None,
            }
        } else {
            None
        }
    } else {
        None
    }
}

/// Parses the elements of an array from the first element at `i` up to
/// and past the closing bracket.
pub open spec fn parse_elems(s: Seq<char>, i: int) -> Option<(Seq<JVal>, int)>
    decreases s.len() - i, 3int,
{
    match parse_val(s, i) {
        Some((v, j)) => {
            if i < j <= s.len() {
                let k = skip_ws(s, j);
                if j <= k < s.len() && s[k] == ']' {
                    Some((seq![v], k + 1))
                } else if j <= k && k + 1 < s.len() && s[k] == ',' && i < skip_ws(s, k + 1) <= s.len() {
                    match parse_elems(s, skip_ws(s, k + 1)) {
                        Some((rest, m)) => Some((seq![v] + rest, m)),
                        None => None,
                    }
                } else {
                    None
                }
            } else {
                None
            }
        },
        None => None,
    }
}

/// Parses the members of an object from the first key at `i` up to and
/// past the closing brace.
pub open spec fn parse_membs(s: Seq<char>, i: int) -> Option<(Seq<(Seq<char>, JVal)>, int)>
    decreases s.len() - i, 3int,
{
    if !(0 <= i < s.len() && s[i] == '"') {
        None
    } else {
        match parse_str_body(s, i + 1) {
            Some((key, j)) => {
                if i < j <= s.len() {
                    let c = skip_ws(s, j);
                    if j <= c < s.len() && s[c] == ':' {
                        let vi = skip_ws(s, c + 1);
                        if c < vi <= s.len() {
                            match parse_val(s, vi) {
                                Some((v, j2)) => {
                                    if vi < j2 <= s.len() {
                                        let k = skip_ws(s, j2);
                                        if j2 <= k < s.len() && s[k] == '}' {
                                            Some((seq![(key, v)], k + 1))
                                        } else if j2 <= k && k + 1 < s.len() && s[k] == ','
                                            && i < skip_ws(s, k + 1) <= s.len() {
                                            match parse_membs(s, skip_ws(s, k + 1)) {
                                                Some((rest, m)) => Some(
                                                    (seq![(key, v)] + rest, m),
                                                ),
                                                None => None,
                                            }
                                        } else {
                                            None
                                        }
                                    } else {
                                        None
                                    }
                                },
                                None => None,
                            }
                        } else {
                            None
                        }
                    } else {
                        None
                    }
                } else {
                    None
                }
            },
            None => None,
        }
    }
}

/// Parses a complete text: one value, possibly surrounded by whitespace.
pub open spec fn parse_json_text(s: Seq<char>) -> Option<JVal> {
    let i = skip_ws(s, 0);
    if 0 <= i <= s.len() {
        match parse_val(s, i) {
            Some((v, j)) => {
                if 0 <= j <= s.len() && skip_ws(s, j) == s.len() {
                    Some(v)
                } else {
                    None
                }
            },
            None => None,
        }
    } else {
        None
    }
}

fn is_ws_c(c: char) -> (r: bool)
    ensures
        r == is_ws(c),
{
    c == ' ' || c == '\t' || c == '\n' || c == '\r'
}

fn ws_end(s: &Vec<char>, i: usize) -> (r: usize)
    requires
        i <= s@.len(),
    ensures
        r as int == skip_ws(s@, i as int),
        i <= r <= s@.len(),
    decreases s@.len() - i,
{
    if i < s.len() && is_ws_c(s[i]) {
        ws_end(s, i + 1)
    } else {
        i
    }
}

fn is_digit_c(c: char) -> (r: bool)
    ensures
        r == is_digit(c),
{
    let u = c as u32;
    48 <= u && u <= 57
}

fn digits_end_e(s: &Vec<char>, i: usize) -> (r: usize)
    requires
        i <= s@.len(),
    ensures
        r as int == digits_end(s@, i as int),
        i <= r <= s@.len(),
    decreases s@.len() - i,
{
    if i < s.len() && is_digit_c(s[i]) {
        digits_end_e(s, i + 1)
    } else {
        i
    }
}

proof fn lemma_digits_val_ge(s: Seq<char>, i: int, j: int, acc: nat)
    ensures
        digits_val(s, i, j, acc) >= acc,
    decreases j - i,
{
    if i < j {
        lemma_digits_val_ge(
            s,
            i + 1,
            j,
            acc * 10 + (if digit_val(s[i]) >= 0 {
                digit_val(s[i]) as nat
            } else {
                0
            }),
        );
    }
}

fn fold_digits(s: &Vec<char>, k: usize, j: usize, acc: u64) -> (r: Option<u64>)
    requires
        k <= j <= s@.len(),
        acc <= 9223372036854775808,
        forall|m: int| k <= m < j ==> is_digit(s@[m]),
    ensures
        match r {
            Some(v) => v as nat == digits_val(s@, k as int, j as int, acc as nat) && v
                <= 9223372036854775808,
            None => digits_val(s@, k as int, j as int, acc as nat) > 9223372036854775808,
        },
    decreases j - k,
{
    if k == j {
        return Some(acc);
    }
    assert(is_digit(s@[k as int]));
    let d = (s[k] as u32 - 48) as u64;
    if acc > 922337203685477580u64 {
        proof {
            lemma_digits_val_ge(s@, k + 1 as int, j as int, (acc * 10 + d) as nat);
        }
        return None;
    }
    let acc2 = acc * 10 + d;
    if acc2 > 9223372036854775808u64 {
        proof {
            lemma_digits_val_ge(s@, k + 1 as int, j as int, acc2 as nat);
        }
        return None;
    }
    fold_digits(s, k + 1, j, acc2)
}

fn parse_number_e(s: &Vec<char>, i: usize) -> (r: Option<(i64, usize)>)
    requires
        i <= s@.len(),
    ensures
        match r {
            Some((n, j)) => parse_number(s@, i as int) == Some((JVal::Int(n as int), j as int))
                && i < j <= s@.len(),
            None => parse_number(s@, i as int) is None,
        },
{
    let neg = i < s.len() && s[i] == '-';
    let d0 = if neg {
        i + 1
    } else {
        i
    };
    if !(d0 < s.len() && is_digit_c(s[d0])) {
        return None;
    }
    let j = digits_end_e(s, d0);
    proof {
        lemma_digits_end_bounds(s@, d0 as int);
    }
    assert(j > d0);
    if s[d0] == '0' && j != d0 + 1 {
        return None;
    }
    match fold_digits(s, d0, j, 0) {
        None => None,
        Some(mag) => {
            if neg {
                if mag == 9223372036854775808u64 {
                    Some((i64::MIN, j))
                } else {
                    Some((-(mag as i64), j))
                }
            } else {
                if mag < 9223372036854775808u64 {
                    Some((mag as i64, j))
                } else {
                    None
                }
            }
        },
    }
}

fn esc_map_e(c: char) -> (r: Option<char>)
    ensures
        r == esc_map(c),
{
    if c == '"' {
        Some('"')
    } else if c == '\\' {
        Some('\\')
    } else if c == '/' {
        Some('/')
    } else if c == 'b' {
        Some('\u{8}')
    } else if c == 'f' {
        Some('\u{c}')
    } else if c == 'n' {
        Some('\n')
    } else if c == 'r' {
        Some('\r')
    } else if c == 't' {
        Some('\t')
    } else {
        None
    }
}

fn hex_val_c(c: char) -> (r: i32)
    ensures
        r as int == hex_val(c),
{
    let u = c as u32;
    if 48 <= u && u <= 57 {
        (u - 48) as i32
    } else if 97 <= u && u <= 102 {
        (u - 87) as i32
    } else if 65 <= u && u <= 70 {
        (u - 55) as i32
    } else {
        -1
    }
}

fn parse_str_body_e(s: &Vec<char>, i: usize) -> (r: Option<(Vec<char>, usize)>)
    requires
        i <= s@.len(),
    ensures
        match r {
            Some((cs, j)) => parse_str_body(s@, i as int) == Some((cs@, j as int)) && i < j
                <= s@.len(),
            None => parse_str_body(s@, i as int) is None,
        },
    decreases s@.len() - i,
{
    if !(i < s.len()) {
        return None;
    }
    let c = s[i];
    if c == '"' {
        let cs: Vec<char> = Vec::new();
        return Some((cs, i + 1));
    }
    if c == '\\' {
        if !(i + 1 < s.len()) {
            return None;
        }
        let e = s[i + 1];
        if e == 'u' {
            if s.len() - i < 6 {
                return None;
            }
            let h0 = hex_val_c(s[i + 2]);
            let h1 = hex_val_c(s[i + 3]);
            let h2 = hex_val_c(s[i + 4]);
            let h3 = hex_val_c(s[i + 5]);
            if h0 < 0 || h1 < 0 || h2 < 0 || h3 < 0 {
                return None;
            }
            let code: u32 = (h0 as u32) * 4096 + (h1 as u32) * 256 + (h2 as u32) * 16 + (
            h3 as u32);
            assert(code as int == hex4_val(s@, i + 2 as int));
            match crate::ext::char_from_u32(code) {
                None => None,
                Some(ch) => {
                    match parse_str_body_e(s, i + 6) {
                        Some((rest, j)) => {
                            let mut cs = rest;
                            cs.insert(0, ch);
                            assert(cs@ =~= seq![ch] + cs@.subrange(1, cs@.len() as int));
                            Some((cs, j))
                        },
                        None => None,
                    }
                },
            }
        } else {
            match esc_map_e(e) {
                Some(ch) => {
                    match parse_str_body_e(s, i + 2) {
                        Some((rest, j)) => {
                            let mut cs = rest;
                            cs.insert(0, ch);
                            Some((cs, j))
                        },
                        None => None,
                    }
                },
                None => None,
            }
        }
    } else if (c as u32) < 32 {
        None
    } else {
        match parse_str_body_e(s, i + 1) {
            Some((rest, j)) => {
                let mut cs = rest;
                cs.insert(0, c);
                Some((cs, j))
            },
            None => None,
        }
    }
}

/// Parses one JSON value whose first character is at `i`.
fn parse_val_e(s: &Vec<char>, i: usize) -> (r: Option<(Json, usize)>)
    requires
        i <= s@.len(),
    ensures
        match r {
            Some((v, j)) => parse_val(s@, i as int) == Some((v.jval(), j as int)) && i < j
                <= s@.len(),
            None => parse_val(s@, i as int) is None,
        },
    decreases s@.len() - i, 2int,
{
    if !(i < s.len()) {
        return None;
    }
    let c = s[i];
    if c == 'n' {
        if s.len() - i >= 4 && s[i + 1] == 'u' && s[i + 2] == 'l' && s[i + 3] == 'l' {
            Some((Json::Null, i + 4))
        } else {
            None
        }
    } else if c == 't' {
        if s.len() - i >= 4 && s[i + 1] == 'r' && s[i + 2] == 'u' && s[i + 3] == 'e' {
            Some((Json::Bool(true), i + 4))
        } else {
            None
        }
    } else if c == 'f' {
        if s.len() - i >= 5 && s[i + 1] == 'a' && s[i + 2] == 'l' && s[i + 3] == 's' && s[i + 4]
            == 'e' {
            Some((Json::Bool(false), i + 5))
        } else {
            None
        }
    } else if c == '"' {
        match parse_str_body_e(s, i + 1) {
            Some((cs, j)) => {
                let st = crate::ext::string_from_chars(&cs);
                Some((Json::Str(st), j))
            },
            None => None,
        }
    } else if c == '-' || is_digit_c(c) {
        match parse_number_e(s, i) {
            Some((n, j)) => Some((Json::Int(n), j)),
            None => None,
        }
    } else if c == '[' {
        let k = ws_end(s, i + 1);
        if k < s.len() && s[k] == ']' {
            let items: Vec<Json> = Vec::new();
            assert(jvals_from(items@, 0) =~= Seq::<JVal>::empty());
            Some((Json::Arr(items), k + 1))
        } else {
            match parse_elems_e(s, k) {
                Some((items, j)) => Some((Json::Arr(items), j)),
                None => None,
            }
        }
    } else if c == '{' {
        let k = ws_end(s, i + 1);
        if k < s.len() && s[k] == '}' {
            let fields: Vec<(String, Json)> = Vec::new();
            assert(jfields_from(fields@, 0) =~= Seq::<(Seq<char>, JVal)>::empty());
            Some((Json::Obj(fields), k + 1))
        } else {
            match parse_membs_e(s, k) {
                Some((fields, j)) => Some((Json::Obj(fields), j)),
                None => None,
            }
        }
    } else {
        None
    }
}

fn parse_elems_e(s: &Vec<char>, i: usize) -> (r: Option<(Vec<Json>, usize)>)
    requires
        i <= s@.len(),
    ensures
        match r {
            Some((items, j)) => parse_elems(s@, i as int) == Some(
                (jvals_from(items@, 0), j as int),
            ) && i < j <= s@.len(),
            None => parse_elems(s@, i as int) is None,
        },
    decreases s@.len() - i, 3int,
{
    match parse_val_e(s, i) {
        None => None,
        Some((v, j)) => {
            let k = ws_end(s, j);
            if k < s.len() && s[k] == ']' {
                let mut items: Vec<Json> = Vec::new();
                items.push(v);
                proof {
                    crate::json::lemma_jvals_from(items@, 0);
                    assert(jvals_from(items@, 0) =~= seq![v.jval()]);
                }
                Some((items, k + 1))
            } else if k < s.len() && s.len() - k > 1 && s[k] == ',' {
                let m = ws_end(s, k + 1);
                match parse_elems_e(s, m) {
                    Some((rest, j2)) => {
                        let ghost grest = rest@;
                        let mut items = rest;
                        items.insert(0, v);
                        proof {
                            assert(items@ =~= seq![v] + grest);
                            crate::json::lemma_jvals_prepend(v, grest);
                        }
                        Some((items, j2))
                    },
                    None => None,
                }
            } else {
                None
            }
        },
    }
}

fn parse_membs_e(s: &Vec<char>, i: usize) -> (r: Option<(Vec<(String, Json)>, usize)>)
    requires
        i <= s@.len(),
    ensures
        match r {
            Some((fields, j)) => parse_membs(s@, i as int) == Some(
                (jfields_from(fields@, 0), j as int),
            ) && i < j <= s@.len(),
            None => parse_membs(s@, i as int) is None,
        },
    decreases s@.len() - i, 3int,
{
    if !(i < s.len() && s[i] == '"') {
        return None;
    }
    match parse_str_body_e(s, i + 1) {
        None => None,
        Some((key_cs, j)) => {
            let key = crate::ext::string_from_chars(&key_cs);
            let cpos = ws_end(s, j);
            if !(cpos < s.len() && s[cpos] == ':') {
                return None;
            }
            let vi = ws_end(s, cpos + 1);
            match parse_val_e(s, vi) {
                None => None,
                Some((v, j2)) => {
                    let k = ws_end(s, j2);
                    if k < s.len() && s[k] == '}' {
                        let mut fields: Vec<(String, Json)> = Vec::new();
                        fields.push((key, v));
                        proof {
                            crate::json::lemma_jfields_from(fields@, 0);
                            assert(jfields_from(fields@, 0) =~= seq![(key@, v.jval())]);
                        }
                        Some((fields, k + 1))
                    } else if k < s.len() && s.len() - k > 1 && s[k] == ',' {
                        let m = ws_end(s, k + 1);
                        match parse_membs_e(s, m) {
                            Some((rest, j3)) => {
                                let ghost grest = rest@;
                                let mut fields = rest;
                                fields.insert(0, (key, v));
                                proof {
                                    assert(fields@ =~= seq![(key, v)] + grest);
                                    crate::json::lemma_jfields_prepend((key, v), grest);
                                }
                                Some((fields, j3))
                            },
                            None => None,
                        }
                    } else {
                        None
                    }
                },
            }
        },
    }
}

/// The characters of a string slice, one by one.
pub fn str_chars(s: &str) -> (r: Vec<char>)
    ensures
        r@ == s@,
{
    let n = s.unicode_len();
    let mut out: Vec<char> = Vec::new();
    let mut i: usize = 0;
    while i < n
        invariant
            n == s@.len(),
            i <= n,
            out@ =~= s@.subrange(0, i as int),
        decreases n - i,
    {
        out.push(s.get_char(i));
        i = i + 1;
    }
    assert(out@ =~= s@);
    out
}

/// Parses a complete text, as characters.
pub fn parse_json_chars(s: &Vec<char>) -> (r: Option<Json>)
    ensures
        match r {
            Some(v) => parse_json_text(s@) == Some(v.jval()),
            None => parse_json_text(s@) is None,
        },
{
    let i = ws_end(s, 0);
    match parse_val_e(s, i) {
        Some((v, j)) => {
            let e = ws_end(s, j);
            if e == s.len() {
                Some(v)
            } else {
                None
            }
        },
        None => None,
    }
}

} // verus!
