//! JSON serialization.
//!
//! `jenc` is the mathematical encoding of a `JVal` into text: no
//! insignificant whitespace, object keys in the order given, strings with
//! `"` and `\` escaped and control characters written as `\u00XX`. The
//! executable encoder produces exactly that text.

use vstd::prelude::*;
use vstd::string::StrSliceExecFns;

use crate::json::{jfields_from, jvals_from, JVal, Json};

verus! {

broadcast use {vstd::seq::group_seq_axioms, vstd::std_specs::vec::group_vec_axioms};

/// The character for a decimal digit value.
pub open spec fn digit_char(n: int) -> char {
    ((48 + n) as u8) as char
}

/// The lowercase character for a hexadecimal digit value.
pub open spec fn hexdigit_char(n: int) -> char {
    if n < 10 {
        digit_char(n)
    } else {
        ((87 + n) as u8) as char
    }
}

/// Decimal digits of `n`, most significant first.
pub open spec fn dec_digits(n: nat) -> Seq<char>
    decreases n,
{
    if n < 10 {
        seq![digit_char(n as int)]
    } else {
        dec_digits(n / 10) + seq![digit_char((n % 10) as int)]
    }
}

/// Decimal form of an integer, with a leading `-` when negative.
pub open spec fn enc_int(n: int) -> Seq<char> {
    if n < 0 {
        seq!['-'] + dec_digits((-n) as nat)
    } else {
        dec_digits(n as nat)
    }
}

/// How one character appears inside a JSON string literal.
pub open spec fn esc_char(c: char) -> Seq<char> {
    if c == '"' {
        seq!['\\', '"']
    } else if c == '\\' {
        seq!['\\', '\\']
    } else if (c as u32) < 32 {
        seq![
            '\\',
            'u',
            '0',
            '0',
            hexdigit_char((c as u32 / 16) as int),
            hexdigit_char((c as u32 % 16) as int),
        ]
    } else {
        seq![c]
    }
}

/// The escaped body of a string, from index `i` on.
pub open spec fn esc_str(s: Seq<char>, i: int) -> Seq<char>
    decreases s.len() - i,
{
    if 0 <= i < s.len() {
        esc_char(s[i]) + esc_str(s, i + 1)
    } else {
        Seq::empty()
    }
}

/// A JSON string literal: quotes around the escaped body.
pub open spec fn enc_str(s: Seq<char>) -> Seq<char> {
    seq!['"'] + esc_str(s, 0) + seq!['"']
}

/// The text of a JSON value.
pub open spec fn jenc(v: JVal) -> Seq<char>
    decreases v, 0int,
{
    match v {
        JVal::Null => seq!['n', 'u', 'l', 'l'],
        JVal::Bool(b) => if b {
            seq!['t', 'r', 'u', 'e']
        } else {
            seq!['f', 'a', 'l', 's', 'e']
        },
        JVal::Int(n) => enc_int(n),
        JVal::Str(s) => enc_str(s),
        JVal::Arr(items) => seq!['['] + jenc_items(items, 0) + seq![']'],
        JVal::Obj(fields) => seq!['{'] + jenc_fields(fields, 0) + seq!['}'],
    }
}

/// Comma-separated encodings of `items[i..]`.
pub open spec fn jenc_items(items: Seq<JVal>, i: int) -> Seq<char>
    decreases items, items.len() - i,
{
    if !(0 <= i < items.len()) {
        Seq::empty()
    } else if i == items.len() - 1 {
        jenc(items[i])
    } else {
        jenc(items[i]) + seq![','] + jenc_items(items, i + 1)
    }
}

/// Comma-separated `key:value` encodings of `fields[i..]`.
pub open spec fn jenc_fields(fields: Seq<(Seq<char>, JVal)>, i: int) -> Seq<char>
    decreases fields, fields.len() - i,
{
    if !(0 <= i < fields.len()) {
        Seq::empty()
    } else {
        let one = enc_str(fields[i].0) + seq![':'] + jenc(fields[i].1);
        if i == fields.len() - 1 {
            one
        } else {
            one + seq![','] + jenc_fields(fields, i + 1)
        }
    }
}

fn push_digit(n: u64, out: &mut Vec<char>)
    requires
        n < 16,
    ensures
        final(out)@ == old(out)@ + seq![hexdigit_char(n as int)],
{
    let c: char = if n < 10 {
        (48 + n as u8) as char
    } else {
        (87 + n as u8) as char
    };
    out.push(c);
}

fn push_dec_digits(n: u64, out: &mut Vec<char>)
    ensures
        final(out)@ == old(out)@ + dec_digits(n as nat),
    decreases n,
{
    if n < 10 {
        push_digit(n, out);
    } else {
        push_dec_digits(n / 10, out);
        push_digit(n % 10, out);
    }
}

fn push_int(n: i64, out: &mut Vec<char>)
    ensures
        final(out)@ == old(out)@ + enc_int(n as int),
{
    if n < 0 {
        out.push('-');
        let m: u64 = if n == i64::MIN {
            9223372036854775808u64
        } else {
            (-n) as u64
        };
        assert(m as nat == (-(n as int)) as nat);
        push_dec_digits(m, out);
    } else {
        push_dec_digits(n as u64, out);
    }
}

fn push_escaped(s: &str, i: usize, out: &mut Vec<char>)
    requires
        i <= s@.len(),
    ensures
        final(out)@ == old(out)@ + esc_str(s@, i as int),
    decreases s@.len() - i,
{
    if i < s.unicode_len() {
        let c = s.get_char(i);
        if c == '"' {
            out.push('\\');
            out.push('"');
        } else if c == '\\' {
            out.push('\\');
            out.push('\\');
        } else if (c as u32) < 32 {
            out.push('\\');
            out.push('u');
            out.push('0');
            out.push('0');
            push_digit((c as u32 / 16) as u64, out);
            push_digit((c as u32 % 16) as u64, out);
        } else {
            out.push(c);
        }
        push_escaped(s, i + 1, out);
    }
}

fn push_str_literal(s: &str, out: &mut Vec<char>)
    ensures
        final(out)@ == old(out)@ + enc_str(s@),
{
    out.push('"');
    push_escaped(s, 0, out);
    out.push('"');
}

/// Appends the text of `j` to `out`.
pub fn push_json(j: &Json, out: &mut Vec<char>)
    ensures
        final(out)@ == old(out)@ + jenc(j.jval()),
    decreases j,
{
    match j {
        Json::Null => {
            out.push('n');
            out.push('u');
            out.push('l');
            out.push('l');
        },
        Json::Bool(b) => {
            if *b {
                out.push('t');
                out.push('r');
                out.push('u');
                out.push('e');
            } else {
                out.push('f');
                out.push('a');
                out.push('l');
                out.push('s');
                out.push('e');
            }
        },
        Json::Int(n) => {
            push_int(*n, out);
        },
        Json::Str(s) => {
            push_str_literal(s.as_str(), out);
        },
        Json::Arr(items) => {
            out.push('[');
            push_items(items, 0, out);
            out.push(']');
        },
        Json::Obj(fields) => {
            out.push('{');
            push_fields(fields, 0, out);
            out.push('}');
        },
    }
}

fn push_items(items: &Vec<Json>, i: usize, out: &mut Vec<char>)
    requires
        i <= items@.len(),
    ensures
        final(out)@ == old(out)@ + jenc_items(jvals_from(items@, 0), i as int),
    decreases items, items@.len() - i,
{
    proof {
        crate::json::lemma_jvals_from(items@, 0);
    }
    if i < items.len() {
        push_json(&items[i], out);
        if i + 1 < items.len() {
            out.push(',');
            push_items(items, i + 1, out);
        }
    }
}

fn push_fields(fields: &Vec<(String, Json)>, i: usize, out: &mut Vec<char>)
    requires
        i <= fields@.len(),
    ensures
        final(out)@ == old(out)@ + jenc_fields(jfields_from(fields@, 0), i as int),
    decreases fields, fields@.len() - i,
{
    proof {
        crate::json::lemma_jfields_from(fields@, 0);
    }
    if i < fields.len() {
        push_str_literal(fields[i].0.as_str(), out);
        out.push(':');
        push_json(&fields[i].1, out);
        if i + 1 < fields.len() {
            out.push(',');
            push_fields(fields, i + 1, out);
        }
    }
}

/// The text of `j`, as characters.
pub fn json_chars(j: &Json) -> (r: Vec<char>)
    ensures
        r@ == jenc(j.jval()),
{
    let mut out: Vec<char> = Vec::new();
    push_json(j, &mut out);
    out
}

} // verus!
