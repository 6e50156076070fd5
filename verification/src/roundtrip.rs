//! The codec round trip: parsing the encoding of a value gives the value
//! back.
//!
//! The encoder writes one canonical text per value; the parser accepts
//! that text (among others) and `lemma_parse_of_jenc` proves it denotes
//! the original value, for every well-formed `JVal`.

use vstd::prelude::*;

use crate::encode::{dec_digits, digit_char, enc_int, enc_str, esc_char, esc_str, hexdigit_char,
    jenc, jenc_fields, jenc_items};
use crate::json::{jfields_wf, jval_wf, jvals_wf, JVal};
use crate::parse::{digit_val, digits_end, digits_val, hex_val, is_digit, is_ws, parse_elems,
    parse_json_text, parse_membs, parse_number, parse_str_body, parse_val, skip_ws};

verus! {

broadcast use vstd::seq::group_seq_axioms;

/// Digits encode as digit characters, without a pointless leading zero.
proof fn lemma_dec_digits_props(n: nat)
    ensures
        dec_digits(n).len() >= 1,
        forall|k: int| 0 <= k < dec_digits(n).len() ==> is_digit(#[trigger] dec_digits(n)[k]),
        n >= 1 ==> dec_digits(n)[0] != '0',
        n < 10 ==> dec_digits(n).len() == 1 && dec_digits(n)[0] == digit_char(n as int),
    decreases n,
{
    if n >= 10 {
        lemma_dec_digits_props(n / 10);
    }
}

/// A maximal digit region ends exactly where the digits end.
proof fn lemma_digits_end_region(s: Seq<char>, a: int, b: int)
    requires
        0 <= a <= b <= s.len(),
        forall|k: int| a <= k < b ==> is_digit(s[k]),
        b < s.len() ==> !is_digit(s[b]),
    ensures
        digits_end(s, a) == b,
    decreases b - a,
{
    if a < b {
        lemma_digits_end_region(s, a + 1, b);
    }
}

/// Folding digits takes the last digit as the low-order one.
proof fn lemma_digits_val_peel_right(s: Seq<char>, i: int, j: int, acc: nat)
    requires
        i < j,
    ensures
        digits_val(s, i, j, acc) == digits_val(s, i, j - 1, acc) * 10 + (if digit_val(
            s[j - 1],
        ) >= 0 {
            digit_val(s[j - 1]) as nat
        } else {
            0
        }),
    decreases j - i,
{
    let step: nat = acc * 10 + (if digit_val(s[i]) >= 0 {
        digit_val(s[i]) as nat
    } else {
        0
    });
    if i + 1 < j {
        lemma_digits_val_peel_right(s, i + 1, j, step);
        assert(digits_val(s, i, j, acc) == digits_val(s, i + 1, j, step));
        assert(digits_val(s, i, j - 1, acc) == digits_val(s, i + 1, j - 1, step));
    } else {
        assert(digits_val(s, i, j, acc) == digits_val(s, i + 1, j, step));
        assert(digits_val(s, i + 1, j, step) == step);
        assert(digits_val(s, i, j - 1, acc) == acc);
    }
}

/// Folding the digits of `dec_digits(n)` gives back `n`.
proof fn lemma_fold_enc(n: nat, s: Seq<char>, i: int)
    requires
        0 <= i,
        i + dec_digits(n).len() <= s.len(),
        s.subrange(i, i + dec_digits(n).len()) =~= dec_digits(n),
    ensures
        digits_val(s, i, i + dec_digits(n).len(), 0) == n,
    decreases n,
{
    let l = dec_digits(n).len() as int;
    if n < 10 {
        assert(s.subrange(i, i + l)[0] == dec_digits(n)[0]);
        assert(s[i] == digit_char(n as int));
        assert(digit_val(digit_char(n as int)) == n);
        lemma_digits_val_peel_right(s, i, i + 1, 0);
        assert(digits_val(s, i, i, 0) == 0);
    } else {
        let pre = dec_digits(n / 10);
        let pl = pre.len() as int;
        assert(dec_digits(n) =~= pre + seq![digit_char((n % 10) as int)]);
        assert(s.subrange(i, i + pl) =~= pre) by {
            assert forall|k: int| 0 <= k < pl implies s.subrange(i, i + pl)[k] == pre[k] by {
                assert(s.subrange(i, i + l)[k] == dec_digits(n)[k]);
            }
        }
        lemma_fold_enc(n / 10, s, i);
        lemma_digits_val_peel_right(s, i, i + l, 0);
        assert(s[i + l - 1] == dec_digits(n)[l - 1]) by {
            assert(s.subrange(i, i + l)[l - 1] == dec_digits(n)[l - 1]);
        }
        assert(digit_val(digit_char((n % 10) as int)) == n % 10);
    }
}

/// Parsing the encoding of an integer gives the integer back.
proof fn lemma_enc_int_inv(n: int, s: Seq<char>, i: int)
    requires
        -9223372036854775808 <= n < 9223372036854775808,
        0 <= i,
        i + enc_int(n).len() <= s.len(),
        s.subrange(i, i + enc_int(n).len()) =~= enc_int(n),
        i + enc_int(n).len() < s.len() ==> !is_digit(s[i + enc_int(n).len()]),
    ensures
        parse_number(s, i) == Some((JVal::Int(n), i + enc_int(n).len())),
{
    let l = enc_int(n).len() as int;
    let mag: nat = if n < 0 {
        (-n) as nat
    } else {
        n as nat
    };
    lemma_dec_digits_props(mag);
    let dl = dec_digits(mag).len() as int;
    let d0 = if n < 0 {
        i + 1
    } else {
        i
    };
    assert forall|k: int| 0 <= k < l implies s[i + k] == #[trigger] enc_int(n)[k] by {
        assert(s.subrange(i, i + l)[k] == enc_int(n)[k]);
    }
    if n < 0 {
        assert(enc_int(n)[0] == '-');
        assert(s[i + 0] == enc_int(n)[0]);
        assert(s[i] == '-');
        assert forall|k: int| d0 <= k < d0 + dl implies is_digit(s[k]) by {
            assert(enc_int(n)[k - i] == dec_digits(mag)[k - d0]);
            assert(s[i + (k - i)] == enc_int(n)[k - i]);
        }
    } else {
        assert forall|k: int| d0 <= k < d0 + dl implies is_digit(s[k]) by {
            assert(enc_int(n)[k - i] == dec_digits(mag)[k - d0]);
            assert(s[i + (k - i)] == enc_int(n)[k - i]);
        }
        assert(is_digit(s[d0]));
        assert(s[i] != '-');
    }
    lemma_digits_end_region(s, d0, d0 + dl);
    assert(s.subrange(d0, d0 + dl) =~= dec_digits(mag)) by {
        assert forall|k: int| 0 <= k < dl implies s.subrange(d0, d0 + dl)[k] == dec_digits(mag)[k]
        by {
            assert(enc_int(n)[k + d0 - i] == dec_digits(mag)[k]);
            assert(s[i + (k + d0 - i)] == enc_int(n)[k + d0 - i]);
        }
    }
    lemma_fold_enc(mag, s, d0);
    if mag >= 1 {
        assert(s.subrange(d0, d0 + dl)[0] == dec_digits(mag)[0]);
        assert(s[d0] != '0');
    } else {
        assert(dl == 1);
        assert(s.subrange(d0, d0 + dl)[0] == dec_digits(mag)[0]);
        assert(s[d0] == '0');
    }
}

/// Hex digit characters decode to their values.
proof fn lemma_hexdigit_inv(d: int)
    requires
        0 <= d < 16,
    ensures
        hex_val(hexdigit_char(d)) == d,
{
}

/// Parsing the escaped body of a string (from position `k` of the
/// original) up to its closing quote gives the original characters back.
proof fn lemma_str_body_inv(s0: Seq<char>, k: int, s: Seq<char>, i: int)
    requires
        0 <= k <= s0.len(),
        0 <= i,
        i + esc_str(s0, k).len() < s.len(),
        s.subrange(i, i + esc_str(s0, k).len()) =~= esc_str(s0, k),
        s[i + esc_str(s0, k).len()] == '"',
    ensures
        parse_str_body(s, i) == Some((s0.subrange(k, s0.len() as int), i + esc_str(s0, k).len() + 1)),
    decreases s0.len() - k,
{
    let l = esc_str(s0, k).len() as int;
    assert forall|m: int| 0 <= m < l implies s[i + m] == esc_str(s0, k)[m] by {
        assert(s.subrange(i, i + l)[m] == esc_str(s0, k)[m]);
    }
    if k == s0.len() {
        assert(s[i] == '"');
        assert(s0.subrange(k, s0.len() as int) =~= Seq::<char>::empty());
    } else {
        let c = s0[k];
        let e = esc_char(c);
        let el = e.len() as int;
        let rest = esc_str(s0, k + 1);
        assert(esc_str(s0, k) == e + rest);
        assert forall|m: int| 0 <= m < el implies s[i + m] == #[trigger] e[m] by {
            assert(esc_str(s0, k)[m] == e[m]);
        }
        assert(s.subrange(i + el, i + l) =~= rest) by {
            assert forall|m: int| 0 <= m < l - el implies s.subrange(i + el, i + l)[m] == rest[m]
            by {
                assert(s[i + (el + m)] == esc_str(s0, k)[el + m]);
                assert(esc_str(s0, k)[el + m] == rest[m]);
            }
        }
        lemma_str_body_inv(s0, k + 1, s, i + el);
        assert(s0.subrange(k, s0.len() as int) =~= seq![c] + s0.subrange(k + 1, s0.len() as int));
        if c == '"' {
            assert(e[0] == '\\' && e[1] == '"');
            assert(s[i + 0] == '\\' && s[i + 1] == '"');
        } else if c == '\\' {
            assert(e[0] == '\\' && e[1] == '\\');
            assert(s[i + 0] == '\\' && s[i + 1] == '\\');
        } else if (c as u32) < 32 {
            let hi = (c as u32 / 16) as int;
            let lo = (c as u32 % 16) as int;
            assert(e[0] == '\\' && e[1] == 'u' && e[2] == '0' && e[3] == '0');
            assert(e[4] == hexdigit_char(hi) && e[5] == hexdigit_char(lo));
            assert(s[i + 0] == '\\' && s[i + 1] == 'u' && s[i + 2] == '0' && s[i + 3] == '0');
            assert(s[i + 4] == hexdigit_char(hi));
            assert(s[i + 5] == hexdigit_char(lo));
            lemma_hexdigit_inv(hi);
            lemma_hexdigit_inv(lo);
            assert(hex_val('0') == 0);
            assert(crate::parse::hex4_val(s, i + 2) == c as u32) by {
                assert(hi * 16 + lo == c as u32);
            }
            assert(crate::parse::is_scalar_code(c as u32 as int));
            vstd::utf8::char_u32_cast(c, c as u32);
        } else {
            assert(e[0] == c);
            assert(s[i + 0] == c);
            assert(s[i] != '"' && s[i] != '\\' && (s[i] as u32) >= 32);
        }
    }
}

/// Every encoding is non-empty and starts with a character that is
/// neither whitespace, a digit's continuation risk, nor a closing token.
proof fn lemma_jenc_first(v: JVal)
    ensures
        jenc(v).len() >= 1,
        !is_ws(jenc(v)[0]),
        jenc(v)[0] != ']',
        jenc(v)[0] != '}',
{
    match v {
        JVal::Int(n) => {
            let mag: nat = if n < 0 {
                (-n) as nat
            } else {
                n as nat
            };
            lemma_dec_digits_props(mag);
            if n < 0 {
                assert(jenc(v)[0] == '-');
            } else {
                assert(jenc(v)[0] == dec_digits(mag)[0]);
                assert(is_digit(jenc(v)[0]));
            }
        },
        _ => {},
    }
}

/// Parsing the encoding of a well-formed value, embedded in a larger
/// text and not followed by a digit, gives the value back.
proof fn lemma_parse_enc(v: JVal, s: Seq<char>, i: int)
    requires
        jval_wf(v),
        0 <= i,
        i + jenc(v).len() <= s.len(),
        s.subrange(i, i + jenc(v).len()) =~= jenc(v),
        i + jenc(v).len() < s.len() ==> !is_digit(s[i + jenc(v).len()]),
    ensures
        parse_val(s, i) == Some((v, i + jenc(v).len())),
    decreases v, 0int,
{
    let e = jenc(v);
    let l = e.len() as int;
    assert forall|m: int| 0 <= m < l implies s[i + m] == #[trigger] e[m] by {
        assert(s.subrange(i, i + l)[m] == e[m]);
    }
    lemma_jenc_first(v);
    match v {
        JVal::Null => {
            assert(e[0] == 'n' && e[1] == 'u' && e[2] == 'l' && e[3] == 'l');
            assert(s[i + 0] == 'n' && s[i + 1] == 'u' && s[i + 2] == 'l' && s[i + 3] == 'l');
        },
        JVal::Bool(b) => {
            if b {
                assert(e[0] == 't' && e[1] == 'r' && e[2] == 'u' && e[3] == 'e');
                assert(s[i + 0] == 't' && s[i + 1] == 'r' && s[i + 2] == 'u' && s[i + 3] == 'e');
            } else {
                assert(e[0] == 'f' && e[1] == 'a' && e[2] == 'l' && e[3] == 's' && e[4] == 'e');
                assert(s[i + 0] == 'f' && s[i + 1] == 'a' && s[i + 2] == 'l' && s[i + 3] == 's'
                    && s[i + 4] == 'e');
            }
        },
        JVal::Int(n) => {
            let mag: nat = if n < 0 {
                (-n) as nat
            } else {
                n as nat
            };
            lemma_dec_digits_props(mag);
            assert(s[i + 0] == e[0]);
            if n < 0 {
                assert(e[0] == '-');
            } else {
                assert(e[0] == dec_digits(mag)[0]);
                assert(is_digit(s[i]));
            }
            lemma_enc_int_inv(n, s, i);
        },
        JVal::Str(s0) => {
            assert(e[0] == '"');
            assert(s[i + 0] == '"');
            let bl = esc_str(s0, 0).len() as int;
            assert(l == bl + 2);
            assert forall|m: int| 0 <= m < bl implies s.subrange(i + 1, i + 1 + bl)[m] == esc_str(
                s0,
                0,
            )[m] by {
                assert(e[1 + m] == esc_str(s0, 0)[m]);
                assert(s[i + (1 + m)] == e[1 + m]);
            }
            assert(s.subrange(i + 1, i + 1 + bl) =~= esc_str(s0, 0));
            assert(e[1 + bl] == '"');
            assert(s[i + (1 + bl)] == '"');
            lemma_str_body_inv(s0, 0, s, i + 1);
            assert(s0.subrange(0, s0.len() as int) =~= s0);
        },
        JVal::Arr(items) => {
            assert(e[0] == '[');
            assert(s[i + 0] == '[');
            if items.len() == 0 {
                assert(l == 2);
                assert(e[1] == ']');
                assert(s[i + 1] == ']');
                assert(skip_ws(s, i + 1) == i + 1);
                assert(items =~= Seq::<JVal>::empty());
            } else {
                let inner = jenc_items(items, 0);
                let il = inner.len() as int;
                assert(l == il + 2);
                lemma_jenc_first(items[0]);
                assert(inner[0] == jenc(items[0])[0]);
                assert(e[1] == inner[0]);
                assert(s[i + 1] == inner[0]);
                assert(skip_ws(s, i + 1) == i + 1);
                assert forall|m: int| 0 <= m < il implies s.subrange(i + 1, i + 1 + il)[m]
                    == inner[m] by {
                    assert(e[1 + m] == inner[m]);
                    assert(s[i + (1 + m)] == e[1 + m]);
                }
                assert(s.subrange(i + 1, i + 1 + il) =~= inner);
                assert(e[1 + il] == ']');
                assert(s[i + (1 + il)] == ']');
                lemma_parse_elems_enc(items, 0, s, i + 1);
                assert(items.subrange(0, items.len() as int) =~= items);
            }
        },
        JVal::Obj(fields) => {
            assert(e[0] == '{');
            assert(s[i + 0] == '{');
            if fields.len() == 0 {
                assert(l == 2);
                assert(e[1] == '}');
                assert(s[i + 1] == '}');
                assert(skip_ws(s, i + 1) == i + 1);
                assert(fields =~= Seq::<(Seq<char>, JVal)>::empty());
            } else {
                let inner = jenc_fields(fields, 0);
                let il = inner.len() as int;
                assert(l == il + 2);
                assert(inner[0] == enc_str(fields[0].0)[0]);
                assert(inner[0] == '"');
                assert(e[1] == inner[0]);
                assert(s[i + 1] == '"');
                assert(skip_ws(s, i + 1) == i + 1);
                assert forall|m: int| 0 <= m < il implies s.subrange(i + 1, i + 1 + il)[m]
                    == inner[m] by {
                    assert(e[1 + m] == inner[m]);
                    assert(s[i + (1 + m)] == e[1 + m]);
                }
                assert(s.subrange(i + 1, i + 1 + il) =~= inner);
                assert(e[1 + il] == '}');
                assert(s[i + (1 + il)] == '}');
                lemma_parse_membs_enc(fields, 0, s, i + 1);
                assert(fields.subrange(0, fields.len() as int) =~= fields);
            }
        },
    }
}

/// Parsing the encoded tail of an array, followed by `]`, gives the
/// remaining elements back.
proof fn lemma_parse_elems_enc(items: Seq<JVal>, m: int, s: Seq<char>, i: int)
    requires
        0 <= m < items.len(),
        jvals_wf(items, m),
        0 <= i,
        i + jenc_items(items, m).len() < s.len(),
        s.subrange(i, i + jenc_items(items, m).len()) =~= jenc_items(items, m),
        s[i + jenc_items(items, m).len()] == ']',
    ensures
        parse_elems(s, i) == Some(
            (items.subrange(m, items.len() as int), i + jenc_items(items, m).len() + 1),
        ),
    decreases items, items.len() - m,
{
    let inner = jenc_items(items, m);
    let il = inner.len() as int;
    assert forall|t: int| 0 <= t < il implies s[i + t] == #[trigger] inner[t] by {
        assert(s.subrange(i, i + il)[t] == inner[t]);
    }
    let ej = jenc(items[m]);
    let el = ej.len() as int;
    lemma_jenc_first(items[m]);
    if m == items.len() - 1 {
        assert(inner == ej);
        assert(s.subrange(i, i + el) =~= ej);
        assert(s[i + el] == ']');
        lemma_parse_enc(items[m], s, i);
        let j = i + el;
        assert(skip_ws(s, j) == j);
        assert(items.subrange(m, items.len() as int) =~= seq![items[m]]);
    } else {
        let rest = jenc_items(items, m + 1);
        let rl = rest.len() as int;
        assert(inner == ej + seq![','] + rest);
        assert(il == el + 1 + rl);
        assert(inner[el] == ',');
        assert(s[i + el] == ',');
        assert forall|t: int| 0 <= t < el implies s.subrange(i, i + el)[t] == ej[t] by {
            assert(inner[t] == ej[t]);
            assert(s[i + t] == inner[t]);
        }
        assert(s.subrange(i, i + el) =~= ej);
        lemma_parse_enc(items[m], s, i);
        let j = i + el;
        assert(skip_ws(s, j) == j);
        lemma_jenc_first(items[m + 1]);
        assert(rest[0] == jenc(items[m + 1])[0]);
        assert(inner[el + 1] == rest[0]);
        assert(s[i + (el + 1)] == rest[0]);
        assert(skip_ws(s, j + 1) == j + 1);
        assert forall|t: int| 0 <= t < rl implies s.subrange(j + 1, j + 1 + rl)[t] == rest[t] by {
            assert(inner[el + 1 + t] == rest[t]);
            assert(s[i + (el + 1 + t)] == inner[el + 1 + t]);
        }
        assert(s.subrange(j + 1, j + 1 + rl) =~= rest);
        assert(s[j + 1 + rl] == ']');
        lemma_parse_elems_enc(items, m + 1, s, j + 1);
        assert(items.subrange(m, items.len() as int) =~= seq![items[m]] + items.subrange(
            m + 1,
            items.len() as int,
        ));
    }
}

/// Parsing the encoded tail of an object, followed by `}`, gives the
/// remaining members back.
proof fn lemma_parse_membs_enc(fields: Seq<(Seq<char>, JVal)>, m: int, s: Seq<char>, i: int)
    requires
        0 <= m < fields.len(),
        jfields_wf(fields, m),
        0 <= i,
        i + jenc_fields(fields, m).len() < s.len(),
        s.subrange(i, i + jenc_fields(fields, m).len()) =~= jenc_fields(fields, m),
        s[i + jenc_fields(fields, m).len()] == '}',
    ensures
        parse_membs(s, i) == Some(
            (fields.subrange(m, fields.len() as int), i + jenc_fields(fields, m).len() + 1),
        ),
    decreases fields, fields.len() - m,
{
    let inner = jenc_fields(fields, m);
    let il = inner.len() as int;
    assert forall|t: int| 0 <= t < il implies s[i + t] == #[trigger] inner[t] by {
        assert(s.subrange(i, i + il)[t] == inner[t]);
    }
    let key = fields[m].0;
    let ks = enc_str(key);
    let kl = ks.len() as int;
    let ev = jenc(fields[m].1);
    let vl = ev.len() as int;
    let one = ks + seq![':'] + ev;
    let ol = kl + 1 + vl;
    assert(one.len() == ol);
    lemma_jenc_first(fields[m].1);
    let last = m == fields.len() - 1;
    if last {
        assert(inner == one);
    } else {
        assert(inner == one + seq![','] + jenc_fields(fields, m + 1));
    }
    assert forall|t: int| 0 <= t < ol implies s[i + t] == #[trigger] one[t] by {
        assert(inner[t] == one[t]);
        assert(s[i + t] == inner[t]);
    }
    // the key string
    assert(one[0] == ks[0]);
    assert(ks[0] == '"');
    assert(s[i + 0] == '"');
    let bl = esc_str(key, 0).len() as int;
    assert(kl == bl + 2);
    assert forall|t: int| 0 <= t < bl implies s.subrange(i + 1, i + 1 + bl)[t] == esc_str(key, 0)[t]
    by {
        assert(ks[1 + t] == esc_str(key, 0)[t]);
        assert(one[1 + t] == ks[1 + t]);
        assert(s[i + (1 + t)] == one[1 + t]);
    }
    assert(s.subrange(i + 1, i + 1 + bl) =~= esc_str(key, 0));
    assert(one[1 + bl] == ks[1 + bl]);
    assert(ks[1 + bl] == '"');
    assert(s[i + (1 + bl)] == '"');
    lemma_str_body_inv(key, 0, s, i + 1);
    assert(key.subrange(0, key.len() as int) =~= key);
    let j = i + kl;
    // the colon, then the value
    assert(one[kl] == ':');
    assert(s[i + kl] == ':');
    assert(skip_ws(s, j) == j);
    let vi = j + 1;
    assert(one[kl + 1] == ev[0]);
    assert(s[i + (kl + 1)] == ev[0]);
    assert(skip_ws(s, vi) == vi);
    assert forall|t: int| 0 <= t < vl implies s.subrange(vi, vi + vl)[t] == ev[t] by {
        assert(one[kl + 1 + t] == ev[t]);
        assert(s[i + (kl + 1 + t)] == one[kl + 1 + t]);
    }
    assert(s.subrange(vi, vi + vl) =~= ev);
    if last {
        assert(s[vi + vl] == '}');
        lemma_parse_enc(fields[m].1, s, vi);
        let j2 = vi + vl;
        assert(skip_ws(s, j2) == j2);
        assert(fields.subrange(m, fields.len() as int) =~= seq![fields[m]]);
        assert((key, fields[m].1) == fields[m]);
    } else {
        let rest = jenc_fields(fields, m + 1);
        let rl = rest.len() as int;
        assert(il == ol + 1 + rl);
        assert(inner[ol] == ',');
        assert(s[i + ol] == ',');
        lemma_parse_enc(fields[m].1, s, vi);
        let j2 = vi + vl;
        assert(j2 == i + ol);
        assert(skip_ws(s, j2) == j2);
        assert(rest[0] == enc_str(fields[m + 1].0)[0]);
        assert(rest[0] == '"');
        assert(inner[ol + 1] == rest[0]);
        assert(s[i + (ol + 1)] == rest[0]);
        assert(skip_ws(s, j2 + 1) == j2 + 1);
        assert forall|t: int| 0 <= t < rl implies s.subrange(j2 + 1, j2 + 1 + rl)[t] == rest[t] by {
            assert(inner[ol + 1 + t] == rest[t]);
            assert(s[i + (ol + 1 + t)] == inner[ol + 1 + t]);
        }
        assert(s.subrange(j2 + 1, j2 + 1 + rl) =~= rest);
        assert(s[j2 + 1 + rl] == '}');
        lemma_parse_membs_enc(fields, m + 1, s, j2 + 1);
        assert(fields.subrange(m, fields.len() as int) =~= seq![fields[m]] + fields.subrange(
            m + 1,
            fields.len() as int,
        ));
        assert((key, fields[m].1) == fields[m]);
    }
}

/// The codec round trip: the canonical text of any well-formed value
/// parses back to that value.
pub proof fn lemma_parse_of_jenc(v: JVal)
    requires
        jval_wf(v),
    ensures
        parse_json_text(jenc(v)) == Some(v),
{
    let s = jenc(v);
    lemma_jenc_first(v);
    assert(skip_ws(s, 0) == 0);
    assert(s.subrange(0, s.len() as int) =~= s);
    lemma_parse_enc(v, s, 0);
    assert(skip_ws(s, s.len() as int) == s.len());
}

} // verus!
