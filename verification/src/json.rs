//! The JSON value model the wire envelope is built from.
//!
//! `Json` is the executable tree; `JVal` is its mathematical shape, used by
//! every contract of the codec. Numbers are 64-bit signed integers: the
//! envelope itself only carries an `i32` error code, and integer parameters
//! cover the callers of this transport.

use vstd::prelude::*;

verus! {

broadcast use {vstd::seq::group_seq_axioms, vstd::std_specs::vec::group_vec_axioms};

/// Mathematical JSON value: what the codec's contracts speak of.
pub enum JVal {
    Null,
    Bool(bool),
    Int(int),
    Str(Seq<char>),
    Arr(Seq<JVal>),
    Obj(Seq<(Seq<char>, JVal)>),
}

/// Executable JSON value.
#[derive(Debug, PartialEq, Eq)]
pub enum Json {
    Null,
    Bool(bool),
    Int(i64),
    Str(String),
    Arr(Vec<Json>),
    Obj(Vec<(String, Json)>),
}

impl Json {
    /// The mathematical value this tree denotes.
    pub open spec fn jval(self) -> JVal
        decreases self, 0int,
    {
        match self {
            Json::Null => JVal::Null,
            Json::Bool(b) => JVal::Bool(b),
            Json::Int(n) => JVal::Int(n as int),
            Json::Str(s) => JVal::Str(s@),
            Json::Arr(items) => JVal::Arr(jvals_from(items@, 0)),
            Json::Obj(fields) => JVal::Obj(jfields_from(fields@, 0)),
        }
    }
}

/// The mathematical values of `items[i..]`.
pub open spec fn jvals_from(items: Seq<Json>, i: int) -> Seq<JVal>
    decreases items, items.len() - i,
{
    if 0 <= i < items.len() {
        seq![items[i].jval()] + jvals_from(items, i + 1)
    } else {
        Seq::empty()
    }
}

/// The mathematical key/value pairs of `fields[i..]`.
pub open spec fn jfields_from(fields: Seq<(String, Json)>, i: int) -> Seq<(Seq<char>, JVal)>
    decreases fields, fields.len() - i,
{
    if 0 <= i < fields.len() {
        seq![(fields[i].0@, fields[i].1.jval())] + jfields_from(fields, i + 1)
    } else {
        Seq::empty()
    }
}

impl Json {
    /// A deep copy denoting the same value.
    pub fn dup(&self) -> (r: Json)
        ensures
            r.jval() == self.jval(),
        decreases self,
    {
        match self {
            Json::Null => Json::Null,
            Json::Bool(b) => Json::Bool(*b),
            Json::Int(n) => Json::Int(*n),
            Json::Str(s) => Json::Str(s.clone()),
            Json::Arr(items) => {
                let copy = dup_items(items);
                proof {
                    lemma_jvals_from(items@, 0);
                    lemma_jvals_from(copy@, 0);
                    assert(jvals_from(copy@, 0) =~= jvals_from(items@, 0));
                }
                Json::Arr(copy)
            },
            Json::Obj(fields) => {
                let copy = dup_fields(fields);
                proof {
                    lemma_jfields_from(fields@, 0);
                    lemma_jfields_from(copy@, 0);
                    assert(jfields_from(copy@, 0) =~= jfields_from(fields@, 0));
                }
                Json::Obj(copy)
            },
        }
    }
}

fn dup_items(items: &Vec<Json>) -> (r: Vec<Json>)
    ensures
        r@.len() == items@.len(),
        forall|t: int| 0 <= t < items@.len() ==> (#[trigger] r@[t]).jval() == items@[t].jval(),
    decreases items,
{
    let mut out: Vec<Json> = Vec::new();
    let mut i: usize = 0;
    while i < items.len()
        invariant
            i <= items@.len(),
            out@.len() == i,
            forall|t: int| 0 <= t < i ==> (#[trigger] out@[t]).jval() == items@[t].jval(),
        decreases items@.len() - i,
    {
        out.push(items[i].dup());
        i = i + 1;
    }
    out
}

fn dup_fields(fields: &Vec<(String, Json)>) -> (r: Vec<(String, Json)>)
    ensures
        r@.len() == fields@.len(),
        forall|t: int|
            0 <= t < fields@.len() ==> (#[trigger] r@[t]).0@ == fields@[t].0@ && r@[t].1.jval()
                == fields@[t].1.jval(),
    decreases fields,
{
    let mut out: Vec<(String, Json)> = Vec::new();
    let mut i: usize = 0;
    while i < fields.len()
        invariant
            i <= fields@.len(),
            out@.len() == i,
            forall|t: int|
                0 <= t < i ==> (#[trigger] out@[t]).0@ == fields@[t].0@ && out@[t].1.jval()
                    == fields@[t].1.jval(),
        decreases fields@.len() - i,
    {
        let k = fields[i].0.clone();
        let v = fields[i].1.dup();
        out.push((k, v));
        i = i + 1;
    }
    out
}

/// A value every part of which the executable tree can hold: integers
/// within `i64`.
pub open spec fn jval_wf(v: JVal) -> bool
    decreases v, 0int,
{
    match v {
        JVal::Int(n) => -9223372036854775808 <= n < 9223372036854775808,
        JVal::Arr(items) => jvals_wf(items, 0),
        JVal::Obj(fields) => jfields_wf(fields, 0),
        _ => true,
    }
}

pub open spec fn jvals_wf(items: Seq<JVal>, i: int) -> bool
    decreases items, items.len() - i,
{
    0 <= i < items.len() ==> (jval_wf(items[i]) && jvals_wf(items, i + 1))
}

pub open spec fn jfields_wf(fields: Seq<(Seq<char>, JVal)>, i: int) -> bool
    decreases fields, fields.len() - i,
{
    0 <= i < fields.len() ==> (jval_wf(fields[i].1) && jfields_wf(fields, i + 1))
}

/// Every denoted value is well formed.
pub proof fn lemma_json_wf(j: Json)
    ensures
        jval_wf(j.jval()),
    decreases j, 0int,
{
    match j {
        Json::Arr(items) => {
            lemma_jsons_wf(items@, 0);
        },
        Json::Obj(fields) => {
            lemma_jsonfields_wf(fields@, 0);
        },
        _ => {},
    }
}

proof fn lemma_jsons_wf(items: Seq<Json>, i: int)
    requires
        0 <= i <= items.len(),
    ensures
        jvals_wf(jvals_from(items, 0), i),
    decreases items, items.len() - i,
{
    lemma_jvals_from(items, 0);
    if i < items.len() {
        lemma_json_wf(items[i]);
        lemma_jsons_wf(items, i + 1);
    }
}

proof fn lemma_jsonfields_wf(fields: Seq<(String, Json)>, i: int)
    requires
        0 <= i <= fields.len(),
    ensures
        jfields_wf(jfields_from(fields, 0), i),
    decreases fields, fields.len() - i,
{
    lemma_jfields_from(fields, 0);
    if i < fields.len() {
        lemma_json_wf(fields[i].1);
        lemma_jsonfields_wf(fields, i + 1);
    }
}

/// Prepending an item prepends its value.
pub proof fn lemma_jvals_prepend(v: Json, rest: Seq<Json>)
    ensures
        jvals_from(seq![v] + rest, 0) =~= seq![v.jval()] + jvals_from(rest, 0),
{
    let cat = seq![v] + rest;
    lemma_jvals_from(cat, 0);
    lemma_jvals_from(rest, 0);
    assert forall|m: int| 0 <= m < cat.len() implies jvals_from(cat, 0)[m] == (seq![v.jval()]
        + jvals_from(rest, 0))[m] by {
        assert(jvals_from(cat, 0)[m] == cat[m].jval());
        if m > 0 {
            assert(jvals_from(rest, 0)[m - 1] == rest[m - 1].jval());
        }
    }
}

/// Prepending a field prepends its key/value pair.
pub proof fn lemma_jfields_prepend(f: (String, Json), rest: Seq<(String, Json)>)
    ensures
        jfields_from(seq![f] + rest, 0) =~= seq![(f.0@, f.1.jval())] + jfields_from(rest, 0),
{
    let cat = seq![f] + rest;
    lemma_jfields_from(cat, 0);
    lemma_jfields_from(rest, 0);
    assert forall|m: int| 0 <= m < cat.len() implies jfields_from(cat, 0)[m] == (seq![
        (f.0@, f.1.jval()),
    ] + jfields_from(rest, 0))[m] by {
        assert(jfields_from(cat, 0)[m] == (cat[m].0@, cat[m].1.jval()));
        if m > 0 {
            assert(jfields_from(rest, 0)[m - 1] == (rest[m - 1].0@, rest[m - 1].1.jval()));
        }
    }
}

/// `jvals_from(items, i)` lists, in order, the values of `items[i..]`.
pub proof fn lemma_jvals_from(items: Seq<Json>, i: int)
    requires
        0 <= i <= items.len(),
    ensures
        jvals_from(items, i).len() == items.len() - i,
        forall|k: int|
            i <= k < items.len() ==> #[trigger] jvals_from(items, i)[k - i] == items[k].jval(),
        forall|k: int|
            0 <= k < items.len() - i ==> #[trigger] jvals_from(items, i)[k] == items[i + k].jval(),
    decreases items.len() - i,
{
    if i < items.len() {
        lemma_jvals_from(items, i + 1);
    }
}

/// `jfields_from(fields, i)` lists, in order, the key/value pairs of `fields[i..]`.
pub proof fn lemma_jfields_from(fields: Seq<(String, Json)>, i: int)
    requires
        0 <= i <= fields.len(),
    ensures
        jfields_from(fields, i).len() == fields.len() - i,
        forall|k: int|
            i <= k < fields.len() ==> #[trigger] jfields_from(fields, i)[k - i] == (
                fields[k].0@,
                fields[k].1.jval(),
            ),
        forall|k: int|
            0 <= k < fields.len() - i ==> #[trigger] jfields_from(fields, i)[k] == (
                fields[i + k].0@,
                fields[i + k].1.jval(),
            ),
    decreases fields.len() - i,
{
    if i < fields.len() {
        lemma_jfields_from(fields, i + 1);
    }
}

} // verus!
