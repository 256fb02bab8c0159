//! The library's own JSON tree, and the one trusted parsing step that
//! produces it from a line of text.
//!
//! The decoder never inspects a float's value and never does arithmetic on
//! JSON numbers beyond reading token counts, so numbers are kept as the
//! unsigned or signed integer they denote when they denote one, and as an
//! opaque marker otherwise.

use vstd::prelude::*;
use crate::chars::str_to_chars;

verus! {

/// A parsed JSON value.
pub enum JsonValue {
    Null,
    Bool(bool),
    /// A number representable as a u64.
    UInt(u64),
    /// A number representable as an i64 but not as a u64 (it is negative).
    Int(i64),
    /// Any other number (fractional, or out of 64-bit range). The decoder
    /// treats such a value as a structural mismatch wherever an integer is
    /// required, so its magnitude is not kept.
    FNum,
    Str(String),
    Arr(Vec<JsonValue>),
    Obj(Vec<(String, JsonValue)>),
}

/// The mathematical shape of a `JsonValue`: strings as character
/// sequences, containers as sequences.
pub enum JTree {
    Null,
    Bool(bool),
    UInt(u64),
    Int(i64),
    FNum,
    Str(Seq<char>),
    Arr(Seq<JTree>),
    Obj(Seq<(Seq<char>, JTree)>),
}

pub open spec fn jtree(v: JsonValue) -> JTree
    decreases v,
{
    match v {
        JsonValue::Null => JTree::Null,
        JsonValue::Bool(b) => JTree::Bool(b),
        JsonValue::UInt(u) => JTree::UInt(u),
        JsonValue::Int(i) => JTree::Int(i),
        JsonValue::FNum => JTree::FNum,
        JsonValue::Str(s) => JTree::Str(s@),
        JsonValue::Arr(items) => JTree::Arr(jtree_seq(items@)),
        JsonValue::Obj(fields) => JTree::Obj(jtree_fields(fields@)),
    }
}

pub open spec fn jtree_seq(s: Seq<JsonValue>) -> Seq<JTree>
    decreases s,
{
    if s.len() == 0 {
        Seq::empty()
    } else {
        seq![jtree(s[0])] + jtree_seq(s.drop_first())
    }
}

pub open spec fn jtree_fields(s: Seq<(String, JsonValue)>) -> Seq<(Seq<char>, JTree)>
    decreases s,
{
    if s.len() == 0 {
        Seq::empty()
    } else {
        seq![(s[0].0@, jtree(s[0].1))] + jtree_fields(s.drop_first())
    }
}

impl View for JsonValue {
    type V = JTree;

    open spec fn view(&self) -> JTree {
        jtree(*self)
    }
}

/// The JSON tree denoted by a text, or nothing when the text is not one
/// valid JSON value; what `serde_json::from_str::<Value>` computes, which
/// depends on the text alone.
pub uninterp spec fn json_of(s: Seq<char>) -> Option<JsonValue>;

#[verifier::external_type_specification]
#[verifier::external_body]
pub struct ExSerdeValue(serde_json::Value);

/// Rebuilds a `serde_json::Value` tree as the library's own tree, arm for
/// arm; the contract of the parse sits on `parse_json_line`, which is the
/// only caller.
#[verifier::external_body]
fn from_serde(v: serde_json::Value) -> JsonValue {
    match v {
        serde_json::Value::Null => JsonValue::Null,
        serde_json::Value::Bool(b) => JsonValue::Bool(b),
        serde_json::Value::Number(n) => n.as_u64().map(JsonValue::UInt).or_else(
            || n.as_i64().map(JsonValue::Int),
        ).unwrap_or(JsonValue::FNum),
        serde_json::Value::String(s) => JsonValue::Str(s),
        serde_json::Value::Array(a) => JsonValue::Arr(a.into_iter().map(from_serde).collect()),
        serde_json::Value::Object(m) => JsonValue::Obj(
            m.into_iter().map(|(k, x)| (k, from_serde(x))).collect(),
        ),
    }
}

/// Relies on serde_json::from_str::<Value>: parsing is a pure function of
/// the text. It fails on text that is not one valid JSON value, and also
/// on nesting beyond the parser's recursion limit. Duplicate object keys
/// collapse to the last occurrence during the parse, so the fields handed
/// back carry distinct keys.
#[verifier::external_body]
pub(crate) fn parse_json_line(line: &str) -> (r: Option<JsonValue>)
    ensures
        r == json_of(line@),
{
    match serde_json::from_str::<serde_json::Value>(line) {
        Ok(v) => Some(from_serde(v)),
        Err(_) => None,
    }
}

/// First field of the object with the given key, if any. Fields produced
/// by `parse_json_line` carry distinct keys, so "first" is "the" match.
pub open spec fn obj_get(fields: Seq<(String, JsonValue)>, key: Seq<char>) -> Option<JsonValue>
    decreases fields.len(),
{
    if fields.len() == 0 {
        None
    } else if fields[0].0@ == key {
        Some(fields[0].1)
    } else {
        obj_get(fields.drop_first(), key)
    }
}

pub fn chars_eq(a: &Vec<char>, b: &Vec<char>) -> (r: bool)
    ensures
        r == (a@ == b@),
{
    if a.len() != b.len() {
        proof {
            assert(a@.len() != b@.len());
        }
        return false;
    }
    let mut i: usize = 0;
    while i < a.len()
        invariant
            i <= a@.len(),
            a@.len() == b@.len(),
            forall|k: int| 0 <= k < i ==> a@[k] == b@[k],
        decreases a@.len() - i,
    {
        if a[i] != b[i] {
            return false;
        }
        i = i + 1;
    }
    proof {
        assert(a@ =~= b@);
    }
    true
}

pub fn str_eq(a: &str, b: &str) -> (r: bool)
    ensures
        r == (a@ == b@),
{
    let ca = str_to_chars(a);
    let cb = str_to_chars(b);
    chars_eq(&ca, &cb)
}

/// Look a key up in the fields of a decoded object.
pub fn get_field<'a>(fields: &'a Vec<(String, JsonValue)>, key: &str) -> (r: Option<
    &'a JsonValue,
>)
    ensures
        match r {
            Some(v) => obj_get(fields@, key@) == Some(*v),
            None => obj_get(fields@, key@) is None,
        },
{
    let mut i: usize = 0;
    proof {
        assert(fields@.skip(0) =~= fields@);
    }
    while i < fields.len()
        invariant
            i <= fields@.len(),
            obj_get(fields@, key@) == obj_get(fields@.skip(i as int), key@),
        decreases fields@.len() - i,
    {
        proof {
            assert(fields@.skip(i as int)[0] == fields@[i as int]);
            assert(fields@.skip(i as int).drop_first() =~= fields@.skip(i + 1 as int));
        }
        if str_eq(fields[i].0.as_str(), key) {
            return Some(&fields[i].1);
        }
        i = i + 1;
    }
    None
}

/// A structurally equal copy of a JSON value.
pub fn clone_json(v: &JsonValue) -> (r: JsonValue)
    ensures
        r@ == v@,
    decreases *v,
{
    match v {
        JsonValue::Null => JsonValue::Null,
        JsonValue::Bool(b) => JsonValue::Bool(*b),
        JsonValue::UInt(u) => JsonValue::UInt(*u),
        JsonValue::Int(i) => JsonValue::Int(*i),
        JsonValue::FNum => JsonValue::FNum,
        JsonValue::Str(s) => JsonValue::Str(s.clone()),
        JsonValue::Arr(items) => {
            let mut out: Vec<JsonValue> = Vec::new();
            let mut i: usize = 0;
            while i < items.len()
                invariant
                    i <= items@.len(),
                    *v == JsonValue::Arr(*items),
                    jtree_seq(out@) == jtree_seq(items@.take(i as int)),
                decreases items@.len() - i,
            {
                proof {
                    broadcast use vstd::seq::axiom_seq_index_decreases;

                    assert(*v == JsonValue::Arr(*items));
                    assert(v->Arr_0 == *items);
                    assert(decreases_to!(*v => v->Arr_0));
                    assert(decreases_to!(*items => items@));
                    assert(decreases_to!(items@ => items@[i as int]));
                    assert(decreases_to!(*v => items@[i as int]));
                }
                let ghost prev = out@;
                let c = clone_json(&items[i]);
                out.push(c);
                proof {
                    lemma_jtree_seq_snoc(prev, c);
                    lemma_jtree_seq_snoc(items@.take(i as int), items@[i as int]);
                    assert(items@.take(i as int).push(items@[i as int]) =~= items@.take(
                        i + 1 as int,
                    ));
                }
                i = i + 1;
            }
            proof {
                assert(items@.take(items@.len() as int) =~= items@);
            }
            JsonValue::Arr(out)
        },
        JsonValue::Obj(fields) => {
            let mut out: Vec<(String, JsonValue)> = Vec::new();
            let mut i: usize = 0;
            while i < fields.len()
                invariant
                    i <= fields@.len(),
                    *v == JsonValue::Obj(*fields),
                    jtree_fields(out@) == jtree_fields(fields@.take(i as int)),
                decreases fields@.len() - i,
            {
                proof {
                    broadcast use vstd::seq::axiom_seq_index_decreases;

                    assert(*v == JsonValue::Obj(*fields));
                    assert(v->Obj_0 == *fields);
                    assert(decreases_to!(*v => v->Obj_0));
                    assert(decreases_to!(*fields => fields@));
                    assert(decreases_to!(fields@ => fields@[i as int]));
                    assert(decreases_to!(fields@[i as int] => fields@[i as int].1));
                    assert(decreases_to!(*v => fields@[i as int].1));
                }
                let ghost prev = out@;
                let k = fields[i].0.clone();
                let c = clone_json(&fields[i].1);
                out.push((k, c));
                proof {
                    lemma_jtree_fields_snoc(prev, (k, c));
                    lemma_jtree_fields_snoc(fields@.take(i as int), fields@[i as int]);
                    assert(fields@.take(i as int).push(fields@[i as int]) =~= fields@.take(
                        i + 1 as int,
                    ));
                    assert((k, c).0@ == fields@[i as int].0@);
                    assert(jtree((k, c).1) == jtree(fields@[i as int].1));
                }
                i = i + 1;
            }
            proof {
                assert(fields@.take(fields@.len() as int) =~= fields@);
            }
            JsonValue::Obj(out)
        },
    }
}

proof fn lemma_jtree_seq_snoc(s: Seq<JsonValue>, x: JsonValue)
    ensures
        jtree_seq(s.push(x)) == jtree_seq(s) + seq![jtree(x)],
    decreases s.len(),
{
    if s.len() == 0 {
        assert(s.push(x)[0] == x);
        assert(s.push(x).drop_first() =~= Seq::<JsonValue>::empty());
        assert(jtree_seq(s.push(x)) == seq![jtree(x)] + jtree_seq(Seq::<JsonValue>::empty()));
        assert(jtree_seq(s.push(x)) =~= jtree_seq(s) + seq![jtree(x)]);
    } else {
        assert(s.push(x)[0] == s[0]);
        assert(s.push(x).drop_first() =~= s.drop_first().push(x));
        lemma_jtree_seq_snoc(s.drop_first(), x);
        assert(jtree_seq(s.push(x)) == seq![jtree(s[0])] + jtree_seq(s.drop_first().push(x)));
        assert(jtree_seq(s) == seq![jtree(s[0])] + jtree_seq(s.drop_first()));
        assert(jtree_seq(s.push(x)) =~= jtree_seq(s) + seq![jtree(x)]);
    }
}

proof fn lemma_jtree_fields_snoc(s: Seq<(String, JsonValue)>, x: (String, JsonValue))
    ensures
        jtree_fields(s.push(x)) == jtree_fields(s) + seq![(x.0@, jtree(x.1))],
    decreases s.len(),
{
    if s.len() == 0 {
        assert(s.push(x)[0] == x);
        assert(s.push(x).drop_first() =~= Seq::<(String, JsonValue)>::empty());
        assert(jtree_fields(s.push(x)) == seq![(x.0@, jtree(x.1))] + jtree_fields(
            Seq::<(String, JsonValue)>::empty(),
        ));
        assert(jtree_fields(s.push(x)) =~= jtree_fields(s) + seq![(x.0@, jtree(x.1))]);
    } else {
        assert(s.push(x)[0] == s[0]);
        assert(s.push(x).drop_first() =~= s.drop_first().push(x));
        lemma_jtree_fields_snoc(s.drop_first(), x);
        assert(jtree_fields(s.push(x)) == seq![(s[0].0@, jtree(s[0].1))] + jtree_fields(
            s.drop_first().push(x),
        ));
        assert(jtree_fields(s) == seq![(s[0].0@, jtree(s[0].1))] + jtree_fields(s.drop_first()));
        assert(jtree_fields(s.push(x)) =~= jtree_fields(s) + seq![(x.0@, jtree(x.1))]);
    }
}

} // verus!
