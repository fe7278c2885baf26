//! What is written of a plan has one reading only.
use vstd::prelude::*;
use crate::json;
use crate::json::JsonTree;
use crate::plan::json as written;
use crate::plan::names;
use crate::plan::{BoolTerm, BytesTerm, NumTerm};
use crate::text;

verus! {

pub proof fn lemma_one_free(k: Seq<char>, v: JsonTree)
    requires
        k != "$serde_json::private::Number"@,
        json::unambiguous(v),
    ensures
        json::unambiguous(json::one(k, v)),
{
    let fields = json::one(k, v)->Object_0;
    assert(fields.len() == 1);
}

pub proof fn lemma_two_free(k: Seq<char>, v: JsonTree, l: Seq<char>, w: JsonTree)
    requires
        k != "$serde_json::private::Number"@,
        k != l,
        json::unambiguous(v),
        json::unambiguous(w),
    ensures
        json::unambiguous(json::two(k, v, l, w)),
{
    let fields = json::two(k, v, l, w)->Object_0;
    assert(fields.len() == 2);
}

pub proof fn lemma_three_free(k: Seq<char>, v: JsonTree, l: Seq<char>, w: JsonTree, m: Seq<char>, x: JsonTree)
    requires
        k != "$serde_json::private::Number"@,
        k != l,
        k != m,
        l != m,
        json::unambiguous(v),
        json::unambiguous(w),
        json::unambiguous(x),
    ensures
        json::unambiguous(json::three(k, v, l, w, m, x)),
{
    let fields = json::three(k, v, l, w, m, x)->Object_0;
    assert(fields.len() == 3);
}

pub proof fn lemma_num_free(n: int)
    requires
        n >= 0,
    ensures
        json::unambiguous(json::num(n)),
{
    assert(json::num(n) == JsonTree::Number(text::decimal(n)));
}

proof fn lemma_pair_free(a: JsonTree, b: JsonTree)
    requires
        json::unambiguous(a),
        json::unambiguous(b),
    ensures
        json::unambiguous(JsonTree::Array(seq![a, b])),
{
    let items = seq![a, b];
    assert(items.len() == 2);
}

/// The JSON of a byte-string expression has one reading only.
pub proof fn lemma_bytes_free(e: BytesTerm)
    ensures
        json::unambiguous(written::bytes_json(e)),
    decreases e,
{
    names::lemma_names_free();
    names::lemma_part_names();
    let t = written::bytes_json(e);
    let k = t->Object_0[0].0;
    let v = t->Object_0[0].1;
    assert(json::unambiguous(v)) by {
        match e {
            BytesTerm::Const(b) => {}
            BytesTerm::Storage(x) => {
                lemma_bytes_free(*x);
            }
            BytesTerm::Calldata { start, len } => {
                lemma_num_free(start as int);
                match len {
                    Some(l) => {
                        lemma_num_free(l as int);
                        lemma_two_free("start"@, json::num(start as int), "len"@, json::num(l as int));
                    }
                    None => {
                        lemma_one_free("start"@, json::num(start as int));
                    }
                }
            }
            BytesTerm::Concat(parts) => {
                let items = v->Array_0;
                assert forall|i: int| 0 <= i < items.len() implies json::unambiguous(#[trigger] items[i]) by {
                    lemma_bytes_free(parts[i]);
                }
            }
            BytesTerm::Slice { of, start, len } => {
                lemma_bytes_free(*of);
                lemma_number_free(*start);
                lemma_number_free(*len);
                lemma_three_free(
                    "of"@,
                    written::bytes_json(*of),
                    "start"@,
                    written::num_json(*start),
                    "len"@,
                    written::num_json(*len),
                );
            }
            BytesTerm::Le { of, width } => {
                lemma_number_free(*of);
                lemma_num_free(width as int);
                lemma_two_free("of"@, written::num_json(*of), "width"@, json::num(width as int));
            }
            BytesTerm::If { cond, if_true, if_false } => {
                lemma_bool_free(*cond);
                lemma_bytes_free(*if_true);
                lemma_bytes_free(*if_false);
                lemma_three_free(
                    "cond"@,
                    written::bool_json(*cond),
                    "then"@,
                    written::bytes_json(*if_true),
                    "else"@,
                    written::bytes_json(*if_false),
                );
            }
            BytesTerm::Loop { count, body } => {
                lemma_number_free(*count);
                lemma_bytes_free(*body);
                lemma_two_free("count"@, written::num_json(*count), "body"@, written::bytes_json(*body));
            }
            BytesTerm::Hex(x) => {
                lemma_bytes_free(*x);
            }
            BytesTerm::Decimal(n) => {
                lemma_number_free(*n);
            }
        }
    }
    assert(t == json::one(k, v));
    lemma_one_free(k, v);
}

/// The JSON of a number expression has one reading only.
pub proof fn lemma_number_free(e: NumTerm)
    ensures
        json::unambiguous(written::num_json(e)),
    decreases e,
{
    names::lemma_names_free();
    names::lemma_part_names();
    let t = written::num_json(e);
    let k = t->Object_0[0].0;
    let v = t->Object_0[0].1;
    assert(json::unambiguous(v)) by {
        match e {
            NumTerm::Const(_) => {}
            NumTerm::Word(i) => {
                lemma_num_free(i as int);
            }
            NumTerm::ULe(b) => {
                lemma_bytes_free(*b);
            }
            NumTerm::Len(b) => {
                lemma_bytes_free(*b);
            }
            NumTerm::Height => {}
            NumTerm::Var => {}
            NumTerm::Op(op, a, b) => {
                lemma_number_free(*a);
                lemma_number_free(*b);
                lemma_pair_free(written::num_json(*a), written::num_json(*b));
            }
            NumTerm::If { cond, if_true, if_false } => {
                lemma_bool_free(*cond);
                lemma_number_free(*if_true);
                lemma_number_free(*if_false);
                lemma_three_free(
                    "cond"@,
                    written::bool_json(*cond),
                    "then"@,
                    written::num_json(*if_true),
                    "else"@,
                    written::num_json(*if_false),
                );
            }
        }
    }
    assert(t == json::one(k, v));
    lemma_one_free(k, v);
}

/// The JSON of a truth-valued expression has one reading only.
pub proof fn lemma_bool_free(e: BoolTerm)
    ensures
        json::unambiguous(written::bool_json(e)),
    decreases e,
{
    names::lemma_names_free();
    let t = written::bool_json(e);
    let k = t->Object_0[0].0;
    let v = t->Object_0[0].1;
    assert(json::unambiguous(v)) by {
        match e {
            BoolTerm::Holds(_, a, b) => {
                lemma_number_free(*a);
                lemma_number_free(*b);
                lemma_pair_free(written::num_json(*a), written::num_json(*b));
            }
            BoolTerm::BytesEq(a, b) => {
                lemma_bytes_free(*a);
                lemma_bytes_free(*b);
                lemma_pair_free(written::bytes_json(*a), written::bytes_json(*b));
            }
            BoolTerm::And(parts) => {
                let items = v->Array_0;
                assert forall|i: int| 0 <= i < items.len() implies json::unambiguous(#[trigger] items[i]) by {
                    lemma_bool_free(parts[i]);
                }
            }
            BoolTerm::Or(parts) => {
                let items = v->Array_0;
                assert forall|i: int| 0 <= i < items.len() implies json::unambiguous(#[trigger] items[i]) by {
                    lemma_bool_free(parts[i]);
                }
            }
            BoolTerm::Not(b) => {
                lemma_bool_free(*b);
            }
        }
    }
    assert(t == json::one(k, v));
    lemma_one_free(k, v);
}

/// The JSON of a plan has one reading only: its text, if it is nested at most 127
/// deep, is read back as that JSON.
pub proof fn lemma_plan_free(e: BytesTerm, trials: u32)
    ensures
        json::unambiguous(written::plan_json(e, trials)),
        json::depth(written::plan_json(e, trials)) <= 127 ==> json::plain(written::plan_json(e, trials)),
{
    names::lemma_names_free();
    names::lemma_plan_names();
    lemma_num_free(1);
    lemma_bytes_free(e);
    lemma_num_free(trials as int);
    lemma_three_free("v"@, json::num(1), "expr"@, written::bytes_json(e), "trials"@, json::num(trials as int));
}

} // verus!
