//! What is written of a plan is read back.
use vstd::prelude::*;
use crate::json;
use crate::json::JsonTree;
use crate::plan::json as written;
use crate::plan::{names, parse};
use crate::plan::parse::ParseError;
use crate::plan::{BoolTerm, BytesTerm, Comparison, NumOp, NumTerm};
use crate::text;

verus! {

/// The field of an object of one field.
pub proof fn lemma_one(k: Seq<char>, v: JsonTree, key: Seq<char>)
    ensures
        json::field(json::one(k, v), key) == if k == key { Some(v) } else { None },
{
    reveal_with_fuel(json::find_field, 3);
}

/// The field of an object of two fields.
pub proof fn lemma_two(k: Seq<char>, v: JsonTree, l: Seq<char>, w: JsonTree, key: Seq<char>)
    ensures
        json::field(json::two(k, v, l, w), key) == if k == key { Some(v) } else if l == key { Some(w) } else { None },
{
    reveal_with_fuel(json::find_field, 4);
}

/// The field of an object of three fields.
pub proof fn lemma_three(k: Seq<char>, v: JsonTree, l: Seq<char>, w: JsonTree, m: Seq<char>, x: JsonTree, key: Seq<char>)
    ensures
        json::field(json::three(k, v, l, w, m, x), key) == if k == key {
            Some(v)
        } else if l == key {
            Some(w)
        } else if m == key {
            Some(x)
        } else {
            None
        },
{
    reveal_with_fuel(json::find_field, 5);
}

/// A number that fits is read back.
pub proof fn lemma_number(n: int)
    requires
        0 <= n <= u64::MAX,
    ensures
        json::number(json::num(n)) == Some(n as u64),
{
    text::lemma_parse_decimal(n, u64::MAX as nat);
}

proof fn lemma_hex_digit(d: int)
    requires
        0 <= d < 16,
    ensures
        parse::hex_value(json::hex_char(d)) == Some(d),
{
}

proof fn lemma_hex(b: Seq<u8>)
    ensures
        parse::read_hex(written::hex_text(b)) == Some(b),
    decreases b.len(),
{
    if b.len() > 0 {
        let before = b.drop_last();
        lemma_hex(before);
        let x = b.last() as int;
        lemma_hex_digit(x / 16);
        lemma_hex_digit(x % 16);
        let s = written::hex_text(b);
        assert(s.take(s.len() - 2) =~= written::hex_text(before));
        assert(b =~= before.push(b.last()));
    }
}

proof fn lemma_const(b: Seq<u8>)
    ensures
        parse::read_bytes(written::bytes_json(BytesTerm::Const(b))) == Ok::<BytesTerm, ParseError>(BytesTerm::Const(b)),
{
    let t = written::bytes_json(BytesTerm::Const(b));
    let v = JsonTree::String(written::hex_text(b));
    assert(t == json::one("bytes"@, v));
    lemma_one("bytes"@, v, "bytes"@);
    lemma_hex(b);
    assert(json::string(v) == Some(written::hex_text(b)));
    assert(parse::read_hex(written::hex_text(b)) == Some(b));
}

/// The fields that a byte-string expression is looked up by.
proof fn lemma_bytes_fields(k: Seq<char>, v: JsonTree)
    ensures
        json::field(json::one(k, v), "bytes"@) == if k == "bytes"@ { Some(v) } else { None },
        json::field(json::one(k, v), "storage"@) == if k == "storage"@ { Some(v) } else { None },
        json::field(json::one(k, v), "calldata"@) == if k == "calldata"@ { Some(v) } else { None },
        json::field(json::one(k, v), "concat"@) == if k == "concat"@ { Some(v) } else { None },
        json::field(json::one(k, v), "slice"@) == if k == "slice"@ { Some(v) } else { None },
        json::field(json::one(k, v), "le"@) == if k == "le"@ { Some(v) } else { None },
        json::field(json::one(k, v), "if"@) == if k == "if"@ { Some(v) } else { None },
        json::field(json::one(k, v), "loop"@) == if k == "loop"@ { Some(v) } else { None },
        json::field(json::one(k, v), "hex"@) == if k == "hex"@ { Some(v) } else { None },
        json::field(json::one(k, v), "decimal"@) == if k == "decimal"@ { Some(v) } else { None },
{
    lemma_one(k, v, "bytes"@);
    lemma_one(k, v, "storage"@);
    lemma_one(k, v, "calldata"@);
    lemma_one(k, v, "concat"@);
    lemma_one(k, v, "slice"@);
    lemma_one(k, v, "le"@);
    lemma_one(k, v, "if"@);
    lemma_one(k, v, "loop"@);
    lemma_one(k, v, "hex"@);
    lemma_one(k, v, "decimal"@);
}

/// A byte-string expression is read back.
#[verifier::rlimit(40)]
pub proof fn lemma_bytes(e: BytesTerm)
    ensures
        parse::read_bytes(written::bytes_json(e)) == Ok::<BytesTerm, ParseError>(e),
    decreases e,
{
    names::lemma_bytes_names();
    names::lemma_part_names();
    let t = written::bytes_json(e);
    let k = t->Object_0[0].0;
    let v = t->Object_0[0].1;
    lemma_bytes_fields(k, v);
    match e {
        BytesTerm::Const(b) => {
            lemma_const(b);
        }
        BytesTerm::Storage(x) => {
            lemma_bytes(*x);
        }
        BytesTerm::Calldata { start, len } => {
            lemma_number(start as int);
            match len {
                Some(l) => {
                    lemma_number(l as int);
                    lemma_two("start"@, json::num(start as int), "len"@, json::num(l as int), "start"@);
                    lemma_two("start"@, json::num(start as int), "len"@, json::num(l as int), "len"@);
                }
                None => {
                    lemma_one("start"@, json::num(start as int), "start"@);
                    lemma_one("start"@, json::num(start as int), "len"@);
                }
            }
        }
        BytesTerm::Concat(parts) => {
            let items = v->Array_0;
            lemma_bytes_list(parts, items, items.len());
            assert(parts.take(parts.len() as int) =~= parts);
        }
        BytesTerm::Slice { of, start, len } => {
            lemma_bytes(*of);
            lemma_num(*start);
            lemma_num(*len);
            let (a, b, c) = (written::bytes_json(*of), written::num_json(*start), written::num_json(*len));
            lemma_three("of"@, a, "start"@, b, "len"@, c, "of"@);
            lemma_three("of"@, a, "start"@, b, "len"@, c, "start"@);
            lemma_three("of"@, a, "start"@, b, "len"@, c, "len"@);
            assert(parse::read_bytes_field(v, "of"@) == Ok::<BytesTerm, ParseError>(*of));
            assert(parse::read_num_field(v, "start"@) == Ok::<NumTerm, ParseError>(*start));
            assert(parse::read_num_field(v, "len"@) == Ok::<NumTerm, ParseError>(*len));
        }
        BytesTerm::Le { of, width } => {
            lemma_num(*of);
            lemma_number(width as int);
            let (a, b) = (written::num_json(*of), json::num(width as int));
            lemma_two("of"@, a, "width"@, b, "of"@);
            lemma_two("of"@, a, "width"@, b, "width"@);
            assert(parse::read_num_field(v, "of"@) == Ok::<NumTerm, ParseError>(*of));
        }
        BytesTerm::If { cond, if_true, if_false } => {
            lemma_bool(*cond);
            lemma_bytes(*if_true);
            lemma_bytes(*if_false);
            let (a, b, c) = (written::bool_json(*cond), written::bytes_json(*if_true), written::bytes_json(*if_false));
            lemma_three("cond"@, a, "then"@, b, "else"@, c, "cond"@);
            lemma_three("cond"@, a, "then"@, b, "else"@, c, "then"@);
            lemma_three("cond"@, a, "then"@, b, "else"@, c, "else"@);
            assert(parse::read_bool_field(v, "cond"@) == Ok::<BoolTerm, ParseError>(*cond));
            assert(parse::read_bytes_field(v, "then"@) == Ok::<BytesTerm, ParseError>(*if_true));
            assert(parse::read_bytes_field(v, "else"@) == Ok::<BytesTerm, ParseError>(*if_false));
        }
        BytesTerm::Loop { count, body } => {
            lemma_num(*count);
            lemma_bytes(*body);
            let (a, b) = (written::num_json(*count), written::bytes_json(*body));
            lemma_two("count"@, a, "body"@, b, "count"@);
            lemma_two("count"@, a, "body"@, b, "body"@);
            assert(parse::read_num_field(v, "count"@) == Ok::<NumTerm, ParseError>(*count));
            assert(parse::read_bytes_field(v, "body"@) == Ok::<BytesTerm, ParseError>(*body));
        }
        BytesTerm::Hex(x) => {
            lemma_bytes(*x);
        }
        BytesTerm::Decimal(n) => {
            lemma_num(*n);
        }
    }
}

proof fn lemma_bytes_list(parts: Seq<BytesTerm>, items: Seq<JsonTree>, n: nat)
    requires
        items.len() == parts.len(),
        forall|i: int| 0 <= i < parts.len() ==> #[trigger] items[i] == written::bytes_json(parts[i]),
        n <= parts.len(),
    ensures
        parse::read_bytes_list(items, n) == Ok::<Seq<BytesTerm>, ParseError>(parts.take(n as int)),
    decreases parts, n,
{
    if n > 0 {
        lemma_bytes_list(parts, items, (n - 1) as nat);
        lemma_bytes(parts[n - 1]);
        assert(items[n - 1] == written::bytes_json(parts[n - 1]));
        assert(parts.take(n as int) =~= parts.take(n - 1).push(parts[n - 1]));
    } else {
        assert(parts.take(0) =~= Seq::empty());
    }
}

proof fn lemma_bool_list(parts: Seq<BoolTerm>, items: Seq<JsonTree>, n: nat)
    requires
        items.len() == parts.len(),
        forall|i: int| 0 <= i < parts.len() ==> #[trigger] items[i] == written::bool_json(parts[i]),
        n <= parts.len(),
    ensures
        parse::read_bool_list(items, n) == Ok::<Seq<BoolTerm>, ParseError>(parts.take(n as int)),
    decreases parts, n,
{
    if n > 0 {
        lemma_bool_list(parts, items, (n - 1) as nat);
        lemma_bool(parts[n - 1]);
        assert(items[n - 1] == written::bool_json(parts[n - 1]));
        assert(parts.take(n as int) =~= parts.take(n - 1).push(parts[n - 1]));
    } else {
        assert(parts.take(0) =~= Seq::empty());
    }
}

/// The fields that a number expression is looked up by.
proof fn lemma_num_fields(k: Seq<char>, v: JsonTree)
    ensures
        json::field(json::one(k, v), "num"@) == if k == "num"@ { Some(v) } else { None },
        json::field(json::one(k, v), "word"@) == if k == "word"@ { Some(v) } else { None },
        json::field(json::one(k, v), "u"@) == if k == "u"@ { Some(v) } else { None },
        json::field(json::one(k, v), "len"@) == if k == "len"@ { Some(v) } else { None },
        json::field(json::one(k, v), "height"@) == if k == "height"@ { Some(v) } else { None },
        json::field(json::one(k, v), "var"@) == if k == "var"@ { Some(v) } else { None },
        json::field(json::one(k, v), "nif"@) == if k == "nif"@ { Some(v) } else { None },
{
    lemma_one(k, v, "num"@);
    lemma_one(k, v, "word"@);
    lemma_one(k, v, "u"@);
    lemma_one(k, v, "len"@);
    lemma_one(k, v, "height"@);
    lemma_one(k, v, "var"@);
    lemma_one(k, v, "nif"@);
}

proof fn lemma_named_op(k: Seq<char>, v: JsonTree)
    ensures
        forall|op: NumOp| k == #[trigger] written::op_name(op) ==> parse::named_op(json::one(k, v)) == Some((op, v)),
        (forall|op: NumOp| k != #[trigger] written::op_name(op)) ==> parse::named_op(json::one(k, v)) is None,
{
    names::lemma_num_names();
    lemma_one(k, v, "add"@);
    lemma_one(k, v, "sub"@);
    lemma_one(k, v, "mul"@);
    lemma_one(k, v, "div"@);
    lemma_one(k, v, "mod"@);
    lemma_one(k, v, "shr"@);
    lemma_one(k, v, "shl"@);
    lemma_one(k, v, "and"@);
    lemma_one(k, v, "or"@);
    lemma_one(k, v, "xor"@);
    assert(written::op_name(NumOp::Add) == "add"@);
    assert(written::op_name(NumOp::Sub) == "sub"@);
    assert(written::op_name(NumOp::Mul) == "mul"@);
    assert(written::op_name(NumOp::Div) == "div"@);
    assert(written::op_name(NumOp::Mod) == "mod"@);
    assert(written::op_name(NumOp::Shr) == "shr"@);
    assert(written::op_name(NumOp::Shl) == "shl"@);
    assert(written::op_name(NumOp::And) == "and"@);
    assert(written::op_name(NumOp::Or) == "or"@);
    assert(written::op_name(NumOp::Xor) == "xor"@);
}

/// A number expression is read back.
pub proof fn lemma_num(e: NumTerm)
    ensures
        parse::read_num(written::num_json(e)) == Ok::<NumTerm, ParseError>(e),
    decreases e,
{
    names::lemma_num_names();
    names::lemma_part_names();
    let t = written::num_json(e);
    let k = t->Object_0[0].0;
    let v = t->Object_0[0].1;
    lemma_num_fields(k, v);
    lemma_named_op(k, v);
    match e {
        NumTerm::Const(n) => {
            text::lemma_parse_decimal(n as int, u128::MAX as nat);
        }
        NumTerm::Word(i) => {
            lemma_number(i as int);
        }
        NumTerm::ULe(b) => {
            lemma_bytes(*b);
        }
        NumTerm::Len(b) => {
            lemma_bytes(*b);
        }
        NumTerm::Height => {}
        NumTerm::Var => {}
        NumTerm::Op(op, a, b) => {
            lemma_num(*a);
            lemma_num(*b);
            assert(k == written::op_name(op));
            assert(parse::named_op(t) == Some((op, v)));
        }
        NumTerm::If { cond, if_true, if_false } => {
            lemma_bool(*cond);
            lemma_num(*if_true);
            lemma_num(*if_false);
            let (a, b, c) = (written::bool_json(*cond), written::num_json(*if_true), written::num_json(*if_false));
            lemma_three("cond"@, a, "then"@, b, "else"@, c, "cond"@);
            lemma_three("cond"@, a, "then"@, b, "else"@, c, "then"@);
            lemma_three("cond"@, a, "then"@, b, "else"@, c, "else"@);
            assert(parse::read_bool_field(v, "cond"@) == Ok::<BoolTerm, ParseError>(*cond));
            assert(parse::read_num_field(v, "then"@) == Ok::<NumTerm, ParseError>(*if_true));
            assert(parse::read_num_field(v, "else"@) == Ok::<NumTerm, ParseError>(*if_false));
            assert forall|op: NumOp| k != #[trigger] written::op_name(op) by {}
        }
    }
}

proof fn lemma_named_comparison(k: Seq<char>, v: JsonTree)
    ensures
        forall|c: Comparison| k == #[trigger] written::comparison_name(c) ==> parse::named_comparison(json::one(k, v)) == Some((c, v)),
        (forall|c: Comparison| k != #[trigger] written::comparison_name(c)) ==> parse::named_comparison(json::one(k, v)) is None,
{
    names::lemma_bool_names();
    lemma_one(k, v, "eq"@);
    lemma_one(k, v, "ne"@);
    lemma_one(k, v, "lt"@);
    lemma_one(k, v, "lte"@);
    lemma_one(k, v, "gt"@);
    lemma_one(k, v, "gte"@);
    assert(written::comparison_name(Comparison::Eq) == "eq"@);
    assert(written::comparison_name(Comparison::Ne) == "ne"@);
    assert(written::comparison_name(Comparison::Lt) == "lt"@);
    assert(written::comparison_name(Comparison::Lte) == "lte"@);
    assert(written::comparison_name(Comparison::Gt) == "gt"@);
    assert(written::comparison_name(Comparison::Gte) == "gte"@);
}

/// A truth-valued expression is read back.
pub proof fn lemma_bool(e: BoolTerm)
    ensures
        parse::read_bool(written::bool_json(e)) == Ok::<BoolTerm, ParseError>(e),
    decreases e,
{
    names::lemma_bool_names();
    let t = written::bool_json(e);
    let k = t->Object_0[0].0;
    let v = t->Object_0[0].1;
    lemma_named_comparison(k, v);
    lemma_one(k, v, "beq"@);
    lemma_one(k, v, "and"@);
    lemma_one(k, v, "or"@);
    lemma_one(k, v, "not"@);
    match e {
        BoolTerm::Holds(c, a, b) => {
            lemma_num(*a);
            lemma_num(*b);
            assert(k == written::comparison_name(c));
            assert(parse::named_comparison(t) == Some((c, v)));
            assert(parse::read_pair(v) == Ok::<(NumTerm, NumTerm), ParseError>((*a, *b)));
        }
        BoolTerm::BytesEq(a, b) => {
            lemma_bytes(*a);
            lemma_bytes(*b);
        }
        BoolTerm::And(parts) => {
            let items = v->Array_0;
            lemma_bool_list(parts, items, items.len());
            assert(parts.take(parts.len() as int) =~= parts);
        }
        BoolTerm::Or(parts) => {
            let items = v->Array_0;
            lemma_bool_list(parts, items, items.len());
            assert(parts.take(parts.len() as int) =~= parts);
        }
        BoolTerm::Not(b) => {
            lemma_bool(*b);
        }
    }
}

/// A plan is read back, its expression and its trials.
pub proof fn lemma_plan(e: BytesTerm, trials: u32)
    ensures
        parse::read_plan(written::plan_json(e, trials)) == Ok::<(BytesTerm, u32), ParseError>((e, trials)),
{
    names::lemma_plan_names();
    lemma_bytes(e);
    lemma_number(trials as int);
    let (a, b, c) = (json::num(1), written::bytes_json(e), json::num(trials as int));
    lemma_three("v"@, a, "expr"@, b, "trials"@, c, "expr"@);
    lemma_three("v"@, a, "expr"@, b, "trials"@, c, "trials"@);
}

} // verus!
