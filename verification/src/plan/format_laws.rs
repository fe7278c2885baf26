//! How plan expressions are written: laws over all expressions.
use vstd::prelude::*;
use crate::json as tree;
use crate::json::JsonTree;
use crate::plan::json;
use crate::plan::parse;
use crate::plan::term;
use crate::plan::{BoolExpr, BoolTerm, BytesExpr, BytesTerm, NumExpr, NumTerm, ParseError};
use crate::text;

verus! {

broadcast use term::group_list_terms;

/// An object with one field.
pub open spec fn field(name: Seq<char>, value: JsonTree) -> JsonTree {
    JsonTree::Object(seq![(name, value)])
}

/// A number in digits.
pub open spec fn digits(n: int) -> JsonTree {
    JsonTree::Number(text::decimal(n))
}

/// A binary operation is its name over its operands, in order.
pub proof fn lemma_operations(a: NumExpr, b: NumExpr)
    ensures
        json::num_json(NumExpr::Add(Box::new(a), Box::new(b)).term()) == field(
            "add"@,
            JsonTree::Array(seq![json::num_json(a.term()), json::num_json(b.term())]),
        ),
        json::num_json(NumExpr::Sub(Box::new(a), Box::new(b)).term()) == field(
            "sub"@,
            JsonTree::Array(seq![json::num_json(a.term()), json::num_json(b.term())]),
        ),
        json::num_json(NumExpr::Mul(Box::new(a), Box::new(b)).term()) == field(
            "mul"@,
            JsonTree::Array(seq![json::num_json(a.term()), json::num_json(b.term())]),
        ),
        json::num_json(NumExpr::Div(Box::new(a), Box::new(b)).term()) == field(
            "div"@,
            JsonTree::Array(seq![json::num_json(a.term()), json::num_json(b.term())]),
        ),
        json::num_json(NumExpr::Mod(Box::new(a), Box::new(b)).term()) == field(
            "mod"@,
            JsonTree::Array(seq![json::num_json(a.term()), json::num_json(b.term())]),
        ),
        json::num_json(NumExpr::Shr(Box::new(a), Box::new(b)).term()) == field(
            "shr"@,
            JsonTree::Array(seq![json::num_json(a.term()), json::num_json(b.term())]),
        ),
        json::num_json(NumExpr::Shl(Box::new(a), Box::new(b)).term()) == field(
            "shl"@,
            JsonTree::Array(seq![json::num_json(a.term()), json::num_json(b.term())]),
        ),
        json::num_json(NumExpr::And(Box::new(a), Box::new(b)).term()) == field(
            "and"@,
            JsonTree::Array(seq![json::num_json(a.term()), json::num_json(b.term())]),
        ),
        json::num_json(NumExpr::Or(Box::new(a), Box::new(b)).term()) == field(
            "or"@,
            JsonTree::Array(seq![json::num_json(a.term()), json::num_json(b.term())]),
        ),
        json::num_json(NumExpr::Xor(Box::new(a), Box::new(b)).term()) == field(
            "xor"@,
            JsonTree::Array(seq![json::num_json(a.term()), json::num_json(b.term())]),
        ),
{
    reveal_with_fuel(json::num_json, 2);
}

/// A comparison is its name over its operands, in order.
pub proof fn lemma_comparisons(a: NumExpr, b: NumExpr, x: BytesExpr, y: BytesExpr)
    ensures
        json::bool_json(BoolExpr::Eq(Box::new(a), Box::new(b)).term()) == field(
            "eq"@,
            JsonTree::Array(seq![json::num_json(a.term()), json::num_json(b.term())]),
        ),
        json::bool_json(BoolExpr::Ne(Box::new(a), Box::new(b)).term()) == field(
            "ne"@,
            JsonTree::Array(seq![json::num_json(a.term()), json::num_json(b.term())]),
        ),
        json::bool_json(BoolExpr::Lt(Box::new(a), Box::new(b)).term()) == field(
            "lt"@,
            JsonTree::Array(seq![json::num_json(a.term()), json::num_json(b.term())]),
        ),
        json::bool_json(BoolExpr::Lte(Box::new(a), Box::new(b)).term()) == field(
            "lte"@,
            JsonTree::Array(seq![json::num_json(a.term()), json::num_json(b.term())]),
        ),
        json::bool_json(BoolExpr::Gt(Box::new(a), Box::new(b)).term()) == field(
            "gt"@,
            JsonTree::Array(seq![json::num_json(a.term()), json::num_json(b.term())]),
        ),
        json::bool_json(BoolExpr::Gte(Box::new(a), Box::new(b)).term()) == field(
            "gte"@,
            JsonTree::Array(seq![json::num_json(a.term()), json::num_json(b.term())]),
        ),
        json::bool_json(BoolExpr::BytesEq(Box::new(x), Box::new(y)).term()) == field(
            "beq"@,
            JsonTree::Array(seq![json::bytes_json(x.term()), json::bytes_json(y.term())]),
        ),
{
    reveal_with_fuel(json::bool_json, 2);
}

/// A junction is its name over its parts, in order; a negation is over its operand.
pub proof fn lemma_junctions(parts: Vec<BoolExpr>, e: BoolExpr)
    ensures
        json::bool_json(BoolExpr::Not(Box::new(e)).term()) == field("not"@, json::bool_json(e.term())),
        json::bool_json(BoolExpr::And(parts).term()) == field("and"@, JsonTree::Array(bool_list(parts@))),
        json::bool_json(BoolExpr::Or(parts).term()) == field("or"@, JsonTree::Array(bool_list(parts@))),
{
    reveal_with_fuel(json::bool_json, 2);
    assert(json::bool_json(BoolExpr::And(parts).term())->Object_0[0].1->Array_0 =~= bool_list(parts@));
    assert(json::bool_json(BoolExpr::Or(parts).term())->Object_0[0].1->Array_0 =~= bool_list(parts@));
}

pub open spec fn bool_list(parts: Seq<BoolExpr>) -> Seq<JsonTree> {
    Seq::new(parts.len(), |i: int| json::bool_json(parts[i].term()))
}

pub open spec fn bytes_list(parts: Seq<BytesExpr>) -> Seq<JsonTree> {
    Seq::new(parts.len(), |i: int| json::bytes_json(parts[i].term()))
}

/// The numbers that a plan starts from: a constant is a text of digits, so that no reader
/// rounds it; a word its place; the height and the loop variable are empty objects.
pub proof fn lemma_numbers(n: u128, i: u32, e: BytesExpr, c: BoolExpr, a: NumExpr, b: NumExpr)
    ensures
        json::num_json(NumExpr::Const(n).term()) == field("num"@, JsonTree::String(text::decimal(n as int))),
        json::num_json(NumExpr::Word(i).term()) == field("word"@, digits(i as int)),
        json::num_json(NumExpr::ULe(Box::new(e)).term()) == field("u"@, json::bytes_json(e.term())),
        json::num_json(NumExpr::Len(Box::new(e)).term()) == field("len"@, json::bytes_json(e.term())),
        json::num_json(NumExpr::Height.term()) == field("height"@, JsonTree::Object(seq![])),
        json::num_json(NumExpr::Var.term()) == field("var"@, JsonTree::Object(seq![])),
        json::num_json(NumExpr::If { cond: Box::new(c), if_true: Box::new(a), if_false: Box::new(b) }.term()) == field(
            "nif"@,
            JsonTree::Object(
                seq![("cond"@, json::bool_json(c.term())), ("then"@, json::num_json(a.term())), ("else"@, json::num_json(b.term()))],
            ),
        ),
{
    reveal_with_fuel(json::num_json, 2);
}

/// The byte strings of a plan, each under its name.
pub proof fn lemma_bytes(
    b: Vec<u8>,
    start: u32,
    len: u32,
    width: u8,
    e: BytesExpr,
    f: BytesExpr,
    m: NumExpr,
    n: NumExpr,
    c: BoolExpr,
    parts: Vec<BytesExpr>,
)
    ensures
        json::bytes_json(BytesExpr::Const(b).term()) == field("bytes"@, JsonTree::String(json::hex_text(b@))),
        json::bytes_json(BytesExpr::Storage(Box::new(e)).term()) == field("storage"@, json::bytes_json(e.term())),
        json::bytes_json(BytesExpr::Calldata { start, len: None }.term()) == field("calldata"@, field("start"@, digits(start as int))),
        json::bytes_json(BytesExpr::Calldata { start, len: Some(len) }.term()) == field(
            "calldata"@,
            JsonTree::Object(seq![("start"@, digits(start as int)), ("len"@, digits(len as int))]),
        ),
        json::bytes_json(BytesExpr::Concat(parts).term()) == field("concat"@, JsonTree::Array(bytes_list(parts@))),
        json::bytes_json(BytesExpr::Slice { of: Box::new(e), start: Box::new(m), len: Box::new(n) }.term()) == field(
            "slice"@,
            JsonTree::Object(
                seq![("of"@, json::bytes_json(e.term())), ("start"@, json::num_json(m.term())), ("len"@, json::num_json(n.term()))],
            ),
        ),
        json::bytes_json(BytesExpr::Le { of: Box::new(m), width }.term()) == field(
            "le"@,
            JsonTree::Object(seq![("of"@, json::num_json(m.term())), ("width"@, digits(width as int))]),
        ),
        json::bytes_json(BytesExpr::If { cond: Box::new(c), if_true: Box::new(e), if_false: Box::new(f) }.term()) == field(
            "if"@,
            JsonTree::Object(
                seq![("cond"@, json::bool_json(c.term())), ("then"@, json::bytes_json(e.term())), ("else"@, json::bytes_json(f.term()))],
            ),
        ),
        json::bytes_json(BytesExpr::Loop { count: Box::new(m), body: Box::new(e) }.term()) == field(
            "loop"@,
            JsonTree::Object(seq![("count"@, json::num_json(m.term())), ("body"@, json::bytes_json(e.term()))]),
        ),
        json::bytes_json(BytesExpr::Hex(Box::new(e)).term()) == field("hex"@, json::bytes_json(e.term())),
        json::bytes_json(BytesExpr::Decimal(Box::new(m)).term()) == field("decimal"@, json::num_json(m.term())),
{
    reveal_with_fuel(json::bytes_json, 2);
    assert(json::bytes_json(BytesExpr::Concat(parts).term())->Object_0[0].1->Array_0 =~= bytes_list(parts@));
}

/// A plan is its version, its expression and the trials it passed.
pub proof fn lemma_plan(e: BytesExpr, trials: u32)
    ensures
        json::plan_json(e.term(), trials) == JsonTree::Object(
            seq![("v"@, digits(1)), ("expr"@, json::bytes_json(e.term())), ("trials"@, digits(trials as int))],
        ),
{
}

/// The value of a lowercase hexadecimal digit.
pub open spec fn hex_value(c: char) -> int {
    if '0' <= c && c <= '9' {
        c as int - '0' as int
    } else {
        c as int - 'a' as int + 10
    }
}

/// A byte is written in two lowercase hexadecimal digits, the high one first.
pub proof fn lemma_hex_text(b: Seq<u8>, i: int)
    ensures
        json::hex_text(b).len() == 2 * b.len(),
        0 <= i < b.len() ==> {
            let (h, l) = (json::hex_text(b)[2 * i], json::hex_text(b)[2 * i + 1]);
            &&& ('0' <= h && h <= '9') || ('a' <= h && h <= 'f')
            &&& ('0' <= l && l <= '9') || ('a' <= l && l <= 'f')
            &&& 16 * hex_value(h) + hex_value(l) == b[i]
        },
    decreases b.len(),
{
    if b.len() > 0 {
        lemma_hex_text(b.drop_last(), i);
    }
}

/* ─────────────── reading ─────────────── */

/// What is no object is no expression, and neither is an object without a known name.
pub proof fn lemma_no_expression(t: JsonTree)
    ensures
        !(t is Object) ==> parse::read_bytes(t) == Err::<BytesTerm, ParseError>(ParseError::ExpectedObject),
        !(t is Object) ==> parse::read_num(t) == Err::<NumTerm, ParseError>(ParseError::ExpectedObject),
        !(t is Object) ==> parse::read_bool(t) == Err::<BoolTerm, ParseError>(ParseError::ExpectedObject),
        parse::read_bytes(JsonTree::Object(seq![])) == Err::<BytesTerm, ParseError>(ParseError::Unrecognized),
        parse::read_num(JsonTree::Object(seq![])) == Err::<NumTerm, ParseError>(ParseError::Unrecognized),
        parse::read_bool(JsonTree::Object(seq![])) == Err::<BoolTerm, ParseError>(ParseError::Unrecognized),
{
}

/// Two operands are read in order; any other number of them is an error, and so is what
/// is no list.
pub proof fn lemma_operands(t: JsonTree, items: Seq<JsonTree>)
    ensures
        !(t is Array) ==> parse::read_pair(t) == Err::<(NumTerm, NumTerm), ParseError>(ParseError::ExpectedArray),
        items.len() != 2 ==> parse::read_pair(JsonTree::Array(items)) == Err::<(NumTerm, NumTerm), ParseError>(ParseError::Operands),
        items.len() == 2 && parse::read_num(items[0]) is Ok && parse::read_num(items[1]) is Ok ==> parse::read_pair(JsonTree::Array(items))
            == Ok::<(NumTerm, NumTerm), ParseError>((parse::read_num(items[0])->Ok_0, parse::read_num(items[1])->Ok_0)),
{
}

/// A plan has to have an expression; trials that are missing or no number are none.
pub proof fn lemma_read_plan(t: JsonTree)
    ensures
        tree::field(t, "expr"@) is None ==> parse::read_plan(t) == Err::<(BytesTerm, u32), ParseError>(ParseError::MissingExpr),
        tree::field(t, "expr"@) matches Some(v) ==> (match (parse::read_bytes(v), parse::read_plan(t)) {
            (Ok(e), Ok(p)) => p.0 == e && (tree::field(t, "trials"@) is None ==> p.1 == 0),
            (Err(x), Err(y)) => x == y,
            _ => false,
        }),
{
}

/// Two hexadecimal digits of either case are a byte; an odd number of them is none.
pub proof fn lemma_read_hex(s: Seq<char>, h: char, l: char)
    ensures
        s.len() % 2 == 1 ==> parse::read_hex(s) is None,
        parse::read_hex(seq![]) == Some(Seq::<u8>::empty()),
        parse::read_hex(s) matches Some(b) ==> b.len() == s.len() / 2,
        (parse::hex_value(h) is Some && parse::hex_value(l) is Some && parse::read_hex(s) is Some) ==> parse::read_hex(s.push(h).push(l)) == Some(
            parse::read_hex(s)->Some_0.push((16 * parse::hex_value(h)->Some_0 + parse::hex_value(l)->Some_0) as u8),
        ),
        '0' <= h && h <= '9' ==> parse::hex_value(h) == Some(h as int - '0' as int),
        'a' <= h && h <= 'f' ==> parse::hex_value(h) == Some(h as int - 'a' as int + 10),
        'A' <= h && h <= 'F' ==> parse::hex_value(h) == Some(h as int - 'A' as int + 10),
    decreases s.len(),
{
    if s.len() >= 2 {
        lemma_read_hex(s.take(s.len() - 2), h, l);
    }
    let more = s.push(h).push(l);
    assert(more.take(more.len() - 2) =~= s);
}

} // verus!
