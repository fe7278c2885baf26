//! Reading plans from JSON.
use vstd::prelude::*;
use crate::json;
use crate::json::{Json, JsonTree};
use crate::plan::term;
use crate::plan::{BoolExpr, BoolTerm, BytesExpr, BytesTerm, Comparison, NumExpr, NumOp, NumTerm, Plan};
use crate::text;
use crate::text::{chars_of, read_unsigned};

verus! {

broadcast use {term::group_list_terms, json::group_json_trees};

/// Why a JSON value is no plan.
#[derive(Debug, Clone, Copy, PartialEq, Eq, Structural)]
pub enum ParseError {
    /// An expression is no object.
    ExpectedObject,
    /// Constant bytes are no string of hex pairs.
    Hex,
    /// A number is missing or is none.
    ExpectedNumber,
    /// A list is no array.
    ExpectedArray,
    /// There are not two operands.
    Operands,
    /// A part of an expression is missing.
    MissingField,
    /// A constant number is no decimal string that fits 128 bits.
    Constant,
    /// An expression of no known form.
    Unrecognized,
    /// A plan without an expression.
    MissingExpr,
}

/* ─────────────── meaning ─────────────── */

/// The value of a hex digit, of either case.
pub open spec fn hex_value(c: char) -> Option<int> {
    if '0' <= c && c <= '9' {
        Some(c as int - '0' as int)
    } else if 'a' <= c && c <= 'f' {
        Some(c as int - 'a' as int + 10)
    } else if 'A' <= c && c <= 'F' {
        Some(c as int - 'A' as int + 10)
    } else {
        None
    }
}

/// The byte of two characters: two hex digits, or one behind a plus sign.
pub open spec fn pair_value(a: char, b: char) -> Option<u8> {
    match (hex_value(a), hex_value(b)) {
        (Some(h), Some(l)) => Some((16 * h + l) as u8),
        (None, Some(l)) => if a == '+' { Some(l as u8) } else { None },
        _ => None,
    }
}

/// The bytes of a hex text.
pub open spec fn read_hex(s: Seq<char>) -> Option<Seq<u8>>
    decreases s.len(),
{
    if s.len() == 0 {
        Some(Seq::empty())
    } else if s.len() == 1 {
        None
    } else {
        match (read_hex(s.take(s.len() - 2)), pair_value(s[s.len() - 2], s[s.len() - 1])) {
            (Some(b), Some(x)) => Some(b.push(x)),
            _ => None,
        }
    }
}

/// A number field that must be there.
pub open spec fn needed_number(t: JsonTree, key: Seq<char>) -> Result<u64, ParseError> {
    match json::field(t, key) {
        Some(v) => match json::number(v) {
            Some(n) => Ok(n),
            None => Err(ParseError::ExpectedNumber),
        },
        None => Err(ParseError::ExpectedNumber),
    }
}

/// What is left of a tree is smaller than it.
pub proof fn lemma_find_smaller(fields: Seq<(Seq<char>, JsonTree)>, key: Seq<char>, from: nat)
    ensures
        json::find_field(fields, key, from) matches Some(v) ==> decreases_to!(fields => v),
    decreases fields.len() - from,
{
    if from < fields.len() {
        assert(decreases_to!(fields => fields[from as int]));
        assert(decreases_to!(fields[from as int] => fields[from as int].1));
        lemma_find_smaller(fields, key, from + 1);
    }
}

/// A field of an object is smaller than the object.
pub proof fn lemma_field_smaller(t: JsonTree, key: Seq<char>)
    ensures
        json::field(t, key) matches Some(v) ==> decreases_to!(t => v),
{
    if let JsonTree::Object(fields) = t {
        lemma_find_smaller(fields, key, 0);
        assert(decreases_to!(t => fields));
    }
}

/// What a JSON value means as a byte-string expression: the first of the known fields
/// counts.
pub open spec fn read_bytes(t: JsonTree) -> Result<BytesTerm, ParseError>
    decreases t, 0nat,
{
    proof {
        lemma_field_smaller(t, "storage"@);
        lemma_field_smaller(t, "concat"@);
        lemma_field_smaller(t, "slice"@);
        lemma_field_smaller(t, "le"@);
        lemma_field_smaller(t, "if"@);
        lemma_field_smaller(t, "loop"@);
        lemma_field_smaller(t, "hex"@);
        lemma_field_smaller(t, "decimal"@);
    }
    if !(t is Object) {
        Err(ParseError::ExpectedObject)
    } else if let Some(v) = json::field(t, "bytes"@) {
        match json::string(v) {
            Some(s) => match read_hex(s) {
                Some(b) => Ok(BytesTerm::Const(b)),
                None => Err(ParseError::Hex),
            },
            None => Err(ParseError::Hex),
        }
    } else if let Some(v) = json::field(t, "storage"@) {
        match read_bytes(v) {
            Ok(k) => Ok(BytesTerm::Storage(Box::new(k))),
            Err(e) => Err(e),
        }
    } else if let Some(v) = json::field(t, "calldata"@) {
        match needed_number(v, "start"@) {
            Ok(start) => Ok(
                BytesTerm::Calldata {
                    start: start as u32,
                    len: match json::field(v, "len"@) {
                        Some(l) => match json::number(l) {
                            Some(n) => Some(n as u32),
                            None => None,
                        },
                        None => None,
                    },
                },
            ),
            Err(e) => Err(e),
        }
    } else if let Some(v) = json::field(t, "concat"@) {
        match v {
            JsonTree::Array(items) => match read_bytes_list(items, items.len()) {
                Ok(parts) => Ok(BytesTerm::Concat(parts)),
                Err(e) => Err(e),
            },
            _ => Err(ParseError::ExpectedArray),
        }
    } else if let Some(v) = json::field(t, "slice"@) {
        match read_bytes_field(v, "of"@) {
            Err(e) => Err(e),
            Ok(of) => match read_num_field(v, "start"@) {
                Err(e) => Err(e),
                Ok(start) => match read_num_field(v, "len"@) {
                    Err(e) => Err(e),
                    Ok(len) => Ok(BytesTerm::Slice { of: Box::new(of), start: Box::new(start), len: Box::new(len) }),
                },
            },
        }
    } else if let Some(v) = json::field(t, "le"@) {
        match read_num_field(v, "of"@) {
            Err(e) => Err(e),
            Ok(of) => match needed_number(v, "width"@) {
                Err(e) => Err(e),
                Ok(width) => Ok(BytesTerm::Le { of: Box::new(of), width: width as u8 }),
            },
        }
    } else if let Some(v) = json::field(t, "if"@) {
        match read_bool_field(v, "cond"@) {
            Err(e) => Err(e),
            Ok(cond) => match read_bytes_field(v, "then"@) {
                Err(e) => Err(e),
                Ok(if_true) => match read_bytes_field(v, "else"@) {
                    Err(e) => Err(e),
                    Ok(if_false) => Ok(
                        BytesTerm::If { cond: Box::new(cond), if_true: Box::new(if_true), if_false: Box::new(if_false) },
                    ),
                },
            },
        }
    } else if let Some(v) = json::field(t, "loop"@) {
        match read_num_field(v, "count"@) {
            Err(e) => Err(e),
            Ok(count) => match read_bytes_field(v, "body"@) {
                Err(e) => Err(e),
                Ok(body) => Ok(BytesTerm::Loop { count: Box::new(count), body: Box::new(body) }),
            },
        }
    } else if let Some(v) = json::field(t, "hex"@) {
        match read_bytes(v) {
            Ok(b) => Ok(BytesTerm::Hex(Box::new(b))),
            Err(e) => Err(e),
        }
    } else if let Some(v) = json::field(t, "decimal"@) {
        match read_num(v) {
            Ok(n) => Ok(BytesTerm::Decimal(Box::new(n))),
            Err(e) => Err(e),
        }
    } else {
        Err(ParseError::Unrecognized)
    }
}

pub open spec fn read_bytes_field(t: JsonTree, key: Seq<char>) -> Result<BytesTerm, ParseError>
    decreases t, 1nat,
{
    proof {
        lemma_field_smaller(t, key);
    }
    match json::field(t, key) {
        Some(v) => read_bytes(v),
        None => Err(ParseError::MissingField),
    }
}

pub open spec fn read_num_field(t: JsonTree, key: Seq<char>) -> Result<NumTerm, ParseError>
    decreases t, 1nat,
{
    proof {
        lemma_field_smaller(t, key);
    }
    match json::field(t, key) {
        Some(v) => read_num(v),
        None => Err(ParseError::MissingField),
    }
}

pub open spec fn read_bool_field(t: JsonTree, key: Seq<char>) -> Result<BoolTerm, ParseError>
    decreases t, 1nat,
{
    proof {
        lemma_field_smaller(t, key);
    }
    match json::field(t, key) {
        Some(v) => read_bool(v),
        None => Err(ParseError::MissingField),
    }
}

/// The first `n` items of an array, as byte-string expressions.
pub open spec fn read_bytes_list(items: Seq<JsonTree>, n: nat) -> Result<Seq<BytesTerm>, ParseError>
    decreases items, n,
{
    if n == 0 || n > items.len() {
        Ok(Seq::empty())
    } else {
        match read_bytes_list(items, (n - 1) as nat) {
            Err(e) => Err(e),
            Ok(parts) => match read_bytes(items[n - 1]) {
                Err(e) => Err(e),
                Ok(p) => Ok(parts.push(p)),
            },
        }
    }
}

/// The first `n` items of an array, as truth-valued expressions.
pub open spec fn read_bool_list(items: Seq<JsonTree>, n: nat) -> Result<Seq<BoolTerm>, ParseError>
    decreases items, n,
{
    if n == 0 || n > items.len() {
        Ok(Seq::empty())
    } else {
        match read_bool_list(items, (n - 1) as nat) {
            Err(e) => Err(e),
            Ok(parts) => match read_bool(items[n - 1]) {
                Err(e) => Err(e),
                Ok(p) => Ok(parts.push(p)),
            },
        }
    }
}

/// Two operands.
pub open spec fn read_pair(t: JsonTree) -> Result<(NumTerm, NumTerm), ParseError>
    decreases t, 1nat,
{
    match t {
        JsonTree::Array(items) => if items.len() != 2 {
            Err(ParseError::Operands)
        } else {
            match read_num(items[0]) {
                Err(e) => Err(e),
                Ok(a) => match read_num(items[1]) {
                    Err(e) => Err(e),
                    Ok(b) => Ok((a, b)),
                },
            }
        },
        _ => Err(ParseError::ExpectedArray),
    }
}

/// The operation that an object names, and its operands: the first known name counts.
pub open spec fn named_op(t: JsonTree) -> Option<(NumOp, JsonTree)> {
    if let Some(v) = json::field(t, "add"@) {
        Some((NumOp::Add, v))
    } else if let Some(v) = json::field(t, "sub"@) {
        Some((NumOp::Sub, v))
    } else if let Some(v) = json::field(t, "mul"@) {
        Some((NumOp::Mul, v))
    } else if let Some(v) = json::field(t, "div"@) {
        Some((NumOp::Div, v))
    } else if let Some(v) = json::field(t, "mod"@) {
        Some((NumOp::Mod, v))
    } else if let Some(v) = json::field(t, "shr"@) {
        Some((NumOp::Shr, v))
    } else if let Some(v) = json::field(t, "shl"@) {
        Some((NumOp::Shl, v))
    } else if let Some(v) = json::field(t, "and"@) {
        Some((NumOp::And, v))
    } else if let Some(v) = json::field(t, "or"@) {
        Some((NumOp::Or, v))
    } else if let Some(v) = json::field(t, "xor"@) {
        Some((NumOp::Xor, v))
    } else {
        None
    }
}

/// The comparison that an object names, and its operands.
pub open spec fn named_comparison(t: JsonTree) -> Option<(Comparison, JsonTree)> {
    if let Some(v) = json::field(t, "eq"@) {
        Some((Comparison::Eq, v))
    } else if let Some(v) = json::field(t, "ne"@) {
        Some((Comparison::Ne, v))
    } else if let Some(v) = json::field(t, "lt"@) {
        Some((Comparison::Lt, v))
    } else if let Some(v) = json::field(t, "lte"@) {
        Some((Comparison::Lte, v))
    } else if let Some(v) = json::field(t, "gt"@) {
        Some((Comparison::Gt, v))
    } else if let Some(v) = json::field(t, "gte"@) {
        Some((Comparison::Gte, v))
    } else {
        None
    }
}

/// The operands of an operation or comparison are smaller than the object.
pub proof fn lemma_op_smaller(t: JsonTree)
    ensures
        named_op(t) matches Some((_, v)) ==> decreases_to!(t => v),
        named_comparison(t) matches Some((_, v)) ==> decreases_to!(t => v),
{
    lemma_field_smaller(t, "add"@);
    lemma_field_smaller(t, "sub"@);
    lemma_field_smaller(t, "mul"@);
    lemma_field_smaller(t, "div"@);
    lemma_field_smaller(t, "mod"@);
    lemma_field_smaller(t, "shr"@);
    lemma_field_smaller(t, "shl"@);
    lemma_field_smaller(t, "and"@);
    lemma_field_smaller(t, "or"@);
    lemma_field_smaller(t, "xor"@);
    lemma_field_smaller(t, "eq"@);
    lemma_field_smaller(t, "ne"@);
    lemma_field_smaller(t, "lt"@);
    lemma_field_smaller(t, "lte"@);
    lemma_field_smaller(t, "gt"@);
    lemma_field_smaller(t, "gte"@);
}

/// What a JSON value means as a number expression.
pub open spec fn read_num(t: JsonTree) -> Result<NumTerm, ParseError>
    decreases t, 0nat,
{
    proof {
        lemma_field_smaller(t, "u"@);
        lemma_field_smaller(t, "len"@);
        lemma_field_smaller(t, "nif"@);
        lemma_op_smaller(t);
    }
    if !(t is Object) {
        Err(ParseError::ExpectedObject)
    } else if let Some(v) = json::field(t, "num"@) {
        match json::string(v) {
            Some(s) => match text::parse_unsigned(s, u128::MAX as nat) {
                Some(n) => Ok(NumTerm::Const(n as u128)),
                None => Err(ParseError::Constant),
            },
            None => Err(ParseError::Constant),
        }
    } else if let Some(v) = json::field(t, "word"@) {
        match json::number(v) {
            Some(n) => Ok(NumTerm::Word(n as u32)),
            None => Err(ParseError::ExpectedNumber),
        }
    } else if let Some(v) = json::field(t, "u"@) {
        match read_bytes(v) {
            Ok(b) => Ok(NumTerm::ULe(Box::new(b))),
            Err(e) => Err(e),
        }
    } else if let Some(v) = json::field(t, "len"@) {
        match read_bytes(v) {
            Ok(b) => Ok(NumTerm::Len(Box::new(b))),
            Err(e) => Err(e),
        }
    } else if json::field(t, "height"@) is Some {
        Ok(NumTerm::Height)
    } else if json::field(t, "var"@) is Some {
        Ok(NumTerm::Var)
    } else if let Some((op, v)) = named_op(t) {
        match read_pair(v) {
            Ok((a, b)) => Ok(term::op_term(op, a, b)),
            Err(e) => Err(e),
        }
    } else if let Some(v) = json::field(t, "nif"@) {
        match read_bool_field(v, "cond"@) {
            Err(e) => Err(e),
            Ok(cond) => match read_num_field(v, "then"@) {
                Err(e) => Err(e),
                Ok(if_true) => match read_num_field(v, "else"@) {
                    Err(e) => Err(e),
                    Ok(if_false) => Ok(
                        NumTerm::If { cond: Box::new(cond), if_true: Box::new(if_true), if_false: Box::new(if_false) },
                    ),
                },
            },
        }
    } else {
        Err(ParseError::Unrecognized)
    }
}

/// What a JSON value means as a truth-valued expression.
pub open spec fn read_bool(t: JsonTree) -> Result<BoolTerm, ParseError>
    decreases t, 0nat,
{
    proof {
        lemma_field_smaller(t, "beq"@);
        lemma_field_smaller(t, "and"@);
        lemma_field_smaller(t, "or"@);
        lemma_field_smaller(t, "not"@);
        lemma_op_smaller(t);
    }
    if !(t is Object) {
        Err(ParseError::ExpectedObject)
    } else if let Some((c, v)) = named_comparison(t) {
        match read_pair(v) {
            Ok((a, b)) => Ok(term::holds_term(c, a, b)),
            Err(e) => Err(e),
        }
    } else if let Some(v) = json::field(t, "beq"@) {
        match v {
            JsonTree::Array(items) => if items.len() != 2 {
                Err(ParseError::Operands)
            } else {
                match read_bytes(items[0]) {
                    Err(e) => Err(e),
                    Ok(a) => match read_bytes(items[1]) {
                        Err(e) => Err(e),
                        Ok(b) => Ok(BoolTerm::BytesEq(Box::new(a), Box::new(b))),
                    },
                }
            },
            _ => Err(ParseError::ExpectedArray),
        }
    } else if let Some(v) = json::field(t, "and"@) {
        match v {
            JsonTree::Array(items) => match read_bool_list(items, items.len()) {
                Ok(parts) => Ok(BoolTerm::And(parts)),
                Err(e) => Err(e),
            },
            _ => Err(ParseError::ExpectedArray),
        }
    } else if let Some(v) = json::field(t, "or"@) {
        match v {
            JsonTree::Array(items) => match read_bool_list(items, items.len()) {
                Ok(parts) => Ok(BoolTerm::Or(parts)),
                Err(e) => Err(e),
            },
            _ => Err(ParseError::ExpectedArray),
        }
    } else if let Some(v) = json::field(t, "not"@) {
        match read_bool(v) {
            Ok(b) => Ok(BoolTerm::Not(Box::new(b))),
            Err(e) => Err(e),
        }
    } else {
        Err(ParseError::Unrecognized)
    }
}

/// What a JSON value means as a plan: its expression, and its trials (0 if they are no
/// number).
pub open spec fn read_plan(t: JsonTree) -> Result<(BytesTerm, u32), ParseError> {
    match json::field(t, "expr"@) {
        None => Err(ParseError::MissingExpr),
        Some(v) => match read_bytes(v) {
            Err(e) => Err(e),
            Ok(expr) => Ok((
                expr,
                match json::field(t, "trials"@) {
                    Some(n) => match json::number(n) {
                        Some(n) => n as u32,
                        None => 0,
                    },
                    None => 0,
                },
            )),
        },
    }
}

/* ─────────────── reading ─────────────── */

/// Whether a result is the one meant.
pub open spec fn bytes_agree(r: Result<BytesExpr, ParseError>, m: Result<BytesTerm, ParseError>) -> bool {
    match (r, m) {
        (Ok(e), Ok(t)) => e.term() == t,
        (Err(e), Err(x)) => e == x,
        _ => false,
    }
}

pub open spec fn num_agree(r: Result<NumExpr, ParseError>, m: Result<NumTerm, ParseError>) -> bool {
    match (r, m) {
        (Ok(e), Ok(t)) => e.term() == t,
        (Err(e), Err(x)) => e == x,
        _ => false,
    }
}

pub open spec fn bool_agree(r: Result<BoolExpr, ParseError>, m: Result<BoolTerm, ParseError>) -> bool {
    match (r, m) {
        (Ok(e), Ok(t)) => e.term() == t,
        (Err(e), Err(x)) => e == x,
        _ => false,
    }
}

fn hex_of(c: char) -> (r: Option<u8>)
    ensures
        match hex_value(c) {
            Some(d) => r matches Some(v) && v == d && v < 16,
            None => r is None,
        },
{
    if '0' <= c && c <= '9' {
        Some((c as u32 - 48) as u8)
    } else if 'a' <= c && c <= 'f' {
        Some((c as u32 - 87) as u8)
    } else if 'A' <= c && c <= 'F' {
        Some((c as u32 - 55) as u8)
    } else {
        None
    }
}

fn pair_of(a: char, b: char) -> (r: Option<u8>)
    ensures
        r == pair_value(a, b),
{
    match (hex_of(a), hex_of(b)) {
        (Some(h), Some(l)) => Some(16 * h + l),
        (None, Some(l)) => if a == '+' {
            Some(l)
        } else {
            None
        },
        _ => None,
    }
}

proof fn lemma_hex_stopped(s: Seq<char>, k: nat, n: nat)
    requires
        k <= n,
        2 * n <= s.len(),
        read_hex(s.take(2 * k as int)) is None,
    ensures
        read_hex(s.take(2 * n as int)) is None,
    decreases n,
{
    if k < n {
        lemma_hex_stopped(s, k, (n - 1) as nat);
        assert(s.take(2 * n as int).take(2 * n - 2) =~= s.take(2 * (n - 1)));
    }
}

proof fn lemma_hex_odd(s: Seq<char>)
    requires
        s.len() % 2 == 1,
    ensures
        read_hex(s) is None,
    decreases s.len(),
{
    if s.len() > 1 {
        lemma_hex_odd(s.take(s.len() - 2));
    }
}

fn hex_bytes(s: &str) -> (r: Option<Vec<u8>>)
    ensures
        match r {
            Some(b) => read_hex(s@) == Some(b@),
            None => read_hex(s@) is None,
        },
{
    let cs = chars_of(s);
    let total: usize = cs.len();
    if total % 2 != 0 {
        proof {
            lemma_hex_odd(s@);
        }
        return None;
    }
    let n: usize = total / 2;
    let mut out: Vec<u8> = Vec::new();
    assert(cs@.take(0) =~= Seq::empty());
    for i in 0..n
        invariant
            2 * n == cs@.len(),
            cs@ == s@,
            read_hex(cs@.take(2 * i as int)) == Some(out@),
    {
        assert(cs@.take(2 * (i + 1)).take(2 * (i + 1) - 2) =~= cs@.take(2 * i as int));
        match pair_of(cs[2 * i], cs[2 * i + 1]) {
            Some(b) => {
                out.push(b);
            }
            None => {
                proof {
                    lemma_hex_stopped(cs@, (i + 1) as nat, n as nat);
                    assert(cs@.take(2 * n as int) =~= cs@);
                }
                return None;
            }
        }
    }
    assert(cs@.take(2 * n as int) =~= cs@);
    Some(out)
}

fn num_field(v: &Json, key: &str) -> (r: Result<u64, ParseError>)
    ensures
        r == needed_number(v.tree(), key@),
{
    match v.get(key) {
        Some(n) => match n.as_u64() {
            Some(n) => Ok(n),
            None => Err(ParseError::ExpectedNumber),
        },
        None => Err(ParseError::ExpectedNumber),
    }
}

fn is_object(v: &Json) -> (r: bool)
    ensures
        r == (v.tree() is Object),
{
    match v {
        Json::Object(_) => true,
        _ => false,
    }
}

proof fn lemma_bytes_list_stopped(items: Seq<JsonTree>, k: nat, n: nat)
    requires
        k <= n <= items.len(),
        read_bytes_list(items, k) is Err,
    ensures
        read_bytes_list(items, n) == read_bytes_list(items, k),
    decreases n,
{
    if k < n {
        lemma_bytes_list_stopped(items, k, (n - 1) as nat);
    }
}

proof fn lemma_bool_list_stopped(items: Seq<JsonTree>, k: nat, n: nat)
    requires
        k <= n <= items.len(),
        read_bool_list(items, k) is Err,
    ensures
        read_bool_list(items, n) == read_bool_list(items, k),
    decreases n,
{
    if k < n {
        lemma_bool_list_stopped(items, k, (n - 1) as nat);
    }
}

fn parse_bytes_list(items: &Vec<Json>) -> (r: Result<Vec<BytesExpr>, ParseError>)
    ensures
        match (r, read_bytes_list(json::trees(items@), items@.len())) {
            (Ok(v), Ok(ts)) => term::bytes_terms(v@) == ts,
            (Err(e), Err(x)) => e == x,
            _ => false,
        },
    decreases items, 0nat,
{
    let ghost ts = json::trees(items@);
    let mut out: Vec<BytesExpr> = Vec::new();
    let n: usize = items.len();
    assert(term::bytes_terms(out@) =~= Seq::empty());
    for i in 0..n
        invariant
            n == items@.len(),
            ts == json::trees(items@),
            read_bytes_list(ts, i as nat) == Ok::<Seq<BytesTerm>, ParseError>(term::bytes_terms(out@)),
    {
        let ghost before = term::bytes_terms(out@);
        assert(ts[i as int] == items@[i as int].tree());
        match parse_bytes(&items[i]) {
            Ok(e) => {
                out.push(e);
                assert(term::bytes_terms(out@) =~= before.push(e.term()));
            }
            Err(e) => {
                proof {
                    lemma_bytes_list_stopped(ts, (i + 1) as nat, n as nat);
                }
                return Err(e);
            }
        }
    }
    Ok(out)
}

fn parse_bool_list(items: &Vec<Json>) -> (r: Result<Vec<BoolExpr>, ParseError>)
    ensures
        match (r, read_bool_list(json::trees(items@), items@.len())) {
            (Ok(v), Ok(ts)) => term::bool_terms(v@) == ts,
            (Err(e), Err(x)) => e == x,
            _ => false,
        },
    decreases items, 0nat,
{
    let ghost ts = json::trees(items@);
    let mut out: Vec<BoolExpr> = Vec::new();
    let n: usize = items.len();
    assert(term::bool_terms(out@) =~= Seq::empty());
    for i in 0..n
        invariant
            n == items@.len(),
            ts == json::trees(items@),
            read_bool_list(ts, i as nat) == Ok::<Seq<BoolTerm>, ParseError>(term::bool_terms(out@)),
    {
        let ghost before = term::bool_terms(out@);
        assert(ts[i as int] == items@[i as int].tree());
        match parse_bool(&items[i]) {
            Ok(e) => {
                out.push(e);
                assert(term::bool_terms(out@) =~= before.push(e.term()));
            }
            Err(e) => {
                proof {
                    lemma_bool_list_stopped(ts, (i + 1) as nat, n as nat);
                }
                return Err(e);
            }
        }
    }
    Ok(out)
}

fn bytes_field(v: &Json, key: &str) -> (r: Result<BytesExpr, ParseError>)
    ensures
        bytes_agree(r, read_bytes_field(v.tree(), key@)),
    decreases v, 1nat,
{
    match v.get(key) {
        Some(x) => parse_bytes(x),
        None => Err(ParseError::MissingField),
    }
}

fn number_field(v: &Json, key: &str) -> (r: Result<NumExpr, ParseError>)
    ensures
        num_agree(r, read_num_field(v.tree(), key@)),
    decreases v, 1nat,
{
    match v.get(key) {
        Some(x) => parse_num(x),
        None => Err(ParseError::MissingField),
    }
}

fn bool_field(v: &Json, key: &str) -> (r: Result<BoolExpr, ParseError>)
    ensures
        bool_agree(r, read_bool_field(v.tree(), key@)),
    decreases v, 1nat,
{
    match v.get(key) {
        Some(x) => parse_bool(x),
        None => Err(ParseError::MissingField),
    }
}

fn pair(v: &Json) -> (r: Result<(NumExpr, NumExpr), ParseError>)
    ensures
        match (r, read_pair(v.tree())) {
            (Ok((a, b)), Ok((s, t))) => a.term() == s && b.term() == t,
            (Err(e), Err(x)) => e == x,
            _ => false,
        },
    decreases v, 1nat,
{
    match v {
        Json::Array(items) => {
            let ghost ts = json::trees(items@);
            if items.len() != 2 {
                return Err(ParseError::Operands);
            }
            assert(ts[0] == items@[0].tree());
            assert(ts[1] == items@[1].tree());
            match parse_num(&items[0]) {
                Err(e) => Err(e),
                Ok(a) => match parse_num(&items[1]) {
                    Err(e) => Err(e),
                    Ok(b) => Ok((a, b)),
                },
            }
        }
        _ => Err(ParseError::ExpectedArray),
    }
}

/// Reads constant bytes.
fn parse_const(v: &Json) -> (r: Result<BytesExpr, ParseError>)
    ensures
        bytes_agree(
            r,
            match json::string(v.tree()) {
                Some(s) => match read_hex(s) {
                    Some(b) => Ok(BytesTerm::Const(b)),
                    None => Err(ParseError::Hex),
                },
                None => Err(ParseError::Hex),
            },
        ),
{
    match v.as_str() {
        Some(s) => match hex_bytes(s) {
            Some(b) => Ok(BytesExpr::Const(b)),
            None => Err(ParseError::Hex),
        },
        None => Err(ParseError::Hex),
    }
}

fn parse_slice(v: &Json) -> (r: Result<BytesExpr, ParseError>)
    ensures
        bytes_agree(
            r,
            match read_bytes_field(v.tree(), "of"@) {
                Err(e) => Err(e),
                Ok(of) => match read_num_field(v.tree(), "start"@) {
                    Err(e) => Err(e),
                    Ok(start) => match read_num_field(v.tree(), "len"@) {
                        Err(e) => Err(e),
                        Ok(len) => Ok(BytesTerm::Slice { of: Box::new(of), start: Box::new(start), len: Box::new(len) }),
                    },
                },
            },
        ),
    decreases v, 2nat,
{
    match bytes_field(v, "of") {
        Err(e) => Err(e),
        Ok(of) => match number_field(v, "start") {
            Err(e) => Err(e),
            Ok(start) => match number_field(v, "len") {
                Err(e) => Err(e),
                Ok(len) => Ok(BytesExpr::Slice { of: Box::new(of), start: Box::new(start), len: Box::new(len) }),
            },
        },
    }
}

fn parse_if(v: &Json) -> (r: Result<BytesExpr, ParseError>)
    ensures
        bytes_agree(
            r,
            match read_bool_field(v.tree(), "cond"@) {
                Err(e) => Err(e),
                Ok(cond) => match read_bytes_field(v.tree(), "then"@) {
                    Err(e) => Err(e),
                    Ok(if_true) => match read_bytes_field(v.tree(), "else"@) {
                        Err(e) => Err(e),
                        Ok(if_false) => Ok(
                            BytesTerm::If {
                                cond: Box::new(cond),
                                if_true: Box::new(if_true),
                                if_false: Box::new(if_false),
                            },
                        ),
                    },
                },
            },
        ),
    decreases v, 2nat,
{
    match bool_field(v, "cond") {
        Err(e) => Err(e),
        Ok(cond) => match bytes_field(v, "then") {
            Err(e) => Err(e),
            Ok(if_true) => match bytes_field(v, "else") {
                Err(e) => Err(e),
                Ok(if_false) => Ok(
                    BytesExpr::If { cond: Box::new(cond), if_true: Box::new(if_true), if_false: Box::new(if_false) },
                ),
            },
        },
    }
}

fn parse_num_if(v: &Json) -> (r: Result<NumExpr, ParseError>)
    ensures
        num_agree(
            r,
            match read_bool_field(v.tree(), "cond"@) {
                Err(e) => Err(e),
                Ok(cond) => match read_num_field(v.tree(), "then"@) {
                    Err(e) => Err(e),
                    Ok(if_true) => match read_num_field(v.tree(), "else"@) {
                        Err(e) => Err(e),
                        Ok(if_false) => Ok(
                            NumTerm::If { cond: Box::new(cond), if_true: Box::new(if_true), if_false: Box::new(if_false) },
                        ),
                    },
                },
            },
        ),
    decreases v, 2nat,
{
    match bool_field(v, "cond") {
        Err(e) => Err(e),
        Ok(cond) => match number_field(v, "then") {
            Err(e) => Err(e),
            Ok(if_true) => match number_field(v, "else") {
                Err(e) => Err(e),
                Ok(if_false) => Ok(
                    NumExpr::If { cond: Box::new(cond), if_true: Box::new(if_true), if_false: Box::new(if_false) },
                ),
            },
        },
    }
}

/// Reads a byte-string expression.
pub fn parse_bytes(v: &Json) -> (r: Result<BytesExpr, ParseError>)
    ensures
        bytes_agree(r, read_bytes(v.tree())),
    decreases v, 0nat,
{
    if !is_object(v) {
        return Err(ParseError::ExpectedObject);
    }
    if let Some(x) = v.get("bytes") {
        return parse_const(x);
    }
    if let Some(x) = v.get("storage") {
        return match parse_bytes(x) {
            Ok(k) => Ok(BytesExpr::Storage(Box::new(k))),
            Err(e) => Err(e),
        };
    }
    if let Some(x) = v.get("calldata") {
        let start: u64 = match num_field(x, "start") {
            Ok(n) => n,
            Err(e) => {
                return Err(e);
            }
        };
        let len: Option<u32> = match x.get("len") {
            Some(l) => match l.as_u64() {
                Some(n) => Some(n as u32),
                None => None,
            },
            None => None,
        };
        return Ok(BytesExpr::Calldata { start: start as u32, len });
    }
    if let Some(x) = v.get("concat") {
        return match x {
            Json::Array(items) => match parse_bytes_list(items) {
                Ok(parts) => Ok(BytesExpr::Concat(parts)),
                Err(e) => Err(e),
            },
            _ => Err(ParseError::ExpectedArray),
        };
    }
    if let Some(x) = v.get("slice") {
        return parse_slice(x);
    }
    if let Some(x) = v.get("le") {
        return match number_field(x, "of") {
            Err(e) => Err(e),
            Ok(of) => match num_field(x, "width") {
                Err(e) => Err(e),
                Ok(width) => Ok(BytesExpr::Le { of: Box::new(of), width: width as u8 }),
            },
        };
    }
    if let Some(x) = v.get("if") {
        return parse_if(x);
    }
    if let Some(x) = v.get("loop") {
        return match number_field(x, "count") {
            Err(e) => Err(e),
            Ok(count) => match bytes_field(x, "body") {
                Err(e) => Err(e),
                Ok(body) => Ok(BytesExpr::Loop { count: Box::new(count), body: Box::new(body) }),
            },
        };
    }
    if let Some(x) = v.get("hex") {
        return match parse_bytes(x) {
            Ok(b) => Ok(BytesExpr::Hex(Box::new(b))),
            Err(e) => Err(e),
        };
    }
    if let Some(x) = v.get("decimal") {
        return match parse_num(x) {
            Ok(n) => Ok(BytesExpr::Decimal(Box::new(n))),
            Err(e) => Err(e),
        };
    }
    Err(ParseError::Unrecognized)
}

/// The operation that an object names, and its operands.
fn find_op(v: &Json) -> (r: Option<(NumOp, &Json)>)
    ensures
        match r {
            Some((op, x)) => named_op(v.tree()) == Some((op, x.tree())) && decreases_to!(v => x),
            None => named_op(v.tree()) is None,
        },
{
    if let Some(x) = v.get("add") {
        Some((NumOp::Add, x))
    } else if let Some(x) = v.get("sub") {
        Some((NumOp::Sub, x))
    } else if let Some(x) = v.get("mul") {
        Some((NumOp::Mul, x))
    } else if let Some(x) = v.get("div") {
        Some((NumOp::Div, x))
    } else if let Some(x) = v.get("mod") {
        Some((NumOp::Mod, x))
    } else if let Some(x) = v.get("shr") {
        Some((NumOp::Shr, x))
    } else if let Some(x) = v.get("shl") {
        Some((NumOp::Shl, x))
    } else if let Some(x) = v.get("and") {
        Some((NumOp::And, x))
    } else if let Some(x) = v.get("or") {
        Some((NumOp::Or, x))
    } else if let Some(x) = v.get("xor") {
        Some((NumOp::Xor, x))
    } else {
        None
    }
}

/// The comparison that an object names, and its operands.
fn find_comparison(v: &Json) -> (r: Option<(Comparison, &Json)>)
    ensures
        match r {
            Some((c, x)) => named_comparison(v.tree()) == Some((c, x.tree())) && decreases_to!(v => x),
            None => named_comparison(v.tree()) is None,
        },
{
    if let Some(x) = v.get("eq") {
        Some((Comparison::Eq, x))
    } else if let Some(x) = v.get("ne") {
        Some((Comparison::Ne, x))
    } else if let Some(x) = v.get("lt") {
        Some((Comparison::Lt, x))
    } else if let Some(x) = v.get("lte") {
        Some((Comparison::Lte, x))
    } else if let Some(x) = v.get("gt") {
        Some((Comparison::Gt, x))
    } else if let Some(x) = v.get("gte") {
        Some((Comparison::Gte, x))
    } else {
        None
    }
}

fn apply_op(op: NumOp, a: NumExpr, b: NumExpr) -> (r: NumExpr)
    ensures
        r.term() == term::op_term(op, a.term(), b.term()),
{
    let a = Box::new(a);
    let b = Box::new(b);
    match op {
        NumOp::Add => NumExpr::Add(a, b),
        NumOp::Sub => NumExpr::Sub(a, b),
        NumOp::Mul => NumExpr::Mul(a, b),
        NumOp::Div => NumExpr::Div(a, b),
        NumOp::Mod => NumExpr::Mod(a, b),
        NumOp::Shr => NumExpr::Shr(a, b),
        NumOp::Shl => NumExpr::Shl(a, b),
        NumOp::And => NumExpr::And(a, b),
        NumOp::Or => NumExpr::Or(a, b),
        NumOp::Xor => NumExpr::Xor(a, b),
    }
}

fn apply_comparison(c: Comparison, a: NumExpr, b: NumExpr) -> (r: BoolExpr)
    ensures
        r.term() == term::holds_term(c, a.term(), b.term()),
{
    let a = Box::new(a);
    let b = Box::new(b);
    match c {
        Comparison::Eq => BoolExpr::Eq(a, b),
        Comparison::Ne => BoolExpr::Ne(a, b),
        Comparison::Lt => BoolExpr::Lt(a, b),
        Comparison::Lte => BoolExpr::Lte(a, b),
        Comparison::Gt => BoolExpr::Gt(a, b),
        Comparison::Gte => BoolExpr::Gte(a, b),
    }
}

/// Reads a number expression.
pub fn parse_num(v: &Json) -> (r: Result<NumExpr, ParseError>)
    ensures
        num_agree(r, read_num(v.tree())),
    decreases v, 0nat,
{
    if !is_object(v) {
        return Err(ParseError::ExpectedObject);
    }
    if let Some(x) = v.get("num") {
        return match x.as_str() {
            Some(s) => match read_unsigned(s, u128::MAX) {
                Some(n) => Ok(NumExpr::Const(n)),
                None => Err(ParseError::Constant),
            },
            None => Err(ParseError::Constant),
        };
    }
    if let Some(x) = v.get("word") {
        return match x.as_u64() {
            Some(n) => Ok(NumExpr::Word(n as u32)),
            None => Err(ParseError::ExpectedNumber),
        };
    }
    if let Some(x) = v.get("u") {
        return match parse_bytes(x) {
            Ok(b) => Ok(NumExpr::ULe(Box::new(b))),
            Err(e) => Err(e),
        };
    }
    if let Some(x) = v.get("len") {
        return match parse_bytes(x) {
            Ok(b) => Ok(NumExpr::Len(Box::new(b))),
            Err(e) => Err(e),
        };
    }
    if v.get("height").is_some() {
        return Ok(NumExpr::Height);
    }
    if v.get("var").is_some() {
        return Ok(NumExpr::Var);
    }
    if let Some((op, x)) = find_op(v) {
        return match pair(x) {
            Ok((a, b)) => Ok(apply_op(op, a, b)),
            Err(e) => Err(e),
        };
    }
    if let Some(x) = v.get("nif") {
        return parse_num_if(x);
    }
    Err(ParseError::Unrecognized)
}

/// Reads a truth-valued expression.
pub fn parse_bool(v: &Json) -> (r: Result<BoolExpr, ParseError>)
    ensures
        bool_agree(r, read_bool(v.tree())),
    decreases v, 0nat,
{
    if !is_object(v) {
        return Err(ParseError::ExpectedObject);
    }
    if let Some((c, x)) = find_comparison(v) {
        return match pair(x) {
            Ok((a, b)) => Ok(apply_comparison(c, a, b)),
            Err(e) => Err(e),
        };
    }
    if let Some(x) = v.get("beq") {
        return match x {
            Json::Array(items) => {
                let ghost ts = json::trees(items@);
                if items.len() != 2 {
                    return Err(ParseError::Operands);
                }
                assert(ts[0] == items@[0].tree());
                assert(ts[1] == items@[1].tree());
                match parse_bytes(&items[0]) {
                    Err(e) => Err(e),
                    Ok(a) => match parse_bytes(&items[1]) {
                        Err(e) => Err(e),
                        Ok(b) => Ok(BoolExpr::BytesEq(Box::new(a), Box::new(b))),
                    },
                }
            }
            _ => Err(ParseError::ExpectedArray),
        };
    }
    if let Some(x) = v.get("and") {
        return match x {
            Json::Array(items) => match parse_bool_list(items) {
                Ok(parts) => Ok(BoolExpr::And(parts)),
                Err(e) => Err(e),
            },
            _ => Err(ParseError::ExpectedArray),
        };
    }
    if let Some(x) = v.get("or") {
        return match x {
            Json::Array(items) => match parse_bool_list(items) {
                Ok(parts) => Ok(BoolExpr::Or(parts)),
                Err(e) => Err(e),
            },
            _ => Err(ParseError::ExpectedArray),
        };
    }
    if let Some(x) = v.get("not") {
        return match parse_bool(x) {
            Ok(b) => Ok(BoolExpr::Not(Box::new(b))),
            Err(e) => Err(e),
        };
    }
    Err(ParseError::Unrecognized)
}

/// Reads a plan.
pub fn parse_plan(v: &Json) -> (r: Result<Plan, ParseError>)
    ensures
        match (r, read_plan(v.tree())) {
            (Ok(p), Ok((e, trials))) => p.expr.term() == e && p.trials == trials,
            (Err(e), Err(x)) => e == x,
            _ => false,
        },
{
    let expr = match v.get("expr") {
        None => {
            return Err(ParseError::MissingExpr);
        }
        Some(x) => match parse_bytes(x) {
            Err(e) => {
                return Err(e);
            }
            Ok(e) => e,
        },
    };
    let trials: u32 = match v.get("trials") {
        Some(n) => match n.as_u64() {
            Some(n) => n as u32,
            None => 0,
        },
        None => 0,
    };
    Ok(Plan { expr, trials })
}

} // verus!
