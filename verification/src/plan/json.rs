//! Plans as JSON.
use vstd::prelude::*;
use crate::json;
use crate::json::{array2, json_number, object1, object2, object3, Json, JsonTree};
use crate::plan::term;
use crate::plan::{BoolExpr, BoolTerm, BytesExpr, BytesTerm, Comparison, NumExpr, NumOp, NumTerm, Plan, PLAN_VERSION};
use crate::text;
use crate::text::push_char;

verus! {

broadcast use {term::group_list_terms, json::group_json_trees};

/* ─────────────── writing ─────────────── */

/// Two lowercase hex digits for each byte.
pub open spec fn hex_text(b: Seq<u8>) -> Seq<char>
    decreases b.len(),
{
    if b.len() == 0 {
        Seq::empty()
    } else {
        hex_text(b.drop_last()).push(json::hex_char(b.last() as int / 16)).push(json::hex_char(b.last() as int % 16))
    }
}

pub open spec fn op_name(op: NumOp) -> Seq<char> {
    match op {
        NumOp::Add => "add"@,
        NumOp::Sub => "sub"@,
        NumOp::Mul => "mul"@,
        NumOp::Div => "div"@,
        NumOp::Mod => "mod"@,
        NumOp::Shr => "shr"@,
        NumOp::Shl => "shl"@,
        NumOp::And => "and"@,
        NumOp::Or => "or"@,
        NumOp::Xor => "xor"@,
    }
}

pub open spec fn comparison_name(c: Comparison) -> Seq<char> {
    match c {
        Comparison::Eq => "eq"@,
        Comparison::Ne => "ne"@,
        Comparison::Lt => "lt"@,
        Comparison::Lte => "lte"@,
        Comparison::Gt => "gt"@,
        Comparison::Gte => "gte"@,
    }
}

/// A byte-string expression as JSON.
pub open spec fn bytes_json(e: BytesTerm) -> JsonTree
    decreases e,
{
    match e {
        BytesTerm::Const(b) => json::one("bytes"@, JsonTree::String(hex_text(b))),
        BytesTerm::Storage(k) => json::one("storage"@, bytes_json(*k)),
        BytesTerm::Calldata { start, len } => json::one(
            "calldata"@,
            match len {
                Some(l) => json::two("start"@, json::num(start as int), "len"@, json::num(l as int)),
                None => json::one("start"@, json::num(start as int)),
            },
        ),
        BytesTerm::Concat(parts) => json::one(
            "concat"@,
            JsonTree::Array(
                Seq::new(parts.len(), |i: int| if 0 <= i < parts.len() { bytes_json(parts[i]) } else { arbitrary() }),
            ),
        ),
        BytesTerm::Slice { of, start, len } => json::one(
            "slice"@,
            json::three("of"@, bytes_json(*of), "start"@, num_json(*start), "len"@, num_json(*len)),
        ),
        BytesTerm::Le { of, width } => json::one(
            "le"@,
            json::two("of"@, num_json(*of), "width"@, json::num(width as int)),
        ),
        BytesTerm::If { cond, if_true, if_false } => json::one(
            "if"@,
            json::three("cond"@, bool_json(*cond), "then"@, bytes_json(*if_true), "else"@, bytes_json(*if_false)),
        ),
        BytesTerm::Loop { count, body } => json::one(
            "loop"@,
            json::two("count"@, num_json(*count), "body"@, bytes_json(*body)),
        ),
        BytesTerm::Hex(b) => json::one("hex"@, bytes_json(*b)),
        BytesTerm::Decimal(n) => json::one("decimal"@, num_json(*n)),
    }
}

/// A number expression as JSON.
pub open spec fn num_json(e: NumTerm) -> JsonTree
    decreases e,
{
    match e {
        NumTerm::Const(n) => json::one("num"@, JsonTree::String(text::decimal(n as int))),
        NumTerm::Word(i) => json::one("word"@, json::num(i as int)),
        NumTerm::ULe(b) => json::one("u"@, bytes_json(*b)),
        NumTerm::Len(b) => json::one("len"@, bytes_json(*b)),
        NumTerm::Height => json::one("height"@, JsonTree::Object(Seq::empty())),
        NumTerm::Var => json::one("var"@, JsonTree::Object(Seq::empty())),
        NumTerm::Op(op, a, b) => json::one(op_name(op), JsonTree::Array(seq![num_json(*a), num_json(*b)])),
        NumTerm::If { cond, if_true, if_false } => json::one(
            "nif"@,
            json::three("cond"@, bool_json(*cond), "then"@, num_json(*if_true), "else"@, num_json(*if_false)),
        ),
    }
}

/// A truth-valued expression as JSON.
pub open spec fn bool_json(e: BoolTerm) -> JsonTree
    decreases e,
{
    match e {
        BoolTerm::Holds(c, a, b) => json::one(
            comparison_name(c),
            JsonTree::Array(seq![num_json(*a), num_json(*b)]),
        ),
        BoolTerm::BytesEq(a, b) => json::one("beq"@, JsonTree::Array(seq![bytes_json(*a), bytes_json(*b)])),
        BoolTerm::And(parts) => json::one(
            "and"@,
            JsonTree::Array(
                Seq::new(parts.len(), |i: int| if 0 <= i < parts.len() { bool_json(parts[i]) } else { arbitrary() }),
            ),
        ),
        BoolTerm::Or(parts) => json::one(
            "or"@,
            JsonTree::Array(
                Seq::new(parts.len(), |i: int| if 0 <= i < parts.len() { bool_json(parts[i]) } else { arbitrary() }),
            ),
        ),
        BoolTerm::Not(b) => json::one("not"@, bool_json(*b)),
    }
}

/// A plan as JSON.
pub open spec fn plan_json(e: BytesTerm, trials: u32) -> JsonTree {
    json::three("v"@, json::num(1), "expr"@, bytes_json(e), "trials"@, json::num(trials as int))
}

fn hex_string(b: &[u8]) -> (r: String)
    ensures
        r@ == hex_text(b@),
{
    let mut out = String::new();
    assert(b@.take(0) =~= Seq::empty());
    for i in 0..b.len()
        invariant
            out@ == hex_text(b@.take(i as int)),
    {
        assert(b@.take(i + 1).drop_last() =~= b@.take(i as int));
        push_char(&mut out, json::hex_digit((b[i] / 16) as u32));
        push_char(&mut out, json::hex_digit((b[i] % 16) as u32));
    }
    assert(b@.take(b@.len() as int) =~= b@);
    out
}

fn bytes_list(parts: &Vec<BytesExpr>) -> (r: Vec<Json>)
    ensures
        json::trees(r@) == Seq::new(parts@.len(), |i: int| bytes_json(parts@[i].term())),
    decreases parts,
{
    let mut out: Vec<Json> = Vec::new();
    let n: usize = parts.len();
    for i in 0..n
        invariant
            n == parts@.len(),
            out@.len() == i,
            forall|j: int| 0 <= j < i ==> (#[trigger] out@[j]).tree() == bytes_json(parts@[j].term()),
    {
        out.push(parts[i].json());
    }
    assert(json::trees(out@) =~= Seq::new(parts@.len(), |i: int| bytes_json(parts@[i].term())));
    out
}

fn bool_list(parts: &Vec<BoolExpr>) -> (r: Vec<Json>)
    ensures
        json::trees(r@) == Seq::new(parts@.len(), |i: int| bool_json(parts@[i].term())),
    decreases parts,
{
    let mut out: Vec<Json> = Vec::new();
    let n: usize = parts.len();
    for i in 0..n
        invariant
            n == parts@.len(),
            out@.len() == i,
            forall|j: int| 0 <= j < i ==> (#[trigger] out@[j]).tree() == bool_json(parts@[j].term()),
    {
        out.push(parts[i].json());
    }
    assert(json::trees(out@) =~= Seq::new(parts@.len(), |i: int| bool_json(parts@[i].term())));
    out
}

impl BytesExpr {
    /// The expression as a JSON value.
    pub fn json(&self) -> (r: Json)
        ensures
            r.tree() == bytes_json(self.term()),
        decreases self,
    {
        match self {
            BytesExpr::Const(b) => object1("bytes", Json::String(hex_string(b.as_slice()))),
            BytesExpr::Storage(k) => object1("storage", k.json()),
            BytesExpr::Calldata { start, len } => {
                let range = match len {
                    Some(l) => object2("start", json_number(*start as u128), "len", json_number(*l as u128)),
                    None => object1("start", json_number(*start as u128)),
                };
                object1("calldata", range)
            }
            BytesExpr::Concat(parts) => {
                let items = bytes_list(parts);
                assert(json::trees(items@) =~= bytes_json(self.term())->Object_0[0].1->Array_0);
                object1("concat", Json::Array(items))
            }
            BytesExpr::Slice { of, start, len } => object1(
                "slice",
                object3("of", of.json(), "start", start.json(), "len", len.json()),
            ),
            BytesExpr::Le { of, width } => object1(
                "le",
                object2("of", of.json(), "width", json_number(*width as u128)),
            ),
            BytesExpr::If { cond, if_true, if_false } => object1(
                "if",
                object3("cond", cond.json(), "then", if_true.json(), "else", if_false.json()),
            ),
            BytesExpr::Loop { count, body } => object1("loop", object2("count", count.json(), "body", body.json())),
            BytesExpr::Hex(b) => object1("hex", b.json()),
            BytesExpr::Decimal(n) => object1("decimal", n.json()),
        }
    }

    pub fn write_json(&self, out: &mut String)
        ensures
            final(out)@ == old(out)@ + json::render(bytes_json(self.term())),
    {
        self.json().write(out);
    }
}

impl NumExpr {
    /// The expression as a JSON value.
    pub fn json(&self) -> (r: Json)
        ensures
            r.tree() == num_json(self.term()),
        decreases self,
    {
        match self {
            NumExpr::Const(n) => {
                let mut digits = String::new();
                text::push_decimal(&mut digits, *n);
                assert(digits@ =~= text::decimal(*n as int));
                object1("num", Json::String(digits))
            }
            NumExpr::Word(i) => object1("word", json_number(*i as u128)),
            NumExpr::ULe(b) => object1("u", b.json()),
            NumExpr::Len(b) => object1("len", b.json()),
            NumExpr::Height => object1("height", no_fields()),
            NumExpr::Var => object1("var", no_fields()),
            NumExpr::Add(a, b) => object1("add", array2(a.json(), b.json())),
            NumExpr::Sub(a, b) => object1("sub", array2(a.json(), b.json())),
            NumExpr::Mul(a, b) => object1("mul", array2(a.json(), b.json())),
            NumExpr::Div(a, b) => object1("div", array2(a.json(), b.json())),
            NumExpr::Mod(a, b) => object1("mod", array2(a.json(), b.json())),
            NumExpr::Shr(a, b) => object1("shr", array2(a.json(), b.json())),
            NumExpr::Shl(a, b) => object1("shl", array2(a.json(), b.json())),
            NumExpr::And(a, b) => object1("and", array2(a.json(), b.json())),
            NumExpr::Or(a, b) => object1("or", array2(a.json(), b.json())),
            NumExpr::Xor(a, b) => object1("xor", array2(a.json(), b.json())),
            NumExpr::If { cond, if_true, if_false } => object1(
                "nif",
                object3("cond", cond.json(), "then", if_true.json(), "else", if_false.json()),
            ),
        }
    }

    pub fn write_json(&self, out: &mut String)
        ensures
            final(out)@ == old(out)@ + json::render(num_json(self.term())),
    {
        self.json().write(out);
    }
}

fn no_fields() -> (r: Json)
    ensures
        r.tree() == JsonTree::Object(Seq::empty()),
{
    let fields: Vec<(String, Json)> = Vec::new();
    assert(json::field_trees(fields@) =~= Seq::empty());
    Json::Object(fields)
}

impl BoolExpr {
    /// The expression as a JSON value.
    pub fn json(&self) -> (r: Json)
        ensures
            r.tree() == bool_json(self.term()),
        decreases self,
    {
        match self {
            BoolExpr::Eq(a, b) => object1("eq", array2(a.json(), b.json())),
            BoolExpr::Ne(a, b) => object1("ne", array2(a.json(), b.json())),
            BoolExpr::Lt(a, b) => object1("lt", array2(a.json(), b.json())),
            BoolExpr::Lte(a, b) => object1("lte", array2(a.json(), b.json())),
            BoolExpr::Gt(a, b) => object1("gt", array2(a.json(), b.json())),
            BoolExpr::Gte(a, b) => object1("gte", array2(a.json(), b.json())),
            BoolExpr::BytesEq(a, b) => object1("beq", array2(a.json(), b.json())),
            BoolExpr::And(parts) => {
                let items = bool_list(parts);
                assert(json::trees(items@) =~= bool_json(self.term())->Object_0[0].1->Array_0);
                object1("and", Json::Array(items))
            }
            BoolExpr::Or(parts) => {
                let items = bool_list(parts);
                assert(json::trees(items@) =~= bool_json(self.term())->Object_0[0].1->Array_0);
                object1("or", Json::Array(items))
            }
            BoolExpr::Not(b) => object1("not", b.json()),
        }
    }

    pub fn write_json(&self, out: &mut String)
        ensures
            final(out)@ == old(out)@ + json::render(bool_json(self.term())),
    {
        self.json().write(out);
    }
}

impl Plan {
    /// The plan as a JSON value.
    pub fn json(&self) -> (r: Json)
        ensures
            r.tree() == plan_json(self.expr.term(), self.trials),
    {
        object3("v", json_number(PLAN_VERSION as u128), "expr", self.expr.json(), "trials", json_number(self.trials as u128))
    }

    pub fn write_json(&self, out: &mut String)
        ensures
            final(out)@ == old(out)@ + json::render(plan_json(self.expr.term(), self.trials)),
    {
        self.json().write(out);
    }

    pub fn to_json(&self) -> (r: String)
        ensures
            r@ == json::render(plan_json(self.expr.term(), self.trials)),
    {
        self.json().to_text()
    }
}

} // verus!
