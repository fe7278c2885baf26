//! JSON values: their text, and reading them.
//!
//! Text is written here and read by serde_json: what [`render`] makes of a plain
//! tree, [`parse`] reads back.
use vstd::prelude::*;
use serde_json::Value;
use crate::text;
use crate::text::{chars_of, copy_text, push_char, read_unsigned, same_text};

verus! {

/// A JSON value. Numbers are kept as their text, and the fields of an object in order.
#[derive(Debug, PartialEq, Eq)]
pub enum Json {
    Null,
    Bool(bool),
    Number(String),
    String(String),
    Array(Vec<Json>),
    Object(Vec<(String, Json)>),
}

/// What a [`Json`] is.
pub ghost enum JsonTree {
    Null,
    Bool(bool),
    Number(Seq<char>),
    String(Seq<char>),
    Array(Seq<JsonTree>),
    Object(Seq<(Seq<char>, JsonTree)>),
}

impl Json {
    pub open spec fn tree(self) -> JsonTree
        decreases self,
    {
        match self {
            Json::Null => JsonTree::Null,
            Json::Bool(b) => JsonTree::Bool(b),
            Json::Number(s) => JsonTree::Number(s@),
            Json::String(s) => JsonTree::String(s@),
            Json::Array(items) => JsonTree::Array(
                Seq::new(items@.len(), |i: int| if 0 <= i < items@.len() { items@[i].tree() } else { arbitrary() }),
            ),
            Json::Object(fields) => JsonTree::Object(
                Seq::new(
                    fields@.len(),
                    |i: int| if 0 <= i < fields@.len() { (fields@[i].0@, fields@[i].1.tree()) } else { arbitrary() },
                ),
            ),
        }
    }
}

pub open spec fn trees(items: Seq<Json>) -> Seq<JsonTree> {
    Seq::new(items.len(), |i: int| items[i].tree())
}

pub open spec fn field_trees(fields: Seq<(String, Json)>) -> Seq<(Seq<char>, JsonTree)> {
    Seq::new(fields.len(), |i: int| (fields[i].0@, fields[i].1.tree()))
}

pub broadcast proof fn lemma_array_tree(items: Vec<Json>)
    ensures
        #[trigger] Json::Array(items).tree() == JsonTree::Array(trees(items@)),
{
    assert(Json::Array(items).tree()->Array_0 =~= trees(items@));
}

pub broadcast proof fn lemma_object_tree(fields: Vec<(String, Json)>)
    ensures
        #[trigger] Json::Object(fields).tree() == JsonTree::Object(field_trees(fields@)),
{
    assert(Json::Object(fields).tree()->Object_0 =~= field_trees(fields@));
}

pub broadcast group group_json_trees {
    lemma_array_tree,
    lemma_object_tree,
}

/* ─────────────── text ─────────────── */

/// A hexadecimal digit.
pub open spec fn hex_char(d: int) -> char {
    if d == 10 { 'a' } else if d == 11 { 'b' } else if d == 12 { 'c' } else if d == 13 { 'd' }
    else if d == 14 { 'e' } else if d == 15 { 'f' } else { text::digit_char(d) }
}

/// A character inside a JSON string.
pub open spec fn escaped(c: char) -> Seq<char> {
    if c == '"' {
        seq!['\\', '"']
    } else if c == '\\' {
        seq!['\\', '\\']
    } else if c == '\n' {
        seq!['\\', 'n']
    } else if c == '\r' {
        seq!['\\', 'r']
    } else if c == '\t' {
        seq!['\\', 't']
    } else if (c as u32) < 0x20 {
        seq!['\\', 'u', '0', '0', hex_char((c as int) / 16), hex_char((c as int) % 16)]
    } else {
        seq![c]
    }
}

pub open spec fn escaped_text(s: Seq<char>) -> Seq<char>
    decreases s.len(),
{
    if s.len() == 0 {
        Seq::empty()
    } else {
        escaped_text(s.drop_last()) + escaped(s.last())
    }
}

/// A JSON string.
pub open spec fn quoted(s: Seq<char>) -> Seq<char> {
    seq!['"'] + escaped_text(s) + seq!['"']
}

/// The text of a tree, without spaces.
pub open spec fn render(t: JsonTree) -> Seq<char>
    decreases t, 0nat,
{
    match t {
        JsonTree::Null => seq!['n', 'u', 'l', 'l'],
        JsonTree::Bool(b) => if b { seq!['t', 'r', 'u', 'e'] } else { seq!['f', 'a', 'l', 's', 'e'] },
        JsonTree::Number(s) => s,
        JsonTree::String(s) => quoted(s),
        JsonTree::Array(items) => seq!['['] + render_items(items, items.len()) + seq![']'],
        JsonTree::Object(fields) => seq!['{'] + render_fields(fields, fields.len()) + seq!['}'],
    }
}

/// The text of the first `n` items, with commas between them.
pub open spec fn render_items(items: Seq<JsonTree>, n: nat) -> Seq<char>
    decreases items, n,
{
    if n == 0 || n > items.len() {
        Seq::empty()
    } else if n == 1 {
        render(items[0])
    } else {
        render_items(items, (n - 1) as nat) + seq![','] + render(items[n - 1])
    }
}

/// The text of the first `n` fields, with commas between them.
pub open spec fn render_fields(fields: Seq<(Seq<char>, JsonTree)>, n: nat) -> Seq<char>
    decreases fields, n,
{
    if n == 0 || n > fields.len() {
        Seq::empty()
    } else if n == 1 {
        quoted(fields[0].0) + seq![':'] + render(fields[0].1)
    } else {
        render_fields(fields, (n - 1) as nat) + seq![','] + (quoted(fields[n - 1].0) + seq![':'] + render(fields[n - 1].1))
    }
}

pub fn hex_digit(d: u32) -> (c: char)
    requires
        d < 16,
    ensures
        c == hex_char(d as int),
{
    match d {
        10 => 'a',
        11 => 'b',
        12 => 'c',
        13 => 'd',
        14 => 'e',
        15 => 'f',
        _ => text::digit(d as u8),
    }
}

fn push_escaped(out: &mut String, c: char)
    ensures
        final(out)@ == old(out)@ + escaped(c),
{
    if c == '"' {
        push_char(out, '\\');
        push_char(out, '"');
    } else if c == '\\' {
        push_char(out, '\\');
        push_char(out, '\\');
    } else if c == '\n' {
        push_char(out, '\\');
        push_char(out, 'n');
    } else if c == '\r' {
        push_char(out, '\\');
        push_char(out, 'r');
    } else if c == '\t' {
        push_char(out, '\\');
        push_char(out, 't');
    } else if (c as u32) < 0x20 {
        let code: u32 = c as u32;
        push_char(out, '\\');
        push_char(out, 'u');
        push_char(out, '0');
        push_char(out, '0');
        push_char(out, hex_digit(code / 16));
        push_char(out, hex_digit(code % 16));
    } else {
        push_char(out, c);
    }
    assert(out@ =~= old(out)@ + escaped(c));
}

/// Appends a string in quotes, its special characters escaped.
pub fn write_json_string(out: &mut String, s: &str)
    ensures
        final(out)@ == old(out)@ + quoted(s@),
{
    let ghost before = out@;
    push_char(out, '"');
    let cs = chars_of(s);
    let n: usize = cs.len();
    assert(cs@.take(0) =~= Seq::empty());
    assert(out@ =~= before + seq!['"'] + escaped_text(cs@.take(0)));
    for i in 0..n
        invariant
            n == cs@.len(),
            out@ == before + seq!['"'] + escaped_text(cs@.take(i as int)),
    {
        assert(cs@.take(i + 1).drop_last() =~= cs@.take(i as int));
        push_escaped(out, cs[i]);
        assert(out@ =~= before + seq!['"'] + escaped_text(cs@.take(i + 1)));
    }
    assert(cs@.take(n as int) =~= cs@);
    push_char(out, '"');
    assert(out@ =~= before + quoted(s@));
}

fn write_items(items: &Vec<Json>, out: &mut String)
    ensures
        final(out)@ == old(out)@ + render_items(trees(items@), items@.len()),
    decreases items,
{
    let ghost before = out@;
    let ghost ts = trees(items@);
    let n: usize = items.len();
    assert(out@ =~= before + render_items(ts, 0));
    for i in 0..n
        invariant
            n == items@.len(),
            ts == trees(items@),
            out@ == before + render_items(ts, i as nat),
    {
        let ghost was = out@;
        if i > 0 {
            push_char(out, ',');
        }
        items[i].write(out);
        assert(ts[i as int] == items@[i as int].tree());
        if i > 0 {
            assert(out@ =~= was + (seq![','] + render(ts[i as int])));
            assert(out@ =~= before + render_items(ts, (i + 1) as nat));
        } else {
            assert(render_items(ts, 1) == render(ts[0]));
            assert(out@ =~= before + render_items(ts, 1));
        }
    }
}

fn write_fields(fields: &Vec<(String, Json)>, out: &mut String)
    ensures
        final(out)@ == old(out)@ + render_fields(field_trees(fields@), fields@.len()),
    decreases fields,
{
    let ghost before = out@;
    let ghost ts = field_trees(fields@);
    let n: usize = fields.len();
    assert(out@ =~= before + render_fields(ts, 0));
    for i in 0..n
        invariant
            n == fields@.len(),
            ts == field_trees(fields@),
            out@ == before + render_fields(ts, i as nat),
    {
        let ghost was = out@;
        if i > 0 {
            push_char(out, ',');
        }
        let ghost comma = out@;
        write_json_string(out, fields[i].0.as_str());
        push_char(out, ':');
        fields[i].1.write(out);
        assert(ts[i as int] == (fields@[i as int].0@, fields@[i as int].1.tree()));
        let ghost part = quoted(ts[i as int].0) + seq![':'] + render(ts[i as int].1);
        assert(out@ =~= comma + part);
        if i > 0 {
            assert(out@ =~= was + (seq![','] + part));
            assert(out@ =~= before + render_fields(ts, (i + 1) as nat));
        } else {
            assert(render_fields(ts, 1) == part);
            assert(out@ =~= before + render_fields(ts, 1));
        }
    }
}

impl Json {
    /// Appends the text of the value.
    pub fn write(&self, out: &mut String)
        ensures
            final(out)@ == old(out)@ + render(self.tree()),
        decreases self,
    {
        broadcast use group_json_trees;

        let ghost before = out@;
        match self {
            Json::Null => {
                push_char(out, 'n');
                push_char(out, 'u');
                push_char(out, 'l');
                push_char(out, 'l');
                assert(out@ =~= before + render(self.tree()));
            }
            Json::Bool(true) => {
                push_char(out, 't');
                push_char(out, 'r');
                push_char(out, 'u');
                push_char(out, 'e');
                assert(out@ =~= before + render(self.tree()));
            }
            Json::Bool(false) => {
                push_char(out, 'f');
                push_char(out, 'a');
                push_char(out, 'l');
                push_char(out, 's');
                push_char(out, 'e');
                assert(out@ =~= before + render(self.tree()));
            }
            Json::Number(s) => {
                out.append(s.as_str());
            }
            Json::String(s) => {
                write_json_string(out, s.as_str());
            }
            Json::Array(items) => {
                push_char(out, '[');
                write_items(items, out);
                push_char(out, ']');
                assert(out@ =~= before + render(self.tree()));
            }
            Json::Object(fields) => {
                push_char(out, '{');
                write_fields(fields, out);
                push_char(out, '}');
                assert(out@ =~= before + render(self.tree()));
            }
        }
    }

    /// The text of the value.
    pub fn to_text(&self) -> (r: String)
        ensures
            r@ == render(self.tree()),
    {
        let mut out = String::new();
        self.write(&mut out);
        assert(out@ =~= render(self.tree()));
        out
    }
}

/* ─────────────── looking into values ─────────────── */

/// The first field with a name, from a place on.
pub open spec fn find_field(fields: Seq<(Seq<char>, JsonTree)>, key: Seq<char>, from: nat) -> Option<JsonTree>
    decreases fields.len() - from,
{
    if from >= fields.len() {
        None
    } else if fields[from as int].0 == key {
        Some(fields[from as int].1)
    } else {
        find_field(fields, key, from + 1)
    }
}

/// The field of an object; nothing in another value.
pub open spec fn field(t: JsonTree, key: Seq<char>) -> Option<JsonTree> {
    match t {
        JsonTree::Object(fields) => find_field(fields, key, 0),
        _ => None,
    }
}

/// The number of a value, if it is one that fits 64 bits.
pub open spec fn number(t: JsonTree) -> Option<u64> {
    match t {
        JsonTree::Number(s) => match text::parse_unsigned(s, u64::MAX as nat) {
            Some(n) => Some(n as u64),
            None => None,
        },
        _ => None,
    }
}

/// The text of a string value.
pub open spec fn string(t: JsonTree) -> Option<Seq<char>> {
    match t {
        JsonTree::String(s) => Some(s),
        _ => None,
    }
}

/// The tree of an optional value.
pub open spec fn opt_tree(v: Option<&Json>) -> Option<JsonTree> {
    match v {
        Some(v) => Some(v.tree()),
        None => None,
    }
}

impl Json {
    /// The field of an object; nothing in another value.
    pub fn get(&self, key: &str) -> (r: Option<&Json>)
        ensures
            opt_tree(r) == field(self.tree(), key@),
            r matches Some(v) ==> decreases_to!(self => v),
    {
        broadcast use group_json_trees;

        match self {
            Json::Object(fields) => {
                let ghost ts = field_trees(fields@);
                let n: usize = fields.len();
                for i in 0..n
                    invariant
                        n == fields@.len(),
                        ts == field_trees(fields@),
                        *self == Json::Object(*fields),
                        self.tree() == JsonTree::Object(ts),
                        find_field(ts, key@, 0) == find_field(ts, key@, i as nat),
                {
                    assert(ts[i as int] == (fields@[i as int].0@, fields@[i as int].1.tree()));
                    if same_text(fields[i].0.as_str(), key) {
                        return Some(&fields[i].1);
                    }
                }
                None
            }
            _ => None,
        }
    }

    pub fn as_str(&self) -> (r: Option<&str>)
        ensures
            match r {
                Some(s) => string(self.tree()) == Some(s@),
                None => string(self.tree()) is None,
            },
    {
        match self {
            Json::String(s) => Some(s.as_str()),
            _ => None,
        }
    }

    pub fn as_u64(&self) -> (r: Option<u64>)
        ensures
            r == number(self.tree()),
    {
        match self {
            Json::Number(s) => match read_unsigned(s.as_str(), u64::MAX as u128) {
                Some(n) => Some(n as u64),
                None => None,
            },
            _ => None,
        }
    }
}

/* ─────────────── building values ─────────────── */

/// An object of one field.
pub open spec fn one(k: Seq<char>, v: JsonTree) -> JsonTree {
    JsonTree::Object(seq![(k, v)])
}

/// An object of two fields.
pub open spec fn two(k: Seq<char>, v: JsonTree, l: Seq<char>, w: JsonTree) -> JsonTree {
    JsonTree::Object(seq![(k, v), (l, w)])
}

/// An object of three fields.
pub open spec fn three(k: Seq<char>, v: JsonTree, l: Seq<char>, w: JsonTree, m: Seq<char>, x: JsonTree) -> JsonTree {
    JsonTree::Object(seq![(k, v), (l, w), (m, x)])
}

/// A number as a tree.
pub open spec fn num(n: int) -> JsonTree {
    JsonTree::Number(text::decimal(n))
}

pub fn object1(k: &str, v: Json) -> (r: Json)
    ensures
        r.tree() == one(k@, v.tree()),
{
    broadcast use group_json_trees;

    let mut fields: Vec<(String, Json)> = Vec::new();
    fields.push((copy_text(k), v));
    assert(field_trees(fields@) =~= seq![(k@, v.tree())]);
    Json::Object(fields)
}

pub fn object2(k: &str, v: Json, l: &str, w: Json) -> (r: Json)
    ensures
        r.tree() == two(k@, v.tree(), l@, w.tree()),
{
    broadcast use group_json_trees;

    let mut fields: Vec<(String, Json)> = Vec::new();
    fields.push((copy_text(k), v));
    fields.push((copy_text(l), w));
    assert(field_trees(fields@) =~= seq![(k@, v.tree()), (l@, w.tree())]);
    Json::Object(fields)
}

pub fn object3(k: &str, v: Json, l: &str, w: Json, m: &str, x: Json) -> (r: Json)
    ensures
        r.tree() == three(k@, v.tree(), l@, w.tree(), m@, x.tree()),
{
    broadcast use group_json_trees;

    let mut fields: Vec<(String, Json)> = Vec::new();
    fields.push((copy_text(k), v));
    fields.push((copy_text(l), w));
    fields.push((copy_text(m), x));
    assert(field_trees(fields@) =~= seq![(k@, v.tree()), (l@, w.tree()), (m@, x.tree())]);
    Json::Object(fields)
}

pub fn array2(a: Json, b: Json) -> (r: Json)
    ensures
        r.tree() == JsonTree::Array(seq![a.tree(), b.tree()]),
{
    broadcast use group_json_trees;

    let mut items: Vec<Json> = Vec::new();
    items.push(a);
    items.push(b);
    assert(trees(items@) =~= seq![a.tree(), b.tree()]);
    Json::Array(items)
}

pub fn json_number(n: u128) -> (r: Json)
    ensures
        r.tree() == num(n as int),
{
    let mut out = String::new();
    text::push_decimal(&mut out, n);
    assert(out@ =~= text::decimal(n as int));
    Json::Number(out)
}

pub fn json_text(s: &str) -> (r: Json)
    ensures
        r.tree() == JsonTree::String(s@),
{
    Json::String(copy_text(s))
}

/* ─────────────── reading text ─────────────── */

#[verifier::external_type_specification]
#[verifier::external_body]
pub struct ExValue(serde_json::Value);

/// How deep a tree is nested.
pub open spec fn depth(t: JsonTree) -> nat
    decreases t, 0nat,
{
    match t {
        JsonTree::Array(items) => 1 + items_depth(items, items.len()),
        JsonTree::Object(fields) => 1 + fields_depth(fields, fields.len()),
        _ => 0,
    }
}

/// How deep the first `n` items are nested.
pub open spec fn items_depth(items: Seq<JsonTree>, n: nat) -> nat
    decreases items, n,
{
    if n == 0 || n > items.len() {
        0
    } else {
        let before = items_depth(items, (n - 1) as nat);
        let d = depth(items[n - 1]);
        if d > before { d } else { before }
    }
}

/// How deep the first `n` fields are nested.
pub open spec fn fields_depth(fields: Seq<(Seq<char>, JsonTree)>, n: nat) -> nat
    decreases fields, n,
{
    if n == 0 || n > fields.len() {
        0
    } else {
        let before = fields_depth(fields, (n - 1) as nat);
        let d = depth(fields[n - 1].1);
        if d > before { d } else { before }
    }
}

/// Whether a tree has one reading only: its numbers are decimal naturals, no object
/// has a name twice, and none begins with the name that serde_json keeps for numbers
/// of its own.
pub open spec fn unambiguous(t: JsonTree) -> bool
    decreases t,
{
    match t {
        JsonTree::Number(s) => exists|n: int| n >= 0 && s == #[trigger] text::decimal(n),
        JsonTree::Array(items) => forall|i: int| 0 <= i < items.len() ==> unambiguous(#[trigger] items[i]),
        JsonTree::Object(fields) => {
            &&& fields.len() > 0 ==> fields[0].0 != "$serde_json::private::Number"@
            &&& forall|i: int, j: int| 0 <= i < j < fields.len() ==> (#[trigger] fields[i]).0 != (#[trigger] fields[j]).0
            &&& forall|i: int| 0 <= i < fields.len() ==> unambiguous((#[trigger] fields[i]).1)
        }
        _ => true,
    }
}

/// Whether the text of a tree is read back as the tree: it is unambiguous, and nested
/// at most 127 deep.
pub open spec fn plain(t: JsonTree) -> bool {
    unambiguous(t) && depth(t) <= 127
}

/// What a serde_json value holds.
pub uninterp spec fn value_tree(v: Value) -> JsonTree;

/// What serde_json reads a text as, or what its error prints.
pub uninterp spec fn text_tree(s: Seq<char>) -> Result<JsonTree, Seq<char>>;

/// Whether a reading is the one meant.
pub open spec fn value_reads(r: Result<Value, String>, t: Result<JsonTree, Seq<char>>) -> bool {
    match (r, t) {
        (Ok(v), Ok(u)) => u == value_tree(v),
        (Err(e), Err(x)) => e@ == x,
        _ => false,
    }
}

/// Whether a text that was written of a plain tree is read as that tree.
pub open spec fn reads_back(s: Seq<char>, r: Result<Value, String>) -> bool {
    forall|t: JsonTree| plain(t) && #[trigger] render(t) == s ==> value_reads(r, Ok(t))
}

/// Reads a text, by `serde_json::from_str`; an error is handed out as what it prints.
/// The text that [`render`] makes of a plain tree is read as that tree.
#[verifier::external_body]
fn read_value(s: &str) -> (r: Result<Value, String>)
    ensures
        value_reads(r, text_tree(s@)),
        reads_back(s@, r),
{
    serde_json::from_str(s).map_err(|e| e.to_string())
}

/// One level of a serde_json value.
pub enum Node<'a> {
    Null,
    Bool(bool),
    Number(String),
    Text(String),
    List(Vec<&'a Value>),
    Fields(Vec<(String, &'a Value)>),
}

/// Whether a node is the first level of a tree.
pub open spec fn node_of(n: Node<'_>, t: JsonTree) -> bool {
    match (n, t) {
        (Node::Null, JsonTree::Null) => true,
        (Node::Bool(a), JsonTree::Bool(b)) => a == b,
        (Node::Number(s), JsonTree::Number(u)) => s@ == u,
        (Node::Text(s), JsonTree::String(u)) => s@ == u,
        (Node::List(l), JsonTree::Array(items)) => {
            &&& l@.len() == items.len()
            &&& forall|i: int| 0 <= i < items.len() ==> value_tree(*(#[trigger] l@[i])) == items[i]
        }
        (Node::Fields(f), JsonTree::Object(fields)) => {
            &&& f@.len() == fields.len()
            &&& forall|i: int| 0 <= i < fields.len() ==> (#[trigger] f@[i]).0@ == fields[i].0 && value_tree(*f@[i].1) == fields[i].1
        }
        _ => false,
    }
}

/// Looks one level into a `serde_json::Value`: which variant it is, and what that
/// holds. A number gives its text, as `Number` prints it; an object its entries in
/// the order of its map.
#[verifier::external_body]
fn look(v: &Value) -> (r: Node<'_>)
    ensures
        node_of(r, value_tree(*v)),
{
    match v {
        Value::Null => Node::Null,
        Value::Bool(b) => Node::Bool(*b),
        Value::Number(n) => Node::Number(n.to_string()),
        Value::String(s) => Node::Text(s.clone()),
        Value::Array(a) => Node::List(a.iter().collect()),
        Value::Object(m) => Node::Fields(m.iter().map(|(k, x)| (k.clone(), x)).collect()),
    }
}

fn convert(v: &Value) -> (r: Json)
    ensures
        r.tree() == value_tree(*v),
    decreases value_tree(*v),
{
    broadcast use group_json_trees;

    let ghost t = value_tree(*v);
    match look(v) {
        Node::Null => Json::Null,
        Node::Bool(b) => Json::Bool(b),
        Node::Number(s) => Json::Number(s),
        Node::Text(s) => Json::String(s),
        Node::List(l) => {
            let out = convert_items(&l, Ghost(t->Array_0));
            Json::Array(out)
        }
        Node::Fields(f) => {
            let out = convert_fields(&f, Ghost(t->Object_0));
            Json::Object(out)
        }
    }
}

fn convert_items(l: &Vec<&Value>, Ghost(items): Ghost<Seq<JsonTree>>) -> (r: Vec<Json>)
    requires
        l@.len() == items.len(),
        forall|i: int| 0 <= i < items.len() ==> value_tree(*(#[trigger] l@[i])) == items[i],
    ensures
        trees(r@) == items,
    decreases items,
{
    let mut out: Vec<Json> = Vec::new();
    let n: usize = l.len();
    for i in 0..n
        invariant
            n == l@.len() == items.len(),
            forall|i: int| 0 <= i < items.len() ==> value_tree(*(#[trigger] l@[i])) == items[i],
            out@.len() == i,
            forall|j: int| 0 <= j < i ==> (#[trigger] out@[j]).tree() == items[j],
    {
        assert(decreases_to!(items => items[i as int]));
        assert(value_tree(*l@[i as int]) == items[i as int]);
        out.push(convert(l[i]));
    }
    assert(trees(out@) =~= items);
    out
}

fn convert_fields(f: &Vec<(String, &Value)>, Ghost(fields): Ghost<Seq<(Seq<char>, JsonTree)>>) -> (r: Vec<(String, Json)>)
    requires
        f@.len() == fields.len(),
        forall|i: int| 0 <= i < fields.len() ==> (#[trigger] f@[i]).0@ == fields[i].0 && value_tree(*f@[i].1) == fields[i].1,
    ensures
        field_trees(r@) == fields,
    decreases fields,
{
    let mut out: Vec<(String, Json)> = Vec::new();
    let n: usize = f.len();
    for i in 0..n
        invariant
            n == f@.len() == fields.len(),
            forall|i: int| 0 <= i < fields.len() ==> (#[trigger] f@[i]).0@ == fields[i].0 && value_tree(*f@[i].1) == fields[i].1,
            out@.len() == i,
            forall|j: int| 0 <= j < i ==> (#[trigger] out@[j]).0@ == fields[j].0 && out@[j].1.tree() == fields[j].1,
    {
        assert(decreases_to!(fields => fields[i as int]));
        assert(decreases_to!(fields[i as int] => fields[i as int].1));
        assert(f@[i as int].0@ == fields[i as int].0);
        let key = copy_text(f[i].0.as_str());
        out.push((key, convert(f[i].1)));
    }
    assert(field_trees(out@) =~= fields);
    out
}

/// Whether a reading is the one meant.
pub open spec fn reads(r: Result<Json, String>, t: Result<JsonTree, Seq<char>>) -> bool {
    match (r, t) {
        (Ok(v), Ok(u)) => u == v.tree(),
        (Err(e), Err(x)) => e@ == x,
        _ => false,
    }
}

/// Whether a text, if it was written of a plain tree, reads as that tree.
pub open spec fn written_reads(s: Seq<char>) -> bool {
    forall|t: JsonTree| plain(t) && #[trigger] render(t) == s ==> text_tree(s) == Ok::<JsonTree, Seq<char>>(t)
}

/// Reads a text; the error is what is wrong with it. What was written of a plain tree is
/// read back.
pub fn parse(s: &str) -> (r: Result<Json, String>)
    ensures
        reads(r, text_tree(s@)),
        written_reads(s@),
{
    match read_value(s) {
        Ok(v) => Ok(convert(&v)),
        Err(e) => Err(e),
    }
}

/// The indented text that serde_json makes of a tree.
pub uninterp spec fn pretty_text(t: JsonTree) -> Seq<char>;

/// The indented text of a value, by `serde_json::to_string_pretty`, which does not fail
/// on a `Value`.
#[verifier::external_body]
fn pretty_value(v: &Value) -> (r: String)
    ensures
        r@ == pretty_text(value_tree(*v)),
{
    serde_json::to_string_pretty(v).unwrap()
}

/// Reads a text and writes it indented.
pub fn prettify(s: &str) -> (r: Option<String>)
    ensures
        match text_tree(s@) {
            Ok(t) => r matches Some(p) && p@ == pretty_text(t),
            Err(_) => r is None,
        },
        written_reads(s@),
{
    match read_value(s) {
        Ok(v) => Some(pretty_value(&v)),
        Err(_) => None,
    }
}

} // verus!
