//! Schema trees in the borsh-js schema grammar (the format borsher wraps),
//! extended with `$ref` nodes that point into the ABI document's `types` section.
use vstd::prelude::*;
use crate::json;
use crate::json::{json_number, json_text, object1, object2, Json, JsonTree};
use crate::text;
use crate::text::{copy_text, same_text, text_before};

pub use crate::json::write_json_string;

verus! {

broadcast use json::group_json_trees;

/// A type schema. Serializes to the exact JSON grammar borsh-js accepts:
/// primitives as bare strings (`"u128"`), compounds as single-key objects
/// (`{"struct":{...}}`, `{"option":...}`, `{"array":{"type":...}}`,
/// `{"enum":[{"struct":{...}}]}`), plus the alkabi `{"$ref":"Name"}` extension.
#[derive(Debug, PartialEq, Eq)]
pub enum Schema {
    /// "u8".."u128", "i8".."i128", "f32", "f64", "bool", "string"
    Primitive(&'static str),
    /// Ordered named fields. Order is borsh-significant and preserved in JSON.
    Struct(Vec<(String, Schema)>),
    /// Ordered variants; borsh discriminant is the index (u8).
    Enum(Vec<(String, Schema)>),
    Option(Box<Schema>),
    Vec(Box<Schema>),
    Array(Box<Schema>, usize),
    /// Reference to a named entry in the document's `types` section.
    Ref(String),
}

/// What a [`Schema`] is.
pub ghost enum SchemaTree {
    Primitive(Seq<char>),
    Struct(Seq<(Seq<char>, SchemaTree)>),
    Enum(Seq<(Seq<char>, SchemaTree)>),
    Option(Box<SchemaTree>),
    Vec(Box<SchemaTree>),
    Array(Box<SchemaTree>, usize),
    Ref(Seq<char>),
}

impl Schema {
    pub open spec fn tree(self) -> SchemaTree
        decreases self,
    {
        match self {
            Schema::Primitive(p) => SchemaTree::Primitive(p@),
            Schema::Struct(fields) => SchemaTree::Struct(
                Seq::new(
                    fields@.len(),
                    |i: int| if 0 <= i < fields@.len() { (fields@[i].0@, fields@[i].1.tree()) } else { arbitrary() },
                ),
            ),
            Schema::Enum(variants) => SchemaTree::Enum(
                Seq::new(
                    variants@.len(),
                    |i: int| if 0 <= i < variants@.len() { (variants@[i].0@, variants@[i].1.tree()) } else { arbitrary() },
                ),
            ),
            Schema::Option(x) => SchemaTree::Option(Box::new(x.tree())),
            Schema::Vec(x) => SchemaTree::Vec(Box::new(x.tree())),
            Schema::Array(x, n) => SchemaTree::Array(Box::new(x.tree()), n),
            Schema::Ref(name) => SchemaTree::Ref(name@),
        }
    }
}

/// What a list of named schemas is.
pub open spec fn named_trees(fields: Seq<(String, Schema)>) -> Seq<(Seq<char>, SchemaTree)> {
    Seq::new(fields.len(), |i: int| (fields[i].0@, fields[i].1.tree()))
}

pub proof fn lemma_struct_tree(fields: Vec<(String, Schema)>)
    ensures
        Schema::Struct(fields).tree() == SchemaTree::Struct(named_trees(fields@)),
{
    assert(Schema::Struct(fields).tree()->Struct_0 =~= named_trees(fields@));
}

pub proof fn lemma_enum_tree(variants: Vec<(String, Schema)>)
    ensures
        Schema::Enum(variants).tree() == SchemaTree::Enum(named_trees(variants@)),
{
    assert(Schema::Enum(variants).tree()->Enum_0 =~= named_trees(variants@));
}

/// The names of the primitives.
pub open spec fn is_primitive(name: Seq<char>) -> bool {
    ||| name == "u8"@
    ||| name == "u16"@
    ||| name == "u32"@
    ||| name == "u64"@
    ||| name == "u128"@
    ||| name == "i8"@
    ||| name == "i16"@
    ||| name == "i32"@
    ||| name == "i64"@
    ||| name == "i128"@
    ||| name == "f32"@
    ||| name == "f64"@
    ||| name == "bool"@
    ||| name == "string"@
}

/// A schema as JSON.
pub open spec fn schema_json(s: SchemaTree) -> JsonTree
    decreases s,
{
    match s {
        SchemaTree::Primitive(p) => JsonTree::String(p),
        SchemaTree::Struct(fields) => json::one(
            "struct"@,
            JsonTree::Object(
                Seq::new(
                    fields.len(),
                    |i: int| if 0 <= i < fields.len() { (fields[i].0, schema_json(fields[i].1)) } else { arbitrary() },
                ),
            ),
        ),
        SchemaTree::Enum(variants) => json::one(
            "enum"@,
            JsonTree::Array(
                Seq::new(
                    variants.len(),
                    |i: int| if 0 <= i < variants.len() {
                        json::one("struct"@, json::one(variants[i].0, schema_json(variants[i].1)))
                    } else {
                        arbitrary()
                    },
                ),
            ),
        ),
        SchemaTree::Option(x) => json::one("option"@, schema_json(*x)),
        SchemaTree::Vec(x) => json::one("array"@, json::one("type"@, schema_json(*x))),
        SchemaTree::Array(x, n) => json::one(
            "array"@,
            json::two("type"@, schema_json(*x), "len"@, json::num(n as int)),
        ),
        SchemaTree::Ref(name) => json::one("$ref"@, JsonTree::String(name)),
    }
}

/// Named schemas as the fields of an object.
pub open spec fn named_json(fields: Seq<(Seq<char>, SchemaTree)>) -> Seq<(Seq<char>, JsonTree)> {
    Seq::new(fields.len(), |i: int| (fields[i].0, schema_json(fields[i].1)))
}

fn copy_named(fields: &Vec<(String, Schema)>) -> (r: Vec<(String, Schema)>)
    ensures
        named_trees(r@) == named_trees(fields@),
    decreases fields,
{
    let mut out: Vec<(String, Schema)> = Vec::new();
    let n: usize = fields.len();
    for i in 0..n
        invariant
            n == fields@.len(),
            out@.len() == i,
            forall|j: int| 0 <= j < i ==> (#[trigger] out@[j]).0@ == fields@[j].0@ && out@[j].1.tree() == fields@[j].1.tree(),
    {
        let name = copy_text(fields[i].0.as_str());
        let schema = fields[i].1.copy();
        out.push((name, schema));
    }
    assert(named_trees(out@) =~= named_trees(fields@));
    out
}

fn struct_fields(fields: &Vec<(String, Schema)>) -> (r: Vec<(String, Json)>)
    ensures
        json::field_trees(r@) == named_json(named_trees(fields@)),
    decreases fields,
{
    let mut out: Vec<(String, Json)> = Vec::new();
    let n: usize = fields.len();
    for i in 0..n
        invariant
            n == fields@.len(),
            out@.len() == i,
            forall|j: int| 0 <= j < i ==> (#[trigger] out@[j]).0@ == fields@[j].0@ && out@[j].1.tree() == schema_json(fields@[j].1.tree()),
    {
        let name = copy_text(fields[i].0.as_str());
        let schema = fields[i].1.json();
        out.push((name, schema));
    }
    assert(json::field_trees(out@) =~= named_json(named_trees(fields@)));
    out
}

fn enum_items(variants: &Vec<(String, Schema)>) -> (r: Vec<Json>)
    ensures
        json::trees(r@) == Seq::new(
            variants@.len(),
            |i: int| json::one("struct"@, json::one(variants@[i].0@, schema_json(variants@[i].1.tree()))),
        ),
    decreases variants,
{
    let mut out: Vec<Json> = Vec::new();
    let n: usize = variants.len();
    for i in 0..n
        invariant
            n == variants@.len(),
            out@.len() == i,
            forall|j: int| 0 <= j < i ==> (#[trigger] out@[j]).tree() == json::one(
                "struct"@,
                json::one(variants@[j].0@, schema_json(variants@[j].1.tree())),
            ),
    {
        let schema = variants[i].1.json();
        out.push(object1("struct", object1(variants[i].0.as_str(), schema)));
    }
    assert(json::trees(out@) =~= Seq::new(
        variants@.len(),
        |i: int| json::one("struct"@, json::one(variants@[i].0@, schema_json(variants@[i].1.tree()))),
    ));
    out
}

impl Schema {
    /// Look up a primitive by its wire name ("u8".."u128", "i8".."i128",
    /// "f32", "f64", "bool", "string").
    pub fn primitive(name: &str) -> (r: Option<Schema>)
        ensures
            match r {
                Some(s) => is_primitive(name@) && s.tree() == SchemaTree::Primitive(name@),
                None => !is_primitive(name@),
            },
    {
        let p: &'static str = if same_text(name, "u8") {
            "u8"
        } else if same_text(name, "u16") {
            "u16"
        } else if same_text(name, "u32") {
            "u32"
        } else if same_text(name, "u64") {
            "u64"
        } else if same_text(name, "u128") {
            "u128"
        } else if same_text(name, "i8") {
            "i8"
        } else if same_text(name, "i16") {
            "i16"
        } else if same_text(name, "i32") {
            "i32"
        } else if same_text(name, "i64") {
            "i64"
        } else if same_text(name, "i128") {
            "i128"
        } else if same_text(name, "f32") {
            "f32"
        } else if same_text(name, "f64") {
            "f64"
        } else if same_text(name, "bool") {
            "bool"
        } else if same_text(name, "string") {
            "string"
        } else {
            return None;
        };
        Some(Schema::Primitive(p))
    }

    /// The same schema, again.
    pub fn copy(&self) -> (r: Schema)
        ensures
            r.tree() == self.tree(),
        decreases self,
    {
        match self {
            Schema::Primitive(p) => Schema::Primitive(*p),
            Schema::Struct(fields) => {
                let out = copy_named(fields);
                proof {
                    lemma_struct_tree(out);
                    lemma_struct_tree(*fields);
                }
                Schema::Struct(out)
            }
            Schema::Enum(variants) => {
                let out = copy_named(variants);
                proof {
                    lemma_enum_tree(out);
                    lemma_enum_tree(*variants);
                }
                Schema::Enum(out)
            }
            Schema::Option(x) => Schema::Option(Box::new(x.copy())),
            Schema::Vec(x) => Schema::Vec(Box::new(x.copy())),
            Schema::Array(x, n) => Schema::Array(Box::new(x.copy()), *n),
            Schema::Ref(name) => Schema::Ref(copy_text(name.as_str())),
        }
    }

    /// The schema as a JSON value.
    pub fn json(&self) -> (r: Json)
        ensures
            r.tree() == schema_json(self.tree()),
        decreases self,
    {
        match self {
            Schema::Primitive(p) => json_text(p),
            Schema::Struct(fields) => {
                let out = struct_fields(fields);
                proof {
                    lemma_struct_tree(*fields);
                    assert(json::field_trees(out@) =~= schema_json(self.tree())->Object_0[0].1->Object_0);
                }
                object1("struct", Json::Object(out))
            }
            Schema::Enum(variants) => {
                let out = enum_items(variants);
                proof {
                    lemma_enum_tree(*variants);
                    assert(json::trees(out@) =~= schema_json(self.tree())->Object_0[0].1->Array_0);
                }
                object1("enum", Json::Array(out))
            }
            Schema::Option(x) => object1("option", x.json()),
            Schema::Vec(x) => object1("array", object1("type", x.json())),
            Schema::Array(x, n) => object1("array", object2("type", x.json(), "len", json_number(*n as u128))),
            Schema::Ref(name) => object1("$ref", json_text(name.as_str())),
        }
    }

    pub fn write_json(&self, out: &mut String)
        ensures
            final(out)@ == old(out)@ + json::render(schema_json(self.tree())),
    {
        self.json().write(out);
    }

    pub fn to_json(&self) -> (r: String)
        ensures
            r@ == json::render(schema_json(self.tree())),
    {
        self.json().to_text()
    }
}

impl Clone for Schema {
    fn clone(&self) -> (r: Self)
        ensures
            r.tree() == self.tree(),
    {
        self.copy()
    }
}

/* ─────────────── registry ─────────────── */

/// Named type definitions collected while building an ABI document, in the
/// order of their names, which keeps the `types` section deterministic across builds.
#[derive(Debug, PartialEq, Eq)]
pub struct TypeRegistry {
    types: Vec<(String, Schema)>,
}

/// The place of a name among others: the first that does not come before it.
pub open spec fn name_place(types: Seq<(Seq<char>, SchemaTree)>, name: Seq<char>, from: nat) -> int
    decreases types.len() - from,
{
    if from < types.len() && text::before(types[from as int].0, name) {
        name_place(types, name, from + 1)
    } else {
        from as int
    }
}

/// The definitions with one more, in place of another of that name.
pub open spec fn defined(types: Seq<(Seq<char>, SchemaTree)>, name: Seq<char>, s: SchemaTree) -> Seq<(Seq<char>, SchemaTree)> {
    let at = name_place(types, name, 0);
    if at < types.len() && types[at].0 == name {
        types.update(at, (name, s))
    } else {
        types.insert(at, (name, s))
    }
}

/// The definition of a name, from a place on.
pub open spec fn definition(types: Seq<(Seq<char>, SchemaTree)>, name: Seq<char>, from: nat) -> Option<SchemaTree>
    decreases types.len() - from,
{
    if from >= types.len() {
        None
    } else if types[from as int].0 == name {
        Some(types[from as int].1)
    } else {
        definition(types, name, from + 1)
    }
}

/// Whether the names rise, so that none is there twice.
pub open spec fn sorted(types: Seq<(Seq<char>, SchemaTree)>) -> bool {
    forall|i: int, j: int| 0 <= i < j < types.len() ==> text::before((#[trigger] types[i]).0, (#[trigger] types[j]).0)
}

impl TypeRegistry {
    /// The definitions, in order.
    pub closed spec fn types(self) -> Seq<(Seq<char>, SchemaTree)> {
        named_trees(self.types@)
    }

    /// The names of a registry rise, whatever was done to it.
    #[verifier::type_invariant]
    closed spec fn well_formed(self) -> bool {
        sorted(self.types())
    }

    pub fn new() -> (r: Self)
        ensures
            r.types() == Seq::<(Seq<char>, SchemaTree)>::empty(),
            sorted(r.types()),
    {
        let r = TypeRegistry { types: Vec::new() };
        assert(r.types() =~= Seq::empty());
        r
    }

    fn place(&self, name: &str) -> (r: usize)
        ensures
            r == name_place(self.types(), name@, 0),
            r <= self.types@.len(),
    {
        let ghost all = self.types();
        let n: usize = self.types.len();
        let mut at: usize = 0;
        while at < n && text_before(self.types[at].0.as_str(), name)
            invariant
                n == self.types@.len(),
                all == self.types(),
                at <= n,
                name_place(all, name@, 0) == name_place(all, name@, at as nat),
            decreases n - at,
        {
            at = at + 1;
        }
        at
    }

    pub fn contains(&self, name: &str) -> (r: bool)
        ensures
            r == (definition(self.types(), name@, 0) is Some),
    {
        self.get(name).is_some()
    }

    pub fn insert(&mut self, name: &str, schema: Schema)
        ensures
            final(self).types() == defined(old(self).types(), name@, schema.tree()),
            sorted(final(self).types()),
    {
        let ghost before = self.types();
        proof {
            use_type_invariant(&*self);
            lemma_defined_sorted(before, name@, schema.tree());
        }
        let at: usize = self.place(name);
        let found = at < self.types.len() && same_text(self.types[at].0.as_str(), name);
        let mut types: Vec<(String, Schema)> = Vec::new();
        std::mem::swap(&mut types, &mut self.types);
        if found {
            types.set(at, (copy_text(name), schema));
            assert(named_trees(types@) =~= before.update(at as int, (name@, schema.tree())));
        } else {
            types.insert(at, (copy_text(name), schema));
            assert(named_trees(types@) =~= before.insert(at as int, (name@, schema.tree())));
        }
        self.types = types;
    }

    pub fn get(&self, name: &str) -> (r: Option<&Schema>)
        ensures
            match r {
                Some(s) => definition(self.types(), name@, 0) == Some(s.tree()),
                None => definition(self.types(), name@, 0) is None,
            },
    {
        let ghost all = self.types();
        let n: usize = self.types.len();
        for i in 0..n
            invariant
                n == self.types@.len(),
                all == self.types(),
                definition(all, name@, 0) == definition(all, name@, i as nat),
        {
            if same_text(self.types[i].0.as_str(), name) {
                return Some(&self.types[i].1);
            }
        }
        None
    }

    /// The definitions, in order.
    pub fn iter(&self) -> (r: Vec<(&String, &Schema)>)
        ensures
            r@.len() == self.types().len(),
            forall|i: int| 0 <= i < r@.len() ==> (#[trigger] r@[i]).0@ == self.types()[i].0 && r@[i].1.tree() == self.types()[i].1,
            sorted(self.types()),
    {
        proof {
            use_type_invariant(self);
        }
        let mut out: Vec<(&String, &Schema)> = Vec::new();
        let n: usize = self.types.len();
        for i in 0..n
            invariant
                n == self.types@.len(),
                out@.len() == i,
                forall|j: int| 0 <= j < i ==> (#[trigger] out@[j]).0@ == self.types()[j].0 && out@[j].1.tree() == self.types()[j].1,
        {
            out.push((&self.types[i].0, &self.types[i].1));
        }
        out
    }

    pub fn is_empty(&self) -> (r: bool)
        ensures
            r == (self.types().len() == 0),
    {
        self.types.len() == 0
    }

    /// The definitions as a JSON value.
    pub fn json(&self) -> (r: Json)
        ensures
            r.tree() == JsonTree::Object(named_json(self.types())),
            sorted(self.types()),
    {
        proof {
            use_type_invariant(self);
        }
        Json::Object(struct_fields(&self.types))
    }

    pub fn write_json(&self, out: &mut String)
        ensures
            final(out)@ == old(out)@ + json::render(JsonTree::Object(named_json(self.types()))),
            sorted(self.types()),
    {
        self.json().write(out);
    }
}

impl Default for TypeRegistry {
    fn default() -> (r: Self)
        ensures
            r.types() == Seq::<(Seq<char>, SchemaTree)>::empty(),
    {
        TypeRegistry::new()
    }
}

/// What comes before the place of a name, and what stands there.
pub proof fn lemma_name_place(types: Seq<(Seq<char>, SchemaTree)>, name: Seq<char>, from: nat)
    requires
        from <= types.len(),
        forall|i: int| 0 <= i < from ==> text::before((#[trigger] types[i]).0, name),
    ensures
        from <= name_place(types, name, from) <= types.len(),
        forall|i: int| 0 <= i < name_place(types, name, from) ==> text::before((#[trigger] types[i]).0, name),
        name_place(types, name, from) < types.len() ==> !text::before(types[name_place(types, name, from)].0, name),
    decreases types.len() - from,
{
    if from < types.len() && text::before(types[from as int].0, name) {
        lemma_name_place(types, name, from + 1);
    }
}

/// A definition more leaves the names rising.
pub proof fn lemma_defined_sorted(types: Seq<(Seq<char>, SchemaTree)>, name: Seq<char>, s: SchemaTree)
    requires
        sorted(types),
    ensures
        sorted(defined(types, name, s)),
{
    lemma_name_place(types, name, 0);
    let at = name_place(types, name, 0);
    let after = defined(types, name, s);
    if at < types.len() && types[at].0 == name {
        assert forall|i: int, j: int| 0 <= i < j < after.len() implies text::before((#[trigger] after[i]).0, (#[trigger] after[j]).0) by {
            assert(after[i].0 == types[i].0);
            assert(after[j].0 == types[j].0);
        }
    } else {
        assert forall|i: int, j: int| 0 <= i < j < after.len() implies text::before((#[trigger] after[i]).0, (#[trigger] after[j]).0) by {
            if j < at {
                assert(after[i] == types[i] && after[j] == types[j]);
            } else if j == at {
                assert(after[i] == types[i]);
            } else if i < at {
                assert(after[i] == types[i] && after[j] == types[j - 1]);
            } else if i == at {
                assert(after[j] == types[j - 1]);
                text::lemma_before_total(types[at].0, name);
                if j - 1 > at {
                    text::lemma_before_transitive(name, types[at].0, types[j - 1].0);
                }
            } else {
                assert(after[i] == types[i - 1] && after[j] == types[j - 1]);
            }
        }
    }
}

proof fn lemma_definition_at(types: Seq<(Seq<char>, SchemaTree)>, name: Seq<char>, from: nat, at: int)
    requires
        from <= at < types.len(),
        types[at].0 == name,
        forall|i: int| from <= i < at ==> (#[trigger] types[i]).0 != name,
    ensures
        definition(types, name, from) == Some(types[at].1),
    decreases at - from,
{
    if from < at {
        assert(types[from as int].0 != name);
        lemma_definition_at(types, name, from + 1, at);
    }
}

proof fn lemma_definition_none(types: Seq<(Seq<char>, SchemaTree)>, name: Seq<char>, from: nat)
    requires
        forall|i: int| from <= i < types.len() ==> (#[trigger] types[i]).0 != name,
    ensures
        definition(types, name, from) is None,
    decreases types.len() - from,
{
    if from < types.len() {
        assert(types[from as int].0 != name);
        lemma_definition_none(types, name, from + 1);
    }
}

proof fn lemma_definition_found(types: Seq<(Seq<char>, SchemaTree)>, name: Seq<char>, from: nat) -> (at: int)
    requires
        definition(types, name, from) is Some,
    ensures
        from <= at < types.len(),
        types[at].0 == name,
        forall|i: int| from <= i < at ==> (#[trigger] types[i]).0 != name,
        definition(types, name, from) == Some(types[at].1),
    decreases types.len() - from,
{
    if types[from as int].0 == name {
        from as int
    } else {
        lemma_definition_found(types, name, from + 1)
    }
}

/// What is defined last under a name is what the name stands for, and no other name
/// stands for anything else than before.
pub proof fn lemma_defined(types: Seq<(Seq<char>, SchemaTree)>, name: Seq<char>, s: SchemaTree, other: Seq<char>)
    ensures
        definition(defined(types, name, s), name, 0) == Some(s),
        other != name ==> definition(defined(types, name, s), other, 0) == definition(types, other, 0),
{
    lemma_name_place(types, name, 0);
    let at = name_place(types, name, 0);
    let after = defined(types, name, s);
    assert forall|i: int| 0 <= i < at implies (#[trigger] after[i]).0 != name by {
        assert(after[i].0 == types[i].0);
        text::lemma_before_irreflexive(name);
    }
    lemma_definition_at(after, name, 0, at);
    if other != name {
        if definition(types, other, 0) is Some {
            let k = lemma_definition_found(types, other, 0);
            if at < types.len() && types[at].0 == name {
                assert forall|i: int| 0 <= i < k implies (#[trigger] after[i]).0 != other by {
                    assert(after[i].0 == types[i].0);
                }
                assert(after[k] == types[k]);
                lemma_definition_at(after, other, 0, k);
            } else {
                let to = if k < at { k } else { k + 1 };
                assert(after[to] == types[k]);
                assert forall|i: int| 0 <= i < to implies (#[trigger] after[i]).0 != other by {
                    if i < at {
                        assert(after[i] == types[i]);
                    } else if i > at {
                        assert(after[i] == types[i - 1]);
                    }
                }
                lemma_definition_at(after, other, 0, to);
            }
        } else {
            assert forall|i: int| 0 <= i < types.len() implies (#[trigger] types[i]).0 != other by {
                if types[i].0 == other {
                    lemma_some_definition(types, other, 0, i);
                }
            }
            assert forall|i: int| 0 <= i < after.len() implies (#[trigger] after[i]).0 != other by {
                if at < types.len() && types[at].0 == name {
                    assert(after[i].0 == types[i].0);
                } else if i < at {
                    assert(after[i] == types[i]);
                } else if i > at {
                    assert(after[i] == types[i - 1]);
                }
            }
            lemma_definition_none(after, other, 0);
        }
    }
}

proof fn lemma_some_definition(types: Seq<(Seq<char>, SchemaTree)>, name: Seq<char>, from: nat, i: int)
    requires
        from <= i < types.len(),
        types[i].0 == name,
    ensures
        definition(types, name, from) is Some,
    decreases types.len() - from,
{
    if types[from as int].0 != name {
        lemma_some_definition(types, name, from + 1, i);
    }
}

} // verus!
