//! The `AlkabiType` trait: a Rust type's schema description.
use vstd::prelude::*;
use crate::alkane::AlkaneId;
use crate::schema;
use crate::schema::{Schema, SchemaTree, TypeRegistry};
use crate::text::copy_text;

verus! {

/// Describes a type as a schema tree.
///
/// Named types (derived structs/enums, `AlkaneId`) have a name, appear in the ABI
/// document's `types` section, and are referenced via `$ref` from other schemas.
/// Primitives and containers inline.
pub trait AlkabiType {
    /// The schema of the type; unknown, unless the type says.
    open spec fn schema_tree() -> SchemaTree {
        arbitrary()
    }

    /// The name of the type, if it has one; unknown, unless the type says.
    open spec fn named() -> Option<Seq<char>> {
        arbitrary()
    }

    /// The definitions after those of the type have been added to them; unknown, unless
    /// the type says.
    open spec fn collected(types: Seq<(Seq<char>, SchemaTree)>) -> Seq<(Seq<char>, SchemaTree)> {
        arbitrary()
    }

    fn name() -> (r: Option<&'static str>)
        ensures
            match r {
                Some(n) => Self::named() == Some(n@),
                None => Self::named() is None,
            },
    ;

    /// The full schema definition. Fields of named types are referenced, not inlined.
    fn schema() -> (r: Schema)
        ensures
            r.tree() == Self::schema_tree(),
    ;

    /// How other schemas point at this type: `$ref` for named types, inline otherwise.
    fn reference() -> (r: Schema)
        ensures
            r.tree() == reference_tree(Self::named(), Self::schema_tree()),
    {
        match Self::name() {
            Some(name) => Schema::Ref(copy_text(name)),
            None => Self::schema(),
        }
    }

    /// Register this type (and, transitively, every named type it uses) in `reg`.
    fn collect(reg: &mut TypeRegistry)
        ensures
            final(reg).types() == Self::collected(old(reg).types()),
    ;
}

/// How other schemas point at a type.
pub open spec fn reference_tree(name: Option<Seq<char>>, s: SchemaTree) -> SchemaTree {
    match name {
        Some(n) => SchemaTree::Ref(n),
        None => s,
    }
}

impl AlkabiType for u8 {
    open spec fn schema_tree() -> SchemaTree {
        SchemaTree::Primitive("u8"@)
    }

    open spec fn named() -> Option<Seq<char>> {
        None
    }

    open spec fn collected(types: Seq<(Seq<char>, SchemaTree)>) -> Seq<(Seq<char>, SchemaTree)> {
        types
    }

    fn name() -> (r: Option<&'static str>) {
        None
    }

    fn schema() -> (r: Schema) {
        Schema::Primitive("u8")
    }

    fn collect(reg: &mut TypeRegistry) {
    }
}

impl AlkabiType for u16 {
    open spec fn schema_tree() -> SchemaTree {
        SchemaTree::Primitive("u16"@)
    }

    open spec fn named() -> Option<Seq<char>> {
        None
    }

    open spec fn collected(types: Seq<(Seq<char>, SchemaTree)>) -> Seq<(Seq<char>, SchemaTree)> {
        types
    }

    fn name() -> (r: Option<&'static str>) {
        None
    }

    fn schema() -> (r: Schema) {
        Schema::Primitive("u16")
    }

    fn collect(reg: &mut TypeRegistry) {
    }
}

impl AlkabiType for u32 {
    open spec fn schema_tree() -> SchemaTree {
        SchemaTree::Primitive("u32"@)
    }

    open spec fn named() -> Option<Seq<char>> {
        None
    }

    open spec fn collected(types: Seq<(Seq<char>, SchemaTree)>) -> Seq<(Seq<char>, SchemaTree)> {
        types
    }

    fn name() -> (r: Option<&'static str>) {
        None
    }

    fn schema() -> (r: Schema) {
        Schema::Primitive("u32")
    }

    fn collect(reg: &mut TypeRegistry) {
    }
}

impl AlkabiType for u64 {
    open spec fn schema_tree() -> SchemaTree {
        SchemaTree::Primitive("u64"@)
    }

    open spec fn named() -> Option<Seq<char>> {
        None
    }

    open spec fn collected(types: Seq<(Seq<char>, SchemaTree)>) -> Seq<(Seq<char>, SchemaTree)> {
        types
    }

    fn name() -> (r: Option<&'static str>) {
        None
    }

    fn schema() -> (r: Schema) {
        Schema::Primitive("u64")
    }

    fn collect(reg: &mut TypeRegistry) {
    }
}

impl AlkabiType for u128 {
    open spec fn schema_tree() -> SchemaTree {
        SchemaTree::Primitive("u128"@)
    }

    open spec fn named() -> Option<Seq<char>> {
        None
    }

    open spec fn collected(types: Seq<(Seq<char>, SchemaTree)>) -> Seq<(Seq<char>, SchemaTree)> {
        types
    }

    fn name() -> (r: Option<&'static str>) {
        None
    }

    fn schema() -> (r: Schema) {
        Schema::Primitive("u128")
    }

    fn collect(reg: &mut TypeRegistry) {
    }
}

impl AlkabiType for i8 {
    open spec fn schema_tree() -> SchemaTree {
        SchemaTree::Primitive("i8"@)
    }

    open spec fn named() -> Option<Seq<char>> {
        None
    }

    open spec fn collected(types: Seq<(Seq<char>, SchemaTree)>) -> Seq<(Seq<char>, SchemaTree)> {
        types
    }

    fn name() -> (r: Option<&'static str>) {
        None
    }

    fn schema() -> (r: Schema) {
        Schema::Primitive("i8")
    }

    fn collect(reg: &mut TypeRegistry) {
    }
}

impl AlkabiType for i16 {
    open spec fn schema_tree() -> SchemaTree {
        SchemaTree::Primitive("i16"@)
    }

    open spec fn named() -> Option<Seq<char>> {
        None
    }

    open spec fn collected(types: Seq<(Seq<char>, SchemaTree)>) -> Seq<(Seq<char>, SchemaTree)> {
        types
    }

    fn name() -> (r: Option<&'static str>) {
        None
    }

    fn schema() -> (r: Schema) {
        Schema::Primitive("i16")
    }

    fn collect(reg: &mut TypeRegistry) {
    }
}

impl AlkabiType for i32 {
    open spec fn schema_tree() -> SchemaTree {
        SchemaTree::Primitive("i32"@)
    }

    open spec fn named() -> Option<Seq<char>> {
        None
    }

    open spec fn collected(types: Seq<(Seq<char>, SchemaTree)>) -> Seq<(Seq<char>, SchemaTree)> {
        types
    }

    fn name() -> (r: Option<&'static str>) {
        None
    }

    fn schema() -> (r: Schema) {
        Schema::Primitive("i32")
    }

    fn collect(reg: &mut TypeRegistry) {
    }
}

impl AlkabiType for i64 {
    open spec fn schema_tree() -> SchemaTree {
        SchemaTree::Primitive("i64"@)
    }

    open spec fn named() -> Option<Seq<char>> {
        None
    }

    open spec fn collected(types: Seq<(Seq<char>, SchemaTree)>) -> Seq<(Seq<char>, SchemaTree)> {
        types
    }

    fn name() -> (r: Option<&'static str>) {
        None
    }

    fn schema() -> (r: Schema) {
        Schema::Primitive("i64")
    }

    fn collect(reg: &mut TypeRegistry) {
    }
}

impl AlkabiType for i128 {
    open spec fn schema_tree() -> SchemaTree {
        SchemaTree::Primitive("i128"@)
    }

    open spec fn named() -> Option<Seq<char>> {
        None
    }

    open spec fn collected(types: Seq<(Seq<char>, SchemaTree)>) -> Seq<(Seq<char>, SchemaTree)> {
        types
    }

    fn name() -> (r: Option<&'static str>) {
        None
    }

    fn schema() -> (r: Schema) {
        Schema::Primitive("i128")
    }

    fn collect(reg: &mut TypeRegistry) {
    }
}

impl AlkabiType for bool {
    open spec fn schema_tree() -> SchemaTree {
        SchemaTree::Primitive("bool"@)
    }

    open spec fn named() -> Option<Seq<char>> {
        None
    }

    open spec fn collected(types: Seq<(Seq<char>, SchemaTree)>) -> Seq<(Seq<char>, SchemaTree)> {
        types
    }

    fn name() -> (r: Option<&'static str>) {
        None
    }

    fn schema() -> (r: Schema) {
        Schema::Primitive("bool")
    }

    fn collect(reg: &mut TypeRegistry) {
    }
}

impl AlkabiType for String {
    open spec fn schema_tree() -> SchemaTree {
        SchemaTree::Primitive("string"@)
    }

    open spec fn named() -> Option<Seq<char>> {
        None
    }

    open spec fn collected(types: Seq<(Seq<char>, SchemaTree)>) -> Seq<(Seq<char>, SchemaTree)> {
        types
    }

    fn name() -> (r: Option<&'static str>) {
        None
    }

    fn schema() -> (r: Schema) {
        Schema::Primitive("string")
    }

    fn collect(reg: &mut TypeRegistry) {
    }
}

impl<T: AlkabiType> AlkabiType for Vec<T> {
    open spec fn schema_tree() -> SchemaTree {
        SchemaTree::Vec(Box::new(reference_tree(T::named(), T::schema_tree())))
    }

    open spec fn named() -> Option<Seq<char>> {
        None
    }

    open spec fn collected(types: Seq<(Seq<char>, SchemaTree)>) -> Seq<(Seq<char>, SchemaTree)> {
        T::collected(types)
    }

    fn name() -> (r: Option<&'static str>) {
        None
    }

    fn schema() -> (r: Schema) {
        Schema::Vec(Box::new(T::reference()))
    }

    fn collect(reg: &mut TypeRegistry) {
        T::collect(reg);
    }
}

impl<T: AlkabiType> AlkabiType for Option<T> {
    open spec fn schema_tree() -> SchemaTree {
        SchemaTree::Option(Box::new(reference_tree(T::named(), T::schema_tree())))
    }

    open spec fn named() -> Option<Seq<char>> {
        None
    }

    open spec fn collected(types: Seq<(Seq<char>, SchemaTree)>) -> Seq<(Seq<char>, SchemaTree)> {
        T::collected(types)
    }

    fn name() -> (r: Option<&'static str>) {
        None
    }

    fn schema() -> (r: Schema) {
        Schema::Option(Box::new(T::reference()))
    }

    fn collect(reg: &mut TypeRegistry) {
        T::collect(reg);
    }
}

impl<T: AlkabiType, const N: usize> AlkabiType for [T; N] {
    open spec fn schema_tree() -> SchemaTree {
        SchemaTree::Array(Box::new(reference_tree(T::named(), T::schema_tree())), N)
    }

    open spec fn named() -> Option<Seq<char>> {
        None
    }

    open spec fn collected(types: Seq<(Seq<char>, SchemaTree)>) -> Seq<(Seq<char>, SchemaTree)> {
        T::collected(types)
    }

    fn name() -> (r: Option<&'static str>) {
        None
    }

    fn schema() -> (r: Schema) {
        Schema::Array(Box::new(T::reference()), N)
    }

    fn collect(reg: &mut TypeRegistry) {
        T::collect(reg);
    }
}

/// The schema of an alkane's id: two words.
pub open spec fn alkane_id_tree() -> SchemaTree {
    SchemaTree::Struct(
        seq![("block"@, SchemaTree::Primitive("u128"@)), ("tx"@, SchemaTree::Primitive("u128"@))],
    )
}

/// The definitions with that of a name, unless it is there.
pub open spec fn defined_once(types: Seq<(Seq<char>, SchemaTree)>, name: Seq<char>, s: SchemaTree) -> Seq<
    (Seq<char>, SchemaTree),
> {
    if schema::definition(types, name, 0) is Some {
        types
    } else {
        schema::defined(types, name, s)
    }
}

impl AlkabiType for AlkaneId {
    open spec fn schema_tree() -> SchemaTree {
        alkane_id_tree()
    }

    open spec fn named() -> Option<Seq<char>> {
        Some("AlkaneId"@)
    }

    open spec fn collected(types: Seq<(Seq<char>, SchemaTree)>) -> Seq<(Seq<char>, SchemaTree)> {
        defined_once(types, "AlkaneId"@, alkane_id_tree())
    }

    fn name() -> (r: Option<&'static str>) {
        Some("AlkaneId")
    }

    fn schema() -> (r: Schema) {
        let mut fields: Vec<(String, Schema)> = Vec::new();
        fields.push((copy_text("block"), Schema::Primitive("u128")));
        fields.push((copy_text("tx"), Schema::Primitive("u128")));
        proof {
            schema::lemma_struct_tree(fields);
            assert(schema::named_trees(fields@) =~= alkane_id_tree()->Struct_0);
        }
        Schema::Struct(fields)
    }

    fn collect(reg: &mut TypeRegistry) {
        if !reg.contains("AlkaneId") {
            reg.insert("AlkaneId", Self::schema());
        }
    }
}

/// Collecting a type twice changes nothing more, and leaves the names rising.
pub proof fn lemma_defined_once(types: Seq<(Seq<char>, SchemaTree)>, name: Seq<char>, s: SchemaTree)
    ensures
        schema::sorted(types) ==> schema::sorted(defined_once(types, name, s)),
        schema::definition(defined_once(types, name, s), name, 0) is Some,
        defined_once(defined_once(types, name, s), name, s) == defined_once(types, name, s),
{
    if schema::sorted(types) {
        schema::lemma_defined_sorted(types, name, s);
    }
    schema::lemma_defined(types, name, s, name);
}

/// The integers, booleans and texts are primitives of their names, and define nothing.
pub proof fn lemma_primitive_types(types: Seq<(Seq<char>, SchemaTree)>)
    ensures
        <u8 as AlkabiType>::schema_tree() == SchemaTree::Primitive("u8"@),
        <u16 as AlkabiType>::schema_tree() == SchemaTree::Primitive("u16"@),
        <u32 as AlkabiType>::schema_tree() == SchemaTree::Primitive("u32"@),
        <u64 as AlkabiType>::schema_tree() == SchemaTree::Primitive("u64"@),
        <u128 as AlkabiType>::schema_tree() == SchemaTree::Primitive("u128"@),
        <i8 as AlkabiType>::schema_tree() == SchemaTree::Primitive("i8"@),
        <i16 as AlkabiType>::schema_tree() == SchemaTree::Primitive("i16"@),
        <i32 as AlkabiType>::schema_tree() == SchemaTree::Primitive("i32"@),
        <i64 as AlkabiType>::schema_tree() == SchemaTree::Primitive("i64"@),
        <i128 as AlkabiType>::schema_tree() == SchemaTree::Primitive("i128"@),
        <bool as AlkabiType>::schema_tree() == SchemaTree::Primitive("bool"@),
        <String as AlkabiType>::schema_tree() == SchemaTree::Primitive("string"@),
        <u8 as AlkabiType>::named() is None && <u16 as AlkabiType>::named() is None && <u32 as AlkabiType>::named() is None,
        <u64 as AlkabiType>::named() is None && <u128 as AlkabiType>::named() is None && <i8 as AlkabiType>::named() is None,
        <i16 as AlkabiType>::named() is None && <i32 as AlkabiType>::named() is None && <i64 as AlkabiType>::named() is None,
        <i128 as AlkabiType>::named() is None && <bool as AlkabiType>::named() is None && <String as AlkabiType>::named() is None,
        <u128 as AlkabiType>::collected(types) == types && <bool as AlkabiType>::collected(types) == types && <String as AlkabiType>::collected(
            types,
        ) == types,
        <u8 as AlkabiType>::collected(types) == types && <u16 as AlkabiType>::collected(types) == types && <u32 as AlkabiType>::collected(types)
            == types && <u64 as AlkabiType>::collected(types) == types,
{
}

/// An id is a block and a transaction of 128 bits each, under its own name, and is
/// defined once it was collected.
pub proof fn lemma_id_type(types: Seq<(Seq<char>, SchemaTree)>)
    ensures
        <AlkaneId as AlkabiType>::named() == Some("AlkaneId"@),
        <AlkaneId as AlkabiType>::schema_tree() == SchemaTree::Struct(
            seq![("block"@, SchemaTree::Primitive("u128"@)), ("tx"@, SchemaTree::Primitive("u128"@))],
        ),
        schema::definition(<AlkaneId as AlkabiType>::collected(types), "AlkaneId"@, 0) is Some,
        schema::definition(types, "AlkaneId"@, 0) is None ==> schema::definition(
            <AlkaneId as AlkabiType>::collected(types),
            "AlkaneId"@,
            0,
        ) == Some(<AlkaneId as AlkabiType>::schema_tree()),
{
    schema::lemma_defined(types, "AlkaneId"@, alkane_id_tree(), "AlkaneId"@);
}

/// A list, an option and an array are unnamed, hold what their items are, by name where
/// these have one, and define what their items define.
pub proof fn lemma_built_types<T: AlkabiType, const N: usize>(types: Seq<(Seq<char>, SchemaTree)>, name: Seq<char>)
    ensures
        T::named() is None ==> <Vec<T> as AlkabiType>::schema_tree() == SchemaTree::Vec(Box::new(T::schema_tree())),
        T::named() == Some(name) ==> <Vec<T> as AlkabiType>::schema_tree() == SchemaTree::Vec(Box::new(SchemaTree::Ref(name))),
        T::named() is None ==> <Option<T> as AlkabiType>::schema_tree() == SchemaTree::Option(Box::new(T::schema_tree())),
        T::named() == Some(name) ==> <Option<T> as AlkabiType>::schema_tree() == SchemaTree::Option(Box::new(SchemaTree::Ref(name))),
        T::named() is None ==> <[T; N] as AlkabiType>::schema_tree() == SchemaTree::Array(Box::new(T::schema_tree()), N),
        T::named() == Some(name) ==> <[T; N] as AlkabiType>::schema_tree() == SchemaTree::Array(Box::new(SchemaTree::Ref(name)), N),
        <Vec<T> as AlkabiType>::named() is None && <Option<T> as AlkabiType>::named() is None && <[T; N] as AlkabiType>::named() is None,
        <Vec<T> as AlkabiType>::collected(types) == T::collected(types),
        <Option<T> as AlkabiType>::collected(types) == T::collected(types),
        <[T; N] as AlkabiType>::collected(types) == T::collected(types),
{
}

} // verus!
