//! The sections of a wasm binary, as `wasmparser` decodes them.
//!
//! Every function here decodes one payload of the binary, found by its place in
//! the sequence that `Parser::parse_all` yields. An item that cannot be decoded is
//! `None`; a payload of another sort has no items.
use vstd::prelude::*;
use wasmparser::{
    CompositeInnerType, DataKind, ElementItems, ElementKind, ExternalKind, Operator, Parser, Payload,
    TypeRef, ValType,
};
use crate::analysis::lift::op;
use crate::analysis::lift::op::Op;

verus! {

#[verifier::external_type_specification]
#[verifier::external_body]
pub struct ExValType(ValType);

/// What a payload of a binary is.
#[derive(Debug, Clone, Copy, PartialEq, Eq, Structural)]
pub enum PayloadSort {
    /// A section, with its identifier.
    Section(u8),
    /// A module or a component inside a component; its own payloads follow.
    Nested,
    /// No section: the header, a function body or the end.
    Other,
}

/// The sorts of the payloads of a binary: `None` for one that cannot be decoded (then
/// the last).
pub uninterp spec fn payload_sorts(wasm: Seq<u8>) -> Seq<Option<PayloadSort>>;

/// Walks the payloads by `Parser::parse_all` and takes their identifiers by
/// `Payload::as_section`.
#[verifier::external_body]
pub(crate) fn read_payload_sorts(wasm: &[u8]) -> (r: Vec<Option<PayloadSort>>)
    ensures
        r@ == payload_sorts(wasm@),
{
    Parser::new(0).parse_all(wasm).map(|p| p.ok().map(|p| match &p {
        Payload::ModuleSection { .. } => PayloadSort::Nested,
        Payload::ComponentSection { .. } => PayloadSort::Nested,
        other => match other.as_section() {
            Some((id, _)) => PayloadSort::Section(id),
            None => PayloadSort::Other,
        },
    })).collect()
}

/// The groups of function types of payload `at`; a type that is no function type
/// has neither parameters nor results.
pub uninterp spec fn type_groups(wasm: Seq<u8>, at: nat) -> Seq<Option<Seq<(Seq<ValType>, Seq<ValType>)>>>;

pub open spec fn type_group(group: Option<Vec<(Vec<ValType>, Vec<ValType>)>>) -> Option<Seq<(Seq<ValType>, Seq<ValType>)>> {
    match group {
        Some(group) => Some(Seq::new(group@.len(), |i: int| (group@[i].0@, group@[i].1@))),
        None => None,
    }
}

pub open spec fn type_views(groups: Seq<Option<Vec<(Vec<ValType>, Vec<ValType>)>>>) -> Seq<Option<Seq<(Seq<ValType>, Seq<ValType>)>>> {
    Seq::new(groups.len(), |i: int| type_group(groups[i]))
}

/// Reads a type section by `TypeSectionReader`.
#[verifier::external_body]
pub(crate) fn read_type_groups(wasm: &[u8], at: usize) -> (r: Vec<Option<Vec<(Vec<ValType>, Vec<ValType>)>>>)
    ensures
        type_views(r@) == type_groups(wasm@, at as nat),
{
    match Parser::new(0).parse_all(wasm).nth(at) {
        Some(Ok(Payload::TypeSection(items))) => items.into_iter().map(|group| group.ok().map(|group| {
            group.types().map(|sub| match &sub.composite_type.inner {
                CompositeInnerType::Func(f) => (f.params().to_vec(), f.results().to_vec()),
                _ => (Vec::new(), Vec::new()),
            }).collect()
        })).collect(),
        _ => Vec::new(),
    }
}

/// The imports of payload `at`: module, name and type index of those that are
/// functions.
pub uninterp spec fn import_items(wasm: Seq<u8>, at: nat) -> Seq<Option<Option<(Seq<char>, Seq<char>, u32)>>>;

pub open spec fn import_item(item: Option<Option<(String, String, u32)>>) -> Option<Option<(Seq<char>, Seq<char>, u32)>> {
    match item {
        Some(Some((module, name, ty))) => Some(Some((module@, name@, ty))),
        Some(None) => Some(None),
        None => None,
    }
}

pub open spec fn import_views(items: Seq<Option<Option<(String, String, u32)>>>) -> Seq<Option<Option<(Seq<char>, Seq<char>, u32)>>> {
    Seq::new(items.len(), |i: int| import_item(items[i]))
}

/// Reads an import section by `ImportSectionReader`.
#[verifier::external_body]
pub(crate) fn read_imports(wasm: &[u8], at: usize) -> (r: Vec<Option<Option<(String, String, u32)>>>)
    ensures
        import_views(r@) == import_items(wasm@, at as nat),
{
    match Parser::new(0).parse_all(wasm).nth(at) {
        Some(Ok(Payload::ImportSection(items))) => items.into_iter().map(|item| item.ok().map(|i| match i.ty {
            TypeRef::Func(t) => Some((i.module.to_string(), i.name.to_string(), t)),
            _ => None,
        })).collect(),
        _ => Vec::new(),
    }
}

/// The type indices of the functions that payload `at` declares.
pub uninterp spec fn function_items(wasm: Seq<u8>, at: nat) -> Seq<Option<u32>>;

/// Reads a function section by `FunctionSectionReader`.
#[verifier::external_body]
pub(crate) fn read_functions(wasm: &[u8], at: usize) -> (r: Vec<Option<u32>>)
    ensures
        r@ == function_items(wasm@, at as nat),
{
    match Parser::new(0).parse_all(wasm).nth(at) {
        Some(Ok(Payload::FunctionSection(items))) => items.into_iter().map(|item| item.ok()).collect(),
        _ => Vec::new(),
    }
}

/// The initial sizes of the tables of payload `at`.
pub uninterp spec fn table_items(wasm: Seq<u8>, at: nat) -> Seq<Option<u64>>;

/// Reads a table section by `TableSectionReader`.
#[verifier::external_body]
pub(crate) fn read_tables(wasm: &[u8], at: usize) -> (r: Vec<Option<u64>>)
    ensures
        r@ == table_items(wasm@, at as nat),
{
    match Parser::new(0).parse_all(wasm).nth(at) {
        Some(Ok(Payload::TableSection(items))) => items.into_iter().map(|item| item.ok().map(|t| t.ty.initial)).collect(),
        _ => Vec::new(),
    }
}

/// The initial and largest sizes, in pages, of the memories of payload `at`.
pub uninterp spec fn memory_items(wasm: Seq<u8>, at: nat) -> Seq<Option<(u64, Option<u64>)>>;

/// Reads a memory section by `MemorySectionReader`.
#[verifier::external_body]
pub(crate) fn read_memories(wasm: &[u8], at: usize) -> (r: Vec<Option<(u64, Option<u64>)>>)
    ensures
        r@ == memory_items(wasm@, at as nat),
{
    match Parser::new(0).parse_all(wasm).nth(at) {
        Some(Ok(Payload::MemorySection(items))) => {
            items.into_iter().map(|item| item.ok().map(|m| (m.initial, m.maximum))).collect()
        }
        _ => Vec::new(),
    }
}

/// What a decoded operator, if there is one, is.
pub open spec fn first_op(o: Option<Operator<'static>>) -> Option<Op> {
    match o {
        Some(o) => Some(op::op_of(o)),
        None => None,
    }
}

/// The globals of payload `at`: type, mutability, and the first operator of the
/// initial value.
pub uninterp spec fn global_items(wasm: Seq<u8>, at: nat) -> Seq<Option<(ValType, bool, Option<Op>)>>;

pub open spec fn global_item(item: Option<(ValType, bool, Option<Operator<'static>>)>) -> Option<(ValType, bool, Option<Op>)> {
    match item {
        Some((ty, mutable, init)) => Some((ty, mutable, first_op(init))),
        None => None,
    }
}

/// Reads a global section by `GlobalSectionReader`, and the first operator of each
/// initial value by `OperatorsReader::read`.
#[verifier::external_body]
pub(crate) fn read_globals(wasm: &[u8], at: usize) -> (r: Vec<Option<(ValType, bool, Option<Operator<'_>>)>>)
    ensures
        r@.map_values(|i: Option<(ValType, bool, Option<Operator<'_>>)>| global_item(i)) == global_items(wasm@, at as nat),
{
    match Parser::new(0).parse_all(wasm).nth(at) {
        Some(Ok(Payload::GlobalSection(items))) => items.into_iter().map(|item| item.ok().map(|g| {
            (g.ty.content_type, g.ty.mutable, g.init_expr.get_operators_reader().read().ok())
        })).collect(),
        _ => Vec::new(),
    }
}

/// The exports of payload `at`: name and index of those that are functions.
pub uninterp spec fn export_items(wasm: Seq<u8>, at: nat) -> Seq<Option<Option<(Seq<char>, u32)>>>;

pub open spec fn export_item(item: Option<Option<(String, u32)>>) -> Option<Option<(Seq<char>, u32)>> {
    match item {
        Some(Some((name, idx))) => Some(Some((name@, idx))),
        Some(None) => Some(None),
        None => None,
    }
}

pub open spec fn export_views(items: Seq<Option<Option<(String, u32)>>>) -> Seq<Option<Option<(Seq<char>, u32)>>> {
    Seq::new(items.len(), |i: int| export_item(items[i]))
}

/// Reads an export section by `ExportSectionReader`.
#[verifier::external_body]
pub(crate) fn read_exports(wasm: &[u8], at: usize) -> (r: Vec<Option<Option<(String, u32)>>>)
    ensures
        export_views(r@) == export_items(wasm@, at as nat),
{
    match Parser::new(0).parse_all(wasm).nth(at) {
        Some(Ok(Payload::ExportSection(items))) => items.into_iter().map(|item| item.ok().map(|e| match e.kind {
            ExternalKind::Func => Some((e.name.to_string(), e.index)),
            _ => None,
        })).collect(),
        _ => Vec::new(),
    }
}

/// The active element segments of payload `at`: the table's index where it is
/// given, the first operator of the offset, and the function indices (`Ok`) or the
/// first operators of the element expressions (`Err`).
pub uninterp spec fn element_items(wasm: Seq<u8>, at: nat) -> Seq<Option<Option<(Option<u32>, Option<Op>, Seq<Option<Result<u32, Option<Op>>>>)>>>;

pub open spec fn element_entry(e: Option<Result<u32, Option<Operator<'static>>>>) -> Option<Result<u32, Option<Op>>> {
    match e {
        Some(Ok(f)) => Some(Ok(f)),
        Some(Err(o)) => Some(Err(first_op(o))),
        None => None,
    }
}

pub open spec fn element_item(
    item: Option<Option<(Option<u32>, Option<Operator<'static>>, Vec<Option<Result<u32, Option<Operator<'static>>>>>)>>,
) -> Option<Option<(Option<u32>, Option<Op>, Seq<Option<Result<u32, Option<Op>>>>)>> {
    match item {
        Some(Some((table, offset, entries))) => Some(
            Some(
                (
                    table,
                    first_op(offset),
                    entries@.map_values(|e: Option<Result<u32, Option<Operator<'static>>>>| element_entry(e)),
                ),
            ),
        ),
        Some(None) => Some(None),
        None => None,
    }
}

/// Reads an element section by `ElementSectionReader`, and the first operators of
/// the constant expressions by `OperatorsReader::read`.
#[verifier::external_body]
pub(crate) fn read_elements(wasm: &[u8], at: usize) -> (r: Vec<
    Option<Option<(Option<u32>, Option<Operator<'_>>, Vec<Option<Result<u32, Option<Operator<'_>>>>>)>>,
>)
    ensures
        r@.map_values(|i: Option<Option<(Option<u32>, Option<Operator<'_>>, Vec<Option<Result<u32, Option<Operator<'_>>>>>)>>| element_item(i))
            == element_items(wasm@, at as nat),
{
    match Parser::new(0).parse_all(wasm).nth(at) {
        Some(Ok(Payload::ElementSection(items))) => items.into_iter().map(|item| item.ok().map(|e| match e.kind {
            ElementKind::Active { table_index, offset_expr } => Some((table_index, offset_expr.get_operators_reader().read().ok(), match e.items {
                ElementItems::Functions(fs) => fs.into_iter().map(|f| f.ok().map(Ok)).collect(),
                ElementItems::Expressions(_, es) => es.into_iter().map(|x| Some(Err(x.ok()?.get_operators_reader().read().ok()))).collect()
            })),
            _ => None
        })).collect(),
        _ => vec![]
    }
}

/// The active data segments of payload `at`: the first operator of the offset, and
/// the bytes.
pub uninterp spec fn data_items(wasm: Seq<u8>, at: nat) -> Seq<Option<Option<(Option<Op>, Seq<u8>)>>>;

pub open spec fn data_item(item: Option<Option<(Option<Operator<'static>>, Vec<u8>)>>) -> Option<Option<(Option<Op>, Seq<u8>)>> {
    match item {
        Some(Some((offset, bytes))) => Some(Some((first_op(offset), bytes@))),
        Some(None) => Some(None),
        None => None,
    }
}

/// Reads a data section by `DataSectionReader`, and the first operators of the
/// offsets by `OperatorsReader::read`.
#[verifier::external_body]
pub(crate) fn read_data(wasm: &[u8], at: usize) -> (r: Vec<Option<Option<(Option<Operator<'_>>, Vec<u8>)>>>)
    ensures
        r@.map_values(|i: Option<Option<(Option<Operator<'_>>, Vec<u8>)>>| data_item(i)) == data_items(wasm@, at as nat),
{
    match Parser::new(0).parse_all(wasm).nth(at) {
        Some(Ok(Payload::DataSection(items))) => items.into_iter().map(|item| item.ok().map(|d| match d.kind {
            DataKind::Active { offset_expr, .. } => Some((offset_expr.get_operators_reader().read().ok(), d.data.to_vec())),
            _ => None,
        })).collect(),
        _ => Vec::new(),
    }
}

/// Whether payload `at` is a function body, and then the declared locals, in runs
/// of one type; `Some(None)` where the declaration cannot be read.
pub uninterp spec fn code_locals(wasm: Seq<u8>, at: nat) -> Option<Option<Seq<Option<(u32, ValType)>>>>;

/// Reads the locals of a function body by `FunctionBody::get_locals_reader`.
#[verifier::external_body]
pub(crate) fn read_code_locals(wasm: &[u8], at: usize) -> (r: Option<Option<Vec<Option<(u32, ValType)>>>>)
    ensures
        match (r, code_locals(wasm@, at as nat)) {
            (Some(Some(v)), Some(Some(s))) => v@ == s,
            (Some(None), Some(None)) => true,
            (None, None) => true,
            _ => false,
        },
{
    match Parser::new(0).parse_all(wasm).nth(at) {
        Some(Ok(Payload::CodeSectionEntry(body))) => {
            Some(body.get_locals_reader().ok().map(|locals| locals.into_iter().map(|l| l.ok()).collect()))
        }
        _ => None,
    }
}

/// The operators of the function body that payload `at` is; `None` where the
/// operators cannot be found.
pub uninterp spec fn code_ops(wasm: Seq<u8>, at: nat) -> Option<Seq<Option<Op>>>;

/// Reads the operators of a function body by `FunctionBody::get_operators_reader`.
#[verifier::external_body]
pub(crate) fn read_code_ops(wasm: &[u8], at: usize) -> (r: Option<Vec<Option<Operator<'_>>>>)
    ensures
        match (r, code_ops(wasm@, at as nat)) {
            (Some(v), Some(s)) => v@.map_values(|o: Option<Operator<'_>>| first_op(o)) == s,
            (None, None) => true,
            _ => false,
        },
{
    match Parser::new(0).parse_all(wasm).nth(at) {
        Some(Ok(Payload::CodeSectionEntry(body))) => {
            Some(body.get_operators_reader().ok()?.into_iter().map(|o| o.ok()).collect())
        }
        _ => None,
    }
}

} // verus!
