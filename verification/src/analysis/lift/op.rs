//! The wasm operators that the interpreter tells apart.
use vstd::prelude::*;
use wasmparser::{BlockType, Operator};

verus! {

#[verifier::external_type_specification]
#[verifier::external_body]
pub struct ExOperator<'a>(Operator<'a>);

/// What a structured block takes and gives.
#[derive(Debug, Clone, Copy, PartialEq, Eq, Structural)]
pub enum BlockShape {
    Empty,
    /// One result.
    Operand,
    /// As the function type with this index says.
    Func(u32),
}

/// An operation on one or two integers of the same width.
#[derive(Debug, Clone, Copy, PartialEq, Eq, Structural)]
pub enum IntOp {
    Add,
    Sub,
    Mul,
    DivU,
    RemU,
    DivS,
    RemS,
    And,
    Or,
    Xor,
    Shl,
    ShrU,
    ShrS,
    Rotl,
    Rotr,
    Eqz,
    Eq,
    Ne,
    LtU,
    LtS,
    GtU,
    GtS,
    LeU,
    LeS,
    GeU,
    GeS,
    Clz,
    Ctz,
    Popcnt,
}

/// A change of width.
#[derive(Debug, Clone, Copy, PartialEq, Eq, Structural)]
pub enum Conversion {
    I32WrapI64,
    I64ExtendI32U,
    I64ExtendI32S,
    I32Extend8S,
    I32Extend16S,
    I64Extend8S,
    I64Extend16S,
    I64Extend32S,
}

/// A load from memory.
#[derive(Debug, Clone, Copy, PartialEq, Eq, Structural)]
pub enum LoadOp {
    I32Load,
    I32Load8U,
    I32Load8S,
    I32Load16U,
    I32Load16S,
    I64Load,
    I64Load8U,
    I64Load8S,
    I64Load16U,
    I64Load16S,
    I64Load32U,
    I64Load32S,
}

/// A store to memory.
#[derive(Debug, Clone, Copy, PartialEq, Eq, Structural)]
pub enum StoreOp {
    I32Store,
    I32Store8,
    I32Store16,
    I64Store,
    I64Store8,
    I64Store16,
    I64Store32,
}

/// An operator. Those that the interpreter does not know are `Other`.
#[derive(Debug, Clone, PartialEq, Eq)]
pub enum Op {
    Unreachable,
    Nop,
    Block(BlockShape),
    Loop(BlockShape),
    If(BlockShape),
    Else,
    End,
    Br(u32),
    BrIf(u32),
    /// The targets, as far as they can be read, and the default target.
    BrTable(Vec<Option<u32>>, u32),
    Return,
    Call(u32),
    /// A call through the table of a function of the type with this index.
    CallIndirect(u32),
    Drop,
    Select,
    LocalGet(u32),
    LocalSet(u32),
    LocalTee(u32),
    GlobalGet(u32),
    GlobalSet(u32),
    I32Const(i32),
    I64Const(i64),
    RefFunc(u32),
    /// A load at an offset.
    Load(LoadOp, u64),
    /// A store at an offset.
    Store(StoreOp, u64),
    MemorySize,
    MemoryGrow,
    MemoryCopy,
    MemoryFill,
    I32(IntOp),
    I64(IntOp),
    Convert(Conversion),
    Other,
}

/// The operator that a decoded `wasmparser::Operator` is: the variant of the same
/// name with the same immediates, `Other` where there is none. The two widths of
/// an integer operation are told apart by `I32` and `I64`.
pub uninterp spec fn op_of(o: Operator<'static>) -> Op;

/// A block or a loop.
pub open spec fn opens_plain(op: Op) -> bool {
    op is Block || op is Loop
}

/// The blocks and loops among the variants of `wasmparser::Operator`, with their block types.
#[verifier::external_body]
fn plain_block_op(o: &Operator<'_>) -> (r: Option<Op>)
    ensures
        r matches Some(op) ==> op == op_of(*o) && opens_plain(op),
        r is None ==> !opens_plain(op_of(*o)),
{
    match o {
        Operator::Block { blockty: BlockType::Empty } => Some(Op::Block(BlockShape::Empty)),
        Operator::Block { blockty: BlockType::Type(_) } => Some(Op::Block(BlockShape::Operand)),
        Operator::Block { blockty: BlockType::FuncType(t) } => Some(Op::Block(BlockShape::Func(*t))),
        Operator::Loop { blockty: BlockType::Empty } => Some(Op::Loop(BlockShape::Empty)),
        Operator::Loop { blockty: BlockType::Type(_) } => Some(Op::Loop(BlockShape::Operand)),
        Operator::Loop { blockty: BlockType::FuncType(t) } => Some(Op::Loop(BlockShape::Func(*t))),
        _ => None,
    }
}

/// A conditional block.
pub open spec fn opens_if(op: Op) -> bool {
    op is If
}

/// The conditional blocks among the variants of `wasmparser::Operator`.
#[verifier::external_body]
fn if_op(o: &Operator<'_>) -> (r: Option<Op>)
    ensures
        r matches Some(op) ==> op == op_of(*o) && opens_if(op),
        r is None ==> !opens_if(op_of(*o)),
{
    match o {
        Operator::If { blockty: BlockType::Empty } => Some(Op::If(BlockShape::Empty)),
        Operator::If { blockty: BlockType::Type(_) } => Some(Op::If(BlockShape::Operand)),
        Operator::If { blockty: BlockType::FuncType(t) } => Some(Op::If(BlockShape::Func(*t))),
        _ => None,
    }
}

/// Control flow without blocks and tables, and what only moves the stack.
pub open spec fn is_flow(op: Op) -> bool {
    op is Unreachable || op is Nop || op is Else || op is End || op is Br || op is BrIf || op is Return
        || op is Call || op is CallIndirect || op is Drop || op is Select
}

/// The control flow among the variants of `wasmparser::Operator`. Both selects are one.
#[verifier::external_body]
fn flow_op(o: &Operator<'_>) -> (r: Option<Op>)
    ensures
        r matches Some(op) ==> op == op_of(*o) && is_flow(op),
        r is None ==> !is_flow(op_of(*o)),
{
    match o {
        Operator::Unreachable => Some(Op::Unreachable), Operator::Nop => Some(Op::Nop),
        Operator::Else => Some(Op::Else), Operator::End => Some(Op::End),
        Operator::Br { relative_depth } => Some(Op::Br(*relative_depth)),
        Operator::BrIf { relative_depth } => Some(Op::BrIf(*relative_depth)),
        Operator::Return => Some(Op::Return),
        Operator::Call { function_index } => Some(Op::Call(*function_index)),
        Operator::CallIndirect { type_index, .. } => Some(Op::CallIndirect(*type_index)),
        Operator::Drop => Some(Op::Drop), Operator::Select => Some(Op::Select),
        Operator::TypedSelect { .. } => Some(Op::Select),
        _ => None,
    }
}

/// A branch table.
pub open spec fn is_table(op: Op) -> bool {
    op is BrTable
}

/// The branch table of `wasmparser::Operator`, its targets read by `BrTable::targets`.
#[verifier::external_body]
fn table_op(o: &Operator<'_>) -> (r: Option<Op>)
    ensures
        r matches Some(op) ==> op == op_of(*o) && is_table(op),
        r is None ==> !is_table(op_of(*o)),
{
    match o {
        Operator::BrTable { targets } => Some(Op::BrTable(targets.targets().map(|t| t.ok()).collect(), targets.default())),
        _ => None,
    }
}

/// Variables and constants.
pub open spec fn is_datum(op: Op) -> bool {
    op is LocalGet || op is LocalSet || op is LocalTee || op is GlobalGet || op is GlobalSet
        || op is I32Const || op is I64Const || op is RefFunc
}

/// The variables and constants among the variants of `wasmparser::Operator`.
#[verifier::external_body]
fn datum_op(o: &Operator<'_>) -> (r: Option<Op>)
    ensures
        r matches Some(op) ==> op == op_of(*o) && is_datum(op),
        r is None ==> !is_datum(op_of(*o)),
{
    match o {
        Operator::LocalGet { local_index } => Some(Op::LocalGet(*local_index)),
        Operator::LocalSet { local_index } => Some(Op::LocalSet(*local_index)),
        Operator::LocalTee { local_index } => Some(Op::LocalTee(*local_index)),
        Operator::GlobalGet { global_index } => Some(Op::GlobalGet(*global_index)),
        Operator::GlobalSet { global_index } => Some(Op::GlobalSet(*global_index)),
        Operator::I32Const { value } => Some(Op::I32Const(*value)),
        Operator::I64Const { value } => Some(Op::I64Const(*value)),
        Operator::RefFunc { function_index } => Some(Op::RefFunc(*function_index)),
        _ => None,
    }
}

/// A load of a 32-bit value.
pub open spec fn is_load32(op: Op) -> bool {
    op matches Op::Load(k, _) && (k is I32Load || k is I32Load8U || k is I32Load8S || k is I32Load16U || k is I32Load16S)
}

/// The 32-bit loads among the variants of `wasmparser::Operator`.
#[verifier::external_body]
fn load32_op(o: &Operator<'_>) -> (r: Option<Op>)
    ensures
        r matches Some(op) ==> op == op_of(*o) && is_load32(op),
        r is None ==> !is_load32(op_of(*o)),
{
    match o {
        Operator::I32Load { memarg } => Some(Op::Load(LoadOp::I32Load, memarg.offset)),
        Operator::I32Load8U { memarg } => Some(Op::Load(LoadOp::I32Load8U, memarg.offset)),
        Operator::I32Load8S { memarg } => Some(Op::Load(LoadOp::I32Load8S, memarg.offset)),
        Operator::I32Load16U { memarg } => Some(Op::Load(LoadOp::I32Load16U, memarg.offset)),
        Operator::I32Load16S { memarg } => Some(Op::Load(LoadOp::I32Load16S, memarg.offset)),
        _ => None,
    }
}

/// A load of a 64-bit value.
pub open spec fn is_load64(op: Op) -> bool {
    op matches Op::Load(k, _) && (k is I64Load || k is I64Load8U || k is I64Load8S || k is I64Load16U || k is I64Load16S || k is I64Load32U || k is I64Load32S)
}

/// The 64-bit loads among the variants of `wasmparser::Operator`.
#[verifier::external_body]
fn load64_op(o: &Operator<'_>) -> (r: Option<Op>)
    ensures
        r matches Some(op) ==> op == op_of(*o) && is_load64(op),
        r is None ==> !is_load64(op_of(*o)),
{
    match o {
        Operator::I64Load { memarg } => Some(Op::Load(LoadOp::I64Load, memarg.offset)),
        Operator::I64Load8U { memarg } => Some(Op::Load(LoadOp::I64Load8U, memarg.offset)),
        Operator::I64Load8S { memarg } => Some(Op::Load(LoadOp::I64Load8S, memarg.offset)),
        Operator::I64Load16U { memarg } => Some(Op::Load(LoadOp::I64Load16U, memarg.offset)),
        Operator::I64Load16S { memarg } => Some(Op::Load(LoadOp::I64Load16S, memarg.offset)),
        Operator::I64Load32U { memarg } => Some(Op::Load(LoadOp::I64Load32U, memarg.offset)),
        Operator::I64Load32S { memarg } => Some(Op::Load(LoadOp::I64Load32S, memarg.offset)),
        _ => None,
    }
}

/// A store.
pub open spec fn is_store(op: Op) -> bool {
    op is Store
}

/// The stores among the variants of `wasmparser::Operator`.
#[verifier::external_body]
fn store_op(o: &Operator<'_>) -> (r: Option<Op>)
    ensures
        r matches Some(op) ==> op == op_of(*o) && is_store(op),
        r is None ==> !is_store(op_of(*o)),
{
    match o {
        Operator::I32Store { memarg } => Some(Op::Store(StoreOp::I32Store, memarg.offset)),
        Operator::I32Store8 { memarg } => Some(Op::Store(StoreOp::I32Store8, memarg.offset)),
        Operator::I32Store16 { memarg } => Some(Op::Store(StoreOp::I32Store16, memarg.offset)),
        Operator::I64Store { memarg } => Some(Op::Store(StoreOp::I64Store, memarg.offset)),
        Operator::I64Store8 { memarg } => Some(Op::Store(StoreOp::I64Store8, memarg.offset)),
        Operator::I64Store16 { memarg } => Some(Op::Store(StoreOp::I64Store16, memarg.offset)),
        Operator::I64Store32 { memarg } => Some(Op::Store(StoreOp::I64Store32, memarg.offset)),
        _ => None,
    }
}

/// An operation on the whole memory.
pub open spec fn is_memory(op: Op) -> bool {
    op is MemorySize || op is MemoryGrow || op is MemoryCopy || op is MemoryFill
}

/// The memory operations among the variants of `wasmparser::Operator`.
#[verifier::external_body]
fn memory_op(o: &Operator<'_>) -> (r: Option<Op>)
    ensures
        r matches Some(op) ==> op == op_of(*o) && is_memory(op),
        r is None ==> !is_memory(op_of(*o)),
{
    match o {
        Operator::MemorySize { .. } => Some(Op::MemorySize),
        Operator::MemoryGrow { .. } => Some(Op::MemoryGrow),
        Operator::MemoryCopy { .. } => Some(Op::MemoryCopy),
        Operator::MemoryFill { .. } => Some(Op::MemoryFill),
        _ => None,
    }
}

/// Sums, products, quotients and conjunctions of 32 bits.
pub open spec fn is_ring32(op: Op) -> bool {
    op matches Op::I32(k) && (k is Add || k is Sub || k is Mul || k is DivU || k is RemU || k is DivS || k is RemS || k is And)
}

/// The 32-bit sums, products, quotients and conjunctions among the variants of `wasmparser::Operator`.
#[verifier::external_body]
fn ring32_op(o: &Operator<'_>) -> (r: Option<Op>)
    ensures
        r matches Some(op) ==> op == op_of(*o) && is_ring32(op),
        r is None ==> !is_ring32(op_of(*o)),
{
    match o {
        Operator::I32Add => Some(Op::I32(IntOp::Add)),
        Operator::I32Sub => Some(Op::I32(IntOp::Sub)),
        Operator::I32Mul => Some(Op::I32(IntOp::Mul)),
        Operator::I32DivU => Some(Op::I32(IntOp::DivU)),
        Operator::I32RemU => Some(Op::I32(IntOp::RemU)),
        Operator::I32DivS => Some(Op::I32(IntOp::DivS)),
        Operator::I32RemS => Some(Op::I32(IntOp::RemS)),
        Operator::I32And => Some(Op::I32(IntOp::And)),
        _ => None,
    }
}

/// Bit operations and shifts of 32 bits.
pub open spec fn is_bits32(op: Op) -> bool {
    op matches Op::I32(k) && (k is Or || k is Xor || k is Shl || k is ShrU || k is ShrS || k is Rotl || k is Rotr)
}

/// The 32-bit bit operations and shifts among the variants of `wasmparser::Operator`.
#[verifier::external_body]
fn bits32_op(o: &Operator<'_>) -> (r: Option<Op>)
    ensures
        r matches Some(op) ==> op == op_of(*o) && is_bits32(op),
        r is None ==> !is_bits32(op_of(*o)),
{
    match o {
        Operator::I32Or => Some(Op::I32(IntOp::Or)),
        Operator::I32Xor => Some(Op::I32(IntOp::Xor)),
        Operator::I32Shl => Some(Op::I32(IntOp::Shl)),
        Operator::I32ShrU => Some(Op::I32(IntOp::ShrU)),
        Operator::I32ShrS => Some(Op::I32(IntOp::ShrS)),
        Operator::I32Rotl => Some(Op::I32(IntOp::Rotl)),
        Operator::I32Rotr => Some(Op::I32(IntOp::Rotr)),
        _ => None,
    }
}

/// Tests of 32 bits.
pub open spec fn is_test32(op: Op) -> bool {
    op matches Op::I32(k) && (k is Eqz || k is Eq || k is Ne || k is LtU || k is LtS || k is GtU || k is GtS || k is LeU || k is LeS || k is GeU || k is GeS)
}

/// The 32-bit tests among the variants of `wasmparser::Operator`.
#[verifier::external_body]
fn test32_op(o: &Operator<'_>) -> (r: Option<Op>)
    ensures
        r matches Some(op) ==> op == op_of(*o) && is_test32(op),
        r is None ==> !is_test32(op_of(*o)),
{
    match o {
        Operator::I32Eqz => Some(Op::I32(IntOp::Eqz)),
        Operator::I32Eq => Some(Op::I32(IntOp::Eq)),
        Operator::I32Ne => Some(Op::I32(IntOp::Ne)),
        Operator::I32LtU => Some(Op::I32(IntOp::LtU)),
        Operator::I32LtS => Some(Op::I32(IntOp::LtS)),
        Operator::I32GtU => Some(Op::I32(IntOp::GtU)),
        Operator::I32GtS => Some(Op::I32(IntOp::GtS)),
        Operator::I32LeU => Some(Op::I32(IntOp::LeU)),
        Operator::I32LeS => Some(Op::I32(IntOp::LeS)),
        Operator::I32GeU => Some(Op::I32(IntOp::GeU)),
        Operator::I32GeS => Some(Op::I32(IntOp::GeS)),
        _ => None,
    }
}

/// Bit counts of 32 bits.
pub open spec fn is_count32(op: Op) -> bool {
    op matches Op::I32(k) && (k is Clz || k is Ctz || k is Popcnt)
}

/// The 32-bit bit counts among the variants of `wasmparser::Operator`.
#[verifier::external_body]
fn count32_op(o: &Operator<'_>) -> (r: Option<Op>)
    ensures
        r matches Some(op) ==> op == op_of(*o) && is_count32(op),
        r is None ==> !is_count32(op_of(*o)),
{
    match o {
        Operator::I32Clz => Some(Op::I32(IntOp::Clz)),
        Operator::I32Ctz => Some(Op::I32(IntOp::Ctz)),
        Operator::I32Popcnt => Some(Op::I32(IntOp::Popcnt)),
        _ => None,
    }
}

/// Sums, products, quotients and conjunctions of 64 bits.
pub open spec fn is_ring64(op: Op) -> bool {
    op matches Op::I64(k) && (k is Add || k is Sub || k is Mul || k is DivU || k is RemU || k is DivS || k is RemS || k is And)
}

/// The 64-bit sums, products, quotients and conjunctions among the variants of `wasmparser::Operator`.
#[verifier::external_body]
fn ring64_op(o: &Operator<'_>) -> (r: Option<Op>)
    ensures
        r matches Some(op) ==> op == op_of(*o) && is_ring64(op),
        r is None ==> !is_ring64(op_of(*o)),
{
    match o {
        Operator::I64Add => Some(Op::I64(IntOp::Add)),
        Operator::I64Sub => Some(Op::I64(IntOp::Sub)),
        Operator::I64Mul => Some(Op::I64(IntOp::Mul)),
        Operator::I64DivU => Some(Op::I64(IntOp::DivU)),
        Operator::I64RemU => Some(Op::I64(IntOp::RemU)),
        Operator::I64DivS => Some(Op::I64(IntOp::DivS)),
        Operator::I64RemS => Some(Op::I64(IntOp::RemS)),
        Operator::I64And => Some(Op::I64(IntOp::And)),
        _ => None,
    }
}

/// Bit operations and shifts of 64 bits.
pub open spec fn is_bits64(op: Op) -> bool {
    op matches Op::I64(k) && (k is Or || k is Xor || k is Shl || k is ShrU || k is ShrS || k is Rotl || k is Rotr)
}

/// The 64-bit bit operations and shifts among the variants of `wasmparser::Operator`.
#[verifier::external_body]
fn bits64_op(o: &Operator<'_>) -> (r: Option<Op>)
    ensures
        r matches Some(op) ==> op == op_of(*o) && is_bits64(op),
        r is None ==> !is_bits64(op_of(*o)),
{
    match o {
        Operator::I64Or => Some(Op::I64(IntOp::Or)),
        Operator::I64Xor => Some(Op::I64(IntOp::Xor)),
        Operator::I64Shl => Some(Op::I64(IntOp::Shl)),
        Operator::I64ShrU => Some(Op::I64(IntOp::ShrU)),
        Operator::I64ShrS => Some(Op::I64(IntOp::ShrS)),
        Operator::I64Rotl => Some(Op::I64(IntOp::Rotl)),
        Operator::I64Rotr => Some(Op::I64(IntOp::Rotr)),
        _ => None,
    }
}

/// Tests of 64 bits.
pub open spec fn is_test64(op: Op) -> bool {
    op matches Op::I64(k) && (k is Eqz || k is Eq || k is Ne || k is LtU || k is LtS || k is GtU || k is GtS || k is LeU || k is LeS || k is GeU || k is GeS)
}

/// The 64-bit tests among the variants of `wasmparser::Operator`.
#[verifier::external_body]
fn test64_op(o: &Operator<'_>) -> (r: Option<Op>)
    ensures
        r matches Some(op) ==> op == op_of(*o) && is_test64(op),
        r is None ==> !is_test64(op_of(*o)),
{
    match o {
        Operator::I64Eqz => Some(Op::I64(IntOp::Eqz)),
        Operator::I64Eq => Some(Op::I64(IntOp::Eq)),
        Operator::I64Ne => Some(Op::I64(IntOp::Ne)),
        Operator::I64LtU => Some(Op::I64(IntOp::LtU)),
        Operator::I64LtS => Some(Op::I64(IntOp::LtS)),
        Operator::I64GtU => Some(Op::I64(IntOp::GtU)),
        Operator::I64GtS => Some(Op::I64(IntOp::GtS)),
        Operator::I64LeU => Some(Op::I64(IntOp::LeU)),
        Operator::I64LeS => Some(Op::I64(IntOp::LeS)),
        Operator::I64GeU => Some(Op::I64(IntOp::GeU)),
        Operator::I64GeS => Some(Op::I64(IntOp::GeS)),
        _ => None,
    }
}

/// Bit counts of 64 bits.
pub open spec fn is_count64(op: Op) -> bool {
    op matches Op::I64(k) && (k is Clz || k is Ctz || k is Popcnt)
}

/// The 64-bit bit counts among the variants of `wasmparser::Operator`.
#[verifier::external_body]
fn count64_op(o: &Operator<'_>) -> (r: Option<Op>)
    ensures
        r matches Some(op) ==> op == op_of(*o) && is_count64(op),
        r is None ==> !is_count64(op_of(*o)),
{
    match o {
        Operator::I64Clz => Some(Op::I64(IntOp::Clz)),
        Operator::I64Ctz => Some(Op::I64(IntOp::Ctz)),
        Operator::I64Popcnt => Some(Op::I64(IntOp::Popcnt)),
        _ => None,
    }
}

/// A change of width.
pub open spec fn is_convert(op: Op) -> bool {
    op is Convert
}

/// The changes of width among the variants of `wasmparser::Operator`.
#[verifier::external_body]
fn convert_op(o: &Operator<'_>) -> (r: Option<Op>)
    ensures
        r matches Some(op) ==> op == op_of(*o) && is_convert(op),
        r is None ==> !is_convert(op_of(*o)),
{
    match o {
        Operator::I32WrapI64 => Some(Op::Convert(Conversion::I32WrapI64)),
        Operator::I64ExtendI32U => Some(Op::Convert(Conversion::I64ExtendI32U)),
        Operator::I64ExtendI32S => Some(Op::Convert(Conversion::I64ExtendI32S)),
        Operator::I32Extend8S => Some(Op::Convert(Conversion::I32Extend8S)),
        Operator::I32Extend16S => Some(Op::Convert(Conversion::I32Extend16S)),
        Operator::I64Extend8S => Some(Op::Convert(Conversion::I64Extend8S)),
        Operator::I64Extend16S => Some(Op::Convert(Conversion::I64Extend16S)),
        Operator::I64Extend32S => Some(Op::Convert(Conversion::I64Extend32S)),
        _ => None,
    }
}

/// The operator that a decoded operator is.
pub(crate) fn read_op(o: &Operator<'_>) -> (r: Op)
    ensures
        r == op_of(*o),
{
    if let Some(op) = plain_block_op(o) {
        return op;
    }
    if let Some(op) = if_op(o) {
        return op;
    }
    if let Some(op) = flow_op(o) {
        return op;
    }
    if let Some(op) = table_op(o) {
        return op;
    }
    if let Some(op) = datum_op(o) {
        return op;
    }
    if let Some(op) = load32_op(o) {
        return op;
    }
    if let Some(op) = load64_op(o) {
        return op;
    }
    if let Some(op) = store_op(o) {
        return op;
    }
    if let Some(op) = memory_op(o) {
        return op;
    }
    if let Some(op) = ring32_op(o) {
        return op;
    }
    if let Some(op) = bits32_op(o) {
        return op;
    }
    if let Some(op) = test32_op(o) {
        return op;
    }
    if let Some(op) = count32_op(o) {
        return op;
    }
    if let Some(op) = ring64_op(o) {
        return op;
    }
    if let Some(op) = bits64_op(o) {
        return op;
    }
    if let Some(op) = test64_op(o) {
        return op;
    }
    if let Some(op) = count64_op(o) {
        return op;
    }
    if let Some(op) = convert_op(o) {
        return op;
    }
    Op::Other
}

} // verus!
