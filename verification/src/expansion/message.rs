//! The `AlkabiMessage` derive: `MessageDispatch` (dispatch + calldata decoding + alkabi
//! ABI export) for a contract message enum.
//!
//! Variant attributes:
//!   - `#[opcode(n)]` (required): the u128 opcode.
//!   - `#[view]`: marks the method read-only (simulate); default is execute.
//!   - `#[borsh]`: the variant carries exactly one field, a borsh params struct
//!     decoded from the word-packed calldata. The handler receives it by reference.
//!   - `#[witness(T)]`: a borsh payload carried in the reveal transaction's
//!     witness envelope. alkabi fetches and decodes it; the handler receives
//!     it as a trailing `&T` argument.
//!   - `#[returns(T)]` / `#[returns(T, U)]`: raw-mode return (LE integers,
//!     bare UTF-8 strings, `Vec<u8>` bytes; tuples become `_0`/`_1` structs).
//!   - `#[returns(borsh(T))]`: the response data is a borsh-serialized `T`.
//!
//! Enum attribute:
//!   - `#[alkabi(contract = Type)]`: the responder type. Defaults to the enum
//!     name with a trailing `Message` stripped.
use vstd::prelude::*;
use crate::casing;
use crate::casing::{to_lower_camel_case, to_snake_case};
use crate::expansion;
use crate::expansion::decl;
use crate::expansion::decl::{ItemBody, ItemDecl, ReturnsModel, ReturnsSpec, TypeDecl, TypeModel, VariantDecl, VariantDeclModel};
use crate::expansion::variant;
use crate::expansion::variant::{parse_variant, VariantError, VariantFields, VariantFieldsModel, VariantInfo, VariantModel};
use crate::expansion::{fields_of, push_collect, push_field, reference_of, struct_of};
use crate::extract::upstream;
use crate::text;
use crate::text::{chars_of, copy_text, push_char, push_decimal, text_of};

verus! {

/// Why no impl comes of an item.
#[derive(Debug, Clone, Copy, PartialEq, Eq, Structural)]
pub enum MessageError {
    /// AlkabiMessage can only be derived for enums.
    NotEnum,
    /// Cannot infer contract type; use #[alkabi(contract = TypeName)].
    Contract,
    /// This variant is refused.
    Variant(usize, VariantError),
    /// The opcode of this variant is that of one before it.
    DuplicateOpcode(usize),
}

/* ─────────────── what is accepted ─────────────── */

/// The contract type: the one declared, or the name without a trailing `Message`.
pub open spec fn contract_name(declared: Option<Seq<char>>, ident: Seq<char>) -> Option<Seq<char>> {
    match declared {
        Some(name) => Some(name),
        None => {
            let suffix = "Message"@;
            let stripped = if ident.len() >= suffix.len() && ident.skip(ident.len() - suffix.len()) == suffix {
                ident.take(ident.len() - suffix.len())
            } else {
                ident
            };
            if stripped.len() == 0 {
                None
            } else {
                Some(stripped)
            }
        }
    }
}

/// The first `n` variants, if none of them is refused.
pub open spec fn accepted_variants(ds: Seq<VariantDeclModel>, n: nat) -> Result<Seq<VariantModel>, MessageError>
    decreases n,
{
    if n == 0 || n > ds.len() {
        Ok(Seq::empty())
    } else {
        match accepted_variants(ds, (n - 1) as nat) {
            Err(e) => Err(e),
            Ok(vs) => match variant::accepted(ds[n - 1]) {
                Err(e) => Err(MessageError::Variant((n - 1) as usize, e)),
                Ok(v) => Ok(vs.push(v)),
            },
        }
    }
}

/// Whether the opcode of variant `i` is that of one before it.
pub open spec fn opcode_taken(vs: Seq<VariantModel>, i: int) -> bool {
    exists|j: int| 0 <= j < i && (#[trigger] vs[j]).opcode == vs[i].opcode
}

/// The first variant, from a place on, whose opcode is that of one before it.
pub open spec fn first_taken(vs: Seq<VariantModel>, from: nat) -> Option<int>
    decreases vs.len() - from,
{
    if from >= vs.len() {
        None
    } else if opcode_taken(vs, from as int) {
        Some(from as int)
    } else {
        first_taken(vs, from + 1)
    }
}

/// The contract type and the variants of an item, if it is accepted.
pub open spec fn accepted_item(declared: Option<Seq<char>>, ident: Seq<char>, body: decl::BodyModel) -> Result<
    (Seq<char>, Seq<VariantModel>),
    MessageError,
> {
    match body {
        decl::BodyModel::Enum(ds) => match contract_name(declared, ident) {
            None => Err(MessageError::Contract),
            Some(contract) => match accepted_variants(ds, ds.len()) {
                Err(e) => Err(e),
                Ok(vs) => match first_taken(vs, 0) {
                    Some(i) => Err(MessageError::DuplicateOpcode(i as usize)),
                    None => Ok((contract, vs)),
                },
            },
        },
        _ => Err(MessageError::NotEnum),
    }
}

/* ─────────────── what is written ─────────────── */

/// A literal of an opcode.
pub open spec fn opcode_text(opcode: u128) -> Seq<char> {
    text::decimal(opcode as int) + "u128"@
}

/// The names of the first `n` fields, with what stands behind each.
pub open spec fn names_text(fields: Seq<(Seq<char>, TypeModel)>, behind: Seq<char>, n: nat) -> Seq<char>
    decreases n,
{
    if n == 0 || n > fields.len() {
        Seq::empty()
    } else {
        names_text(fields, behind, (n - 1) as nat) + fields[n - 1].0 + behind
    }
}

pub open spec fn decode_text(name: Seq<char>, ty: Seq<char>) -> Seq<char> {
    "let "@ + name + " = <"@ + ty + " as ::alkabi::legacy::LegacyDecode>::decode(&mut __reader)?; "@
}

/// The decoding of the first `n` fields.
pub open spec fn decodes_text(fields: Seq<(Seq<char>, TypeModel)>, n: nat) -> Seq<char>
    decreases n,
{
    if n == 0 || n > fields.len() {
        Seq::empty()
    } else {
        decodes_text(fields, (n - 1) as nat) + decode_text(fields[n - 1].0, fields[n - 1].1.text)
    }
}

/// The arm that makes a variant of calldata packed by borsh.
pub open spec fn borsh_arm_text(opcode: u128, ty: Seq<char>, made: Seq<char>) -> Seq<char> {
    opcode_text(opcode) + " => { let __params: "@ + ty
        + " = ::alkabi::borsh_io::decode_words(&__macro_inputs)?; Ok(Self::"@ + made + ") } "@
}

/// The arm that makes a variant of legacy calldata.
pub open spec fn legacy_arm_text(opcode: u128, decodes: Seq<char>, ident: Seq<char>, names: Seq<char>) -> Seq<char> {
    opcode_text(opcode) + " => { let mut __reader = ::alkabi::legacy::LegacyReader::new(&__macro_inputs); "@ + decodes
        + "Ok(Self::"@ + ident + " { "@ + names + "}) } "@
}

/// The arm of `from_opcode` that makes a variant.
pub open spec fn from_opcode_text(v: VariantModel) -> Seq<char> {
    match v.fields {
        VariantFieldsModel::Unit => opcode_text(v.opcode) + " => Ok(Self::"@ + v.ident + "), "@,
        VariantFieldsModel::UnnamedSingle(ty) => borsh_arm_text(v.opcode, ty.text, v.ident + "(__params)"@),
        VariantFieldsModel::Named(named) => if v.is_borsh {
            borsh_arm_text(v.opcode, named[0].1.text, v.ident + " { "@ + named[0].0 + ": __params }"@)
        } else if named.len() == 0 {
            opcode_text(v.opcode) + " => Ok(Self::"@ + v.ident + " {}), "@
        } else {
            legacy_arm_text(v.opcode, decodes_text(named, named.len()), v.ident, names_text(named, ", "@, named.len()))
        },
    }
}

/// The pattern that a variant is matched by.
pub open spec fn pattern_text(v: VariantModel) -> Seq<char> {
    match v.fields {
        VariantFieldsModel::Unit => "Self::"@ + v.ident,
        VariantFieldsModel::UnnamedSingle(_) => "Self::"@ + v.ident + "(__params)"@,
        VariantFieldsModel::Named(named) => "Self::"@ + v.ident + " { "@ + names_text(named, ", "@, named.len()) + "}"@,
    }
}

/// The arguments that the handler of a variant gets of its fields: borsh params by
/// reference, legacy fields by value.
pub open spec fn args_text(v: VariantModel) -> Seq<char> {
    match v.fields {
        VariantFieldsModel::Unit => Seq::empty(),
        VariantFieldsModel::UnnamedSingle(_) => "__params, "@,
        VariantFieldsModel::Named(named) => names_text(
            named,
            if v.is_borsh { ", "@ } else { ".clone(), "@ },
            named.len(),
        ),
    }
}

/// What fetches the witness payload, and the argument it becomes.
pub open spec fn witness_text(w: Option<TypeModel>) -> (Seq<char>, Seq<char>) {
    match w {
        Some(ty) => (
            "let __witness: "@ + ty.text + " = ::alkabi::witness::decode_witness(responder)?; "@,
            "&__witness, "@,
        ),
        None => (Seq::empty(), Seq::empty()),
    }
}

/// The first `n` types, with commas between them.
pub open spec fn types_text(types: Seq<TypeModel>, n: nat) -> Seq<char>
    decreases n,
{
    if n == 0 || n > types.len() {
        Seq::empty()
    } else if n == 1 {
        types[0].text
    } else {
        types_text(types, (n - 1) as nat) + ", "@ + types[n - 1].text
    }
}

/// The declared return type, and the mode it is encoded in.
pub open spec fn return_text(returned: Option<ReturnsModel>) -> (Seq<char>, Seq<char>) {
    match returned {
        None => ("RawMode"@, "()"@),
        Some(ReturnsModel::Borsh(ty)) => ("BorshMode"@, ty.text),
        Some(ReturnsModel::Raw(types)) => (
            "RawMode"@,
            if types.len() == 1 { types[0].text } else { "("@ + types_text(types, types.len()) + ")"@ },
        ),
    }
}

/// The epilogue that routes the handler's result through `finish_return`.
pub open spec fn finish_text(returned: Option<ReturnsModel>) -> Seq<char> {
    let (mode, ty) = return_text(returned);
    "::alkabi::abi_return::finish_return::<_, ::alkabi::abi_return::"@ + mode + ", "@ + ty
        + ", _, _>(__result, responder)"@
}

/// The arm of `dispatch` that calls the handler of a variant.
pub open spec fn dispatch_text(v: VariantModel) -> Seq<char> {
    let (prelude, arg) = witness_text(v.witness);
    pattern_text(v) + " => { "@ + prelude + "let __result = responder."@ + casing::snake(v.ident, v.ident.len()) + "("@
        + args_text(v) + arg + ")?; "@ + finish_text(v.returned) + " } "@
}

/// The registration of the first `n` types.
pub open spec fn collects_text(types: Seq<TypeModel>, n: nat) -> Seq<char>
    decreases n,
{
    if n == 0 || n > types.len() {
        Seq::empty()
    } else {
        collects_text(types, (n - 1) as nat) + expansion::collect_text(types[n - 1].text, "&mut __reg"@)
    }
}

/// The types that a variant references, in the order of its fields, its witness and
/// its return.
pub open spec fn referenced(v: VariantModel) -> Seq<TypeModel> {
    field_types(v.fields) + witness_types(v.witness) + return_types(v.returned)
}

pub open spec fn field_types(fields: VariantFieldsModel) -> Seq<TypeModel> {
    match fields {
        VariantFieldsModel::Unit => Seq::empty(),
        VariantFieldsModel::Named(named) => Seq::new(named.len(), |i: int| named[i].1),
        VariantFieldsModel::UnnamedSingle(ty) => seq![ty],
    }
}

pub open spec fn witness_types(w: Option<TypeModel>) -> Seq<TypeModel> {
    match w {
        Some(ty) => seq![ty],
        None => Seq::empty(),
    }
}

pub open spec fn return_types(returned: Option<ReturnsModel>) -> Seq<TypeModel> {
    match returned {
        Some(ReturnsModel::Borsh(ty)) => seq![ty],
        Some(ReturnsModel::Raw(types)) => types,
        None => Seq::empty(),
    }
}

/// An input, witness or output of a method.
pub open spec fn io_text(mode: Seq<char>, schema: Seq<char>) -> Seq<char> {
    "::core::option::Option::Some(::alkabi::abi::AbiIo { mode: ::alkabi::abi::IoMode::"@ + mode + ", schema: "@ + schema
        + " })"@
}

pub open spec fn none_text() -> Seq<char> {
    "::core::option::Option::None"@
}

pub open spec fn input_text(v: VariantModel) -> Seq<char> {
    match v.fields {
        VariantFieldsModel::Unit => none_text(),
        VariantFieldsModel::UnnamedSingle(ty) => io_text("Borsh"@, expansion::reference_text(ty.text)),
        VariantFieldsModel::Named(named) => if named.len() == 0 {
            none_text()
        } else if v.is_borsh {
            io_text("Borsh"@, expansion::reference_text(named[0].1.text))
        } else {
            io_text("Legacy"@, expansion::struct_text(expansion::fields_text(named, named.len())))
        },
    }
}

pub open spec fn witness_io_text(w: Option<TypeModel>) -> Seq<char> {
    match w {
        Some(ty) => io_text("Borsh"@, expansion::reference_text(ty.text)),
        None => none_text(),
    }
}

/// The first `n` returned values as fields.
pub open spec fn places_text(types: Seq<TypeModel>, n: nat) -> Seq<char>
    decreases n,
{
    if n == 0 || n > types.len() {
        Seq::empty()
    } else {
        places_text(types, (n - 1) as nat) + expansion::field_text(
            upstream::place_name(n - 1),
            expansion::reference_text(types[n - 1].text),
        )
    }
}

pub open spec fn output_text(returned: Option<ReturnsModel>) -> Seq<char> {
    match returned {
        None => none_text(),
        Some(ReturnsModel::Borsh(ty)) => io_text("Borsh"@, expansion::reference_text(ty.text)),
        Some(ReturnsModel::Raw(types)) => if types.len() == 1 {
            io_text("Raw"@, expansion::reference_text(types[0].text))
        } else {
            io_text("Raw"@, expansion::struct_text(places_text(types, types.len())))
        },
    }
}

/// The entry of a variant in the ABI document.
pub open spec fn method_text(v: VariantModel) -> Seq<char> {
    "::alkabi::abi::AbiMethod { name: ::std::string::String::from(\""@ + casing::lower_camel(v.ident) + "\"), opcode: "@
        + opcode_text(v.opcode) + ", kind: ::alkabi::abi::MethodKind::"@ + (if v.is_view { "View"@ } else { "Execute"@ })
        + ", input: "@ + input_text(v) + ", witness: "@ + witness_io_text(v.witness) + ", output: "@ + output_text(
        v.returned,
    ) + ", plan: "@ + none_text() + " }, "@
}

/// A part of the impl that every variant has one of.
pub enum Part {
    FromOpcode,
    Dispatch,
    Collect,
    Method,
}

pub open spec fn part_text(part: Part, v: VariantModel) -> Seq<char> {
    match part {
        Part::FromOpcode => from_opcode_text(v),
        Part::Dispatch => dispatch_text(v),
        Part::Collect => collects_text(referenced(v), referenced(v).len()),
        Part::Method => method_text(v),
    }
}

/// A part of the first `n` variants.
pub open spec fn parts_text(part: Part, vs: Seq<VariantModel>, n: nat) -> Seq<char>
    decreases n,
{
    if n == 0 || n > vs.len() {
        Seq::empty()
    } else {
        parts_text(part, vs, (n - 1) as nat) + part_text(part, vs[n - 1])
    }
}

/// The impl of `MessageDispatch` for a message enum.
pub open spec fn message_text(ident: Seq<char>, contract: Seq<char>, vs: Seq<VariantModel>) -> Seq<char> {
    "impl ::alkanes_runtime::message::MessageDispatch<"@ + contract + "> for "@ + ident
        + " { fn from_opcode(opcode: u128, __macro_inputs: Vec<u128>) -> ::anyhow::Result<Self> { match opcode { "@
        + parts_text(Part::FromOpcode, vs, vs.len())
        + "_ => Err(::anyhow::anyhow!(\"Unknown opcode: {}\", opcode)), } } fn dispatch(&self, responder: &"@ + contract
        + ") -> ::anyhow::Result<::alkanes_support::response::CallResponse> { match self { "@
        + parts_text(Part::Dispatch, vs, vs.len())
        + "} } fn export_abi() -> Vec<u8> { let mut __reg = ::alkabi::schema::TypeRegistry::new(); "@
        + parts_text(Part::Collect, vs, vs.len())
        + "let __doc = ::alkabi::abi::AbiDocument { contract: ::std::string::String::from(\""@ + contract
        + "\"), types: __reg, methods: ::std::vec!["@ + parts_text(Part::Method, vs, vs.len())
        + "], }; __doc.to_json().into_bytes() } }"@
}

/* ─────────────── acceptance ─────────────── */

/// The contract type: the one declared, or the name without a trailing `Message`.
pub fn infer_contract(declared: &Option<String>, ident: &str) -> (r: Option<String>)
    ensures
        decl::opt_text(r) == contract_name(decl::opt_text(*declared), ident@),
{
    if let Some(name) = declared {
        return Some(copy_text(name.as_str()));
    }
    let cs = chars_of(ident);
    let suffix = chars_of("Message");
    let n: usize = cs.len();
    let k: usize = suffix.len();
    let mut keep: usize = n;
    if n >= k && ends_so(&cs, &suffix) {
        keep = n - k;
    }
    assert(cs@.take(n as int) =~= cs@);
    if keep == 0 {
        None
    } else {
        Some(text_of(vstd::slice::slice_subrange(cs.as_slice(), 0, keep)))
    }
}

fn ends_so(cs: &Vec<char>, suffix: &Vec<char>) -> (r: bool)
    requires
        cs@.len() >= suffix@.len(),
    ensures
        r == (cs@.skip(cs@.len() - suffix@.len()) == suffix@),
{
    let n: usize = suffix.len();
    let from: usize = cs.len() - n;
    for i in 0..n
        invariant
            n == suffix@.len(),
            from + n == cs.len(),
            from + n == cs@.len(),
            forall|j: int| 0 <= j < i ==> cs@[from + j] == suffix@[j],
    {
        if cs[from + i] != suffix[i] {
            assert(cs@.skip(from as int)[i as int] != suffix@[i as int]);
            return false;
        }
    }
    assert(cs@.skip(from as int) =~= suffix@);
    true
}

/// What a list of variants is.
pub open spec fn info_models(vs: Seq<VariantInfo>) -> Seq<VariantModel> {
    Seq::new(vs.len(), |i: int| vs[i].model())
}

/// Whether all variants are consistent.
pub open spec fn all_consistent(vs: Seq<VariantModel>) -> bool {
    forall|i: int| 0 <= i < vs.len() ==> variant::consistent(#[trigger] vs[i])
}

proof fn lemma_variants_stopped(ds: Seq<VariantDeclModel>, k: nat, n: nat)
    requires
        k <= n <= ds.len(),
        accepted_variants(ds, k) is Err,
    ensures
        accepted_variants(ds, n) == accepted_variants(ds, k),
    decreases n,
{
    if k < n {
        lemma_variants_stopped(ds, k, (n - 1) as nat);
    }
}

fn parse_variants(ds: &Vec<VariantDecl>) -> (r: Result<Vec<VariantInfo>, MessageError>)
    ensures
        match (r, accepted_variants(decl::variant_models(ds@), ds@.len())) {
            (Ok(vs), Ok(ms)) => info_models(vs@) == ms && all_consistent(ms),
            (Err(x), Err(y)) => x == y,
            _ => false,
        },
{
    let ghost ms = decl::variant_models(ds@);
    let mut out: Vec<VariantInfo> = Vec::new();
    let n: usize = ds.len();
    assert(info_models(out@) =~= Seq::empty());
    for i in 0..n
        invariant
            n == ds@.len(),
            ms == decl::variant_models(ds@),
            accepted_variants(ms, i as nat) == Ok::<Seq<VariantModel>, MessageError>(info_models(out@)),
            all_consistent(info_models(out@)),
    {
        assert(ms[i as int] == ds@[i as int].model());
        match parse_variant(&ds[i]) {
            Err(e) => {
                proof {
                    lemma_variants_stopped(ms, (i + 1) as nat, n as nat);
                }
                return Err(MessageError::Variant(i, e));
            }
            Ok(v) => {
                let ghost before = info_models(out@);
                out.push(v);
                assert(info_models(out@) =~= before.push(v.model()));
            }
        }
    }
    Ok(out)
}

fn taken(vs: &Vec<VariantInfo>, i: usize) -> (r: bool)
    requires
        i < vs@.len(),
    ensures
        r == opcode_taken(info_models(vs@), i as int),
{
    let ghost ms = info_models(vs@);
    for j in 0..i
        invariant
            i < vs@.len(),
            ms == info_models(vs@),
            forall|k: int| 0 <= k < j ==> (#[trigger] vs@[k]).opcode != vs@[i as int].opcode,
    {
        if vs[j].opcode == vs[i].opcode {
            assert(ms[j as int].opcode == ms[i as int].opcode);
            return true;
        }
    }
    assert(!opcode_taken(ms, i as int)) by {
        assert forall|j: int| 0 <= j < i implies (#[trigger] ms[j]).opcode != ms[i as int].opcode by {
            assert(ms[j] == vs@[j].model());
        }
    }
    false
}

fn duplicate(vs: &Vec<VariantInfo>) -> (r: Option<usize>)
    ensures
        match r {
            Some(i) => first_taken(info_models(vs@), 0) == Some(i as int),
            None => first_taken(info_models(vs@), 0) is None,
        },
{
    let n: usize = vs.len();
    for i in 0..n
        invariant
            n == vs@.len(),
            first_taken(info_models(vs@), 0) == first_taken(info_models(vs@), i as nat),
    {
        if taken(vs, i) {
            return Some(i);
        }
    }
    None
}

/* ─────────────── writing ─────────────── */

fn push_opcode(out: &mut String, opcode: u128)
    ensures
        final(out)@ == old(out)@ + opcode_text(opcode),
{
    push_decimal(out, opcode);
    out.append("u128");
    assert(out@ =~= old(out)@ + opcode_text(opcode));
}

fn names_of(fields: &Vec<(String, TypeDecl)>, behind: &str) -> (r: String)
    ensures
        r@ == names_text(decl::field_models(fields@), behind@, fields@.len()),
{
    let ghost ms = decl::field_models(fields@);
    let mut out = String::new();
    let n: usize = fields.len();
    for i in 0..n
        invariant
            n == fields@.len(),
            ms == decl::field_models(fields@),
            out@ == names_text(ms, behind@, i as nat),
    {
        assert(ms[i as int] == (fields@[i as int].0@, fields@[i as int].1.model()));
        out.append(fields[i].0.as_str());
        out.append(behind);
    }
    out
}

fn decodes_of(fields: &Vec<(String, TypeDecl)>) -> (r: String)
    ensures
        r@ == decodes_text(decl::field_models(fields@), fields@.len()),
{
    let ghost ms = decl::field_models(fields@);
    let mut out = String::new();
    let n: usize = fields.len();
    for i in 0..n
        invariant
            n == fields@.len(),
            ms == decl::field_models(fields@),
            out@ == decodes_text(ms, i as nat),
    {
        assert(ms[i as int] == (fields@[i as int].0@, fields@[i as int].1.model()));
        let ghost before = out@;
        out.append("let ");
        out.append(fields[i].0.as_str());
        out.append(" = <");
        out.append(fields[i].1.text.as_str());
        out.append(" as ::alkabi::legacy::LegacyDecode>::decode(&mut __reader)?; ");
        assert(out@ =~= before + decode_text(ms[i as int].0, ms[i as int].1.text));
    }
    out
}

fn push_borsh_arm(out: &mut String, opcode: u128, ty: &str, made: &str)
    ensures
        final(out)@ == old(out)@ + borsh_arm_text(opcode, ty@, made@),
{
    push_opcode(out, opcode);
    out.append(" => { let __params: ");
    out.append(ty);
    out.append(" = ::alkabi::borsh_io::decode_words(&__macro_inputs)?; Ok(Self::");
    out.append(made);
    out.append(") } ");
    assert(out@ =~= old(out)@ + borsh_arm_text(opcode, ty@, made@));
}

fn from_opcode_arm(out: &mut String, v: &VariantInfo)
    requires
        variant::consistent(v.model()),
    ensures
        final(out)@ == old(out)@ + from_opcode_text(v.model()),
{
    match &v.fields {
        VariantFields::Unit => {
            push_opcode(out, v.opcode);
            out.append(" => Ok(Self::");
            out.append(v.ident.as_str());
            out.append("), ");
            assert(out@ =~= old(out)@ + from_opcode_text(v.model()));
        }
        VariantFields::UnnamedSingle(ty) => {
            let mut made = copy_text(v.ident.as_str());
            made.append("(__params)");
            push_borsh_arm(out, v.opcode, ty.text.as_str(), made.as_str());
        }
        VariantFields::Named(named) => {
            if v.is_borsh {
                proof {
                    assert(decl::field_models(named@).len() == 1);
                    assert(decl::field_models(named@)[0] == (named@[0].0@, named@[0].1.model()));
                }
                let mut made = copy_text(v.ident.as_str());
                made.append(" { ");
                made.append(named[0].0.as_str());
                made.append(": __params }");
                push_borsh_arm(out, v.opcode, named[0].1.text.as_str(), made.as_str());
            } else if named.len() == 0 {
                push_opcode(out, v.opcode);
                out.append(" => Ok(Self::");
                out.append(v.ident.as_str());
                out.append(" {}), ");
                assert(out@ =~= old(out)@ + from_opcode_text(v.model()));
            } else {
                let decodes = decodes_of(named);
                let names = names_of(named, ", ");
                push_opcode(out, v.opcode);
                out.append(" => { let mut __reader = ::alkabi::legacy::LegacyReader::new(&__macro_inputs); ");
                out.append(decodes.as_str());
                out.append("Ok(Self::");
                out.append(v.ident.as_str());
                out.append(" { ");
                out.append(names.as_str());
                out.append("}) } ");
                assert(out@ =~= old(out)@ + from_opcode_text(v.model()));
            }
        }
    }
}

fn pattern_of(v: &VariantInfo) -> (r: String)
    ensures
        r@ == pattern_text(v.model()),
{
    let mut out = copy_text("Self::");
    out.append(v.ident.as_str());
    match &v.fields {
        VariantFields::Unit => {}
        VariantFields::UnnamedSingle(_) => {
            out.append("(__params)");
        }
        VariantFields::Named(named) => {
            let names = names_of(named, ", ");
            out.append(" { ");
            out.append(names.as_str());
            out.append("}");
        }
    }
    out
}

fn args_of(v: &VariantInfo) -> (r: String)
    ensures
        r@ == args_text(v.model()),
{
    match &v.fields {
        VariantFields::Unit => {
            let out = String::new();
            assert(out@ =~= Seq::empty());
            out
        }
        VariantFields::UnnamedSingle(_) => copy_text("__params, "),
        VariantFields::Named(named) => names_of(named, if v.is_borsh { ", " } else { ".clone(), " }),
    }
}

fn types_of(types: &Vec<TypeDecl>) -> (r: String)
    ensures
        r@ == types_text(decl::type_models(types@), types@.len()),
{
    let ghost ms = decl::type_models(types@);
    let mut out = String::new();
    let n: usize = types.len();
    for i in 0..n
        invariant
            n == types@.len(),
            ms == decl::type_models(types@),
            out@ == types_text(ms, i as nat),
    {
        assert(ms[i as int] == types@[i as int].model());
        if i > 0 {
            out.append(", ");
        }
        let ghost before = out@;
        out.append(types[i].text.as_str());
        if i == 0 {
            assert(before =~= Seq::empty());
            assert(out@ =~= ms[0].text);
        }
    }
    out
}

/// The epilogue routing the handler's result through `finish_return`, which
/// both encodes it and type-checks it against the declaration. Void methods
/// are typed as `()` — handlers return `Result<()>` or
/// `Result<AlkabiResponse<()>>`; a raw `CallResponse` never passes.
fn returns_finish(out: &mut String, returned: &Option<ReturnsSpec>)
    ensures
        final(out)@ == old(out)@ + finish_text(decl::opt_returned(*returned)),
{
    let (mode, ty): (&str, String) = match returned {
        None => ("RawMode", copy_text("()")),
        Some(ReturnsSpec::Borsh(ty)) => ("BorshMode", copy_text(ty.text.as_str())),
        Some(ReturnsSpec::Raw(types)) => {
            if types.len() == 1 {
                assert(decl::type_models(types@)[0] == types@[0].model());
                ("RawMode", copy_text(types[0].text.as_str()))
            } else {
                let inner = types_of(types);
                let mut tuple = copy_text("(");
                tuple.append(inner.as_str());
                tuple.append(")");
                ("RawMode", tuple)
            }
        }
    };
    assert(return_text(decl::opt_returned(*returned)) == (mode@, ty@));
    out.append("::alkabi::abi_return::finish_return::<_, ::alkabi::abi_return::");
    out.append(mode);
    out.append(", ");
    out.append(ty.as_str());
    out.append(", _, _>(__result, responder)");
    assert(out@ =~= old(out)@ + finish_text(decl::opt_returned(*returned)));
}

fn dispatch_arm(out: &mut String, v: &VariantInfo)
    ensures
        final(out)@ == old(out)@ + dispatch_text(v.model()),
{
    let pattern = pattern_of(v);
    let method = to_snake_case(v.ident.as_str());
    let mut args = args_of(v);
    let mut prelude = String::new();
    assert(prelude@ =~= Seq::empty());
    let ghost plain = args@;
    if let Some(ty) = &v.witness {
        prelude.append("let __witness: ");
        prelude.append(ty.text.as_str());
        prelude.append(" = ::alkabi::witness::decode_witness(responder)?; ");
        args.append("&__witness, ");
    }
    proof {
        let (p, a) = witness_text(v.model().witness);
        assert(prelude@ =~= p);
        assert(args@ =~= plain + a);
    }
    out.append(pattern.as_str());
    out.append(" => { ");
    out.append(prelude.as_str());
    out.append("let __result = responder.");
    out.append(method.as_str());
    out.append("(");
    out.append(args.as_str());
    out.append(")?; ");
    returns_finish(out, &v.returned);
    out.append(" } ");
    assert(out@ =~= old(out)@ + dispatch_text(v.model()));
}

proof fn lemma_collects_ahead(a: Seq<TypeModel>, b: Seq<TypeModel>, n: nat)
    requires
        n <= b.len(),
    ensures
        collects_text(a + b, a.len() + n) == collects_text(a, a.len()) + collects_text(b, n),
    decreases n,
{
    if n > 0 {
        lemma_collects_ahead(a, b, (n - 1) as nat);
        assert((a + b)[a.len() + n - 1] == b[n - 1]);
        assert(collects_text(a + b, a.len() + n) =~= collects_text(a, a.len()) + collects_text(b, n));
    } else {
        lemma_collects_prefix(a, b, a.len());
        assert(collects_text(a, a.len()) + collects_text(b, 0) =~= collects_text(a, a.len()));
    }
}

proof fn lemma_collects_prefix(a: Seq<TypeModel>, b: Seq<TypeModel>, n: nat)
    requires
        n <= a.len(),
    ensures
        collects_text(a + b, n) == collects_text(a, n),
    decreases n,
{
    if n > 0 {
        lemma_collects_prefix(a, b, (n - 1) as nat);
        assert((a + b)[n - 1] == a[n - 1]);
    }
}

proof fn lemma_collects(a: Seq<TypeModel>, b: Seq<TypeModel>)
    ensures
        collects_text(a + b, (a + b).len()) == collects_text(a, a.len()) + collects_text(b, b.len()),
{
    lemma_collects_ahead(a, b, b.len());
}

proof fn lemma_collects_one(ty: TypeModel)
    ensures
        collects_text(seq![ty], 1) == expansion::collect_text(ty.text, "&mut __reg"@),
{
    reveal_with_fuel(collects_text, 2);
    assert(collects_text(seq![ty], 1) =~= expansion::collect_text(ty.text, "&mut __reg"@));
}

fn push_collects(out: &mut String, types: &Vec<TypeDecl>)
    ensures
        final(out)@ == old(out)@ + collects_text(decl::type_models(types@), types@.len()),
{
    let ghost ms = decl::type_models(types@);
    let ghost before = out@;
    let n: usize = types.len();
    assert(out@ =~= before + collects_text(ms, 0));
    for i in 0..n
        invariant
            n == types@.len(),
            ms == decl::type_models(types@),
            out@ == before + collects_text(ms, i as nat),
    {
        assert(ms[i as int] == types@[i as int].model());
        push_collect(out, types[i].text.as_str(), "&mut __reg");
        assert(out@ =~= before + collects_text(ms, (i + 1) as nat));
    }
}

fn push_field_collects(out: &mut String, fields: &Vec<(String, TypeDecl)>)
    ensures
        final(out)@ == old(out)@ + collects_text(
            Seq::new(fields@.len(), |i: int| decl::field_models(fields@)[i].1),
            fields@.len(),
        ),
{
    let ghost ms = Seq::new(fields@.len(), |i: int| decl::field_models(fields@)[i].1);
    let ghost before = out@;
    let n: usize = fields.len();
    assert(out@ =~= before + collects_text(ms, 0));
    for i in 0..n
        invariant
            n == fields@.len(),
            ms == Seq::new(fields@.len(), |i: int| decl::field_models(fields@)[i].1),
            out@ == before + collects_text(ms, i as nat),
    {
        assert(ms[i as int] == fields@[i as int].1.model());
        push_collect(out, fields[i].1.text.as_str(), "&mut __reg");
        assert(out@ =~= before + collects_text(ms, (i + 1) as nat));
    }
}

fn collect_fields(out: &mut String, fields: &VariantFields)
    ensures
        final(out)@ == old(out)@ + collects_text(field_types(fields.model()), field_types(fields.model()).len()),
{
    match fields {
        VariantFields::Named(named) => {
            push_field_collects(out, named);
            assert(field_types(fields.model()) =~= Seq::new(named@.len(), |i: int| decl::field_models(named@)[i].1));
        }
        VariantFields::UnnamedSingle(ty) => {
            proof {
                lemma_collects_one(ty.model());
            }
            push_collect(out, ty.text.as_str(), "&mut __reg");
        }
        VariantFields::Unit => {
            assert(out@ =~= old(out)@ + collects_text(field_types(fields.model()), 0));
        }
    }
}

fn collect_witness(out: &mut String, witness: &Option<TypeDecl>)
    ensures
        final(out)@ == old(out)@ + collects_text(
            witness_types(decl::opt_type(*witness)),
            witness_types(decl::opt_type(*witness)).len(),
        ),
{
    match witness {
        Some(ty) => {
            proof {
                lemma_collects_one(ty.model());
            }
            push_collect(out, ty.text.as_str(), "&mut __reg");
        }
        None => {
            assert(out@ =~= old(out)@ + collects_text(witness_types(decl::opt_type(*witness)), 0));
        }
    }
}

fn collect_returned(out: &mut String, returned: &Option<ReturnsSpec>)
    ensures
        final(out)@ == old(out)@ + collects_text(
            return_types(decl::opt_returned(*returned)),
            return_types(decl::opt_returned(*returned)).len(),
        ),
{
    match returned {
        Some(ReturnsSpec::Borsh(ty)) => {
            proof {
                lemma_collects_one(ty.model());
            }
            push_collect(out, ty.text.as_str(), "&mut __reg");
        }
        Some(ReturnsSpec::Raw(types)) => {
            push_collects(out, types);
        }
        None => {
            assert(out@ =~= old(out)@ + collects_text(return_types(decl::opt_returned(*returned)), 0));
        }
    }
}

/// Statements registering every named type this variant references.
fn collect_stmts(out: &mut String, v: &VariantInfo)
    ensures
        final(out)@ == old(out)@ + collects_text(referenced(v.model()), referenced(v.model()).len()),
{
    let ghost fields = field_types(v.model().fields);
    let ghost witness = witness_types(v.model().witness);
    let ghost returned = return_types(v.model().returned);
    collect_fields(out, &v.fields);
    collect_witness(out, &v.witness);
    collect_returned(out, &v.returned);
    proof {
        lemma_collects(fields + witness, returned);
        lemma_collects(fields, witness);
        assert(out@ =~= old(out)@ + (collects_text(fields, fields.len()) + collects_text(witness, witness.len())
            + collects_text(returned, returned.len())));
    }
}

fn io_of(mode: &str, schema: &str) -> (r: String)
    ensures
        r@ == io_text(mode@, schema@),
{
    let mut out = copy_text("::core::option::Option::Some(::alkabi::abi::AbiIo { mode: ::alkabi::abi::IoMode::");
    out.append(mode);
    out.append(", schema: ");
    out.append(schema);
    out.append(" })");
    out
}

fn borsh_io_expr(ty: &TypeDecl) -> (r: String)
    ensures
        r@ == io_text("Borsh"@, expansion::reference_text(ty.model().text)),
{
    io_of("Borsh", reference_of(ty.text.as_str()).as_str())
}

fn none_of() -> (r: String)
    ensures
        r@ == none_text(),
{
    copy_text("::core::option::Option::None")
}

fn input_of(v: &VariantInfo) -> (r: String)
    requires
        variant::consistent(v.model()),
    ensures
        r@ == input_text(v.model()),
{
    match &v.fields {
        VariantFields::Unit => none_of(),
        VariantFields::UnnamedSingle(ty) => borsh_io_expr(ty),
        VariantFields::Named(named) => {
            if named.len() == 0 {
                none_of()
            } else if v.is_borsh {
                assert(decl::field_models(named@)[0] == (named@[0].0@, named@[0].1.model()));
                borsh_io_expr(&named[0].1)
            } else {
                let fields = fields_of(named);
                io_of("Legacy", struct_of(fields.as_str()).as_str())
            }
        }
    }
}

fn place_of(i: usize) -> (r: String)
    ensures
        r@ == upstream::place_name(i as int),
{
    let mut out = String::new();
    push_char(&mut out, '_');
    push_decimal(&mut out, i as u128);
    assert(out@ =~= upstream::place_name(i as int));
    out
}

fn places_of(types: &Vec<TypeDecl>) -> (r: String)
    ensures
        r@ == places_text(decl::type_models(types@), types@.len()),
{
    let ghost ms = decl::type_models(types@);
    let mut out = String::new();
    let n: usize = types.len();
    for i in 0..n
        invariant
            n == types@.len(),
            ms == decl::type_models(types@),
            out@ == places_text(ms, i as nat),
    {
        assert(ms[i as int] == types@[i as int].model());
        let reference = reference_of(types[i].text.as_str());
        push_field(&mut out, place_of(i).as_str(), reference.as_str());
    }
    out
}

fn output_of(returned: &Option<ReturnsSpec>) -> (r: String)
    ensures
        r@ == output_text(decl::opt_returned(*returned)),
{
    match returned {
        None => none_of(),
        Some(ReturnsSpec::Borsh(ty)) => borsh_io_expr(ty),
        Some(ReturnsSpec::Raw(types)) => {
            if types.len() == 1 {
                assert(decl::type_models(types@)[0] == types@[0].model());
                io_of("Raw", reference_of(types[0].text.as_str()).as_str())
            } else {
                let places = places_of(types);
                io_of("Raw", struct_of(places.as_str()).as_str())
            }
        }
    }
}

fn opcode_lit(opcode: u128) -> (r: String)
    ensures
        r@ == opcode_text(opcode),
{
    let mut out = String::new();
    push_opcode(&mut out, opcode);
    assert(out@ =~= opcode_text(opcode));
    out
}

fn method_expr(v: &VariantInfo) -> (r: String)
    requires
        variant::consistent(v.model()),
    ensures
        r@ == method_text(v.model()),
{
    let name = to_lower_camel_case(v.ident.as_str());
    let input = input_of(v);
    let witness = match &v.witness {
        Some(ty) => borsh_io_expr(ty),
        None => none_of(),
    };
    let output = output_of(&v.returned);
    let mut out = copy_text("::alkabi::abi::AbiMethod { name: ::std::string::String::from(\"");
    out.append(name.as_str());
    out.append("\"), opcode: ");
    out.append(opcode_lit(v.opcode).as_str());
    out.append(", kind: ::alkabi::abi::MethodKind::");
    out.append(if v.is_view { "View" } else { "Execute" });
    out.append(", input: ");
    out.append(input.as_str());
    out.append(", witness: ");
    out.append(witness.as_str());
    out.append(", output: ");
    out.append(output.as_str());
    out.append(", plan: ");
    out.append(none_of().as_str());
    out.append(" }, ");
    out
}

fn parts_of(part: Part, vs: &Vec<VariantInfo>) -> (r: String)
    requires
        all_consistent(info_models(vs@)),
    ensures
        r@ == parts_text(part, info_models(vs@), vs@.len()),
{
    let ghost ms = info_models(vs@);
    let mut out = String::new();
    let n: usize = vs.len();
    for i in 0..n
        invariant
            n == vs@.len(),
            ms == info_models(vs@),
            all_consistent(ms),
            out@ == parts_text(part, ms, i as nat),
    {
        assert(ms[i as int] == vs@[i as int].model());
        match part {
            Part::FromOpcode => from_opcode_arm(&mut out, &vs[i]),
            Part::Dispatch => dispatch_arm(&mut out, &vs[i]),
            Part::Collect => collect_stmts(&mut out, &vs[i]),
            Part::Method => out.append(method_expr(&vs[i]).as_str()),
        }
    }
    out
}

/// The impl of `MessageDispatch` for a message enum, whose contract type may be
/// declared. What it calls under `::alkabi` is this library as a contract sees it: with
/// `decode_words`, `decode_witness` and the `finish_return` of a responder added, which
/// stand on bounds of borsh and of the runtime.
pub fn expand(item: &ItemDecl, contract: &Option<String>) -> (r: Result<String, MessageError>)
    ensures
        match (r, accepted_item(decl::opt_text(*contract), item.ident@, item.body.model())) {
            (Ok(s), Ok((c, vs))) => s@ == message_text(item.ident@, c, vs),
            (Err(x), Err(y)) => x == y,
            _ => false,
        },
{
    let ds = match &item.body {
        ItemBody::Enum(ds) => ds,
        _ => {
            return Err(MessageError::NotEnum);
        }
    };
    let contract = match infer_contract(contract, item.ident.as_str()) {
        None => {
            return Err(MessageError::Contract);
        }
        Some(contract) => contract,
    };
    let vs = match parse_variants(ds) {
        Err(e) => {
            return Err(e);
        }
        Ok(vs) => vs,
    };
    if let Some(i) = duplicate(&vs) {
        return Err(MessageError::DuplicateOpcode(i));
    }
    let from_opcode_arms = parts_of(Part::FromOpcode, &vs);
    let dispatch_arms = parts_of(Part::Dispatch, &vs);
    let collects = parts_of(Part::Collect, &vs);
    let methods = parts_of(Part::Method, &vs);
    let mut out = copy_text("impl ::alkanes_runtime::message::MessageDispatch<");
    out.append(contract.as_str());
    out.append("> for ");
    out.append(item.ident.as_str());
    out.append(" { fn from_opcode(opcode: u128, __macro_inputs: Vec<u128>) -> ::anyhow::Result<Self> { match opcode { ");
    out.append(from_opcode_arms.as_str());
    out.append("_ => Err(::anyhow::anyhow!(\"Unknown opcode: {}\", opcode)), } } fn dispatch(&self, responder: &");
    out.append(contract.as_str());
    out.append(") -> ::anyhow::Result<::alkanes_support::response::CallResponse> { match self { ");
    out.append(dispatch_arms.as_str());
    out.append("} } fn export_abi() -> Vec<u8> { let mut __reg = ::alkabi::schema::TypeRegistry::new(); ");
    out.append(collects.as_str());
    out.append("let __doc = ::alkabi::abi::AbiDocument { contract: ::std::string::String::from(\"");
    out.append(contract.as_str());
    out.append("\"), types: __reg, methods: ::std::vec![");
    out.append(methods.as_str());
    out.append("], }; __doc.to_json().into_bytes() } }");
    Ok(out)
}

/* ─────────────── laws ─────────────── */

/// The variants of an item that is accepted have opcodes that differ: no message can be
/// decoded as two of them.
pub proof fn lemma_opcodes_differ(declared: Option<Seq<char>>, ident: Seq<char>, body: decl::BodyModel, i: int, j: int)
    requires
        accepted_item(declared, ident, body) is Ok,
        0 <= i < j < accepted_item(declared, ident, body)->Ok_0.1.len(),
    ensures
        accepted_item(declared, ident, body)->Ok_0.1[i].opcode != accepted_item(declared, ident, body)->Ok_0.1[j].opcode,
{
    let vs = accepted_item(declared, ident, body)->Ok_0.1;
    lemma_none_taken(vs, 0, j);
    assert(!opcode_taken(vs, j));
    assert(vs[i].opcode != vs[j].opcode);
}

proof fn lemma_none_taken(vs: Seq<VariantModel>, from: nat, j: int)
    requires
        first_taken(vs, from) is None,
        from <= j < vs.len(),
    ensures
        !opcode_taken(vs, j),
    decreases j - from,
{
    if from < j {
        lemma_none_taken(vs, from + 1, j);
    }
}

} // verus!
