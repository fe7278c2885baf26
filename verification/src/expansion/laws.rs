//! What the derives write, piece by piece, and what they make of the attributes: laws over
//! all declarations.
use vstd::prelude::*;
use crate::casing;
use crate::expansion;
use crate::expansion::abitype;
use crate::expansion::abitype::TypeError;
use crate::expansion::decl::{AttrModel, BodyModel, FieldsModel, ReturnsModel, TypeModel, VariantDeclModel};
use crate::expansion::message;
use crate::expansion::message::{MessageError, Part};
use crate::expansion::variant;
use crate::expansion::variant::{VariantError, VariantFieldsModel, VariantModel};
use crate::text;

verus! {

/* ─────────────── lists ─────────────── */

proof fn lemma_names(fields: Seq<(Seq<char>, TypeModel)>, behind: Seq<char>, n: nat)
    requires
        n <= fields.len(),
    ensures
        message::names_text(fields, behind, n) == Seq::new(n, |i: int| fields[i].0 + behind).flatten_alt(),
    decreases n,
{
    let s = Seq::new(n, |i: int| fields[i].0 + behind);
    if n > 0 {
        lemma_names(fields, behind, (n - 1) as nat);
        assert(s.drop_last() =~= Seq::new((n - 1) as nat, |i: int| fields[i].0 + behind));
        assert(message::names_text(fields, behind, n) =~= s.drop_last().flatten_alt() + s.last());
    }
}

/// The source that decodes a legacy field.
pub open spec fn field_decoding(f: (Seq<char>, TypeModel)) -> Seq<char> {
    "let "@ + f.0 + " = <"@ + f.1.text + " as ::alkabi::legacy::LegacyDecode>::decode(&mut __reader)?; "@
}

proof fn lemma_decodes(fields: Seq<(Seq<char>, TypeModel)>, n: nat)
    requires
        n <= fields.len(),
    ensures
        message::decodes_text(fields, n) == Seq::new(n, |i: int| field_decoding(fields[i])).flatten_alt(),
    decreases n,
{
    let s = Seq::new(n, |i: int| field_decoding(fields[i]));
    if n > 0 {
        lemma_decodes(fields, (n - 1) as nat);
        assert(s.drop_last() =~= Seq::new((n - 1) as nat, |i: int| field_decoding(fields[i])));
        assert(message::decodes_text(fields, n) =~= s.drop_last().flatten_alt() + s.last());
    }
}

/// The source of a field of a schema: its name, and a reference to its type.
pub open spec fn field_source(name: Seq<char>, ty: Seq<char>) -> Seq<char> {
    "(\""@ + name + "\".to_string(), <"@ + ty + " as ::alkabi::AlkabiType>::reference()), "@
}

proof fn lemma_field_source(name: Seq<char>, ty: Seq<char>)
    ensures
        expansion::field_text(name, expansion::reference_text(ty)) == field_source(name, ty),
{
    reveal_strlit("\".to_string(), ");
    reveal_strlit("<");
    reveal_strlit("\".to_string(), <");
    reveal_strlit(" as ::alkabi::AlkabiType>::reference()");
    reveal_strlit("), ");
    reveal_strlit(" as ::alkabi::AlkabiType>::reference()), ");
    assert("\".to_string(), <"@ =~= "\".to_string(), "@ + "<"@);
    assert(" as ::alkabi::AlkabiType>::reference()), "@ =~= " as ::alkabi::AlkabiType>::reference()"@ + "), "@);
    assert(expansion::field_text(name, expansion::reference_text(ty)) =~= field_source(name, ty));
}

proof fn lemma_fields(fields: Seq<(Seq<char>, TypeModel)>, n: nat)
    requires
        n <= fields.len(),
    ensures
        expansion::fields_text(fields, n) == Seq::new(n, |i: int| field_source(fields[i].0, fields[i].1.text)).flatten_alt(),
    decreases n,
{
    let s = Seq::new(n, |i: int| field_source(fields[i].0, fields[i].1.text));
    if n > 0 {
        lemma_fields(fields, (n - 1) as nat);
        lemma_field_source(fields[n - 1].0, fields[n - 1].1.text);
        assert(s.drop_last() =~= Seq::new((n - 1) as nat, |i: int| field_source(fields[i].0, fields[i].1.text)));
        assert(expansion::fields_text(fields, n) =~= s.drop_last().flatten_alt() + s.last());
    }
}

proof fn lemma_places(types: Seq<TypeModel>, n: nat)
    requires
        n <= types.len(),
    ensures
        message::places_text(types, n) == Seq::new(n, |i: int| field_source(seq!['_'] + text::decimal(i), types[i].text)).flatten_alt(),
    decreases n,
{
    let s = Seq::new(n, |i: int| field_source(seq!['_'] + text::decimal(i), types[i].text));
    if n > 0 {
        lemma_places(types, (n - 1) as nat);
        lemma_field_source(seq!['_'] + text::decimal(n - 1), types[n - 1].text);
        assert(s.drop_last() =~= Seq::new(
            (n - 1) as nat,
            |i: int| field_source(seq!['_'] + text::decimal(i), types[i].text),
        ));
        assert(message::places_text(types, n) =~= s.drop_last().flatten_alt() + s.last());
    }
}

/// The source that registers a type.
pub open spec fn registration(ty: TypeModel, reg: Seq<char>) -> Seq<char> {
    "<"@ + ty.text + " as ::alkabi::AlkabiType>::collect("@ + reg + "); "@
}

proof fn lemma_collects(types: Seq<TypeModel>, n: nat)
    requires
        n <= types.len(),
    ensures
        message::collects_text(types, n) == Seq::new(n, |i: int| registration(types[i], "&mut __reg"@)).flatten_alt(),
        abitype::uses_text(types, n) == Seq::new(n, |i: int| registration(types[i], "reg"@)).flatten_alt(),
    decreases n,
{
    let s = Seq::new(n, |i: int| registration(types[i], "&mut __reg"@));
    let t = Seq::new(n, |i: int| registration(types[i], "reg"@));
    if n > 0 {
        lemma_collects(types, (n - 1) as nat);
        assert(s.drop_last() =~= Seq::new((n - 1) as nat, |i: int| registration(types[i], "&mut __reg"@)));
        assert(t.drop_last() =~= Seq::new((n - 1) as nat, |i: int| registration(types[i], "reg"@)));
        assert(message::collects_text(types, n) =~= s.drop_last().flatten_alt() + s.last());
        assert(abitype::uses_text(types, n) =~= t.drop_last().flatten_alt() + t.last());
    }
}

/* ─────────────── dispatch ─────────────── */

/// The type that a variant's response is declared as, and its mode: nothing raw where
/// nothing is declared, one raw type as it is, several as a tuple.
pub open spec fn response_type(returned: Option<ReturnsModel>, mode: Seq<char>, ty: Seq<char>) -> bool {
    match returned {
        None => mode == "RawMode"@ && ty == "()"@,
        Some(ReturnsModel::Borsh(t)) => mode == "BorshMode"@ && ty == t.text,
        Some(ReturnsModel::Raw(types)) => mode == "RawMode"@ && (if types.len() == 1 {
            ty == types[0].text
        } else {
            ty == "("@ + message::types_text(types, types.len()) + ")"@
        }),
    }
}

/// The arm of `dispatch` for a variant calls the handler of its name. Whatever the fields,
/// a declared witness is decoded as its type before the call and is the call's last
/// argument, by reference, and without one there is neither. Borsh params go by reference,
/// legacy fields by value. The result goes through `finish_return`, in the declared mode
/// and type.
pub proof fn lemma_dispatch_arm(v: VariantModel) -> (r: (Seq<char>, Seq<char>))
    ensures
        response_type(v.returned, r.0, r.1),
        ({
            let decoding = match v.witness {
                Some(ty) => "let __witness: "@ + ty.text + " = ::alkabi::witness::decode_witness(responder)?; "@,
                None => Seq::empty(),
            };
            let last = match v.witness {
                Some(_) => "&__witness, "@,
                None => Seq::empty(),
            };
            let pattern = match v.fields {
                VariantFieldsModel::Unit => "Self::"@ + v.ident,
                VariantFieldsModel::UnnamedSingle(_) => "Self::"@ + v.ident + "(__params)"@,
                VariantFieldsModel::Named(named) => "Self::"@ + v.ident + " { "@ + Seq::new(
                    named.len(),
                    |i: int| named[i].0 + ", "@,
                ).flatten_alt() + "}"@,
            };
            let args = match v.fields {
                VariantFieldsModel::Unit => Seq::empty(),
                VariantFieldsModel::UnnamedSingle(_) => "__params, "@,
                VariantFieldsModel::Named(named) => if v.is_borsh {
                    Seq::new(named.len(), |i: int| named[i].0 + ", "@).flatten_alt()
                } else {
                    Seq::new(named.len(), |i: int| named[i].0 + ".clone(), "@).flatten_alt()
                },
            };
            message::dispatch_text(v) == pattern + " => { "@ + decoding + "let __result = responder."@ + casing::snake(
                v.ident,
                v.ident.len(),
            ) + "("@ + args + last + ")?; "@ + "::alkabi::abi_return::finish_return::<_, ::alkabi::abi_return::"@ + r.0 + ", "@ + r.1
                + ", _, _>(__result, responder)"@ + " } "@
        }),
{
    let r = message::return_text(v.returned);
    if let VariantFieldsModel::Named(named) = v.fields {
        lemma_names(named, ", "@, named.len());
        lemma_names(named, ".clone(), "@, named.len());
    }
    let decoding = match v.witness {
        Some(ty) => "let __witness: "@ + ty.text + " = ::alkabi::witness::decode_witness(responder)?; "@,
        None => Seq::empty(),
    };
    let last = match v.witness {
        Some(_) => "&__witness, "@,
        None => Seq::empty(),
    };
    assert(message::dispatch_text(v) =~= message::pattern_text(v) + " => { "@ + decoding + "let __result = responder."@
        + casing::snake(v.ident, v.ident.len()) + "("@ + message::args_text(v) + last + ")?; "@
        + "::alkabi::abi_return::finish_return::<_, ::alkabi::abi_return::"@ + r.0 + ", "@ + r.1
        + ", _, _>(__result, responder)"@ + " } "@);
    r
}

/// Whether a text stands in another.
pub open spec fn stands_in(part: Seq<char>, whole: Seq<char>) -> bool {
    exists|at: int| 0 <= at && at + part.len() <= whole.len() && #[trigger] whole.subrange(at, at + part.len()) == part
}

/// To declare a witness adds to a dispatch arm exactly the statement that decodes it and
/// the argument that passes it on: the arm without it is the arm with these two cut out.
pub proof fn lemma_witness_added(v: VariantModel, ty: TypeModel) -> (r: (Seq<char>, Seq<char>, Seq<char>))
    ensures
        message::dispatch_text(VariantModel { witness: None, ..v }) == r.0 + r.1 + r.2,
        message::dispatch_text(VariantModel { witness: Some(ty), ..v }) == r.0 + ("let __witness: "@ + ty.text
            + " = ::alkabi::witness::decode_witness(responder)?; "@) + r.1 + "&__witness, "@ + r.2,
        stands_in(
            "let __witness: "@ + ty.text + " = ::alkabi::witness::decode_witness(responder)?; "@,
            message::dispatch_text(VariantModel { witness: Some(ty), ..v }),
        ),
{
    let a = message::pattern_text(v) + " => { "@;
    let b = "let __result = responder."@ + casing::snake(v.ident, v.ident.len()) + "("@ + message::args_text(v);
    let c = ")?; "@ + message::finish_text(v.returned) + " } "@;
    let decoding = "let __witness: "@ + ty.text + " = ::alkabi::witness::decode_witness(responder)?; "@;
    let bare = message::dispatch_text(VariantModel { witness: None, ..v });
    let full = message::dispatch_text(VariantModel { witness: Some(ty), ..v });
    assert(message::pattern_text(VariantModel { witness: None, ..v }) == message::pattern_text(v));
    assert(message::args_text(VariantModel { witness: None, ..v }) == message::args_text(v));
    assert(message::pattern_text(VariantModel { witness: Some(ty), ..v }) == message::pattern_text(v));
    assert(message::args_text(VariantModel { witness: Some(ty), ..v }) == message::args_text(v));
    assert(bare =~= a + b + c);
    assert(full =~= a + decoding + b + "&__witness, "@ + c);
    assert(full.subrange(a.len() as int, (a.len() + decoding.len()) as int) =~= decoding);
    (a, b, c)
}

/* ─────────────── decoding ─────────────── */

/// The arm of `from_opcode` for a variant is chosen by its opcode. A variant without fields
/// needs no calldata, borsh params are decoded from the words, and legacy fields are read
/// from them in the order in which they are declared, each as its type.
pub proof fn lemma_from_opcode_arm(v: VariantModel)
    requires
        variant::consistent(v),
    ensures
        message::from_opcode_text(v) == text::decimal(v.opcode as int) + "u128"@ + (match v.fields {
            VariantFieldsModel::Unit => " => Ok(Self::"@ + v.ident + "), "@,
            VariantFieldsModel::UnnamedSingle(ty) => " => { let __params: "@ + ty.text
                + " = ::alkabi::borsh_io::decode_words(&__macro_inputs)?; Ok(Self::"@ + v.ident + "(__params)"@ + ") } "@,
            VariantFieldsModel::Named(named) => if v.is_borsh {
                " => { let __params: "@ + named[0].1.text + " = ::alkabi::borsh_io::decode_words(&__macro_inputs)?; Ok(Self::"@
                    + v.ident + " { "@ + named[0].0 + ": __params }"@ + ") } "@
            } else if named.len() == 0 {
                " => Ok(Self::"@ + v.ident + " {}), "@
            } else {
                " => { let mut __reader = ::alkabi::legacy::LegacyReader::new(&__macro_inputs); "@ + Seq::new(
                    named.len(),
                    |i: int| field_decoding(named[i]),
                ).flatten_alt() + "Ok(Self::"@ + v.ident + " { "@ + Seq::new(named.len(), |i: int| named[i].0 + ", "@).flatten_alt()
                    + "}) } "@
            },
        }),
{
    if let VariantFieldsModel::Named(named) = v.fields {
        lemma_decodes(named, named.len());
        lemma_names(named, ", "@, named.len());
        if !v.is_borsh && named.len() > 0 {
            assert(message::from_opcode_text(v) =~= text::decimal(v.opcode as int) + "u128"@
                + (" => { let mut __reader = ::alkabi::legacy::LegacyReader::new(&__macro_inputs); "@ + message::decodes_text(
                named,
                named.len(),
            ) + "Ok(Self::"@ + v.ident + " { "@ + message::names_text(named, ", "@, named.len()) + "}) } "@));
        }
    }
}

/* ─────────────── the document ─────────────── */

/// The source of an input, witness or output.
pub open spec fn io_source(mode: Seq<char>, schema: Seq<char>) -> Seq<char> {
    "::core::option::Option::Some(::alkabi::abi::AbiIo { mode: ::alkabi::abi::IoMode::"@ + mode + ", schema: "@ + schema
        + " })"@
}

/// The source of a reference to a type.
pub open spec fn reference_source(ty: TypeModel) -> Seq<char> {
    "<"@ + ty.text + " as ::alkabi::AlkabiType>::reference()"@
}

/// The source of a struct schema of fields.
pub open spec fn struct_source(fields: Seq<Seq<char>>) -> Seq<char> {
    "::alkabi::schema::Schema::Struct(::std::vec!["@ + fields.flatten_alt() + "])"@
}

/// The entry of a variant in the document has its name in lower camel case, its opcode, and
/// its kind: a view exactly if it is declared one. Its input is borsh or legacy as its
/// fields are, its witness borsh, and its output in the mode it is declared in.
pub proof fn lemma_method_entry(v: VariantModel)
    requires
        variant::consistent(v),
    ensures
        ({
            let none = "::core::option::Option::None"@;
            let input = match v.fields {
                VariantFieldsModel::Unit => none,
                VariantFieldsModel::UnnamedSingle(ty) => io_source("Borsh"@, reference_source(ty)),
                VariantFieldsModel::Named(named) => if named.len() == 0 {
                    none
                } else if v.is_borsh {
                    io_source("Borsh"@, reference_source(named[0].1))
                } else {
                    io_source("Legacy"@, struct_source(Seq::new(named.len(), |i: int| field_source(named[i].0, named[i].1.text))))
                },
            };
            let witness = match v.witness {
                Some(ty) => io_source("Borsh"@, reference_source(ty)),
                None => none,
            };
            let output = match v.returned {
                None => none,
                Some(ReturnsModel::Borsh(ty)) => io_source("Borsh"@, reference_source(ty)),
                Some(ReturnsModel::Raw(types)) => if types.len() == 1 {
                    io_source("Raw"@, reference_source(types[0]))
                } else {
                    io_source(
                        "Raw"@,
                        struct_source(Seq::new(types.len(), |i: int| field_source(seq!['_'] + text::decimal(i), types[i].text))),
                    )
                },
            };
            message::method_text(v) == "::alkabi::abi::AbiMethod { name: ::std::string::String::from(\""@ + casing::lower_camel(v.ident)
                + "\"), opcode: "@ + (text::decimal(v.opcode as int) + "u128"@) + ", kind: ::alkabi::abi::MethodKind::"@ + (if v.is_view {
                "View"@
            } else {
                "Execute"@
            }) + ", input: "@ + input + ", witness: "@ + witness + ", output: "@ + output + ", plan: "@ + none + " }, "@
        }),
{
    if let VariantFieldsModel::Named(named) = v.fields {
        lemma_fields(named, named.len());
    }
    if let Some(ReturnsModel::Raw(types)) = v.returned {
        lemma_places(types, types.len());
    }
}

/// Every type that a variant names is registered: those of its fields, of its witness and
/// of its return.
pub proof fn lemma_types_registered(v: VariantModel, ty: TypeModel)
    requires
        match v.fields {
            VariantFieldsModel::Unit => false,
            VariantFieldsModel::UnnamedSingle(t) => t == ty,
            VariantFieldsModel::Named(named) => exists|i: int| 0 <= i < named.len() && (#[trigger] named[i]).1 == ty,
        } || v.witness == Some(ty) || (match v.returned {
            None => false,
            Some(ReturnsModel::Borsh(t)) => t == ty,
            Some(ReturnsModel::Raw(types)) => types.contains(ty),
        }),
    ensures
        stands_in(registration(ty, "&mut __reg"@), message::part_text(Part::Collect, v)),
{
    let types = message::referenced(v);
    let f = message::field_types(v.fields);
    let w = message::witness_types(v.witness);
    let r = message::return_types(v.returned);
    assert(types.contains(ty)) by {
        if f.contains(ty) {
            let i = choose|i: int| 0 <= i < f.len() && f[i] == ty;
            assert(types[i] == ty);
        } else if w.contains(ty) {
            let i = choose|i: int| 0 <= i < w.len() && w[i] == ty;
            assert(types[f.len() + i] == ty);
        } else if r.contains(ty) {
            let i = choose|i: int| 0 <= i < r.len() && r[i] == ty;
            assert(types[f.len() + w.len() + i] == ty);
        } else {
            if v.witness == Some(ty) {
                assert(w[0] == ty);
            }
            match v.fields {
                VariantFieldsModel::Unit => {}
                VariantFieldsModel::UnnamedSingle(t) => {
                    if t == ty {
                        assert(f[0] == ty);
                    }
                }
                VariantFieldsModel::Named(named) => {
                    if exists|i: int| 0 <= i < named.len() && (#[trigger] named[i]).1 == ty {
                        let i = choose|i: int| 0 <= i < named.len() && (#[trigger] named[i]).1 == ty;
                        assert(f[i] == ty);
                    }
                }
            }
            match v.returned {
                Some(ReturnsModel::Borsh(t)) => {
                    if t == ty {
                        assert(r[0] == ty);
                    }
                }
                _ => {}
            }
            assert(false);
        }
    }
    let i = choose|i: int| 0 <= i < types.len() && types[i] == ty;
    lemma_collects_piece(types, i as nat, types.len());
}

proof fn lemma_collects_piece(types: Seq<TypeModel>, i: nat, n: nat)
    requires
        i < n <= types.len(),
    ensures
        stands_in(registration(types[i as int], "&mut __reg"@), message::collects_text(types, n)),
    decreases n,
{
    let piece = registration(types[i as int], "&mut __reg"@);
    let whole = message::collects_text(types, n);
    let before = message::collects_text(types, (n - 1) as nat);
    if i + 1 == n {
        assert(whole.subrange(before.len() as int, (before.len() + piece.len()) as int) =~= piece);
    } else {
        lemma_collects_piece(types, i, (n - 1) as nat);
        let at = choose|at: int| 0 <= at && at + piece.len() <= before.len() && #[trigger] before.subrange(at, at + piece.len()) == piece;
        assert(whole.subrange(at, at + piece.len()) =~= piece);
    }
}

/// The impl has the parts of every variant, in the order in which they are declared, and an
/// error for every other opcode.
pub proof fn lemma_message(ident: Seq<char>, contract: Seq<char>, vs: Seq<VariantModel>)
    ensures
        message::message_text(ident, contract, vs) == "impl ::alkanes_runtime::message::MessageDispatch<"@ + contract + "> for "@ + ident
            + " { fn from_opcode(opcode: u128, __macro_inputs: Vec<u128>) -> ::anyhow::Result<Self> { match opcode { "@ + Seq::new(
            vs.len(),
            |i: int| message::from_opcode_text(vs[i]),
        ).flatten_alt() + "_ => Err(::anyhow::anyhow!(\"Unknown opcode: {}\", opcode)), } } fn dispatch(&self, responder: &"@ + contract
            + ") -> ::anyhow::Result<::alkanes_support::response::CallResponse> { match self { "@ + Seq::new(
            vs.len(),
            |i: int| message::dispatch_text(vs[i]),
        ).flatten_alt() + "} } fn export_abi() -> Vec<u8> { let mut __reg = ::alkabi::schema::TypeRegistry::new(); "@ + Seq::new(
            vs.len(),
            |i: int| message::part_text(Part::Collect, vs[i]),
        ).flatten_alt() + "let __doc = ::alkabi::abi::AbiDocument { contract: ::std::string::String::from(\""@ + contract
            + "\"), types: __reg, methods: ::std::vec!["@ + Seq::new(vs.len(), |i: int| message::method_text(vs[i])).flatten_alt()
            + "], }; __doc.to_json().into_bytes() } }"@,
{
    lemma_parts(Part::FromOpcode, vs, vs.len());
    lemma_parts(Part::Dispatch, vs, vs.len());
    lemma_parts(Part::Collect, vs, vs.len());
    lemma_parts(Part::Method, vs, vs.len());
    assert(Seq::new(vs.len(), |i: int| message::part_text(Part::FromOpcode, vs[i])) =~= Seq::new(
        vs.len(),
        |i: int| message::from_opcode_text(vs[i]),
    ));
    assert(Seq::new(vs.len(), |i: int| message::part_text(Part::Dispatch, vs[i])) =~= Seq::new(
        vs.len(),
        |i: int| message::dispatch_text(vs[i]),
    ));
    assert(Seq::new(vs.len(), |i: int| message::part_text(Part::Method, vs[i])) =~= Seq::new(
        vs.len(),
        |i: int| message::method_text(vs[i]),
    ));
}

proof fn lemma_parts(part: Part, vs: Seq<VariantModel>, n: nat)
    requires
        n <= vs.len(),
    ensures
        message::parts_text(part, vs, n) == Seq::new(n, |i: int| message::part_text(part, vs[i])).flatten_alt(),
    decreases n,
{
    let s = Seq::new(n, |i: int| message::part_text(part, vs[i]));
    if n > 0 {
        lemma_parts(part, vs, (n - 1) as nat);
        assert(s.drop_last() =~= Seq::new((n - 1) as nat, |i: int| message::part_text(part, vs[i])));
    }
}

/* ─────────────── declarations ─────────────── */

/// The contract is the one declared; else the name without a trailing `Message`, if
/// anything is left of it.
pub proof fn lemma_contract(declared: Seq<char>, stem: Seq<char>)
    ensures
        message::contract_name(Some(declared), stem) == Some(declared),
        stem.len() > 0 ==> message::contract_name(None, stem + "Message"@) == Some(stem),
        message::contract_name(None, "Message"@) is None,
        stem.len() > 0 && (stem.len() < 7 || stem.skip(stem.len() - 7) != "Message"@) ==> message::contract_name(None, stem) == Some(stem),
{
    reveal_strlit("Message");
    let whole = stem + "Message"@;
    assert(whole.skip(whole.len() - 7) =~= "Message"@);
    assert(whole.take(whole.len() - 7) =~= stem);
    assert("Message"@.skip(0) =~= "Message"@);
}

proof fn lemma_declared(attrs: Seq<AttrModel>, n: nat)
    requires
        n <= attrs.len(),
    ensures
        ({
            let d = variant::declared(attrs, n);
            &&& d.is_view <==> exists|i: int| 0 <= i < n && (#[trigger] attrs[i]) is View
            &&& d.is_borsh <==> exists|i: int| 0 <= i < n && (#[trigger] attrs[i]) is Borsh
            &&& match d.opcode {
                None => forall|i: int| 0 <= i < n ==> !((#[trigger] attrs[i]) is Opcode),
                Some(x) => exists|i: int| 0 <= i < n && #[trigger] attrs[i] == AttrModel::Opcode(x) && forall|j: int|
                    i < j < n ==> !((#[trigger] attrs[j]) is Opcode),
            }
            &&& match d.witness {
                None => forall|i: int| 0 <= i < n ==> !((#[trigger] attrs[i]) is Witness),
                Some(x) => exists|i: int| 0 <= i < n && #[trigger] attrs[i] == AttrModel::Witness(x) && forall|j: int|
                    i < j < n ==> !((#[trigger] attrs[j]) is Witness),
            }
            &&& match d.returned {
                None => forall|i: int| 0 <= i < n ==> !((#[trigger] attrs[i]) is Returns),
                Some(x) => exists|i: int| 0 <= i < n && #[trigger] attrs[i] == AttrModel::Returns(x) && forall|j: int|
                    i < j < n ==> !((#[trigger] attrs[j]) is Returns),
            }
        }),
    decreases n,
{
    if n > 0 {
        lemma_declared(attrs, (n - 1) as nat);
        let a = attrs[n - 1];
    }
}

/// What is declared counts: a variant that is accepted keeps its name, is a view or borsh
/// exactly if an attribute says so, and has the opcode, witness and return of the last
/// attribute that names one, and none without.
pub proof fn lemma_attributes(d: VariantDeclModel)
    ensures
        variant::accepted(d) matches Ok(v) ==> {
            &&& v.ident == d.ident
            &&& v.is_view <==> exists|i: int| 0 <= i < d.attrs.len() && (#[trigger] d.attrs[i]) is View
            &&& v.is_borsh <==> exists|i: int| 0 <= i < d.attrs.len() && (#[trigger] d.attrs[i]) is Borsh
            &&& exists|i: int| 0 <= i < d.attrs.len() && #[trigger] d.attrs[i] == AttrModel::Opcode(v.opcode) && forall|j: int|
                i < j < d.attrs.len() ==> !((#[trigger] d.attrs[j]) is Opcode)
            &&& match v.witness {
                None => forall|i: int| 0 <= i < d.attrs.len() ==> !((#[trigger] d.attrs[i]) is Witness),
                Some(x) => exists|i: int| 0 <= i < d.attrs.len() && #[trigger] d.attrs[i] == AttrModel::Witness(x) && forall|j: int|
                    i < j < d.attrs.len() ==> !((#[trigger] d.attrs[j]) is Witness),
            }
            &&& match v.returned {
                None => forall|i: int| 0 <= i < d.attrs.len() ==> !((#[trigger] d.attrs[i]) is Returns),
                Some(x) => exists|i: int| 0 <= i < d.attrs.len() && #[trigger] d.attrs[i] == AttrModel::Returns(x) && forall|j: int|
                    i < j < d.attrs.len() ==> !((#[trigger] d.attrs[j]) is Returns),
            }
            &&& match (d.fields, v.fields) {
                (FieldsModel::Unit, VariantFieldsModel::Unit) => !v.is_borsh,
                (FieldsModel::Named(a), VariantFieldsModel::Named(b)) => a == b && (v.is_borsh ==> a.len() == 1),
                (FieldsModel::Unnamed(a), VariantFieldsModel::UnnamedSingle(b)) => a.len() == 1 && a[0] == b && v.is_borsh,
                _ => false,
            }
        },
        (forall|i: int| 0 <= i < d.attrs.len() ==> !((#[trigger] d.attrs[i]) is Opcode)) ==> variant::accepted(d) == Err::<
            VariantModel,
            VariantError,
        >(VariantError::Opcode),
{
    lemma_declared(d.attrs, d.attrs.len());
}

/// A variant with an opcode is refused only for what its fields or its return are: a tuple
/// that is not borsh or has not one field, borsh without exactly one field, or several
/// returned values of which one is no integer of fixed width.
pub proof fn lemma_acceptance(d: VariantDeclModel, i: int)
    requires
        0 <= i < d.attrs.len(),
        d.attrs[i] is Opcode,
    ensures
        variant::accepted(d) matches Err(e) ==> match e {
            VariantError::Opcode => false,
            VariantError::Tuple => d.fields is Unnamed && forall|j: int| 0 <= j < d.attrs.len() ==> !((#[trigger] d.attrs[j]) is Borsh),
            VariantError::BorshTuple => d.fields matches FieldsModel::Unnamed(types) && types.len() != 1,
            VariantError::BorshField => (exists|j: int| 0 <= j < d.attrs.len() && (#[trigger] d.attrs[j]) is Borsh) && match d.fields {
                FieldsModel::Unit => true,
                FieldsModel::Named(named) => named.len() != 1,
                FieldsModel::Unnamed(_) => false,
            },
            VariantError::MultiValue(_) => exists|j: int|
                0 <= j < d.attrs.len() && (#[trigger] d.attrs[j] matches AttrModel::Returns(ReturnsModel::Raw(types)) && types.len() > 1
                    && !all_fixed_width(types)),
        },
{
    lemma_declared(d.attrs, d.attrs.len());
    let a = variant::declared(d.attrs, d.attrs.len());
    if let Some(ReturnsModel::Raw(types)) = a.returned {
        if types.len() > 1 {
            lemma_first_other(types, 0);
            if let Some(k) = variant::first_other(types, 0) {
                let j = choose|j: int| 0 <= j < d.attrs.len() && #[trigger] d.attrs[j] == AttrModel::Returns(ReturnsModel::Raw(types))
                    && forall|m: int| j < m < d.attrs.len() ==> !((#[trigger] d.attrs[m]) is Returns);
                assert(d.attrs[j] == AttrModel::Returns(ReturnsModel::Raw(types)));
                assert(!variant::fixed_width(types[k]));
            }
        }
    }
}

/// Whether all types are integers of fixed width.
pub open spec fn all_fixed_width(types: Seq<TypeModel>) -> bool {
    forall|k: int| 0 <= k < types.len() ==> variant::fixed_width(#[trigger] types[k])
}

proof fn lemma_first_other(types: Seq<TypeModel>, from: nat)
    ensures
        match variant::first_other(types, from) {
            Some(k) => from <= k < types.len() && !variant::fixed_width(types[k]),
            None => forall|k: int| from <= k < types.len() ==> variant::fixed_width(#[trigger] types[k]),
        },
    decreases types.len() - from,
{
    if from < types.len() && variant::fixed_width(types[from as int]) {
        lemma_first_other(types, from + 1);
    }
}

/// Several values are returned only if all of them are integers of fixed width, by the last
/// name in their paths.
pub proof fn lemma_several_returned(d: VariantDeclModel, k: int)
    requires
        variant::accepted(d) matches Ok(v) && (v.returned matches Some(ReturnsModel::Raw(types)) && types.len() > 1 && 0 <= k
            < types.len()),
    ensures
        variant::accepted(d) matches Ok(v) && (v.returned matches Some(ReturnsModel::Raw(types)) && (types[k].last matches Some(name)
            && (name == "u8"@ || name == "u16"@ || name == "u32"@ || name == "u64"@ || name == "u128"@ || name == "i8"@ || name
            == "i16"@ || name == "i32"@ || name == "i64"@ || name == "i128"@))),
{
    if let Ok(v) = variant::accepted(d) {
        if let Some(ReturnsModel::Raw(types)) = v.returned {
            lemma_first_other(types, 0);
            assert(variant::fixed_width(types[k]));
        }
    }
}

/* ─────────────── described types ─────────────── */

/// A struct is described by its fields in order, each with a reference to its type, and
/// registers the types of all of them. A tuple struct or a union is refused.
pub proof fn lemma_described_struct(named: Seq<(Seq<char>, TypeModel)>, types: Seq<TypeModel>)
    ensures
        abitype::item_schema(BodyModel::Struct(FieldsModel::Named(named))) == Ok::<(Seq<char>, Seq<TypeModel>), TypeError>(
            (
                struct_source(Seq::new(named.len(), |i: int| field_source(named[i].0, named[i].1.text))),
                Seq::new(named.len(), |i: int| named[i].1),
            ),
        ),
        abitype::item_schema(BodyModel::Struct(FieldsModel::Unit)) matches Ok((s, used)) && s == "::alkabi::schema::Schema::Struct(::std::vec!["@
            + "])"@ && used.len() == 0,
        abitype::item_schema(BodyModel::Struct(FieldsModel::Unnamed(types))) == Err::<(Seq<char>, Seq<TypeModel>), TypeError>(
            TypeError::TupleStruct,
        ),
        abitype::item_schema(BodyModel::Union) == Err::<(Seq<char>, Seq<TypeModel>), TypeError>(TypeError::Union),
{
    lemma_fields(named, named.len());
    let empty = expansion::struct_text(Seq::empty());
    assert(empty =~= "::alkabi::schema::Schema::Struct(::std::vec!["@ + "])"@);
}

/// The schema that a variant of an enum is described by.
pub open spec fn variant_source(fields: FieldsModel) -> Seq<char> {
    match fields {
        FieldsModel::Unit => "::alkabi::schema::Schema::Struct(::std::vec!["@ + "])"@,
        FieldsModel::Named(named) => struct_source(Seq::new(named.len(), |i: int| field_source(named[i].0, named[i].1.text))),
        FieldsModel::Unnamed(types) => reference_source(types[0]),
    }
}

/// An enum is described by its variants in order, each by its name and its fields: none, a
/// struct of them, or the one type of a tuple. A tuple of another length is refused.
pub proof fn lemma_described_enum(vs: Seq<VariantDeclModel>)
    ensures
        match abitype::item_schema(BodyModel::Enum(vs)) {
            Ok((s, _)) => {
                &&& forall|i: int| 0 <= i < vs.len() ==> ((#[trigger] vs[i]).fields matches FieldsModel::Unnamed(types) ==> types.len() == 1)
                &&& s == "::alkabi::schema::Schema::Enum(::std::vec!["@ + Seq::new(
                    vs.len(),
                    |i: int| "(\""@ + vs[i].ident + "\".to_string(), "@ + variant_source(vs[i].fields) + "), "@,
                ).flatten_alt() + "])"@
            },
            Err(TypeError::TupleVariant(k)) => exists|i: int| 0 <= i < vs.len() && ((#[trigger] vs[i]).fields matches FieldsModel::Unnamed(types) && types.len() != 1),
            Err(_) => false,
        },
{
    lemma_variants(vs, vs.len());
}

proof fn lemma_variants(vs: Seq<VariantDeclModel>, n: nat)
    requires
        n <= vs.len(),
    ensures
        match abitype::variant_schemas(vs, n) {
            Ok((s, _)) => {
                &&& forall|i: int| 0 <= i < n ==> ((#[trigger] vs[i]).fields matches FieldsModel::Unnamed(types) ==> types.len() == 1)
                &&& s == Seq::new(
                    n,
                    |i: int| "(\""@ + vs[i].ident + "\".to_string(), "@ + variant_source(vs[i].fields) + "), "@,
                ).flatten_alt()
            },
            Err(TypeError::TupleVariant(k)) => exists|i: int| 0 <= i < n && ((#[trigger] vs[i]).fields matches FieldsModel::Unnamed(types) && types.len() != 1),
            Err(_) => false,
        },
    decreases n,
{
    let all = Seq::new(n, |i: int| "(\""@ + vs[i].ident + "\".to_string(), "@ + variant_source(vs[i].fields) + "), "@);
    if n > 0 {
        lemma_variants(vs, (n - 1) as nat);
        let v = vs[n - 1];
        if let FieldsModel::Named(named) = v.fields {
            lemma_fields(named, named.len());
        }
        assert(expansion::struct_text(Seq::empty()) =~= "::alkabi::schema::Schema::Struct(::std::vec!["@ + "])"@);
        assert(all.drop_last() =~= Seq::new(
            (n - 1) as nat,
            |i: int| "(\""@ + vs[i].ident + "\".to_string(), "@ + variant_source(vs[i].fields) + "), "@,
        ));
        if let Ok((s, used)) = abitype::variant_schemas(vs, (n - 1) as nat) {
            if let Some((t, more)) = abitype::variant_schema(v.fields) {
                assert(t == variant_source(v.fields));
            }
        }
    }
}

/// The impl of a described type: its name, its schema, and a registration of itself, once,
/// and of the types it uses.
pub proof fn lemma_described(ident: Seq<char>, schema: Seq<char>, types: Seq<TypeModel>)
    ensures
        abitype::type_text(ident, schema, abitype::uses_text(types, types.len())) == "impl ::alkabi::AlkabiType for "@ + ident
            + " { fn name() -> ::core::option::Option<&'static str> { ::core::option::Option::Some(\""@ + ident
            + "\") } fn schema() -> ::alkabi::schema::Schema { "@ + schema
            + " } fn collect(reg: &mut ::alkabi::schema::TypeRegistry) { if !reg.contains(\""@ + ident + "\") { reg.insert(\""@ + ident
            + "\", <Self as ::alkabi::AlkabiType>::schema()); "@ + Seq::new(types.len(), |i: int| registration(types[i], "reg"@)).flatten_alt()
            + "} } }"@,
{
    lemma_collects(types, types.len());
}

/* ─────────────── acceptance of an item ─────────────── */

proof fn lemma_accepted_variants(ds: Seq<VariantDeclModel>, n: nat, i: int)
    requires
        n <= ds.len(),
        0 <= i < n,
    ensures
        message::accepted_variants(ds, n) matches Ok(vs) ==> vs.len() == n && variant::accepted(ds[i]) == Ok::<VariantModel, VariantError>(vs[i]),
        message::accepted_variants(ds, n) matches Err(e) ==> (e matches MessageError::Variant(k, x) && (n <= usize::MAX ==> k < n
            && variant::accepted(ds[k as int]) == Err::<VariantModel, VariantError>(x) && (i < k ==> variant::accepted(ds[i]) is Ok))),
    decreases n,
{
    reveal_with_fuel(message::accepted_variants, 2);
    if n > 1 {
        lemma_accepted_variants(ds, (n - 1) as nat, if i < n - 1 { i } else { 0 });
        if message::accepted_variants(ds, (n - 1) as nat) is Ok && i < n - 1 {
            lemma_accepted_variants(ds, (n - 1) as nat, i);
        }
    }
}

proof fn lemma_taken(vs: Seq<VariantModel>, from: nat)
    ensures
        match message::first_taken(vs, from) {
            Some(k) => from <= k < vs.len() && message::opcode_taken(vs, k),
            None => forall|k: int| from <= k < vs.len() ==> !#[trigger] message::opcode_taken(vs, k),
        },
    decreases vs.len() - from,
{
    if from < vs.len() && !message::opcode_taken(vs, from as int) {
        lemma_taken(vs, from + 1);
    }
}

/// An enum that is accepted has as many variants as are declared, each accepted, in order,
/// and no two of them with one opcode.
pub proof fn lemma_item(declared: Option<Seq<char>>, ident: Seq<char>, ds: Seq<VariantDeclModel>, i: int, j: int)
    requires
        0 <= i < ds.len(),
        0 <= j < ds.len(),
    ensures
        message::accepted_item(declared, ident, BodyModel::Enum(ds)) matches Ok(item) ==> {
            &&& message::contract_name(declared, ident) == Some(item.0)
            &&& item.1.len() == ds.len()
            &&& variant::accepted(ds[i]) == Ok::<VariantModel, VariantError>(item.1[i])
            &&& i != j ==> item.1[i].opcode != item.1[j].opcode
        },
{
    lemma_accepted_variants(ds, ds.len(), i);
    if let Ok(vs) = message::accepted_variants(ds, ds.len()) {
        lemma_taken(vs, 0);
        if message::first_taken(vs, 0) is None && i != j {
            assert(!message::opcode_taken(vs, i) && !message::opcode_taken(vs, j));
            assert(i < j ==> vs[i].opcode != vs[j].opcode);
            assert(j < i ==> vs[j].opcode != vs[i].opcode);
        }
    }
}

/// An item is refused only if it is no enum, has no contract to name, has a variant that is
/// refused, or two with one opcode, and then for that reason.
pub proof fn lemma_item_refused(declared: Option<Seq<char>>, ident: Seq<char>, body: BodyModel)
    requires
        body matches BodyModel::Enum(ds) ==> ds.len() <= usize::MAX,
    ensures
        !(body is Enum) ==> message::accepted_item(declared, ident, body) == Err::<(Seq<char>, Seq<VariantModel>), MessageError>(
            MessageError::NotEnum,
        ),
        body is Enum && message::contract_name(declared, ident) is None ==> message::accepted_item(declared, ident, body) == Err::<
            (Seq<char>, Seq<VariantModel>),
            MessageError,
        >(MessageError::Contract),
        body matches BodyModel::Enum(ds) ==> (message::accepted_item(declared, ident, body) matches Err(e) ==> (match e {
            MessageError::NotEnum => false,
            MessageError::Contract => message::contract_name(declared, ident) is None,
            MessageError::Variant(k, x) => k < ds.len() && variant::accepted(ds[k as int]) == Err::<VariantModel, VariantError>(x),
            MessageError::DuplicateOpcode(k) => k < ds.len() && exists|j: int| #![trigger ds[j]]
                0 <= j < k && variant::accepted(ds[j])->Ok_0.opcode == variant::accepted(ds[k as int])->Ok_0.opcode,
        })),
{
    if let BodyModel::Enum(ds) = body {
        if ds.len() > 0 {
            lemma_accepted_variants(ds, ds.len(), 0);
        }
        if let Ok(vs) = message::accepted_variants(ds, ds.len()) {
            lemma_taken(vs, 0);
            if let Some(k) = message::first_taken(vs, 0) {
                if ds.len() > 0 {
                    let j = choose|j: int| 0 <= j < k && (#[trigger] vs[j]).opcode == vs[k].opcode;
                    lemma_accepted_variants(ds, ds.len(), k);
                    lemma_accepted_variants(ds, ds.len(), j);
                    let d = ds[j];
                }
            }
        }
    }
}

/// Types are listed one behind the other with commas between them.
pub proof fn lemma_types_listed(types: Seq<TypeModel>, ty: TypeModel)
    ensures
        types.len() == 0 ==> message::types_text(types.push(ty), 1) == ty.text,
        types.len() > 0 ==> message::types_text(types.push(ty), types.len() + 1) == message::types_text(types, types.len()) + ", "@ + ty.text,
{
    reveal_with_fuel(message::types_text, 2);
    if types.len() > 0 {
        lemma_types_ahead(types, ty, types.len());
    }
}

proof fn lemma_types_ahead(types: Seq<TypeModel>, ty: TypeModel, n: nat)
    requires
        n <= types.len(),
    ensures
        message::types_text(types.push(ty), n) == message::types_text(types, n),
    decreases n,
{
    if n > 0 {
        lemma_types_ahead(types, ty, (n - 1) as nat);
    }
}

/// The integers of fixed width, by the last name in their paths, and nothing else, may be
/// returned together.
pub proof fn lemma_fixed_width(text: Seq<char>, name: Seq<char>)
    ensures
        variant::fixed_width(TypeModel { text, last: Some(name) }) <==> (name == "u8"@ || name == "u16"@ || name == "u32"@ || name == "u64"@
            || name == "u128"@ || name == "i8"@ || name == "i16"@ || name == "i32"@ || name == "i64"@ || name == "i128"@),
        !variant::fixed_width(TypeModel { text, last: None }),
{
}

/// An attribute is known by its name.
pub proof fn lemma_attribute_names(name: Seq<char>)
    ensures
        variant::named_attr(name) is Opcode <==> name == "opcode"@,
        variant::named_attr(name) is View <==> name == "view"@,
        variant::named_attr(name) is Borsh <==> name == "borsh"@,
        variant::named_attr(name) is Witness <==> name == "witness"@,
        variant::named_attr(name) is Returns <==> name == "returns"@,
{
    reveal_strlit("opcode");
    reveal_strlit("view");
    reveal_strlit("borsh");
    reveal_strlit("witness");
    reveal_strlit("returns");
    assert("opcode"@.len() == 6 && "view"@.len() == 4 && "borsh"@.len() == 5);
    assert("witness"@.len() == 7 && "returns"@.len() == 7 && "witness"@[0] == 'w' && "returns"@[0] == 'r');
}

} // verus!
