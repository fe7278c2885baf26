//! Documents, schemas, names, and the source that the derives write.

use alkabi::abi::{AbiDocument, AbiIo, AbiMethod, IoMode, MethodKind};
use alkabi::alkane::AlkaneId;
use alkabi::analysis::synth_input_words;
use alkabi::casing::{snake_to_camel, to_lower_camel_case, to_snake_case};
use alkabi::expansion::abitype;
use alkabi::expansion::abitype::TypeError;
use alkabi::expansion::message;
use alkabi::expansion::message::MessageError;
use alkabi::expansion::{FieldsDecl, ItemBody, ItemDecl, ReturnsSpec, TypeDecl, VariantAttr, VariantDecl, VariantError};
use alkabi::extract::{parse_abi_json, AbiError, ExtractError};
use alkabi::json;
use alkabi::json::Json;
use alkabi::plan::{BytesExpr, ParseError, Plan};
use alkabi::schema::{write_json_string, Schema, TypeRegistry};
use alkabi::text::{split_text, text_before, trim};
use alkabi::witness::witness_payload;
use alkabi::AlkabiType;

/* ─────────────── JSON ─────────────── */

#[test]
fn strings_are_escaped() {
    let mut out = String::new();
    write_json_string(&mut out, "a\"b\\c\nd\re\tf\u{1}é");
    assert_eq!(out, "\"a\\\"b\\\\c\\nd\\re\\tf\\u0001é\"");
    assert_eq!(json::parse(&out), Ok(Json::String("a\"b\\c\nd\re\tf\u{1}é".to_string())));
}

#[test]
fn texts_are_read_as_written() {
    let text = "{\"b\":[1,340282366920938463463374607431768211455,true,null],\"a\":{\"x\":\"y\"}}";
    let value = json::parse(text).unwrap();
    assert_eq!(value.to_text(), text);
    assert_eq!(value.get("a").unwrap().get("x").unwrap().as_str(), Some("y"));
    assert_eq!(value.get("c"), None);
    assert_eq!(json::parse("{"), Err("EOF while parsing an object at line 1 column 1".to_string()));
    assert_eq!(json::prettify("{\"a\":[1]}").unwrap(), "{\n  \"a\": [\n    1\n  ]\n}");
    assert_eq!(json::prettify("nope"), None);
}

/* ─────────────── schemas ─────────────── */

fn p(name: &'static str) -> Schema {
    Schema::Primitive(name)
}

#[test]
fn schemas_are_written_in_the_grammar() {
    let s = Schema::Struct(vec![
        ("a".to_string(), Schema::Option(Box::new(p("u8")))),
        ("b".to_string(), Schema::Vec(Box::new(Schema::Ref("T".to_string())))),
        ("c".to_string(), Schema::Array(Box::new(p("bool")), 3)),
    ]);
    assert_eq!(
        s.to_json(),
        "{\"struct\":{\"a\":{\"option\":\"u8\"},\"b\":{\"array\":{\"type\":{\"$ref\":\"T\"}}},\"c\":{\"array\":{\"type\":\"bool\",\"len\":3}}}}"
    );
    let mut out = "x".to_string();
    p("string").write_json(&mut out);
    assert_eq!(out, "x\"string\"");
    assert_eq!(s.clone(), s);
}

#[test]
fn primitives_are_known_by_name() {
    for name in ["u8", "u16", "u32", "u64", "u128", "i8", "i16", "i32", "i64", "i128", "f32", "f64", "bool", "string"] {
        assert_eq!(Schema::primitive(name).unwrap().to_json(), format!("\"{}\"", name));
    }
    assert_eq!(Schema::primitive("String"), None);
    assert_eq!(Schema::primitive(""), None);
}

#[test]
fn registries_keep_their_names_in_order() {
    let mut reg = TypeRegistry::new();
    assert!(reg.is_empty());
    reg.insert("b", p("u8"));
    reg.insert("a", p("u16"));
    reg.insert("ab", p("u32"));
    reg.insert("b", p("u64"));
    assert!(!reg.is_empty());
    assert!(reg.contains("ab"));
    assert!(!reg.contains("c"));
    assert_eq!(reg.get("b"), Some(&p("u64")));
    let names: Vec<&String> = reg.iter().into_iter().map(|(n, _)| n).collect();
    assert_eq!(names, vec!["a", "ab", "b"]);
    let mut out = String::new();
    reg.write_json(&mut out);
    assert_eq!(out, "{\"a\":\"u16\",\"ab\":\"u32\",\"b\":\"u64\"}");
}

#[test]
fn types_describe_themselves() {
    assert_eq!(<u128 as AlkabiType>::schema(), p("u128"));
    assert_eq!(<bool as AlkabiType>::reference(), p("bool"));
    assert_eq!(<AlkaneId as AlkabiType>::reference(), Schema::Ref("AlkaneId".to_string()));
    assert_eq!(
        <Option<Vec<AlkaneId>> as AlkabiType>::reference(),
        Schema::Option(Box::new(Schema::Vec(Box::new(Schema::Ref("AlkaneId".to_string())))))
    );
    assert_eq!(<[u8; 4] as AlkabiType>::schema(), Schema::Array(Box::new(p("u8")), 4));
    let mut reg = TypeRegistry::new();
    <[Option<AlkaneId>; 2] as AlkabiType>::collect(&mut reg);
    <AlkaneId as AlkabiType>::collect(&mut reg);
    assert_eq!(reg.iter().len(), 1);
    assert_eq!(reg.get("AlkaneId").unwrap().to_json(), "{\"struct\":{\"block\":\"u128\",\"tx\":\"u128\"}}");
}

#[test]
fn inputs_are_counted_in_words() {
    let two = Schema::Struct(vec![("a".to_string(), p("u8")), ("b".to_string(), Schema::Struct(vec![("c".to_string(), p("i128"))]))]);
    assert_eq!(synth_input_words(&two), Some(2));
    assert_eq!(synth_input_words(&Schema::Struct(vec![])), Some(0));
    assert_eq!(synth_input_words(&p("string")), None);
    assert_eq!(synth_input_words(&Schema::Struct(vec![("a".to_string(), Schema::Ref("T".to_string()))])), None);
}

/* ─────────────── documents ─────────────── */

fn full_document() -> AbiDocument {
    let mut types = TypeRegistry::new();
    types.insert("Kind", Schema::Enum(vec![("A".to_string(), Schema::Struct(vec![])), ("B".to_string(), p("u8"))]));
    AbiDocument {
        contract: "Full \"quoted\"".to_string(),
        types,
        methods: vec![AbiMethod {
            name: "doIt".to_string(),
            opcode: u128::MAX,
            kind: MethodKind::View,
            input: Some(AbiIo { mode: IoMode::Legacy, schema: Schema::Struct(vec![("x".to_string(), p("u128"))]) }),
            witness: Some(AbiIo { mode: IoMode::Borsh, schema: Schema::Ref("Kind".to_string()) }),
            output: Some(AbiIo { mode: IoMode::Raw, schema: Schema::Array(Box::new(p("u8")), 32) }),
            plan: Some(Plan { expr: BytesExpr::Const(vec![1, 2]), trials: 5 }),
        }],
    }
}

#[test]
fn documents_are_read_back() {
    let doc = full_document();
    let text = doc.to_json();
    assert_eq!(
        text,
        "{\"alkabi\":1,\"contract\":\"Full \\\"quoted\\\"\",\"types\":{\"Kind\":{\"enum\":[{\"struct\":{\"A\":{\"struct\":{}}}},{\"struct\":{\"B\":\"u8\"}}]}},\"methods\":[{\"name\":\"doIt\",\"opcode\":340282366920938463463374607431768211455,\"kind\":\"view\",\"input\":{\"mode\":\"legacy\",\"schema\":{\"struct\":{\"x\":\"u128\"}}},\"witness\":{\"mode\":\"borsh\",\"schema\":{\"$ref\":\"Kind\"}},\"output\":{\"mode\":\"raw\",\"schema\":{\"array\":{\"type\":\"u8\",\"len\":32}}},\"plan\":{\"v\":1,\"expr\":{\"bytes\":\"0102\"},\"trials\":5}}]}"
    );
    let (again, normalized) = parse_abi_json(&text).unwrap();
    assert!(!normalized);
    assert_eq!(again, doc);
    let mut out = String::new();
    doc.methods[0].write_json(&mut out);
    assert!(text.contains(&out));
    assert_eq!(doc.methods[0].clone(), doc.methods[0]);
}

#[test]
fn deep_documents_are_not_printed_pretty() {
    let mut schema = p("u8");
    for _ in 0..200 {
        schema = Schema::Option(Box::new(schema));
    }
    let mut types = TypeRegistry::new();
    types.insert("Deep", schema);
    let doc = AbiDocument { contract: "C".to_string(), types, methods: vec![] };
    assert_eq!(doc.try_to_json_pretty(), None);
    assert_eq!(doc.try_to_ts(), None);
    assert!(matches!(parse_abi_json(&doc.to_json()), Err(ExtractError::Json(why)) if why.contains("recursion limit exceeded")));
}

fn error(text: &str) -> AbiError {
    match parse_abi_json(text) {
        Err(ExtractError::Abi(e)) => e,
        other => panic!("{:?}", other),
    }
}

fn method(rest: &str) -> String {
    format!("{{\"alkabi\":1,\"contract\":\"C\",\"methods\":[{{\"name\":\"m\",\"opcode\":1{}}}]}}", rest)
}

fn schema(s: &str) -> String {
    format!("{{\"alkabi\":1,\"contract\":\"C\",\"types\":{{\"T\":{}}},\"methods\":[]}}", s)
}

#[test]
fn document_errors_are_told_apart() {
    assert_eq!(error("{\"alkabi\":1}"), AbiError::Contract);
    assert_eq!(error("{\"alkabi\":1,\"contract\":\"C\"}"), AbiError::Methods);
    assert_eq!(error("{\"alkabi\":1,\"contract\":\"C\",\"methods\":[{}]}"), AbiError::MethodName);
    assert_eq!(error("{\"alkabi\":1,\"contract\":\"C\",\"methods\":[{\"name\":\"m\"}]}"), AbiError::MethodOpcode);
    assert_eq!(error("{\"alkabi\":1,\"contract\":\"C\",\"methods\":[{\"name\":\"m\",\"opcode\":-1}]}"), AbiError::Opcode);
    assert_eq!(error("{\"alkabi\":1,\"contract\":\"C\",\"methods\":[{\"name\":\"m\",\"opcode\":[]}]}"), AbiError::OpcodeType);
    assert_eq!(error(&method("")), AbiError::Kind);
    assert_eq!(error(&method(",\"kind\":\"view\",\"input\":{}")), AbiError::Mode);
    assert_eq!(error(&method(",\"kind\":\"view\",\"input\":{\"mode\":\"raw\"}")), AbiError::IoSchema);
    assert_eq!(error(&method(",\"kind\":\"view\",\"plan\":{}")), AbiError::Plan(ParseError::MissingExpr));
    assert_eq!(error(&schema("\"u7\"")), AbiError::Primitive);
    assert_eq!(error(&schema("{\"$ref\":1}")), AbiError::Ref);
    assert_eq!(error(&schema("{\"struct\":1}")), AbiError::StructFields);
    assert_eq!(error(&schema("{\"enum\":1}")), AbiError::EnumVariants);
    assert_eq!(error(&schema("{\"enum\":[1]}")), AbiError::Variant);
    assert_eq!(error(&schema("{\"enum\":[{\"struct\":{}}]}")), AbiError::VariantNames);
    assert_eq!(error(&schema("{\"array\":{}}")), AbiError::ArrayType);
    assert_eq!(error(&schema("{\"array\":{\"type\":\"u8\",\"len\":-1}}")), AbiError::ArrayLen);
    assert_eq!(error(&schema("{}")), AbiError::SchemaObject);
    assert_eq!(error(&schema("1")), AbiError::SchemaValue);
    assert_eq!(error("{\"contract\":\"C\",\"methods\":[{\"name\":\"m\",\"opcode\":\"7\",\"params\":[{}]}]}"), AbiError::ParamName);
    assert_eq!(
        error("{\"contract\":\"C\",\"methods\":[{\"name\":\"m\",\"opcode\":\"7\",\"params\":[{\"name\":\"x\"}]}]}"),
        AbiError::ParamType
    );
}

#[test]
fn opcodes_may_be_strings() {
    let (abi, _) = parse_abi_json("{\"contract\":\"C\",\"methods\":[{\"name\":\"get\",\"opcode\":\"340282366920938463463374607431768211455\",\"returns\":\" Vec< Thing > \"}]}").unwrap();
    assert_eq!(abi.methods[0].opcode, u128::MAX);
    assert_eq!(abi.methods[0].kind, MethodKind::View);
    assert_eq!(
        abi.methods[0].output.as_ref().unwrap().schema,
        Schema::Vec(Box::new(Schema::Ref("Thing".to_string())))
    );
    // what was normalized is native from then on
    let (again, normalized) = parse_abi_json(&abi.to_json()).unwrap();
    assert!(!normalized);
    assert_eq!(again, abi);
}

/* ─────────────── names ─────────────── */

#[test]
fn names_change_their_case() {
    assert_eq!(to_snake_case("GetTotalSupply"), "get_total_supply");
    assert_eq!(to_snake_case("HTTP"), "h_t_t_p");
    assert_eq!(to_snake_case("ÄrgerÜber"), "ärger_über");
    assert_eq!(to_lower_camel_case("GetTotalSupply"), "getTotalSupply");
    assert_eq!(to_lower_camel_case("Über"), "über");
    assert_eq!(to_lower_camel_case(""), "");
    assert_eq!(snake_to_camel("get_total__supply_"), "getTotalSupply");
    assert_eq!(snake_to_camel("a_ß_é"), "aSSÉ");
    // the two names of a method agree
    assert_eq!(snake_to_camel(&to_snake_case("GetTotalSupply2")), to_lower_camel_case("GetTotalSupply2"));
}

#[test]
fn texts_are_cut_and_ordered() {
    assert_eq!(trim(" \t\u{2003}a b\u{a0}\n"), "a b");
    assert_eq!(trim("   "), "");
    assert_eq!(split_text("a,,b", ','), vec!["a", "", "b"]);
    assert_eq!(split_text("", ','), vec![""]);
    assert!(text_before("a", "ab"));
    assert!(text_before("Z", "a"));
    assert!(text_before("z", "é"));
    assert!(!text_before("a", "a"));
}

/* ─────────────── derives ─────────────── */

fn ty(text: &str) -> TypeDecl {
    TypeDecl { text: text.to_string(), last: Some(text.to_string()) }
}

fn variant(ident: &str, attrs: Vec<VariantAttr>, fields: FieldsDecl) -> VariantDecl {
    VariantDecl { ident: ident.to_string(), attrs, fields }
}

fn item(ident: &str, variants: Vec<VariantDecl>) -> ItemDecl {
    ItemDecl { ident: ident.to_string(), body: ItemBody::Enum(variants) }
}

fn named(fields: &[(&str, &str)]) -> FieldsDecl {
    FieldsDecl::Named(fields.iter().map(|(n, t)| (n.to_string(), ty(t))).collect())
}

#[test]
fn messages_are_expanded() {
    let decl = item(
        "PoolMessage",
        vec![
            variant("Init", vec![VariantAttr::Opcode(0)], FieldsDecl::Unit),
            variant(
                "GetPair",
                vec![VariantAttr::Opcode(9), VariantAttr::View, VariantAttr::Returns(ReturnsSpec::Raw(vec![ty("u64"), ty("u128")]))],
                named(&[("token_a", "AlkaneId")]),
            ),
            variant(
                "Bet",
                vec![
                    VariantAttr::Other,
                    VariantAttr::Opcode(7),
                    VariantAttr::Borsh,
                    VariantAttr::Witness(ty("Proof")),
                    VariantAttr::Returns(ReturnsSpec::Borsh(ty("Answer"))),
                ],
                FieldsDecl::Unnamed(vec![ty("Params")]),
            ),
        ],
    );
    let expected = [
        "impl ::alkanes_runtime::message::MessageDispatch<Pool> for PoolMessage { ",
        "fn from_opcode(opcode: u128, __macro_inputs: Vec<u128>) -> ::anyhow::Result<Self> { match opcode { ",
        "0u128 => Ok(Self::Init), ",
        "9u128 => { let mut __reader = ::alkabi::legacy::LegacyReader::new(&__macro_inputs); ",
        "let token_a = <AlkaneId as ::alkabi::legacy::LegacyDecode>::decode(&mut __reader)?; ",
        "Ok(Self::GetPair { token_a, }) } ",
        "7u128 => { let __params: Params = ::alkabi::borsh_io::decode_words(&__macro_inputs)?; Ok(Self::Bet(__params)) } ",
        "_ => Err(::anyhow::anyhow!(\"Unknown opcode: {}\", opcode)), } } ",
        "fn dispatch(&self, responder: &Pool) -> ::anyhow::Result<::alkanes_support::response::CallResponse> { match self { ",
        "Self::Init => { let __result = responder.init()?; ",
        "::alkabi::abi_return::finish_return::<_, ::alkabi::abi_return::RawMode, (), _, _>(__result, responder) } ",
        "Self::GetPair { token_a, } => { let __result = responder.get_pair(token_a.clone(), )?; ",
        "::alkabi::abi_return::finish_return::<_, ::alkabi::abi_return::RawMode, (u64, u128), _, _>(__result, responder) } ",
        "Self::Bet(__params) => { let __witness: Proof = ::alkabi::witness::decode_witness(responder)?; ",
        "let __result = responder.bet(__params, &__witness, )?; ",
        "::alkabi::abi_return::finish_return::<_, ::alkabi::abi_return::BorshMode, Answer, _, _>(__result, responder) } ",
        "} } fn export_abi() -> Vec<u8> { let mut __reg = ::alkabi::schema::TypeRegistry::new(); ",
        "<AlkaneId as ::alkabi::AlkabiType>::collect(&mut __reg); ",
        "<u64 as ::alkabi::AlkabiType>::collect(&mut __reg); ",
        "<u128 as ::alkabi::AlkabiType>::collect(&mut __reg); ",
        "<Params as ::alkabi::AlkabiType>::collect(&mut __reg); ",
        "<Proof as ::alkabi::AlkabiType>::collect(&mut __reg); ",
        "<Answer as ::alkabi::AlkabiType>::collect(&mut __reg); ",
        "let __doc = ::alkabi::abi::AbiDocument { contract: ::std::string::String::from(\"Pool\"), types: __reg, methods: ::std::vec![",
        "::alkabi::abi::AbiMethod { name: ::std::string::String::from(\"init\"), opcode: 0u128, kind: ::alkabi::abi::MethodKind::Execute, ",
        "input: ::core::option::Option::None, witness: ::core::option::Option::None, output: ::core::option::Option::None, plan: ::core::option::Option::None }, ",
        "::alkabi::abi::AbiMethod { name: ::std::string::String::from(\"getPair\"), opcode: 9u128, kind: ::alkabi::abi::MethodKind::View, ",
        "input: ::core::option::Option::Some(::alkabi::abi::AbiIo { mode: ::alkabi::abi::IoMode::Legacy, schema: ::alkabi::schema::Schema::Struct(::std::vec![(\"token_a\".to_string(), <AlkaneId as ::alkabi::AlkabiType>::reference()), ]) }), ",
        "witness: ::core::option::Option::None, ",
        "output: ::core::option::Option::Some(::alkabi::abi::AbiIo { mode: ::alkabi::abi::IoMode::Raw, schema: ::alkabi::schema::Schema::Struct(::std::vec![(\"_0\".to_string(), <u64 as ::alkabi::AlkabiType>::reference()), (\"_1\".to_string(), <u128 as ::alkabi::AlkabiType>::reference()), ]) }), ",
        "plan: ::core::option::Option::None }, ",
        "::alkabi::abi::AbiMethod { name: ::std::string::String::from(\"bet\"), opcode: 7u128, kind: ::alkabi::abi::MethodKind::Execute, ",
        "input: ::core::option::Option::Some(::alkabi::abi::AbiIo { mode: ::alkabi::abi::IoMode::Borsh, schema: <Params as ::alkabi::AlkabiType>::reference() }), ",
        "witness: ::core::option::Option::Some(::alkabi::abi::AbiIo { mode: ::alkabi::abi::IoMode::Borsh, schema: <Proof as ::alkabi::AlkabiType>::reference() }), ",
        "output: ::core::option::Option::Some(::alkabi::abi::AbiIo { mode: ::alkabi::abi::IoMode::Borsh, schema: <Answer as ::alkabi::AlkabiType>::reference() }), ",
        "plan: ::core::option::Option::None }, ",
        "], }; __doc.to_json().into_bytes() } }",
    ]
    .concat();
    assert_eq!(message::expand(&decl, &None).unwrap(), expected);
    let contract = Some("Other".to_string());
    assert!(message::expand(&decl, &contract).unwrap().starts_with("impl ::alkanes_runtime::message::MessageDispatch<Other> for PoolMessage"));
}

#[test]
fn message_errors_are_told_apart() {
    let one = |v: VariantDecl| message::expand(&item("PoolMessage", vec![v]), &None);
    let op = || VariantAttr::Opcode(1);
    assert_eq!(
        message::expand(&ItemDecl { ident: "S".to_string(), body: ItemBody::Struct(FieldsDecl::Unit) }, &None),
        Err(MessageError::NotEnum)
    );
    assert_eq!(message::expand(&item("Message", vec![]), &None), Err(MessageError::Contract));
    assert_eq!(one(variant("A", vec![], FieldsDecl::Unit)), Err(MessageError::Variant(0, VariantError::Opcode)));
    assert_eq!(
        one(variant("A", vec![op()], FieldsDecl::Unnamed(vec![ty("u8")]))),
        Err(MessageError::Variant(0, VariantError::Tuple))
    );
    assert_eq!(
        one(variant("A", vec![op(), VariantAttr::Borsh], FieldsDecl::Unnamed(vec![]))),
        Err(MessageError::Variant(0, VariantError::BorshTuple))
    );
    assert_eq!(
        one(variant("A", vec![op(), VariantAttr::Borsh], FieldsDecl::Unit)),
        Err(MessageError::Variant(0, VariantError::BorshField))
    );
    assert_eq!(
        one(variant("A", vec![op(), VariantAttr::Returns(ReturnsSpec::Raw(vec![ty("u8"), ty("String")]))], FieldsDecl::Unit)),
        Err(MessageError::Variant(0, VariantError::MultiValue(1)))
    );
    let twice = item("PoolMessage", vec![variant("A", vec![op()], FieldsDecl::Unit), variant("B", vec![op()], FieldsDecl::Unit)]);
    assert_eq!(message::expand(&twice, &None), Err(MessageError::DuplicateOpcode(1)));
}

#[test]
fn types_are_expanded() {
    let s = ItemDecl { ident: "Id".to_string(), body: ItemBody::Struct(named(&[("block", "u32"), ("tx", "u64")])) };
    assert_eq!(
        abitype::expand(&s).unwrap(),
        [
            "impl ::alkabi::AlkabiType for Id { fn name() -> ::core::option::Option<&'static str> { ::core::option::Option::Some(\"Id\") } ",
            "fn schema() -> ::alkabi::schema::Schema { ::alkabi::schema::Schema::Struct(::std::vec![",
            "(\"block\".to_string(), <u32 as ::alkabi::AlkabiType>::reference()), ",
            "(\"tx\".to_string(), <u64 as ::alkabi::AlkabiType>::reference()), ]) } ",
            "fn collect(reg: &mut ::alkabi::schema::TypeRegistry) { if !reg.contains(\"Id\") { ",
            "reg.insert(\"Id\", <Self as ::alkabi::AlkabiType>::schema()); ",
            "<u32 as ::alkabi::AlkabiType>::collect(reg); <u64 as ::alkabi::AlkabiType>::collect(reg); } } }",
        ]
        .concat()
    );
    let e = item("Kind", vec![variant("A", vec![], FieldsDecl::Unit), variant("B", vec![], FieldsDecl::Unnamed(vec![ty("Id")]))]);
    assert!(abitype::expand(&e).unwrap().contains(
        "::alkabi::schema::Schema::Enum(::std::vec![(\"A\".to_string(), ::alkabi::schema::Schema::Struct(::std::vec![])), (\"B\".to_string(), <Id as ::alkabi::AlkabiType>::reference()), ])"
    ));
}

#[test]
fn type_errors_are_told_apart() {
    let tuple = ItemDecl { ident: "T".to_string(), body: ItemBody::Struct(FieldsDecl::Unnamed(vec![ty("u8")])) };
    assert_eq!(abitype::expand(&tuple), Err(TypeError::TupleStruct));
    let union = ItemDecl { ident: "U".to_string(), body: ItemBody::Union };
    assert_eq!(abitype::expand(&union), Err(TypeError::Union));
    let e = item("E", vec![variant("A", vec![], FieldsDecl::Unit), variant("B", vec![], FieldsDecl::Unnamed(vec![]))]);
    assert_eq!(abitype::expand(&e), Err(TypeError::TupleVariant(1)));
}

/* ─────────────── witness ─────────────── */

#[test]
fn the_first_payload_counts() {
    assert_eq!(witness_payload(&[]), None);
    assert_eq!(witness_payload(&[None, Some(vec![])]), None);
    assert_eq!(witness_payload(&[None, Some(vec![]), Some(vec![1, 2]), Some(vec![3])]), Some(vec![1, 2]));
}
