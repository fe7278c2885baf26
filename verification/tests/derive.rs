//! A contract's messages, as the derives make them: decoding, dispatch and the ABI
//! document.

use alkabi::abi::{AbiDocument, AbiIo, AbiMethod, IoMode, MethodKind};
use alkabi::abi_return::{finish_return, AbiReturnShape, AlkabiResponse, BorshMode, RawMode, RawReturn, ReturnEncode, ReturnError};
use alkabi::alkane::{AlkaneId, AlkaneTransfer, AlkaneTransferParcel};
use alkabi::borsh_io::words_to_bytes;
use alkabi::expansion::{
    attr_kind, message, AttrKind, FieldsDecl, ItemBody, ItemDecl, ReturnsSpec, TypeDecl, VariantAttr, VariantDecl,
};
use alkabi::extract::parse_abi_json;
use alkabi::legacy::{LegacyDecode, LegacyError, LegacyReader};
use alkabi::schema::{Schema, TypeRegistry};
use alkabi::AlkabiType;
use borsh::{BorshDeserialize, BorshSerialize};
use std::collections::BTreeMap;
use std::io::{Cursor, Read, Write};

#[derive(Debug, PartialEq)]
struct SchemaTestId {
    block: u32,
    tx: u64,
}

#[derive(Debug, PartialEq)]
struct SchemaBetParams {
    nonce: u128,
    target: u128,
    id: SchemaTestId,
    tags: Vec<String>,
    maybe: Option<u8>,
}

#[derive(Debug, PartialEq)]
struct SchemaBetResponse {
    won: u128,
}

#[derive(Debug, PartialEq)]
#[allow(dead_code)]
enum UpgradeKind {
    Taquero,
    SalsaBar,
}

impl BorshSerialize for SchemaBetParams {
    fn serialize<W: Write>(&self, w: &mut W) -> std::io::Result<()> {
        self.nonce.serialize(w)?;
        self.target.serialize(w)?;
        self.id.block.serialize(w)?;
        self.id.tx.serialize(w)?;
        self.tags.serialize(w)?;
        self.maybe.serialize(w)
    }
}

impl BorshDeserialize for SchemaBetParams {
    fn deserialize_reader<R: Read>(r: &mut R) -> std::io::Result<Self> {
        Ok(SchemaBetParams {
            nonce: u128::deserialize_reader(r)?,
            target: u128::deserialize_reader(r)?,
            id: SchemaTestId { block: u32::deserialize_reader(r)?, tx: u64::deserialize_reader(r)? },
            tags: Vec::<String>::deserialize_reader(r)?,
            maybe: Option::<u8>::deserialize_reader(r)?,
        })
    }
}

impl AlkabiType for SchemaTestId {
    fn name() -> Option<&'static str> {
        Some("SchemaTestId")
    }
    fn schema() -> Schema {
        Schema::Struct(vec![
            ("block".to_string(), <u32 as AlkabiType>::reference()),
            ("tx".to_string(), <u64 as AlkabiType>::reference()),
        ])
    }
    fn collect(reg: &mut TypeRegistry) {
        if !reg.contains("SchemaTestId") {
            reg.insert("SchemaTestId", <Self as AlkabiType>::schema());
        }
    }
}

impl AlkabiType for SchemaBetParams {
    fn name() -> Option<&'static str> {
        Some("SchemaBetParams")
    }
    fn schema() -> Schema {
        Schema::Struct(vec![
            ("nonce".to_string(), <u128 as AlkabiType>::reference()),
            ("target".to_string(), <u128 as AlkabiType>::reference()),
            ("id".to_string(), <SchemaTestId as AlkabiType>::reference()),
            ("tags".to_string(), <Vec<String> as AlkabiType>::reference()),
            ("maybe".to_string(), <Option<u8> as AlkabiType>::reference()),
        ])
    }
    fn collect(reg: &mut TypeRegistry) {
        if !reg.contains("SchemaBetParams") {
            reg.insert("SchemaBetParams", <Self as AlkabiType>::schema());
            <u128 as AlkabiType>::collect(reg);
            <u128 as AlkabiType>::collect(reg);
            <SchemaTestId as AlkabiType>::collect(reg);
            <Vec<String> as AlkabiType>::collect(reg);
            <Option<u8> as AlkabiType>::collect(reg);
        }
    }
}

impl AlkabiType for SchemaBetResponse {
    fn name() -> Option<&'static str> {
        Some("SchemaBetResponse")
    }
    fn schema() -> Schema {
        Schema::Struct(vec![("won".to_string(), <u128 as AlkabiType>::reference())])
    }
    fn collect(reg: &mut TypeRegistry) {
        if !reg.contains("SchemaBetResponse") {
            reg.insert("SchemaBetResponse", <Self as AlkabiType>::schema());
        }
    }
}

impl AlkabiType for UpgradeKind {
    fn name() -> Option<&'static str> {
        Some("UpgradeKind")
    }
    fn schema() -> Schema {
        Schema::Enum(vec![
            ("Taquero".to_string(), Schema::Struct(vec![])),
            ("SalsaBar".to_string(), Schema::Struct(vec![])),
        ])
    }
    fn collect(reg: &mut TypeRegistry) {
        if !reg.contains("UpgradeKind") {
            reg.insert("UpgradeKind", <Self as AlkabiType>::schema());
        }
    }
}

#[derive(Debug)]
enum TestMessage {
    Initialize,
    GetName,
    AddLiquidity { token_a: AlkaneId, amount_a: u128 },
    SetLabel { label: String },
    Swap { path: Vec<AlkaneId>, amount_in: u128 },
    Bet(SchemaBetParams),
    GetReserves,
}

fn ty(text: &str, last: &str) -> TypeDecl {
    TypeDecl { text: text.to_string(), last: Some(last.to_string()) }
}

fn variant(ident: &str, attrs: Vec<VariantAttr>, fields: FieldsDecl) -> VariantDecl {
    VariantDecl { ident: ident.to_string(), attrs, fields }
}

fn named(fields: Vec<(&str, TypeDecl)>) -> FieldsDecl {
    FieldsDecl::Named(fields.into_iter().map(|(name, ty)| (name.to_string(), ty)).collect())
}

/// `TestMessage` as the derive sees it.
fn declaration() -> ItemDecl {
    let int = || ty("u128", "u128");
    let id = || ty("AlkaneId", "AlkaneId");
    let text = || ty("String", "String");
    let opcode = VariantAttr::Opcode;
    ItemDecl {
        ident: "TestMessage".to_string(),
        body: ItemBody::Enum(vec![
            variant("Initialize", vec![opcode(0)], FieldsDecl::Unit),
            variant(
                "GetName",
                vec![opcode(99), VariantAttr::View, VariantAttr::Returns(ReturnsSpec::Raw(vec![text()]))],
                FieldsDecl::Unit,
            ),
            variant("AddLiquidity", vec![opcode(11)], named(vec![("token_a", id()), ("amount_a", int())])),
            variant("SetLabel", vec![opcode(12)], named(vec![("label", text())])),
            variant("Swap", vec![opcode(13)], named(vec![("path", ty("Vec<AlkaneId>", "Vec")), ("amount_in", int())])),
            variant(
                "Bet",
                vec![
                    opcode(117),
                    VariantAttr::Borsh,
                    VariantAttr::Returns(ReturnsSpec::Borsh(ty("SchemaBetResponse", "SchemaBetResponse"))),
                ],
                FieldsDecl::Unnamed(vec![ty("SchemaBetParams", "SchemaBetParams")]),
            ),
            variant(
                "GetReserves",
                vec![opcode(97), VariantAttr::View, VariantAttr::Returns(ReturnsSpec::Raw(vec![int(), int()]))],
                FieldsDecl::Unit,
            ),
        ]),
    }
}

/// The impl that the derive makes of `TestMessage`.
fn expansion() -> String {
    message::expand(&declaration(), &Some("TestContract".to_string())).unwrap()
}

/// The arm of `from_opcode` that an opcode leads to, from its `=>` on.
fn arm_of(text: &str, opcode: u128) -> String {
    let arms = text.split(" { match opcode {").nth(1).unwrap().split(" fn dispatch").next().unwrap();
    match arms.split(&format!(" {}u128 => ", opcode)).nth(1) {
        Some(arm) => arm.to_string(),
        None => arms.split(" _ => ").nth(1).unwrap().to_string(),
    }
}

/// What a statement of an arm has bound.
enum Bound {
    Id(AlkaneId),
    Num(u128),
    Text(String),
    Path(Vec<AlkaneId>),
    Params(SchemaBetParams),
}

/// Carries out the right side of a statement of an arm.
fn evaluate(name: &str, value: &str, reader: &mut LegacyReader, inputs: &[u128]) -> Result<Bound, String> {
    if value == "::alkabi::borsh_io::decode_words(&__macro_inputs)?" {
        assert_eq!(name, "__params: SchemaBetParams");
        let mut cursor = Cursor::new(words_to_bytes(inputs));
        return SchemaBetParams::deserialize_reader(&mut cursor).map(Bound::Params).map_err(|e| e.to_string());
    }
    let ty = value
        .strip_prefix("<")
        .and_then(|v| v.strip_suffix(" as ::alkabi::legacy::LegacyDecode>::decode(&mut __reader)?"))
        .unwrap();
    match ty {
        "AlkaneId" => legacy::<AlkaneId>(reader).map(Bound::Id),
        "u128" => legacy::<u128>(reader).map(Bound::Num),
        "String" => legacy::<String>(reader).map(Bound::Text),
        "Vec<AlkaneId>" => legacy::<Vec<AlkaneId>>(reader).map(Bound::Path),
        _ => panic!("no such type: {}", ty),
    }
}

fn legacy<T: LegacyDecode>(reader: &mut LegacyReader) -> Result<T, String> {
    T::decode(reader).map_err(|e| format!("{:?}", e))
}

impl TestMessage {
    /// What the expansion says, carried out.
    fn from_opcode(opcode: u128, inputs: Vec<u128>) -> Result<Self, String> {
        let text = arm_of(&expansion(), opcode);
        let mut arm = text.as_str();
        if arm.starts_with("Err(::anyhow::anyhow!(\"Unknown opcode: {}\", opcode))") {
            return Err(format!("Unknown opcode: {}", opcode));
        }
        let mut reader = LegacyReader::new(&inputs);
        let mut values = BTreeMap::new();
        arm = arm.strip_prefix("{ ").unwrap_or(arm);
        arm = arm
            .strip_prefix("let mut __reader = ::alkabi::legacy::LegacyReader::new(&__macro_inputs); ")
            .unwrap_or(arm);
        while let Some(rest) = arm.strip_prefix("let ") {
            let (statement, after) = rest.split_once("; ").unwrap();
            let (name, value) = statement.split_once(" = ").unwrap();
            let bound = evaluate(name, value, &mut reader, &inputs)?;
            values.insert(name.split(':').next().unwrap().to_string(), bound);
            arm = after;
        }
        let made = arm.strip_prefix("Ok(Self::").unwrap();
        let mut take = |name: &str| values.remove(name).unwrap();
        if made.starts_with("Initialize), ") {
            Ok(TestMessage::Initialize)
        } else if made.starts_with("GetName), ") {
            Ok(TestMessage::GetName)
        } else if made.starts_with("GetReserves), ") {
            Ok(TestMessage::GetReserves)
        } else if made.starts_with("AddLiquidity { token_a, amount_a, }) } ") {
            match (take("token_a"), take("amount_a")) {
                (Bound::Id(token_a), Bound::Num(amount_a)) => Ok(TestMessage::AddLiquidity { token_a, amount_a }),
                _ => panic!("other types: {}", text),
            }
        } else if made.starts_with("SetLabel { label, }) } ") {
            match take("label") {
                Bound::Text(label) => Ok(TestMessage::SetLabel { label }),
                _ => panic!("other types: {}", text),
            }
        } else if made.starts_with("Swap { path, amount_in, }) } ") {
            match (take("path"), take("amount_in")) {
                (Bound::Path(path), Bound::Num(amount_in)) => Ok(TestMessage::Swap { path, amount_in }),
                _ => panic!("other types: {}", text),
            }
        } else if made.starts_with("Bet(__params)) } ") {
            match take("__params") {
                Bound::Params(params) => Ok(TestMessage::Bet(params)),
                _ => panic!("other types: {}", text),
            }
        } else {
            panic!("no such variant: {}", text)
        }
    }

    fn export_abi() -> Vec<u8> {
        let mut reg = TypeRegistry::new();
        <String as AlkabiType>::collect(&mut reg);
        <AlkaneId as AlkabiType>::collect(&mut reg);
        <Vec<AlkaneId> as AlkabiType>::collect(&mut reg);
        <SchemaBetParams as AlkabiType>::collect(&mut reg);
        <SchemaBetResponse as AlkabiType>::collect(&mut reg);
        <u128 as AlkabiType>::collect(&mut reg);
        let method = |name: &str, opcode: u128, kind: MethodKind, input: Option<AbiIo>, output: Option<AbiIo>| AbiMethod {
            name: name.to_string(),
            opcode,
            kind,
            input,
            witness: None,
            output,
            plan: None,
        };
        let io = |mode: IoMode, schema: Schema| Some(AbiIo { mode, schema });
        let doc = AbiDocument {
            contract: String::from("TestContract"),
            types: reg,
            methods: vec![
                method("initialize", 0, MethodKind::Execute, None, None),
                method("getName", 99, MethodKind::View, None, io(IoMode::Raw, <String as AlkabiType>::reference())),
                method(
                    "addLiquidity",
                    11,
                    MethodKind::Execute,
                    io(
                        IoMode::Legacy,
                        Schema::Struct(vec![
                            ("token_a".to_string(), <AlkaneId as AlkabiType>::reference()),
                            ("amount_a".to_string(), <u128 as AlkabiType>::reference()),
                        ]),
                    ),
                    None,
                ),
                method(
                    "setLabel",
                    12,
                    MethodKind::Execute,
                    io(IoMode::Legacy, Schema::Struct(vec![("label".to_string(), <String as AlkabiType>::reference())])),
                    None,
                ),
                method(
                    "swap",
                    13,
                    MethodKind::Execute,
                    io(
                        IoMode::Legacy,
                        Schema::Struct(vec![
                            ("path".to_string(), <Vec<AlkaneId> as AlkabiType>::reference()),
                            ("amount_in".to_string(), <u128 as AlkabiType>::reference()),
                        ]),
                    ),
                    None,
                ),
                method(
                    "bet",
                    117,
                    MethodKind::Execute,
                    io(IoMode::Borsh, <SchemaBetParams as AlkabiType>::reference()),
                    io(IoMode::Borsh, <SchemaBetResponse as AlkabiType>::reference()),
                ),
                method(
                    "getReserves",
                    97,
                    MethodKind::View,
                    None,
                    io(
                        IoMode::Raw,
                        Schema::Struct(vec![
                            ("_0".to_string(), <u128 as AlkabiType>::reference()),
                            ("_1".to_string(), <u128 as AlkabiType>::reference()),
                        ]),
                    ),
                ),
            ],
        };
        doc.to_json().into_bytes()
    }
}

fn parse(opcode: u128, inputs: Vec<u128>) -> TestMessage {
    TestMessage::from_opcode(opcode, inputs).unwrap()
}

fn id(block: u128, tx: u128) -> AlkaneId {
    AlkaneId { block, tx }
}

#[test]
fn parses_unit_variant() {
    assert!(matches!(parse(0, vec![]), TestMessage::Initialize));
}

#[test]
fn parses_legacy_fields() {
    let msg = parse(11, vec![2, 7, 1000]);
    match msg {
        TestMessage::AddLiquidity { token_a, amount_a } => {
            assert_eq!(token_a, id(2, 7));
            assert_eq!(amount_a, 1000);
        }
        _ => panic!("wrong variant"),
    }
}

#[test]
fn parses_legacy_string_nul_terminated() {
    // "HI" followed by a NUL terminator, packed little-endian into one word.
    let word = u128::from_le_bytes(*b"HI\0\0\0\0\0\0\0\0\0\0\0\0\0\0");
    match parse(12, vec![word]) {
        TestMessage::SetLabel { label } => assert_eq!(label, "HI"),
        _ => panic!("wrong variant"),
    }
}

#[test]
fn parses_legacy_vec_of_alkane_ids() {
    // len=2, then two (block, tx) pairs, then amount_in.
    let msg = parse(13, vec![2, 1, 10, 1, 11, 5000]);
    match msg {
        TestMessage::Swap { path, amount_in } => {
            assert_eq!(path, vec![id(1, 10), id(1, 11)]);
            assert_eq!(amount_in, 5000);
        }
        _ => panic!("wrong variant"),
    }
}

#[test]
fn parses_borsh_params_with_word_padding() {
    let params = SchemaBetParams {
        nonce: 42,
        target: 7,
        id: SchemaTestId { block: 2, tx: 1039 },
        tags: vec!["a".to_string(), "bc".to_string()],
        maybe: Some(9),
    };
    let bytes = borsh::to_vec(&params).unwrap();

    // Pack into u128 words the way the TS client does: 16-byte LE chunks,
    // final word zero-padded.
    let mut words = Vec::new();
    for chunk in bytes.chunks(16) {
        let mut buf = [0u8; 16];
        buf[..chunk.len()].copy_from_slice(chunk);
        words.push(u128::from_le_bytes(buf));
    }

    match parse(117, words) {
        TestMessage::Bet(decoded) => assert_eq!(decoded, params),
        _ => panic!("wrong variant"),
    }
}

#[test]
fn rejects_unknown_opcode() {
    let err = TestMessage::from_opcode(9999, vec![]).unwrap_err().to_string();
    assert!(err.contains("Unknown opcode"), "{}", err);
}

#[test]
fn export_abi_document_shape() {
    let json = String::from_utf8(TestMessage::export_abi()).unwrap();
    let expected = [
        "{\"alkabi\":1,\"contract\":\"TestContract\",",
        "\"types\":{",
        "\"AlkaneId\":{\"struct\":{\"block\":\"u128\",\"tx\":\"u128\"}},",
        "\"SchemaBetParams\":{\"struct\":{\"nonce\":\"u128\",\"target\":\"u128\",\"id\":{\"$ref\":\"SchemaTestId\"},\"tags\":{\"array\":{\"type\":\"string\"}},\"maybe\":{\"option\":\"u8\"}}},",
        "\"SchemaBetResponse\":{\"struct\":{\"won\":\"u128\"}},",
        "\"SchemaTestId\":{\"struct\":{\"block\":\"u32\",\"tx\":\"u64\"}}",
        "},",
        "\"methods\":[",
        "{\"name\":\"initialize\",\"opcode\":0,\"kind\":\"execute\"},",
        "{\"name\":\"getName\",\"opcode\":99,\"kind\":\"view\",\"output\":{\"mode\":\"raw\",\"schema\":\"string\"}},",
        "{\"name\":\"addLiquidity\",\"opcode\":11,\"kind\":\"execute\",\"input\":{\"mode\":\"legacy\",\"schema\":{\"struct\":{\"token_a\":{\"$ref\":\"AlkaneId\"},\"amount_a\":\"u128\"}}}},",
        "{\"name\":\"setLabel\",\"opcode\":12,\"kind\":\"execute\",\"input\":{\"mode\":\"legacy\",\"schema\":{\"struct\":{\"label\":\"string\"}}}},",
        "{\"name\":\"swap\",\"opcode\":13,\"kind\":\"execute\",\"input\":{\"mode\":\"legacy\",\"schema\":{\"struct\":{\"path\":{\"array\":{\"type\":{\"$ref\":\"AlkaneId\"}}},\"amount_in\":\"u128\"}}}},",
        "{\"name\":\"bet\",\"opcode\":117,\"kind\":\"execute\",\"input\":{\"mode\":\"borsh\",\"schema\":{\"$ref\":\"SchemaBetParams\"}},\"output\":{\"mode\":\"borsh\",\"schema\":{\"$ref\":\"SchemaBetResponse\"}}},",
        "{\"name\":\"getReserves\",\"opcode\":97,\"kind\":\"view\",\"output\":{\"mode\":\"raw\",\"schema\":{\"struct\":{\"_0\":\"u128\",\"_1\":\"u128\"}}}}",
        "]}",
    ]
    .concat();
    assert_eq!(json, expected);
}

#[test]
fn parse_roundtrips_native_documents() {
    let json = String::from_utf8(TestMessage::export_abi()).unwrap();
    let (abi, normalized) = parse_abi_json(&json).unwrap();
    assert!(!normalized);
    assert_eq!(abi.contract, "TestContract");
    assert_eq!(abi.methods.len(), 7);
    assert_eq!(abi.to_json(), json);
}

#[test]
fn normalizes_upstream_documents() {
    let upstream = [
        "{ \"contract\": \"AMMFactory\", \"methods\": [",
        "{ \"name\": \"init_factory\", \"opcode\": 0, \"params\": [",
        "{\"type\": \"u128\", \"name\": \"pool_factory_id\"},",
        "{\"type\": \"AlkaneId\", \"name\": \"beacon_id\"}], \"returns\": \"void\" },",
        "{ \"name\": \"get_reserves\", \"opcode\": 97, \"params\": [], \"returns\": \"u128, u128\" },",
        "{ \"name\": \"swap_exact\", \"opcode\": 13, \"params\": [",
        "{\"type\": \"Vec<AlkaneId>\", \"name\": \"path\"}], \"returns\": \"void\" }",
        "] }",
    ]
    .concat();
    let (abi, normalized) = parse_abi_json(&upstream).unwrap();
    assert!(normalized);
    assert_eq!(abi.contract, "AMMFactory");
    assert!(abi.types.get("AlkaneId").is_some());

    assert_eq!(abi.methods[0].name, "initFactory");
    assert_eq!(abi.methods[0].kind, MethodKind::Execute);
    assert_eq!(abi.methods[0].opcode, 0);
    let input = abi.methods[0].input.as_ref().unwrap();
    assert_eq!(
        input.schema,
        Schema::Struct(vec![
            ("pool_factory_id".to_string(), Schema::Primitive("u128")),
            ("beacon_id".to_string(), Schema::Ref("AlkaneId".to_string())),
        ])
    );

    assert_eq!(abi.methods[1].name, "getReserves");
    assert_eq!(abi.methods[1].kind, MethodKind::View);
    assert_eq!(
        abi.methods[1].output.as_ref().unwrap().schema,
        Schema::Struct(vec![
            ("_0".to_string(), Schema::Primitive("u128")),
            ("_1".to_string(), Schema::Primitive("u128")),
        ])
    );

    assert_eq!(
        abi.methods[2].input.as_ref().unwrap().schema,
        Schema::Struct(vec![(
            "path".to_string(),
            Schema::Vec(Box::new(Schema::Ref("AlkaneId".to_string()))),
        )])
    );
}

#[test]
fn enum_schema_shape() {
    let schema = <UpgradeKind as AlkabiType>::schema();
    assert_eq!(
        schema,
        Schema::Enum(vec![
            ("Taquero".to_string(), Schema::Struct(vec![])),
            ("SalsaBar".to_string(), Schema::Struct(vec![])),
        ])
    );
    assert_eq!(
        schema.to_json(),
        "{\"enum\":[{\"struct\":{\"Taquero\":{\"struct\":{}}}},{\"struct\":{\"SalsaBar\":{\"struct\":{}}}}]}"
    );
}

#[test]
fn legacy_errors_are_told_apart() {
    let read = |words: &[u128]| <u128 as LegacyDecode>::decode(&mut LegacyReader::new(words));
    assert_eq!(read(&[]), Err(LegacyError::Word));
    assert_eq!(read(&[5]), Ok(5));
    assert_eq!(<AlkaneId as LegacyDecode>::decode(&mut LegacyReader::new(&[1])), Err(LegacyError::Id));
    assert_eq!(<String as LegacyDecode>::decode(&mut LegacyReader::new(&[])), Err(LegacyError::Text));
    assert_eq!(<String as LegacyDecode>::decode(&mut LegacyReader::new(&[0xff])), Err(LegacyError::Utf8));
    assert_eq!(<Vec<u128> as LegacyDecode>::decode(&mut LegacyReader::new(&[])), Err(LegacyError::Length));
    assert_eq!(<Vec<u128> as LegacyDecode>::decode(&mut LegacyReader::new(&[2, 1])), Err(LegacyError::Word));
}

#[test]
fn legacy_text_may_run_over_words() {
    let text = "a text that is longer than a word: é";
    let mut bytes = text.as_bytes().to_vec();
    bytes.push(0);
    let mut words: Vec<u128> = Vec::new();
    for chunk in bytes.chunks(16) {
        let mut buf = [0xabu8; 16];
        buf[..chunk.len()].copy_from_slice(chunk);
        words.push(u128::from_le_bytes(buf));
    }
    words.push(77);
    let mut reader = LegacyReader::new(&words);
    assert_eq!(<String as LegacyDecode>::decode(&mut reader).unwrap(), text);
    assert_eq!(reader.remaining(), 1);
    assert_eq!(reader.next(), Some(77));
    assert_eq!(reader.next(), None);
    // without a NUL all words are read
    let whole = [u128::from_le_bytes(*b"0123456789abcdef")];
    let mut reader = LegacyReader::new(&whole);
    assert_eq!(<String as LegacyDecode>::decode(&mut reader).unwrap(), "0123456789abcdef");
    assert_eq!(reader.remaining(), 0);
}

#[test]
fn legacy_lists_leave_the_rest() {
    let words = [3, 10, 20, 30, 99];
    let mut reader = LegacyReader::new(&words);
    assert_eq!(<Vec<u128> as LegacyDecode>::decode(&mut reader).unwrap(), vec![10, 20, 30]);
    assert_eq!(reader.remaining(), 1);
}

#[test]
fn packed_bytes_come_first() {
    let bytes: Vec<u8> = (1..=21).collect();
    let words = [
        u128::from_le_bytes(bytes[..16].try_into().unwrap()),
        u128::from_le_bytes([17, 18, 19, 20, 21, 0, 0, 0, 0, 0, 0, 0, 0, 0, 0, 0]),
    ];
    let flat = words_to_bytes(&words);
    assert_eq!(flat.len(), 32);
    assert_eq!(&flat[..21], &bytes[..]);
    assert!(flat[21..].iter().all(|b| *b == 0));
}

fn parcel() -> AlkaneTransferParcel {
    AlkaneTransferParcel(vec![AlkaneTransfer { id: id(2, 5), value: 1000 }])
}

impl BorshSerialize for SchemaBetResponse {
    fn serialize<W: Write>(&self, w: &mut W) -> std::io::Result<()> {
        self.won.serialize(w)
    }
}

impl ReturnEncode<BorshMode> for SchemaBetResponse {
    fn encode_return(&self) -> Result<Vec<u8>, ReturnError> {
        borsh::to_vec(self).map_err(|_| ReturnError::Encode)
    }
}

#[test]
fn values_forward_the_incoming_alkanes() {
    let incoming = parcel();
    let got = finish_return::<_, RawMode, u64, _>(7u64, Some(&incoming)).unwrap();
    assert_eq!(got.alkanes, parcel());
    assert_eq!(got.data, 7u64.to_le_bytes());
    assert_eq!(finish_return::<_, RawMode, u64, _>(7u64, None), Err(ReturnError::Context));
    // the same through the envelope
    let envelope = AlkabiResponse::forward(&incoming).with_data(7u64);
    assert_eq!(finish_return::<_, RawMode, u64, _>(envelope, Some(&incoming)).unwrap(), got);
}

#[test]
fn responses_say_themselves_what_goes_out() {
    let response = AlkabiResponse::new(AlkaneTransferParcel(vec![]), (1u8, -2i16));
    let got = finish_return::<_, RawMode, (u8, i16), _>(response, None).unwrap();
    assert_eq!(got.alkanes, AlkaneTransferParcel(vec![]));
    assert_eq!(got.data, [1, 0xfe, 0xff]);
    // only a value alone needs the context of the call
    assert!(AbiReturnShape::<_, RawMode, u64>::needs_context(&7u64));
    let response = AlkabiResponse::forward(&parcel()).with_data(7u64);
    assert!(!AbiReturnShape::<_, RawMode, u64>::needs_context(&response));
    assert_eq!(response.clone(), response);
    let bet = AlkabiResponse::forward(&parcel()).with_data(SchemaBetResponse { won: 300 });
    let got = finish_return::<_, BorshMode, SchemaBetResponse, _>(bet, None).unwrap();
    assert_eq!(got.data, 300u128.to_le_bytes());
    assert_eq!(got.alkanes, parcel());
}

#[test]
fn raw_bytes_of_every_kind() {
    assert_eq!(5u8.raw_bytes(), [5]);
    assert_eq!(0x0102u16.raw_bytes(), [2, 1]);
    assert_eq!(0x01020304u32.raw_bytes(), [4, 3, 2, 1]);
    assert_eq!(u128::MAX.raw_bytes(), [0xff; 16]);
    assert_eq!((-1i8).raw_bytes(), [0xff]);
    assert_eq!((-2i32).raw_bytes(), [0xfe, 0xff, 0xff, 0xff]);
    assert_eq!(i64::MIN.raw_bytes(), [0, 0, 0, 0, 0, 0, 0, 0x80]);
    assert_eq!((-1i128).raw_bytes(), [0xff; 16]);
    assert!(().raw_bytes().is_empty());
    assert_eq!(true.raw_bytes(), [1]);
    assert_eq!("hé".to_string().raw_bytes(), [b'h', 0xc3, 0xa9]);
    assert_eq!(vec![1u8, 2].raw_bytes(), [1, 2]);
    assert_eq!((1u8, 2u16, "x".to_string()).raw_bytes(), [1, 2, 0, b'x']);
}

/* ─────────────── the expansion ─────────────── */

#[test]
fn messages_expand_to_their_arms() {
    let text = expansion();
    assert!(text.starts_with("impl ::alkanes_runtime::message::MessageDispatch<TestContract> for TestMessage {"));
    let decode = |name: &str, ty: &str| format!("let {} = <{} as ::alkabi::legacy::LegacyDecode>::decode(&mut __reader)?; ", name, ty);
    let reader = "{ let mut __reader = ::alkabi::legacy::LegacyReader::new(&__macro_inputs); ";
    let arms = [
        (0, "Ok(Self::Initialize), ".to_string()),
        (99, "Ok(Self::GetName), ".to_string()),
        (
            11,
            format!("{}{}{}Ok(Self::AddLiquidity {{ token_a, amount_a, }}) }} ", reader, decode("token_a", "AlkaneId"), decode("amount_a", "u128")),
        ),
        (12, format!("{}{}Ok(Self::SetLabel {{ label, }}) }} ", reader, decode("label", "String"))),
        (
            13,
            format!("{}{}{}Ok(Self::Swap {{ path, amount_in, }}) }} ", reader, decode("path", "Vec<AlkaneId>"), decode("amount_in", "u128")),
        ),
        (
            117,
            "{ let __params: SchemaBetParams = ::alkabi::borsh_io::decode_words(&__macro_inputs)?; Ok(Self::Bet(__params)) } ".to_string(),
        ),
        (97, "Ok(Self::GetReserves), ".to_string()),
        (9999, "Err(::anyhow::anyhow!(\"Unknown opcode: {}\", opcode)), ".to_string()),
    ];
    for (opcode, arm) in arms {
        assert!(arm_of(&text, opcode).starts_with(&arm), "{}: {}", opcode, arm_of(&text, opcode));
    }
    let finish = |mode: &str, ty: &str| {
        format!("::alkabi::abi_return::finish_return::<_, ::alkabi::abi_return::{}, {}, _, _>(__result, responder)", mode, ty)
    };
    for (pattern, call, end) in [
        ("Self::Initialize", "initialize()", finish("RawMode", "()")),
        ("Self::GetName", "get_name()", finish("RawMode", "String")),
        ("Self::AddLiquidity { token_a, amount_a, }", "add_liquidity(token_a.clone(), amount_a.clone(), )", finish("RawMode", "()")),
        ("Self::Bet(__params)", "bet(__params, )", finish("BorshMode", "SchemaBetResponse")),
        ("Self::GetReserves", "get_reserves()", finish("RawMode", "(u128, u128)")),
    ] {
        let arm = format!("{} => {{ let __result = responder.{}?; {} }} ", pattern, call, end);
        assert!(text.contains(&arm), "{}", arm);
    }
    assert!(text.contains("name: ::std::string::String::from(\"addLiquidity\"), opcode: 11u128, kind: ::alkabi::abi::MethodKind::Execute"));
    assert!(text.contains("name: ::std::string::String::from(\"getReserves\"), opcode: 97u128, kind: ::alkabi::abi::MethodKind::View"));
}

#[test]
fn a_message_is_written_out_in_full() {
    let int = || ty("u128", "u128");
    let text = || ty("String", "String");
    let opcode = VariantAttr::Opcode;
    let item = ItemDecl {
        ident: "TillMessage".to_string(),
        body: ItemBody::Enum(vec![
            variant("Initialize", vec![opcode(0)], FieldsDecl::Unit),
            variant("Pay", vec![opcode(1)], named(vec![("to", ty("AlkaneId", "AlkaneId")), ("amount", int())])),
            variant(
                "Note",
                vec![
                    opcode(2),
                    VariantAttr::Borsh,
                    VariantAttr::Witness(text()),
                    VariantAttr::Returns(ReturnsSpec::Borsh(text())),
                ],
                FieldsDecl::Unnamed(vec![ty("u64", "u64")]),
            ),
            variant(
                "GetTotals",
                vec![opcode(3), VariantAttr::View, VariantAttr::Returns(ReturnsSpec::Raw(vec![int(), int()]))],
                FieldsDecl::Unit,
            ),
        ]),
    };
    let got = message::expand(&item, &None).unwrap();
    let tight = |s: &str| s.split_whitespace().collect::<String>();
    assert_eq!(tight(&got), tight(TILL));
}

/// The impl of a message, laid out in lines.
const TILL: &str = r#"
impl ::alkanes_runtime::message::MessageDispatch<Till> for TillMessage {
    fn from_opcode(opcode: u128, __macro_inputs: Vec<u128>) -> ::anyhow::Result<Self> {
        match opcode {
            0u128 => Ok(Self::Initialize),
            1u128 => {
                let mut __reader = ::alkabi::legacy::LegacyReader::new(&__macro_inputs);
                let to = <AlkaneId as ::alkabi::legacy::LegacyDecode>::decode(&mut __reader)?;
                let amount = <u128 as ::alkabi::legacy::LegacyDecode>::decode(&mut __reader)?;
                Ok(Self::Pay { to, amount, })
            }
            2u128 => {
                let __params: u64 = ::alkabi::borsh_io::decode_words(&__macro_inputs)?;
                Ok(Self::Note(__params))
            }
            3u128 => Ok(Self::GetTotals),
            _ => Err(::anyhow::anyhow!("Unknown opcode: {}", opcode)),
        }
    }

    fn dispatch(&self, responder: &Till) -> ::anyhow::Result<::alkanes_support::response::CallResponse> {
        match self {
            Self::Initialize => {
                let __result = responder.initialize()?;
                ::alkabi::abi_return::finish_return::<_, ::alkabi::abi_return::RawMode, (), _, _>(__result, responder)
            }
            Self::Pay { to, amount, } => {
                let __result = responder.pay(to.clone(), amount.clone(), )?;
                ::alkabi::abi_return::finish_return::<_, ::alkabi::abi_return::RawMode, (), _, _>(__result, responder)
            }
            Self::Note(__params) => {
                let __witness: String = ::alkabi::witness::decode_witness(responder)?;
                let __result = responder.note(__params, &__witness, )?;
                ::alkabi::abi_return::finish_return::<_, ::alkabi::abi_return::BorshMode, String, _, _>(__result, responder)
            }
            Self::GetTotals => {
                let __result = responder.get_totals()?;
                ::alkabi::abi_return::finish_return::<_, ::alkabi::abi_return::RawMode, (u128, u128), _, _>(__result, responder)
            }
        }
    }

    fn export_abi() -> Vec<u8> {
        let mut __reg = ::alkabi::schema::TypeRegistry::new();
        <AlkaneId as ::alkabi::AlkabiType>::collect(&mut __reg);
        <u128 as ::alkabi::AlkabiType>::collect(&mut __reg);
        <u64 as ::alkabi::AlkabiType>::collect(&mut __reg);
        <String as ::alkabi::AlkabiType>::collect(&mut __reg);
        <String as ::alkabi::AlkabiType>::collect(&mut __reg);
        <u128 as ::alkabi::AlkabiType>::collect(&mut __reg);
        <u128 as ::alkabi::AlkabiType>::collect(&mut __reg);
        let __doc = ::alkabi::abi::AbiDocument {
            contract: ::std::string::String::from("Till"),
            types: __reg,
            methods: ::std::vec![
                ::alkabi::abi::AbiMethod {
                    name: ::std::string::String::from("initialize"),
                    opcode: 0u128,
                    kind: ::alkabi::abi::MethodKind::Execute,
                    input: ::core::option::Option::None,
                    witness: ::core::option::Option::None,
                    output: ::core::option::Option::None,
                    plan: ::core::option::Option::None
                },
                ::alkabi::abi::AbiMethod {
                    name: ::std::string::String::from("pay"),
                    opcode: 1u128,
                    kind: ::alkabi::abi::MethodKind::Execute,
                    input: ::core::option::Option::Some(::alkabi::abi::AbiIo {
                        mode: ::alkabi::abi::IoMode::Legacy,
                        schema: ::alkabi::schema::Schema::Struct(::std::vec![
                            ("to".to_string(), <AlkaneId as ::alkabi::AlkabiType>::reference()),
                            ("amount".to_string(), <u128 as ::alkabi::AlkabiType>::reference()),
                        ])
                    }),
                    witness: ::core::option::Option::None,
                    output: ::core::option::Option::None,
                    plan: ::core::option::Option::None
                },
                ::alkabi::abi::AbiMethod {
                    name: ::std::string::String::from("note"),
                    opcode: 2u128,
                    kind: ::alkabi::abi::MethodKind::Execute,
                    input: ::core::option::Option::Some(::alkabi::abi::AbiIo {
                        mode: ::alkabi::abi::IoMode::Borsh,
                        schema: <u64 as ::alkabi::AlkabiType>::reference()
                    }),
                    witness: ::core::option::Option::Some(::alkabi::abi::AbiIo {
                        mode: ::alkabi::abi::IoMode::Borsh,
                        schema: <String as ::alkabi::AlkabiType>::reference()
                    }),
                    output: ::core::option::Option::Some(::alkabi::abi::AbiIo {
                        mode: ::alkabi::abi::IoMode::Borsh,
                        schema: <String as ::alkabi::AlkabiType>::reference()
                    }),
                    plan: ::core::option::Option::None
                },
                ::alkabi::abi::AbiMethod {
                    name: ::std::string::String::from("getTotals"),
                    opcode: 3u128,
                    kind: ::alkabi::abi::MethodKind::View,
                    input: ::core::option::Option::None,
                    witness: ::core::option::Option::None,
                    output: ::core::option::Option::Some(::alkabi::abi::AbiIo {
                        mode: ::alkabi::abi::IoMode::Raw,
                        schema: ::alkabi::schema::Schema::Struct(::std::vec![
                            ("_0".to_string(), <u128 as ::alkabi::AlkabiType>::reference()),
                            ("_1".to_string(), <u128 as ::alkabi::AlkabiType>::reference()),
                        ])
                    }),
                    plan: ::core::option::Option::None
                },
            ],
        };
        __doc.to_json().into_bytes()
    }
}
"#;

#[test]
fn attributes_are_known_by_name() {
    assert_eq!(attr_kind("opcode"), AttrKind::Opcode);
    assert_eq!(attr_kind("view"), AttrKind::View);
    assert_eq!(attr_kind("borsh"), AttrKind::Borsh);
    assert_eq!(attr_kind("witness"), AttrKind::Witness);
    assert_eq!(attr_kind("returns"), AttrKind::Returns);
    assert_eq!(attr_kind("doc"), AttrKind::Other);
}
