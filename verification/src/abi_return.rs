//! Typed handler returns.
//!
//! A handler's response data is typed as whatever its variant declares in
//! `#[returns(...)]` — `CallResponse` (with its untyped `Vec<u8>` data) never
//! appears in handler signatures. The generated dispatch routes every handler
//! result through [`finish_return`], which accepts exactly two shapes:
//!
//!   - `Result<T>` — the declared value alone. alkabi encodes it (raw LE or
//!     borsh, per the declaration), forwards the incoming alkanes, and builds
//!     the `CallResponse` that `MessageDispatch` expects.
//!   - `Result<AlkabiResponse<T>>` — the declared value plus explicit control
//!     of the outgoing alkane transfers, for handlers that mint/move alkanes.
//!
//! Void methods are `T = ()` (encodes to zero bytes), so transfer-only
//! handlers return `Result<()>` or `Result<AlkabiResponse<()>>`.
//!
//! Returning anything else — including a raw `CallResponse` — is a compile
//! error: the trait bound names the declared type, e.g.
//! ``the trait bound `u32: AbiReturnShape<_, RawMode, u64>` is not satisfied``.
use vstd::prelude::*;
use vstd::utf8::*;
use crate::alkane::{AlkaneTransfer, AlkaneTransferParcel, CallResponse};
use crate::bytes;
use crate::bytes::{copy_bytes, encode_le};

verus! {

/// A `CallResponse` whose data field is still typed. alkabi turns it into the
/// `Vec<u8>`-carrying `CallResponse` after the handler returns.
#[derive(Debug, PartialEq, Eq)]
pub struct AlkabiResponse<T> {
    pub alkanes: AlkaneTransferParcel,
    pub data: T,
}

impl AlkabiResponse<()> {
    /// Start from the incoming alkanes (the typed analogue of
    /// `CallResponse::forward`); attach data later with [`AlkabiResponse::with_data`].
    pub fn forward(incoming: &AlkaneTransferParcel) -> (r: Self)
        ensures
            r.alkanes.0@ == incoming.0@,
    {
        AlkabiResponse { alkanes: incoming.copy(), data: () }
    }
}

impl<T> AlkabiResponse<T> {
    pub fn new(alkanes: AlkaneTransferParcel, data: T) -> (r: Self)
        ensures
            r.alkanes == alkanes,
            r.data == data,
    {
        AlkabiResponse { alkanes, data }
    }

    /// Keep the transfers, replace the data.
    pub fn with_data<U>(self, data: U) -> (r: AlkabiResponse<U>)
        ensures
            r.alkanes == self.alkanes,
            r.data == data,
    {
        AlkabiResponse { alkanes: self.alkanes, data }
    }
}

impl<T: Clone> Clone for AlkabiResponse<T> {
    fn clone(&self) -> (r: Self)
        ensures
            r.alkanes.0@ == self.alkanes.0@,
            cloned::<T>(self.data, r.data),
    {
        AlkabiResponse { alkanes: self.alkanes.copy(), data: self.data.clone() }
    }
}

/// Marker: encode with the raw legacy conventions (LE integers, bare UTF-8
/// strings, `Vec<u8>` as-is, tuples concatenated, `()` empty).
pub struct RawMode;

/// Marker: encode with borsh.
pub struct BorshMode;

/// A value that is returned as raw bytes.
pub trait RawReturn {
    /// The bytes of the value; unknown, unless the type says.
    open spec fn raw(&self) -> Seq<u8> {
        arbitrary()
    }

    fn raw_bytes(&self) -> (r: Vec<u8>)
        ensures
            r@ == self.raw(),
    ;
}

impl RawReturn for u8 {
    open spec fn raw(&self) -> Seq<u8> {
        bytes::le_bytes(*self as int, 1)
    }

    fn raw_bytes(&self) -> (r: Vec<u8>) {
        encode_le(*self as u128, 1)
    }
}

impl RawReturn for u16 {
    open spec fn raw(&self) -> Seq<u8> {
        bytes::le_bytes(*self as int, 2)
    }

    fn raw_bytes(&self) -> (r: Vec<u8>) {
        encode_le(*self as u128, 2)
    }
}

impl RawReturn for u32 {
    open spec fn raw(&self) -> Seq<u8> {
        bytes::le_bytes(*self as int, 4)
    }

    fn raw_bytes(&self) -> (r: Vec<u8>) {
        encode_le(*self as u128, 4)
    }
}

impl RawReturn for u64 {
    open spec fn raw(&self) -> Seq<u8> {
        bytes::le_bytes(*self as int, 8)
    }

    fn raw_bytes(&self) -> (r: Vec<u8>) {
        encode_le(*self as u128, 8)
    }
}

impl RawReturn for u128 {
    open spec fn raw(&self) -> Seq<u8> {
        bytes::le_bytes(*self as int, 16)
    }

    fn raw_bytes(&self) -> (r: Vec<u8>) {
        encode_le(*self as u128, 16)
    }
}

impl RawReturn for i8 {
    open spec fn raw(&self) -> Seq<u8> {
        bytes::le_bytes((*self as u8) as int, 1)
    }

    fn raw_bytes(&self) -> (r: Vec<u8>) {
        encode_le((#[verifier::truncate] (*self as u8)) as u128, 1)
    }
}

impl RawReturn for i16 {
    open spec fn raw(&self) -> Seq<u8> {
        bytes::le_bytes((*self as u16) as int, 2)
    }

    fn raw_bytes(&self) -> (r: Vec<u8>) {
        encode_le((#[verifier::truncate] (*self as u16)) as u128, 2)
    }
}

impl RawReturn for i32 {
    open spec fn raw(&self) -> Seq<u8> {
        bytes::le_bytes((*self as u32) as int, 4)
    }

    fn raw_bytes(&self) -> (r: Vec<u8>) {
        encode_le((#[verifier::truncate] (*self as u32)) as u128, 4)
    }
}

impl RawReturn for i64 {
    open spec fn raw(&self) -> Seq<u8> {
        bytes::le_bytes((*self as u64) as int, 8)
    }

    fn raw_bytes(&self) -> (r: Vec<u8>) {
        encode_le((#[verifier::truncate] (*self as u64)) as u128, 8)
    }
}

impl RawReturn for i128 {
    open spec fn raw(&self) -> Seq<u8> {
        bytes::le_bytes((*self as u128) as int, 16)
    }

    fn raw_bytes(&self) -> (r: Vec<u8>) {
        encode_le((#[verifier::truncate] (*self as u128)) as u128, 16)
    }
}

impl RawReturn for () {
    open spec fn raw(&self) -> Seq<u8> {
        Seq::empty()
    }

    fn raw_bytes(&self) -> (r: Vec<u8>) {
        Vec::new()
    }
}

impl RawReturn for bool {
    open spec fn raw(&self) -> Seq<u8> {
        seq![if *self { 1u8 } else { 0u8 }]
    }

    fn raw_bytes(&self) -> (r: Vec<u8>) {
        let mut out: Vec<u8> = Vec::new();
        out.push(if *self { 1 } else { 0 });
        assert(out@ =~= self.raw());
        out
    }
}

impl RawReturn for String {
    open spec fn raw(&self) -> Seq<u8> {
        encode_utf8(self@)
    }

    fn raw_bytes(&self) -> (r: Vec<u8>) {
        copy_bytes(self.as_str().as_bytes())
    }
}

impl RawReturn for Vec<u8> {
    open spec fn raw(&self) -> Seq<u8> {
        self@
    }

    fn raw_bytes(&self) -> (r: Vec<u8>) {
        copy_bytes(self.as_slice())
    }
}

impl<A: RawReturn, B: RawReturn> RawReturn for (A, B) {
    open spec fn raw(&self) -> Seq<u8> {
        self.0.raw() + self.1.raw()
    }

    fn raw_bytes(&self) -> (r: Vec<u8>) {
        let mut out = self.0.raw_bytes();
        let mut more = self.1.raw_bytes();
        out.append(&mut more);
        out
    }
}

impl<A: RawReturn, B: RawReturn, C: RawReturn> RawReturn for (A, B, C) {
    open spec fn raw(&self) -> Seq<u8> {
        self.0.raw() + self.1.raw() + self.2.raw()
    }

    fn raw_bytes(&self) -> (r: Vec<u8>) {
        let mut out = self.0.raw_bytes();
        let mut more = self.1.raw_bytes();
        out.append(&mut more);
        let mut last = self.2.raw_bytes();
        out.append(&mut last);
        out
    }
}

/// Why a return could not be made a response.
#[derive(Debug, Clone, Copy, PartialEq, Eq, Structural)]
pub enum ReturnError {
    /// The context of the call could not be had.
    Context,
    /// The value could not be encoded.
    Encode,
}

/// A value that is returned as the bytes of a mode.
pub trait ReturnEncode<Mode> {
    /// The bytes of the value, if it can be encoded; unknown, unless the type says.
    open spec fn encoded(&self) -> Option<Seq<u8>> {
        arbitrary()
    }

    fn encode_return(&self) -> (r: Result<Vec<u8>, ReturnError>)
        ensures
            match r {
                Ok(b) => self.encoded() == Some(b@),
                Err(e) => self.encoded() is None && e == ReturnError::Encode,
            },
    ;
}

impl<T: RawReturn> ReturnEncode<RawMode> for T {
    open spec fn encoded(&self) -> Option<Seq<u8>> {
        Some(self.raw())
    }

    fn encode_return(&self) -> (r: Result<Vec<u8>, ReturnError>) {
        Ok(self.raw_bytes())
    }
}

/// Shape marker (inferred from the handler's actual return type): the value alone.
pub enum ViaValue {
    Shape,
}

/// Shape marker: an [`AlkabiResponse`].
pub enum ViaResponse {
    Shape,
}

/// What a call hands back.
pub ghost struct ResponseModel {
    pub alkanes: Seq<AlkaneTransfer>,
    pub data: Seq<u8>,
}

impl CallResponse {
    pub open spec fn model(self) -> ResponseModel {
        ResponseModel { alkanes: self.alkanes.0@, data: self.data@ }
    }
}

/// The alkanes that came in with a call, if its context can be had.
pub open spec fn incoming_alkanes(incoming: Option<&AlkaneTransferParcel>) -> Option<Seq<AlkaneTransfer>> {
    match incoming {
        Some(p) => Some(p.0@),
        None => None,
    }
}

/// A response of alkanes and encoded data.
pub open spec fn answer(alkanes: Seq<AlkaneTransfer>, data: Option<Seq<u8>>) -> Result<ResponseModel, ReturnError> {
    match data {
        Some(data) => Ok(ResponseModel { alkanes, data }),
        None => Err(ReturnError::Encode),
    }
}

/// What a handler may return.
pub trait AbiReturnShape<Shape, Mode, R>: Sized {
    /// The response that comes of it, with the alkanes that came in.
    spec fn response(self, incoming: Option<Seq<AlkaneTransfer>>) -> Result<ResponseModel, ReturnError>;

    fn into_call_response(self, incoming: Option<&AlkaneTransferParcel>) -> (r: Result<CallResponse, ReturnError>)
        ensures
            match (r, self.response(incoming_alkanes(incoming))) {
                (Ok(c), Ok(m)) => c.model() == m,
                (Err(x), Err(y)) => x == y,
                _ => false,
            },
    ;

    /// Whether the response cannot be made without the context of the call.
    fn needs_context(&self) -> (r: bool)
        ensures
            r == (self.response(None) == Err::<ResponseModel, ReturnError>(ReturnError::Context)),
            !r ==> forall|incoming: Option<Seq<AlkaneTransfer>>| #[trigger] self.response(incoming) == self.response(None),
    ;
}

impl<Mode, R: ReturnEncode<Mode>> AbiReturnShape<ViaValue, Mode, R> for R {
    open spec fn response(self, incoming: Option<Seq<AlkaneTransfer>>) -> Result<ResponseModel, ReturnError> {
        match incoming {
            None => Err(ReturnError::Context),
            Some(alkanes) => answer(alkanes, self.encoded()),
        }
    }

    fn into_call_response(self, incoming: Option<&AlkaneTransferParcel>) -> (r: Result<CallResponse, ReturnError>) {
        match incoming {
            None => Err(ReturnError::Context),
            Some(alkanes) => match self.encode_return() {
                Err(e) => Err(e),
                Ok(data) => Ok(CallResponse { alkanes: alkanes.copy(), data }),
            },
        }
    }

    fn needs_context(&self) -> (r: bool) {
        true
    }
}

impl<Mode, R: ReturnEncode<Mode>> AbiReturnShape<ViaResponse, Mode, R> for AlkabiResponse<R> {
    open spec fn response(self, incoming: Option<Seq<AlkaneTransfer>>) -> Result<ResponseModel, ReturnError> {
        answer(self.alkanes.0@, self.data.encoded())
    }

    fn into_call_response(self, incoming: Option<&AlkaneTransferParcel>) -> (r: Result<CallResponse, ReturnError>) {
        match self.data.encode_return() {
            Err(e) => Err(e),
            Ok(data) => Ok(CallResponse { alkanes: self.alkanes, data }),
        }
    }

    fn needs_context(&self) -> (r: bool) {
        false
    }
}

/// The response that a handler's return comes to: a value alone forwards the alkanes
/// that came in, and an [`AlkabiResponse`] says itself which go out.
pub fn finish_return<Shape, Mode, R, V>(value: V, incoming: Option<&AlkaneTransferParcel>) -> (r: Result<
    CallResponse,
    ReturnError,
>) where V: AbiReturnShape<Shape, Mode, R>
    ensures
        match (r, value.response(incoming_alkanes(incoming))) {
            (Ok(c), Ok(m)) => c.model() == m,
            (Err(x), Err(y)) => x == y,
            _ => false,
        },
{
    value.into_call_response(incoming)
}

/// The two shapes agree: a value alone comes to what it comes to with the incoming
/// alkanes forwarded.
pub proof fn lemma_shapes_agree<Mode, R: ReturnEncode<Mode>>(value: R, forwarded: AlkabiResponse<R>, alkanes: Seq<AlkaneTransfer>)
    requires
        forwarded.data == value,
        forwarded.alkanes.0@ == alkanes,
    ensures
        AbiReturnShape::<ViaValue, Mode, R>::response(value, Some(alkanes)) == AbiReturnShape::<ViaResponse, Mode, R>::response(
            forwarded,
            Some(alkanes),
        ),
{
}

/// An integer is returned in as many bytes as it has, the lowest first: read as a
/// little-endian number they are the integer.
pub proof fn lemma_raw_unsigned(a_u8: u8, a_u16: u16, a_u32: u32, a_u64: u64, a_u128: u128)
    ensures
        a_u8.raw().len() == 1,
        bytes::le_num(a_u8.raw()) == a_u8,
        a_u16.raw().len() == 2,
        bytes::le_num(a_u16.raw()) == a_u16,
        a_u32.raw().len() == 4,
        bytes::le_num(a_u32.raw()) == a_u32,
        a_u64.raw().len() == 8,
        bytes::le_num(a_u64.raw()) == a_u64,
        a_u128.raw().len() == 16,
        bytes::le_num(a_u128.raw()) == a_u128,
{
    lemma_powers();
    bytes::lemma_le_bytes_len(a_u8 as int, 1);
    bytes::lemma_le_round_trip(a_u8 as int, 1);
    bytes::lemma_le_bytes_len(a_u16 as int, 2);
    bytes::lemma_le_round_trip(a_u16 as int, 2);
    bytes::lemma_le_bytes_len(a_u32 as int, 4);
    bytes::lemma_le_round_trip(a_u32 as int, 4);
    bytes::lemma_le_bytes_len(a_u64 as int, 8);
    bytes::lemma_le_round_trip(a_u64 as int, 8);
    bytes::lemma_le_bytes_len(a_u128 as int, 16);
    bytes::lemma_le_round_trip(a_u128 as int, 16);
}

/// A signed integer is returned in two's complement: a negative one as the number that
/// stands as far below the power of its width.
pub proof fn lemma_raw_signed(a_i8: i8, a_i16: i16, a_i32: i32, a_i64: i64, a_i128: i128)
    ensures
        a_i8.raw().len() == 1,
        bytes::le_num(a_i8.raw()) == (if a_i8 >= 0 { a_i8 as int } else { a_i8 + 0x100 }),
        a_i16.raw().len() == 2,
        bytes::le_num(a_i16.raw()) == (if a_i16 >= 0 { a_i16 as int } else { a_i16 + 0x1_0000 }),
        a_i32.raw().len() == 4,
        bytes::le_num(a_i32.raw()) == (if a_i32 >= 0 { a_i32 as int } else { a_i32 + 0x1_0000_0000 }),
        a_i64.raw().len() == 8,
        bytes::le_num(a_i64.raw()) == (if a_i64 >= 0 { a_i64 as int } else { a_i64 + 0x1_0000_0000_0000_0000 }),
        a_i128.raw().len() == 16,
        bytes::le_num(a_i128.raw()) == (if a_i128 >= 0 { a_i128 as int } else { a_i128 + 0x1_0000_0000_0000_0000_0000_0000_0000_0000int }),
{
    lemma_powers();
    assert((a_i8 as u8) as int == (if a_i8 >= 0 { a_i8 as int } else { a_i8 + 0x100 })) by (bit_vector);
    bytes::lemma_le_bytes_len((a_i8 as u8) as int, 1);
    bytes::lemma_le_round_trip((a_i8 as u8) as int, 1);
    assert((a_i16 as u16) as int == (if a_i16 >= 0 { a_i16 as int } else { a_i16 + 0x1_0000 })) by (bit_vector);
    bytes::lemma_le_bytes_len((a_i16 as u16) as int, 2);
    bytes::lemma_le_round_trip((a_i16 as u16) as int, 2);
    assert((a_i32 as u32) as int == (if a_i32 >= 0 { a_i32 as int } else { a_i32 + 0x1_0000_0000 })) by (bit_vector);
    bytes::lemma_le_bytes_len((a_i32 as u32) as int, 4);
    bytes::lemma_le_round_trip((a_i32 as u32) as int, 4);
    assert((a_i64 as u64) as int == (if a_i64 >= 0 { a_i64 as int } else { a_i64 + 0x1_0000_0000_0000_0000 })) by (bit_vector);
    bytes::lemma_le_bytes_len((a_i64 as u64) as int, 8);
    bytes::lemma_le_round_trip((a_i64 as u64) as int, 8);
    assert((a_i128 as u128) as int == (if a_i128 >= 0 { a_i128 as int } else { a_i128 + 0x1_0000_0000_0000_0000_0000_0000_0000_0000int })) by (bit_vector);
    bytes::lemma_le_bytes_len((a_i128 as u128) as int, 16);
    bytes::lemma_le_round_trip((a_i128 as u128) as int, 16);
}

proof fn lemma_powers()
    ensures
        bytes::pow256(1) == 0x100,
        bytes::pow256(2) == 0x1_0000,
        bytes::pow256(4) == 0x1_0000_0000,
        bytes::pow256(8) == 0x1_0000_0000_0000_0000,
        bytes::pow256(16) == 0x1_0000_0000_0000_0000_0000_0000_0000_0000nat,
{
    reveal_with_fuel(bytes::pow256, 3);
    bytes::lemma_pow256_16();
}

/// A truth value is one byte: its little-endian number is 1 for true and 0 for false, so
/// that the two are told apart. Nothing is returned of `()`.
pub proof fn lemma_raw_bool(a: bool, b: bool)
    ensures
        a.raw().len() == 1,
        bytes::le_num(a.raw()) == (if a { 1int } else { 0int }),
        a.raw() == b.raw() ==> a == b,
        ().raw().len() == 0,
{
    reveal_with_fuel(bytes::le_num, 2);
    assert(a.raw()[0] == b.raw()[0] ==> a == b);
}

/// Bytes are returned as they are, and a text in UTF-8: no other text has its bytes.
pub proof fn lemma_raw_text(a: String, b: String, v: Vec<u8>)
    ensures
        v.raw() == v@,
        valid_utf8(a.raw()),
        decode_utf8(a.raw()) == a@,
        a.raw() == b.raw() ==> a@ == b@,
{
    encode_utf8_valid_utf8(a@);
    encode_utf8_decode_utf8(a@);
    encode_utf8_decode_utf8(b@);
}

/// Several values are returned one behind the other, in order.
pub proof fn lemma_raw_tuples<A: RawReturn, B: RawReturn, C: RawReturn>(a: A, b: B, c: C)
    ensures
        (a, b).raw().len() == a.raw().len() + b.raw().len(),
        (a, b).raw().take(a.raw().len() as int) == a.raw(),
        (a, b).raw().skip(a.raw().len() as int) == b.raw(),
        (a, b, c).raw().len() == a.raw().len() + b.raw().len() + c.raw().len(),
        (a, b, c).raw().take(a.raw().len() as int) == a.raw(),
        (a, b, c).raw().subrange(a.raw().len() as int, (a.raw().len() + b.raw().len()) as int) == b.raw(),
        (a, b, c).raw().skip((a.raw().len() + b.raw().len()) as int) == c.raw(),
{
}

/// A raw value that is returned alone gives its bytes as data and forwards exactly the
/// alkanes that came in; it cannot be answered without the context of the call.
pub proof fn lemma_value_response<R: RawReturn>(value: R, alkanes: Seq<AlkaneTransfer>)
    ensures
        AbiReturnShape::<ViaValue, RawMode, R>::response(value, Some(alkanes)) matches Ok(m) && m.alkanes == alkanes && m.data
            == value.raw(),
        AbiReturnShape::<ViaValue, RawMode, R>::response(value, None) == Err::<ResponseModel, ReturnError>(ReturnError::Context),
{
}

/// A response says itself which alkanes go out: those that came in do not matter, and the
/// context is not needed.
pub proof fn lemma_explicit_response<R: RawReturn>(value: AlkabiResponse<R>, incoming: Option<Seq<AlkaneTransfer>>)
    ensures
        AbiReturnShape::<ViaResponse, RawMode, R>::response(value, incoming) matches Ok(m) && m.alkanes == value.alkanes.0@
            && m.data == value.data.raw(),
{
}

/// A value that cannot be encoded in its mode is never answered with data.
pub proof fn lemma_unencodable<Mode, R: ReturnEncode<Mode>>(value: R, alkanes: Seq<AlkaneTransfer>)
    ensures
        match (value.encoded(), AbiReturnShape::<ViaValue, Mode, R>::response(value, Some(alkanes))) {
            (None, Err(e)) => e == ReturnError::Encode,
            (Some(data), Ok(m)) => m.data == data && m.alkanes == alkanes,
            _ => false,
        },
{
}

} // verus!
