//! alkabi — self-describing ABI generation for alkanes contracts.
//!
//! A contract's message enum becomes an impl of `MessageDispatch` ([`expansion`]):
//!   - `from_opcode`: calldata decoding ([`legacy`] u128-word fields or borsh-packed
//!     params, [`borsh_io`])
//!   - `dispatch`: opcode -> snake_case method routing, with typed returns ([`abi_return`])
//!     and witness-borne inputs ([`witness`])
//!   - `export_abi`: an alkabi JSON document ([`abi`]) exposed on-chain through `__meta`
//!
//! Borsh structs/enums are described ([`types`]) as schema trees ([`schema`]) that
//! serialize into the borsh-js schema grammar consumed by borsher on the TS side.
//!
//! On the host, [`extract`] gets the document back out of a compiled contract, and
//! [`analysis`] synthesizes plans ([`plan`]) for its view methods.

pub mod abi;
pub mod abi_return;
pub mod alkane;
pub mod analysis;
pub mod borsh_io;
pub mod bytes;
pub mod casing;
pub mod expansion;
pub mod extract;
pub mod json;
pub mod json_laws;
pub mod legacy;
pub mod plan;
pub mod schema;
pub mod text;
pub mod types;
pub mod witness;

pub use abi::AbiDocument as AlkabiAbi;
pub use abi_return::AlkabiResponse;
pub use types::AlkabiType;
