//! Authentication of ledger account state and pre-commit transaction
//! validation.
//!
//! The crate canonically encodes account state, binds it to a content hash,
//! verifies sparse-Merkle inclusion and range proofs against a signed ledger
//! checkpoint, and keeps a versioned cached view of chain state for
//! pre-screening transactions before they enter the ordering pipeline.

pub mod authenticator;
pub mod blob;
pub mod byteorder;
pub mod chunk;
pub mod codec;
pub mod errors;
pub mod gas_price;
pub mod hashing;
pub mod merkle;
pub mod state;
pub mod validator;
