//! Human-readable debug names for the declarations of a Sierra program.
//!
//! Types, libfuncs and user functions of a Sierra program are identified by
//! numbers only. This library computes a stable name for each of them from the
//! generic structure of the declarations, from names given by the caller and
//! from the ABI of a Starknet contract.

pub mod program;
pub mod utils;
pub mod types;
pub mod libfuncs;
pub mod mapper;
pub mod mappings;
