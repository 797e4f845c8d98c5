//! Precompile execution layer for the BLS12-381 curve operations of EIP-2537.
#![allow(non_camel_case_types)]

pub mod backend;
pub mod bytes;
pub mod error;
pub mod executor;
pub mod field;
pub mod g1;
pub mod g2;
pub mod group;
pub mod laws;
pub mod mapper;
pub mod msm;
pub mod msm_laws;
pub mod pairing;
pub mod precompile;
pub mod records;
pub mod scalar;

pub use executor::blstEIP2537Executor;
