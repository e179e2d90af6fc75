//! Canonical encoding, Merkle commitments and Merkle proofs for the typed
//! containers of a proof-of-stake beacon chain, with the signing-root
//! convention and the light-client session state built on them.

pub mod altair;
pub mod branch;
pub mod builder;
pub mod byte_list;
pub mod byte_vector;
pub mod capella;
pub mod collections;
pub mod deneb;
pub mod domains;
pub mod hash;
pub mod light_client;
pub mod math;
pub mod merkle;
pub mod offsets;
pub mod phase0;
pub mod primitives;
pub mod signing;
pub mod ssz;
pub mod variable_list;
