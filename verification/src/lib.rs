//! An in-memory, multi-type key-value engine with a line-oriented text
//! protocol: sequences, sets, hashes and sorted sets under string keys, with
//! expiry, authentication and snapshot bookkeeping.
//!
//! Every function states its behaviour over mathematical models (`Seq`, `Set`,
//! `Map`) and is proved against that statement.

pub mod range;
pub mod text;
pub mod number;
pub mod score;
pub mod assoc;
pub mod order;
pub mod value;
pub mod model;
pub mod persistence;
pub mod carrier;
pub mod storage;
pub mod protocol;
pub mod decode;
pub mod encode;
pub mod session;
pub mod invariants;
pub mod laws;
pub mod roundtrip;
pub mod acceptance;
pub mod retry;
