//! Storage analysis for Substrate chains: what the records of a state
//! snapshot belong to, how much room they take, and where an account occurs
//! in them.
//!
//! A record is a key and a value, both plain bytes. The first 16 bytes of a
//! key are the digest of the name of a pallet, the next 16 the digest of the
//! name of one of its storage items. [`prefix`] builds the index from such
//! prefixes to names and classifies keys by it. [`stats`] keeps the sizes of
//! what was classified, per pallet and per item; [`totals`] says what those
//! sizes mean and proves that they do not depend on how the records were
//! split among workers. [`worker`] is one worker of the pool that fills the
//! statistics, as a state machine that the caller drives. [`grep`] searches
//! keys and values for the byte patterns of [`subject`], with [`matcher`]
//! doing the search. [`info`], [`chainspec`] and [`scale_compressed`] hold
//! what the commands of the same names compute, [`ranking`] the order in
//! which a report lists its entries.
//!
//! The library reads no file and talks to no network: the caller brings the
//! records and does the printing. Hashing, compression, the SCALE codec,
//! JSON and SS58 addresses are done by the crates that Substrate uses for
//! them, behind the few functions of [`hashing`], [`compression`],
//! [`codec`], [`json`], [`account`] and [`hexadecimal`] whose contracts are
//! taken on trust.

pub mod account;
pub mod assoc;
pub mod chainspec;
pub mod codec;
pub mod compression;
pub mod endpoint;
pub mod grep;
pub mod hashing;
pub mod hexadecimal;
pub mod info;
pub mod json;
pub mod label;
pub mod lex;
pub mod matcher;
pub mod prefix;
pub mod ranking;
pub mod scale_compressed;
pub mod stats;
pub mod subject;
pub mod text;
pub mod totals;
pub mod worker;
