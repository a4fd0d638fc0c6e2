//! A local execution engine for an account-based ledger.
//!
//! The engine keeps one record per address in an [`store::AccountStore`] and
//! runs programs on working copies of those records. One invocation of
//! [`emulator::Emulator::execute`] loads the accounts that an instruction
//! names, runs the program, validates what the program hands back and
//! commits it, all or nothing; [`policy`] holds the rule by which a committed
//! record is kept or purged. [`collection`] builds append-only lists of
//! references to records on addresses that [`address`] derives from seeds.
//! [`server`] and [`transport`] are the two faces that the layers above see.

pub mod account;
pub mod address;
pub mod collection;
pub mod emulator;
pub mod error;
pub mod keyset;
pub mod policy;
pub mod server;
pub mod store;
pub mod transport;
