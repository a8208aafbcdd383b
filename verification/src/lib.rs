//! A marketplace engine that brokers custody transfer of non-fungible tokens
//! against native-currency payment. It supports fixed-price sale and English
//! auction with refundable bidding and royalty splitting, processing one
//! command at a time over an explicit state value and emitting the outbound
//! instructions (custody transfers and payments) for the host to deliver.

pub mod error;
pub mod instr;
pub mod laws;
pub mod market;
pub mod royalty;
pub mod state;
pub mod table;
