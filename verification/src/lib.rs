//! Verified core of an XDCC fetcher: IRC line framing, control-line
//! classification, the DCC transfer state machine, and the session
//! orchestrator's decision logic. All I/O lives outside this crate.

pub mod catalog;
pub mod framer;
pub mod proto;
pub mod session;
pub mod text;
pub mod transfer;
