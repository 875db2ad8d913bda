//! Planning and bookkeeping for sweeps of an IPv4 network: which addresses a
//! block holds, how they are batched for probing, which ports a scan probes,
//! and how the answers of the probes are folded into results.
//!
//! Nothing here touches the network. A caller performs the probes that the
//! plans name and hands the outcomes back.

pub mod address;
pub mod block;
pub mod batch;
pub mod catalog;
pub mod discovery;
pub mod distinct;
pub mod dispatch;
pub mod error;
pub mod portscan;
pub mod privilege;
pub mod results;
pub mod scanner;
pub mod text;
