//! Verified core of a small LAN file-transfer tool: the line protocol spoken
//! between sender and receiver, device discovery bookkeeping, configuration
//! handling and the decisions the command line and dialogs make.
pub mod text;
pub mod protocol;
pub mod transfer;
pub mod device;
pub mod config;
pub mod cli;
pub mod daemon;
pub mod sender;
