//! Core logic of a Bitcoin node dashboard: network selection, node and
//! database settings, block listing and paging, mempool ordering and fee
//! statistics, synchronisation bookkeeping and the scheduler's state.
//! Every function here is verified; the web server, the database and the
//! node connection live around it.

pub mod text;
pub mod network;
pub mod ordering;
pub mod paging;
pub mod mempool;
pub mod blocks;
pub mod sync;
pub mod scheduler;
pub mod settings;
pub mod node;
pub mod wallet;
pub mod wallet_setup;
pub mod requests;
pub mod hashes;
