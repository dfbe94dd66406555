//! Verified core of the Parano1d permanode: the mirrored consensus rules
//! (emission schedule, fee model), the checks the indexer applies to block
//! bodies, and the decisions of the indexer and the API server.
#![allow(unused_imports)]

pub mod emission;
pub mod fees;
pub mod text;
pub mod hexcodec;
pub mod rpc;
pub mod decode;
pub mod import;
pub mod indexer;
pub mod queries;
pub mod live_rpc;
pub mod mempool;
pub mod config;
pub mod export;
pub mod serve;
pub mod selfcheck;
