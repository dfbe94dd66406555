//! The node's read-only chain RPC as the indexer sees it: the records its
//! methods return, and how a reply is turned into a result.
use vstd::prelude::*;
use vstd::string::StringSliceAdditionalSpecFns;
use crate::hexcodec::{decode_hex, is_hex_text, hex_text_bytes};

verus! {

/// A block header as `paranoid_getBlockHeader` reports it.
#[derive(Debug, Clone)]
pub struct BlockHeaderInfo {
    pub height: u64,
    pub hash: String,
    pub prev_hash: String,
    pub state_root: String,
    pub tx_root: String,
    pub timestamp: u64,
    pub miner: String,
    pub nonce_hex: String,
    pub difficulty_target: String,
    pub log_slots: u32,
    pub active_slot_count: u64,
    pub alloc_counter: u64,
}

/// `paranoid_getBlockDetails`: the header, and the body where the node
/// still serves it through this method.
#[derive(Debug, Clone)]
pub struct BlockDetailsInfo {
    pub header: BlockHeaderInfo,
    pub retained: Option<RetainedBlockInfo>,
}

/// A block body with everything derived from it.
#[derive(Debug, Clone)]
pub struct RetainedBlockInfo {
    pub proof_class: String,
    pub logical_transactions: u32,
    pub user_pages: u32,
    pub live_inputs: u32,
    pub live_outputs: u32,
    pub reward_micronoid: u64,
    pub total_fees_micronoid: String,
    pub block_bytes: u64,
    pub transactions: Vec<BlockTransactionInfo>,
}

/// One logical transaction of a block body.
#[derive(Debug, Clone)]
pub struct BlockTransactionInfo {
    pub position: u32,
    pub txid: String,
    pub page_count: u32,
    pub live_inputs: u32,
    pub live_outputs: u32,
    pub fee_micronoid: u64,
    pub coinbase: bool,
    pub development_payout: bool,
    pub epoch_anchor: String,
    pub input_owner: Option<String>,
    pub input_sum_micronoid: String,
    pub output_sum_micronoid: String,
    pub page_hashes: Vec<String>,
    pub inputs: Vec<BlockTransactionInputInfo>,
    pub outputs: Vec<BlockTransactionOutputInfo>,
}

#[derive(Debug, Clone, PartialEq, Eq)]
pub struct BlockTransactionInputInfo {
    pub page: u32,
    pub lane: u32,
    pub slot_index: u64,
    pub amount_micronoid: u64,
    pub creation_id: u64,
}

#[derive(Debug, Clone)]
pub struct BlockTransactionOutputInfo {
    pub page: u32,
    pub lane: u32,
    pub slot_index: u64,
    pub amount_micronoid: u64,
    pub owner: String,
    pub creation_id: u64,
}

/// What a JSON-RPC reply carried: the text of its `error` member if it had
/// one (a `null` error counts), and its `result` member if it had one.
pub struct RpcReply<T> {
    pub error: Option<String>,
    pub result: Option<T>,
}

/// Why an RPC call gave no result.
#[derive(Debug, Clone)]
pub enum RpcError {
    /// The reply had an `error` member; its JSON text.
    Returned(String),
    /// The reply had neither an error nor a result.
    NoResult,
    /// `paranoid_getBlock` returned text that is not hex.
    InvalidHex,
}

/// The result of a call: an `error` member wins, a missing `result` is an
/// error too.
pub fn reply_result<T>(reply: RpcReply<T>) -> (r: Result<T, RpcError>)
    ensures
        reply.error matches Some(e) ==> r matches Err(RpcError::Returned(m)) && m == e,
        reply.error is None && reply.result is None ==> r matches Err(RpcError::NoResult),
        reply.error is None && reply.result is Some ==> r == Ok::<T, RpcError>(reply.result->0),
{
    match reply.error {
        Some(e) => Err(RpcError::Returned(e)),
        None => match reply.result {
            Some(v) => Ok(v),
            None => Err(RpcError::NoResult),
        },
    }
}

/// `paranoid_getBlock`'s result: `None` where it is not a string (the body
/// is outside the serving window), else the bytes its hex encodes.
pub fn raw_block_from_result(hex_result: Option<&str>) -> (r: Result<Option<Vec<u8>>, RpcError>)
    ensures
        hex_result is None ==> r matches Ok(None),
        hex_result matches Some(t) ==> (is_hex_text(t.spec_bytes()) <==> r is Ok),
        hex_result matches Some(t) ==> (r matches Ok(Some(v)) ==> v@ == hex_text_bytes(t.spec_bytes())),
        hex_result matches Some(t) ==> (r is Err ==> r matches Err(RpcError::InvalidHex)),
        r matches Ok(None) ==> hex_result is None,
{
    match hex_result {
        None => Ok(None),
        Some(text) => match decode_hex(text) {
            Some(bytes) => Ok(Some(bytes)),
            None => Err(RpcError::InvalidHex),
        },
    }
}

} // verus!
