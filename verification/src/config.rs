//! The indexer's configuration, with the defaults a missing key falls back
//! to.
use vstd::prelude::*;
use vstd::string::StringExecFns;
use crate::text::{decimal, decimal_u64};

verus! {

#[derive(Debug, Clone)]
pub struct Config {
    pub rpc_url: String,
    pub db_path: String,
    pub poll_interval_seconds: u64,
    /// How many recent heights to re-check on every poll for reorgs; must
    /// stay at or above the protocol's maximum reorg depth plus a margin.
    pub reorg_check_depth: u64,
    /// Days of transaction detail to keep before pruning; 0 keeps it
    /// forever. Block headers are always kept.
    pub retention_days: u64,
    /// How often to run the pruning pass, in poll cycles.
    pub prune_every_cycles: u64,
    /// Decode the raw block from getBlock where getBlockDetails hides the
    /// body.
    pub getblock_fallback: bool,
    /// Cross-check the decoder against every body getBlockDetails returns.
    pub decoder_selfcheck: bool,
}

pub fn default_rpc_url() -> (s: String)
    ensures
        s@ == "http://127.0.0.1:9601"@,
{
    String::from_str("http://127.0.0.1:9601")
}

pub fn default_db_path() -> (s: String)
    ensures
        s@ == "permanode.sqlite3"@,
{
    String::from_str("permanode.sqlite3")
}

pub fn default_poll_interval() -> (r: u64)
    ensures
        r == 5,
{
    5
}

pub fn default_reorg_check_depth() -> (r: u64)
    ensures
        r == 30,
{
    30
}

pub fn default_retention_days() -> (r: u64)
    ensures
        r == 0,
{
    0
}

/// About an hour at the default 5 s poll interval.
pub fn default_prune_every_cycles() -> (r: u64)
    ensures
        r == 720,
{
    720
}

pub fn default_true() -> (r: bool)
    ensures
        r,
{
    true
}

/// The configuration every missing key falls back to.
pub open spec fn is_default_config(c: Config) -> bool {
    &&& c.rpc_url@ == "http://127.0.0.1:9601"@
    &&& c.db_path@ == "permanode.sqlite3"@
    &&& c.poll_interval_seconds == 5
    &&& c.reorg_check_depth == 30
    &&& c.retention_days == 0
    &&& c.prune_every_cycles == 720
    &&& c.getblock_fallback
    &&& c.decoder_selfcheck
}

impl Default for Config {
    fn default() -> (c: Self)
        ensures
            is_default_config(c),
    {
        Config {
            rpc_url: default_rpc_url(),
            db_path: default_db_path(),
            poll_interval_seconds: default_poll_interval(),
            reorg_check_depth: default_reorg_check_depth(),
            retention_days: default_retention_days(),
            prune_every_cycles: default_prune_every_cycles(),
            getblock_fallback: default_true(),
            decoder_selfcheck: default_true(),
        }
    }
}

pub open spec fn bool_text(b: bool) -> Seq<char> {
    if b { "true"@ } else { "false"@ }
}

/// The commented config file written where none exists yet: every key with
/// its default.
pub open spec fn default_config_text() -> Seq<char> {
    "# parano1d-permanode indexer config\n# Missing keys fall back to these defaults.\n\nrpc_url = \"http://127.0.0.1:9601\"\ndb_path = \"permanode.sqlite3\"\npoll_interval_seconds = "@
        + decimal(5) + "\nreorg_check_depth = "@ + decimal(30)
        + "\n# 0 = keep transaction detail forever\nretention_days = "@ + decimal(0)
        + "\nprune_every_cycles = "@ + decimal(720)
        + "\ngetblock_fallback = "@ + bool_text(true)
        + "\ndecoder_selfcheck = "@ + bool_text(true) + "\n"@
}

fn bool_str(b: bool) -> (s: &'static str)
    ensures
        s@ == bool_text(b),
{
    if b {
        proof { reveal_strlit("true"); }
        "true"
    } else {
        proof { reveal_strlit("false"); }
        "false"
    }
}

/// The text of a fresh config file.
pub fn default_config_file() -> (s: String)
    ensures
        s@ == default_config_text(),
{
    let cfg = Config::default();
    proof {
        reveal_strlit("# parano1d-permanode indexer config\n# Missing keys fall back to these defaults.\n\nrpc_url = \"http://127.0.0.1:9601\"\ndb_path = \"permanode.sqlite3\"\npoll_interval_seconds = ");
        reveal_strlit("\nreorg_check_depth = ");
        reveal_strlit("\n# 0 = keep transaction detail forever\nretention_days = ");
        reveal_strlit("\nprune_every_cycles = ");
        reveal_strlit("\ngetblock_fallback = ");
        reveal_strlit("\ndecoder_selfcheck = ");
        reveal_strlit("\n");
    }
    let mut s = String::from_str("# parano1d-permanode indexer config\n# Missing keys fall back to these defaults.\n\nrpc_url = \"http://127.0.0.1:9601\"\ndb_path = \"permanode.sqlite3\"\npoll_interval_seconds = ");
    s.append(decimal_u64(cfg.poll_interval_seconds).as_str());
    s.append("\nreorg_check_depth = ");
    s.append(decimal_u64(cfg.reorg_check_depth).as_str());
    s.append("\n# 0 = keep transaction detail forever\nretention_days = ");
    s.append(decimal_u64(cfg.retention_days).as_str());
    s.append("\nprune_every_cycles = ");
    s.append(decimal_u64(cfg.prune_every_cycles).as_str());
    s.append("\ngetblock_fallback = ");
    s.append(bool_str(cfg.getblock_fallback));
    s.append("\ndecoder_selfcheck = ");
    s.append(bool_str(cfg.decoder_selfcheck));
    s.append("\n");
    s
}

} // verus!
