use crate::text::str_eq;
use vstd::prelude::*;

verus! {

/// Requests per second that the metadata source accepts from this process.
pub const ETHERSCAN_RATE_LIMIT: u64 = 3;

/// Hours after which an incomplete record may be fetched again.
pub const FRESHNESS_WINDOW_HOURS: u64 = 24;

/// The freshness window in milliseconds.
pub const FRESHNESS_WINDOW_MS: u64 = FRESHNESS_WINDOW_HOURS * 3600 * 1000;

/// Age in milliseconds at which a job leaves the job table.
pub const JOB_TTL_MS: u64 = 300 * 1000;

/// Milliseconds between two sweeps of the job table.
pub const REAP_PERIOD_MS: u64 = 60 * 1000;

/// Largest number of addresses, or of job identifiers, in one request.
pub const MAX_BATCH: usize = 1000;

/// The numeric identifier that the metadata source uses for a named chain.
pub open spec fn chain_id_of(chain: Seq<char>) -> Option<u32> {
    if chain == "eth-mainnet"@ {
        Some(1u32)
    } else if chain == "eth-sepolia"@ {
        Some(11155111u32)
    } else if chain == "arb-mainnet"@ {
        Some(42161u32)
    } else if chain == "arb-sepolia"@ {
        Some(421614u32)
    } else if chain == "base-mainnet"@ {
        Some(8453u32)
    } else if chain == "base-sepolia"@ {
        Some(84532u32)
    } else if chain == "foundry-test"@ {
        Some(0u32)
    } else if chain == "hyperliquid-mainnet"@ {
        Some(999u32)
    } else if chain == "monad-mainnet"@ {
        Some(10143u32)
    } else if chain == "monad-testnet"@ {
        Some(101431u32)
    } else if chain == "unichain-mainnet"@ {
        Some(130u32)
    } else if chain == "unichain-sepolia"@ {
        Some(1301u32)
    } else if chain == "polygon-mainnet"@ {
        Some(137u32)
    } else if chain == "polygon-amoy"@ {
        Some(80002u32)
    } else if chain == "zksync-mainnet"@ {
        Some(324u32)
    } else if chain == "zksync-sepolia"@ {
        Some(300u32)
    } else {
        None
    }
}

/// Whether a chain name is configured.
pub open spec fn known_chain(chain: Seq<char>) -> bool {
    chain_id_of(chain) is Some
}

/// Looks a chain name up in the configured table.
pub fn get_chain_id(chain: &str) -> (r: Option<u32>)
    ensures
        r == chain_id_of(chain@),
{
    if str_eq(chain, "eth-mainnet") {
        Some(1)
    } else if str_eq(chain, "eth-sepolia") {
        Some(11155111)
    } else if str_eq(chain, "arb-mainnet") {
        Some(42161)
    } else if str_eq(chain, "arb-sepolia") {
        Some(421614)
    } else if str_eq(chain, "base-mainnet") {
        Some(8453)
    } else if str_eq(chain, "base-sepolia") {
        Some(84532)
    } else if str_eq(chain, "foundry-test") {
        Some(0)
    } else if str_eq(chain, "hyperliquid-mainnet") {
        Some(999)
    } else if str_eq(chain, "monad-mainnet") {
        Some(10143)
    } else if str_eq(chain, "monad-testnet") {
        Some(101431)
    } else if str_eq(chain, "unichain-mainnet") {
        Some(130)
    } else if str_eq(chain, "unichain-sepolia") {
        Some(1301)
    } else if str_eq(chain, "polygon-mainnet") {
        Some(137)
    } else if str_eq(chain, "polygon-amoy") {
        Some(80002)
    } else if str_eq(chain, "zksync-mainnet") {
        Some(324)
    } else if str_eq(chain, "zksync-sepolia") {
        Some(300)
    } else {
        None
    }
}

/// No configured chain name holds a colon, and none is empty.
pub proof fn lemma_known_chain_has_no_colon(chain: Seq<char>)
    requires
        known_chain(chain),
    ensures
        chain.len() > 0,
        forall|i: int| 0 <= i < chain.len() ==> chain[i] != ':',
{
    reveal_strlit("eth-mainnet");
    reveal_strlit("eth-sepolia");
    reveal_strlit("arb-mainnet");
    reveal_strlit("arb-sepolia");
    reveal_strlit("base-mainnet");
    reveal_strlit("base-sepolia");
    reveal_strlit("foundry-test");
    reveal_strlit("hyperliquid-mainnet");
    reveal_strlit("monad-mainnet");
    reveal_strlit("monad-testnet");
    reveal_strlit("unichain-mainnet");
    reveal_strlit("unichain-sepolia");
    reveal_strlit("polygon-mainnet");
    reveal_strlit("polygon-amoy");
    reveal_strlit("zksync-mainnet");
    reveal_strlit("zksync-sepolia");
}

} // verus!
