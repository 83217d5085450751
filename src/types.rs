//! The values that flow between the stages.
use vstd::prelude::*;

verus! {

/// Why decoy selection or ring assembly stopped.
#[derive(Debug, Clone, Copy, PartialEq, Eq, Structural)]
pub enum DecoyError {
    /// The distribution is shorter than the lock window: too little chain history.
    NotEnoughBlocks,
    /// Too few outputs below the selectable bound to fill the requested candidates.
    NotEnoughCandidates,
    /// The draws ran out, or the unexcluded pool became too small, before enough
    /// candidates were found.
    RoundLimit,
    /// The cumulative output counts decrease somewhere.
    NonMonotonicDistribution,
    /// The node answered with a different number of records than was asked for.
    ResponseLengthMismatch,
    /// The node's record for the output being spent differs from the known key or commitment.
    SpendMismatch,
    /// A ring of length zero was requested.
    EmptyRing,
    /// The verified decoy pool holds fewer members than the ring needs.
    PoolTooSmall,
}

impl DecoyError {
    /// Whether the error shows that the remote node cannot be trusted.
    pub fn is_node_fault(&self) -> (r: bool)
        ensures
            r == (*self == DecoyError::NonMonotonicDistribution
                || *self == DecoyError::ResponseLengthMismatch
                || *self == DecoyError::SpendMismatch),
    {
        match self {
            DecoyError::NonMonotonicDistribution => true,
            DecoyError::ResponseLengthMismatch => true,
            DecoyError::SpendMismatch => true,
            _ => false,
        }
    }
}

/// The random values consumed by one round of candidate sampling.
#[derive(Debug, Clone, Copy, PartialEq, Eq, Structural)]
pub struct Draw {
    /// The exponential of a Gamma(19.28, 1/1.61) sample, in whole seconds.
    pub age: u64,
    /// A uniform value, used for an age inside the recent window when `age` is too young.
    pub recent: u64,
    /// A uniform value that picks one output inside the chosen block.
    pub pick: u64,
}

/// A transaction's additional timelock.
#[derive(Debug, Clone, Copy, PartialEq, Eq, Structural)]
pub enum Timelock {
    /// No additional lock.
    NoLock,
    /// Locked until this block height.
    Block(u64),
    /// Locked until this timestamp.
    Time(u64),
}

/// What the node reports for one requested global output index.
#[derive(Debug, Clone, Copy, PartialEq, Eq)]
pub struct OutputRecord {
    /// Height of the block holding the output.
    pub height: u64,
    /// The node's claim that the output is spendable.
    pub unlocked: bool,
    /// Compressed one-time public key.
    pub key: [u8; 32],
    /// Compressed amount commitment.
    pub commitment: [u8; 32],
    /// Id of the transaction that created the output.
    pub transaction: [u8; 32],
}

/// The output being spent, as the wallet knows it.
#[derive(Debug, Clone, Copy, PartialEq, Eq)]
pub struct RealSpend {
    /// Global output index.
    pub index: u64,
    /// Compressed one-time public key.
    pub key: [u8; 32],
    /// Compressed amount commitment.
    pub commitment: [u8; 32],
}

/// One member of a ring: a global index with its key and commitment.
#[derive(Debug, Clone, Copy, PartialEq, Eq)]
pub struct RingMember {
    /// Global output index.
    pub index: u64,
    /// Compressed one-time public key.
    pub key: [u8; 32],
    /// Compressed amount commitment.
    pub commitment: [u8; 32],
}

/// An assembled ring, ready for signing.
#[derive(Debug)]
pub struct Ring {
    /// The members' global indices as deltas: the first is absolute, each next one is the
    /// distance from the previous member.
    pub offsets: Vec<u64>,
    /// Zero-based position of the real spend among `members`.
    pub spend_position: u8,
    /// The members, ascending by global index.
    pub members: Vec<RingMember>,
}

/// The node's answer for the sampled candidates, one entry per candidate, in candidate order.
/// Which variant is given selects how unlock status is judged.
#[derive(Debug)]
pub enum FetchedRecords {
    /// Trust the node's unlock flags.
    NodeTrusted { records: Vec<OutputRecord> },
    /// Judge unlock status locally from each output's height and its transaction's timelock,
    /// at scan height `height`.
    Deterministic { records: Vec<OutputRecord>, locks: Vec<Timelock>, height: u64 },
}

/// Height, time and hash of one block, as shown to a wallet user.
#[derive(Debug, PartialEq, Eq)]
pub struct BlockInfo {
    pub block_height: u64,
    pub block_timestamp: u64,
    pub block_hash: String,
}

/// A view key with the primary addresses it yields on each network, hex and base58 encoded.
#[derive(Debug, PartialEq, Eq)]
pub struct ViewPairJson {
    pub view_key: String,
    pub mainnet_primary: String,
    pub stagenet_primary: String,
    pub testnet_primary: String,
}

impl RealSpend {
    /// The ring member that stands for this output.
    pub open spec fn member(self) -> RingMember {
        RingMember { index: self.index, key: self.key, commitment: self.commitment }
    }
}

} // verus!
