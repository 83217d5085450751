//! Decoy selection and ring assembly for spending an output on a ring-signature ledger.
//!
//! The library is pure: randomness that needs floating point (the age model) arrives as
//! pre-drawn values, and everything fetched from a remote node arrives as plain records.
//! Three stages run in order: [`sampler`] picks candidate indices, [`filter`] screens the
//! node's records for them, and [`ring`] assembles the final ring. [`laws`] proves how the
//! stages fit together.
pub mod types;
pub mod search;
pub mod sampler;
pub mod filter;
pub mod ring;
pub mod laws;

pub use filter::{filter_outputs, filter_outputs_deterministic};
pub use ring::{build_ring, make_ring};
pub use sampler::sample_candidates;
pub use types::{
    BlockInfo, DecoyError, Draw, FetchedRecords, OutputRecord, RealSpend, Ring, RingMember,
    Timelock, ViewPairJson,
};
