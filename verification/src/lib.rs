//! The aspect model: the canonical representation of everything a
//! distributed-ledger node can know or gossip about a single logical entry
//! at a content-addressed location — the entry's content, its deletion
//! marker, links attached to it, and updates superseding it.
//!
//! The centre of the library is [`aspect::EntryAspect`], a closed tagged
//! union with one case per kind of fact, each case carrying exactly one
//! provenance header. The derived operations — canonical address
//! resolution, discriminator tagging, serialization, rendering, equality
//! and hashing — are all verified: each carries a contract that pins its
//! result down, and the laws the model promises (the serialization
//! round trip, discriminator disjointness, the hash/equality contract,
//! rendering completeness) are stated and proved as lemmas.

pub mod types;
pub mod aspect;
pub mod render;
pub mod codec;
pub mod hashing;
