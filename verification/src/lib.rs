//! A small storage engine for a flock of sheep, and the wolf that preys on
//! it, with the behaviour of every part stated in contracts and proved.
//!
//! The shed ([`SheepShed`]) stores sheep keyed by their tattoos, refusing
//! duplicated tattoos on the way in and absent ones on the way out. A
//! remote, partitioned backend is read through a segmented scan whose
//! sizing, page folding and merging live in [`scan`], and whose failure
//! classification lives in [`backend`]. The wolf ([`wolf`]) joins a sieve
//! of primes ([`sieve`]) with a full fetch, picks the heaviest sheep whose
//! weight no small prime divides — a later sheep winning ties — and removes
//! it.

pub mod ackermann;
pub mod apigw;
pub mod backend;
pub mod errors;
pub mod handlers;
pub mod parse;
pub mod random;
pub mod scan;
pub mod shed;
pub mod sheep;
pub mod sieve;
pub mod text;
pub mod wolf;

pub use shed::MemorySheepShed;
pub use shed::SheepShed;
pub use sheep::Sheep;
pub use sheep::Tattoo;
pub use sheep::Weight;
pub use sheep::WeightUnit;
