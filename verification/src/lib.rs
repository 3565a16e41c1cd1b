//! Exact 0/1 knapsack by exhaustive search in Gray-code order.
//!
//! A subset of at most 64 items is one machine word ([`bitstring::BitString`]).
//! The search ([`search::Search`]) walks the subsets so that each differs from
//! its predecessor in one item, and keeps the weight and value of the subset
//! it stands on by adding or subtracting that single item.
//!
//! - [`bitstring`]: the subset type and its bit-level facts.
//! - [`gray`]: the visiting order, and the proofs that it reaches every subset
//!   once and changes one item per step.
//! - [`instance`]: what an instance, a feasible subset and the optimum are.
//! - [`knapsack`]: an instance in memory, and `solve`.
//! - [`search`]: the search as a state that is stepped, with progress reports.
pub mod bitstring;
pub mod gray;
pub mod instance;
pub mod knapsack;
pub mod search;
