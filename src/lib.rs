//! Core logic of a coverage-guided differential fuzzer for recursive DNS resolvers: coverage
//! counters, the scripted and the static authoritative servers, the key-value projection of
//! results and the classifier of differences between resolvers, the reproduction batches, the
//! decay of the population queue, and the mutation of names.

pub mod text;

pub mod counters;
pub mod coverage;
pub mod progress;

pub mod fuzz_case;
pub mod fuzz_result;

pub mod authns;
pub mod zone;

pub mod values;
pub mod zip_sorted;
pub mod difference;
pub mod known_diffs;
pub mod fingerprint;
pub mod diff_matcher;
pub mod line_diff;
pub mod edns_names;
pub mod projection;

pub mod batch_cache;
pub mod decay;
pub mod mutation;
pub mod name_mutation;
pub mod spawner;
