//! The hash of an operation, used to name saved operation files.

use vstd::prelude::*;
use crate::operation::Operation;

verus! {

/// Hashes the fields of `op` in order, the folders and action paths taken
/// as `PathBuf`s, with `std`'s `DefaultHasher` through
/// `BuildHasher::hash_one`. Nothing is stated of the result: it depends on
/// the width and byte order of the machine's integers and on the release
/// of `std`.
#[verifier::external_body]
fn default_hash_of_fields(op: &Operation) -> u64 {
    let actions: Vec<(u8, std::path::PathBuf)> = op.actions.iter().map(
        |a| (a.0, std::path::PathBuf::from(&a.1)),
    ).collect();
    let fields = (
        &op.name,
        std::path::PathBuf::from(&op.source),
        std::path::PathBuf::from(&op.out),
        actions,
    );
    std::hash::BuildHasher::hash_one(
        &std::hash::BuildHasherDefault::<std::hash::DefaultHasher>::default(),
        fields,
    )
}

/// The hash of an operation, as `DefaultHasher` computes it.
pub fn calculate_hash(op: &Operation) -> u64 {
    default_hash_of_fields(op)
}

} // verus!
