use vstd::prelude::*;

pub mod content;
pub mod domain;
pub mod paths;
pub mod pipeline;
pub mod tags;
pub mod tree;

verus! {

/// The two locations a run works with: where the vault lives and where the
/// generated site is written.
pub struct Args {
    pub vault_path: String,
    pub output_dir: String,
}

} // verus!
