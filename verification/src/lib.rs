use vstd::prelude::*;

pub mod chars;
pub mod clock;
pub mod codec;
pub mod envvars;
pub mod fsmodel;
pub mod locator;
pub mod paths;
pub mod records;
pub mod store;
pub mod backup;

verus! {

/// The failure kinds a store operation can report: path and filesystem
/// trouble, malformed row documents, and archives that cannot be read.
#[derive(Clone, Copy, Debug, PartialEq, Eq, Structural)]
pub enum StoreError {
    Path,
    Codec,
    Archive,
}

} // verus!
