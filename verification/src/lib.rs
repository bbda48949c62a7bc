//! A vector store for a DiskANN-style search: the on-disk `.bin` layout of
//! vector files, the keys under which vectors live in a key-value server,
//! the poll decisions of the FFI-backed futures, and the random sampling that
//! the simulated search uses.
use vstd::prelude::*;

pub mod bin_format;
pub mod keys;
pub mod provider;
pub mod ffi_async;
pub mod sampling;
pub mod diskann;

verus! {

} // verus!
