//! What a vector provider decides before it talks to the key-value server:
//! the key of each vector and whether a vector may be stored at all.
use vstd::prelude::*;
use crate::keys::{decimal, key_for, vector_key};

verus! {

/// Why a provider refuses a request.
#[derive(Debug, Clone, Copy, PartialEq, Eq, Structural)]
pub enum ProviderError {
    /// The vector to store does not have the provider's dimension.
    DimensionMismatch,
}

impl ProviderError {
    /// The text of the error.
    pub fn message(&self) -> (text: &'static str)
        ensures
            text@ == "Dimension mismatch"@,
    {
        match self {
            ProviderError::DimensionMismatch => "Dimension mismatch",
        }
    }
}

/// The plain part of a vector provider: where its keys live and how long
/// its vectors are.
pub struct KeySpace {
    pub path_prefix: String,
    pub dimension: usize,
}

impl KeySpace {
    pub fn new(path_prefix: String, dimension: usize) -> (ks: Self)
        ensures
            ks.path_prefix@ == path_prefix@,
            ks.dimension == dimension,
    {
        KeySpace { path_prefix, dimension }
    }

    /// The key that a read of vector `vec_id` asks the server for.
    pub fn get_key(&self, vec_id: usize) -> (key: String)
        ensures
            key@ == vector_key(self.path_prefix@, vec_id as nat),
            key@ == self.path_prefix@ + seq![':'] + decimal(vec_id as nat),
    {
        key_for(self.path_prefix.as_str(), vec_id)
    }

    /// The key and value that a write of `value` as vector `vec_id` sends to
    /// the server, or the reason the write is refused.
    pub fn set_request(&self, vec_id: usize, value: Vec<u8>) -> (res: Result<(String, Vec<u8>), ProviderError>)
        ensures
            (value@.len() != self.dimension) <==> res is Err,
            res matches Err(e) ==> e == ProviderError::DimensionMismatch,
            res matches Ok((key, v)) ==> key@ == vector_key(self.path_prefix@, vec_id as nat) && v@ == value@,
            res matches Ok((key, v)) ==> key@ == self.path_prefix@ + seq![':'] + decimal(vec_id as nat),
    {
        if self.dimension != value.len() {
            return Err(ProviderError::DimensionMismatch);
        }
        let key = self.get_key(vec_id);
        Ok((key, value))
    }
}

} // verus!
