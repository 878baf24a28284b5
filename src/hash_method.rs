use vstd::prelude::*;

verus! {

/// Group-by hashing that serializes the key columns of each row into one
/// byte string.
#[derive(Debug, Clone, Copy, PartialEq, Eq, Structural)]
pub struct HashMethodSerializer {}

impl HashMethodSerializer {
    /// The name of the method.
    pub fn name(&self) -> (r: String)
        ensures
            r@ == "Serializer"@,
    {
        "Serializer".to_owned()
    }
}

} // verus!
