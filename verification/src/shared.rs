//! Plain data types shared between the basket engine and its callers.

use vstd::prelude::*;

verus! {

/// A basket component as supplied by the caller at construction time:
/// an asset identifier together with how many units of that asset back one
/// derivative unit.
pub struct TokenWithRatioValid {
    pub token_id: String,
    pub ratio: u32,
}

/// A recorded basket component.
pub struct TokenWithRatio {
    pub token_id: String,
    pub ratio: u32,
}

impl View for TokenWithRatio {
    type V = (Seq<char>, u32);

    open spec fn view(&self) -> (Seq<char>, u32) {
        (self.token_id@, self.ratio)
    }
}

impl View for TokenWithRatioValid {
    type V = (Seq<char>, u32);

    open spec fn view(&self) -> (Seq<char>, u32) {
        (self.token_id@, self.ratio)
    }
}

/// An off-chain document describing the basket: a reference (such as a URL)
/// and the hash of its content.
#[derive(Clone)]
pub struct MetadataReference {
    pub reference: String,
    pub reference_hash: Vec<u8>,
}

impl View for MetadataReference {
    type V = (Seq<char>, Seq<u8>);

    open spec fn view(&self) -> (Seq<char>, Seq<u8>) {
        (self.reference@, self.reference_hash@)
    }
}

} // verus!
