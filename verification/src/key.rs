use vstd::prelude::*;

verus! {

/// Identity of an on-chain account: a 256-bit public key, held as four
/// 64-bit words. The host runtime hands keys in as raw bytes; the order of
/// the words is up to the caller and never inspected here — the
/// configuration logic only ever compares keys for equality.
#[derive(Clone, Copy, Debug, PartialEq, Eq, Hash, Structural)]
pub struct Pubkey {
    pub w0: u64,
    pub w1: u64,
    pub w2: u64,
    pub w3: u64,
}

impl Pubkey {
    /// Builds a key from its four words.
    pub fn new(w0: u64, w1: u64, w2: u64, w3: u64) -> (k: Pubkey)
        ensures
            k == (Pubkey { w0, w1, w2, w3 }),
    {
        Pubkey { w0, w1, w2, w3 }
    }
}

} // verus!
