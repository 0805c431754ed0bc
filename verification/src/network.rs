use vstd::prelude::*;

verus! {

/// The ledger that an address or an asset belongs to.
#[derive(Clone, Copy, Debug, PartialEq, Eq, PartialOrd, Ord, Hash, Structural)]
pub enum Network {
    /// The main network.
    Bitcoin,
    /// The public test network.
    Testnet,
    /// A private test network.
    Regtest,
}

} // verus!
