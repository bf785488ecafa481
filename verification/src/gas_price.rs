//! A named load scenario: transactions submitted at a non-zero gas unit
//! price. The traffic generation itself runs in an external harness; the core
//! contributes only the scenario's stable name.

use vstd::prelude::*;

verus! {

/// The non-zero-gas-price traffic scenario.
pub struct NonZeroGasPrice;

impl NonZeroGasPrice {
    /// The scenario's stable name, as harnesses select and report it.
    pub fn name(&self) -> (r: &'static str)
        ensures
            r@ == "gas-price-unit-1"@,
    {
        "gas-price-unit-1"
    }
}

} // verus!
