use vstd::prelude::*;
use crate::registry::Contract;
use crate::session::GameError;

verus! {

/// What the storage allocated between two measurements costs.
pub open spec fn storage_cost_spec(initial_storage: u64, current_storage: u64, byte_cost: u128) -> int {
    byte_cost * (current_storage - initial_storage)
}

/// What goes back to the payer of `attached_deposit`: the excess over the
/// cost, when it is more than one unit.
pub open spec fn refund_spec(attached_deposit: u128, cost: int) -> u128 {
    if attached_deposit - cost > 1 {
        (attached_deposit - cost) as u128
    } else {
        0
    }
}

/// The cost of the bytes allocated since `initial_storage`, at `byte_cost`
/// per byte; `None` when it exceeds `u128::MAX`.
pub fn storage_cost(initial_storage: u64, current_storage: u64, byte_cost: u128) -> (r: Option<u128>)
    requires
        initial_storage <= current_storage,
    ensures
        storage_cost_spec(initial_storage, current_storage, byte_cost) <= u128::MAX ==> r == Some(
            storage_cost_spec(initial_storage, current_storage, byte_cost) as u128,
        ),
        storage_cost_spec(initial_storage, current_storage, byte_cost) > u128::MAX ==> r is None,
{
    let used: u64 = current_storage - initial_storage;
    byte_cost.checked_mul(used as u128)
}

impl Contract {
    /// Settles the deposit attached to a call that allocated storage: the
    /// deposit must cover the cost of the bytes allocated since
    /// `initial_storage`, and the amount returned is what is to be refunded
    /// (zero when the excess is one unit or less).
    pub fn refund_excess_storage(
        initial_storage: u64,
        current_storage: u64,
        byte_cost: u128,
        attached_deposit: u128,
    ) -> (r: Result<u128, GameError>)
        requires
            initial_storage <= current_storage,
        ensures
            storage_cost_spec(initial_storage, current_storage, byte_cost) > attached_deposit
                ==> r == Err::<u128, GameError>(GameError::InsufficientDeposit),
            storage_cost_spec(initial_storage, current_storage, byte_cost) <= attached_deposit
                ==> r == Ok::<u128, GameError>(
                refund_spec(
                    attached_deposit,
                    storage_cost_spec(initial_storage, current_storage, byte_cost),
                ),
            ),
    {
        let required = match storage_cost(initial_storage, current_storage, byte_cost) {
            Some(c) => c,
            None => {
                return Err(GameError::InsufficientDeposit);
            },
        };
        if required > attached_deposit {
            return Err(GameError::InsufficientDeposit);
        }
        let refund = attached_deposit - required;
        if refund > 1 {
            Ok(refund)
        } else {
            Ok(0)
        }
    }
}

} // verus!
