use vstd::prelude::*;

verus! {

/// Why an operation of the engine or of the ledger was refused.
#[derive(Clone, Copy, Debug, PartialEq, Eq, Structural)]
pub enum EngineError {
    /// A routing entry has a different number of weights than of next actions.
    NumbNodesDneNumbSplits,
    /// A routing entry names no next action.
    NoChildrenSpecified,
    /// The weights of a split add up to zero.
    ZeroTotalWeight,
    /// An action or a construction is already registered under that key.
    AlreadyRegistered,
    /// A run with that id already exists.
    ConstructionCallIdAlreadyUsed,
    /// The construction, action, run or step referred to does not exist.
    NotFound,
    /// The run has no pending step.
    StackEmpty,
    /// The routing table does not fit the number of results that came back.
    RoutingMismatch,
    /// A result came back in another asset than the action declares.
    AssetMismatch,
    /// A reply or an amount could not be decoded.
    ParseError,
    /// The caller's balance is smaller than the amount to transfer.
    InsufficientFunds,
    /// A balance would exceed the largest `u128`.
    BalanceOverflow,
    /// The receiver reports having used more than it was sent.
    MoreUsedThanAllowed,
    /// An account id is not a valid account id.
    InvalidAccountId,
    /// A batch has a different number of names than of items.
    NumbOfNodesNotEqualToNumbNames,
}

} // verus!
