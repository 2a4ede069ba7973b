use vstd::prelude::*;

verus! {

/// The key of an action or a construction: the account that registered it and
/// the name it was registered under.
#[derive(Clone, Debug)]
pub struct GenericId {
    pub owner: String,
    pub name: String,
}

impl View for GenericId {
    type V = (Seq<char>, Seq<char>);

    open spec fn view(&self) -> (Seq<char>, Seq<char>) {
        (self.owner@, self.name@)
    }
}

impl GenericId {
    pub fn new(name: String, owner: String) -> (r: GenericId)
        ensures
            r@ == (owner@, name@),
    {
        GenericId { owner, name }
    }

    pub fn same_as(&self, other: &GenericId) -> (r: bool)
        ensures
            r == (self@ == other@),
    {
        self.owner == other.owner && self.name == other.name
    }
}

} // verus!
