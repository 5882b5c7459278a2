//! A payment request: a text and the amount asked for.

use vstd::prelude::*;

verus! {

/// What a proposal holds.
pub struct ProposalView {
    pub text: Seq<char>,
    pub amount: u128,
}

/// A payment request that a principal has made: funding it pays `amount`
/// to that principal.
#[derive(Clone, Debug, PartialEq, Eq)]
pub struct Proposal {
    pub text: String,
    pub amount: u128,
}

impl View for Proposal {
    type V = ProposalView;

    open spec fn view(&self) -> ProposalView {
        ProposalView { text: self.text@, amount: self.amount }
    }
}

impl Proposal {
    /// A proposal with the given text and amount.
    pub fn new(text: String, amount: u128) -> (proposal: Self)
        ensures
            proposal@ == (ProposalView { text: text@, amount }),
    {
        Proposal { text, amount }
    }

    /// A copy of the proposal.
    pub fn duplicate(&self) -> (copy: Self)
        ensures
            copy@ == self@,
    {
        Proposal { text: self.text.clone(), amount: self.amount }
    }
}

} // verus!
