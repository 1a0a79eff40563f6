//! Allocations and summaries: what is kept for each month and category.

use vstd::prelude::*;

use crate::transaction::Transaction;
use crate::types::amount::Amount;

verus! {

/// The money assigned to one category for one month.
#[derive(Clone, Copy, Debug, PartialEq, Eq, Structural)]
pub struct Allocation {
    pub amount: Amount,
}

impl Allocation {
    /// An allocation of nothing.
    pub open spec fn nil() -> Allocation {
        Allocation { amount: Amount::nil() }
    }
}

impl Default for Allocation {
    /// An allocation of nothing.
    fn default() -> (a: Allocation)
        ensures
            a == Allocation::nil(),
    {
        Allocation { amount: Amount::zero() }
    }
}

/// The sum of a list of amounts, added up from the left, starting at
/// zero.
pub open spec fn total(amounts: Seq<Amount>) -> Amount
    decreases amounts.len(),
{
    if amounts.len() == 0 {
        Amount::nil()
    } else {
        total(amounts.drop_last()).plus(amounts.last())
    }
}

/// The sum of the squares of a list of amounts, added up from the left,
/// starting at zero.
pub open spec fn total_of_squares(amounts: Seq<Amount>) -> Amount
    decreases amounts.len(),
{
    if amounts.len() == 0 {
        Amount::nil()
    } else {
        total_of_squares(amounts.drop_last()).plus(amounts.last().squared())
    }
}

/// Running statistics of the transactions of one month and category: how
/// many there were, what they add up to, and what their squares add up
/// to.
#[derive(Clone, Copy, Debug, PartialEq, Eq, Structural)]
pub struct Summary {
    pub n: u32,
    pub sum: Amount,
    pub sum_squared: Amount,
}

impl Summary {
    /// The summary of no transactions.
    pub open spec fn empty() -> Summary {
        Summary { n: 0, sum: Amount::nil(), sum_squared: Amount::nil() }
    }

    /// This summary with one more amount folded in.
    pub open spec fn with(self, amount: Amount) -> Summary {
        Summary {
            n: (self.n + 1) as u32,
            sum: self.sum.plus(amount),
            sum_squared: self.sum_squared.plus(amount.squared()),
        }
    }

    /// The summary of a list of amounts, folded in from the left.
    pub open spec fn of(amounts: Seq<Amount>) -> Summary
        decreases amounts.len(),
    {
        if amounts.len() == 0 {
            Summary::empty()
        } else {
            Summary::of(amounts.drop_last()).with(amounts.last())
        }
    }

    /// Folds the amount of a transaction into the summary.
    pub fn add(&mut self, t: &Transaction)
        requires
            old(self).n < u32::MAX,
        ensures
            *final(self) == old(self).with(t@.amount),
    {
        let amount = t.amount();
        self.n += 1;
        self.sum = self.sum + amount;
        self.sum_squared = self.sum_squared + amount * amount;
    }
}

impl Default for Summary {
    /// The summary of no transactions.
    fn default() -> (s: Summary)
        ensures
            s == Summary::empty(),
    {
        Summary { n: 0, sum: Amount::zero(), sum_squared: Amount::zero() }
    }
}

/// The summary of a list of amounts counts them, holds their sum and
/// holds the sum of their squares.
pub proof fn lemma_summary_of(amounts: Seq<Amount>)
    requires
        amounts.len() <= u32::MAX,
    ensures
        Summary::of(amounts).n == amounts.len(),
        Summary::of(amounts).sum == total(amounts),
        Summary::of(amounts).sum_squared == total_of_squares(amounts),
    decreases amounts.len(),
{
    if amounts.len() > 0 {
        lemma_summary_of(amounts.drop_last());
    }
}

/// Folding one more amount into the summary of a list gives the summary
/// of the longer list.
pub proof fn lemma_summary_push(amounts: Seq<Amount>, amount: Amount)
    ensures
        Summary::of(amounts.push(amount)) == Summary::of(amounts).with(amount),
{
    assert(amounts.push(amount).drop_last() =~= amounts);
}

} // verus!
