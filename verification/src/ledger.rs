//! The ledger: every transaction, kept in order of effective date.

use vstd::prelude::*;
use vstd::std_specs::iter::IteratorSpec;

use crate::text::texts;
use crate::transaction::{Transaction, TransactionView};

verus! {

/// Whether no transaction comes after one with a later effective date.
pub open spec fn sorted_by_date(s: Seq<TransactionView>) -> bool {
    forall|i: int, j: int| 0 <= i < j < s.len() ==> s[i].date().at_or_before(s[j].date())
}

/// Where a transaction goes into a sorted list: behind the last entry
/// that is not dated later than it.
pub open spec fn insertion_point(s: Seq<TransactionView>, t: TransactionView) -> int
    decreases s.len(),
{
    if s.len() == 0 {
        0
    } else if s.last().date().at_or_before(t.date()) {
        s.len() as int
    } else {
        insertion_point(s.drop_last(), t)
    }
}

/// A sorted list with one more transaction put in at its place.
pub open spec fn inserted(s: Seq<TransactionView>, t: TransactionView) -> Seq<TransactionView> {
    s.insert(insertion_point(s, t), t)
}

/// The list that results from putting transactions into an empty list one
/// after the other. It is the input sorted by effective date, with
/// transactions of the same date in the order in which they came.
pub open spec fn sorted_from(input: Seq<TransactionView>) -> Seq<TransactionView>
    decreases input.len(),
{
    if input.len() == 0 {
        Seq::empty()
    } else {
        inserted(sorted_from(input.drop_last()), input.last())
    }
}

/// The category names that occur in a list of transactions, one for each
/// transaction that has one, in the order of the list.
pub open spec fn category_names(s: Seq<TransactionView>) -> Seq<Seq<char>>
    decreases s.len(),
{
    if s.len() == 0 {
        Seq::empty()
    } else {
        match s.last().category {
            Some(name) => category_names(s.drop_last()).push(name),
            None => category_names(s.drop_last()),
        }
    }
}

/// The index of the first transaction filed under a category name, or the
/// length of the list if there is none.
pub open spec fn first_in_category(s: Seq<TransactionView>, name: Seq<char>) -> int
    decreases s.len(),
{
    if s.len() == 0 {
        0
    } else if s.first().category == Some(name) {
        0
    } else {
        1 + first_in_category(s.drop_first(), name)
    }
}

/// A list in which the first transaction filed under `old_name`, if there
/// is one, is filed under `new_name` instead.
pub open spec fn recategorised(
    s: Seq<TransactionView>,
    old_name: Seq<char>,
    new_name: Seq<char>,
) -> Seq<TransactionView> {
    let i = first_in_category(s, old_name);
    if i < s.len() {
        s.update(i, TransactionView { category: Some(new_name), ..s[i] })
    } else {
        s
    }
}

/// What a list of transactions says.
pub open spec fn views(v: Seq<Transaction>) -> Seq<TransactionView> {
    Seq::new(v.len(), |i: int| v[i]@)
}

/// The first transaction of a category is what its name says: it lies
/// within the list or at its end, it is filed under the name, and no
/// transaction before it is.
pub proof fn lemma_first_in_category(s: Seq<TransactionView>, name: Seq<char>)
    ensures
        0 <= first_in_category(s, name) <= s.len(),
        first_in_category(s, name) < s.len() ==> s[first_in_category(s, name)].category == Some(
            name,
        ),
        forall|j: int|
            0 <= j < first_in_category(s, name) ==> (#[trigger] s[j]).category != Some(name),
    decreases s.len(),
{
    if s.len() > 0 && s.first().category != Some(name) {
        let rest = s.drop_first();
        lemma_first_in_category(rest, name);
        assert forall|j: int| 0 <= j < first_in_category(s, name) implies (#[trigger] s[j]).category
            != Some(name) by {
            if j > 0 {
                assert(rest[j - 1] == s[j]);
            }
        }
    }
}

/// Filing a transaction under another name leaves the length of the list
/// and every effective date as they are.
pub proof fn lemma_recategorised(s: Seq<TransactionView>, old_name: Seq<char>, new_name: Seq<char>)
    ensures
        recategorised(s, old_name, new_name).len() == s.len(),
        forall|j: int|
            0 <= j < s.len() ==> (#[trigger] recategorised(s, old_name, new_name)[j]).date()
                == s[j].date(),
{
    lemma_first_in_category(s, old_name);
}

/// The insertion point lies within the list, everything from it on is
/// dated later than the transaction, and the entry before it is not.
pub proof fn lemma_insertion_point(s: Seq<TransactionView>, t: TransactionView)
    ensures
        0 <= insertion_point(s, t) <= s.len(),
        forall|i: int|
            insertion_point(s, t) <= i < s.len() ==> t.date().precedes(#[trigger] s[i].date()),
        insertion_point(s, t) > 0 ==> s[insertion_point(s, t) - 1].date().at_or_before(t.date()),
    decreases s.len(),
{
    if s.len() > 0 && !s.last().date().at_or_before(t.date()) {
        let rest = s.drop_last();
        lemma_insertion_point(rest, t);
        assert forall|i: int| insertion_point(s, t) <= i < s.len() implies t.date().precedes(
            #[trigger] s[i].date(),
        ) by {
            if i < rest.len() {
                assert(t.date().precedes(rest[i].date()));
            }
        }
        if insertion_point(s, t) > 0 {
            assert(rest[insertion_point(s, t) - 1] == s[insertion_point(s, t) - 1]);
        }
    }
}

/// A transaction that is dated no earlier than any in a sorted list goes
/// to the end of the list.
pub proof fn lemma_inserted_at_end(s: Seq<TransactionView>, t: TransactionView)
    requires
        forall|i: int| 0 <= i < s.len() ==> (#[trigger] s[i]).date().at_or_before(t.date()),
    ensures
        inserted(s, t) == s.push(t),
{
    if s.len() > 0 {
        assert(s.last() == s[s.len() - 1]);
    }
    assert(inserted(s, t) =~= s.push(t));
}

/// Putting a transaction into a sorted list at its insertion point leaves
/// the list sorted.
pub proof fn lemma_inserted_sorted(s: Seq<TransactionView>, t: TransactionView)
    requires
        sorted_by_date(s),
    ensures
        sorted_by_date(inserted(s, t)),
        inserted(s, t).len() == s.len() + 1,
        inserted(s, t).to_multiset() == s.to_multiset().insert(t),
{
    lemma_insertion_point(s, t);
    let p = insertion_point(s, t);
    let r = inserted(s, t);
    assert forall|i: int, j: int| 0 <= i < j < r.len() implies r[i].date().at_or_before(
        r[j].date(),
    ) by {
        if j < p {
            assert(r[i] == s[i] && r[j] == s[j]);
        } else if j == p {
            assert(r[i] == s[i]);
            assert(s[i].date().at_or_before(s[p - 1].date()));
        } else if i < p {
            assert(r[i] == s[i] && r[j] == s[j - 1]);
        } else if i == p {
            assert(r[j] == s[j - 1]);
        } else {
            assert(r[i] == s[i - 1] && r[j] == s[j - 1]);
        }
    }
    vstd::seq_lib::to_multiset_insert(s, p, t);
}

/// After any run of additions to an empty ledger, the ledger is sorted by
/// effective date and holds exactly the transactions that were added.
pub proof fn lemma_sorted_from(input: Seq<TransactionView>)
    ensures
        sorted_by_date(sorted_from(input)),
        sorted_from(input).len() == input.len(),
        sorted_from(input).to_multiset() == input.to_multiset(),
    decreases input.len(),
{
    broadcast use vstd::seq_lib::group_to_multiset_ensures;

    if input.len() > 0 {
        lemma_sorted_from(input.drop_last());
        lemma_inserted_sorted(sorted_from(input.drop_last()), input.last());
        assert(input =~= input.drop_last().push(input.last()));
    } else {
        assert(input =~= Seq::empty());
    }
}

/// The journal of a budget: transactions in order of effective date.
#[derive(Debug, Clone)]
pub struct Ledger {
    transactions: Vec<Transaction>,
}

impl View for Ledger {
    type V = Seq<TransactionView>;

    closed spec fn view(&self) -> Seq<TransactionView> {
        views(self.transactions@)
    }
}

impl Default for Ledger {
    /// An empty ledger.
    fn default() -> (ledger: Ledger)
        ensures
            ledger@ == Seq::<TransactionView>::empty(),
            ledger.wf(),
    {
        Ledger::new()
    }
}

impl IntoIterator for Ledger {
    type Item = Transaction;

    type IntoIter = std::vec::IntoIter<Transaction>;

    /// Gives up the ledger for its transactions, in order of effective
    /// date.
    fn into_iter(self) -> (iter: std::vec::IntoIter<Transaction>)
        ensures
            views(iter.remaining()) == self@,
    {
        self.transactions.into_iter()
    }
}

impl<'a> IntoIterator for &'a Ledger {
    type Item = &'a Transaction;

    type IntoIter = std::slice::Iter<'a, Transaction>;

    /// Walks the transactions in order of effective date.
    fn into_iter(self) -> (iter: std::slice::Iter<'a, Transaction>)
        ensures
            views(iter.remaining().unref()) == self@,
    {
        let iter = self.transactions.iter();
        assert(iter.remaining().unref() =~= self.transactions@);
        iter
    }
}

impl Ledger {
    /// The ledger is sorted by effective date and each of its
    /// transactions is well formed.
    pub open spec fn wf(&self) -> bool {
        &&& sorted_by_date(self@)
        &&& forall|i: int| 0 <= i < self@.len() ==> (#[trigger] self@[i]).wf()
    }

    /// An empty ledger.
    pub fn new() -> (ledger: Ledger)
        ensures
            ledger@ == Seq::<TransactionView>::empty(),
            ledger.wf(),
    {
        let ledger = Ledger { transactions: Vec::new() };
        assert(ledger@ =~= Seq::empty());
        ledger
    }

    /// A ledger of the given transactions, sorted by effective date.
    /// Transactions of the same date stay in the order in which they were
    /// given.
    pub fn from_transactions(transactions: Vec<Transaction>) -> (ledger: Ledger)
        requires
            forall|i: int| 0 <= i < transactions.len() ==> (#[trigger] transactions[i]).wf(),
        ensures
            ledger@ == sorted_from(views(transactions@)),
            ledger@.to_multiset() == views(transactions@).to_multiset(),
            ledger.wf(),
    {
        let ghost input = views(transactions@);
        proof {
            lemma_sorted_from(input);
        }
        let mut pending = transactions;
        let mut reversed: Vec<Transaction> = Vec::new();
        while pending.len() > 0
            invariant
                pending.len() + reversed.len() == input.len(),
                forall|k: int| 0 <= k < pending.len() ==> (#[trigger] pending[k])@ == input[k],
                forall|k: int|
                    0 <= k < reversed.len() ==> (#[trigger] reversed[k])@ == input[input.len() - 1
                        - k],
            decreases pending.len(),
        {
            let t = pending.pop().unwrap();
            reversed.push(t);
        }
        let mut ledger = Ledger::new();
        let ghost mut done: int = 0;
        assert(input.take(0) =~= Seq::empty());
        while reversed.len() > 0
            invariant
                0 <= done <= input.len(),
                reversed.len() + done == input.len(),
                forall|k: int|
                    0 <= k < reversed.len() ==> (#[trigger] reversed[k])@ == input[input.len() - 1
                        - k],
                forall|k: int| 0 <= k < input.len() ==> (#[trigger] input[k]).wf(),
                ledger@ == sorted_from(input.take(done)),
                ledger.wf(),
            decreases reversed.len(),
        {
            let t = reversed.pop().unwrap();
            proof {
                assert(t@ == input[done]);
                assert(input.take(done + 1).drop_last() =~= input.take(done));
                assert(input.take(done + 1).last() == input[done]);
            }
            ledger.add(t);
            proof {
                done = done + 1;
            }
        }
        assert(input.take(done) =~= input);
        ledger
    }

    /// The number of transactions.
    pub fn len(&self) -> (n: usize)
        ensures
            n == self@.len(),
    {
        self.transactions.len()
    }

    /// The transaction at a position, counted in order of effective date.
    pub fn get(&self, i: usize) -> (t: &Transaction)
        requires
            i < self@.len(),
        ensures
            t@ == self@[i as int],
    {
        &self.transactions[i]
    }

    /// The transactions, in order of effective date.
    pub fn transactions(&self) -> (all: &Vec<Transaction>)
        ensures
            views(all@) == self@,
    {
        &self.transactions
    }

    /// Gives up the ledger for its transactions, in order of effective
    /// date.
    pub fn into_transactions(self) -> (all: Vec<Transaction>)
        ensures
            views(all@) == self@,
    {
        self.transactions
    }

    /// The category name of each transaction that has one, in the order
    /// of the ledger.
    pub fn categories(&self) -> (names: Vec<String>)
        ensures
            texts(names@) == category_names(self@),
    {
        let mut names: Vec<String> = Vec::new();
        let mut i: usize = 0;
        assert(self@.take(0) =~= Seq::empty());
        assert(texts(names@) =~= Seq::empty());
        while i < self.transactions.len()
            invariant
                i <= self.transactions.len(),
                texts(names@) == category_names(self@.take(i as int)),
            decreases self.transactions.len() - i,
        {
            proof {
                assert(self@.take(i + 1).drop_last() =~= self@.take(i as int));
                assert(self@.take(i + 1).last() == self@[i as int]);
            }
            match self.transactions[i].category() {
                Some(name) => {
                    let ghost before = texts(names@);
                    names.push(name.clone());
                    assert(texts(names@) =~= before.push(name@));
                },
                None => {},
            }
            i += 1;
        }
        assert(self@.take(i as int) =~= self@);
        names
    }

    /// Files the first transaction that counts against category `old_name`
    /// under `new_name` instead. Later transactions of that category, and
    /// a ledger without one, stay as they are.
    pub fn recategorise_first(&mut self, old_name: &str, new_name: &str)
        requires
            old(self).wf(),
        ensures
            final(self)@ == recategorised(old(self)@, old_name@, new_name@),
            final(self).wf(),
    {
        let ghost s = self@;
        let mut i: usize = 0;
        assert(s.skip(0) =~= s);
        while i < self.transactions.len()
            invariant
                i <= self.transactions.len(),
                s == self@,
                s == old(self)@,
                sorted_by_date(s),
                forall|k: int| 0 <= k < s.len() ==> (#[trigger] s[k]).wf(),
                first_in_category(s, old_name@) == i + first_in_category(
                    s.skip(i as int),
                    old_name@,
                ),
            decreases self.transactions.len() - i,
        {
            proof {
                assert(s.skip(i as int).first() == s[i as int]);
                assert(s.skip(i as int).drop_first() =~= s.skip(i + 1));
            }
            let found = match self.transactions[i].category() {
                Some(name) => *name.as_str() == *old_name,
                None => false,
            };
            if found {
                self.transactions[i].set_category(Some(new_name));
                proof {
                    assert(self@ =~= recategorised(s, old_name@, new_name@));
                    assert forall|a: int, b: int| 0 <= a < b < self@.len() implies self@[a].date().at_or_before(
                        self@[b].date(),
                    ) by {
                        assert(self@[a].date() == s[a].date());
                        assert(self@[b].date() == s[b].date());
                    }
                    assert forall|k: int| 0 <= k < self@.len() implies (#[trigger] self@[k]).wf() by {
                        assert(s[k].wf());
                    }
                }
                return ;
            }
            i += 1;
        }
        proof {
            assert(s.skip(i as int) =~= Seq::empty());
        }
    }

    /// Adds a transaction, keeping the ledger sorted by effective date:
    /// the transaction goes behind every transaction that is not dated
    /// later than it.
    pub fn add(&mut self, t: Transaction)
        requires
            old(self).wf(),
            t.wf(),
        ensures
            final(self)@ == inserted(old(self)@, t@),
            final(self)@.len() == old(self)@.len() + 1,
            final(self)@.to_multiset() == old(self)@.to_multiset().insert(t@),
            final(self).wf(),
    {
        let ghost s = self@;
        let date = t.date();
        let mut pos: usize = self.transactions.len();
        assert(s.take(pos as int) =~= s);
        while pos > 0 && date < self.transactions[pos - 1].date()
            invariant
                pos <= self.transactions.len(),
                s == self@,
                date == t@.date(),
                insertion_point(s, t@) == insertion_point(s.take(pos as int), t@),
            decreases pos,
        {
            proof {
                assert(s.take(pos as int).last() == s[pos - 1]);
                assert(s.take(pos as int).drop_last() =~= s.take(pos - 1));
            }
            pos -= 1;
        }
        proof {
            if pos > 0 {
                assert(s.take(pos as int).last() == s[pos - 1]);
            }
            lemma_inserted_sorted(s, t@);
        }
        self.transactions.insert(pos, t);
        proof {
            assert(self@ =~= inserted(s, t@));
            assert forall|i: int| 0 <= i < self@.len() implies (#[trigger] self@[i]).wf() by {
                if i < pos {
                    assert(self@[i] == s[i]);
                } else if i > pos {
                    assert(self@[i] == s[i - 1]);
                }
            }
        }
    }
}

} // verus!
