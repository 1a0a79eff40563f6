//! Transactions: single movements of money.

use std::ops::{Add, Sub};
use vstd::prelude::*;
use vstd::std_specs::ops::{AddSpecImpl, SubSpecImpl};

use crate::ident::random_uuid;
use crate::text::{
    holds_text, lemma_increasing_no_duplicates, normalized, opt_owned, opt_text, opt_text_eq,
    same_texts, sorted_distinct, texts,
};
use crate::types::amount::Amount;
use crate::types::timestamp::Timestamp;

verus! {

/// Where a transaction came from.
#[derive(Clone, Copy, Debug, PartialEq, Eq, Structural, Hash)]
pub enum Source {
    Manual,
    Reconciliation,
}

/// What a transaction says, with every string read as its text.
pub struct TransactionView {
    /// The value moved. A positive amount flows into the account.
    pub amount: Amount,
    pub description: Option<Seq<char>>,
    pub payee: Option<Seq<char>>,
    /// When the record was made.
    pub date_created: Timestamp,
    /// When the money moved, where that is known.
    pub date_transaction: Option<Timestamp>,
    /// The name of the category the transaction counts against.
    pub category: Option<Seq<char>>,
    pub account: Option<Seq<char>>,
    /// Labels, none of them twice.
    pub tags: Seq<Seq<char>>,
    /// A short identifier that need not be unique.
    pub id: Option<u16>,
    /// The identifier given at construction. It never changes.
    pub uuid: u128,
    /// Whether the budget has been reconciled past this transaction.
    pub reconciled: bool,
    pub source: Source,
}

impl TransactionView {
    /// The date a transaction is sorted and bucketed by: the date the
    /// money moved if that is recorded, and else the date of the record.
    pub open spec fn date(self) -> Timestamp {
        match self.date_transaction {
            Some(d) => d,
            None => self.date_created,
        }
    }

    /// No tag occurs twice and every date is one the calendar knows.
    pub open spec fn wf(self) -> bool {
        &&& self.tags.no_duplicates()
        &&& self.date_created.wf()
        &&& self.date_transaction matches Some(d) ==> d.wf()
    }

    /// What a new transaction says: an amount, the date and identifier it
    /// was stamped with, and nothing else.
    pub open spec fn fresh(amount: Amount, created: Timestamp, uuid: u128) -> TransactionView {
        TransactionView {
            amount,
            description: None,
            payee: None,
            date_created: created,
            date_transaction: None,
            category: None,
            account: None,
            tags: Seq::empty(),
            id: None,
            uuid,
            reconciled: false,
            source: Source::Manual,
        }
    }

    /// Whether two transactions agree in amount, description, category,
    /// effective date and set of tags. The amounts are compared as
    /// numbers. Identifiers, the date of the record, the source and the
    /// reconciled flag play no part.
    pub open spec fn similar(self, other: TransactionView) -> bool {
        &&& self.amount.equals(other.amount)
        &&& self.description == other.description
        &&& self.category == other.category
        &&& self.date() == other.date()
        &&& self.tags.to_set() == other.tags.to_set()
    }

    /// The tags after adding one: unchanged if the tag is already there,
    /// and else with the tag at the end.
    pub open spec fn tagged(self, tag: Seq<char>) -> Seq<Seq<char>> {
        if self.tags.contains(tag) {
            self.tags
        } else {
            self.tags.push(tag)
        }
    }

    /// The tags after removing one: those that differ from it, in their
    /// old order.
    pub open spec fn untagged(self, tag: Seq<char>) -> Seq<Seq<char>> {
        self.tags.filter(|t: Seq<char>| t != tag)
    }
}

/// One movement of money.
#[derive(Debug, Clone)]
pub struct Transaction {
    amount: Amount,
    description: Option<String>,
    payee: Option<String>,
    date_created: Timestamp,
    date_transaction: Option<Timestamp>,
    category: Option<String>,
    account: Option<String>,
    tags: Vec<String>,
    id: Option<u16>,
    uuid: u128,
    reconciled: bool,
    source: Source,
}

impl View for Transaction {
    type V = TransactionView;

    closed spec fn view(&self) -> TransactionView {
        TransactionView {
            amount: self.amount,
            description: opt_text(self.description),
            payee: opt_text(self.payee),
            date_created: self.date_created,
            date_transaction: self.date_transaction,
            category: opt_text(self.category),
            account: opt_text(self.account),
            tags: texts(self.tags@),
            id: self.id,
            uuid: self.uuid,
            reconciled: self.reconciled,
            source: self.source,
        }
    }
}

impl Transaction {
    /// The invariant of every transaction this crate hands out.
    pub open spec fn wf(&self) -> bool {
        self@.wf()
    }

    /// A transaction of the given amount, stamped with the present time
    /// and a random identifier.
    pub fn new(amount: Amount) -> (t: Transaction)
        ensures
            t@ == TransactionView::fresh(amount, t@.date_created, t@.uuid),
            t.wf(),
    {
        Transaction::stamped(amount, Timestamp::now(), random_uuid())
    }

    /// A transaction of the given amount with the given creation date and
    /// identifier.
    pub fn stamped(amount: Amount, created: Timestamp, uuid: u128) -> (t: Transaction)
        requires
            created.wf(),
        ensures
            t@ == TransactionView::fresh(amount, created, uuid),
            t.wf(),
    {
        let t = Transaction {
            amount,
            description: None,
            payee: None,
            date_created: created,
            date_transaction: None,
            category: None,
            account: None,
            tags: Vec::new(),
            id: None,
            uuid,
            reconciled: false,
            source: Source::Manual,
        };
        assert(t@.tags =~= Seq::empty());
        t
    }

    pub fn amount(&self) -> (a: Amount)
        ensures
            a == self@.amount,
    {
        self.amount
    }

    pub fn set_amount(&mut self, amount: Amount)
        ensures
            final(self)@ == (TransactionView { amount, ..old(self)@ }),
    {
        self.amount = amount;
    }

    pub fn with_amount(self, amount: Amount) -> (t: Transaction)
        ensures
            t@ == (TransactionView { amount, ..self@ }),
    {
        let mut t = self;
        t.set_amount(amount);
        t
    }

    /// The date the record was made.
    pub fn created(&self) -> (d: Timestamp)
        ensures
            d == self@.date_created,
    {
        self.date_created
    }

    /// The date the money moved, where that is recorded.
    pub fn date_transaction(&self) -> (d: Option<Timestamp>)
        ensures
            d == self@.date_transaction,
    {
        self.date_transaction
    }

    pub fn set_date_transaction(&mut self, date: Option<Timestamp>)
        requires
            date matches Some(d) ==> d.wf(),
        ensures
            final(self)@ == (TransactionView { date_transaction: date, ..old(self)@ }),
    {
        self.date_transaction = date;
    }

    pub fn with_date_transaction(self, date: Timestamp) -> (t: Transaction)
        requires
            date.wf(),
        ensures
            t@ == (TransactionView { date_transaction: Some(date), ..self@ }),
    {
        let mut t = self;
        t.set_date_transaction(Some(date));
        t
    }

    /// The effective date: the date the money moved, or the date of the
    /// record where the former is not set.
    pub fn date(&self) -> (d: Timestamp)
        ensures
            d == self@.date(),
            self@.date_transaction is None ==> d == self@.date_created,
    {
        match self.date_transaction {
            Some(d) => d,
            None => self.date_created,
        }
    }

    pub fn description(&self) -> (d: &Option<String>)
        ensures
            opt_text(*d) == self@.description,
    {
        &self.description
    }

    pub fn set_description(&mut self, description: Option<&str>)
        ensures
            final(self)@ == (TransactionView {
                description: match description {
                    Some(s) => Some(s@),
                    None => None,
                },
                ..old(self)@
            }),
    {
        self.description = opt_owned(description);
    }

    pub fn with_description(self, description: Option<&str>) -> (t: Transaction)
        ensures
            t@ == (TransactionView {
                description: match description {
                    Some(s) => Some(s@),
                    None => None,
                },
                ..self@
            }),
    {
        let mut t = self;
        t.set_description(description);
        t
    }

    pub fn payee(&self) -> (p: &Option<String>)
        ensures
            opt_text(*p) == self@.payee,
    {
        &self.payee
    }

    pub fn set_payee(&mut self, payee: Option<&str>)
        ensures
            final(self)@ == (TransactionView {
                payee: match payee {
                    Some(s) => Some(s@),
                    None => None,
                },
                ..old(self)@
            }),
    {
        self.payee = opt_owned(payee);
    }

    pub fn with_payee(self, payee: Option<&str>) -> (t: Transaction)
        ensures
            t@ == (TransactionView {
                payee: match payee {
                    Some(s) => Some(s@),
                    None => None,
                },
                ..self@
            }),
    {
        let mut t = self;
        t.set_payee(payee);
        t
    }

    pub fn category(&self) -> (c: &Option<String>)
        ensures
            opt_text(*c) == self@.category,
    {
        &self.category
    }

    pub fn set_category(&mut self, category: Option<&str>)
        ensures
            final(self)@ == (TransactionView {
                category: match category {
                    Some(s) => Some(s@),
                    None => None,
                },
                ..old(self)@
            }),
    {
        self.category = opt_owned(category);
    }

    pub fn with_category(self, category: &str) -> (t: Transaction)
        ensures
            t@ == (TransactionView { category: Some(category@), ..self@ }),
    {
        let mut t = self;
        t.set_category(Some(category));
        t
    }

    pub fn account(&self) -> (a: &Option<String>)
        ensures
            opt_text(*a) == self@.account,
    {
        &self.account
    }

    pub fn with_account(self, account: Option<&str>) -> (t: Transaction)
        ensures
            t@ == (TransactionView {
                account: match account {
                    Some(s) => Some(s@),
                    None => None,
                },
                ..self@
            }),
    {
        let mut t = self;
        t.account = opt_owned(account);
        t
    }

    /// Reads the account. Despite its name this changes nothing.
    pub fn set_account(&self) -> (a: &Option<String>)
        ensures
            opt_text(*a) == self@.account,
    {
        &self.account
    }

    /// Adds a tag, unless the transaction carries it already.
    pub fn tag(&mut self, tag: &str)
        ensures
            final(self)@ == (TransactionView { tags: old(self)@.tagged(tag@), ..old(self)@ }),
            old(self).wf() ==> final(self).wf(),
    {
        if !holds_text(&self.tags, tag) {
            self.tags.push(tag.to_owned());
            assert(texts(self.tags@) =~= old(self)@.tags.push(tag@));
        }
    }

    pub fn with_tag(self, tag: &str) -> (t: Transaction)
        ensures
            t@ == (TransactionView { tags: self@.tagged(tag@), ..self@ }),
            self.wf() ==> t.wf(),
    {
        let mut t = self;
        t.tag(tag);
        t
    }

    /// Removes a tag, if the transaction carries it.
    pub fn untag(&mut self, tag: &str)
        ensures
            final(self)@ == (TransactionView { tags: old(self)@.untagged(tag@), ..old(self)@ }),
            old(self).wf() ==> final(self).wf(),
    {
        let ghost pred = |t: Seq<char>| t != tag@;
        let ghost all = texts(self.tags@);
        let mut kept: Vec<String> = Vec::new();
        let mut i: usize = 0;
        assert(texts(kept@) =~= all.take(0).filter(pred)) by {
            all.take(0).lemma_filter_len(pred);
        }
        while i < self.tags.len()
            invariant
                i <= self.tags.len(),
                all == texts(self.tags@),
                pred == (|t: Seq<char>| t != tag@),
                texts(kept@) == all.take(i as int).filter(pred),
            decreases self.tags.len() - i,
        {
            proof {
                assert(all.take(i + 1) =~= all.take(i as int).push(all[i as int]));
                all.take(i as int).lemma_filter_push(all[i as int], pred);
            }
            if !(*self.tags[i].as_str() == *tag) {
                let ghost before = texts(kept@);
                kept.push(self.tags[i].clone());
                assert(texts(kept@) =~= before.push(all[i as int]));
            }
            i += 1;
        }
        proof {
            assert(all.take(i as int) =~= all);
            if all.no_duplicates() {
                crate::text::lemma_filter_no_duplicates(all, pred);
            }
        }
        self.tags = kept;
    }

    pub fn without_tag(self, tag: &str) -> (t: Transaction)
        ensures
            t@ == (TransactionView { tags: self@.untagged(tag@), ..self@ }),
            self.wf() ==> t.wf(),
    {
        let mut t = self;
        t.untag(tag);
        t
    }

    /// Sets the tags to exactly those supplied, sorted and each of them
    /// once.
    pub fn set_tags(&mut self, tags: Vec<String>)
        ensures
            final(self)@ == (TransactionView { tags: final(self)@.tags, ..old(self)@ }),
            normalized(texts(tags@), final(self)@.tags),
            old(self).wf() ==> final(self).wf(),
    {
        let sorted = sorted_distinct(&tags);
        proof {
            lemma_increasing_no_duplicates(texts(sorted@));
        }
        self.tags = sorted;
    }

    /// The tags, in the order in which they are held.
    pub fn tags(&self) -> (tags: &Vec<String>)
        ensures
            texts(tags@) == self@.tags,
    {
        &self.tags
    }

    pub fn id(&self) -> (id: Option<u16>)
        ensures
            id == self@.id,
    {
        self.id
    }

    pub fn set_id(&mut self, id: Option<u16>)
        ensures
            final(self)@ == (TransactionView { id, ..old(self)@ }),
    {
        self.id = id;
    }

    pub fn with_id(self, id: Option<u16>) -> (t: Transaction)
        ensures
            t@ == (TransactionView { id, ..self@ }),
    {
        let mut t = self;
        t.set_id(id);
        t
    }

    /// The identifier given at construction.
    pub fn uuid(&self) -> (u: u128)
        ensures
            u == self@.uuid,
    {
        self.uuid
    }

    pub fn reconciled(&self) -> (r: bool)
        ensures
            r == self@.reconciled,
    {
        self.reconciled
    }

    pub fn set_reconciled(&mut self, b: bool)
        ensures
            final(self)@ == (TransactionView { reconciled: b, ..old(self)@ }),
    {
        self.reconciled = b;
    }

    pub fn source(&self) -> (s: &Source)
        ensures
            *s == self@.source,
    {
        &self.source
    }

    pub fn set_source(&mut self, s: Source)
        ensures
            final(self)@ == (TransactionView { source: s, ..old(self)@ }),
    {
        self.source = s;
    }

    pub fn with_source(self, s: Source) -> (t: Transaction)
        ensures
            t@ == (TransactionView { source: s, ..self@ }),
    {
        let mut t = self;
        t.set_source(s);
        t
    }

    /// Whether two transactions agree in amount, description, category,
    /// effective date and set of tags. Identifiers, the date of the
    /// record, the source and the reconciled flag are not looked at.
    pub fn is_similar(&self, other: &Transaction) -> (r: bool)
        requires
            self.wf(),
            other.wf(),
        ensures
            r == self@.similar(other@),
    {
        self.amount.same_value(&other.amount) && opt_text_eq(&self.description, &other.description)
            && opt_text_eq(&self.category, &other.category) && self.date() == other.date()
            && same_texts(&self.tags, &other.tags)
    }

    /// Adds to the amount in place.
    pub fn add_assign(&mut self, other: Amount)
        ensures
            final(self)@ == (TransactionView {
                amount: old(self)@.amount.plus(other),
                ..old(self)@
            }),
    {
        self.amount = self.amount + other;
    }

    /// Subtracts from the amount in place.
    pub fn sub_assign(&mut self, other: Amount)
        ensures
            final(self)@ == (TransactionView {
                amount: old(self)@.amount.minus(other),
                ..old(self)@
            }),
    {
        self.amount = self.amount - other;
    }
}

impl Add<Amount> for Transaction {
    type Output = Transaction;

    /// The same transaction with `other` added to its amount.
    fn add(self, other: Amount) -> (t: Transaction)
        ensures
            t@ == (TransactionView { amount: self@.amount.plus(other), ..self@ }),
    {
        let sum = self.amount + other;
        Transaction { amount: sum, ..self }
    }
}

impl AddSpecImpl<Amount> for Transaction {
    open spec fn obeys_add_spec() -> bool {
        true
    }

    open spec fn add_req(self, other: Amount) -> bool {
        true
    }

    closed spec fn add_spec(self, other: Amount) -> Transaction {
        Transaction { amount: self.amount.plus(other), ..self }
    }
}

impl Sub<Amount> for Transaction {
    type Output = Transaction;

    /// The same transaction with `other` subtracted from its amount.
    fn sub(self, other: Amount) -> (t: Transaction)
        ensures
            t@ == (TransactionView { amount: self@.amount.minus(other), ..self@ }),
    {
        let difference = self.amount - other;
        Transaction { amount: difference, ..self }
    }
}

impl SubSpecImpl<Amount> for Transaction {
    open spec fn obeys_sub_spec() -> bool {
        true
    }

    open spec fn sub_req(self, other: Amount) -> bool {
        true
    }

    closed spec fn sub_spec(self, other: Amount) -> Transaction {
        Transaction { amount: self.amount.minus(other), ..self }
    }
}

impl Default for Transaction {
    /// A transaction of zero, stamped with the present time and a random
    /// identifier.
    fn default() -> (t: Transaction)
        ensures
            t@ == TransactionView::fresh(Amount::nil(), t@.date_created, t@.uuid),
            t.wf(),
    {
        Transaction::new(Amount::zero())
    }
}

/// Similarity looks at the amount, the description, the category, the
/// effective date and the set of tags, and at nothing else: two
/// transactions that agree in these are similar whatever their
/// identifiers, dates of record, sources and reconciled flags. The amount
/// has to be a number, one that equals itself.
pub proof fn lemma_similarity_ignores_identity(a: TransactionView, b: TransactionView)
    requires
        a.amount == b.amount,
        a.amount.equals(a.amount),
        a.description == b.description,
        a.category == b.category,
        a.date() == b.date(),
        a.tags.to_set() == b.tags.to_set(),
    ensures
        a.similar(b),
        a.similar(
            TransactionView {
                uuid: b.uuid,
                id: b.id,
                source: b.source,
                reconciled: b.reconciled,
                payee: b.payee,
                account: b.account,
                ..a
            },
        ),
{
}

/// Without a transaction date, the effective date is the date of the
/// record.
pub proof fn lemma_effective_date_defaults_to_created(t: TransactionView)
    requires
        t.date_transaction is None,
    ensures
        t.date() == t.date_created,
{
}

/// Tagging twice with the same tag is the same as tagging once, and the
/// tag is then held exactly once.
pub proof fn lemma_tag_idempotent(t: TransactionView, tag: Seq<char>)
    requires
        t.wf(),
    ensures
        (TransactionView { tags: t.tagged(tag), ..t }).tagged(tag) == t.tagged(tag),
        t.tagged(tag).no_duplicates(),
        t.tagged(tag).filter(|x: Seq<char>| x == tag).len() == 1,
{
    let once = t.tagged(tag);
    assert(once.contains(tag)) by {
        if !t.tags.contains(tag) {
            assert(once[once.len() - 1] == tag);
        }
    }
    lemma_single_occurrence(once, tag);
}

/// A list without repeats holds each of its elements exactly once.
pub proof fn lemma_single_occurrence(s: Seq<Seq<char>>, x: Seq<char>)
    requires
        s.no_duplicates(),
        s.contains(x),
    ensures
        s.filter(|y: Seq<char>| y == x).len() == 1,
    decreases s.len(),
{
    let pred = |y: Seq<char>| y == x;
    let rest = s.drop_last();
    assert(s =~= rest.push(s.last()));
    rest.lemma_filter_push(s.last(), pred);
    if s.last() == x {
        assert(rest.filter(pred).len() == 0) by {
            if rest.filter(pred).len() > 0 {
                let y = rest.filter(pred)[0];
                assert(rest.filter(pred).contains(y));
                rest.lemma_filter_contains_rev(pred, y);
                rest.lemma_filter_pred(pred, 0);
                let k = choose|k: int| 0 <= k < rest.len() && rest[k] == y;
                assert(s[k] == s[s.len() - 1]);
            }
        }
    } else {
        let k = choose|k: int| 0 <= k < s.len() && s[k] == x;
        assert(rest[k] == x);
        lemma_single_occurrence(rest, x);
    }
}

} // verus!
