//! The budget: a ledger, the categories its transactions name, the money
//! allocated to each category month by month, and running summaries of
//! what was actually recorded.

use std::collections::{BTreeMap, HashMap};
use vstd::prelude::*;
use vstd::std_specs::iter::IteratorSpec;

use crate::category::{
    first_unused, has_name, lemma_renamed_keeps_ids, lemma_resolves_extends, lists_all,
    names_unique, renamed, resolves, Categories, Category, CategoryId,
    CategoryView, MasterCategory, MasterCategoryView,
};
use crate::ledger::{inserted, recategorised, sorted_by_date, Ledger};
use crate::summary::{
    lemma_summary_of, lemma_summary_push, total, total_of_squares, Allocation, Summary,
};
use crate::transaction::{Transaction, TransactionView};
use crate::types::amount::Amount;
use crate::types::month::CalendarMonth;
use crate::types::timestamp::Timestamp;

verus! {

/// One entry in the record of what was folded into the summaries: the
/// amount of a transaction, with the month and category it was counted
/// under when it was added.
pub struct Posting {
    pub month: CalendarMonth,
    pub category: Option<CategoryId>,
    pub amount: Amount,
}

/// The amounts counted under a month and category, in the order in which
/// they were added.
pub open spec fn amounts_in(
    postings: Seq<Posting>,
    month: CalendarMonth,
    category: Option<CategoryId>,
) -> Seq<Amount>
    decreases postings.len(),
{
    if postings.len() == 0 {
        Seq::empty()
    } else {
        let rest = amounts_in(postings.drop_last(), month, category);
        if postings.last().month == month && postings.last().category == category {
            rest.push(postings.last().amount)
        } else {
            rest
        }
    }
}

/// The summaries that a record of postings gives rise to: one for each
/// month and category that something was counted under.
pub open spec fn summaries_of(postings: Seq<Posting>) -> Map<(CalendarMonth, CategoryId), Summary> {
    Map::new(
        |k: (CalendarMonth, CategoryId)| amounts_in(postings, k.0, Some(k.1)).len() > 0,
        |k: (CalendarMonth, CategoryId)| Summary::of(amounts_in(postings, k.0, Some(k.1))),
    )
}

/// The summaries of what was counted under no category, one for each
/// month with such a posting.
pub open spec fn uncategorised_summaries_of(postings: Seq<Posting>) -> Map<CalendarMonth, Summary> {
    Map::new(
        |m: CalendarMonth| amounts_in(postings, m, None).len() > 0,
        |m: CalendarMonth| Summary::of(amounts_in(postings, m, None)),
    )
}

/// The summary kept under a key, or the empty summary if none is kept.
pub open spec fn summary_or_empty<K>(summaries: Map<K, Summary>, key: K) -> Summary {
    if summaries.contains_key(key) {
        summaries[key]
    } else {
        Summary::empty()
    }
}

/// The amount allocated to a category for a month: zero unless something
/// else is on record.
pub open spec fn allocated(
    allocations: Map<(CalendarMonth, CategoryId), Allocation>,
    month: CalendarMonth,
    id: CategoryId,
) -> Amount {
    if allocations.contains_key((month, id)) {
        allocations[(month, id)].amount
    } else {
        Amount::nil()
    }
}

/// The allocations after moving an amount from one category to another
/// within a month: the amount is first taken from the one and then given
/// to the other.
pub open spec fn transferred(
    allocations: Map<(CalendarMonth, CategoryId), Allocation>,
    amount: Amount,
    month: CalendarMonth,
    from: CategoryId,
    to: CategoryId,
) -> Map<(CalendarMonth, CategoryId), Allocation> {
    let taken = allocations.insert(
        (month, from),
        Allocation { amount: allocated(allocations, month, from).minus(amount) },
    );
    taken.insert((month, to), Allocation { amount: allocated(taken, month, to).plus(amount) })
}

/// What a transfer between two named categories does to the registry and
/// to the allocations: both names are resolved, the giving one first, and
/// the amount is moved between the categories they resolve to.
pub open spec fn transfer_step(
    registry: Map<CategoryId, CategoryView>,
    allocations: Map<(CalendarMonth, CategoryId), Allocation>,
    amount: Amount,
    from_name: Seq<char>,
    to_name: Seq<char>,
    month: CalendarMonth,
    registry_after: Map<CategoryId, CategoryView>,
    allocations_after: Map<(CalendarMonth, CategoryId), Allocation>,
) -> bool {
    exists|from: CategoryId, to: CategoryId, between: Map<CategoryId, CategoryView>|
        {
            &&& #[trigger] resolves(registry, from_name, from, between)
            &&& #[trigger] resolves(between, to_name, to, registry_after)
            &&& allocations_after == transferred(allocations, amount, month, from, to)
        }
}

/// Whether a posting is what adding a transaction leaves on record under
/// a registry: the amount of the transaction, the month of its effective
/// date, and a category that carries the name the transaction is filed
/// under, or no category if it is filed under none.
pub open spec fn filed_under(
    registry: Map<CategoryId, CategoryView>,
    t: TransactionView,
    p: Posting,
) -> bool {
    &&& p.amount == t.amount
    &&& p.month == CalendarMonth::containing(t.date())
    &&& match t.category {
        Some(name) => p.category matches Some(id) && registry.contains_key(id)
            && registry[id].name == name,
        None => p.category is None,
    }
}

/// The amounts of the transactions of a list that fall into a month and
/// are filed under a category name, or under none, in the order of the
/// list.
pub open spec fn amounts_filed(
    s: Seq<TransactionView>,
    month: CalendarMonth,
    category: Option<Seq<char>>,
) -> Seq<Amount>
    decreases s.len(),
{
    if s.len() == 0 {
        Seq::empty()
    } else {
        let rest = amounts_filed(s.drop_last(), month, category);
        if CalendarMonth::containing(s.last().date()) == month && s.last().category == category {
            rest.push(s.last().amount)
        } else {
            rest
        }
    }
}

/// No bucket holds more amounts than there are postings.
pub proof fn lemma_amounts_in_len(
    postings: Seq<Posting>,
    month: CalendarMonth,
    category: Option<CategoryId>,
)
    ensures
        amounts_in(postings, month, category).len() <= postings.len(),
    decreases postings.len(),
{
    if postings.len() > 0 {
        lemma_amounts_in_len(postings.drop_last(), month, category);
    }
}

/// One more posting adds its amount to the bucket of its own month and
/// category and leaves every other bucket alone.
pub proof fn lemma_amounts_in_push(
    postings: Seq<Posting>,
    p: Posting,
    month: CalendarMonth,
    category: Option<CategoryId>,
)
    ensures
        amounts_in(postings.push(p), month, category) == if p.month == month && p.category
            == category {
            amounts_in(postings, month, category).push(p.amount)
        } else {
            amounts_in(postings, month, category)
        },
{
    assert(postings.push(p).drop_last() =~= postings);
}

/// One more posting changes the summary of its own month and category
/// and no other: the amount is folded into that summary, which starts
/// out empty if there was none.
pub proof fn lemma_summaries_push(postings: Seq<Posting>, p: Posting)
    ensures
        p.category matches Some(id) ==> {
            &&& summaries_of(postings.push(p)) == summaries_of(postings).insert(
                (p.month, id),
                summary_or_empty(summaries_of(postings), (p.month, id)).with(p.amount),
            )
            &&& uncategorised_summaries_of(postings.push(p)) == uncategorised_summaries_of(postings)
        },
        p.category is None ==> {
            &&& uncategorised_summaries_of(postings.push(p)) == uncategorised_summaries_of(
                postings,
            ).insert(
                p.month,
                summary_or_empty(uncategorised_summaries_of(postings), p.month).with(p.amount),
            )
            &&& summaries_of(postings.push(p)) == summaries_of(postings)
        },
{
    let more = postings.push(p);
    assert forall|k: (CalendarMonth, CategoryId)|
        amounts_in(more, k.0, Some(k.1)) == if p.month == k.0 && p.category == Some(k.1) {
            amounts_in(postings, k.0, Some(k.1)).push(p.amount)
        } else {
            amounts_in(postings, k.0, Some(k.1))
        } by {
        lemma_amounts_in_push(postings, p, k.0, Some(k.1));
    }
    assert forall|m: CalendarMonth|
        amounts_in(more, m, None) == if p.month == m && p.category == None::<CategoryId> {
            amounts_in(postings, m, None).push(p.amount)
        } else {
            amounts_in(postings, m, None)
        } by {
        lemma_amounts_in_push(postings, p, m, None);
    }
    match p.category {
        Some(id) => {
            let key = (p.month, id);
            let old_amounts = amounts_in(postings, p.month, Some(id));
            lemma_summary_push(old_amounts, p.amount);
            if old_amounts.len() == 0 {
                assert(old_amounts =~= Seq::empty());
            }
            let target = summaries_of(postings).insert(
                key,
                summary_or_empty(summaries_of(postings), key).with(p.amount),
            );
            assert forall|k: (CalendarMonth, CategoryId)|
                summaries_of(more).contains_key(k) == target.contains_key(k) && (
                summaries_of(more).contains_key(k) ==> summaries_of(more)[k] == target[k]) by {
                if k == key {
                    assert(amounts_in(more, k.0, Some(k.1)) == old_amounts.push(p.amount));
                } else {
                    assert(amounts_in(more, k.0, Some(k.1)) == amounts_in(
                        postings,
                        k.0,
                        Some(k.1),
                    ));
                }
            }
            assert(summaries_of(more) =~= target);
            assert(uncategorised_summaries_of(more) =~= uncategorised_summaries_of(postings));
        },
        None => {
            let old_amounts = amounts_in(postings, p.month, None);
            lemma_summary_push(old_amounts, p.amount);
            if old_amounts.len() == 0 {
                assert(old_amounts =~= Seq::empty());
            }
            let target = uncategorised_summaries_of(postings).insert(
                p.month,
                summary_or_empty(uncategorised_summaries_of(postings), p.month).with(p.amount),
            );
            assert forall|m: CalendarMonth|
                uncategorised_summaries_of(more).contains_key(m) == target.contains_key(m) && (
                uncategorised_summaries_of(more).contains_key(m) ==> uncategorised_summaries_of(
                    more,
                )[m] == target[m]) by {
                if m == p.month {
                    assert(amounts_in(more, m, None) == old_amounts.push(p.amount));
                } else {
                    assert(amounts_in(more, m, None) == amounts_in(postings, m, None));
                }
            }
            assert(uncategorised_summaries_of(more) =~= target);
            assert(summaries_of(more) =~= summaries_of(postings));
        },
    }
}

/// The key under which a month and category are filed: the year, the
/// number of the month and the identifier of the category.
pub open spec fn bucket_key(month: CalendarMonth, id: CategoryId) -> (i32, u8, u128) {
    (month.year, month.month.ordinal() as u8, id)
}

/// The key under which a month is filed: the year and the number of the
/// month.
pub open spec fn month_key(month: CalendarMonth) -> (i32, u8) {
    (month.year, month.month.ordinal() as u8)
}

/// A map filed under bucket keys, read by month and category.
pub open spec fn by_bucket<V>(raw: Map<(i32, u8, u128), V>) -> Map<(CalendarMonth, CategoryId), V> {
    Map::new(
        |k: (CalendarMonth, CategoryId)| raw.contains_key(bucket_key(k.0, k.1)),
        |k: (CalendarMonth, CategoryId)| raw[bucket_key(k.0, k.1)],
    )
}

/// A map filed under month keys, read by month.
pub open spec fn by_month<V>(raw: Map<(i32, u8), V>) -> Map<CalendarMonth, V> {
    Map::new(
        |m: CalendarMonth| raw.contains_key(month_key(m)),
        |m: CalendarMonth| raw[month_key(m)],
    )
}

/// Different months are filed under different keys.
pub proof fn lemma_month_key_injective(a: CalendarMonth, b: CalendarMonth)
    requires
        month_key(a) == month_key(b),
    ensures
        a == b,
{
}

/// Filing a value under the key of a month and category is entering it
/// for that month and category.
pub proof fn lemma_by_bucket_insert<V>(
    raw: Map<(i32, u8, u128), V>,
    month: CalendarMonth,
    id: CategoryId,
    v: V,
)
    ensures
        by_bucket(raw.insert(bucket_key(month, id), v)) == by_bucket(raw).insert((month, id), v),
{
    assert forall|k: (CalendarMonth, CategoryId)|
        bucket_key(k.0, k.1) == bucket_key(month, id) implies k == (month, id) by {
        lemma_month_key_injective(k.0, month);
    }
    assert(by_bucket(raw.insert(bucket_key(month, id), v)) =~= by_bucket(raw).insert(
        (month, id),
        v,
    ));
}

/// Filing a value under the key of a month is entering it for that month.
pub proof fn lemma_by_month_insert<V>(raw: Map<(i32, u8), V>, month: CalendarMonth, v: V)
    ensures
        by_month(raw.insert(month_key(month), v)) == by_month(raw).insert(month, v),
{
    assert forall|m: CalendarMonth| month_key(m) == month_key(month) implies m == month by {
        lemma_month_key_injective(m, month);
    }
    assert(by_month(raw.insert(month_key(month), v)) =~= by_month(raw).insert(month, v));
}

/// The aggregate at the root of the crate.
pub struct Budget {
    /// The transactions that make up the budget.
    transactions: Ledger,
    master_categories: HashMap<CategoryId, MasterCategory>,
    categories: Categories,
    /// The amount budgeted for each category in each month.
    allocations: BTreeMap<(i32, u8, u128), Allocation>,
    /// Running summaries of the transactions of each category in each
    /// month.
    summaries: BTreeMap<(i32, u8, u128), Summary>,
    /// Running summaries of the transactions without a category in each
    /// month.
    uncategorised_summaries: BTreeMap<(i32, u8), Summary>,
    /// What was folded into the summaries, in the order of the additions.
    postings: Ghost<Seq<Posting>>,
}

impl Budget {
    /// The transactions, in order of effective date.
    pub closed spec fn ledger(&self) -> Seq<TransactionView> {
        self.transactions@
    }

    /// The categories, by identifier.
    pub closed spec fn registry(&self) -> Map<CategoryId, CategoryView> {
        self.categories@
    }

    /// The master categories, by identifier.
    pub closed spec fn master_registry(&self) -> Map<CategoryId, MasterCategoryView> {
        self.master_categories@.map_values(|c: MasterCategory| c@)
    }

    /// The allocations on record, by month and category.
    pub closed spec fn allocations(&self) -> Map<(CalendarMonth, CategoryId), Allocation> {
        by_bucket(self.allocations@)
    }

    /// The summaries kept, by month and category.
    pub closed spec fn summaries(&self) -> Map<(CalendarMonth, CategoryId), Summary> {
        by_bucket(self.summaries@)
    }

    /// The summaries kept for transactions without a category, by month.
    pub closed spec fn uncategorised_summaries(&self) -> Map<CalendarMonth, Summary> {
        by_month(self.uncategorised_summaries@)
    }

    /// The amounts that were added, each with the month and category it
    /// was counted under, in the order of the additions.
    pub closed spec fn postings(&self) -> Seq<Posting> {
        self.postings@
    }

    /// What holds of every budget: the ledger is sorted by effective date,
    /// every addition is on record, the summaries are exactly what the
    /// additions fold to, and every category that a posting or an
    /// allocation refers to is registered.
    pub open spec fn wf(&self) -> bool {
        &&& sorted_by_date(self.ledger())
        &&& forall|i: int| 0 <= i < self.ledger().len() ==> (#[trigger] self.ledger()[i]).wf()
        &&& self.postings().len() == self.ledger().len()
        &&& self.ledger().len() <= u32::MAX
        &&& self.summaries() == summaries_of(self.postings())
        &&& self.uncategorised_summaries() == uncategorised_summaries_of(self.postings())
        &&& self.registry().dom().finite()
        &&& forall|i: int|
            0 <= i < self.postings().len() ==> ((#[trigger] self.postings()[i]).category matches Some(
                id,
            ) ==> self.registry().contains_key(id))
        &&& forall|k: (CalendarMonth, CategoryId)| #[trigger]
            self.allocations().contains_key(k) ==> self.registry().contains_key(k.1)
    }

    /// A budget with nothing in it.
    pub fn new() -> (b: Budget)
        ensures
            b.wf(),
            b.ledger() == Seq::<TransactionView>::empty(),
            b.postings() == Seq::<Posting>::empty(),
            b.registry() == Map::<CategoryId, CategoryView>::empty(),
            b.master_registry() == Map::<CategoryId, MasterCategoryView>::empty(),
            b.allocations() == Map::<(CalendarMonth, CategoryId), Allocation>::empty(),
            b.summaries() == Map::<(CalendarMonth, CategoryId), Summary>::empty(),
            b.uncategorised_summaries() == Map::<CalendarMonth, Summary>::empty(),
    {
        let b = Budget {
            transactions: Ledger::new(),
            master_categories: HashMap::new(),
            categories: Categories::new(),
            allocations: BTreeMap::new(),
            summaries: BTreeMap::new(),
            uncategorised_summaries: BTreeMap::new(),
            postings: Ghost(Seq::empty()),
        };
        proof {
            assert(b.master_registry() =~= Map::empty());
            assert(b.allocations() =~= Map::empty());
            assert(b.summaries() =~= Map::empty());
            assert(b.uncategorised_summaries() =~= Map::empty());
            assert(summaries_of(Seq::empty()) =~= Map::empty());
            assert(uncategorised_summaries_of(Seq::empty()) =~= Map::empty());
        }
        b
    }

    /// The posting that adding a transaction under a month and category
    /// leaves on record.
    pub open spec fn posting_of(
        t: TransactionView,
        month: CalendarMonth,
        category: Option<CategoryId>,
    ) -> Posting {
        Posting { month, category, amount: t.amount }
    }

    /// What counting a transaction under a month and category does to the
    /// summaries: the posting goes on record, the amount is folded into
    /// the summary of that month and category, which starts out empty if
    /// there is none yet, and every other summary stays as it is.
    pub open spec fn counted(
        &self,
        t: TransactionView,
        month: CalendarMonth,
        category: Option<CategoryId>,
        after: &Budget,
    ) -> bool {
        &&& after.postings() == self.postings().push(Budget::posting_of(t, month, category))
        &&& match category {
            Some(id) => {
                &&& after.summaries() == self.summaries().insert(
                    (month, id),
                    summary_or_empty(self.summaries(), (month, id)).with(t.amount),
                )
                &&& after.uncategorised_summaries() == self.uncategorised_summaries()
            },
            None => {
                &&& after.uncategorised_summaries() == self.uncategorised_summaries().insert(
                    month,
                    summary_or_empty(self.uncategorised_summaries(), month).with(t.amount),
                )
                &&& after.summaries() == self.summaries()
            },
        }
    }

    /// Adds a transaction that is to be counted under a given month and a
    /// given registered category, or under no category: the amount is
    /// folded into the summary of that month and category, which starts
    /// out empty if there is none yet, and the transaction goes into the
    /// ledger at its place.
    pub fn post(&mut self, t: Transaction, month: CalendarMonth, category: Option<CategoryId>)
        requires
            old(self).wf(),
            t.wf(),
            old(self).ledger().len() < u32::MAX,
            category matches Some(id) ==> old(self).registry().contains_key(id),
        ensures
            final(self).wf(),
            final(self).ledger() == inserted(old(self).ledger(), t@),
            old(self).counted(t@, month, category, final(self)),
            final(self).registry() == old(self).registry(),
            final(self).master_registry() == old(self).master_registry(),
            final(self).allocations() == old(self).allocations(),
    {
        let ghost posting = Budget::posting_of(t@, month, category);
        proof {
            lemma_summaries_push(self.postings(), posting);
            lemma_amounts_in_len(self.postings(), month, category);
            crate::summary::lemma_summary_of(amounts_in(self.postings(), month, category));
        }
        match category {
            Some(id) => {
                let key = (month.year, month.month.number(), id);
                let mut summary = match self.summaries.get(&key) {
                    Some(kept) => *kept,
                    None => Summary::default(),
                };
                assert(summary == summary_or_empty(self.summaries(), (month, id)));
                summary.add(&t);
                self.summaries.insert(key, summary);
                proof {
                    lemma_by_bucket_insert(old(self).summaries@, month, id, summary);
                }
            },
            None => {
                let key = (month.year, month.month.number());
                let mut summary = match self.uncategorised_summaries.get(&key) {
                    Some(kept) => *kept,
                    None => Summary::default(),
                };
                assert(summary == summary_or_empty(self.uncategorised_summaries(), month));
                summary.add(&t);
                self.uncategorised_summaries.insert(key, summary);
                proof {
                    lemma_by_month_insert(old(self).uncategorised_summaries@, month, summary);
                }
            },
        }
        self.transactions.add(t);
        proof {
            self.postings@ = self.postings@.push(posting);
            crate::ledger::lemma_inserted_sorted(old(self).ledger(), t@);
            assert forall|i: int| 0 <= i < self.postings().len() implies ((
            #[trigger] self.postings()[i]).category matches Some(id)
                ==> self.registry().contains_key(id)) by {
                if i < old(self).postings().len() {
                    assert(self.postings()[i] == old(self).postings()[i]);
                }
            }
            assert forall|k: (CalendarMonth, CategoryId)| #[trigger]
                self.allocations().contains_key(k) implies self.registry().contains_key(k.1) by {
                assert(old(self).allocations().contains_key(k));
            }
        }
    }

    /// Adds a transaction. It is counted under the month of its effective
    /// date and under the category that its category name resolves to, or
    /// under no category if it names none, and it goes into the ledger at
    /// its place. Resolving the name may enter a new category.
    pub fn add(&mut self, t: Transaction)
        requires
            old(self).wf(),
            t.wf(),
            old(self).ledger().len() < u32::MAX,
        ensures
            final(self).wf(),
            final(self).ledger() == inserted(old(self).ledger(), t@),
            match t@.category {
                Some(name) => exists|id: CategoryId|
                    {
                        &&& #[trigger] resolves(
                            old(self).registry(),
                            name,
                            id,
                            final(self).registry(),
                        )
                        &&& old(self).counted(
                            t@,
                            CalendarMonth::containing(t@.date()),
                            Some(id),
                            final(self),
                        )
                    },
                None => {
                    &&& final(self).registry() == old(self).registry()
                    &&& old(self).counted(
                        t@,
                        CalendarMonth::containing(t@.date()),
                        None,
                        final(self),
                    )
                },
            },
            final(self).master_registry() == old(self).master_registry(),
            final(self).allocations() == old(self).allocations(),
    {
        let month = CalendarMonth::from(t.date());
        let category: Option<CategoryId> = match t.category() {
            Some(name) => Some(self.resolve(name.as_str())),
            None => None,
        };
        self.post(t, month, category);
        proof {
            if let Some(id) = category {
                assert(resolves(old(self).registry(), t@.category->0, id, self.registry()));
            }
        }
    }

    /// Resolves a category name to its identifier, entering a new
    /// category under an identifier drawn at random if no category
    /// carries the name.
    pub fn resolve(&mut self, name: &str) -> (id: CategoryId)
        requires
            old(self).wf(),
        ensures
            final(self).wf(),
            resolves(old(self).registry(), name@, id, final(self).registry()),
            final(self).registry().contains_key(id),
            final(self).ledger() == old(self).ledger(),
            final(self).postings() == old(self).postings(),
            final(self).summaries() == old(self).summaries(),
            final(self).uncategorised_summaries() == old(self).uncategorised_summaries(),
            final(self).master_registry() == old(self).master_registry(),
            final(self).allocations() == old(self).allocations(),
    {
        let id = self.categories.get_or_create_id(name);
        proof {
            lemma_resolves_extends(old(self).registry(), name@, id, self.registry());
            assert forall|k: (CalendarMonth, CategoryId)| #[trigger]
                self.allocations().contains_key(k) implies self.registry().contains_key(k.1) by {
                assert(old(self).allocations().contains_key(k));
            }
        }
        id
    }

    /// Resolves a category name as [`Budget::resolve`] does, but with a
    /// given candidate for the identifier of a new category in place of
    /// a random one: the first identifier from the candidate on that is
    /// not in use is taken.
    pub fn resolve_from(&mut self, name: &str, candidate: CategoryId) -> (id: CategoryId)
        requires
            old(self).wf(),
        ensures
            final(self).wf(),
            resolves(old(self).registry(), name@, id, final(self).registry()),
            !has_name(old(self).registry(), name@) ==> first_unused(
                old(self).registry().dom(),
                candidate,
                id,
            ),
            final(self).registry().contains_key(id),
            final(self).ledger() == old(self).ledger(),
            final(self).postings() == old(self).postings(),
            final(self).summaries() == old(self).summaries(),
            final(self).uncategorised_summaries() == old(self).uncategorised_summaries(),
            final(self).master_registry() == old(self).master_registry(),
            final(self).allocations() == old(self).allocations(),
    {
        let id = self.categories.get_or_create_id_from(name, candidate);
        proof {
            lemma_resolves_extends(old(self).registry(), name@, id, self.registry());
            assert forall|k: (CalendarMonth, CategoryId)| #[trigger]
                self.allocations().contains_key(k) implies self.registry().contains_key(k.1) by {
                assert(old(self).allocations().contains_key(k));
            }
        }
        id
    }

    /// Moves an allocated amount from one registered category to another
    /// within a month. Neither the ledger nor any summary is touched.
    pub fn transfer_between(
        &mut self,
        amount: Amount,
        from: CategoryId,
        to: CategoryId,
        month: CalendarMonth,
    )
        requires
            old(self).wf(),
            old(self).registry().contains_key(from),
            old(self).registry().contains_key(to),
        ensures
            final(self).wf(),
            final(self).allocations() == transferred(
                old(self).allocations(),
                amount,
                month,
                from,
                to,
            ),
            final(self).registry() == old(self).registry(),
            final(self).ledger() == old(self).ledger(),
            final(self).postings() == old(self).postings(),
            final(self).summaries() == old(self).summaries(),
            final(self).uncategorised_summaries() == old(self).uncategorised_summaries(),
            final(self).master_registry() == old(self).master_registry(),
    {
        let from_key = (month.year, month.month.number(), from);
        let giving = match self.allocations.get(&from_key) {
            Some(kept) => *kept,
            None => Allocation::default(),
        };
        self.allocations.insert(from_key, Allocation { amount: giving.amount - amount });
        let ghost taken = self.allocations@;
        proof {
            lemma_by_bucket_insert(
                old(self).allocations@,
                month,
                from,
                Allocation { amount: giving.amount.minus(amount) },
            );
        }
        let to_key = (month.year, month.month.number(), to);
        let receiving = match self.allocations.get(&to_key) {
            Some(kept) => *kept,
            None => Allocation::default(),
        };
        self.allocations.insert(to_key, Allocation { amount: receiving.amount + amount });
        proof {
            lemma_by_bucket_insert(
                taken,
                month,
                to,
                Allocation { amount: receiving.amount.plus(amount) },
            );
            assert forall|k: (CalendarMonth, CategoryId)| #[trigger]
                self.allocations().contains_key(k) implies self.registry().contains_key(k.1) by {
                if k != (month, from) && k != (month, to) {
                    assert(old(self).allocations().contains_key(k));
                }
            }
        }
    }

    /// Moves an allocated amount from one named category to another
    /// within the month of a date. Both names are resolved, the giving
    /// one first, which may enter new categories. Neither the ledger nor
    /// any summary is touched. The transfer always succeeds.
    pub fn transfer(
        &mut self,
        amount: Amount,
        from_category: &str,
        to_category: &str,
        date: Timestamp,
    ) -> (r: Result<(), ()>)
        requires
            old(self).wf(),
            date.wf(),
        ensures
            r is Ok,
            final(self).wf(),
            transfer_step(
                old(self).registry(),
                old(self).allocations(),
                amount,
                from_category@,
                to_category@,
                CalendarMonth::containing(date),
                final(self).registry(),
                final(self).allocations(),
            ),
            final(self).ledger() == old(self).ledger(),
            final(self).postings() == old(self).postings(),
            final(self).summaries() == old(self).summaries(),
            final(self).uncategorised_summaries() == old(self).uncategorised_summaries(),
            final(self).master_registry() == old(self).master_registry(),
    {
        self.transfer_in_month(amount, from_category, to_category, CalendarMonth::from(date))
    }

    /// Moves an allocated amount from one named category to another
    /// within a month. Both names are resolved, the giving one first,
    /// which may enter new categories. Neither the ledger nor any summary
    /// is touched. The transfer always succeeds.
    pub fn transfer_in_month(
        &mut self,
        amount: Amount,
        from_category: &str,
        to_category: &str,
        month: CalendarMonth,
    ) -> (r: Result<(), ()>)
        requires
            old(self).wf(),
        ensures
            r is Ok,
            final(self).wf(),
            transfer_step(
                old(self).registry(),
                old(self).allocations(),
                amount,
                from_category@,
                to_category@,
                month,
                final(self).registry(),
                final(self).allocations(),
            ),
            final(self).ledger() == old(self).ledger(),
            final(self).postings() == old(self).postings(),
            final(self).summaries() == old(self).summaries(),
            final(self).uncategorised_summaries() == old(self).uncategorised_summaries(),
            final(self).master_registry() == old(self).master_registry(),
    {
        let from = self.resolve(from_category);
        let ghost between = self.registry();
        let to = self.resolve(to_category);
        proof {
            lemma_resolves_extends(between, to_category@, to, self.registry());
        }
        self.transfer_between(amount, from, to, month);
        proof {
            assert(resolves(old(self).registry(), from_category@, from, between));
            assert(resolves(between, to_category@, to, self.registry()));
        }
        Ok(())
    }

    /// Renames a category: one category that carries the old name gets
    /// the new name, and the first transaction in the ledger that is
    /// filed under the old name is filed under the new name. Identifiers,
    /// allocations and summaries stay as they are.
    pub fn rename_category(&mut self, old_name: &str, new_name: &str)
        requires
            old(self).wf(),
        ensures
            final(self).wf(),
            renamed(old(self).registry(), old_name@, new_name@, final(self).registry()),
            final(self).ledger() == recategorised(old(self).ledger(), old_name@, new_name@),
            final(self).postings() == old(self).postings(),
            final(self).summaries() == old(self).summaries(),
            final(self).uncategorised_summaries() == old(self).uncategorised_summaries(),
            final(self).master_registry() == old(self).master_registry(),
            final(self).allocations() == old(self).allocations(),
    {
        self.categories.rename(old_name, new_name);
        self.transactions.recategorise_first(old_name, new_name);
        proof {
            lemma_renamed_keeps_ids(
                old(self).registry(),
                old_name@,
                new_name@,
                self.registry(),
            );
            crate::ledger::lemma_recategorised(old(self).ledger(), old_name@, new_name@);
            assert forall|i: int| 0 <= i < self.postings().len() implies ((
            #[trigger] self.postings()[i]).category matches Some(id)
                ==> self.registry().contains_key(id)) by {
                if let Some(id) = old(self).postings()[i].category {
                    assert(old(self).registry().dom().contains(id));
                }
            }
            assert forall|k: (CalendarMonth, CategoryId)| #[trigger]
                self.allocations().contains_key(k) implies self.registry().contains_key(k.1) by {
                assert(old(self).allocations().contains_key(k));
            }
        }
    }

    /// The records of all master categories, in no particular order.
    pub fn master_categories(&self) -> (all: Vec<MasterCategory>)
        ensures
            lists_all(self.master_registry(), Seq::new(all@.len(), |i: int| all@[i]@)),
    {
        let mut all: Vec<MasterCategory> = Vec::new();
        let ghost mut ids: Seq<CategoryId> = Seq::empty();
        for id in it: self.master_categories.keys()
            invariant
                all@.len() == it.index(),
                ids.len() == it.index(),
                it.seq() == self.master_categories.keys().remaining(),
                forall|k: int| 0 <= k < it.index() ==> ids[k] == *it.seq()[k],
                forall|k: int|
                    0 <= k < it.index() ==> self.master_registry().contains_key(#[trigger] ids[k]),
                forall|k: int|
                    0 <= k < it.index() ==> (#[trigger] all@[k])@ == self.master_registry()[ids[k]],
        {
            let c = self.master_categories.get(id).unwrap();
            all.push(c.duplicate());
            proof {
                assert(self.master_registry().contains_key(*id) && c@ == self.master_registry()[*id]);
                ids = ids.push(*id);
            }
        }
        proof {
            let records = Seq::new(all@.len(), |i: int| all@[i]@);
            let keys = self.master_categories.keys().remaining();
            assert(ids.len() == records.len());
            assert(ids =~= keys.unref());
            assert(ids.no_duplicates());
            assert(self.master_registry().dom() =~= self.master_categories@.dom());
        }
        all
    }

    /// The budget of a ledger: every transaction of the ledger is added
    /// to an empty budget, in the order of the ledger.
    pub fn from(ledger: Ledger) -> (b: Budget)
        requires
            ledger.wf(),
            ledger@.len() <= u32::MAX,
        ensures
            b.wf(),
            b.ledger() == ledger@,
            b.allocations() == Map::<(CalendarMonth, CategoryId), Allocation>::empty(),
            b.master_registry() == Map::<CategoryId, MasterCategoryView>::empty(),
            names_unique(b.registry()),
            forall|i: int|
                0 <= i < ledger@.len() ==> filed_under(
                    b.registry(),
                    ledger@[i],
                    #[trigger] b.postings()[i],
                ),
    {
        let ghost input = ledger@;
        let mut pending = ledger.into_transactions();
        let mut reversed: Vec<Transaction> = Vec::new();
        while pending.len() > 0
            invariant
                pending.len() + reversed.len() == input.len(),
                forall|k: int| 0 <= k < pending.len() ==> (#[trigger] pending[k])@ == input[k],
                forall|k: int|
                    0 <= k < reversed.len() ==> (#[trigger] reversed[k])@ == input[input.len() - 1
                        - k],
            decreases pending.len(),
        {
            let t = pending.pop().unwrap();
            reversed.push(t);
        }
        let mut budget = Budget::new();
        let ghost mut done: int = 0;
        assert(input.take(0) =~= Seq::empty());
        while reversed.len() > 0
            invariant
                0 <= done <= input.len(),
                input.len() <= u32::MAX,
                reversed.len() + done == input.len(),
                forall|k: int|
                    0 <= k < reversed.len() ==> (#[trigger] reversed[k])@ == input[input.len() - 1
                        - k],
                sorted_by_date(input),
                forall|k: int| 0 <= k < input.len() ==> (#[trigger] input[k]).wf(),
                budget.wf(),
                budget.ledger() == input.take(done),
                budget.allocations() == Map::<(CalendarMonth, CategoryId), Allocation>::empty(),
                budget.master_registry() == Map::<CategoryId, MasterCategoryView>::empty(),
                names_unique(budget.registry()),
                forall|i: int|
                    0 <= i < done ==> filed_under(
                        budget.registry(),
                        input[i],
                        #[trigger] budget.postings()[i],
                    ),
            decreases reversed.len(),
        {
            let t = reversed.pop().unwrap();
            let ghost before = budget;
            proof {
                assert(t@ == input[done]);
                assert forall|i: int| 0 <= i < input.take(done).len() implies (
                #[trigger] input.take(done)[i]).date().at_or_before(t@.date()) by {
                    assert(input[i].date().at_or_before(input[done].date()));
                }
                crate::ledger::lemma_inserted_at_end(input.take(done), t@);
                assert(input.take(done).push(input[done]) =~= input.take(done + 1));
            }
            budget.add(t);
            proof {
                match t@.category {
                    Some(name) => {
                        let id = choose|id: CategoryId|
                            {
                                &&& #[trigger] resolves(
                                    before.registry(),
                                    name,
                                    id,
                                    budget.registry(),
                                )
                                &&& before.counted(
                                    t@,
                                    CalendarMonth::containing(t@.date()),
                                    Some(id),
                                    &budget,
                                )
                            };
                        lemma_resolves_extends(before.registry(), name, id, budget.registry());
                    },
                    None => {},
                }
                assert forall|i: int| 0 <= i < done + 1 implies filed_under(
                    budget.registry(),
                    input[i],
                    #[trigger] budget.postings()[i],
                ) by {
                    if i < done {
                        assert(budget.postings()[i] == before.postings()[i]);
                        assert(filed_under(before.registry(), input[i], before.postings()[i]));
                    }
                }
                done = done + 1;
            }
        }
        assert(input.take(done) =~= input);
        budget
    }

    /// The ledger.
    pub fn transactions(&self) -> (ledger: &Ledger)
        ensures
            ledger@ == self.ledger(),
    {
        &self.transactions
    }

    /// The records of all categories, in no particular order.
    pub fn categories(&self) -> (all: Vec<Category>)
        ensures
            lists_all(self.registry(), Seq::new(all@.len(), |i: int| all@[i]@)),
    {
        self.categories.values()
    }

    /// The identifier of a category that carries the name, if there is
    /// one.
    pub fn category_id(&self, name: &str) -> (r: Option<CategoryId>)
        ensures
            r is Some == has_name(self.registry(), name@),
            r matches Some(id) ==> self.registry().contains_key(id) && self.registry()[id].name
                == name@,
    {
        self.categories.get_id(name)
    }

    /// The amount allocated to a category for a month; zero if nothing
    /// was ever moved into or out of it.
    pub fn allocation(&self, month: CalendarMonth, id: CategoryId) -> (a: Amount)
        ensures
            a == allocated(self.allocations(), month, id),
    {
        let key = (month.year, month.month.number(), id);
        match self.allocations.get(&key) {
            Some(allocation) => allocation.amount,
            None => Amount::zero(),
        }
    }

    /// The summary of the transactions counted under a category in a
    /// month, if there were any.
    pub fn summary(&self, month: CalendarMonth, id: CategoryId) -> (s: Option<Summary>)
        ensures
            s is Some == self.summaries().contains_key((month, id)),
            s matches Some(summary) ==> summary == self.summaries()[(month, id)],
    {
        let key = (month.year, month.month.number(), id);
        match self.summaries.get(&key) {
            Some(summary) => Some(*summary),
            None => None,
        }
    }

    /// The summary of the transactions without a category in a month, if
    /// there were any.
    pub fn uncategorised_summary(&self, month: CalendarMonth) -> (s: Option<Summary>)
        ensures
            s is Some == self.uncategorised_summaries().contains_key(month),
            s matches Some(summary) ==> summary == self.uncategorised_summaries()[month],
    {
        let key = (month.year, month.month.number());
        match self.uncategorised_summaries.get(&key) {
            Some(summary) => Some(*summary),
            None => None,
        }
    }
}

impl Default for Budget {
    /// A budget with nothing in it.
    fn default() -> (b: Budget)
        ensures
            b.wf(),
            b.ledger() == Seq::<TransactionView>::empty(),
            b.postings() == Seq::<Posting>::empty(),
            b.registry() == Map::<CategoryId, CategoryView>::empty(),
            b.master_registry() == Map::<CategoryId, MasterCategoryView>::empty(),
            b.allocations() == Map::<(CalendarMonth, CategoryId), Allocation>::empty(),
            b.summaries() == Map::<(CalendarMonth, CategoryId), Summary>::empty(),
            b.uncategorised_summaries() == Map::<CalendarMonth, Summary>::empty(),
    {
        Budget::new()
    }
}

impl Ledger {
    /// The ledger of a budget, which is given up for it.
    pub fn from(budget: Budget) -> (ledger: Ledger)
        requires
            budget.wf(),
        ensures
            ledger@ == budget.ledger(),
            ledger.wf(),
    {
        budget.transactions
    }
}

/// The summary kept for a month and category counts the amounts that
/// were added under that month and category, holds their sum and holds
/// the sum of their squares; and no summary is kept where nothing was
/// added.
pub proof fn lemma_summaries_of(postings: Seq<Posting>, month: CalendarMonth, id: CategoryId)
    requires
        postings.len() <= u32::MAX,
    ensures
        summaries_of(postings).contains_key((month, id)) == (amounts_in(
            postings,
            month,
            Some(id),
        ).len() > 0),
        summaries_of(postings).contains_key((month, id)) ==> {
            let summary = summaries_of(postings)[(month, id)];
            let amounts = amounts_in(postings, month, Some(id));
            &&& summary.n == amounts.len()
            &&& summary.sum == total(amounts)
            &&& summary.sum_squared == total_of_squares(amounts)
        },
{
    lemma_amounts_in_len(postings, month, Some(id));
    lemma_summary_of(amounts_in(postings, month, Some(id)));
}

/// The summary kept for the transactions without a category in a month
/// counts the amounts that were added under that month and no category,
/// holds their sum and holds the sum of their squares; and no summary is
/// kept where nothing was added.
pub proof fn lemma_uncategorised_summaries_of(postings: Seq<Posting>, month: CalendarMonth)
    requires
        postings.len() <= u32::MAX,
    ensures
        uncategorised_summaries_of(postings).contains_key(month) == (amounts_in(
            postings,
            month,
            None,
        ).len() > 0),
        uncategorised_summaries_of(postings).contains_key(month) ==> {
            let summary = uncategorised_summaries_of(postings)[month];
            let amounts = amounts_in(postings, month, None);
            &&& summary.n == amounts.len()
            &&& summary.sum == total(amounts)
            &&& summary.sum_squared == total_of_squares(amounts)
        },
{
    lemma_amounts_in_len(postings, month, None);
    lemma_summary_of(amounts_in(postings, month, None));
}

/// In every budget, the summary of a month and category counts the
/// amounts added under them, holds their sum and holds the sum of their
/// squares.
pub proof fn lemma_budget_summaries(b: &Budget, month: CalendarMonth, id: CategoryId)
    requires
        b.wf(),
    ensures
        b.summaries().contains_key((month, id)) == (amounts_in(b.postings(), month, Some(id)).len()
            > 0),
        b.summaries().contains_key((month, id)) ==> {
            let summary = b.summaries()[(month, id)];
            let amounts = amounts_in(b.postings(), month, Some(id));
            &&& summary.n == amounts.len()
            &&& summary.sum == total(amounts)
            &&& summary.sum_squared == total_of_squares(amounts)
        },
{
    lemma_summaries_of(b.postings(), month, id);
}

/// Where every posting is what adding the transaction at the same place
/// of a list leaves on record, and no two categories carry the same name,
/// the amounts counted under a month and category are the amounts of the
/// transactions of that month that are filed under the name of the
/// category, and the amounts counted under a month and no category are
/// those of the transactions of that month that are filed under none.
pub proof fn lemma_counted_amounts(
    registry: Map<CategoryId, CategoryView>,
    transactions: Seq<TransactionView>,
    postings: Seq<Posting>,
    month: CalendarMonth,
)
    requires
        names_unique(registry),
        transactions.len() == postings.len(),
        forall|i: int|
            0 <= i < transactions.len() ==> filed_under(
                registry,
                transactions[i],
                #[trigger] postings[i],
            ),
    ensures
        forall|id: CategoryId| #[trigger]
            registry.contains_key(id) ==> amounts_in(postings, month, Some(id)) == amounts_filed(
                transactions,
                month,
                Some(registry[id].name),
            ),
        amounts_in(postings, month, None) == amounts_filed(transactions, month, None),
    decreases postings.len(),
{
    if postings.len() > 0 {
        let t = transactions.last();
        let p = postings.last();
        assert(filed_under(registry, transactions[transactions.len() - 1], p));
        assert forall|i: int| 0 <= i < transactions.drop_last().len() implies filed_under(
            registry,
            transactions.drop_last()[i],
            #[trigger] postings.drop_last()[i],
        ) by {
            assert(filed_under(registry, transactions[i], postings[i]));
        }
        lemma_counted_amounts(registry, transactions.drop_last(), postings.drop_last(), month);
        assert forall|id: CategoryId| #[trigger] registry.contains_key(id) implies amounts_in(
            postings,
            month,
            Some(id),
        ) == amounts_filed(transactions, month, Some(registry[id].name)) by {
            if p.category == Some(id) {
                assert(t.category == Some(registry[id].name));
            } else if t.category == Some(registry[id].name) {
                let other = p.category->0;
                assert(registry[other].name == registry[id].name);
            }
        }
    }
}

/// In the budget of a ledger, each summary is the summary of the amounts
/// of the transactions of the ledger that fall into its month and are
/// filed under the name of its category, taken in the order of the
/// ledger.
pub proof fn lemma_summaries_recount(
    b: &Budget,
    ledger: Seq<TransactionView>,
    month: CalendarMonth,
    id: CategoryId,
)
    requires
        b.wf(),
        b.ledger() == ledger,
        names_unique(b.registry()),
        forall|i: int|
            0 <= i < ledger.len() ==> filed_under(b.registry(), ledger[i], #[trigger] b.postings()[i]),
        b.registry().contains_key(id),
    ensures
        summary_or_empty(b.summaries(), (month, id)) == Summary::of(
            amounts_filed(ledger, month, Some(b.registry()[id].name)),
        ),
        summary_or_empty(b.uncategorised_summaries(), month) == Summary::of(
            amounts_filed(ledger, month, None),
        ),
{
    lemma_counted_amounts(b.registry(), ledger, b.postings(), month);
    let counted = amounts_in(b.postings(), month, Some(id));
    if counted.len() == 0 {
        assert(counted =~= Seq::empty());
    }
    let loose = amounts_in(b.postings(), month, None);
    if loose.len() == 0 {
        assert(loose =~= Seq::empty());
    }
}

/// Moving an amount from one category to another and then back restores
/// the allocation of every category in every month, provided that taking
/// the amount from each of the two allocations and giving it back, or
/// the other way round, leaves the allocation as it was.
pub proof fn lemma_transfer_inverse(
    allocations: Map<(CalendarMonth, CategoryId), Allocation>,
    amount: Amount,
    month: CalendarMonth,
    from: CategoryId,
    to: CategoryId,
)
    requires
        from != to,
        allocated(allocations, month, from).minus(amount).plus(amount) == allocated(
            allocations,
            month,
            from,
        ),
        allocated(allocations, month, to).plus(amount).minus(amount) == allocated(
            allocations,
            month,
            to,
        ),
    ensures
        forall|m: CalendarMonth, id: CategoryId|
            allocated(
                transferred(
                    transferred(allocations, amount, month, from, to),
                    amount,
                    month,
                    to,
                    from,
                ),
                m,
                id,
            ) == #[trigger] allocated(allocations, m, id),
{
    let there = transferred(allocations, amount, month, from, to);
    let back = transferred(there, amount, month, to, from);
    assert forall|m: CalendarMonth, id: CategoryId|
        allocated(back, m, id) == #[trigger] allocated(allocations, m, id) by {
        if (m, id) == (month, from) {
        } else if (m, id) == (month, to) {
        } else {
        }
    }
}

/// A transfer from one named category to another followed by the same
/// transfer the other way round restores the allocation of every category
/// in every month, and the second transfer enters no category. This
/// holds where no two categories carry the same name, the two names
/// differ, and taking the amount from the allocations of the two
/// categories and giving it back, or the other way round, leaves them as
/// they were.
pub proof fn lemma_transfer_round_trip(
    r0: Map<CategoryId, CategoryView>,
    a0: Map<(CalendarMonth, CategoryId), Allocation>,
    amount: Amount,
    first: Seq<char>,
    second: Seq<char>,
    month: CalendarMonth,
    r1: Map<CategoryId, CategoryView>,
    a1: Map<(CalendarMonth, CategoryId), Allocation>,
    r2: Map<CategoryId, CategoryView>,
    a2: Map<(CalendarMonth, CategoryId), Allocation>,
)
    requires
        names_unique(r0),
        first != second,
        transfer_step(r0, a0, amount, first, second, month, r1, a1),
        transfer_step(r1, a1, amount, second, first, month, r2, a2),
        forall|id: CategoryId|
            r1.contains_key(id) && (#[trigger] r1[id]).name == first ==> allocated(
                a0,
                month,
                id,
            ).minus(amount).plus(amount) == allocated(a0, month, id),
        forall|id: CategoryId|
            r1.contains_key(id) && (#[trigger] r1[id]).name == second ==> allocated(
                a0,
                month,
                id,
            ).plus(amount).minus(amount) == allocated(a0, month, id),
    ensures
        r2 == r1,
        forall|m: CalendarMonth, id: CategoryId|
            allocated(a2, m, id) == #[trigger] allocated(a0, m, id),
{
    let (f1, t1, b1) = choose|f: CategoryId, t: CategoryId, b: Map<CategoryId, CategoryView>|
        {
            &&& #[trigger] resolves(r0, first, f, b)
            &&& #[trigger] resolves(b, second, t, r1)
            &&& a1 == transferred(a0, amount, month, f, t)
        };
    let (f2, t2, b2) = choose|f: CategoryId, t: CategoryId, b: Map<CategoryId, CategoryView>|
        {
            &&& #[trigger] resolves(r1, second, f, b)
            &&& #[trigger] resolves(b, first, t, r2)
            &&& a2 == transferred(a1, amount, month, f, t)
        };
    lemma_resolves_extends(r0, first, f1, b1);
    lemma_resolves_extends(b1, second, t1, r1);
    assert(r1.contains_key(f1) && r1[f1].name == first);
    assert(r1.contains_key(t1) && r1[t1].name == second);
    assert(has_name(r1, second));
    assert(has_name(r1, first));
    assert(f2 == t1);
    assert(b2 == r1);
    assert(t2 == f1);
    assert(f1 != t1);
    lemma_transfer_inverse(a0, amount, month, f1, t1);
}

} // verus!
