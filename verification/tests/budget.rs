use envelope_budget::{
    Allocation, Amount, Budget, CalendarMonth, Categories, Category, Ledger, Month, Summary,
    Timestamp, Transaction,
};

fn march() -> Timestamp {
    // 2024-03-15T00:00:00Z
    Timestamp::new(1_710_460_800, 0).unwrap()
}

fn march_late() -> Timestamp {
    // 2024-03-31T23:59:59Z
    Timestamp::new(1_711_929_599, 0).unwrap()
}

fn april() -> Timestamp {
    // 2024-04-01T00:00:00Z
    Timestamp::new(1_711_929_600, 0).unwrap()
}

fn spend(amount: i64, category: &str, date: Timestamp, uuid: u128) -> Transaction {
    Transaction::stamped(Amount::from(amount), date, uuid).with_category(category)
}

fn names(budget: &Budget) -> Vec<String> {
    let mut all: Vec<String> = budget
        .categories()
        .iter()
        .map(|c| c.name().clone())
        .collect();
    all.sort();
    all
}

const MARCH: CalendarMonth = CalendarMonth {
    year: 2024,
    month: Month::Mar,
};

const APRIL: CalendarMonth = CalendarMonth {
    year: 2024,
    month: Month::Apr,
};

#[test]
fn empty_budget() {
    let budget = Budget::new();
    assert_eq!(budget.transactions().len(), 0);
    assert!(budget.categories().is_empty());
    assert!(budget.master_categories().is_empty());
    assert_eq!(budget.category_id("Groceries"), None);
    assert_eq!(budget.summary(MARCH, 1), None);
    assert_eq!(budget.uncategorised_summary(MARCH), None);
    assert_eq!(budget.allocation(MARCH, 1), Amount::zero());
    assert_eq!(Budget::default().transactions().len(), 0);
}

#[test]
fn two_grocery_transactions_in_march() {
    let mut budget = Budget::new();
    budget.add(spend(50, "Groceries", march(), 1));
    budget.add(spend(30, "Groceries", march(), 2));
    let id = budget.category_id("Groceries").unwrap();
    let summary = budget.summary(MARCH, id).unwrap();
    assert_eq!(summary.n, 2);
    assert_eq!(summary.sum, Amount::from(80));
    assert_eq!(summary.sum_squared, Amount::from(3400));
    assert_eq!(
        summary,
        Summary {
            n: 2,
            sum: Amount::from(80),
            sum_squared: Amount::from(2500) + Amount::from(900)
        }
    );
    assert_eq!(budget.transactions().len(), 2);
    assert_eq!(budget.uncategorised_summary(MARCH), None);
    assert_eq!(budget.summary(APRIL, id), None);
    assert_eq!(names(&budget), vec!["Groceries".to_string()]);
}

#[test]
fn summaries_are_kept_by_month_and_category() {
    let mut budget = Budget::new();
    budget.add(spend(50, "Groceries", march(), 1));
    budget.add(spend(-7, "Fun", march(), 2));
    budget.add(spend(30, "Groceries", april(), 3));
    budget.add(spend(20, "Groceries", march_late(), 4));
    budget.add(Transaction::stamped(Amount::from(9), march(), 5));
    budget.add(Transaction::stamped(Amount::from(1), march(), 6));
    let groceries = budget.category_id("Groceries").unwrap();
    let fun = budget.category_id("Fun").unwrap();
    assert_ne!(groceries, fun);
    assert_eq!(
        budget.summary(MARCH, groceries),
        Some(Summary {
            n: 2,
            sum: Amount::from(70),
            sum_squared: Amount::from(2900)
        })
    );
    assert_eq!(
        budget.summary(APRIL, groceries),
        Some(Summary {
            n: 1,
            sum: Amount::from(30),
            sum_squared: Amount::from(900)
        })
    );
    assert_eq!(
        budget.summary(MARCH, fun),
        Some(Summary {
            n: 1,
            sum: Amount::from(-7),
            sum_squared: Amount::from(49)
        })
    );
    assert_eq!(budget.summary(APRIL, fun), None);
    assert_eq!(
        budget.uncategorised_summary(MARCH),
        Some(Summary {
            n: 2,
            sum: Amount::from(10),
            sum_squared: Amount::from(82)
        })
    );
    assert_eq!(budget.uncategorised_summary(APRIL), None);
    assert_eq!(names(&budget), vec!["Fun".to_string(), "Groceries".to_string()]);
}

#[test]
fn summary_matches_recount_from_the_ledger() {
    let amounts = [12i64, -5, 40, 7, 7, -30, 100];
    let mut budget = Budget::new();
    for (i, a) in amounts.iter().enumerate() {
        budget.add(spend(*a, "Fun", march(), i as u128));
    }
    let id = budget.category_id("Fun").unwrap();
    let summary = budget.summary(MARCH, id).unwrap();
    let mut sum = Amount::zero();
    let mut squares = Amount::zero();
    for t in budget.transactions().transactions() {
        sum = sum + t.amount();
        squares = squares + t.amount() * t.amount();
    }
    assert_eq!(summary.n as usize, amounts.len());
    assert!(summary.sum.same_value(&sum));
    assert!(summary.sum_squared.same_value(&squares));
    assert_eq!(summary.sum, Amount::from(amounts.iter().sum::<i64>()));
    assert_eq!(
        summary.sum_squared,
        Amount::from(amounts.iter().map(|a| a * a).sum::<i64>())
    );
}

#[test]
fn add_buckets_by_transaction_date_where_set() {
    let mut budget = Budget::new();
    budget.add(spend(50, "Groceries", april(), 1).with_date_transaction(march()));
    let id = budget.category_id("Groceries").unwrap();
    assert_eq!(budget.summary(MARCH, id).unwrap().n, 1);
    assert_eq!(budget.summary(APRIL, id), None);
}

#[test]
fn add_keeps_the_ledger_sorted() {
    let mut budget = Budget::new();
    budget.add(spend(1, "A", april(), 1));
    budget.add(spend(2, "B", march(), 2));
    budget.add(spend(3, "C", march_late(), 3));
    let order: Vec<u128> = budget
        .transactions()
        .transactions()
        .iter()
        .map(|t| t.uuid())
        .collect();
    assert_eq!(order, vec![2, 3, 1]);
}

#[test]
fn post_counts_under_the_given_month_and_category() {
    let mut budget = Budget::new();
    let id = budget.resolve("Groceries");
    budget.post(spend(50, "ignored", april(), 1), MARCH, Some(id));
    budget.post(spend(5, "ignored", april(), 2), MARCH, None);
    assert_eq!(
        budget.summary(MARCH, id),
        Some(Summary {
            n: 1,
            sum: Amount::from(50),
            sum_squared: Amount::from(2500)
        })
    );
    assert_eq!(
        budget.uncategorised_summary(MARCH),
        Some(Summary {
            n: 1,
            sum: Amount::from(5),
            sum_squared: Amount::from(25)
        })
    );
    assert_eq!(budget.transactions().len(), 2);
}

#[test]
fn resolving_a_name_twice_gives_the_same_identifier() {
    let mut budget = Budget::new();
    let a = budget.resolve("Groceries");
    let b = budget.resolve("Groceries");
    assert_eq!(a, b);
    assert_eq!(budget.category_id("Groceries"), Some(a));
    assert_eq!(budget.categories().len(), 1);
}

#[test]
fn resolving_two_new_names_gives_two_identifiers() {
    let mut budget = Budget::new();
    let a = budget.resolve("Groceries");
    let b = budget.resolve("Fun");
    assert_ne!(a, b);
    assert_eq!(budget.categories().len(), 2);
    assert_eq!(names(&budget), vec!["Fun".to_string(), "Groceries".to_string()]);
}

#[test]
fn resolving_is_case_sensitive() {
    let mut budget = Budget::new();
    let a = budget.resolve("Groceries");
    let b = budget.resolve("groceries");
    assert_ne!(a, b);
    assert_eq!(budget.category_id("GROCERIES"), None);
}

#[test]
fn resolving_from_a_candidate_takes_the_first_free_identifier() {
    let mut budget = Budget::new();
    assert_eq!(budget.resolve_from("A", 10), 10);
    assert_eq!(budget.resolve_from("A", 99), 10);
    assert_eq!(budget.resolve_from("B", 10), 11);
    assert_eq!(budget.resolve_from("C", 10), 12);
    assert_eq!(budget.resolve_from("D", 11), 13);
    assert_eq!(budget.resolve_from("E", u128::MAX), u128::MAX);
    assert_eq!(budget.resolve_from("F", u128::MAX), 0);
    assert_eq!(budget.resolve_from("G", u128::MAX), 1);
    assert_eq!(budget.category_id("B"), Some(11));
    assert_eq!(budget.categories().len(), 7);
}

#[test]
fn the_same_resolver_serves_transactions_and_transfers() {
    let mut budget = Budget::new();
    budget.add(spend(50, "Groceries", march(), 1));
    let id = budget.category_id("Groceries").unwrap();
    budget
        .transfer(Amount::from(100), "Savings", "Groceries", march())
        .unwrap();
    assert_eq!(budget.category_id("Groceries"), Some(id));
    assert_eq!(budget.allocation(MARCH, id), Amount::from(100));
    assert_eq!(budget.categories().len(), 2);
}

#[test]
fn new_categories_are_visible_and_sorted_first() {
    let mut budget = Budget::new();
    budget.resolve("Groceries");
    let all = budget.categories();
    assert_eq!(all.len(), 1);
    assert_eq!(all[0].name(), "Groceries");
    assert_eq!(all[0].sort(), 0);
    assert!(!all[0].hidden());
    let c = Category::new("Fun");
    assert_eq!(c.name(), "Fun");
    assert_eq!(c.sort(), 0);
    assert!(!c.hidden());
}

#[test]
fn transfer_moves_allocation_between_categories() {
    let mut budget = Budget::new();
    let r = budget.transfer(Amount::from(40), "Groceries", "Fun", march());
    assert_eq!(r, Ok(()));
    let groceries = budget.category_id("Groceries").unwrap();
    let fun = budget.category_id("Fun").unwrap();
    assert_eq!(budget.allocation(MARCH, groceries), Amount::from(-40));
    assert_eq!(budget.allocation(MARCH, fun), Amount::from(40));
    assert_eq!(budget.allocation(APRIL, groceries), Amount::zero());
    assert_eq!(budget.allocation(APRIL, fun), Amount::zero());
    budget
        .transfer(Amount::from(15), "Groceries", "Fun", march_late())
        .unwrap();
    assert_eq!(budget.allocation(MARCH, groceries), Amount::from(-55));
    assert_eq!(budget.allocation(MARCH, fun), Amount::from(55));
    budget
        .transfer(Amount::from(5), "Fun", "Groceries", april())
        .unwrap();
    assert_eq!(budget.allocation(APRIL, groceries), Amount::from(5));
    assert_eq!(budget.allocation(APRIL, fun), Amount::from(-5));
    assert_eq!(budget.allocation(MARCH, fun), Amount::from(55));
}

#[test]
fn transfer_touches_neither_ledger_nor_summaries() {
    let mut budget = Budget::new();
    budget.add(spend(50, "Groceries", march(), 1));
    let id = budget.category_id("Groceries").unwrap();
    let before = budget.summary(MARCH, id);
    budget
        .transfer(Amount::from(40), "Groceries", "Fun", march())
        .unwrap();
    assert_eq!(budget.summary(MARCH, id), before);
    assert_eq!(budget.transactions().len(), 1);
    let fun = budget.category_id("Fun").unwrap();
    assert_eq!(budget.summary(MARCH, fun), None);
    assert_eq!(budget.uncategorised_summary(MARCH), None);
}

#[test]
fn transfer_and_back_restores_both_allocations() {
    let mut budget = Budget::new();
    budget
        .transfer(Amount::from(120), "Income", "Groceries", march())
        .unwrap();
    budget
        .transfer(Amount::from(30), "Income", "Fun", march())
        .unwrap();
    let groceries = budget.category_id("Groceries").unwrap();
    let fun = budget.category_id("Fun").unwrap();
    let before = (
        budget.allocation(MARCH, groceries),
        budget.allocation(MARCH, fun),
    );
    budget
        .transfer(Amount::from(45), "Groceries", "Fun", march())
        .unwrap();
    assert_eq!(budget.allocation(MARCH, groceries), Amount::from(75));
    assert_eq!(budget.allocation(MARCH, fun), Amount::from(75));
    budget
        .transfer(Amount::from(45), "Fun", "Groceries", march())
        .unwrap();
    assert_eq!(
        (
            budget.allocation(MARCH, groceries),
            budget.allocation(MARCH, fun)
        ),
        before
    );
    assert_eq!(budget.categories().len(), 3);
}

#[test]
fn transfer_and_back_from_nothing_restores_zero() {
    let mut budget = Budget::new();
    budget
        .transfer(Amount::from(45), "Groceries", "Fun", march())
        .unwrap();
    budget
        .transfer(Amount::from(45), "Fun", "Groceries", march())
        .unwrap();
    let groceries = budget.category_id("Groceries").unwrap();
    let fun = budget.category_id("Fun").unwrap();
    assert_eq!(budget.allocation(MARCH, groceries), Amount::zero());
    assert_eq!(budget.allocation(MARCH, fun), Amount::zero());
}

#[test]
fn transfer_within_one_category_takes_and_gives_back() {
    let mut budget = Budget::new();
    budget
        .transfer(Amount::from(45), "Fun", "Fun", march())
        .unwrap();
    let fun = budget.category_id("Fun").unwrap();
    assert_eq!(budget.allocation(MARCH, fun), Amount::zero());
    assert_eq!(budget.categories().len(), 1);
}

#[test]
fn transfer_between_identifiers() {
    let mut budget = Budget::new();
    let a = budget.resolve_from("A", 1);
    let b = budget.resolve_from("B", 2);
    budget.transfer_between(Amount::from(9), a, b, MARCH);
    assert_eq!(budget.allocation(MARCH, 1), Amount::from(-9));
    assert_eq!(budget.allocation(MARCH, 2), Amount::from(9));
    assert_eq!(budget.allocation(MARCH, 3), Amount::zero());
    assert_eq!(
        Allocation::default(),
        Allocation {
            amount: Amount::zero()
        }
    );
}

#[test]
fn rename_category_renames_the_record_and_the_first_transaction() {
    let mut budget = Budget::new();
    budget.add(spend(50, "Groceries", march(), 1));
    budget.add(spend(30, "Groceries", march_late(), 2));
    budget.add(spend(10, "Fun", march(), 3));
    let id = budget.category_id("Groceries").unwrap();
    let before = budget.summary(MARCH, id);
    budget.rename_category("Groceries", "Food");
    assert_eq!(budget.category_id("Food"), Some(id));
    assert_eq!(budget.category_id("Groceries"), None);
    assert_eq!(budget.summary(MARCH, id), before);
    assert_eq!(names(&budget), vec!["Food".to_string(), "Fun".to_string()]);
    assert_eq!(
        budget.transactions().categories(),
        vec![
            "Food".to_string(),
            "Fun".to_string(),
            "Groceries".to_string()
        ]
    );
}

#[test]
fn rename_category_without_a_match_changes_nothing() {
    let mut budget = Budget::new();
    budget.add(spend(50, "Groceries", march(), 1));
    budget.rename_category("Fun", "Food");
    assert_eq!(names(&budget), vec!["Groceries".to_string()]);
    assert_eq!(
        budget.transactions().categories(),
        vec!["Groceries".to_string()]
    );
}

#[test]
fn rename_category_leaves_allocations_with_the_identifier() {
    let mut budget = Budget::new();
    budget
        .transfer(Amount::from(40), "Income", "Groceries", march())
        .unwrap();
    let id = budget.category_id("Groceries").unwrap();
    budget.rename_category("Groceries", "Food");
    assert_eq!(budget.allocation(MARCH, id), Amount::from(40));
    budget
        .transfer(Amount::from(2), "Income", "Food", march())
        .unwrap();
    assert_eq!(budget.allocation(MARCH, id), Amount::from(42));
}

#[test]
fn budget_from_ledger_adds_every_transaction() {
    let mut ledger = Ledger::new();
    ledger.add(spend(50, "Groceries", march(), 1));
    ledger.add(spend(30, "Groceries", march_late(), 2));
    ledger.add(spend(10, "Fun", april(), 3));
    ledger.add(Transaction::stamped(Amount::from(4), march(), 4));
    let budget = Budget::from(ledger);
    assert_eq!(budget.transactions().len(), 4);
    let groceries = budget.category_id("Groceries").unwrap();
    let fun = budget.category_id("Fun").unwrap();
    assert_eq!(
        budget.summary(MARCH, groceries),
        Some(Summary {
            n: 2,
            sum: Amount::from(80),
            sum_squared: Amount::from(3400)
        })
    );
    assert_eq!(budget.summary(APRIL, fun).unwrap().n, 1);
    assert_eq!(budget.uncategorised_summary(MARCH).unwrap().sum, Amount::from(4));
    let order: Vec<u128> = budget
        .transactions()
        .transactions()
        .iter()
        .map(|t| t.uuid())
        .collect();
    assert_eq!(order, vec![1, 4, 2, 3]);
}

#[test]
fn ledger_from_budget_gives_the_transactions_back() {
    let mut budget = Budget::new();
    budget.add(spend(50, "Groceries", april(), 1));
    budget.add(spend(30, "Groceries", march(), 2));
    let ledger = Ledger::from(budget);
    assert_eq!(ledger.len(), 2);
    assert_eq!(ledger.get(0).uuid(), 2);
    assert_eq!(ledger.get(1).uuid(), 1);
}

#[test]
fn summary_default_and_add() {
    let mut s = Summary::default();
    assert_eq!(
        s,
        Summary {
            n: 0,
            sum: Amount::zero(),
            sum_squared: Amount::zero()
        }
    );
    s.add(&Transaction::stamped(Amount::from(-3), march(), 1));
    assert_eq!(
        s,
        Summary {
            n: 1,
            sum: Amount::from(-3),
            sum_squared: Amount::from(9)
        }
    );
}

#[test]
fn registry_on_its_own() {
    let mut reg = Categories::new();
    assert_eq!(reg.len(), 0);
    assert_eq!(reg.get_id("A"), None);
    let a = reg.get_or_create_id("A");
    assert_eq!(reg.get_id("A"), Some(a));
    assert_eq!(reg.get_or_create_id("A"), a);
    assert_eq!(reg.get(a).unwrap().name(), "A");
    assert!(reg.get(a.wrapping_add(1)).is_none());
    assert_eq!(reg.unused_from(a), a.wrapping_add(1));
    assert_eq!(reg.get_or_create_id_from("B", a), a.wrapping_add(1));
    reg.rename("A", "C");
    assert_eq!(reg.get_id("C"), Some(a));
    assert_eq!(reg.get_id("A"), None);
    assert_eq!(reg.len(), 2);
    assert_eq!(reg.values().len(), 2);
}

#[test]
fn transfer_in_month_is_transfer_without_the_calendar() {
    let mut budget = Budget::new();
    let r = budget.transfer_in_month(Amount::from(40), "Groceries", "Fun", APRIL);
    assert_eq!(r, Ok(()));
    let groceries = budget.category_id("Groceries").unwrap();
    let fun = budget.category_id("Fun").unwrap();
    assert_eq!(budget.allocation(APRIL, groceries), Amount::from(-40));
    assert_eq!(budget.allocation(APRIL, fun), Amount::from(40));
    assert_eq!(budget.allocation(MARCH, fun), Amount::zero());
}

#[test]
fn months_of_different_years_are_kept_apart() {
    let mut budget = Budget::new();
    let id = budget.resolve("Fun");
    let this_year = CalendarMonth::new(2024, Month::Mar);
    let last_year = CalendarMonth::new(2023, Month::Mar);
    budget.transfer_between(Amount::from(9), id, id, this_year);
    budget.post(spend(5, "Fun", march(), 1), last_year, Some(id));
    assert_eq!(budget.summary(this_year, id), None);
    assert_eq!(budget.summary(last_year, id).unwrap().n, 1);
    assert_eq!(budget.allocation(last_year, id), Amount::zero());
}
