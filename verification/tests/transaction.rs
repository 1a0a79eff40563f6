use envelope_budget::{Amount, Source, Timestamp, Transaction};

fn march() -> Timestamp {
    // 2024-03-15T00:00:00Z
    Timestamp::new(1_710_460_800, 0).unwrap()
}

fn april() -> Timestamp {
    // 2024-04-15T00:00:00Z
    Timestamp::new(1_713_139_200, 0).unwrap()
}

fn tag_list(t: &Transaction) -> Vec<String> {
    t.tags().clone()
}

#[test]
fn new_transaction_has_only_an_amount() {
    let t = Transaction::new(Amount::from(50));
    assert_eq!(t.amount(), Amount::from(50));
    assert_eq!(*t.description(), None);
    assert_eq!(*t.payee(), None);
    assert_eq!(t.date_transaction(), None);
    assert_eq!(*t.category(), None);
    assert_eq!(*t.account(), None);
    assert!(t.tags().is_empty());
    assert_eq!(t.id(), None);
    assert!(!t.reconciled());
    assert_eq!(*t.source(), Source::Manual);
}

#[test]
fn default_transaction_is_zero() {
    let t = Transaction::default();
    assert_eq!(t.amount(), Amount::zero());
    assert_eq!(t.date_transaction(), None);
    assert!(t.tags().is_empty());
    assert_eq!(*t.source(), Source::Manual);
    assert!(!t.reconciled());
}

#[test]
fn new_transactions_get_their_own_identifiers() {
    let a = Transaction::new(Amount::from(1));
    let b = Transaction::new(Amount::from(1));
    assert_ne!(a.uuid(), b.uuid());
    // Version 4, variant 1.
    assert_eq!((a.uuid() >> 76) & 0xf, 4);
    assert_eq!((a.uuid() >> 62) & 0x3, 2);
}

#[test]
fn new_transaction_is_stamped_with_the_present() {
    let before = Timestamp::now();
    let t = Transaction::new(Amount::from(1));
    let after = Timestamp::now();
    assert!(before <= t.created());
    assert!(t.created() <= after);
}

#[test]
fn stamped_transaction_keeps_date_and_identifier() {
    let t = Transaction::stamped(Amount::from(7), march(), 42);
    assert_eq!(t.amount(), Amount::from(7));
    assert_eq!(t.created(), march());
    assert_eq!(t.uuid(), 42);
    assert_eq!(t.date(), march());
}

#[test]
fn effective_date_is_creation_date_without_transaction_date() {
    let t = Transaction::stamped(Amount::from(7), march(), 1);
    assert_eq!(t.date_transaction(), None);
    assert_eq!(t.date(), t.created());
    let fresh = Transaction::new(Amount::from(7));
    assert_eq!(fresh.date(), fresh.created());
}

#[test]
fn effective_date_is_transaction_date_when_set() {
    let t = Transaction::stamped(Amount::from(7), march(), 1).with_date_transaction(april());
    assert_eq!(t.date_transaction(), Some(april()));
    assert_eq!(t.date(), april());
    assert_eq!(t.created(), march());
    let mut t = t;
    t.set_date_transaction(None);
    assert_eq!(t.date(), march());
}

#[test]
fn setters_change_one_field() {
    let mut t = Transaction::stamped(Amount::from(7), march(), 9);
    t.set_amount(Amount::from(8));
    t.set_description(Some("weekly shop"));
    t.set_payee(Some("Grocer"));
    t.set_category(Some("Groceries"));
    t.set_id(Some(17));
    t.set_reconciled(true);
    t.set_source(Source::Reconciliation);
    assert_eq!(t.amount(), Amount::from(8));
    assert_eq!(*t.description(), Some("weekly shop".to_string()));
    assert_eq!(*t.payee(), Some("Grocer".to_string()));
    assert_eq!(*t.category(), Some("Groceries".to_string()));
    assert_eq!(t.id(), Some(17));
    assert!(t.reconciled());
    assert_eq!(*t.source(), Source::Reconciliation);
    assert_eq!(t.uuid(), 9);
    assert_eq!(t.created(), march());
    assert_eq!(*t.account(), None);
    assert_eq!(*t.set_account(), None);
    t.set_description(None);
    t.set_payee(None);
    t.set_category(None);
    t.set_id(None);
    assert_eq!(*t.description(), None);
    assert_eq!(*t.payee(), None);
    assert_eq!(*t.category(), None);
    assert_eq!(t.id(), None);
}

#[test]
fn builders_change_one_field() {
    let t = Transaction::stamped(Amount::from(7), march(), 9)
        .with_amount(Amount::from(12))
        .with_description(Some("rent"))
        .with_payee(Some("Landlord"))
        .with_category("Housing")
        .with_id(Some(3))
        .with_source(Source::Reconciliation)
        .with_tag("monthly");
    assert_eq!(t.amount(), Amount::from(12));
    assert_eq!(*t.description(), Some("rent".to_string()));
    assert_eq!(*t.payee(), Some("Landlord".to_string()));
    assert_eq!(*t.category(), Some("Housing".to_string()));
    assert_eq!(t.id(), Some(3));
    assert_eq!(*t.source(), Source::Reconciliation);
    assert_eq!(tag_list(&t), vec!["monthly".to_string()]);
    assert_eq!(t.uuid(), 9);
}

#[test]
fn tagging_twice_keeps_one_occurrence() {
    let mut t = Transaction::stamped(Amount::from(7), march(), 9);
    t.tag("food");
    t.tag("food");
    assert_eq!(tag_list(&t), vec!["food".to_string()]);
    t.tag("fun");
    t.tag("food");
    t.tag("fun");
    assert_eq!(tag_list(&t), vec!["food".to_string(), "fun".to_string()]);
    let t = t.with_tag("fun").with_tag("zoo").with_tag("zoo");
    assert_eq!(
        tag_list(&t),
        vec!["food".to_string(), "fun".to_string(), "zoo".to_string()]
    );
}

#[test]
fn tags_are_kept_in_order_of_tagging() {
    let t = Transaction::stamped(Amount::from(7), march(), 9)
        .with_tag("b")
        .with_tag("a")
        .with_tag("c");
    assert_eq!(
        tag_list(&t),
        vec!["b".to_string(), "a".to_string(), "c".to_string()]
    );
}

#[test]
fn untag_removes_the_tag_and_keeps_the_rest() {
    let mut t = Transaction::stamped(Amount::from(7), march(), 9)
        .with_tag("b")
        .with_tag("a")
        .with_tag("c");
    t.untag("a");
    assert_eq!(tag_list(&t), vec!["b".to_string(), "c".to_string()]);
    t.untag("missing");
    assert_eq!(tag_list(&t), vec!["b".to_string(), "c".to_string()]);
    let t = t.without_tag("b").without_tag("c");
    assert!(t.tags().is_empty());
    let t = t.without_tag("c");
    assert!(t.tags().is_empty());
}

#[test]
fn set_tags_sorts_and_drops_repeats() {
    let mut t = Transaction::stamped(Amount::from(7), march(), 9).with_tag("old");
    t.set_tags(vec![
        "pear".to_string(),
        "apple".to_string(),
        "pear".to_string(),
        "Zebra".to_string(),
        "apple".to_string(),
        "app".to_string(),
        "".to_string(),
    ]);
    assert_eq!(
        tag_list(&t),
        vec![
            "".to_string(),
            "Zebra".to_string(),
            "app".to_string(),
            "apple".to_string(),
            "pear".to_string()
        ]
    );
    t.set_tags(Vec::new());
    assert!(t.tags().is_empty());
}

#[test]
fn set_tags_orders_as_the_standard_sort_does() {
    let input = vec![
        "é".to_string(),
        "e".to_string(),
        "z".to_string(),
        "日本".to_string(),
        "\u{10000}".to_string(),
        "\u{ffff}".to_string(),
        "E".to_string(),
        "ea".to_string(),
        "z".to_string(),
    ];
    let mut expected = input.clone();
    expected.sort();
    expected.dedup();
    let mut t = Transaction::stamped(Amount::from(7), march(), 9);
    t.set_tags(input);
    assert_eq!(tag_list(&t), expected);
}

#[test]
fn similar_ignores_identity_and_provenance() {
    let a = Transaction::stamped(Amount::from(50), march(), 1)
        .with_description(Some("shop"))
        .with_category("Groceries")
        .with_date_transaction(april())
        .with_tag("x")
        .with_id(Some(1))
        .with_source(Source::Manual)
        .with_payee(Some("A"));
    let mut b = Transaction::stamped(Amount::from(50), april(), 2)
        .with_description(Some("shop"))
        .with_category("Groceries")
        .with_date_transaction(april())
        .with_tag("x")
        .with_id(Some(2))
        .with_source(Source::Reconciliation)
        .with_payee(Some("B"));
    b.set_reconciled(true);
    assert!(a.is_similar(&b));
    assert!(b.is_similar(&a));
    assert!(a.is_similar(&a));
}

#[test]
fn similar_compares_each_of_its_five_parts() {
    let base = || {
        Transaction::stamped(Amount::from(50), march(), 1)
            .with_description(Some("shop"))
            .with_category("Groceries")
            .with_date_transaction(april())
            .with_tag("x")
    };
    assert!(base().is_similar(&base()));
    assert!(!base().is_similar(&base().with_amount(Amount::from(51))));
    assert!(!base().is_similar(&base().with_description(Some("other"))));
    assert!(!base().is_similar(&base().with_description(None)));
    assert!(!base().is_similar(&base().with_category("Fun")));
    assert!(!base().is_similar(&base().with_date_transaction(march())));
    assert!(!base().is_similar(&base().with_tag("y")));
    assert!(!base().is_similar(&base().without_tag("x")));
    assert!(!base().is_similar(&base().without_tag("x").with_tag("y")));
}

#[test]
fn similar_goes_by_the_effective_date() {
    let a = Transaction::stamped(Amount::from(5), march(), 1);
    let b = Transaction::stamped(Amount::from(5), march(), 2);
    let c = Transaction::stamped(Amount::from(5), april(), 3);
    assert!(a.is_similar(&b));
    assert!(!a.is_similar(&c));
    assert!(a.is_similar(&c.with_date_transaction(march())));
}

#[test]
fn similar_compares_tags_as_a_set() {
    let a = Transaction::stamped(Amount::from(5), march(), 1)
        .with_tag("x")
        .with_tag("y");
    let b = Transaction::stamped(Amount::from(5), march(), 2)
        .with_tag("y")
        .with_tag("x");
    assert!(a.is_similar(&b));
}

#[test]
fn similar_compares_amounts_as_numbers() {
    let one = Amount::from(10) * Amount::from(10);
    let same = Amount::from(100);
    let a = Transaction::stamped(one, march(), 1);
    let b = Transaction::stamped(same, march(), 2);
    assert!(a.is_similar(&b));
}

#[test]
fn amount_operators_on_transactions() {
    let t = Transaction::stamped(Amount::from(50), march(), 9).with_category("Fun");
    let t = t + Amount::from(30);
    assert_eq!(t.amount(), Amount::from(80));
    assert_eq!(*t.category(), Some("Fun".to_string()));
    assert_eq!(t.uuid(), 9);
    let mut t = t - Amount::from(100);
    assert_eq!(t.amount(), Amount::from(-20));
    t.add_assign(Amount::from(5));
    assert_eq!(t.amount(), Amount::from(-15));
    t.sub_assign(Amount::from(5));
    assert_eq!(t.amount(), Amount::from(-20));
    assert_eq!(t.created(), march());
}

#[test]
fn with_account_sets_the_account() {
    let t = Transaction::stamped(Amount::from(7), march(), 9).with_account(Some("Current"));
    assert_eq!(*t.account(), Some("Current".to_string()));
    assert_eq!(*t.set_account(), Some("Current".to_string()));
    let t = t.with_account(None);
    assert_eq!(*t.account(), None);
}
