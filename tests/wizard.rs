use budgetui::amount::Amount;
use budgetui::models::Transaction;
use budgetui::wizard::{apply_category, WizardEffect, WizardEvent, WizardPhase, WizardState};

fn txn(desc: &str, category: Option<i64>) -> Transaction {
    Transaction {
        id: None,
        account_id: 1,
        date: "2024-01-15".into(),
        description: desc.into(),
        original_description: desc.into(),
        amount: Amount::new(-100, 2),
        category_id: category,
        notes: String::new(),
        is_transfer: false,
        import_hash: String::new(),
        created_at: String::new(),
    }
}

fn batch() -> Vec<Transaction> {
    vec![
        txn("COFFEE #1", None),
        txn("RENT", Some(5)),
        txn("LUNCH", None),
        txn("COFFEE #1", None),
        txn("BOOKS", None),
    ]
}

#[test]
fn wizard_lists_unique_descriptions_in_first_seen_order() {
    let b = batch();
    let w = WizardState::start(&b);
    let names: Vec<(String, usize)> = w.descriptions.clone();
    assert_eq!(
        names,
        vec![("COFFEE #1".to_string(), 2), ("LUNCH".to_string(), 1), ("BOOKS".to_string(), 1)]
    );
    assert_eq!(w.index, 0);
    assert_eq!(w.phase, WizardPhase::Picking);
}

#[test]
fn wizard_skipped_when_nothing_uncategorized() {
    let b = vec![txn("RENT", Some(5))];
    let w = WizardState::start(&b);
    assert!(w.descriptions.is_empty());
    assert_eq!(w.phase, WizardPhase::Done);
}

#[test]
fn wizard_assign_fans_out_and_suggests_rule() {
    let mut b = batch();
    let mut w = WizardState::start(&b);
    let effects = w.step(&mut b, WizardEvent::Assign(7));
    assert_eq!(b[0].category_id, Some(7));
    assert_eq!(b[3].category_id, Some(7));
    assert_eq!(b[1].category_id, Some(5));
    assert_eq!(b[2].category_id, None);
    assert_eq!(effects.len(), 1);
    match &effects[0] {
        WizardEffect::PersistRule(rule) => {
            assert_eq!(rule.pattern, "coffee");
            assert_eq!(rule.category_id, 7);
            assert!(!rule.is_regex);
        }
        _ => panic!("expected a rule"),
    }
    assert_eq!(w.index, 1);
    assert_eq!(w.phase, WizardPhase::Picking);
}

#[test]
fn wizard_create_category_flow() {
    let mut b = batch();
    let mut w = WizardState::start(&b);
    assert!(w.step(&mut b, WizardEvent::StartCreating).is_empty());
    assert_eq!(w.phase, WizardPhase::Creating);
    let effects = w.step(&mut b, WizardEvent::SubmitName("  Coffee  ".to_string()));
    match &effects[..] {
        [WizardEffect::PersistCategory(name)] => assert_eq!(name, "Coffee"),
        _ => panic!("expected a category to store"),
    }
    assert!(w.step(&mut b, WizardEvent::SubmitName("   ".to_string())).is_empty());
    let effects = w.step(&mut b, WizardEvent::CategoryCreated(11));
    assert_eq!(effects.len(), 1);
    assert_eq!(b[0].category_id, Some(11));
    assert_eq!(w.index, 1);
    assert_eq!(w.phase, WizardPhase::Picking);
}

#[test]
fn wizard_skip_then_done_covers_batch() {
    let mut b = batch();
    let mut w = WizardState::start(&b);
    w.step(&mut b, WizardEvent::Assign(7));
    let e = w.step(&mut b, WizardEvent::SkipOne);
    assert!(e.is_empty());
    let e = w.step(&mut b, WizardEvent::Assign(8));
    assert_eq!(w.phase, WizardPhase::Done);
    assert!(matches!(e.last(), Some(WizardEffect::Commit)));
    assert_eq!(w.skipped, vec!["LUNCH".to_string()]);
    for t in &b {
        assert!(t.category_id.is_some() || w.skipped.contains(&t.original_description));
    }
}

#[test]
fn wizard_skip_all_commits() {
    let mut b = batch();
    let mut w = WizardState::start(&b);
    let e = w.step(&mut b, WizardEvent::SkipAll);
    assert!(matches!(e.last(), Some(WizardEffect::Commit)));
    assert_eq!(w.phase, WizardPhase::Done);
    assert_eq!(w.skipped.len(), 3);
    assert_eq!(b[0].category_id, None);
}

#[test]
fn wizard_abandon_keeps_applied_categories() {
    let mut b = batch();
    let mut w = WizardState::start(&b);
    w.step(&mut b, WizardEvent::Assign(7));
    let e = w.step(&mut b, WizardEvent::Abandon);
    assert!(e.is_empty());
    assert_eq!(w.phase, WizardPhase::Abandoned);
    assert_eq!(b[0].category_id, Some(7));
}

#[test]
fn apply_category_only_fills_gaps() {
    let mut b = vec![txn("X", None), txn("X", Some(2)), txn("Y", None)];
    apply_category(&mut b, &"X".to_string(), 9);
    assert_eq!(b[0].category_id, Some(9));
    assert_eq!(b[1].category_id, Some(2));
    assert_eq!(b[2].category_id, None);
}

