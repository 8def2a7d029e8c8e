use budgetui::amount::Amount;
use budgetui::csv_import::CsvImporter;
use budgetui::dedup::select_new;
use budgetui::models::Transaction;
use budgetui::profile::CsvProfile;

fn txn(desc: &str, category: Option<i64>) -> Transaction {
    Transaction {
        id: None,
        account_id: 1,
        date: "2024-01-15".into(),
        description: desc.into(),
        original_description: desc.into(),
        amount: Amount::new(-100, 2),
        category_id: category,
        notes: String::new(),
        is_transfer: false,
        import_hash: String::new(),
        created_at: String::new(),
    }
}

/// The hashes a ledger holds after storing the selected transactions.
fn store(held: &mut Vec<String>, batch: &[Transaction], picked: &[usize]) {
    for &i in picked {
        held.push(batch[i].import_hash.clone());
    }
}

#[test]
fn test_batch_insert_dedup() {
    let mut t = txn("COFFEE", None);
    t.description = "Coffee".into();
    t.amount = Amount::new(-450, 2);
    t.import_hash = "unique-hash".into();
    t.created_at = "2024-01-15T00:00:00Z".into();
    let batch = vec![t];
    let mut held: Vec<String> = vec![];
    let first = select_new(&held, &batch);
    assert_eq!(first.len(), 1);
    store(&mut held, &batch, &first);
    let second = select_new(&held, &batch);
    assert_eq!(second.len(), 0);
}

#[test]
fn test_batch_insert_empty_hash_not_deduped() {
    let mut t = txn("Manual", None);
    t.description = "Manual Entry".into();
    t.amount = Amount::new(-1000, 2);
    let batch = vec![t];
    let mut held: Vec<String> = vec![];
    let first = select_new(&held, &batch);
    assert_eq!(first.len(), 1);
    store(&mut held, &batch, &first);
    let second = select_new(&held, &batch);
    assert_eq!(second.len(), 1);
    store(&mut held, &batch, &second);
    assert_eq!(held.len(), 2);
}

#[test]
fn test_batch_insert_multiple() {
    let batch: Vec<Transaction> = (0..10)
        .map(|i| {
            let mut t = txn(&format!("TXN {i}"), None);
            t.date = format!("2024-01-{:02}", i + 1);
            t.description = format!("Transaction {i}");
            t.amount = Amount::new(-1000, 2);
            t.import_hash = format!("batch-hash-{i}");
            t
        })
        .collect();
    let picked = select_new(&vec![], &batch);
    assert_eq!(picked.len(), 10);
}

#[test]
fn reimport_inserts_nothing_new() {
    let profile = CsvProfile::default();
    let rows: Vec<Vec<String>> = vec![
        vec!["01/15/2024".into(), "Coffee".into(), "-4.50".into()],
        vec!["01/15/2024".into(), "Coffee".into(), "-4.50".into()],
    ];
    let first = CsvImporter::parse(&rows, &profile, 1).unwrap();
    let picked = select_new(&vec![], &first);
    assert_eq!(picked, vec![0, 1]);
    let stored: Vec<String> = picked.iter().map(|&i| first[i].import_hash.clone()).collect();
    let second = CsvImporter::parse(&rows, &profile, 1).unwrap();
    assert!(select_new(&stored, &second).is_empty());
}

#[test]
fn empty_hashes_are_never_deduplicated() {
    let b = vec![txn("A", None), txn("A", None)];
    assert_eq!(select_new(&vec![], &b), vec![0, 1]);
}

#[test]
fn duplicate_hash_within_batch_stored_once() {
    let mut a = txn("A", None);
    a.import_hash = "h1".into();
    let mut c = txn("C", None);
    c.import_hash = "h1".into();
    let mut d = txn("D", None);
    d.import_hash = "h2".into();
    assert_eq!(select_new(&vec!["h2".to_string()], &vec![a, c, d]), vec![0]);
}
