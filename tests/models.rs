use budgetui::amount::Amount;
use budgetui::models::{
    select_import_account, Account, AccountChoiceError, AccountType, Budget, Category, ImportRule,
    Transaction,
};

fn make_txn(amount: Amount) -> Transaction {
    Transaction {
        id: None,
        account_id: 1,
        date: "2024-01-15".into(),
        description: "Test".into(),
        original_description: "Test".into(),
        amount,
        category_id: None,
        notes: String::new(),
        is_transfer: false,
        import_hash: String::new(),
        created_at: String::new(),
    }
}

#[test]
fn test_income() {
    let txn = make_txn(Amount::new(10000, 2));
    assert!(txn.is_income());
    assert!(!txn.is_expense());
}

#[test]
fn test_expense() {
    let txn = make_txn(Amount::new(-5000, 2));
    assert!(!txn.is_income());
    assert!(txn.is_expense());
}

#[test]
fn test_zero_is_neither() {
    let txn = make_txn(Amount::zero());
    assert!(!txn.is_income());
    assert!(!txn.is_expense());
}

#[test]
fn test_abs_amount() {
    assert_eq!(make_txn(Amount::new(-4299, 2)).abs_amount(), Amount::new(4299, 2));
    assert_eq!(make_txn(Amount::new(4299, 2)).abs_amount(), Amount::new(4299, 2));
    assert_eq!(make_txn(Amount::zero()).abs_amount(), Amount::zero());
}

#[test]
fn test_small_amounts() {
    let txn = make_txn(Amount::new(1, 2));
    assert!(txn.is_income());
    assert_eq!(txn.abs_amount(), Amount::new(1, 2));
    let txn = make_txn(Amount::new(-1, 2));
    assert!(txn.is_expense());
    assert_eq!(txn.abs_amount(), Amount::new(1, 2));
}

#[test]
fn test_account_type_parse() {
    assert_eq!(AccountType::parse("checking"), AccountType::Checking);
    assert_eq!(AccountType::parse("CHECKING"), AccountType::Checking);
    assert_eq!(AccountType::parse("savings"), AccountType::Savings);
    assert_eq!(AccountType::parse("credit card"), AccountType::CreditCard);
    assert_eq!(AccountType::parse("credit"), AccountType::CreditCard);
    assert_eq!(AccountType::parse("creditcard"), AccountType::CreditCard);
    assert_eq!(AccountType::parse("investment"), AccountType::Investment);
    assert_eq!(AccountType::parse("cash"), AccountType::Cash);
    assert_eq!(AccountType::parse("loan"), AccountType::Loan);
    assert_eq!(AccountType::parse("unknown"), AccountType::Other);
}

#[test]
fn test_account_type_as_str() {
    assert_eq!(AccountType::Checking.as_str(), "Checking");
    assert_eq!(AccountType::Savings.as_str(), "Savings");
    assert_eq!(AccountType::CreditCard.as_str(), "Credit Card");
    assert_eq!(AccountType::Investment.as_str(), "Investment");
    assert_eq!(AccountType::Cash.as_str(), "Cash");
    assert_eq!(AccountType::Loan.as_str(), "Loan");
    assert_eq!(AccountType::Other.as_str(), "Other");
}

#[test]
fn test_account_type_display() {
    assert_eq!(AccountType::Checking.to_string(), "Checking");
    assert_eq!(AccountType::CreditCard.to_string(), "Credit Card");
}

#[test]
fn test_account_type_all() {
    let all = AccountType::all();
    assert_eq!(all.len(), 7);
    assert!(all.contains(&AccountType::Checking));
    assert!(all.contains(&AccountType::Other));
}

#[test]
fn test_account_type_roundtrip() {
    for t in AccountType::all().iter() {
        let s = t.as_str();
        let back = AccountType::parse(s);
        assert_eq!(*t, back, "Roundtrip failed for {s}");
    }
}

#[test]
fn test_account_new_defaults() {
    let account = Account::new("Test".into(), AccountType::Checking, "Bank".into());
    assert!(account.id.is_none());
    assert_eq!(account.name, "Test");
    assert_eq!(account.currency, "USD");
    assert_eq!(account.institution, "Bank");
    assert!(!account.created_at.is_empty());
}

#[test]
fn test_category_new() {
    let cat = Category::new("Food".into());
    assert!(cat.id.is_none());
    assert_eq!(cat.name, "Food");
    assert!(cat.parent_id.is_none());
    assert!(cat.icon.is_empty());
    assert!(cat.color.is_empty());
}

#[test]
fn test_category_display() {
    let cat = Category::new("Groceries".into());
    assert_eq!(cat.to_string(), "Groceries");
}

#[test]
fn test_budget_new() {
    let budget = Budget::new(1, "2024-01".into(), Amount::new(500, 0));
    assert!(budget.id.is_none());
    assert_eq!(budget.category_id, 1);
    assert_eq!(budget.month, "2024-01");
    assert_eq!(budget.limit_amount, Amount::new(500, 0));
}

#[test]
fn test_import_rule_new_contains() {
    let rule = ImportRule::new_contains("coffee".into(), 1);
    assert!(rule.id.is_none());
    assert_eq!(rule.pattern, "coffee");
    assert_eq!(rule.category_id, 1);
    assert!(!rule.is_regex);
    assert_eq!(rule.priority, 0);
}

#[test]
fn test_import_rule_new_regex() {
    let rule = ImportRule::new_regex(r"^AMZN.*".into(), 2);
    assert!(rule.id.is_none());
    assert_eq!(rule.pattern, "^AMZN.*");
    assert_eq!(rule.category_id, 2);
    assert!(rule.is_regex);
    assert_eq!(rule.priority, 0);
}

#[test]
fn account_type_credit_kinds() {
    assert!(AccountType::CreditCard.is_credit());
    assert!(AccountType::Loan.is_credit());
    assert!(!AccountType::Checking.is_credit());
    assert_eq!(AccountType::debit_type_strs(), vec!["Checking", "Savings", "Cash", "Investment", "Other"]);
    assert_eq!(AccountType::credit_type_strs(), vec!["Credit Card", "Loan"]);
}

#[test]
fn category_lookup_by_name_and_id() {
    let mut food = Category::new("Food".into());
    food.id = Some(3);
    let mut fun = Category::new("Fun".into());
    fun.id = Some(4);
    let cats = vec![food, fun];
    assert_eq!(Category::find_by_name(&cats, "FOOD").map(|c| c.id), Some(Some(3)));
    assert!(Category::find_by_name(&cats, "Rent").is_none());
    assert_eq!(Category::find_by_id(&cats, 4).map(|c| c.name.clone()), Some("Fun".to_string()));
    assert!(Category::find_by_id(&cats, 5).is_none());
}

fn stored(name: &str, id: i64) -> Account {
    let mut a = Account::new(name.into(), AccountType::Checking, String::new());
    a.id = Some(id);
    a
}

#[test]
fn import_account_by_name_or_only_one() {
    let accounts = vec![stored("Chase", 1), stored("Amex", 2)];
    assert_eq!(select_import_account(&accounts, Some("AMEX")), Ok(2));
    assert_eq!(
        select_import_account(&accounts, Some("Citi")),
        Err(AccountChoiceError::NotFound("Citi".to_string()))
    );
    assert_eq!(select_import_account(&accounts, None), Err(AccountChoiceError::Ambiguous));
    assert_eq!(select_import_account(&accounts[..1], None), Ok(1));
    assert_eq!(select_import_account(&[], None), Err(AccountChoiceError::NoAccounts));
    let unsaved = vec![Account::new("New".into(), AccountType::Cash, String::new())];
    assert_eq!(select_import_account(&unsaved, None), Err(AccountChoiceError::Unsaved));
}
