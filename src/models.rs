//! The ledger's records: accounts, categories, import rules, transactions, budgets.
use vstd::prelude::*;
use crate::amount::Amount;
use crate::text::{lower_of, str_equals, to_lower};

verus! {

/// Relies on `chrono::Utc::now` rendered by `DateTime::to_rfc3339`: the current
/// time as RFC 3339 text, which is never empty.
#[verifier::external_body]
pub(crate) fn now_timestamp() -> (r: String)
    ensures
        r@.len() > 0,
{
    chrono::Utc::now().to_rfc3339()
}

#[derive(Clone, Copy, Debug, PartialEq, Eq, Structural)]
pub enum AccountType {
    Checking,
    Savings,
    CreditCard,
    Investment,
    Cash,
    Loan,
    Other,
}

/// The display name of each account type.
pub open spec fn account_type_name(t: AccountType) -> Seq<char> {
    match t {
        AccountType::Checking => "Checking"@,
        AccountType::Savings => "Savings"@,
        AccountType::CreditCard => "Credit Card"@,
        AccountType::Investment => "Investment"@,
        AccountType::Cash => "Cash"@,
        AccountType::Loan => "Loan"@,
        AccountType::Other => "Other"@,
    }
}

/// The account type that a lower-cased name stands for; anything unknown is `Other`.
pub open spec fn account_type_of_lower(l: Seq<char>) -> AccountType {
    if l == "checking"@ {
        AccountType::Checking
    } else if l == "savings"@ {
        AccountType::Savings
    } else if l == "credit card"@ || l == "creditcard"@ || l == "credit"@ {
        AccountType::CreditCard
    } else if l == "investment"@ {
        AccountType::Investment
    } else if l == "cash"@ {
        AccountType::Cash
    } else if l == "loan"@ {
        AccountType::Loan
    } else {
        AccountType::Other
    }
}

/// Credit cards and loans are liabilities; the rest are assets.
pub open spec fn is_credit_type(t: AccountType) -> bool {
    t == AccountType::CreditCard || t == AccountType::Loan
}

impl AccountType {
    pub fn as_str(&self) -> (r: &'static str)
        ensures
            r@ == account_type_name(*self),
    {
        match self {
            AccountType::Checking => "Checking",
            AccountType::Savings => "Savings",
            AccountType::CreditCard => "Credit Card",
            AccountType::Investment => "Investment",
            AccountType::Cash => "Cash",
            AccountType::Loan => "Loan",
            AccountType::Other => "Other",
        }
    }

    /// The account type named by `s`, compared without regard to case.
    pub fn parse(s: &str) -> (r: AccountType)
        ensures
            r == account_type_of_lower(lower_of(s@)),
    {
        let lower = to_lower(s);
        let l = lower.as_str();
        if str_equals(l, "checking") {
            AccountType::Checking
        } else if str_equals(l, "savings") {
            AccountType::Savings
        } else if str_equals(l, "credit card") || str_equals(l, "creditcard") || str_equals(
            l,
            "credit",
        ) {
            AccountType::CreditCard
        } else if str_equals(l, "investment") {
            AccountType::Investment
        } else if str_equals(l, "cash") {
            AccountType::Cash
        } else if str_equals(l, "loan") {
            AccountType::Loan
        } else {
            AccountType::Other
        }
    }

    /// Every account type, in display order.
    pub fn all() -> (r: Vec<AccountType>)
        ensures
            r@ == seq![
                AccountType::Checking,
                AccountType::Savings,
                AccountType::CreditCard,
                AccountType::Investment,
                AccountType::Cash,
                AccountType::Loan,
                AccountType::Other,
            ],
    {
        let r = vec![
            AccountType::Checking,
            AccountType::Savings,
            AccountType::CreditCard,
            AccountType::Investment,
            AccountType::Cash,
            AccountType::Loan,
            AccountType::Other,
        ];
        assert(r@ =~= seq![
            AccountType::Checking,
            AccountType::Savings,
            AccountType::CreditCard,
            AccountType::Investment,
            AccountType::Cash,
            AccountType::Loan,
            AccountType::Other,
        ]);
        r
    }

    /// The names of the account types that hold assets.
    pub fn debit_type_strs() -> (r: Vec<&'static str>)
        ensures
            r@.len() == 5,
            r@[0]@ == "Checking"@,
            r@[1]@ == "Savings"@,
            r@[2]@ == "Cash"@,
            r@[3]@ == "Investment"@,
            r@[4]@ == "Other"@,
    {
        vec!["Checking", "Savings", "Cash", "Investment", "Other"]
    }

    /// The names of the account types that hold liabilities.
    pub fn credit_type_strs() -> (r: Vec<&'static str>)
        ensures
            r@.len() == 2,
            r@[0]@ == "Credit Card"@,
            r@[1]@ == "Loan"@,
    {
        vec!["Credit Card", "Loan"]
    }

    pub fn is_credit(&self) -> (r: bool)
        ensures
            r == is_credit_type(*self),
    {
        match self {
            AccountType::CreditCard | AccountType::Loan => true,
            _ => false,
        }
    }

    /// The display name as an owned string.
    pub fn to_string(&self) -> (r: String)
        ensures
            r@ == account_type_name(*self),
    {
        self.as_str().to_owned()
    }
}

#[derive(Clone, Debug)]
pub struct Account {
    pub id: Option<i64>,
    pub name: String,
    pub account_type: AccountType,
    pub institution: String,
    pub currency: String,
    pub notes: String,
    pub created_at: String,
}

impl Account {
    /// A new, not yet stored account in US dollars, stamped with the current time.
    pub fn new(name: String, account_type: AccountType, institution: String) -> (r: Account)
        ensures
            r.id.is_none(),
            r.name@ == name@,
            r.account_type == account_type,
            r.institution@ == institution@,
            r.currency@ == "USD"@,
            r.notes@.len() == 0,
            r.created_at@.len() > 0,
    {
        Account {
            id: None,
            name,
            account_type,
            institution,
            currency: "USD".to_owned(),
            notes: String::new(),
            created_at: now_timestamp(),
        }
    }
}

#[derive(Clone, Debug)]
pub struct Category {
    pub id: Option<i64>,
    pub name: String,
    pub parent_id: Option<i64>,
    pub icon: String,
    pub color: String,
}

impl Category {
    /// A new, not yet stored top-level category.
    pub fn new(name: String) -> (r: Category)
        ensures
            r.id.is_none(),
            r.name@ == name@,
            r.parent_id.is_none(),
            r.icon@.len() == 0,
            r.color@.len() == 0,
    {
        Category { id: None, name, parent_id: None, icon: String::new(), color: String::new() }
    }

    /// The first category whose name equals `name` without regard to case.
    pub fn find_by_name<'a>(categories: &'a [Category], name: &str) -> (r: Option<&'a Category>)
        ensures
            match r {
                Some(c) => exists|i: int|
                    0 <= i < categories@.len() && *c == categories@[i] && lower_of(
                        categories@[i].name@,
                    ) == lower_of(name@) && forall|j: int|
                        0 <= j < i ==> lower_of(#[trigger] categories@[j].name@) != lower_of(
                            name@,
                        ),
                None => forall|j: int|
                    0 <= j < categories@.len() ==> lower_of(#[trigger] categories@[j].name@)
                        != lower_of(name@),
            },
    {
        let lower = to_lower(name);
        let mut i: usize = 0;
        while i < categories.len()
            invariant
                i <= categories@.len(),
                lower@ == lower_of(name@),
                forall|j: int| 0 <= j < i ==> lower_of(#[trigger] categories@[j].name@) != lower_of(name@),
            decreases categories@.len() - i,
        {
            let c = &categories[i];
            let cl = to_lower(c.name.as_str());
            if str_equals(cl.as_str(), lower.as_str()) {
                return Some(c);
            }
            i = i + 1;
        }
        None
    }

    /// The first category with id `id`.
    pub fn find_by_id(categories: &[Category], id: i64) -> (r: Option<&Category>)
        ensures
            match r {
                Some(c) => exists|i: int|
                    0 <= i < categories@.len() && *c == categories@[i] && categories@[i].id
                        == Some(id) && forall|j: int|
                        0 <= j < i ==> #[trigger] categories@[j].id != Some(id),
                None => forall|j: int|
                    0 <= j < categories@.len() ==> #[trigger] categories@[j].id != Some(id),
            },
    {
        let mut i: usize = 0;
        while i < categories.len()
            invariant
                i <= categories@.len(),
                forall|j: int| 0 <= j < i ==> #[trigger] categories@[j].id != Some(id),
            decreases categories@.len() - i,
        {
            let c = &categories[i];
            match c.id {
                Some(x) => {
                    if x == id {
                        return Some(c);
                    }
                },
                None => {},
            }
            i = i + 1;
        }
        None
    }

    /// The name, as shown to the operator.
    pub fn to_string(&self) -> (r: String)
        ensures
            r@ == self.name@,
    {
        self.name.clone()
    }
}

#[derive(Clone, Debug)]
pub struct ImportRule {
    pub id: Option<i64>,
    pub pattern: String,
    pub category_id: i64,
    pub is_regex: bool,
    pub priority: i32,
}

impl ImportRule {
    /// A substring rule of priority 0.
    pub fn new_contains(pattern: String, category_id: i64) -> (r: ImportRule)
        ensures
            r.id.is_none(),
            r.pattern@ == pattern@,
            r.category_id == category_id,
            !r.is_regex,
            r.priority == 0,
    {
        ImportRule { id: None, pattern, category_id, is_regex: false, priority: 0 }
    }

    /// A regular-expression rule of priority 0.
    pub fn new_regex(pattern: String, category_id: i64) -> (r: ImportRule)
        ensures
            r.id.is_none(),
            r.pattern@ == pattern@,
            r.category_id == category_id,
            r.is_regex,
            r.priority == 0,
    {
        ImportRule { id: None, pattern, category_id, is_regex: true, priority: 0 }
    }
}

#[derive(Clone, Debug)]
pub struct Transaction {
    pub id: Option<i64>,
    pub account_id: i64,
    pub date: String,
    pub description: String,
    pub original_description: String,
    pub amount: Amount,
    pub category_id: Option<i64>,
    pub notes: String,
    pub is_transfer: bool,
    pub import_hash: String,
    pub created_at: String,
}

impl Transaction {
    /// Money coming in: a positive amount.
    pub fn is_income(&self) -> (r: bool)
        ensures
            r == (self.amount.mantissa > 0),
    {
        self.amount.is_positive()
    }

    /// Money going out: a negative amount.
    pub fn is_expense(&self) -> (r: bool)
        ensures
            r == (self.amount.mantissa < 0),
    {
        self.amount.is_negative()
    }

    pub fn abs_amount(&self) -> (r: Amount)
        requires
            self.amount.wf(),
        ensures
            r.mantissa == crate::amount::abs_int(self.amount.mantissa as int),
            r.scale == self.amount.scale,
    {
        self.amount.abs()
    }
}

#[derive(Clone, Debug)]
pub struct Budget {
    pub id: Option<i64>,
    pub category_id: i64,
    /// The month, as `YYYY-MM`.
    pub month: String,
    pub limit_amount: Amount,
}

impl Budget {
    pub fn new(category_id: i64, month: String, limit_amount: Amount) -> (r: Budget)
        ensures
            r.id.is_none(),
            r.category_id == category_id,
            r.month@ == month@,
            r.limit_amount == limit_amount,
    {
        Budget { id: None, category_id, month, limit_amount }
    }
}

} // verus!

verus! {

/// Why no account could be chosen for an import.
#[derive(Clone, Debug, PartialEq, Eq)]
pub enum AccountChoiceError {
    /// No account has the requested name.
    NotFound(String),
    /// There are no accounts at all.
    NoAccounts,
    /// Several accounts exist and none was named.
    Ambiguous,
    /// The only account has not been stored yet.
    Unsaved,
}

/// The position of the first account whose name equals `name` without regard to case.
pub open spec fn account_named(accounts: Seq<Account>, name: Seq<char>) -> Option<int> {
    if exists|i: int| 0 <= i < accounts.len() && lower_of(#[trigger] accounts[i].name@) == lower_of(name) {
        Some(choose|i: int|
            0 <= i < accounts.len() && lower_of(accounts[i].name@) == lower_of(name) && forall|j: int|
                0 <= j < i ==> lower_of(#[trigger] accounts[j].name@) != lower_of(name))
    } else {
        None
    }
}

/// The account an import goes into: the first whose name equals `name` without
/// regard to case (it must have been stored), or, when no name is given, the
/// only account there is.
pub fn select_import_account(accounts: &[Account], name: Option<&str>) -> (r: Result<i64, AccountChoiceError>)
    ensures
        match name {
            Some(n) => match account_named(accounts@, n@) {
                Some(i) => match accounts@[i].id {
                    Some(id) => r == Ok::<i64, AccountChoiceError>(id),
                    None => r matches Err(AccountChoiceError::NotFound(m)) && m@ == n@,
                },
                None => r matches Err(AccountChoiceError::NotFound(m)) && m@ == n@,
            },
            None => if accounts@.len() == 0 {
                r == Err::<i64, AccountChoiceError>(AccountChoiceError::NoAccounts)
            } else if accounts@.len() > 1 {
                r == Err::<i64, AccountChoiceError>(AccountChoiceError::Ambiguous)
            } else {
                match accounts@[0].id {
                    Some(id) => r == Ok::<i64, AccountChoiceError>(id),
                    None => r == Err::<i64, AccountChoiceError>(AccountChoiceError::Unsaved),
                }
            },
        },
{
    match name {
        Some(n) => {
            let lower = to_lower(n);
            let mut i: usize = 0;
            while i < accounts.len()
                invariant
                    i <= accounts@.len(),
                    name == Some(n),
                    lower@ == lower_of(n@),
                    forall|j: int| 0 <= j < i ==> lower_of(#[trigger] accounts@[j].name@) != lower_of(n@),
                decreases accounts@.len() - i,
            {
                let a = &accounts[i];
                let al = to_lower(a.name.as_str());
                if str_equals(al.as_str(), lower.as_str()) {
                    proof {
                        assert(lower_of(accounts@[i as int].name@) == lower_of(n@));
                        let k2 = account_named(accounts@, n@)->0;
                        assert(account_named(accounts@, n@) is Some);
                        if k2 < i {
                            assert(lower_of(accounts@[k2].name@) != lower_of(n@));
                        } else if i < k2 {
                            assert(lower_of(accounts@[i as int].name@) == lower_of(n@));
                        }
                        assert(k2 == i);
                        assert(account_named(accounts@, n@) == Some(i as int));
                    }
                    let found = a.id;
                    assert(found == accounts@[i as int].id);
                    match found {
                        Some(id) => {
                            return Ok(id);
                        },
                        None => {
                            let e = AccountChoiceError::NotFound(n.to_owned());
                            assert(e matches AccountChoiceError::NotFound(m) && m@ == n@);
                            return Err(e);
                        },
                    }
                }
                i = i + 1;
            }
            proof {
                if exists|j: int| 0 <= j < accounts@.len() && lower_of(#[trigger] accounts@[j].name@) == lower_of(n@) {
                    let j = choose|j: int| 0 <= j < accounts@.len() && lower_of(#[trigger] accounts@[j].name@) == lower_of(n@);
                    assert(lower_of(accounts@[j].name@) != lower_of(n@));
                }
            }
            Err(AccountChoiceError::NotFound(n.to_owned()))
        },
        None => {
            if accounts.len() == 0 {
                Err(AccountChoiceError::NoAccounts)
            } else if accounts.len() > 1 {
                Err(AccountChoiceError::Ambiguous)
            } else {
                match accounts[0].id {
                    Some(id) => Ok(id),
                    None => Err(AccountChoiceError::Unsaved),
                }
            }
        },
    }
}

} // verus!
