//! How one CSV layout is read, and recognition of the known bank layouts.
use vstd::prelude::*;
use crate::text::{chars_equal, chars_of, contains, contains_chars, lower_of, to_lower, trim, trim_str};

verus! {

/// Column mapping and parsing settings for one CSV layout.
#[derive(Clone, Debug)]
pub struct CsvProfile {
    pub name: String,
    pub date_column: usize,
    pub description_column: usize,
    pub amount_column: Option<usize>,
    pub debit_column: Option<usize>,
    pub credit_column: Option<usize>,
    /// A strftime-style pattern, such as `%m/%d/%Y`.
    pub date_format: String,
    pub has_header: bool,
    /// Leading rows to discard whatever they hold.
    pub skip_rows: usize,
    /// Flip the sign of every amount after reading it.
    pub negate_amounts: bool,
    pub is_credit_account: bool,
}

/// The manual fallback layout: date, description and amount in the first three columns.
pub open spec fn is_default_profile(p: CsvProfile) -> bool {
    &&& p.name@ == "Custom"@
    &&& p.date_column == 0
    &&& p.description_column == 1
    &&& p.amount_column == Some(2usize)
    &&& p.debit_column.is_none()
    &&& p.credit_column.is_none()
    &&& p.date_format@ == "%m/%d/%Y"@
    &&& p.has_header
    &&& p.skip_rows == 0
    &&& !p.negate_amounts
    &&& !p.is_credit_account
}

impl Default for CsvProfile {
    fn default() -> (r: CsvProfile)
        ensures
            is_default_profile(r),
    {
        CsvProfile {
            name: "Custom".to_owned(),
            date_column: 0,
            description_column: 1,
            amount_column: Some(2),
            debit_column: None,
            credit_column: None,
            date_format: "%m/%d/%Y".to_owned(),
            has_header: true,
            skip_rows: 0,
            negate_amounts: false,
            is_credit_account: false,
        }
    }
}

/// The bank export layouts that are recognised, in the order they are tried.
#[derive(Clone, Copy, Debug, PartialEq, Eq, Structural)]
pub enum BankFormat {
    WellsFargo,
    AmericanExpress,
    BankOfAmericaCredit,
    BankOfAmericaChecking,
    Usaa,
    Citi,
    CapitalOneCredit,
    CapitalOneChecking,
    Discover,
    ChaseChecking,
    ChaseCredit,
}

/// A header as it is compared: lower-cased, then trimmed.
pub open spec fn norm_header(s: Seq<char>) -> Seq<char> {
    trim(lower_of(s))
}

pub open spec fn norm_headers(headers: Seq<String>) -> Seq<Seq<char>> {
    headers.map_values(|s: String| norm_header(s@))
}

pub open spec fn views(v: Seq<Vec<char>>) -> Seq<Seq<char>> {
    v.map_values(|x: Vec<char>| x@)
}

pub open spec fn has_name(h: Seq<Seq<char>>, name: Seq<char>) -> bool {
    exists|i: int| 0 <= i < h.len() && #[trigger] h[i] == name
}

pub open spec fn any_contains(h: Seq<Seq<char>>, sub: Seq<char>) -> bool {
    exists|i: int| 0 <= i < h.len() && contains(#[trigger] h[i], sub)
}

pub open spec fn first_is(h: Seq<Seq<char>>, name: Seq<char>) -> bool {
    h.len() > 0 && h[0] == name
}

/// `c` is the first column named `name`.
pub open spec fn first_index(c: int, h: Seq<Seq<char>>, name: Seq<char>) -> bool {
    0 <= c < h.len() && h[c] == name && forall|j: int| 0 <= j < c ==> #[trigger] h[j] != name
}

/// `c` is the first column named `name`, or `d` when there is none.
pub open spec fn col_or(c: usize, h: Seq<Seq<char>>, name: Seq<char>, d: usize) -> bool {
    if has_name(h, name) {
        first_index(c as int, h, name)
    } else {
        c == d
    }
}

/// `c` is the first column named `name`, if there is one.
pub open spec fn col_opt(c: Option<usize>, h: Seq<Seq<char>>, name: Seq<char>) -> bool {
    match c {
        Some(i) => first_index(i as int, h, name),
        None => !has_name(h, name),
    }
}

/// Whether layout `f` fits headers `h` (normalised), given whether the file had
/// no headers at all and its first data row.
pub open spec fn fingerprint(f: BankFormat, h: Seq<Seq<char>>, no_headers: bool, row: Seq<Seq<char>>) -> bool {
    match f {
        BankFormat::WellsFargo => no_headers && row.len() == 5 && trim(row[2]) == "*"@,
        BankFormat::AmericanExpress => has_name(h, "card member"@),
        BankFormat::BankOfAmericaCredit => has_name(h, "reference number"@) && has_name(h, "address"@),
        BankFormat::BankOfAmericaChecking => any_contains(h, "running bal"@),
        BankFormat::Usaa => has_name(h, "original description"@),
        BankFormat::Citi => first_is(h, "status"@) && has_name(h, "debit"@) && has_name(h, "credit"@),
        BankFormat::CapitalOneCredit => has_name(h, "card no."@),
        BankFormat::CapitalOneChecking => first_is(h, "account number"@) && has_name(
            h,
            "transaction amount"@,
        ),
        BankFormat::Discover => any_contains(h, "trans. date"@) || any_contains(h, "trans.date"@),
        BankFormat::ChaseChecking => has_name(h, "details"@) && any_contains(h, "check or slip"@),
        BankFormat::ChaseCredit => has_name(h, "transaction date"@) && has_name(h, "post date"@)
            && has_name(h, "type"@),
    }
}

/// The first layout, in priority order, whose fingerprint fits.
pub open spec fn detect_spec(h: Seq<Seq<char>>, no_headers: bool, row: Seq<Seq<char>>) -> Option<BankFormat> {
    if fingerprint(BankFormat::WellsFargo, h, no_headers, row) {
        Some(BankFormat::WellsFargo)
    } else if fingerprint(BankFormat::AmericanExpress, h, no_headers, row) {
        Some(BankFormat::AmericanExpress)
    } else if fingerprint(BankFormat::BankOfAmericaCredit, h, no_headers, row) {
        Some(BankFormat::BankOfAmericaCredit)
    } else if fingerprint(BankFormat::BankOfAmericaChecking, h, no_headers, row) {
        Some(BankFormat::BankOfAmericaChecking)
    } else if fingerprint(BankFormat::Usaa, h, no_headers, row) {
        Some(BankFormat::Usaa)
    } else if fingerprint(BankFormat::Citi, h, no_headers, row) {
        Some(BankFormat::Citi)
    } else if fingerprint(BankFormat::CapitalOneCredit, h, no_headers, row) {
        Some(BankFormat::CapitalOneCredit)
    } else if fingerprint(BankFormat::CapitalOneChecking, h, no_headers, row) {
        Some(BankFormat::CapitalOneChecking)
    } else if fingerprint(BankFormat::Discover, h, no_headers, row) {
        Some(BankFormat::Discover)
    } else if fingerprint(BankFormat::ChaseChecking, h, no_headers, row) {
        Some(BankFormat::ChaseChecking)
    } else if fingerprint(BankFormat::ChaseCredit, h, no_headers, row) {
        Some(BankFormat::ChaseCredit)
    } else {
        None
    }
}

/// The settings that every detected layout shares but for the polarity and account kind.
pub open spec fn detected_common(p: CsvProfile, fmt: Seq<char>, negate: bool, credit: bool) -> bool {
    &&& p.date_format@ == fmt
    &&& p.has_header
    &&& p.skip_rows == 0
    &&& p.negate_amounts == negate
    &&& p.is_credit_account == credit
}

/// A single signed amount column, found by its header.
pub open spec fn amount_by_name(p: CsvProfile, h: Seq<Seq<char>>, name: Seq<char>) -> bool {
    col_opt(p.amount_column, h, name) && p.debit_column.is_none() && p.credit_column.is_none()
}

/// Separate debit and credit columns, found by their headers.
pub open spec fn debit_credit_by_name(p: CsvProfile, h: Seq<Seq<char>>) -> bool {
    p.amount_column.is_none() && col_opt(p.debit_column, h, "debit"@) && col_opt(
        p.credit_column,
        h,
        "credit"@,
    )
}

/// The profile that layout `f` gives for normalised headers `h`.
pub open spec fn describes(p: CsvProfile, f: BankFormat, h: Seq<Seq<char>>) -> bool {
    let us = "%m/%d/%Y"@;
    match f {
        BankFormat::WellsFargo => {
            &&& p.name@ == "Wells Fargo"@
            &&& p.date_column == 0 && p.description_column == 4
            &&& p.amount_column == Some(1usize) && p.debit_column.is_none() && p.credit_column.is_none()
            &&& p.date_format@ == us && !p.has_header && p.skip_rows == 0
            &&& !p.negate_amounts && !p.is_credit_account
        },
        BankFormat::AmericanExpress => {
            &&& p.name@ == "American Express"@
            &&& col_or(p.date_column, h, "date"@, 0) && col_or(p.description_column, h, "description"@, 1)
            &&& amount_by_name(p, h, "amount"@)
            &&& detected_common(p, us, true, true)
        },
        BankFormat::BankOfAmericaCredit => {
            &&& p.name@ == "Bank of America Credit Card"@
            &&& col_or(p.date_column, h, "posted date"@, 0) && col_or(p.description_column, h, "payee"@, 2)
            &&& amount_by_name(p, h, "amount"@)
            &&& detected_common(p, us, false, true)
        },
        BankFormat::BankOfAmericaChecking => {
            &&& p.name@ == "Bank of America Checking"@
            &&& col_or(p.date_column, h, "date"@, 0) && col_or(p.description_column, h, "description"@, 1)
            &&& amount_by_name(p, h, "amount"@)
            &&& detected_common(p, us, false, false)
        },
        BankFormat::Usaa => {
            &&& p.name@ == "USAA"@
            &&& col_or(p.date_column, h, "date"@, 0) && col_or(p.description_column, h, "description"@, 1)
            &&& amount_by_name(p, h, "amount"@)
            &&& detected_common(p, us, false, false)
        },
        BankFormat::Citi => {
            &&& p.name@ == "Citi"@
            &&& col_or(p.date_column, h, "date"@, 1) && col_or(p.description_column, h, "description"@, 2)
            &&& debit_credit_by_name(p, h)
            &&& detected_common(p, us, false, true)
        },
        BankFormat::CapitalOneCredit => {
            &&& p.name@ == "Capital One Credit Card"@
            &&& col_or(p.date_column, h, "transaction date"@, 0) && col_or(p.description_column, h, "description"@, 3)
            &&& debit_credit_by_name(p, h)
            &&& detected_common(p, "%Y-%m-%d"@, false, true)
        },
        BankFormat::CapitalOneChecking => {
            &&& p.name@ == "Capital One Checking"@
            &&& col_or(p.date_column, h, "transaction date"@, 1)
            &&& col_or(p.description_column, h, "transaction description"@, 4)
            &&& amount_by_name(p, h, "transaction amount"@)
            &&& detected_common(p, us, false, false)
        },
        BankFormat::Discover => {
            &&& p.name@ == "Discover"@
            &&& p.date_column == 0 && col_or(p.description_column, h, "description"@, 2)
            &&& amount_by_name(p, h, "amount"@)
            &&& detected_common(p, us, false, true)
        },
        BankFormat::ChaseChecking => {
            &&& p.name@ == "Chase Checking"@
            &&& col_or(p.date_column, h, "posting date"@, 1) && col_or(p.description_column, h, "description"@, 2)
            &&& amount_by_name(p, h, "amount"@)
            &&& detected_common(p, us, false, false)
        },
        BankFormat::ChaseCredit => {
            &&& p.name@ == "Chase Credit Card"@
            &&& col_or(p.date_column, h, "transaction date"@, 0) && col_or(p.description_column, h, "description"@, 2)
            &&& amount_by_name(p, h, "amount"@)
            &&& detected_common(p, us, false, true)
        },
    }
}

/// The first column whose normalised header is `name`.
fn col_index(h: &Vec<Vec<char>>, name: &str) -> (r: Option<usize>)
    ensures
        col_opt(r, views(h@), name@),
{
    let n = chars_of(name);
    let mut i: usize = 0;
    while i < h.len()
        invariant
            i <= h@.len(),
            n@ == name@,
            forall|j: int| 0 <= j < i ==> #[trigger] views(h@)[j] != name@,
        decreases h@.len() - i,
    {
        if chars_equal(&h[i], &n) {
            return Some(i);
        }
        i = i + 1;
    }
    None
}

fn col_or_default(h: &Vec<Vec<char>>, name: &str, d: usize) -> (r: usize)
    ensures
        col_or(r, views(h@), name@, d),
{
    match col_index(h, name) {
        Some(i) => i,
        None => d,
    }
}

fn has_header_named(h: &Vec<Vec<char>>, name: &str) -> (r: bool)
    ensures
        r == has_name(views(h@), name@),
{
    col_index(h, name).is_some()
}

fn some_header_contains(h: &Vec<Vec<char>>, sub: &str) -> (r: bool)
    ensures
        r == any_contains(views(h@), sub@),
{
    let n = chars_of(sub);
    let mut i: usize = 0;
    while i < h.len()
        invariant
            i <= h@.len(),
            n@ == sub@,
            forall|j: int| 0 <= j < i ==> !contains(#[trigger] views(h@)[j], sub@),
        decreases h@.len() - i,
    {
        if contains_chars(&h[i], &n) {
            assert(contains(views(h@)[i as int], sub@));
            return true;
        }
        i = i + 1;
    }
    false
}

fn first_header_is(h: &Vec<Vec<char>>, name: &str) -> (r: bool)
    ensures
        r == first_is(views(h@), name@),
{
    if h.len() == 0 {
        false
    } else {
        let n = chars_of(name);
        chars_equal(&h[0], &n)
    }
}

/// A profile read from headers, with the shared settings of detected layouts.
fn detected_profile(
    name: &str,
    date_column: usize,
    description_column: usize,
    amount_column: Option<usize>,
    debit_column: Option<usize>,
    credit_column: Option<usize>,
    date_format: &str,
    negate_amounts: bool,
    is_credit_account: bool,
) -> (r: CsvProfile)
    ensures
        r.name@ == name@,
        r.date_column == date_column,
        r.description_column == description_column,
        r.amount_column == amount_column,
        r.debit_column == debit_column,
        r.credit_column == credit_column,
        detected_common(r, date_format@, negate_amounts, is_credit_account),
{
    CsvProfile {
        name: name.to_owned(),
        date_column,
        description_column,
        amount_column,
        debit_column,
        credit_column,
        date_format: date_format.to_owned(),
        has_header: true,
        skip_rows: 0,
        negate_amounts,
        is_credit_account,
    }
}

/// Recognise a bank's export layout from its headers (empty for a file without
/// any) and its first data row. `None` when no known layout fits.
pub fn detect_bank_format(headers: &[String], first_row: &[String]) -> (r: Option<CsvProfile>)
    ensures
        r.is_some() == detect_spec(norm_headers(headers@), headers@.len() == 0, first_row@.map_values(|s: String| s@)).is_some(),
        r matches Some(p) ==> describes(
            p,
            detect_spec(norm_headers(headers@), headers@.len() == 0, first_row@.map_values(|s: String| s@))->0,
            norm_headers(headers@),
        ),
{
    let ghost row = first_row@.map_values(|s: String| s@);
    let mut h: Vec<Vec<char>> = Vec::new();
    let mut i: usize = 0;
    while i < headers.len()
        invariant
            i <= headers@.len(),
            views(h@) =~= norm_headers(headers@).subrange(0, i as int),
        decreases headers@.len() - i,
    {
        let lower = to_lower(headers[i].as_str());
        let t = trim_str(lower.as_str());
        let c = chars_of(t.as_str());
        let ghost prev = h@;
        h.push(c);
        proof {
            assert(views(h@) =~= views(prev).push(c@));
            assert(norm_headers(headers@).subrange(0, i + 1) =~= norm_headers(headers@).subrange(0, i as int).push(norm_header(headers@[i as int]@)));
        }
        i = i + 1;
    }
    let ghost hv = views(h@);
    assert(hv =~= norm_headers(headers@));
    let us = "%m/%d/%Y";
    if headers.len() == 0 && first_row.len() == 5 {
        let t = trim_str(first_row[2].as_str());
        if crate::text::str_equals(t.as_str(), "*") {
            return Some(
                CsvProfile {
                    name: "Wells Fargo".to_owned(),
                    date_column: 0,
                    description_column: 4,
                    amount_column: Some(1),
                    debit_column: None,
                    credit_column: None,
                    date_format: us.to_owned(),
                    has_header: false,
                    skip_rows: 0,
                    negate_amounts: false,
                    is_credit_account: false,
                },
            );
        }
    }
    assert(!fingerprint(BankFormat::WellsFargo, hv, headers@.len() == 0, row));
    if has_header_named(&h, "card member") {
        return Some(
            detected_profile(
                "American Express",
                col_or_default(&h, "date", 0),
                col_or_default(&h, "description", 1),
                col_index(&h, "amount"),
                None,
                None,
                us,
                true,
                true,
            ),
        );
    }
    if has_header_named(&h, "reference number") && has_header_named(&h, "address") {
        return Some(
            detected_profile(
                "Bank of America Credit Card",
                col_or_default(&h, "posted date", 0),
                col_or_default(&h, "payee", 2),
                col_index(&h, "amount"),
                None,
                None,
                us,
                false,
                true,
            ),
        );
    }
    if some_header_contains(&h, "running bal") {
        return Some(
            detected_profile(
                "Bank of America Checking",
                col_or_default(&h, "date", 0),
                col_or_default(&h, "description", 1),
                col_index(&h, "amount"),
                None,
                None,
                us,
                false,
                false,
            ),
        );
    }
    if has_header_named(&h, "original description") {
        return Some(
            detected_profile(
                "USAA",
                col_or_default(&h, "date", 0),
                col_or_default(&h, "description", 1),
                col_index(&h, "amount"),
                None,
                None,
                us,
                false,
                false,
            ),
        );
    }
    if first_header_is(&h, "status") && has_header_named(&h, "debit") && has_header_named(&h, "credit") {
        return Some(
            detected_profile(
                "Citi",
                col_or_default(&h, "date", 1),
                col_or_default(&h, "description", 2),
                None,
                col_index(&h, "debit"),
                col_index(&h, "credit"),
                us,
                false,
                true,
            ),
        );
    }
    if has_header_named(&h, "card no.") {
        return Some(
            detected_profile(
                "Capital One Credit Card",
                col_or_default(&h, "transaction date", 0),
                col_or_default(&h, "description", 3),
                None,
                col_index(&h, "debit"),
                col_index(&h, "credit"),
                "%Y-%m-%d",
                false,
                true,
            ),
        );
    }
    if first_header_is(&h, "account number") && has_header_named(&h, "transaction amount") {
        return Some(
            detected_profile(
                "Capital One Checking",
                col_or_default(&h, "transaction date", 1),
                col_or_default(&h, "transaction description", 4),
                col_index(&h, "transaction amount"),
                None,
                None,
                us,
                false,
                false,
            ),
        );
    }
    if some_header_contains(&h, "trans. date") || some_header_contains(&h, "trans.date") {
        return Some(
            detected_profile(
                "Discover",
                0,
                col_or_default(&h, "description", 2),
                col_index(&h, "amount"),
                None,
                None,
                us,
                false,
                true,
            ),
        );
    }
    if has_header_named(&h, "details") && some_header_contains(&h, "check or slip") {
        return Some(
            detected_profile(
                "Chase Checking",
                col_or_default(&h, "posting date", 1),
                col_or_default(&h, "description", 2),
                col_index(&h, "amount"),
                None,
                None,
                us,
                false,
                false,
            ),
        );
    }
    if has_header_named(&h, "transaction date") && has_header_named(&h, "post date")
        && has_header_named(&h, "type") {
        return Some(
            detected_profile(
                "Chase Credit Card",
                col_or_default(&h, "transaction date", 0),
                col_or_default(&h, "description", 2),
                col_index(&h, "amount"),
                None,
                None,
                us,
                false,
                true,
            ),
        );
    }
    None
}

} // verus!
