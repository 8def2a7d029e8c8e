//! Reading bank rows into transactions: amount and date conventions, the
//! position-aware deduplication hash, and splitting a file into headers and rows.
use vstd::prelude::*;
use crate::amount::{abs_int, decimal_parse, Amount};
use crate::date::{date_parse, iso_text, parse_date, parse_date_spec, parse_exact, CalendarDate};
use crate::models::{now_timestamp, Transaction};
use crate::profile::CsvProfile;
use crate::text::{
    chars_of, dec_digits, decimal_digits, is_digit, lemma_dec_digits, lemma_dec_digits_injective,
    string_of, trim, trim_str,
};

verus! {

/// FNV-1a 64-bit offset basis.
pub const FNV_OFFSET_BASIS: u64 = 0xcbf29ce484222325;

/// FNV-1a 64-bit prime.
pub const FNV_PRIME: u64 = 0x100000001b3;

/// One FNV-1a round: xor in the byte, then multiply modulo 2^64.
pub open spec fn fnv1a_round(h: u64, b: u8) -> u64 {
    vstd::wrapping::u64_specs::wrapping_mul(h ^ (b as u64), FNV_PRIME)
}

/// FNV-1a over a byte sequence, folding from the front.
pub open spec fn fnv1a_spec(data: Seq<u8>) -> u64
    decreases data.len(),
{
    if data.len() == 0 {
        FNV_OFFSET_BASIS
    } else {
        fnv1a_round(fnv1a_spec(data.drop_last()), data.last())
    }
}

/// The 64-bit FNV-1a hash of `data`.
pub fn fnv1a(data: &[u8]) -> (r: u64)
    ensures
        r == fnv1a_spec(data@),
{
    let mut hash: u64 = FNV_OFFSET_BASIS;
    let mut i: usize = 0;
    while i < data.len()
        invariant
            i <= data@.len(),
            hash == fnv1a_spec(data@.subrange(0, i as int)),
        decreases data@.len() - i,
    {
        let byte = data[i];
        assert(data@.subrange(0, i as int + 1).drop_last() =~= data@.subrange(0, i as int));
        hash = (hash ^ (byte as u64)).wrapping_mul(FNV_PRIME);
        i = i + 1;
    }
    assert(data@.subrange(0, data@.len() as int) =~= data@);
    hash
}

} // verus!

verus! {

/// What one character of an amount cell becomes: `$`, `,` and `)` are dropped, and an
/// opening parenthesis (accounting negative) becomes a minus sign.
pub open spec fn clean_char(c: char) -> Seq<char> {
    if c == '$' || c == ',' || c == ')' {
        Seq::empty()
    } else if c == '(' {
        seq!['-']
    } else {
        seq![c]
    }
}

pub open spec fn clean_amount_text(s: Seq<char>) -> Seq<char>
    decreases s.len(),
{
    if s.len() == 0 {
        Seq::empty()
    } else {
        clean_amount_text(s.drop_last()) + clean_char(s.last())
    }
}

/// `s` without double quotes.
pub open spec fn strip_quotes(s: Seq<char>) -> Seq<char>
    decreases s.len(),
{
    if s.len() == 0 {
        Seq::empty()
    } else if s.last() == '"' {
        strip_quotes(s.drop_last())
    } else {
        strip_quotes(s.drop_last()).push(s.last())
    }
}

pub open spec fn as_amount(t: (int, int)) -> Amount {
    Amount { mantissa: t.0 as i128, scale: t.1 as u32 }
}

/// The amount an amount cell holds: blank is exact zero; otherwise the cleaned text
/// read as a decimal, and failing that, the same without double quotes.
pub open spec fn parse_decimal_spec(s: Seq<char>) -> Option<Amount> {
    let c = trim(clean_amount_text(s));
    if c.len() == 0 {
        Some(Amount { mantissa: 0, scale: 0 })
    } else if decimal_parse(c) is Some {
        Some(as_amount(decimal_parse(c)->0))
    } else if decimal_parse(strip_quotes(c)) is Some {
        Some(as_amount(decimal_parse(strip_quotes(c))->0))
    } else {
        None
    }
}

fn clean_amount_chars(s: &str) -> (r: String)
    ensures
        r@ == clean_amount_text(s@),
{
    let v = chars_of(s);
    let mut out: Vec<char> = Vec::new();
    let mut i: usize = 0;
    while i < v.len()
        invariant
            i <= v@.len(),
            out@ == clean_amount_text(v@.subrange(0, i as int)),
        decreases v@.len() - i,
    {
        let c = v[i];
        proof {
            assert(v@.subrange(0, i + 1).drop_last() =~= v@.subrange(0, i as int));
        }
        if c == '$' || c == ',' || c == ')' {
            assert(out@ =~= clean_amount_text(v@.subrange(0, i + 1)));
        } else if c == '(' {
            out.push('-');
            assert(out@ =~= clean_amount_text(v@.subrange(0, i + 1)));
        } else {
            out.push(c);
            assert(out@ =~= clean_amount_text(v@.subrange(0, i + 1)));
        }
        i = i + 1;
    }
    assert(v@.subrange(0, v@.len() as int) =~= v@);
    string_of(out.as_slice())
}

fn strip_quote_chars(s: &str) -> (r: String)
    ensures
        r@ == strip_quotes(s@),
{
    let v = chars_of(s);
    let mut out: Vec<char> = Vec::new();
    let mut i: usize = 0;
    while i < v.len()
        invariant
            i <= v@.len(),
            out@ == strip_quotes(v@.subrange(0, i as int)),
        decreases v@.len() - i,
    {
        let c = v[i];
        proof {
            assert(v@.subrange(0, i + 1).drop_last() =~= v@.subrange(0, i as int));
        }
        if c != '"' {
            out.push(c);
        }
        i = i + 1;
    }
    assert(v@.subrange(0, v@.len() as int) =~= v@);
    string_of(out.as_slice())
}

/// Read an amount cell: currency symbols and thousands separators are ignored, a
/// parenthesised value is negative, and a blank cell is zero.
pub fn parse_decimal(s: &str) -> (r: Option<Amount>)
    ensures
        r == parse_decimal_spec(s@),
        r matches Some(a) ==> a.wf(),
{
    let cleaned = clean_amount_chars(s);
    let c = trim_str(cleaned.as_str());
    if chars_of(c.as_str()).len() == 0 {
        return Some(Amount::zero());
    }
    match Amount::parse_text(c.as_str()) {
        Some(a) => Some(a),
        None => {
            let unquoted = strip_quote_chars(c.as_str());
            Amount::parse_text(unquoted.as_str())
        },
    }
}

/// The trimmed text of column `c` of a row, or empty when the row is shorter.
pub open spec fn cell(row: Seq<String>, c: usize) -> Seq<char> {
    if c < row.len() {
        trim(row[c as int]@)
    } else {
        Seq::empty()
    }
}

pub open spec fn opt_cell(row: Seq<String>, c: Option<usize>) -> Seq<char> {
    match c {
        Some(i) => cell(row, i),
        None => Seq::empty(),
    }
}

pub open spec fn neg_of(a: Amount) -> Amount {
    Amount { mantissa: (-a.mantissa) as i128, scale: a.scale }
}

pub open spec fn abs_of(a: Amount) -> Amount {
    Amount { mantissa: abs_int(a.mantissa as int) as i128, scale: a.scale }
}

/// The amount of a row before the profile's sign flip: the amount column when there is
/// one; otherwise a non-blank debit is `-|debit|`, else a non-blank credit is `|credit|`,
/// else zero.
pub open spec fn column_amount_spec(row: Seq<String>, p: CsvProfile) -> Option<Amount> {
    match p.amount_column {
        Some(c) => parse_decimal_spec(cell(row, c)),
        None => {
            let debit = opt_cell(row, p.debit_column);
            let credit = opt_cell(row, p.credit_column);
            if debit.len() > 0 {
                match parse_decimal_spec(debit) {
                    Some(a) => Some(neg_of(abs_of(a))),
                    None => None,
                }
            } else if credit.len() > 0 {
                match parse_decimal_spec(credit) {
                    Some(a) => Some(abs_of(a)),
                    None => None,
                }
            } else {
                Some(Amount { mantissa: 0, scale: 0 })
            }
        },
    }
}

/// The amount of a row, with the profile's sign flip applied.
pub open spec fn amount_spec(row: Seq<String>, p: CsvProfile) -> Option<Amount> {
    match column_amount_spec(row, p) {
        Some(a) => if p.negate_amounts {
            Some(neg_of(a))
        } else {
            Some(a)
        },
        None => None,
    }
}

fn row_cell(row: &Vec<String>, c: usize) -> (r: String)
    ensures
        r@ == cell(row@, c),
{
    if c < row.len() {
        trim_str(row[c].as_str())
    } else {
        String::new()
    }
}

fn is_blank(s: &String) -> (r: bool)
    ensures
        r == (s@.len() == 0),
{
    chars_of(s.as_str()).len() == 0
}

/// Read the amount of a row according to the profile.
pub fn parse_amount(row: &Vec<String>, profile: &CsvProfile) -> (r: Option<Amount>)
    ensures
        r == amount_spec(row@, *profile),
        r matches Some(a) ==> a.wf(),
{
    let amount = match profile.amount_column {
        Some(c) => {
            let raw = row_cell(row, c);
            match parse_decimal(raw.as_str()) {
                Some(a) => a,
                None => return None,
            }
        },
        None => {
            let debit = match profile.debit_column {
                Some(c) => row_cell(row, c),
                None => String::new(),
            };
            let credit = match profile.credit_column {
                Some(c) => row_cell(row, c),
                None => String::new(),
            };
            if !is_blank(&debit) {
                match parse_decimal(debit.as_str()) {
                    Some(a) => a.abs().negate(),
                    None => return None,
                }
            } else if !is_blank(&credit) {
                match parse_decimal(credit.as_str()) {
                    Some(a) => a.abs(),
                    None => return None,
                }
            } else {
                Amount::zero()
            }
        },
    };
    if profile.negate_amounts {
        Some(amount.negate())
    } else {
        Some(amount)
    }
}

} // verus!

verus! {

/// The lowercase hex digit for `d < 16`.
pub open spec fn hex_char(d: nat) -> char {
    if d < 10 {
        ((d + 48) as u8) as char
    } else {
        ((d + 87) as u8) as char
    }
}

/// The last `k` hex digits of `n`, most significant first.
pub open spec fn hex_digits(n: nat, k: nat) -> Seq<char>
    decreases k,
{
    if k == 0 {
        Seq::empty()
    } else {
        hex_digits(n / 16, (k - 1) as nat).push(hex_char(n % 16))
    }
}

/// `h` as 16 lowercase hex digits.
pub fn hex16(h: u64) -> (r: String)
    ensures
        r@ == hex_digits(h as nat, 16),
{
    let mut acc: Vec<char> = Vec::new();
    let mut rem: u64 = h;
    let mut k: usize = 0;
    while k < 16
        invariant
            k <= 16,
            hex_digits(h as nat, 16) == hex_digits(rem as nat, (16 - k) as nat) + acc@,
        decreases 16 - k,
    {
        let d = (rem % 16) as u8;
        let c: char = if d < 10 {
            (d + 48) as char
        } else {
            (d + 87) as char
        };
        proof {
            let m = (16 - k) as nat;
            assert(hex_digits(rem as nat, m) == hex_digits((rem / 16) as nat, (m - 1) as nat).push(
                hex_char((rem % 16) as nat),
            ));
            assert(c == hex_char((rem % 16) as nat));
            assert(hex_digits((rem / 16) as nat, (m - 1) as nat).push(c) + acc@ =~= hex_digits(
                (rem / 16) as nat,
                (m - 1) as nat,
            ) + seq![c].add(acc@));
        }
        acc.insert(0, c);
        rem = rem / 16;
        k = k + 1;
    }
    assert(hex_digits(rem as nat, 0) + acc@ =~= acc@);
    string_of(acc.as_slice())
}

/// The decimal text of a signed integer.
pub open spec fn int_text(i: int) -> Seq<char> {
    if i < 0 {
        seq!['-'] + dec_digits((-i) as nat)
    } else {
        dec_digits(i as nat)
    }
}

fn int_text_exec(i: i64) -> (r: Vec<char>)
    ensures
        r@ == int_text(i as int),
{
    if i < 0 {
        let mut out: Vec<char> = vec!['-'];
        let mut d = decimal_digits((-(i as i128)) as u128);
        out.append(&mut d);
        out
    } else {
        decimal_digits(i as u128)
    }
}

/// The text that a row's dedup hash is computed from:
/// `account|row|date|description|amount`.
pub open spec fn hash_input(
    account_id: int,
    row_index: nat,
    date: Seq<char>,
    description: Seq<char>,
    amount: Amount,
) -> Seq<char> {
    int_text(account_id) + seq!['|'] + dec_digits(row_index) + seq!['|'] + date + seq!['|']
        + description + seq!['|'] + amount.text()
}

/// The dedup hash of a row: FNV-1a over the UTF-8 bytes of its hash input, as 16 hex digits.
pub open spec fn row_hash(
    account_id: int,
    row_index: nat,
    date: Seq<char>,
    description: Seq<char>,
    amount: Amount,
) -> Seq<char> {
    hex_digits(
        fnv1a_spec(vstd::utf8::encode_utf8(hash_input(account_id, row_index, date, description, amount))) as nat,
        16,
    )
}

/// The dedup hash of the row at position `row_index` of an import into `account_id`.
pub fn compute_hash(account_id: i64, row_index: usize, date: &str, description: &str, amount: &Amount) -> (r: String)
    requires
        amount.wf(),
    ensures
        r@ == row_hash(account_id as int, row_index as nat, date@, description@, *amount),
        r@.len() == 16,
{
    let mut v = int_text_exec(account_id);
    v.push('|');
    let mut d = decimal_digits(row_index as u128);
    v.append(&mut d);
    v.push('|');
    let mut t = chars_of(date);
    v.append(&mut t);
    v.push('|');
    let mut t = chars_of(description);
    v.append(&mut t);
    v.push('|');
    let a = amount.to_text();
    let mut t = chars_of(a.as_str());
    v.append(&mut t);
    assert(v@ =~= hash_input(account_id as int, row_index as nat, date@, description@, *amount));
    let s = string_of(v.as_slice());
    let h = fnv1a(s.as_str().as_bytes());
    proof {
        lemma_hex_digits_len(h as nat, 16);
    }
    hex16(h)
}

proof fn lemma_hex_digits_len(n: nat, k: nat)
    ensures
        hex_digits(n, k).len() == k,
    decreases k,
{
    if k > 0 {
        lemma_hex_digits_len(n / 16, (k - 1) as nat);
    }
}

/// Two rows at different positions of an import never share a hash input, whatever
/// their content: the position is written between separators that no digit can be.
pub proof fn lemma_hash_input_distinguishes_rows(
    account_id: int,
    r1: nat,
    r2: nat,
    d1: Seq<char>,
    d2: Seq<char>,
    s1: Seq<char>,
    s2: Seq<char>,
    a1: Amount,
    a2: Amount,
)
    requires
        r1 != r2,
    ensures
        hash_input(account_id, r1, d1, s1, a1) != hash_input(account_id, r2, d2, s2, a2),
{
    let x1 = hash_input(account_id, r1, d1, s1, a1);
    let x2 = hash_input(account_id, r2, d2, s2, a2);
    let p = int_text(account_id) + seq!['|'];
    let l = p.len() as int;
    let t1 = dec_digits(r1);
    let t2 = dec_digits(r2);
    lemma_dec_digits(r1);
    lemma_dec_digits(r2);
    lemma_dec_digits_injective(r1, r2);
    assert(x1 =~= p + (t1 + (seq!['|'] + d1 + seq!['|'] + s1 + seq!['|'] + a1.text())));
    assert(x2 =~= p + (t2 + (seq!['|'] + d2 + seq!['|'] + s2 + seq!['|'] + a2.text())));
    if x1 == x2 {
        if t1.len() < t2.len() {
            assert(x1[l + t1.len()] == '|');
            assert(x2[l + t1.len()] == t2[t1.len() as int]);
            assert(is_digit(t2[t1.len() as int]));
        } else if t2.len() < t1.len() {
            assert(x2[l + t2.len()] == '|');
            assert(x1[l + t2.len()] == t1[t2.len() as int]);
            assert(is_digit(t1[t2.len() as int]));
        } else {
            assert forall|i: int| 0 <= i < t1.len() implies t1[i] == t2[i] by {
                assert(x1[l + i] == t1[i]);
                assert(x2[l + i] == t2[i]);
            }
            assert(t1 =~= t2);
        }
    }
}

} // verus!

verus! {

/// Why a file could not be parsed; `row` counts from 1.
#[derive(Clone, Debug, PartialEq, Eq)]
pub enum ParseError {
    InvalidDate { row: usize, value: String },
    InvalidAmount { row: usize },
}

/// The operator-facing text of an error.
pub open spec fn error_text(e: ParseError) -> Seq<char> {
    match e {
        ParseError::InvalidDate { row, value } => "Row "@ + dec_digits(row as nat) + ": failed to parse date '"@
            + value@ + "'"@,
        ParseError::InvalidAmount { row } => "Row "@ + dec_digits(row as nat) + ": failed to parse amount"@,
    }
}

impl ParseError {
    /// The message shown to the operator, naming the row (counted from 1).
    pub fn message(&self) -> (r: String)
        ensures
            r@ == error_text(*self),
    {
        let mut out = chars_of("Row ");
        let mut d = decimal_digits(match self {
            ParseError::InvalidDate { row, .. } => *row as u128,
            ParseError::InvalidAmount { row } => *row as u128,
        });
        out.append(&mut d);
        match self {
            ParseError::InvalidDate { value, .. } => {
                let mut t = chars_of(": failed to parse date '");
                out.append(&mut t);
                let mut v = chars_of(value.as_str());
                out.append(&mut v);
                out.push('\'');
            },
            ParseError::InvalidAmount { .. } => {
                let mut t = chars_of(": failed to parse amount");
                out.append(&mut t);
            },
        }
        proof {
            reveal_strlit("'");
        }
        assert(out@ =~= error_text(*self));
        string_of(out.as_slice())
    }
}

/// What the parser makes of one row.
#[derive(Clone, Copy, Debug, PartialEq, Eq, Structural)]
pub enum RowOutcome {
    /// Discarded: within the leading rows to skip, or with a blank date.
    Skip,
    Record { date: CalendarDate, amount: Amount },
    BadDate,
    BadAmount,
}

pub open spec fn row_outcome(rows: Seq<Vec<String>>, p: CsvProfile, i: int) -> RowOutcome {
    let row = rows[i]@;
    let d = cell(row, p.date_column);
    if i < p.skip_rows || d.len() == 0 {
        RowOutcome::Skip
    } else {
        match parse_date_spec(d, p.date_format@) {
            None => RowOutcome::BadDate,
            Some(date) => match amount_spec(row, p) {
                None => RowOutcome::BadAmount,
                Some(amount) => RowOutcome::Record { date, amount },
            },
        }
    }
}

pub open spec fn is_failure(o: RowOutcome) -> bool {
    o is BadDate || o is BadAmount
}

/// The positions of the rows among the first `n` that become transactions, in order.
pub open spec fn record_rows(rows: Seq<Vec<String>>, p: CsvProfile, n: nat) -> Seq<int>
    decreases n,
{
    if n == 0 {
        Seq::empty()
    } else {
        let prev = record_rows(rows, p, (n - 1) as nat);
        if row_outcome(rows, p, n - 1) is Record {
            prev.push(n - 1)
        } else {
            prev
        }
    }
}

/// `t` is the transaction that row `i` gives for `account_id`.
pub open spec fn txn_from_row(t: Transaction, rows: Seq<Vec<String>>, p: CsvProfile, account_id: i64, i: int) -> bool {
    let row = rows[i]@;
    match row_outcome(rows, p, i) {
        RowOutcome::Record { date, amount } => {
            &&& t.id.is_none()
            &&& t.account_id == account_id
            &&& t.date@ == iso_text(date)
            &&& t.description@ == cell(row, p.description_column)
            &&& t.original_description@ == cell(row, p.description_column)
            &&& t.amount == amount
            &&& t.amount.wf()
            &&& t.category_id.is_none()
            &&& t.notes@.len() == 0
            &&& !t.is_transfer
            &&& t.import_hash@ == row_hash(
                account_id as int,
                i as nat,
                cell(row, p.date_column),
                cell(row, p.description_column),
                amount,
            )
        },
        _ => false,
    }
}

/// `e` reports the failure of row `i`.
pub open spec fn error_for_row(e: ParseError, rows: Seq<Vec<String>>, p: CsvProfile, i: int) -> bool {
    match e {
        ParseError::InvalidDate { row, value } => row == i + 1 && row_outcome(rows, p, i) is BadDate
            && value@ == cell(rows[i]@, p.date_column),
        ParseError::InvalidAmount { row } => row == i + 1 && row_outcome(rows, p, i) is BadAmount,
    }
}

/// The outcome of parsing `rows`: the first failing row's error if any row fails,
/// else one transaction per record row, in order.
pub open spec fn parse_result_ok(
    r: Result<Vec<Transaction>, ParseError>,
    rows: Seq<Vec<String>>,
    p: CsvProfile,
    account_id: i64,
) -> bool {
    match r {
        Ok(txns) => {
            &&& forall|i: int| 0 <= i < rows.len() ==> !is_failure(#[trigger] row_outcome(rows, p, i))
            &&& txns@.len() == record_rows(rows, p, rows.len()).len()
            &&& forall|k: int|
                0 <= k < txns@.len() ==> txn_from_row(
                    #[trigger] txns@[k],
                    rows,
                    p,
                    account_id,
                    record_rows(rows, p, rows.len())[k],
                )
        },
        Err(e) => exists|i: int|
            0 <= i < rows.len() && error_for_row(e, rows, p, i) && forall|j: int|
                0 <= j < i ==> !is_failure(#[trigger] row_outcome(rows, p, j)),
    }
}

/// Reads rows into transactions.
pub struct CsvImporter;

impl CsvImporter {
    /// Parse rows into transactions for `account_id`, stamping each with `created_at`.
    pub fn parse_with_timestamp(
        rows: &[Vec<String>],
        profile: &CsvProfile,
        account_id: i64,
        created_at: &String,
    ) -> (r: Result<Vec<Transaction>, ParseError>)
        ensures
            parse_result_ok(r, rows@, *profile, account_id),
            r matches Ok(txns) ==> forall|k: int| 0 <= k < txns@.len() ==> (#[trigger] txns@[k]).created_at@ == created_at@,
            r matches Ok(txns) ==> forall|k: int| 0 <= k < txns@.len() ==> (#[trigger] txns@[k]).import_hash@.len() == 16,
    {
        let mut out: Vec<Transaction> = Vec::new();
        let mut i: usize = 0;
        while i < rows.len()
            invariant
                i <= rows@.len(),
                forall|j: int| 0 <= j < i ==> !is_failure(#[trigger] row_outcome(rows@, *profile, j)),
                out@.len() == record_rows(rows@, *profile, i as nat).len(),
                forall|k: int|
                    0 <= k < out@.len() ==> txn_from_row(
                        #[trigger] out@[k],
                        rows@,
                        *profile,
                        account_id,
                        record_rows(rows@, *profile, i as nat)[k],
                    ) && out@[k].created_at@ == created_at@ && out@[k].import_hash@.len() == 16,
            decreases rows@.len() - i,
        {
            let row = &rows[i];
            let ghost o = row_outcome(rows@, *profile, i as int);
            assert(record_rows(rows@, *profile, (i + 1) as nat) == if o is Record {
                record_rows(rows@, *profile, i as nat).push(i as int)
            } else {
                record_rows(rows@, *profile, i as nat)
            });
            if i < profile.skip_rows {
                i = i + 1;
                continue;
            }
            let date_str = row_cell(row, profile.date_column);
            if is_blank(&date_str) {
                i = i + 1;
                continue;
            }
            let date = match parse_date(date_str.as_str(), profile.date_format.as_str()) {
                Some(d) => d,
                None => {
                    let e = ParseError::InvalidDate { row: i + 1, value: date_str };
                    assert(error_for_row(e, rows@, *profile, i as int));
                    return Err(e);
                },
            };
            let description = row_cell(row, profile.description_column);
            let amount = match parse_amount(row, profile) {
                Some(a) => a,
                None => {
                    let e = ParseError::InvalidAmount { row: i + 1 };
                    assert(error_for_row(e, rows@, *profile, i as int));
                    return Err(e);
                },
            };
            let hash = compute_hash(account_id, i, date_str.as_str(), description.as_str(), &amount);
            let txn = Transaction {
                id: None,
                account_id,
                date: date.to_iso(),
                description: description.clone(),
                original_description: description,
                amount,
                category_id: None,
                notes: String::new(),
                is_transfer: false,
                import_hash: hash,
                created_at: created_at.clone(),
            };
            out.push(txn);
            i = i + 1;
        }
        Ok(out)
    }

    /// Parse rows into transactions for `account_id`, stamped with the current time.
    pub fn parse(rows: &[Vec<String>], profile: &CsvProfile, account_id: i64) -> (r: Result<
        Vec<Transaction>,
        ParseError,
    >)
        ensures
            parse_result_ok(r, rows@, *profile, account_id),
            r matches Ok(txns) ==> forall|k: int| 0 <= k < txns@.len() ==> (#[trigger] txns@[k]).import_hash@.len() == 16,
    {
        let now = now_timestamp();
        Self::parse_with_timestamp(rows, profile, account_id, &now)
    }
}

} // verus!

verus! {

/// The same row at the same position of two files, imported into the same account
/// with the same profile, gets the same hash.
pub proof fn lemma_same_row_same_hash(
    rows1: Seq<Vec<String>>,
    rows2: Seq<Vec<String>>,
    p: CsvProfile,
    account_id: i64,
    i: int,
    t1: Transaction,
    t2: Transaction,
)
    requires
        0 <= i < rows1.len(),
        0 <= i < rows2.len(),
        rows1[i]@ == rows2[i]@,
        txn_from_row(t1, rows1, p, account_id, i),
        txn_from_row(t2, rows2, p, account_id, i),
    ensures
        t1.import_hash@ == t2.import_hash@,
{
}

} // verus!

verus! {

/// `s` without `$` and `,`.
pub open spec fn strip_dollar_comma(s: Seq<char>) -> Seq<char>
    decreases s.len(),
{
    if s.len() == 0 {
        Seq::empty()
    } else if s.last() == '$' || s.last() == ',' {
        strip_dollar_comma(s.drop_last())
    } else {
        strip_dollar_comma(s.drop_last()).push(s.last())
    }
}

/// A field that reads as neither a number nor a date, as headers do.
pub open spec fn header_like(f: Seq<char>) -> bool {
    let t = trim(f);
    &&& decimal_parse(trim(strip_dollar_comma(t))) is None
    &&& date_parse(t, "%m/%d/%Y"@) is None
    &&& date_parse(t, "%Y-%m-%d"@) is None
}

/// The generic name of column `i` (from 0) of a file without headers.
pub open spec fn column_name(i: nat) -> Seq<char> {
    "Column "@ + dec_digits(i + 1)
}

fn strip_dollar_comma_exec(s: &str) -> (r: String)
    ensures
        r@ == strip_dollar_comma(s@),
{
    let v = chars_of(s);
    let mut out: Vec<char> = Vec::new();
    let mut i: usize = 0;
    while i < v.len()
        invariant
            i <= v@.len(),
            out@ == strip_dollar_comma(v@.subrange(0, i as int)),
        decreases v@.len() - i,
    {
        let c = v[i];
        proof {
            assert(v@.subrange(0, i + 1).drop_last() =~= v@.subrange(0, i as int));
        }
        if c != '$' && c != ',' {
            out.push(c);
        }
        i = i + 1;
    }
    assert(v@.subrange(0, v@.len() as int) =~= v@);
    string_of(out.as_slice())
}

fn is_header_like(f: &String) -> (r: bool)
    ensures
        r == header_like(f@),
{
    let t = trim_str(f.as_str());
    let stripped = strip_dollar_comma_exec(t.as_str());
    let num = trim_str(stripped.as_str());
    Amount::parse_text(num.as_str()).is_none() && parse_exact(t.as_str(), "%m/%d/%Y").is_none()
        && parse_exact(t.as_str(), "%Y-%m-%d").is_none()
}

impl CsvImporter {
    /// Split the records of a file into headers and data rows: the first record is
    /// the header row when every field of it reads as neither a number nor a date;
    /// otherwise the columns get generic names and every record is data. `None` for
    /// a file without records.
    pub fn split_preview(records: Vec<Vec<String>>) -> (r: Option<(Vec<String>, Vec<Vec<String>>)>)
        ensures
            r.is_none() == (records@.len() == 0),
            r matches Some((headers, rows)) ==> if forall|k: int|
                0 <= k < records@[0]@.len() ==> header_like(#[trigger] records@[0]@[k]@) {
                headers@ == records@[0]@ && rows@ == records@.drop_first()
            } else {
                &&& headers@.len() == records@[0]@.len()
                &&& forall|k: int| 0 <= k < headers@.len() ==> #[trigger] headers@[k]@ == column_name(k as nat)
                &&& rows@ == records@
            },
    {
        if records.len() == 0 {
            return None;
        }
        let n = records[0].len();
        let mut all_header = true;
        let mut k: usize = 0;
        while k < n
            invariant
                k <= n,
                records@.len() > 0,
                n == records@[0]@.len(),
                all_header == forall|j: int| 0 <= j < k ==> header_like(#[trigger] records@[0]@[j]@),
            decreases n - k,
        {
            let h = is_header_like(&records[0][k]);
            proof {
                if !h {
                    assert(!header_like(records@[0]@[k as int]@));
                }
            }
            all_header = all_header && h;
            k = k + 1;
        }
        if all_header {
            let mut rows = records;
            let headers = rows.remove(0);
            assert(rows@ =~= records@.drop_first());
            Some((headers, rows))
        } else {
            let mut headers: Vec<String> = Vec::new();
            let mut j: usize = 0;
            while j < n
                invariant
                    j <= n,
                    headers@.len() == j,
                    forall|m: int| 0 <= m < j ==> #[trigger] headers@[m]@ == column_name(m as nat),
                decreases n - j,
            {
                let mut name: Vec<char> = vec!['C', 'o', 'l', 'u', 'm', 'n', ' '];
                let mut d = decimal_digits(j as u128 + 1);
                name.append(&mut d);
                proof {
                    reveal_strlit("Column ");
                    assert(name@ =~= column_name(j as nat));
                }
                headers.push(string_of(name.as_slice()));
                j = j + 1;
            }
            Some((headers, records))
        }
    }
}

} // verus!

verus! {

/// Two texts without `|`, each followed by `|` and anything, are equal when the
/// whole texts are.
proof fn lemma_bar_prefix(t1: Seq<char>, t2: Seq<char>, r1: Seq<char>, r2: Seq<char>)
    requires
        forall|i: int| 0 <= i < t1.len() ==> t1[i] != '|',
        forall|i: int| 0 <= i < t2.len() ==> t2[i] != '|',
        t1 + seq!['|'] + r1 == t2 + seq!['|'] + r2,
    ensures
        t1 == t2,
{
    let x = t1 + seq!['|'] + r1;
    let y = t2 + seq!['|'] + r2;
    if t1.len() < t2.len() {
        assert(x[t1.len() as int] == '|');
        assert(y[t1.len() as int] == t2[t1.len() as int]);
    } else if t2.len() < t1.len() {
        assert(y[t2.len() as int] == '|');
        assert(x[t2.len() as int] == t1[t2.len() as int]);
    } else {
        assert forall|i: int| 0 <= i < t1.len() implies t1[i] == t2[i] by {
            assert(x[i] == t1[i]);
            assert(y[i] == t2[i]);
        }
        assert(t1 =~= t2);
    }
}

proof fn lemma_int_text(i: int)
    ensures
        forall|k: int| 0 <= k < int_text(i).len() ==> int_text(i)[k] != '|',
        int_text(i).len() > 0,
        i >= 0 ==> is_digit(int_text(i)[0]),
        i < 0 ==> int_text(i)[0] == '-',
{
    if i < 0 {
        lemma_dec_digits((-i) as nat);
        assert forall|k: int| 0 <= k < int_text(i).len() implies int_text(i)[k] != '|' by {
            if k > 0 {
                assert(int_text(i)[k] == dec_digits((-i) as nat)[k - 1]);
            }
        }
    } else {
        lemma_dec_digits(i as nat);
    }
}

/// Imports into different accounts never share a hash input, whatever the rows hold.
pub proof fn lemma_hash_input_distinguishes_accounts(
    a1: int,
    a2: int,
    r1: nat,
    r2: nat,
    d1: Seq<char>,
    d2: Seq<char>,
    s1: Seq<char>,
    s2: Seq<char>,
    m1: Amount,
    m2: Amount,
)
    requires
        a1 != a2,
    ensures
        hash_input(a1, r1, d1, s1, m1) != hash_input(a2, r2, d2, s2, m2),
{
    let t1 = int_text(a1);
    let t2 = int_text(a2);
    let rest1 = dec_digits(r1) + seq!['|'] + d1 + seq!['|'] + s1 + seq!['|'] + m1.text();
    let rest2 = dec_digits(r2) + seq!['|'] + d2 + seq!['|'] + s2 + seq!['|'] + m2.text();
    assert(hash_input(a1, r1, d1, s1, m1) =~= t1 + seq!['|'] + rest1);
    assert(hash_input(a2, r2, d2, s2, m2) =~= t2 + seq!['|'] + rest2);
    lemma_int_text(a1);
    lemma_int_text(a2);
    if hash_input(a1, r1, d1, s1, m1) == hash_input(a2, r2, d2, s2, m2) {
        lemma_bar_prefix(t1, t2, rest1, rest2);
        if a1 >= 0 && a2 >= 0 {
            lemma_dec_digits_injective(a1 as nat, a2 as nat);
        } else if a1 < 0 && a2 < 0 {
            assert(t1.drop_first() =~= dec_digits((-a1) as nat));
            assert(t2.drop_first() =~= dec_digits((-a2) as nat));
            lemma_dec_digits_injective((-a1) as nat, (-a2) as nat);
        } else {
            assert(t1[0] != t2[0]);
        }
    }
}

} // verus!
