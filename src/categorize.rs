//! Rule-based categorisation of transactions, and suggestion of new rules.
use vstd::prelude::*;
use crate::models::{ImportRule, Transaction};
use crate::pattern::{regex_compiles, regex_matches, CompiledPattern};
use crate::text::{
    chars_of, contains, contains_chars, is_digit, lower_of, split_words, string_of, to_lower, to_upper,
    trim, trim_str, upper_of, words,
};

verus! {

/// Whether a rule fires on a description: a substring rule compares lower-cased
/// texts; a regex rule matches the original text ignoring case, and never fires
/// when its pattern does not compile.
pub open spec fn rule_matches(rule: ImportRule, description: Seq<char>) -> bool {
    if rule.is_regex {
        regex_compiles(rule.pattern@) && regex_matches(rule.pattern@, description)
    } else {
        contains(lower_of(description), lower_of(rule.pattern@))
    }
}

/// The category of the first rule, in the given order, that fires on `description`.
pub open spec fn first_match(rules: Seq<ImportRule>, description: Seq<char>) -> Option<i64>
    decreases rules.len(),
{
    if rules.len() == 0 {
        None
    } else {
        match first_match(rules.drop_last(), description) {
            Some(c) => Some(c),
            None => if rule_matches(rules.last(), description) {
                Some(rules.last().category_id)
            } else {
                None
            },
        }
    }
}

/// The patterns of the regex rules that do not compile, in order.
pub open spec fn bad_patterns(rules: Seq<ImportRule>) -> Seq<Seq<char>>
    decreases rules.len(),
{
    if rules.len() == 0 {
        Seq::empty()
    } else if rules.last().is_regex && !regex_compiles(rules.last().pattern@) {
        bad_patterns(rules.drop_last()).push(rules.last().pattern@)
    } else {
        bad_patterns(rules.drop_last())
    }
}

/// A match found among the first rules stays the answer for all of them.
proof fn lemma_first_match_prefix(rules: Seq<ImportRule>, n: int, d: Seq<char>)
    requires
        0 <= n <= rules.len(),
        first_match(rules.subrange(0, n), d) is Some,
    ensures
        first_match(rules, d) == first_match(rules.subrange(0, n), d),
    decreases rules.len() - n,
{
    if n < rules.len() {
        let m = n + 1;
        assert(rules.subrange(0, m).drop_last() =~= rules.subrange(0, n));
        lemma_first_match_prefix(rules, m, d);
    } else {
        assert(rules.subrange(0, n) =~= rules);
    }
}

/// No rule before `n` fires: the answer for the first `n` rules is none.
proof fn lemma_first_match_none(rules: Seq<ImportRule>, n: int, d: Seq<char>)
    requires
        0 <= n <= rules.len(),
        forall|j: int| 0 <= j < n ==> !rule_matches(#[trigger] rules[j], d),
    ensures
        first_match(rules.subrange(0, n), d) is None,
    decreases n,
{
    if n > 0 {
        assert(rules.subrange(0, n).drop_last() =~= rules.subrange(0, n - 1));
        lemma_first_match_none(rules, n - 1, d);
    }
}

/// First match wins: when rule `k` fires and no earlier rule does, the description
/// gets rule `k`'s category, whatever the later rules say.
pub proof fn lemma_first_match_wins(rules: Seq<ImportRule>, k: int, description: Seq<char>)
    requires
        0 <= k < rules.len(),
        rule_matches(rules[k], description),
        forall|j: int| 0 <= j < k ==> !rule_matches(#[trigger] rules[j], description),
    ensures
        first_match(rules, description) == Some(rules[k].category_id),
{
    lemma_first_match_none(rules, k, description);
    assert(rules.subrange(0, k + 1).drop_last() =~= rules.subrange(0, k));
    lemma_first_match_prefix(rules, k + 1, description);
}

/// How a compiled rule tests a description.
pub enum Matcher {
    /// The lower-cased pattern, sought in the lower-cased description.
    Contains(Vec<char>),
    Regex(CompiledPattern),
}

pub struct CompiledRule {
    pub matcher: Matcher,
    pub category_id: i64,
}

pub open spec fn compiled_matches(r: CompiledRule, description: Seq<char>) -> bool {
    match r.matcher {
        Matcher::Contains(p) => contains(lower_of(description), p@),
        Matcher::Regex(re) => regex_matches(re.source(), description),
    }
}

pub open spec fn compiled_first_match(rules: Seq<CompiledRule>, description: Seq<char>) -> Option<i64>
    decreases rules.len(),
{
    if rules.len() == 0 {
        None
    } else {
        match compiled_first_match(rules.drop_last(), description) {
            Some(c) => Some(c),
            None => if compiled_matches(rules.last(), description) {
                Some(rules.last().category_id)
            } else {
                None
            },
        }
    }
}

/// An ordered list of rules, ready to assign categories.
pub struct Categorizer {
    rules: Vec<CompiledRule>,
    source: Ghost<Seq<ImportRule>>,
}

impl Categorizer {
    /// The rules this was built from, in order.
    pub closed spec fn rules(&self) -> Seq<ImportRule> {
        self.source@
    }

    pub closed spec fn wf(&self) -> bool {
        forall|d: Seq<char>| #[trigger] compiled_first_match(self.rules@, d) == first_match(self.source@, d)
    }

    /// Compile rules, kept in the order given. Regex rules whose pattern does not
    /// compile never fire; their patterns are returned beside the categorizer.
    pub fn new(rules: &[ImportRule]) -> (r: (Categorizer, Vec<String>))
        ensures
            r.0.wf(),
            r.0.rules() == rules@,
            r.1@.len() == bad_patterns(rules@).len(),
            forall|i: int| 0 <= i < r.1@.len() ==> #[trigger] r.1@[i]@ == bad_patterns(rules@)[i],
    {
        let mut compiled: Vec<CompiledRule> = Vec::new();
        let mut bad: Vec<String> = Vec::new();
        let mut i: usize = 0;
        while i < rules.len()
            invariant
                i <= rules@.len(),
                forall|d: Seq<char>| #[trigger] compiled_first_match(compiled@, d) == first_match(rules@.subrange(0, i as int), d),
                bad@.len() == bad_patterns(rules@.subrange(0, i as int)).len(),
                forall|k: int| 0 <= k < bad@.len() ==> #[trigger] bad@[k]@ == bad_patterns(rules@.subrange(0, i as int))[k],
            decreases rules@.len() - i,
        {
            let rule = &rules[i];
            let ghost prev = compiled@;
            let ghost prev_bad = bad@;
            assert(rules@.subrange(0, i + 1).drop_last() =~= rules@.subrange(0, i as int));
            assert(rules@.subrange(0, i + 1).last() == rules@[i as int]);
            if rule.is_regex {
                match CompiledPattern::compile(rule.pattern.as_str()) {
                    Some(re) => {
                        compiled.push(CompiledRule { matcher: Matcher::Regex(re), category_id: rule.category_id });
                        assert forall|d: Seq<char>| #[trigger] compiled_first_match(compiled@, d) == first_match(rules@.subrange(0, i + 1), d) by {
                            assert(compiled@.drop_last() =~= prev);
                            assert(compiled_first_match(prev, d) == first_match(rules@.subrange(0, i as int), d));
                            let s = rules@.subrange(0, i + 1);
                            assert(s.drop_last() =~= rules@.subrange(0, i as int));
                            assert(compiled_matches(compiled@.last(), d) == rule_matches(s.last(), d));
                        }
        
                    },
                    None => {
                        bad.push(rule.pattern.clone());
                        assert forall|d: Seq<char>| #[trigger] compiled_first_match(compiled@, d) == first_match(rules@.subrange(0, i + 1), d) by {
                            let s = rules@.subrange(0, i + 1);
                            assert(s.drop_last() =~= rules@.subrange(0, i as int));
                            assert(!rule_matches(s.last(), d));
                        }
                        let ghost s = rules@.subrange(0, i + 1);
                        assert(s.drop_last() =~= rules@.subrange(0, i as int));
                    },
                }
            } else {
                let lower = to_lower(rule.pattern.as_str());
                let lv = chars_of(lower.as_str());
                assert(lv@ == lower_of(rule.pattern@));
                compiled.push(CompiledRule { matcher: Matcher::Contains(lv), category_id: rule.category_id });
                assert forall|d: Seq<char>| #[trigger] compiled_first_match(compiled@, d) == first_match(rules@.subrange(0, i + 1), d) by {
                    let s = rules@.subrange(0, i + 1);
                    assert(s.drop_last() =~= rules@.subrange(0, i as int));
                    assert(compiled@.drop_last() =~= prev);
                    assert(compiled_first_match(prev, d) == first_match(rules@.subrange(0, i as int), d));
                    assert(compiled_matches(compiled@.last(), d) == rule_matches(s.last(), d));
                }

            }
            i = i + 1;
        }
        assert(rules@.subrange(0, rules@.len() as int) =~= rules@);
        (Categorizer { rules: compiled, source: Ghost(rules@) }, bad)
    }

    /// The category of the first rule that fires on `description`, if any.
    pub fn categorize(&self, description: &str) -> (r: Option<i64>)
        requires
            self.wf(),
        ensures
            r == first_match(self.rules(), description@),
    {
        let lower = to_lower(description);
        let lv = chars_of(lower.as_str());
        let mut i: usize = 0;
        while i < self.rules.len()
            invariant
                i <= self.rules@.len(),
                self.wf(),
                lv@ == lower_of(description@),
                compiled_first_match(self.rules@.subrange(0, i as int), description@) is None,
            decreases self.rules@.len() - i,
        {
            let rule = &self.rules[i];
            let matched = match &rule.matcher {
                Matcher::Contains(p) => contains_chars(&lv, p),
                Matcher::Regex(re) => re.is_match(description),
            };
            assert(self.rules@.subrange(0, i + 1).drop_last() =~= self.rules@.subrange(0, i as int));
            if matched {
                proof {
                    let s = self.rules@.subrange(0, i + 1);
                    assert(s.last() == self.rules@[i as int]);
                    assert(compiled_matches(s.last(), description@));
                    assert(s.drop_last() =~= self.rules@.subrange(0, i as int));
                    assert(compiled_first_match(s, description@) == Some(rule.category_id));
                    assert(compiled_first_match(self.rules@, description@) == first_match(self.source@, description@));
                    lemma_compiled_prefix(self.rules@, i + 1, description@);
                }
                return Some(rule.category_id);
            }
            i = i + 1;
        }
        assert(self.rules@.subrange(0, self.rules@.len() as int) =~= self.rules@);
        None
    }

    /// Give each transaction without a category the category its original
    /// description earns; transactions that already have one are left alone.
    pub fn categorize_batch(&self, transactions: &mut Vec<Transaction>)
        requires
            self.wf(),
        ensures
            final(transactions)@.len() == old(transactions)@.len(),
            forall|i: int| 0 <= i < old(transactions)@.len() ==> #[trigger] final(transactions)@[i] == (if old(transactions)@[i].category_id is Some {
                old(transactions)@[i]
            } else {
                Transaction {
                    category_id: first_match(self.rules(), old(transactions)@[i].original_description@),
                    ..old(transactions)@[i]
                }
            }),
    {
        let ghost orig = transactions@;
        let mut i: usize = 0;
        while i < transactions.len()
            invariant
                i <= transactions@.len(),
                transactions@.len() == orig.len(),
                self.wf(),
                forall|j: int| i <= j < orig.len() ==> #[trigger] transactions@[j] == orig[j],
                forall|j: int| 0 <= j < i ==> #[trigger] transactions@[j] == (if orig[j].category_id is Some {
                    orig[j]
                } else {
                    Transaction { category_id: first_match(self.rules(), orig[j].original_description@), ..orig[j] }
                }),
            decreases transactions@.len() - i,
        {
            if transactions[i].category_id.is_none() {
                let c = self.categorize(transactions[i].original_description.as_str());
                transactions[i].category_id = c;
            }
            i = i + 1;
        }
    }
}

/// A match among the first compiled rules stays the answer for all of them.
proof fn lemma_compiled_prefix(rules: Seq<CompiledRule>, n: int, d: Seq<char>)
    requires
        0 <= n <= rules.len(),
        compiled_first_match(rules.subrange(0, n), d) is Some,
    ensures
        compiled_first_match(rules, d) == compiled_first_match(rules.subrange(0, n), d),
    decreases rules.len() - n,
{
    if n < rules.len() {
        assert(rules.subrange(0, n + 1).drop_last() =~= rules.subrange(0, n));
        lemma_compiled_prefix(rules, n + 1, d);
    } else {
        assert(rules.subrange(0, n) =~= rules);
    }
}

} // verus!

verus! {

/// What one character of an upper-cased description becomes when a rule is
/// suggested: digits and `#` are dropped, `*` becomes a space.
pub open spec fn suggest_char(c: char) -> Seq<char> {
    if is_digit(c) || c == '#' {
        Seq::empty()
    } else if c == '*' {
        seq![' ']
    } else {
        seq![c]
    }
}

pub open spec fn suggest_clean(s: Seq<char>) -> Seq<char>
    decreases s.len(),
{
    if s.len() == 0 {
        Seq::empty()
    } else {
        suggest_clean(s.drop_last()) + suggest_char(s.last())
    }
}

/// The suggested pattern before lower-casing, from the upper-cased description:
/// its first two words after cleaning, or its one word, or else the original text.
pub open spec fn suggest_core(upper: Seq<char>, original: Seq<char>) -> Seq<char> {
    let w = words(trim(suggest_clean(upper)));
    if w.len() >= 2 {
        w[0] + seq![' '] + w[1]
    } else if w.len() == 1 {
        w[0]
    } else {
        original
    }
}

/// The suggested pattern for `original`, given its upper-cased text `upper`.
pub fn suggest_from_upper(upper: &str, original: &str) -> (r: String)
    ensures
        r@ == suggest_core(upper@, original@),
{
    let v = chars_of(upper);
    let mut out: Vec<char> = Vec::new();
    let mut i: usize = 0;
    while i < v.len()
        invariant
            i <= v@.len(),
            out@ == suggest_clean(v@.subrange(0, i as int)),
        decreases v@.len() - i,
    {
        let c = v[i];
        proof {
            assert(v@.subrange(0, i + 1).drop_last() =~= v@.subrange(0, i as int));
        }
        if ('0' <= c && c <= '9') || c == '#' {
            assert(out@ =~= suggest_clean(v@.subrange(0, i + 1)));
        } else if c == '*' {
            out.push(' ');
            assert(out@ =~= suggest_clean(v@.subrange(0, i + 1)));
        } else {
            out.push(c);
            assert(out@ =~= suggest_clean(v@.subrange(0, i + 1)));
        }
        i = i + 1;
    }
    assert(v@.subrange(0, v@.len() as int) =~= v@);
    let cleaned = trim_str(string_of(out.as_slice()).as_str());
    let cv = chars_of(cleaned.as_str());
    let w = split_words(&cv);
    if w.len() >= 2 {
        let mut r: Vec<char> = w[0].clone();
        r.push(' ');
        let mut second = w[1].clone();
        r.append(&mut second);
        string_of(r.as_slice())
    } else if w.len() == 1 {
        string_of(w[0].as_slice())
    } else {
        original.to_owned()
    }
}

/// A substring pattern for a new rule, derived from a merchant description: its
/// first one or two words without digits, `#` or `*`, in lower case.
pub fn suggest_rule(description: &str) -> (r: String)
    ensures
        r@ == lower_of(suggest_core(upper_of(description@), description@)),
{
    let upper = to_upper(description);
    let core = suggest_from_upper(upper.as_str(), description);
    to_lower(core.as_str())
}

} // verus!

verus! {

/// A regex rule whose pattern does not compile never fires, and construction
/// reports its pattern.
pub proof fn lemma_invalid_regex_inert(rules: Seq<ImportRule>, k: int, description: Seq<char>)
    requires
        0 <= k < rules.len(),
        rules[k].is_regex,
        !regex_compiles(rules[k].pattern@),
    ensures
        !rule_matches(rules[k], description),
        bad_patterns(rules).contains(rules[k].pattern@),
    decreases rules.len(),
{
    let prev = rules.drop_last();
    if k < rules.len() - 1 {
        lemma_invalid_regex_inert(prev, k, description);
        let j = choose|j: int| 0 <= j < bad_patterns(prev).len() && bad_patterns(prev)[j] == rules[k].pattern@;
        assert(bad_patterns(rules)[j] == rules[k].pattern@);
    } else {
        assert(bad_patterns(rules).last() == rules[k].pattern@);
    }
}

/// Substring rules see only the lower-cased description: two descriptions that
/// lower-case alike are categorised alike.
pub proof fn lemma_contains_rules_ignore_case(rules: Seq<ImportRule>, d1: Seq<char>, d2: Seq<char>)
    requires
        forall|k: int| 0 <= k < rules.len() ==> !(#[trigger] rules[k]).is_regex,
        lower_of(d1) == lower_of(d2),
    ensures
        first_match(rules, d1) == first_match(rules, d2),
    decreases rules.len(),
{
    if rules.len() > 0 {
        let prev = rules.drop_last();
        assert forall|k: int| 0 <= k < prev.len() implies !(#[trigger] prev[k]).is_regex by {
            assert(prev[k] == rules[k]);
        }
        lemma_contains_rules_ignore_case(prev, d1, d2);
        assert(!rules[rules.len() - 1].is_regex);
    }
}

} // verus!

verus! {

/// Why a rule command was refused.
#[derive(Clone, Debug, PartialEq, Eq)]
pub enum RuleCommandError {
    /// Not of the form `<pattern> <category name>`.
    Usage,
    InvalidRegex(String),
    UnknownCategory(String),
}

/// The position of the last space in `s`, if any.
pub open spec fn last_space(s: Seq<char>) -> Option<int>
    decreases s.len(),
{
    if s.len() == 0 {
        None
    } else if s.last() == ' ' {
        Some(s.len() - 1)
    } else {
        last_space(s.drop_last())
    }
}

/// The first category whose name equals `name` without regard to case.
pub open spec fn category_named(categories: Seq<crate::models::Category>, name: Seq<char>) -> Option<int> {
    if exists|i: int| 0 <= i < categories.len() && lower_of(#[trigger] categories[i].name@) == lower_of(name) {
        Some(choose|i: int|
            0 <= i < categories.len() && lower_of(categories[i].name@) == lower_of(name) && forall|j: int|
                0 <= j < i ==> lower_of(#[trigger] categories[j].name@) != lower_of(name))
    } else {
        None
    }
}

/// Build the rule that `<pattern> <category name>` asks for: the category name is the
/// last space-separated word, the pattern everything before it. A substring pattern
/// is lower-cased; a regex pattern must compile. Unknown categories are refused.
pub fn rule_from_command(args: &str, categories: &[crate::models::Category], regex: bool) -> (r: Result<ImportRule, RuleCommandError>)
    ensures
        match last_space(args@) {
            None => r == Err::<ImportRule, RuleCommandError>(RuleCommandError::Usage),
            Some(i) => {
                let pattern = args@.subrange(0, i);
                let name = args@.subrange(i + 1, args@.len() as int);
                if regex && !regex_compiles(pattern) {
                    r matches Err(RuleCommandError::InvalidRegex(p)) && p@ == pattern
                } else {
                    match category_named(categories@, name) {
                        None => r matches Err(RuleCommandError::UnknownCategory(n)) && n@ == name,
                        Some(k) => r matches Ok(rule) && rule.id.is_none() && rule.is_regex == regex
                            && rule.priority == 0 && rule.pattern@ == (if regex {
                            pattern
                        } else {
                            lower_of(pattern)
                        }) && rule.category_id == match categories@[k].id {
                            Some(id) => id,
                            None => 0,
                        },
                    }
                }
            },
        },
{
    let v = chars_of(args);
    let mut i = v.len();
    assert(v@.subrange(0, i as int) =~= v@);
    while i > 0 && v[i - 1] != ' '
        invariant
            i <= v@.len(),
            last_space(v@) == last_space(v@.subrange(0, i as int)),
        decreases i,
    {
        proof {
            assert(v@.subrange(0, i as int).drop_last() =~= v@.subrange(0, i - 1));
        }
        i = i - 1;
    }
    if i == 0 {
        assert(v@.subrange(0, 0) =~= Seq::<char>::empty());
        return Err(RuleCommandError::Usage);
    }
    let ghost sp = (i - 1) as int;
    assert(last_space(v@) == Some(sp));
    let pattern_raw = string_of(vstd::slice::slice_subrange(v.as_slice(), 0, i - 1));
    let name = string_of(vstd::slice::slice_subrange(v.as_slice(), i, v.len()));
    if regex {
        if CompiledPattern::compile(pattern_raw.as_str()).is_none() {
            return Err(RuleCommandError::InvalidRegex(pattern_raw));
        }
    }
    let found = crate::models::Category::find_by_name(categories, name.as_str());
    match found {
        None => {
            proof {
                if exists|j: int| 0 <= j < categories@.len() && lower_of(#[trigger] categories@[j].name@) == lower_of(name@) {
                    let j = choose|j: int| 0 <= j < categories@.len() && lower_of(#[trigger] categories@[j].name@) == lower_of(name@);
                    assert(lower_of(categories@[j].name@) != lower_of(name@));
                }
            }
            Err(RuleCommandError::UnknownCategory(name))
        },
        Some(c) => {
            let ghost k = choose|k: int|
                0 <= k < categories@.len() && *c == categories@[k] && lower_of(categories@[k].name@) == lower_of(name@)
                    && forall|j: int| 0 <= j < k ==> lower_of(#[trigger] categories@[j].name@) != lower_of(name@);
            proof {
                let k2 = category_named(categories@, name@)->0;
                assert(category_named(categories@, name@) is Some);
                if k2 < k {
                    assert(lower_of(categories@[k2].name@) != lower_of(name@));
                } else if k < k2 {
                    assert(lower_of(categories@[k].name@) == lower_of(name@));
                }
                assert(k2 == k);
            }
            let id = match c.id {
                Some(x) => x,
                None => 0,
            };
            let pattern = if regex {
                pattern_raw
            } else {
                to_lower(pattern_raw.as_str())
            };
            Ok(ImportRule { id: None, pattern, category_id: id, is_regex: regex, priority: 0 })
        },
    }
}

} // verus!
