//! Character-level helpers over `Seq<char>` models of strings.
use vstd::prelude::*;
use vstd::std_specs::iter::IteratorSpec;

verus! {

/// What `str::to_lowercase` returns for a string.
pub uninterp spec fn lower_of(s: Seq<char>) -> Seq<char>;

/// What `str::to_uppercase` returns for a string.
pub uninterp spec fn upper_of(s: Seq<char>) -> Seq<char>;

/// Relies on `str::to_lowercase`: the result depends on the characters alone,
/// and the empty string stays empty.
#[verifier::external_body]
pub(crate) fn to_lower(s: &str) -> (r: String)
    ensures
        r@ == lower_of(s@),
        s@.len() == 0 ==> r@.len() == 0,
{
    s.to_lowercase()
}

/// Relies on `str::to_uppercase`: the result depends on the characters alone,
/// and the empty string stays empty.
#[verifier::external_body]
pub(crate) fn to_upper(s: &str) -> (r: String)
    ensures
        r@ == upper_of(s@),
        s@.len() == 0 ==> r@.len() == 0,
{
    s.to_uppercase()
}

/// The characters of `s`, in order.
pub fn chars_of(s: &str) -> (r: Vec<char>)
    ensures
        r@ == s@,
{
    broadcast use vstd::string::group_string_axioms, vstd::string::next_postcondition;

    let mut it = s.chars();
    let mut v: Vec<char> = Vec::new();
    loop
        invariant
            v@ + IteratorSpec::remaining(&it) == s@,
            it.obeys_prophetic_iter_laws(),
            IteratorSpec::decrease(&it) is Some,
        ensures
            v@ == s@,
        decreases IteratorSpec::decrease(&it)->0,
    {
        match it.next() {
            Some(c) => {
                v.push(c);
            },
            None => {
                assert(v@ + Seq::<char>::empty() =~= v@);
                break ;
            },
        }
    }
    v
}

/// Relies on `String`'s `FromIterator<&char>`: the string of those characters, in order.
#[verifier::external_body]
pub(crate) fn string_of(v: &[char]) -> (r: String)
    ensures
        r@ == v@,
{
    String::from_iter(v)
}

/// Unicode `White_Space`, as `char::is_whitespace` defines it.
pub open spec fn is_ws(c: char) -> bool {
    ('\u{9}' <= c && c <= '\u{d}') || c == ' ' || c == '\u{85}' || c == '\u{a0}' || c
        == '\u{1680}' || ('\u{2000}' <= c && c <= '\u{200a}') || c == '\u{2028}' || c
        == '\u{2029}' || c == '\u{202f}' || c == '\u{205f}' || c == '\u{3000}'
}

pub fn is_whitespace(c: char) -> (r: bool)
    ensures
        r == is_ws(c),
{
    ('\u{9}' <= c && c <= '\u{d}') || c == ' ' || c == '\u{85}' || c == '\u{a0}' || c
        == '\u{1680}' || ('\u{2000}' <= c && c <= '\u{200a}') || c == '\u{2028}' || c
        == '\u{2029}' || c == '\u{202f}' || c == '\u{205f}' || c == '\u{3000}'
}

/// `s` without its leading whitespace.
pub open spec fn trim_start(s: Seq<char>) -> Seq<char>
    decreases s.len(),
{
    if s.len() > 0 && is_ws(s[0]) {
        trim_start(s.drop_first())
    } else {
        s
    }
}

/// `s` without its trailing whitespace.
pub open spec fn trim_end(s: Seq<char>) -> Seq<char>
    decreases s.len(),
{
    if s.len() > 0 && is_ws(s.last()) {
        trim_end(s.drop_last())
    } else {
        s
    }
}

/// `s` without leading and trailing whitespace, as `str::trim` gives it.
pub open spec fn trim(s: Seq<char>) -> Seq<char> {
    trim_end(trim_start(s))
}

/// `needle` occurs in `hay` as a contiguous run.
pub open spec fn contains(hay: Seq<char>, needle: Seq<char>) -> bool {
    exists|i: int| 0 <= i <= hay.len() - needle.len() && #[trigger] hay.subrange(i, i + needle.len()) == needle
}

/// The leading run of non-whitespace characters of `s`.
pub open spec fn word_prefix(s: Seq<char>) -> Seq<char>
    decreases s.len(),
{
    if s.len() == 0 || is_ws(s[0]) {
        Seq::empty()
    } else {
        seq![s[0]] + word_prefix(s.drop_first())
    }
}

/// The whitespace-separated words of `s`, in order, as `str::split_whitespace` gives them.
/// (The length guard always holds; it is what bounds the recursion.)
pub open spec fn words(s: Seq<char>) -> Seq<Seq<char>>
    decreases s.len(),
{
    let t = trim_start(s);
    if t.len() == 0 {
        Seq::empty()
    } else {
        let w = word_prefix(t);
        if 0 < w.len() <= t.len() <= s.len() {
            seq![w] + words(t.subrange(w.len() as int, t.len() as int))
        } else {
            Seq::empty()
        }
    }
}

/// Skipping whitespace from `i` to `j` leaves the same trimmed suffix.
proof fn lemma_trim_start_skip(s: Seq<char>, i: int, j: int)
    requires
        0 <= i <= j <= s.len(),
        forall|k: int| i <= k < j ==> is_ws(#[trigger] s[k]),
        j == s.len() || !is_ws(s[j]),
    ensures
        trim_start(s.subrange(i, s.len() as int)) == s.subrange(j, s.len() as int),
    decreases j - i,
{
    let t = s.subrange(i, s.len() as int);
    if i < j {
        assert(t.drop_first() =~= s.subrange(i + 1, s.len() as int));
        lemma_trim_start_skip(s, i + 1, j);
    } else {
        if t.len() > 0 {
            assert(t[0] == s[j]);
        }
    }
}

/// The word starting at `j` runs to `k`.
proof fn lemma_word_prefix_run(s: Seq<char>, j: int, k: int)
    requires
        0 <= j <= k <= s.len(),
        forall|m: int| j <= m < k ==> !is_ws(#[trigger] s[m]),
        k == s.len() || is_ws(s[k]),
    ensures
        word_prefix(s.subrange(j, s.len() as int)) == s.subrange(j, k),
    decreases k - j,
{
    let t = s.subrange(j, s.len() as int);
    if j < k {
        assert(t.drop_first() =~= s.subrange(j + 1, s.len() as int));
        lemma_word_prefix_run(s, j + 1, k);
        assert(seq![s[j]] + s.subrange(j + 1, k) =~= s.subrange(j, k));
    } else {
        if t.len() > 0 {
            assert(t[0] == s[k]);
        }
        assert(s.subrange(j, k) =~= Seq::<char>::empty());
    }
}

/// One step of word splitting: skip whitespace from `i` to `j`, take the word `j..k`.
proof fn lemma_words_step(s: Seq<char>, i: int, j: int, k: int)
    requires
        0 <= i <= j < k <= s.len(),
        forall|m: int| i <= m < j ==> is_ws(#[trigger] s[m]),
        forall|m: int| j <= m < k ==> !is_ws(#[trigger] s[m]),
        k == s.len() || is_ws(s[k]),
    ensures
        words(s.subrange(i, s.len() as int)) == seq![s.subrange(j, k)] + words(
            s.subrange(k, s.len() as int),
        ),
{
    let u = s.subrange(i, s.len() as int);
    lemma_trim_start_skip(s, i, j);
    lemma_word_prefix_run(s, j, k);
    let t = s.subrange(j, s.len() as int);
    assert(t.subrange(k - j, t.len() as int) =~= s.subrange(k, s.len() as int));
}

/// Only whitespace from `i` to the end: no more words.
proof fn lemma_words_end(s: Seq<char>, i: int)
    requires
        0 <= i <= s.len(),
        forall|m: int| i <= m < s.len() ==> is_ws(#[trigger] s[m]),
    ensures
        words(s.subrange(i, s.len() as int)) == Seq::<Seq<char>>::empty(),
{
    lemma_trim_start_skip(s, i, s.len() as int);
}

/// The whitespace-separated words of `s`, as `str::split_whitespace` yields them.
pub fn split_words(s: &Vec<char>) -> (r: Vec<Vec<char>>)
    ensures
        r@.len() == words(s@).len(),
        forall|i: int| 0 <= i < r@.len() ==> #[trigger] r@[i]@ == words(s@)[i],
{
    let n = s.len();
    let mut out: Vec<Vec<char>> = Vec::new();
    let ghost mut spec_out: Seq<Seq<char>> = Seq::empty();
    let mut i: usize = 0;
    assert(s@.subrange(0, n as int) =~= s@);
    while i < n
        invariant
            n == s@.len(),
            i <= n,
            out@.len() == spec_out.len(),
            forall|m: int| 0 <= m < out@.len() ==> #[trigger] out@[m]@ == spec_out[m],
            words(s@) == spec_out + words(s@.subrange(i as int, n as int)),
        decreases n - i,
    {
        let mut j = i;
        while j < n && is_whitespace(s[j])
            invariant
                i <= j <= n,
                n == s@.len(),
                forall|m: int| i <= m < j ==> is_ws(#[trigger] s@[m]),
            decreases n - j,
        {
            j = j + 1;
        }
        if j == n {
            proof {
                lemma_words_end(s@, i as int);
                assert(spec_out + Seq::<Seq<char>>::empty() =~= spec_out);
            }
            i = n;
        } else {
            let mut k = j;
            let mut w: Vec<char> = Vec::new();
            while k < n && !is_whitespace(s[k])
                invariant
                    j <= k <= n,
                    n == s@.len(),
                    forall|m: int| j <= m < k ==> !is_ws(#[trigger] s@[m]),
                    w@ == s@.subrange(j as int, k as int),
                decreases n - k,
            {
                w.push(s[k]);
                proof {
                    assert(w@ =~= s@.subrange(j as int, k as int + 1));
                }
                k = k + 1;
            }
            proof {
                lemma_words_step(s@, i as int, j as int, k as int);
                assert(spec_out + words(s@.subrange(i as int, n as int)) =~= spec_out.push(w@)
                    + words(s@.subrange(k as int, n as int)));
                spec_out = spec_out.push(w@);
            }
            out.push(w);
            i = k;
        }
    }
    assert(s@.subrange(n as int, n as int) =~= Seq::<char>::empty());
    assert(trim_start(Seq::<char>::empty()) =~= Seq::<char>::empty());
    assert(spec_out + Seq::<Seq<char>>::empty() =~= spec_out);
    out
}

/// `s` with leading and trailing whitespace removed.
pub fn trim_str(s: &str) -> (r: String)
    ensures
        r@ == trim(s@),
{
    let v = chars_of(s);
    let n = v.len();
    let mut i: usize = 0;
    while i < n && is_whitespace(v[i])
        invariant
            i <= n,
            n == v@.len(),
            forall|m: int| 0 <= m < i ==> is_ws(#[trigger] v@[m]),
        decreases n - i,
    {
        i = i + 1;
    }
    proof {
        assert(v@.subrange(0, n as int) =~= v@);
        lemma_trim_start_skip(v@, 0, i as int);
    }
    let mut j = n;
    while j > i && is_whitespace(v[j - 1])
        invariant
            i <= j <= n,
            n == v@.len(),
            trim(v@) == trim_end(v@.subrange(i as int, j as int)),
        decreases j,
    {
        proof {
            let t = v@.subrange(i as int, j as int);
            assert(t.drop_last() =~= v@.subrange(i as int, j - 1));
        }
        j = j - 1;
    }
    let out = string_of(vstd::slice::slice_subrange(v.as_slice(), i, j));
    out
}

} // verus!

verus! {

/// The ASCII digit for `d < 10`.
pub open spec fn digit_char(d: nat) -> char {
    ((d + 48) as u8) as char
}

/// Decimal digits of `n`, most significant first, without leading zeros.
pub open spec fn dec_digits(n: nat) -> Seq<char>
    decreases n,
{
    if n < 10 {
        seq![digit_char(n)]
    } else {
        dec_digits(n / 10).push(digit_char(n % 10))
    }
}

/// The number that a string of ASCII digits spells.
pub open spec fn digits_value(s: Seq<char>) -> int
    decreases s.len(),
{
    if s.len() == 0 {
        0
    } else {
        digits_value(s.drop_last()) * 10 + (s.last() as int - 48)
    }
}

pub open spec fn is_digit(c: char) -> bool {
    '0' <= c && c <= '9'
}

proof fn lemma_digit_char(d: nat)
    requires
        d < 10,
    ensures
        digit_char(d) as int == d + 48,
        is_digit(digit_char(d)),
{
    let b = (d + 48) as u8;
    assert(b as int == d + 48);
    assert((b as char) as int == b as int);
}

pub proof fn lemma_dec_digits(n: nat)
    ensures
        dec_digits(n).len() >= 1,
        forall|i: int| 0 <= i < dec_digits(n).len() ==> is_digit(#[trigger] dec_digits(n)[i]),
        digits_value(dec_digits(n)) == n,
    decreases n,
{
    if n >= 10 {
        lemma_dec_digits(n / 10);
        assert(dec_digits(n).drop_last() =~= dec_digits(n / 10));
        lemma_digit_char((n % 10) as nat);
        let s = dec_digits(n);
        assert(s.last() == digit_char((n % 10) as nat));
        assert(digits_value(s) == digits_value(s.drop_last()) * 10 + (s.last() as int - 48));
        assert(n == (n / 10) * 10 + n % 10);
    } else {
        lemma_digit_char(n);
        let s = seq![digit_char(n)];
        assert(s.drop_last() =~= Seq::<char>::empty());
        assert(digits_value(s.drop_last()) == 0);
        assert(digits_value(s) == digits_value(s.drop_last()) * 10 + (s.last() as int - 48));
    }
}

/// Different numbers have different decimal texts.
pub proof fn lemma_dec_digits_injective(a: nat, b: nat)
    ensures
        dec_digits(a) == dec_digits(b) ==> a == b,
{
    lemma_dec_digits(a);
    lemma_dec_digits(b);
}

/// The decimal digits of `n`, most significant first.
pub fn decimal_digits(n: u128) -> (r: Vec<char>)
    ensures
        r@ == dec_digits(n as nat),
{
    let mut acc: Vec<char> = Vec::new();
    let mut rem: u128 = n;
    while rem >= 10
        invariant
            rem >= 1 || n == 0,
            rem <= n,
            dec_digits(n as nat) == dec_digits(rem as nat) + acc@,
        decreases rem,
    {
        let d = (rem % 10) as u8;
        proof {
            assert(dec_digits(rem as nat) == dec_digits((rem / 10) as nat).push(digit_char((rem % 10) as nat)));
            assert(dec_digits((rem / 10) as nat).push(digit_char((rem % 10) as nat)) + acc@
                =~= dec_digits((rem / 10) as nat) + seq![digit_char((rem % 10) as nat)].add(acc@));
        }
        acc.insert(0, (d + 48) as char);
        rem = rem / 10;
    }
    let d = rem as u8;
    let ghost before = acc@;
    acc.insert(0, (d + 48) as char);
    assert(acc@ =~= dec_digits(rem as nat) + before);
    acc
}

} // verus!

verus! {

/// Whether two strings hold the same characters.
pub fn str_equals(a: &str, b: &str) -> (r: bool)
    ensures
        r == (a@ == b@),
{
    let va = chars_of(a);
    let vb = chars_of(b);
    chars_equal(&va, &vb)
}

/// Whether two character vectors are equal.
pub fn chars_equal(va: &Vec<char>, vb: &Vec<char>) -> (r: bool)
    ensures
        r == (va@ == vb@),
{
    if va.len() != vb.len() {
        return false;
    }
    let mut i: usize = 0;
    while i < va.len()
        invariant
            i <= va@.len(),
            va@.len() == vb@.len(),
            va@.subrange(0, i as int) == vb@.subrange(0, i as int),
        decreases va@.len() - i,
    {
        if va[i] != vb[i] {
            assert(va@[i as int] != vb@[i as int]);
            assert(va@ != vb@);
            return false;
        }
        i = i + 1;
        assert(va@.subrange(0, i as int) =~= va@.subrange(0, i as int - 1).push(va@[i as int - 1]));
        assert(vb@.subrange(0, i as int) =~= vb@.subrange(0, i as int - 1).push(vb@[i as int - 1]));
    }
    assert(va@ =~= va@.subrange(0, i as int));
    assert(vb@ =~= vb@.subrange(0, i as int));
    true
}

/// Whether `needle` occurs in `hay` starting at position `i`.
fn matches_at(hay: &Vec<char>, needle: &Vec<char>, i: usize) -> (r: bool)
    requires
        i + needle@.len() <= hay@.len(),
    ensures
        r == (hay@.subrange(i as int, i + needle@.len()) == needle@),
{
    let n = needle.len();
    let hl = hay.len();
    let mut j: usize = 0;
    while j < n
        invariant
            n == needle@.len(),
            hl == hay@.len(),
            i + n <= hay@.len(),
            j <= n,
            forall|m: int| 0 <= m < j ==> hay@[i + m] == needle@[m],
        decreases n - j,
    {
        if hay[i + j] != needle[j] {
            assert(hay@.subrange(i as int, i + n)[j as int] != needle@[j as int]);
            return false;
        }
        j = j + 1;
    }
    assert(hay@.subrange(i as int, i + n) =~= needle@);
    true
}

/// Whether `needle` occurs in `hay`.
pub fn contains_chars(hay: &Vec<char>, needle: &Vec<char>) -> (r: bool)
    ensures
        r == contains(hay@, needle@),
{
    if needle.len() > hay.len() {
        return false;
    }
    let n = needle.len();
    let limit = hay.len() - n;
    let mut i: usize = 0;
    loop
        invariant
            n == needle@.len(),
            limit == hay@.len() - n,
            i <= limit,
            forall|k: int| 0 <= k < i ==> #[trigger] hay@.subrange(k, k + n) != needle@,
        ensures
            forall|k: int| 0 <= k <= limit ==> #[trigger] hay@.subrange(k, k + n) != needle@,
        decreases limit - i,
    {
        if matches_at(hay, needle, i) {
            return true;
        }
        if i == limit {
            break;
        }
        i = i + 1;
    }
    false
}

} // verus!

verus! {

/// `s` left-padded with zeros to at least `w` characters.
pub open spec fn pad_zeros(s: Seq<char>, w: nat) -> Seq<char> {
    if s.len() >= w {
        s
    } else {
        Seq::new((w - s.len()) as nat, |i: int| '0') + s
    }
}

/// The decimal digits of `n`, left-padded with zeros to at least `w` characters.
pub fn padded_digits(n: u128, w: usize) -> (r: Vec<char>)
    ensures
        r@ == pad_zeros(dec_digits(n as nat), w as nat),
{
    let digits = decimal_digits(n);
    proof {
        lemma_dec_digits(n as nat);
    }
    let mut d: Vec<char> = Vec::new();
    let mut k: usize = digits.len();
    while k < w
        invariant
            digits.len() <= k,
            k <= w || k == digits.len(),
            d@ == Seq::new((k - digits.len()) as nat, |i: int| '0'),
        decreases w - k,
    {
        d.push('0');
        k = k + 1;
        assert(d@ =~= Seq::new((k - digits.len()) as nat, |i: int| '0'));
    }
    let mut i: usize = 0;
    let ghost zeros = d@;
    while i < digits.len()
        invariant
            i <= digits.len(),
            d@ == zeros + digits@.subrange(0, i as int),
        decreases digits.len() - i,
    {
        d.push(digits[i]);
        i = i + 1;
        assert(d@ =~= zeros + digits@.subrange(0, i as int));
    }
    assert(digits@.subrange(0, digits@.len() as int) =~= digits@);
    assert(d@ =~= pad_zeros(dec_digits(n as nat), w as nat));
    d
}

} // verus!
