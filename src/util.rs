//! Small helpers for list navigation and text display.
use vstd::prelude::*;
use crate::text::{chars_of, string_of};
use vstd::string::StringSliceAdditionalSpecFns;

verus! {

/// `s` cut to at most `max` characters, ending in `…` when anything was cut.
pub open spec fn truncate_spec(s: Seq<char>, max: nat) -> Seq<char> {
    if max == 0 {
        Seq::empty()
    } else if s.len() <= max {
        s
    } else {
        s.subrange(0, max - 1).push('…')
    }
}

/// Shorten `s` to at most `max` characters, marking the cut with `…`.
pub fn truncate(s: &str, max: usize) -> (r: String)
    ensures
        r@ == truncate_spec(s@, max as nat),
        r@.len() <= max,
{
    if max == 0 {
        return String::new();
    }
    let v = chars_of(s);
    if v.len() <= max {
        return s.to_owned();
    }
    let mut out: Vec<char> = Vec::new();
    let mut i: usize = 0;
    while i < max - 1
        invariant
            i <= max - 1,
            max - 1 < v@.len(),
            out@ == v@.subrange(0, i as int),
        decreases max - 1 - i,
    {
        out.push(v[i]);
        i = i + 1;
        assert(out@ =~= v@.subrange(0, i as int));
    }
    out.push('…');
    string_of(out.as_slice())
}

/// Move a list cursor down by one, scrolling so that it stays within a page.
pub fn scroll_down(index: &mut usize, scroll: &mut usize, len: usize, page: usize)
    requires
        page >= 1,
        *old(scroll) + page <= usize::MAX,
    ensures
        *final(index) == (if *old(index) + 1 < len {
            *old(index) + 1
        } else {
            *old(index) as int
        }),
        *final(scroll) == (if *old(index) + 1 < len && *old(index) + 1 >= *old(scroll) + page {
            *old(index) + 1 - (page - 1)
        } else {
            *old(scroll) as int
        }),
{
    if *index < len && *index + 1 < len {
        *index = *index + 1;
        if *index >= *scroll + page {
            *scroll = *index - (page - 1);
        }
    }
}

/// Move a list cursor up by one, scrolling up to keep it visible.
pub fn scroll_up(index: &mut usize, scroll: &mut usize)
    ensures
        *final(index) == (if *old(index) > 0 {
            *old(index) - 1
        } else {
            0int
        }),
        *final(scroll) == (if *final(index) < *old(scroll) {
            *final(index)
        } else {
            *old(scroll)
        }),
{
    if *index > 0 {
        *index = *index - 1;
    }
    if *index < *scroll {
        *scroll = *index;
    }
}

/// Jump to the top of a list.
pub fn scroll_to_top(index: &mut usize, scroll: &mut usize)
    ensures
        *final(index) == 0,
        *final(scroll) == 0,
{
    *index = 0;
    *scroll = 0;
}

/// Jump to the last item of a list, showing it on the last line of the page.
pub fn scroll_to_bottom(index: &mut usize, scroll: &mut usize, len: usize, page: usize)
    ensures
        len > 0 ==> *final(index) == len - 1,
        len > 0 ==> *final(scroll) == (if page > 0 && len - 1 > page - 1 {
            len - 1 - (page - 1)
        } else if page == 0 {
            len - 1
        } else {
            0int
        }),
        len == 0 ==> *final(index) == *old(index) && *final(scroll) == *old(scroll),
{
    if len > 0 {
        *index = len - 1;
        let keep: usize = if page > 0 {
            page - 1
        } else {
            0
        };
        *scroll = if *index > keep {
            *index - keep
        } else {
            0
        };
    }
}

/// `val + delta`, held within `0..=max`.
pub fn adjust_usize(val: usize, delta: i32, max: usize) -> (r: usize)
    requires
        val <= i32::MAX,
    ensures
        r == (if val + delta < 0 {
            0int
        } else if val + delta > max {
            max as int
        } else {
            val + delta
        }),
{
    let new_val: i64 = val as i64 + delta as i64;
    if new_val < 0 {
        0
    } else if new_val as usize > max {
        max
    } else {
        new_val as usize
    }
}

/// Move an optional column choice by `delta`: below zero it becomes unset, and an
/// unset choice becomes column 0 when moved forward.
pub fn adjust_optional(val: Option<usize>, delta: i32, max: usize) -> (r: Option<usize>)
    requires
        val matches Some(c) ==> c <= i32::MAX,
    ensures
        r == (match val {
            Some(c) => if c + delta < 0 {
                None
            } else if c + delta > max {
                Some(max)
            } else {
                Some((c + delta) as usize)
            },
            None => if delta > 0 {
                Some(0usize)
            } else {
                None
            },
        }),
{
    match val {
        Some(col) => {
            let new_val: i64 = col as i64 + delta as i64;
            if new_val < 0 {
                None
            } else if new_val as usize > max {
                Some(max)
            } else {
                Some(new_val as usize)
            }
        },
        None => {
            if delta > 0 {
                Some(0)
            } else {
                None
            }
        },
    }
}

} // verus!

verus! {

pub open spec fn min3(x: int, y: int, z: int) -> int {
    let m = if x < y {
        x
    } else {
        y
    };
    if m < z {
        m
    } else {
        z
    }
}

/// The edit distance between the first `i` bytes of `a` and the first `j` bytes of
/// `b`: insertions, deletions and substitutions each cost one.
pub open spec fn edit_distance(a: Seq<u8>, b: Seq<u8>, i: nat, j: nat) -> nat
    decreases i + j,
{
    if i == 0 {
        j
    } else if j == 0 {
        i
    } else {
        min3(
            edit_distance(a, b, (i - 1) as nat, j) as int + 1,
            edit_distance(a, b, i, (j - 1) as nat) as int + 1,
            edit_distance(a, b, (i - 1) as nat, (j - 1) as nat) as int + if a[i - 1] == b[j - 1] {
                0int
            } else {
                1int
            },
        ) as nat
    }
}

proof fn lemma_edit_distance_bound(a: Seq<u8>, b: Seq<u8>, i: nat, j: nat)
    ensures
        edit_distance(a, b, i, j) <= if i > j {
            i
        } else {
            j
        },
    decreases i + j,
{
    if i > 0 && j > 0 {
        lemma_edit_distance_bound(a, b, (i - 1) as nat, (j - 1) as nat);
    }
}

/// The byte-wise Levenshtein distance between two strings.
pub fn levenshtein(a: &str, b: &str) -> (r: usize)
    requires
        a.spec_bytes().len() < usize::MAX,
        b.spec_bytes().len() < usize::MAX,
    ensures
        r == edit_distance(a.spec_bytes(), b.spec_bytes(), a.spec_bytes().len(), b.spec_bytes().len()),
{
    let a = a.as_bytes();
    let b = b.as_bytes();
    let ghost sa = a@;
    let ghost sb = b@;
    let n = b.len();
    let mut prev: Vec<usize> = Vec::new();
    let mut j: usize = 0;
    while j < n + 1
        invariant
            n == sb.len(),
            n < usize::MAX,
            j <= n + 1,
            prev@.len() == j,
            forall|k: int| 0 <= k < j ==> #[trigger] prev@[k] == edit_distance(sa, sb, 0, k as nat),
        decreases n + 1 - j,
    {
        prev.push(j);
        j = j + 1;
    }
    let m = a.len();
    let mut i: usize = 1;
    while i <= m
        invariant
            n == sb.len(),
            m == sa.len(),
            a@ == sa,
            b@ == sb,
            m < usize::MAX,
            n < usize::MAX,
            1 <= i <= m + 1,
            prev@.len() == n + 1,
            forall|k: int| 0 <= k <= n ==> #[trigger] prev@[k] == edit_distance(sa, sb, (i - 1) as nat, k as nat),
        decreases m + 1 - i,
    {
        let mut curr: Vec<usize> = Vec::new();
        curr.push(i);
        let mut j: usize = 1;
        while j <= n
            invariant
                n == sb.len(),
                m == sa.len(),
                a@ == sa,
                b@ == sb,
                n < usize::MAX,
                m < usize::MAX,
                1 <= i <= m,
                1 <= j <= n + 1,
                prev@.len() == n + 1,
                curr@.len() == j,
                forall|k: int| 0 <= k <= n ==> #[trigger] prev@[k] == edit_distance(sa, sb, (i - 1) as nat, k as nat),
                forall|k: int| 0 <= k < j ==> #[trigger] curr@[k] == edit_distance(sa, sb, i as nat, k as nat),
            decreases n + 1 - j,
        {
            proof {
                lemma_edit_distance_bound(sa, sb, (i - 1) as nat, j as nat);
                lemma_edit_distance_bound(sa, sb, i as nat, (j - 1) as nat);
                lemma_edit_distance_bound(sa, sb, (i - 1) as nat, (j - 1) as nat);
            }
            let cost: usize = if a[i - 1] == b[j - 1] {
                0
            } else {
                1
            };
            let del = prev[j] + 1;
            let ins = curr[j - 1] + 1;
            let sub = prev[j - 1] + cost;
            let mut best = if del < ins {
                del
            } else {
                ins
            };
            if sub < best {
                best = sub;
            }
            curr.push(best);
            j = j + 1;
        }
        prev = curr;
        i = i + 1;
    }
    prev[n]
}

/// The distance from `input` to candidate `k`.
pub open spec fn dist_to(input: &str, candidates: Seq<&str>, k: int) -> nat {
    edit_distance(input.spec_bytes(), candidates[k].spec_bytes(), input.spec_bytes().len(), candidates[k].spec_bytes().len())
}

/// Candidate `k` may be suggested: it is longer than one byte.
pub open spec fn suggestible(candidates: Seq<&str>, k: int) -> bool {
    candidates[k].spec_bytes().len() > 1
}

/// The closest of the longer `candidates` to `input` by Levenshtein distance (the
/// first such on a tie); one-letter aliases are never suggested. `help` when none is
/// longer than one byte.
pub fn find_closest(input: &str, candidates: &[&str]) -> (r: String)
    requires
        input.spec_bytes().len() < usize::MAX,
        forall|k: int| 0 <= k < candidates@.len() ==> (#[trigger] candidates@[k]).spec_bytes().len() < usize::MAX,
    ensures
        (forall|j: int| 0 <= j < candidates@.len() ==> !#[trigger] suggestible(candidates@, j)) ==> r@ == "help"@,
        (exists|j: int| 0 <= j < candidates@.len() && #[trigger] suggestible(candidates@, j)) ==> exists|k: int|
            0 <= k < candidates@.len() && suggestible(candidates@, k) && r@ == candidates@[k]@
                && (forall|j: int| 0 <= j < candidates@.len() && #[trigger] suggestible(candidates@, j)
                    ==> dist_to(input, candidates@, k) <= dist_to(input, candidates@, j))
                && (forall|j: int| 0 <= j < k && #[trigger] suggestible(candidates@, j)
                    ==> dist_to(input, candidates@, k) < dist_to(input, candidates@, j)),
{
    let mut best: Option<usize> = None;
    let mut best_d: usize = 0;
    let mut i: usize = 0;
    while i < candidates.len()
        invariant
            i <= candidates@.len(),
            input.spec_bytes().len() < usize::MAX,
            forall|k: int| 0 <= k < candidates@.len() ==> (#[trigger] candidates@[k]).spec_bytes().len() < usize::MAX,
            best matches Some(k) ==> k < i && suggestible(candidates@, k as int) && best_d == dist_to(input, candidates@, k as int)
                && (forall|j: int| 0 <= j < i && #[trigger] suggestible(candidates@, j) ==> best_d <= dist_to(input, candidates@, j))
                && (forall|j: int| 0 <= j < k && #[trigger] suggestible(candidates@, j) ==> best_d < dist_to(input, candidates@, j)),
            best is None ==> forall|j: int| 0 <= j < i ==> !#[trigger] suggestible(candidates@, j),
        decreases candidates@.len() - i,
    {
        let c = candidates[i];
        assert(c.spec_bytes().len() < usize::MAX);
        if c.len() > 1 {
            let d = levenshtein(input, c);
            match best {
                Some(_) => {
                    if d < best_d {
                        best = Some(i);
                        best_d = d;
                    }
                },
                None => {
                    best = Some(i);
                    best_d = d;
                },
            }
        }
        i = i + 1;
    }
    match best {
        Some(k) => candidates[k].to_owned(),
        None => "help".to_owned(),
    }
}

} // verus!

verus! {

/// `%`, `_` and `\` escaped with a backslash, so that a SQL `LIKE` pattern matches them literally.
pub open spec fn escape_like_spec(s: Seq<char>) -> Seq<char>
    decreases s.len(),
{
    if s.len() == 0 {
        Seq::empty()
    } else {
        let c = s.last();
        escape_like_spec(s.drop_last()) + if c == '\\' || c == '%' || c == '_' {
            seq!['\\', c]
        } else {
            seq![c]
        }
    }
}

/// Escape the `LIKE` wildcards and the escape character itself.
pub fn escape_like(s: &str) -> (r: String)
    ensures
        r@ == escape_like_spec(s@),
{
    let v = chars_of(s);
    let mut out: Vec<char> = Vec::new();
    let mut i: usize = 0;
    while i < v.len()
        invariant
            i <= v@.len(),
            out@ == escape_like_spec(v@.subrange(0, i as int)),
        decreases v@.len() - i,
    {
        let c = v[i];
        proof {
            assert(v@.subrange(0, i + 1).drop_last() =~= v@.subrange(0, i as int));
        }
        if c == '\\' || c == '%' || c == '_' {
            out.push('\\');
        }
        out.push(c);
        assert(out@ =~= escape_like_spec(v@.subrange(0, i + 1)));
        i = i + 1;
    }
    assert(v@.subrange(0, v@.len() as int) =~= v@);
    string_of(out.as_slice())
}

/// A path with a leading `~/` resolved against the home directory `home`.
pub open spec fn expand_home_spec(path: Seq<char>, home: Seq<char>) -> Seq<char> {
    if path.len() >= 2 && path[0] == '~' && path[1] == '/' {
        home + seq!['/'] + path.subrange(2, path.len() as int)
    } else {
        path
    }
}

/// Resolve a leading `~/` in `path` against the home directory `home`.
pub fn shellexpand(path: &str, home: &str) -> (r: String)
    ensures
        r@ == expand_home_spec(path@, home@),
{
    let v = chars_of(path);
    if v.len() >= 2 && v[0] == '~' && v[1] == '/' {
        let mut out = chars_of(home);
        out.push('/');
        let mut i: usize = 2;
        let ghost prefix = out@;
        while i < v.len()
            invariant
                2 <= i <= v@.len(),
                out@ == prefix + v@.subrange(2, i as int),
            decreases v@.len() - i,
        {
            out.push(v[i]);
            i = i + 1;
            assert(out@ =~= prefix + v@.subrange(2, i as int));
        }
        string_of(out.as_slice())
    } else {
        path.to_owned()
    }
}

/// The one-letter label of the month of a `YYYY-MM` text, read from its sixth and
/// seventh bytes as an unsigned number (a leading `+` allowed); `?` otherwise.
pub open spec fn month_label_spec(b: Seq<u8>) -> Seq<char> {
    let labels = seq!["J"@, "F"@, "M"@, "A"@, "M"@, "J"@, "J"@, "A"@, "S"@, "O"@, "N"@, "D"@];
    if b.len() >= 7 && 48 <= b[6] <= 57 && ((48 <= b[5] <= 57) || b[5] == 43) {
        let v: int = if b[5] == 43 {
            b[6] - 48
        } else {
            (b[5] - 48) * 10 + (b[6] - 48)
        };
        if 1 <= v <= 12 {
            labels[v - 1]
        } else {
            "?"@
        }
    } else {
        "?"@
    }
}

/// The one-letter month label for a `YYYY-MM` month, for chart axes.
pub fn parse_month_label(month_str: &str) -> (r: &'static str)
    ensures
        r@ == month_label_spec(month_str.spec_bytes()),
{
    let b = month_str.as_bytes();
    if b.len() < 7 {
        return "?";
    }
    let b5 = b[5];
    let b6 = b[6];
    if !(48 <= b6 && b6 <= 57) || !((48 <= b5 && b5 <= 57) || b5 == 43) {
        return "?";
    }
    let v: u8 = if b5 == 43 {
        b6 - 48
    } else {
        (b5 - 48) * 10 + (b6 - 48)
    };
    match v {
        1 => "J",
        2 => "F",
        3 => "M",
        4 => "A",
        5 => "M",
        6 => "J",
        7 => "J",
        8 => "A",
        9 => "S",
        10 => "O",
        11 => "N",
        12 => "D",
        _ => "?",
    }
}

} // verus!
