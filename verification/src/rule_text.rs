//! The text form of a set of neighbour counts: `4,6-9,12`.
//!
//! A text is either empty, for the empty set, or a list of tokens with a comma between
//! each two. A token is a count, or two counts with the range sign `-` or `..` between
//! them for every count from the first to the second. A count is a decimal number up to
//! 26, which may have a `+` before it and white space around it.

use vstd::prelude::*;

verus! {

/// Whether `c` is white space (the Unicode property `White_Space`).
pub open spec fn is_space(c: char) -> bool {
    let u = c as u32;
    ||| 0x09 <= u <= 0x0D
    ||| u == 0x20
    ||| u == 0x85
    ||| u == 0xA0
    ||| u == 0x1680
    ||| 0x2000 <= u <= 0x200A
    ||| u == 0x2028
    ||| u == 0x2029
    ||| u == 0x202F
    ||| u == 0x205F
    ||| u == 0x3000
}

/// Whether `c` is one of the digits `0` to `9`.
pub open spec fn is_digit(c: char) -> bool {
    0x30 <= c as u32 <= 0x39
}

/// The digit that stands for `d`.
pub open spec fn digit_char(d: nat) -> char
    recommends
        d < 10,
{
    (0x30 + d) as char
}

/// `s` without the white space at its start.
pub open spec fn trim_start(s: Seq<char>) -> Seq<char>
    decreases s.len(),
{
    if s.len() > 0 && is_space(s.first()) {
        trim_start(s.drop_first())
    } else {
        s
    }
}

/// `s` without the white space at its end.
pub open spec fn trim_end(s: Seq<char>) -> Seq<char>
    decreases s.len(),
{
    if s.len() > 0 && is_space(s.last()) {
        trim_end(s.drop_last())
    } else {
        s
    }
}

/// `s` without the white space at its start and at its end.
pub open spec fn trim(s: Seq<char>) -> Seq<char> {
    trim_end(trim_start(s))
}

/// Whether `s` consists of digits, at least one.
pub open spec fn is_decimal(s: Seq<char>) -> bool {
    s.len() > 0 && forall|i: int| 0 <= i < s.len() ==> is_digit(#[trigger] s[i])
}

/// The number that the digits `s` stand for.
pub open spec fn decimal_value(s: Seq<char>) -> nat
    decreases s.len(),
{
    if s.len() == 0 {
        0
    } else {
        10 * decimal_value(s.drop_last()) + (s.last() as u32 - 0x30) as nat
    }
}

/// The digits of `n`, without leading zeros.
pub open spec fn decimal(n: nat) -> Seq<char>
    decreases n,
{
    if n < 10 {
        seq![digit_char(n)]
    } else {
        decimal(n / 10).push(digit_char(n % 10))
    }
}

/// The number that `s` stands for: digits, with or without a `+` before them.
pub open spec fn number(s: Seq<char>) -> Option<nat> {
    let digits = if s.len() > 0 && s.first() == '+' {
        s.drop_first()
    } else {
        s
    };
    if is_decimal(digits) {
        Some(decimal_value(digits))
    } else {
        None
    }
}

/// The neighbour count that `s` stands for: a number up to 26 with or without white
/// space around it.
pub open spec fn count(s: Seq<char>) -> Option<nat> {
    match number(trim(s)) {
        Some(n) => if n <= 26 {
            Some(n)
        } else {
            None
        },
        None => None,
    }
}

/// The place of the first `c` in `s`, or the length of `s` if there is none.
pub open spec fn first_index(s: Seq<char>, c: char) -> int
    decreases s.len(),
{
    if s.len() == 0 || s.first() == c {
        0
    } else {
        1 + first_index(s.drop_first(), c)
    }
}

/// The first `c` is found within `s` or at its end.
pub proof fn lemma_first_index_bounds(s: Seq<char>, c: char)
    ensures
        0 <= first_index(s, c) <= s.len(),
    decreases s.len(),
{
    if s.len() > 0 && s.first() != c {
        lemma_first_index_bounds(s.drop_first(), c);
    }
}

/// If no `c` stands before the place `k` of `s`, and one stands there or `s` ends there,
/// then `k` is the place of the first `c`.
pub proof fn lemma_first_index_is(s: Seq<char>, c: char, k: int)
    requires
        0 <= k <= s.len(),
        forall|i: int| 0 <= i < k ==> s[i] != c,
        k == s.len() || s[k] == c,
    ensures
        first_index(s, c) == k,
    decreases k,
{
    if k > 0 {
        let rest = s.drop_first();
        assert forall|i: int| 0 <= i < k - 1 implies rest[i] != c by {
            assert(rest[i] == s[i + 1]);
        }
        lemma_first_index_is(rest, c, k - 1);
    }
}

/// The length of the range sign at the place `i` of `s`: 1 for `-`, 2 for `..`, and 0
/// where neither stands.
pub open spec fn sign_at(s: Seq<char>, i: int) -> int {
    if 0 <= i < s.len() && s[i] == '-' {
        1
    } else if 0 <= i && i + 1 < s.len() && s[i] == '.' && s[i + 1] == '.' {
        2
    } else {
        0
    }
}

/// The place of the first range sign in `s`, or the length of `s` if there is none.
pub open spec fn first_sign(s: Seq<char>) -> int
    decreases s.len(),
{
    if s.len() == 0 || sign_at(s, 0) > 0 {
        0
    } else {
        1 + first_sign(s.drop_first())
    }
}

/// If no range sign stands before the place `k` of `s`, and one stands there or `s` ends
/// there, then `k` is the place of the first range sign.
pub proof fn lemma_first_sign_is(s: Seq<char>, k: int)
    requires
        0 <= k <= s.len(),
        forall|i: int| 0 <= i < k ==> sign_at(s, i) == 0,
        k == s.len() || sign_at(s, k) > 0,
    ensures
        first_sign(s) == k,
    decreases k,
{
    if k > 0 {
        let rest = s.drop_first();
        assert(sign_at(s, 0) == 0);
        assert forall|i: int| 0 <= i < k - 1 implies sign_at(rest, i) == 0 by {
            assert(sign_at(s, i + 1) == 0);
        }
        if k < s.len() {
            assert(sign_at(rest, k - 1) == sign_at(s, k));
        }
        lemma_first_sign_is(rest, k - 1);
    }
}

/// The first and the last count that the token `t` stands for.
///
/// A token with a range sign is split at its first range sign into two counts, of which
/// the first must not be greater than the second. A token without is one count.
pub open spec fn token(t: Seq<char>) -> Option<(nat, nat)> {
    let sign = first_sign(t);
    if sign < t.len() {
        match (
            count(t.subrange(0, sign)),
            count(t.subrange(sign + sign_at(t, sign), t.len() as int)),
        ) {
            (Some(first), Some(last)) => if first <= last {
                Some((first, last))
            } else {
                None
            },
            _ => None,
        }
    } else {
        match count(t) {
            Some(n) => Some((n, n)),
            None => None,
        }
    }
}

/// The counts from `first` to `last`.
pub open spec fn span(first: nat, last: nat) -> Set<nat> {
    Set::new(|n: nat| first <= n <= last)
}

/// The counts that a list of tokens stands for, if every token is well formed.
pub open spec fn tokens(s: Seq<char>) -> Option<Set<nat>>
    decreases s.len(),
{
    let comma = first_index(s, ',');
    if comma < s.len() {
        proof {
            lemma_first_index_bounds(s, ',');
        }
        match (token(s.subrange(0, comma)), tokens(s.subrange(comma + 1, s.len() as int))) {
            (Some((first, last)), Some(rest)) => Some(span(first, last) + rest),
            _ => None,
        }
    } else {
        match token(s) {
            Some((first, last)) => Some(span(first, last)),
            None => None,
        }
    }
}

/// The set of neighbour counts that the text `s` stands for, if `s` is well formed.
pub open spec fn parse(s: Seq<char>) -> Option<Set<nat>> {
    if s.len() == 0 {
        Some(Set::empty())
    } else {
        tokens(s)
    }
}

/// The last count of the run of consecutive counts of `set` that holds `first`.
pub open spec fn run_end(set: Set<nat>, first: nat) -> nat
    decreases 26 - first,
{
    if first < 26 && set.contains(first + 1) {
        run_end(set, first + 1)
    } else {
        first
    }
}

/// A run ends at or after its first count, and at 26 at the latest.
pub proof fn lemma_run_end_bounds(set: Set<nat>, first: nat)
    ensures
        first <= run_end(set, first),
        first <= 26 ==> run_end(set, first) <= 26,
    decreases 26 - first,
{
    if first < 26 && set.contains(first + 1) {
        lemma_run_end_bounds(set, first + 1);
    }
}

/// The token for the counts from `first` to `last`.
pub open spec fn render_token(first: nat, last: nat) -> Seq<char> {
    if first == last {
        decimal(first)
    } else {
        decimal(first) + seq!['-'] + decimal(last)
    }
}

/// The tokens for the counts of `set` from `from` on, in rising order, one token for
/// each run of consecutive counts. With `lead`, a comma stands before each token;
/// without, only between two tokens.
pub open spec fn render_from(set: Set<nat>, from: nat, lead: bool) -> Seq<char>
    decreases 27 - from,
{
    if from > 26 {
        Seq::empty()
    } else if !set.contains(from) {
        render_from(set, from + 1, lead)
    } else {
        let last = run_end(set, from);
        proof {
            lemma_run_end_bounds(set, from);
        }
        let comma = if lead {
            seq![',']
        } else {
            Seq::empty()
        };
        comma + render_token(from, last) + render_from(set, last + 1, true)
    }
}

/// The text of `set`: its runs of consecutive counts in rising order, with a comma
/// between each two.
pub open spec fn render(set: Set<nat>) -> Seq<char> {
    render_from(set, 0, false)
}

} // verus!
