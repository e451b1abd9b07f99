//! Reads a set of neighbour counts from text.

use vstd::prelude::*;
use crate::rule::Value;
use crate::rule_text::{
    count, decimal_value, first_index, first_sign, is_decimal, is_digit, is_space,
    lemma_first_index_is, lemma_first_sign_is, number, parse, sign_at, span, token, tokens,
    trim, trim_end, trim_start,
};

verus! {

/// The characters of `s`.
fn chars_of(s: &str) -> (chars: Vec<char>)
    ensures
        chars@ == s@,
{
    let mut chars: Vec<char> = Vec::new();
    for c in it: s.chars()
        invariant
            chars@ == it.seq().take(it.index() as int),
            it.seq() == s@,
    {
        chars.push(c);
    }
    chars
}

/// Whether `c` is white space.
fn is_white_space(c: char) -> (space: bool)
    ensures
        space == is_space(c),
{
    let u = c as u32;
    (0x09 <= u && u <= 0x0D) || u == 0x20 || u == 0x85 || u == 0xA0 || u == 0x1680 || (0x2000 <= u
        && u <= 0x200A) || u == 0x2028 || u == 0x2029 || u == 0x202F || u == 0x205F || u == 0x3000
}

/// The place of the first `c` among the characters from `from` up to `to`, or `to` if
/// there is none.
fn find(chars: &Vec<char>, from: usize, to: usize, c: char) -> (at: usize)
    requires
        from <= to <= chars.len(),
    ensures
        from <= at <= to,
        at - from == first_index(chars@.subrange(from as int, to as int), c),
{
    let mut at = from;
    while at < to && chars[at] != c
        invariant
            from <= at <= to <= chars.len(),
            forall|i: int| from <= i < at ==> chars[i] != c,
        decreases to - at,
    {
        at += 1;
    }
    proof {
        lemma_first_index_is(chars@.subrange(from as int, to as int), c, at - from);
    }
    at
}

/// The length of the range sign at the place `at` among the characters from `from` up
/// to `to`, or 0 if none stands there.
fn sign_width(chars: &Vec<char>, from: usize, to: usize, at: usize) -> (width: usize)
    requires
        from <= at <= to <= chars.len(),
    ensures
        width == sign_at(chars@.subrange(from as int, to as int), at - from),
{
    if at < to && chars[at] == '-' {
        1
    } else if at < to && to - at > 1 && chars[at] == '.' && chars[at + 1] == '.' {
        2
    } else {
        0
    }
}

/// The place of the first range sign among the characters from `from` up to `to`, and
/// the place after that sign; twice `to` if there is none.
fn find_sign(chars: &Vec<char>, from: usize, to: usize) -> (found: (usize, usize))
    requires
        from <= to <= chars.len(),
    ensures
        from <= found.0 <= found.1 <= to,
        found.0 - from == first_sign(chars@.subrange(from as int, to as int)),
        found.1 - found.0 == sign_at(chars@.subrange(from as int, to as int), found.0 - from),
{
    let ghost t = chars@.subrange(from as int, to as int);
    let mut at = from;
    let mut width = sign_width(chars, from, to, at);
    while at < to && width == 0
        invariant
            from <= at <= to <= chars.len(),
            t == chars@.subrange(from as int, to as int),
            width == sign_at(t, at - from),
            forall|i: int| 0 <= i < at - from ==> sign_at(t, i) == 0,
        decreases to - at,
    {
        at += 1;
        width = sign_width(chars, from, to, at);
    }
    proof {
        lemma_first_sign_is(t, at - from);
    }
    (at, at + width)
}

/// The neighbour count that the characters from `from` up to `to` stand for.
fn parse_count(chars: &Vec<char>, from: usize, to: usize) -> (found: Option<usize>)
    requires
        from <= to <= chars.len(),
    ensures
        match found {
            Some(n) => count(chars@.subrange(from as int, to as int)) == Some(n as nat),
            None => count(chars@.subrange(from as int, to as int)) is None,
        },
{
    let ghost whole = chars@.subrange(from as int, to as int);
    let mut a = from;
    while a < to && is_white_space(chars[a])
        invariant
            from <= a <= to <= chars.len(),
            trim_start(chars@.subrange(from as int, to as int)) == trim_start(
                chars@.subrange(a as int, to as int),
            ),
        decreases to - a,
    {
        assert(chars@.subrange(a as int, to as int).drop_first() =~= chars@.subrange(
            a + 1,
            to as int,
        ));
        a += 1;
    }
    let mut b = to;
    while b > a && is_white_space(chars[b - 1])
        invariant
            a <= b <= to <= chars.len(),
            trim_end(chars@.subrange(a as int, to as int)) == trim_end(
                chars@.subrange(a as int, b as int),
            ),
        decreases b - a,
    {
        assert(chars@.subrange(a as int, b as int).drop_last() =~= chars@.subrange(
            a as int,
            b - 1,
        ));
        b -= 1;
    }
    assert(trim(whole) == chars@.subrange(a as int, b as int));
    let start = if a < b && chars[a] == '+' {
        a + 1
    } else {
        a
    };
    let ghost digits = chars@.subrange(start as int, b as int);
    assert(number(trim(whole)) == if is_decimal(digits) {
        Some(decimal_value(digits))
    } else {
        None
    }) by {
        if start == a + 1 {
            assert(chars@.subrange(a as int, b as int).drop_first() =~= digits);
        }
    }
    if start == b {
        return None;
    }
    let mut value: usize = 0;
    let mut i = start;
    while i < b
        invariant
            start <= i <= b <= chars.len(),
            digits == chars@.subrange(start as int, b as int),
            whole == chars@.subrange(from as int, to as int),
            number(trim(whole)) == if is_decimal(digits) {
                Some(decimal_value(digits))
            } else {
                None
            },
            forall|j: int| start <= j < i ==> is_digit(chars[j]),
            value <= 27,
            value == if decimal_value(chars@.subrange(start as int, i as int)) < 27 {
                decimal_value(chars@.subrange(start as int, i as int))
            } else {
                27
            },
        decreases b - i,
    {
        let u = chars[i] as u32;
        if u < 0x30 || u > 0x39 {
            assert(!is_digit(digits[i - start]));
            return None;
        }
        assert(chars@.subrange(start as int, i + 1).drop_last() =~= chars@.subrange(
            start as int,
            i as int,
        ));
        let next = value * 10 + (u - 0x30) as usize;
        value = if next < 27 {
            next
        } else {
            27
        };
        i += 1;
    }
    assert(is_decimal(digits));
    assert(chars@.subrange(start as int, i as int) == digits);
    if value <= 26 {
        Some(value)
    } else {
        None
    }
}

/// The first and the last count that the token from `from` up to `to` stands for.
fn parse_token(chars: &Vec<char>, from: usize, to: usize) -> (found: Option<(usize, usize)>)
    requires
        from <= to <= chars.len(),
    ensures
        match found {
            Some((first, last)) => token(chars@.subrange(from as int, to as int)) == Some(
                (first as nat, last as nat),
            ),
            None => token(chars@.subrange(from as int, to as int)) is None,
        },
{
    let ghost t = chars@.subrange(from as int, to as int);
    let (sign, after) = find_sign(chars, from, to);
    if sign < to {
        assert(t.subrange(0, sign - from) =~= chars@.subrange(from as int, sign as int));
        assert(t.subrange(after - from, t.len() as int) =~= chars@.subrange(after as int, to as int));
        match (parse_count(chars, from, sign), parse_count(chars, after, to)) {
            (Some(first), Some(last)) => if first <= last {
                Some((first, last))
            } else {
                None
            },
            _ => None,
        }
    } else {
        match parse_count(chars, from, to) {
            Some(n) => Some((n, n)),
            None => None,
        }
    }
}

/// Adds the counts from `first` to `last` to `value`.
fn select(value: &mut Value, first: usize, last: usize)
    requires
        first <= last <= 26,
    ensures
        final(value).selected() == old(value).selected() + span(first as nat, last as nat),
{
    let mut n = first;
    proof {
        value.lemma_slots();
    }
    while n <= last
        invariant
            first <= n <= last + 1,
            last <= 26,
            value@.len() == 27,
            forall|k: int|
                0 <= k < 27 ==> value@[k] == (old(value)@[k] || first <= 26 - k < n),
        decreases last + 1 - n,
    {
        *value.at_mut(26 - n) = true;
        n += 1;
    }
    assert(final(value).selected() =~= old(value).selected() + span(first as nat, last as nat));
}

/// The counts of `set` together with those of `more`, if there are any.
spec fn joined(set: Set<nat>, more: Option<Set<nat>>) -> Option<Set<nat>> {
    match more {
        Some(more) => Some(set + more),
        None => None,
    }
}

impl Value {
    /// Reads a set of neighbour counts from `s`.
    ///
    /// The empty text gives the empty set. Any other text is a list of tokens with a
    /// comma between each two, and gives the counts of all its tokens: `4,6-9` and
    /// `4,6..9` both give 4, 6, 7, 8 and 9. A text with a token that is not well formed,
    /// with a count above 26 or with a range that falls gives nothing.
    pub fn try_parse(s: &str) -> (parsed: Option<Value>)
        ensures
            match parsed {
                Some(value) => parse(s@) == Some(value.selected()),
                None => parse(s@) is None,
            },
    {
        let chars = chars_of(s);
        let n = chars.len();
        let mut res = Value::default();
        proof {
            res.lemma_slots();
            assert(res.selected() =~= Set::<nat>::empty());
        }
        if n == 0 {
            return Some(res);
        }
        let mut start: usize = 0;
        assert(chars@.subrange(0, n as int) =~= chars@);
        assert(Set::<nat>::empty() + tokens(chars@)->0 =~= tokens(chars@)->0);
        loop
            invariant
                start <= n == chars.len(),
                chars@ == s@,
                n > 0,
                tokens(s@) == joined(res.selected(), tokens(chars@.subrange(start as int, n as int))),
            decreases n - start,
        {
            let ghost rest = chars@.subrange(start as int, n as int);
            let ghost before = res.selected();
            let end = find(&chars, start, n, ',');
            assert(rest.subrange(0, end - start) =~= chars@.subrange(start as int, end as int));
            let (first, last) = match parse_token(&chars, start, end) {
                None => {
                    assert(rest.subrange(0, rest.len() as int) =~= rest);
                    return None;
                },
                Some(found) => found,
            };
            select(&mut res, first, last);
            if end == n {
                assert(rest.subrange(0, rest.len() as int) =~= rest);
                return Some(res);
            }
            proof {
                let after = chars@.subrange(end + 1, n as int);
                assert(rest.subrange(end - start + 1, rest.len() as int) =~= after);
                if tokens(after) is Some {
                    assert(before + (span(first as nat, last as nat) + tokens(after)->0) =~= res.selected()
                        + tokens(after)->0);
                }
            }
            start = end + 1;
        }
    }
}

} // verus!
