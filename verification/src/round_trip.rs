//! Reading the text of a set of neighbour counts gives the set back.

use vstd::prelude::*;
use crate::rule::Value;
use crate::rule_text::{
    count, decimal, decimal_value, first_index, first_sign, is_decimal, is_digit,
    lemma_first_index_bounds, lemma_first_index_is, lemma_first_sign_is, lemma_run_end_bounds, parse, render,
    render_from, render_token, run_end, sign_at, span, token, tokens, trim, trim_end,
    trim_start,
};

verus! {

/// The counts of `set` from `from` up to 26.
pub open spec fn above(set: Set<nat>, from: nat) -> Set<nat> {
    Set::new(|n: nat| from <= n <= 26 && set.contains(n))
}

/// The digits of a number are digits, at least one, and stand for the number.
pub proof fn lemma_decimal(n: nat)
    ensures
        is_decimal(decimal(n)),
        decimal_value(decimal(n)) == n,
    decreases n,
{
    if n < 10 {
        let s = decimal(n);
        assert(s.drop_last() =~= Seq::<char>::empty());
        assert(decimal_value(s.drop_last()) == 0);
    } else {
        lemma_decimal(n / 10);
        let s = decimal(n);
        assert(s.drop_last() =~= decimal(n / 10));
    }
}

/// The digits of a count, read as a count, give the count.
proof fn lemma_count_of_decimal(n: nat)
    requires
        n <= 26,
    ensures
        count(decimal(n)) == Some(n),
{
    lemma_decimal(n);
    let s = decimal(n);
    assert(is_digit(s.first()));
    assert(is_digit(s.last()));
    assert(trim_start(s) == s);
    assert(trim_end(s) == s);
    assert(trim(s) == s);
}

/// The token for a run, read as a token, gives the run.
proof fn lemma_token_of_render(first: nat, last: nat)
    requires
        first <= last <= 26,
    ensures
        token(render_token(first, last)) == Some((first, last)),
        first_index(render_token(first, last), ',') == render_token(first, last).len(),
        render_token(first, last).len() > 0,
{
    lemma_decimal(first);
    lemma_decimal(last);
    lemma_count_of_decimal(first);
    lemma_count_of_decimal(last);
    let t = render_token(first, last);
    let a = decimal(first);
    let b = decimal(last);
    if first == last {
        assert forall|i: int| 0 <= i < t.len() implies sign_at(t, i) == 0 by {
            assert(is_digit(t[i]));
        }
        lemma_first_sign_is(t, t.len() as int);
        lemma_first_index_is(t, ',', t.len() as int);
    } else {
        assert forall|i: int| 0 <= i < t.len() implies t[i] != ',' by {
            if i < a.len() {
                assert(is_digit(a[i]));
            } else if i > a.len() {
                assert(is_digit(b[i - a.len() - 1]));
            }
        }
        assert forall|i: int| 0 <= i < a.len() implies sign_at(t, i) == 0 by {
            assert(is_digit(a[i]));
        }
        assert(t[a.len() as int] == '-');
        lemma_first_sign_is(t, a.len() as int);
        lemma_first_index_is(t, ',', t.len() as int);
        assert(t.subrange(0, a.len() as int) =~= a);
        assert(t.subrange(a.len() as int + 1, t.len() as int) =~= b);
    }
}

/// Every count of a run is in the set, and the count after the run is not.
pub proof fn lemma_run(set: Set<nat>, first: nat)
    requires
        first <= 26,
        set.contains(first),
    ensures
        forall|n: nat| first <= n <= run_end(set, first) ==> set.contains(n),
        run_end(set, first) < 26 ==> !set.contains(run_end(set, first) + 1),
    decreases 26 - first,
{
    if first < 26 && set.contains(first + 1) {
        lemma_run(set, first + 1);
    }
}

/// With a comma before each token, the text is that without, after a comma, unless
/// there is no token at all.
proof fn lemma_render_lead(set: Set<nat>, from: nat)
    ensures
        render_from(set, from, true) == if above(set, from) == Set::<nat>::empty() {
            Seq::<char>::empty()
        } else {
            seq![','] + render_from(set, from, false)
        },
    decreases 27 - from,
{
    if from > 26 {
        assert(above(set, from) =~= Set::<nat>::empty());
    } else if !set.contains(from) {
        lemma_render_lead(set, from + 1);
        assert(above(set, from) =~= above(set, from + 1));
    } else {
        assert(above(set, from).contains(from));
        let last = run_end(set, from);
        let tail = render_token(from, last) + render_from(set, last + 1, true);
        assert(render_from(set, from, true) =~= seq![','] + tail);
        assert(render_from(set, from, false) =~= tail);
    }
}

/// The text of the counts from `from` on, read as a list of tokens, gives those counts;
/// it is empty if there are none.
proof fn lemma_tokens_of_render(set: Set<nat>, from: nat)
    ensures
        above(set, from) == Set::<nat>::empty() ==> render_from(set, from, false) == Seq::<
            char,
        >::empty(),
        above(set, from) != Set::<nat>::empty() ==> tokens(render_from(set, from, false)) == Some(
            above(set, from),
        ),
    decreases 27 - from,
{
    if from > 26 {
        assert(above(set, from) =~= Set::<nat>::empty());
    } else if !set.contains(from) {
        lemma_tokens_of_render(set, from + 1);
        assert(above(set, from) =~= above(set, from + 1));
    } else {
        assert(above(set, from).contains(from));
        let last = run_end(set, from);
        lemma_run_end_bounds(set, from);
        lemma_run(set, from);
        lemma_token_of_render(from, last);
        lemma_render_lead(set, last + 1);
        let tok = render_token(from, last);
        let rest = render_from(set, last + 1, true);
        let text = render_from(set, from, false);
        assert(text =~= tok + rest);
        if above(set, last + 1) == Set::<nat>::empty() {
            assert(text =~= tok);
            assert(above(set, from) =~= span(from, last)) by {
                assert forall|n: nat| above(set, from).contains(n) implies span(from, last).contains(
                    n,
                ) by {
                    if n > last {
                        assert(above(set, last + 1).contains(n));
                    }
                }
            }
        } else {
            lemma_tokens_of_render(set, last + 1);
            let more = render_from(set, last + 1, false);
            assert(text =~= tok + seq![','] + more);
            assert forall|i: int| 0 <= i < tok.len() implies text[i] != ',' by {
                assert(text[i] == tok[i]);
                if tok[i] == ',' {
                    lemma_first_index_is_not(tok, ',', i);
                }
            }
            lemma_first_index_is(text, ',', tok.len() as int);
            assert(text.subrange(0, tok.len() as int) =~= tok);
            assert(text.subrange(tok.len() as int + 1, text.len() as int) =~= more);
            assert(above(set, from) =~= span(from, last) + above(set, last + 1));
        }
    }
}

/// Where the first `c` is found at the end of `s`, no `c` stands in `s`.
proof fn lemma_first_index_is_not(s: Seq<char>, c: char, i: int)
    requires
        first_index(s, c) == s.len(),
        0 <= i < s.len(),
    ensures
        s[i] != c,
    decreases s.len(),
{
    if s.first() != c {
        lemma_first_index_bounds(s.drop_first(), c);
        if i > 0 {
            lemma_first_index_is_not(s.drop_first(), c, i - 1);
        }
    } else {
        assert(first_index(s, c) == 0);
    }
}

/// Reading the text of a set of counts up to 26 gives the set back.
pub proof fn lemma_parse_render(set: Set<nat>)
    requires
        forall|n: nat| set.contains(n) ==> n <= 26,
    ensures
        parse(render(set)) == Some(set),
{
    lemma_tokens_of_render(set, 0);
    assert(above(set, 0) =~= set);
    let text = render(set);
    if set != Set::<nat>::empty() {
        if text.len() == 0 {
            assert(text =~= Seq::<char>::empty());
            assert(trim_start(text) == text);
            assert(trim_end(text) == text);
            assert(!is_decimal(text));
            assert(first_index(text, ',') == 0);
            assert(first_sign(text) == 0);
            assert(tokens(text) is None);
        }
    }
}

impl Value {
    /// Reading the text of a value gives the value back: what [`Value::try_parse`]
    /// returns for the text that [`Value::to_string`] returns for a value selects the
    /// counts of that value, and so is that value.
    pub proof fn lemma_round_trip(self)
        ensures
            parse(render(self.selected())) == Some(self.selected()),
            forall|other: Value|
                parse(render(self.selected())) == Some(other.selected()) ==> other == self,
    {
        lemma_parse_render(self.selected());
        assert forall|other: Value|
            parse(render(self.selected())) == Some(other.selected()) implies other == self by {
            other.lemma_same_selected(self);
        }
    }
}

} // verus!
