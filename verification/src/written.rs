//! The shape of the text that is written for a set of neighbour counts: the runs of the
//! set in rising order, one token for each, with a comma between each two and nothing
//! else.

use vstd::prelude::*;
use crate::grammar::joined;
use crate::round_trip::{lemma_decimal, lemma_run};
use crate::rule_text::{
    decimal, is_digit, is_space, lemma_run_end_bounds, render, render_from, render_token, run_end,
};

verus! {

/// Whether `runs` are the runs of `set`: each gives the first and the last of
/// consecutive counts of `set`; they rise, with a count between each two that is not in
/// `set`, so that none can be made longer or joined with another; and no count of `set`
/// up to 26 is left out.
pub open spec fn runs_of_set(set: Set<nat>, runs: Seq<(nat, nat)>) -> bool {
    &&& forall|i: int| 0 <= i < runs.len() ==> (#[trigger] runs[i]).0 <= runs[i].1 <= 26
    &&& forall|i: int, n: nat|
        0 <= i < runs.len() && (#[trigger] runs[i]).0 <= n <= runs[i].1 ==> #[trigger] set.contains(
            n,
        )
    &&& forall|i: int|
        0 <= i < runs.len() ==> (#[trigger] runs[i]).0 == 0 || !set.contains(
            (runs[i].0 - 1) as nat,
        )
    &&& forall|i: int|
        0 <= i < runs.len() ==> (#[trigger] runs[i]).1 == 26 || !set.contains(runs[i].1 + 1)
    &&& forall|i: int, j: int|
        0 <= i < j < runs.len() ==> (#[trigger] runs[i]).1 + 1 < (#[trigger] runs[j]).0
    &&& forall|n: nat|
        n <= 26 && #[trigger] set.contains(n) ==> exists|i: int|
            0 <= i < runs.len() && (#[trigger] runs[i]).0 <= n <= runs[i].1
}

/// The tokens for `runs`, one for each.
pub open spec fn run_tokens(runs: Seq<(nat, nat)>) -> Seq<Seq<char>> {
    Seq::new(runs.len(), |i: int| render_token(runs[i].0, runs[i].1))
}

/// The runs of `set` that start at `from` or after it, in rising order.
pub open spec fn runs_from(set: Set<nat>, from: nat) -> Seq<(nat, nat)>
    decreases 27 - from,
{
    if from > 26 {
        Seq::empty()
    } else if !set.contains(from) {
        runs_from(set, from + 1)
    } else {
        let last = run_end(set, from);
        proof {
            lemma_run_end_bounds(set, from);
        }
        seq![(from, last)] + runs_from(set, last + 1)
    }
}

/// What holds of the runs of `set` that start at `from` or after it.
pub open spec fn runs_from_are_runs(set: Set<nat>, from: nat, runs: Seq<(nat, nat)>) -> bool {
    &&& forall|i: int| 0 <= i < runs.len() ==> from <= (#[trigger] runs[i]).0 <= runs[i].1 <= 26
    &&& forall|i: int, n: nat|
        0 <= i < runs.len() && (#[trigger] runs[i]).0 <= n <= runs[i].1 ==> #[trigger] set.contains(
            n,
        )
    &&& forall|i: int|
        0 <= i < runs.len() ==> (#[trigger] runs[i]).0 == from || !set.contains(
            (runs[i].0 - 1) as nat,
        )
    &&& forall|i: int|
        0 <= i < runs.len() ==> (#[trigger] runs[i]).1 == 26 || !set.contains(runs[i].1 + 1)
    &&& forall|i: int, j: int|
        0 <= i < j < runs.len() ==> (#[trigger] runs[i]).1 + 1 < (#[trigger] runs[j]).0
    &&& forall|n: nat|
        from <= n <= 26 && #[trigger] set.contains(n) ==> exists|i: int|
            0 <= i < runs.len() && (#[trigger] runs[i]).0 <= n <= runs[i].1
}

/// The runs that `runs_from` gives are runs of the set, rise, are apart from each other,
/// and leave out no count of the set from `from` on.
pub proof fn lemma_runs_from(set: Set<nat>, from: nat)
    ensures
        runs_from_are_runs(set, from, runs_from(set, from)),
    decreases 27 - from,
{
    let runs = runs_from(set, from);
    if from > 26 {
    } else if !set.contains(from) {
        lemma_runs_from(set, from + 1);
        assert forall|i: int| 0 <= i < runs.len() implies (#[trigger] runs[i]).0 == from
            || !set.contains((runs[i].0 - 1) as nat) by {
            if runs[i].0 == from + 1 {
                assert(!set.contains(from));
            }
        }
        assert forall|n: nat| from <= n <= 26 && #[trigger] set.contains(n) implies exists|i: int|
            0 <= i < runs.len() && (#[trigger] runs[i]).0 <= n <= runs[i].1 by {
            assert(from + 1 <= n);
        }
    } else {
        let last = run_end(set, from);
        let rest = runs_from(set, last + 1);
        lemma_run_end_bounds(set, from);
        lemma_run(set, from);
        lemma_runs_from(set, last + 1);
        assert(runs[0] == (from, last));
        assert forall|i: int| 0 < i < runs.len() implies runs[i] == rest[i - 1] by {}
        assert forall|i: int| 0 < i < runs.len() implies last + 1 < (#[trigger] runs[i]).0 by {
            let a = rest[i - 1].0;
            assert(runs[i] == rest[i - 1]);
            assert(rest[i - 1].0 <= a <= rest[i - 1].1);
            assert(set.contains(a));
        }
        assert forall|i: int| 0 <= i < runs.len() implies from <= (#[trigger] runs[i]).0
            <= runs[i].1 <= 26 by {
            if i > 0 {
                assert(runs[i] == rest[i - 1]);
            }
        }
        assert forall|i: int, n: nat|
            0 <= i < runs.len() && (#[trigger] runs[i]).0 <= n <= runs[i].1 implies #[trigger] set.contains(
            n,
        ) by {
            if i > 0 {
                assert(runs[i] == rest[i - 1]);
                assert(rest[i - 1].0 <= n <= rest[i - 1].1);
            }
        }
        assert forall|i: int| 0 <= i < runs.len() implies (#[trigger] runs[i]).0 == from
            || !set.contains((runs[i].0 - 1) as nat) by {
            if i > 0 {
                assert(runs[i] == rest[i - 1]);
                assert(last + 1 < runs[i].0);
            }
        }
        assert forall|i: int| 0 <= i < runs.len() implies (#[trigger] runs[i]).1 == 26
            || !set.contains(runs[i].1 + 1) by {
            if i > 0 {
                assert(runs[i] == rest[i - 1]);
            }
        }
        assert forall|i: int, j: int| 0 <= i < j < runs.len() implies (#[trigger] runs[i]).1 + 1 < (
        #[trigger] runs[j]).0 by {
            assert(runs[j] == rest[j - 1]);
            if i > 0 {
                assert(runs[i] == rest[i - 1]);
            } else {
                assert(last + 1 < runs[j].0);
            }
        }
        assert forall|n: nat| from <= n <= 26 && #[trigger] set.contains(n) implies exists|i: int|
            0 <= i < runs.len() && (#[trigger] runs[i]).0 <= n <= runs[i].1 by {
            if n <= last {
                assert(runs[0].0 <= n <= runs[0].1);
            } else {
                let i = choose|i: int| 0 <= i < rest.len() && (#[trigger] rest[i]).0 <= n <= rest[i].1;
                assert(runs[i + 1] == rest[i]);
            }
        }
    }
}

/// The text that is written from `from` on is the tokens of the runs from `from` on with
/// a comma between each two, and with one more before the first where one is asked for.
pub proof fn lemma_render_from_is_joined(set: Set<nat>, from: nat)
    ensures
        render_from(set, from, false) == joined(run_tokens(runs_from(set, from))),
        render_from(set, from, true) == if runs_from(set, from).len() == 0 {
            Seq::<char>::empty()
        } else {
            seq![','] + joined(run_tokens(runs_from(set, from)))
        },
    decreases 27 - from,
{
    let runs = runs_from(set, from);
    let list = run_tokens(runs);
    if from > 26 {
    } else if !set.contains(from) {
        lemma_render_from_is_joined(set, from + 1);
    } else {
        let last = run_end(set, from);
        lemma_run_end_bounds(set, from);
        lemma_render_from_is_joined(set, last + 1);
        let rest = runs_from(set, last + 1);
        let token = render_token(from, last);
        assert(list[0] == token);
        assert(list.drop_first() =~= run_tokens(rest));
        let tail = render_from(set, last + 1, true);
        assert(joined(list) =~= token + tail);
        assert(render_from(set, from, false) =~= token + tail);
        assert(render_from(set, from, true) =~= seq![','] + (token + tail));
    }
}

/// Whether `c` may stand in a written text: a digit, `-` or a comma.
pub open spec fn in_written(c: char) -> bool {
    is_digit(c) || c == '-' || c == ','
}

/// A written text holds nothing but digits, `-` and commas.
pub proof fn lemma_render_alphabet(set: Set<nat>, from: nat, lead: bool)
    ensures
        forall|i: int|
            0 <= i < render_from(set, from, lead).len() ==> in_written(
                #[trigger] render_from(set, from, lead)[i],
            ),
    decreases 27 - from,
{
    let text = render_from(set, from, lead);
    if from > 26 {
        assert(text.len() == 0);
    } else if !set.contains(from) {
        lemma_render_alphabet(set, from + 1, lead);
        assert(text == render_from(set, from + 1, lead));
    } else {
        let last = run_end(set, from);
        lemma_run_end_bounds(set, from);
        lemma_render_alphabet(set, last + 1, true);
        lemma_decimal(from);
        lemma_decimal(last);
        let comma = if lead {
            seq![',']
        } else {
            Seq::<char>::empty()
        };
        let token = render_token(from, last);
        let tail = render_from(set, last + 1, true);
        assert forall|i: int| 0 <= i < token.len() implies in_written(#[trigger] token[i]) by {
            let a = decimal(from);
            let b = decimal(last);
            if from == last {
                assert(is_digit(a[i]));
            } else {
                assert(token =~= a + seq!['-'] + b);
                if i < a.len() {
                    assert(token[i] == a[i]);
                    assert(is_digit(a[i]));
                } else if i > a.len() {
                    assert(token[i] == b[i - a.len() - 1]);
                    assert(is_digit(b[i - a.len() - 1]));
                } else {
                    assert(token[i] == '-');
                }
            }
        }
        assert(text =~= comma + token + tail);
        assert forall|i: int| 0 <= i < text.len() implies in_written(#[trigger] text[i]) by {
            if i < comma.len() {
                assert(text[i] == ',');
            } else if i < comma.len() + token.len() {
                assert(text[i] == token[i - comma.len()]);
                assert(in_written(token[i - comma.len()]));
            } else {
                assert(text[i] == tail[i - comma.len() - token.len()]);
                assert(in_written(tail[i - comma.len() - token.len()]));
            }
        }
    }
}

/// The shape of a written text. The text of a set is the tokens of its runs, in rising
/// order, with a comma between each two; it holds nothing but digits, `-` and commas.
pub proof fn lemma_written_shape(set: Set<nat>)
    ensures
        runs_of_set(set, runs_from(set, 0)),
        render(set) == joined(run_tokens(runs_from(set, 0))),
        forall|i: int|
            0 <= i < render(set).len() ==> in_written(#[trigger] render(set)[i]) && !is_space(
                render(set)[i],
            ),
{
    lemma_runs_from(set, 0);
    lemma_render_from_is_joined(set, 0);
    lemma_render_alphabet(set, 0, false);
    assert forall|i: int| 0 <= i < render(set).len() implies in_written(#[trigger] render(set)[i])
        && !is_space(render(set)[i]) by {
        assert(in_written(render_from(set, 0, false)[i]));
    }
}

} // verus!
