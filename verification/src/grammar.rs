//! The grammar of the rule text, stated by the shape of a text, and the proof that
//! reading follows exactly this grammar.
//!
//! ```text
//! text   = "" | token { "," token }
//! token  = count | count sign count        (the first count not above the second)
//! sign   = "-" | ".."
//! count  = blank [ "+" ] digit { digit } blank        (a number up to 26)
//! blank  = { white space }
//! ```

use vstd::prelude::*;
use crate::rule_text::{
    count, decimal_value, first_index, first_sign, is_decimal, is_digit, is_space,
    lemma_first_index_bounds, lemma_first_index_is, lemma_first_sign_is, number, parse, sign_at,
    span, token, tokens, trim, trim_end, trim_start,
};

verus! {

/// Whether `s` is white space throughout.
pub open spec fn is_blank(s: Seq<char>) -> bool {
    forall|i: int| 0 <= i < s.len() ==> is_space(#[trigger] s[i])
}

/// Whether `s` is `lead`, `plus`, `digits` and `trail` in a row, where `lead` and `trail`
/// are blank, `plus` is empty or a `+`, and `digits` are digits, at least one.
pub open spec fn count_parts(
    s: Seq<char>,
    lead: Seq<char>,
    plus: Seq<char>,
    digits: Seq<char>,
    trail: Seq<char>,
) -> bool {
    &&& s == lead + plus + digits + trail
    &&& is_blank(lead)
    &&& is_blank(trail)
    &&& (plus == Seq::<char>::empty() || plus == seq!['+'])
    &&& is_decimal(digits)
}

/// Whether `s` is a count that stands for `n`: digits that stand for `n`, which is not
/// above 26, with or without a `+` before them and white space around.
pub open spec fn count_text(s: Seq<char>, n: nat) -> bool {
    n <= 26 && exists|lead: Seq<char>, plus: Seq<char>, digits: Seq<char>, trail: Seq<char>|
        #[trigger] count_parts(s, lead, plus, digits, trail) && decimal_value(digits) == n
}

/// White space before a text that does not start with white space is what `trim_start`
/// takes away.
pub proof fn lemma_trim_start_of(blank: Seq<char>, s: Seq<char>)
    requires
        is_blank(blank),
        s.len() == 0 || !is_space(s.first()),
    ensures
        trim_start(blank + s) == s,
    decreases blank.len(),
{
    if blank.len() == 0 {
        assert(blank + s =~= s);
    } else {
        assert((blank + s).first() == blank[0]);
        assert((blank + s).drop_first() =~= blank.drop_first() + s);
        assert forall|i: int| 0 <= i < blank.drop_first().len() implies is_space(
            #[trigger] blank.drop_first()[i],
        ) by {
            assert(blank.drop_first()[i] == blank[i + 1]);
        }
        lemma_trim_start_of(blank.drop_first(), s);
    }
}

/// White space after a text that does not end with white space is what `trim_end` takes
/// away.
pub proof fn lemma_trim_end_of(s: Seq<char>, blank: Seq<char>)
    requires
        is_blank(blank),
        s.len() == 0 || !is_space(s.last()),
    ensures
        trim_end(s + blank) == s,
    decreases blank.len(),
{
    if blank.len() == 0 {
        assert(s + blank =~= s);
    } else {
        assert((s + blank).last() == blank.last());
        assert((s + blank).drop_last() =~= s + blank.drop_last());
        lemma_trim_end_of(s, blank.drop_last());
    }
}

/// `trim_start` takes white space away from the start, and leaves a text that does not
/// start with white space.
pub proof fn lemma_trim_start_parts(s: Seq<char>)
    ensures
        trim_start(s).len() <= s.len(),
        is_blank(s.subrange(0, s.len() - trim_start(s).len())),
        trim_start(s) == s.subrange(s.len() - trim_start(s).len(), s.len() as int),
        trim_start(s).len() == 0 || !is_space(trim_start(s).first()),
    decreases s.len(),
{
    if s.len() > 0 && is_space(s.first()) {
        let rest = s.drop_first();
        lemma_trim_start_parts(rest);
        let k = s.len() - trim_start(s).len();
        assert forall|i: int| 0 <= i < k implies is_space(#[trigger] s.subrange(0, k)[i]) by {
            if i > 0 {
                assert(s.subrange(0, k)[i] == rest.subrange(0, k - 1)[i - 1]);
            }
        }
        assert(rest.subrange(k - 1, rest.len() as int) =~= s.subrange(k, s.len() as int));
    } else {
        assert(s.subrange(0, s.len() as int) =~= s);
    }
}

/// `trim_end` takes white space away from the end, and leaves a text that does not end
/// with white space.
pub proof fn lemma_trim_end_parts(s: Seq<char>)
    ensures
        trim_end(s).len() <= s.len(),
        is_blank(s.subrange(trim_end(s).len() as int, s.len() as int)),
        trim_end(s) == s.subrange(0, trim_end(s).len() as int),
        trim_end(s).len() == 0 || !is_space(trim_end(s).last()),
    decreases s.len(),
{
    if s.len() > 0 && is_space(s.last()) {
        let rest = s.drop_last();
        lemma_trim_end_parts(rest);
        let k = trim_end(s).len() as int;
        assert forall|i: int| 0 <= i < s.len() - k implies is_space(
            #[trigger] s.subrange(k, s.len() as int)[i],
        ) by {
            if i < s.len() - k - 1 {
                assert(s.subrange(k, s.len() as int)[i] == rest.subrange(k, rest.len() as int)[i]);
            }
        }
        assert(rest.subrange(0, k) =~= s.subrange(0, k));
    } else {
        assert(s.subrange(0, s.len() as int) =~= s);
    }
}

/// A text of the shape of a count is read as the number of its digits, if that is not
/// above 26, and not at all if it is.
pub proof fn lemma_count_of_parts(
    s: Seq<char>,
    lead: Seq<char>,
    plus: Seq<char>,
    digits: Seq<char>,
    trail: Seq<char>,
)
    requires
        count_parts(s, lead, plus, digits, trail),
    ensures
        count(s) == if decimal_value(digits) <= 26 {
            Some(decimal_value(digits))
        } else {
            None
        },
{
    let core = plus + digits;
    assert(is_digit(digits.first()));
    assert(is_digit(digits.last()));
    assert(core.last() == digits.last());
    assert(!is_space(core.first())) by {
        if plus.len() == 0 {
            assert(core =~= digits);
        } else {
            assert(core.first() == '+');
        }
    }
    assert(s =~= lead + (core + trail));
    assert((core + trail).first() == core.first());
    lemma_trim_start_of(lead, core + trail);
    lemma_trim_end_of(core, trail);
    assert(trim(s) == core);
    if plus.len() == 0 {
        assert(core =~= digits);
    } else {
        assert(core.drop_first() =~= digits);
    }
}

/// Every text that is read as a count has the shape of a count.
pub proof fn lemma_parts_of_count(s: Seq<char>, n: nat)
    requires
        count(s) == Some(n),
    ensures
        count_text(s, n),
{
    lemma_trim_start_parts(s);
    let start = trim_start(s);
    lemma_trim_end_parts(start);
    let core = trim(s);
    let lead = s.subrange(0, s.len() - start.len());
    let trail = start.subrange(core.len() as int, start.len() as int);
    let plus = if core.len() > 0 && core.first() == '+' {
        seq!['+']
    } else {
        Seq::<char>::empty()
    };
    let digits = if core.len() > 0 && core.first() == '+' {
        core.drop_first()
    } else {
        core
    };
    assert(number(core) == Some(n));
    assert(core =~= plus + digits);
    assert(start =~= core + trail);
    assert(s =~= lead + start);
    assert(s =~= lead + plus + digits + trail);
    assert(count_parts(s, lead, plus, digits, trail));
}

/// A text is a count that stands for `n` exactly if it is read as the count `n`.
pub proof fn lemma_count_grammar(s: Seq<char>, n: nat)
    ensures
        count_text(s, n) <==> count(s) == Some(n),
{
    if count_text(s, n) {
        let (lead, plus, digits, trail) = choose|
            lead: Seq<char>,
            plus: Seq<char>,
            digits: Seq<char>,
            trail: Seq<char>,
        |
            #[trigger] count_parts(s, lead, plus, digits, trail) && decimal_value(digits) == n;
        lemma_count_of_parts(s, lead, plus, digits, trail);
    }
    if count(s) == Some(n) {
        lemma_parts_of_count(s, n);
    }
}

/// Whether `c` may stand in a count: white space, a `+` or a digit.
pub open spec fn in_count(c: char) -> bool {
    is_space(c) || c == '+' || is_digit(c)
}

/// A count holds nothing but white space, a `+` and digits.
pub proof fn lemma_count_alphabet(s: Seq<char>, n: nat)
    requires
        count_text(s, n),
    ensures
        forall|i: int| 0 <= i < s.len() ==> in_count(#[trigger] s[i]),
{
    let (lead, plus, digits, trail) = choose|
        lead: Seq<char>,
        plus: Seq<char>,
        digits: Seq<char>,
        trail: Seq<char>,
    |
        #[trigger] count_parts(s, lead, plus, digits, trail) && decimal_value(digits) == n;
    assert forall|i: int| 0 <= i < s.len() implies in_count(#[trigger] s[i]) by {
        if i < lead.len() {
            assert(s[i] == lead[i]);
        } else if i < lead.len() + plus.len() {
            assert(s[i] == plus[i - lead.len()]);
        } else if i < lead.len() + plus.len() + digits.len() {
            assert(s[i] == digits[i - lead.len() - plus.len()]);
        } else {
            assert(s[i] == trail[i - lead.len() - plus.len() - digits.len()]);
        }
    }
}

/// Whether `s` is a range sign: `-` or `..`.
pub open spec fn is_sign(s: Seq<char>) -> bool {
    s == seq!['-'] || s == seq!['.', '.']
}

/// Whether `s` is `from`, `sign` and `to` in a row, where `sign` is a range sign, and
/// `from` and `to` are counts that stand for `first` and `last`.
pub open spec fn range_parts(
    s: Seq<char>,
    from: Seq<char>,
    sign: Seq<char>,
    to: Seq<char>,
    first: nat,
    last: nat,
) -> bool {
    &&& s == from + sign + to
    &&& is_sign(sign)
    &&& count_text(from, first)
    &&& count_text(to, last)
}

/// Whether `s` is a token that stands for the counts from `first` to `last`: one count,
/// or two counts with a range sign between them, of which the first is not above the
/// second.
pub open spec fn token_text(s: Seq<char>, first: nat, last: nat) -> bool {
    ||| first == last && count_text(s, first)
    ||| first <= last && exists|from: Seq<char>, sign: Seq<char>, to: Seq<char>|
        #[trigger] range_parts(s, from, sign, to, first, last)
}

/// The first range sign of a text is a range sign, if it is found within the text.
pub proof fn lemma_first_sign_found(s: Seq<char>)
    ensures
        0 <= first_sign(s) <= s.len(),
        first_sign(s) < s.len() ==> sign_at(s, first_sign(s)) > 0,
        first_sign(s) + sign_at(s, first_sign(s)) <= s.len(),
    decreases s.len(),
{
    if s.len() > 0 && sign_at(s, 0) == 0 {
        let rest = s.drop_first();
        lemma_first_sign_found(rest);
        let k = first_sign(rest);
        if k < rest.len() {
            assert(rest[k] == s[k + 1]);
            if k + 1 < rest.len() {
                assert(rest[k + 1] == s[k + 2]);
            }
            assert(sign_at(rest, k) == sign_at(s, k + 1));
        } else {
            assert(sign_at(s, s.len() as int) == 0);
        }
    }
}

/// A count alone is read as the token of that count.
pub proof fn lemma_token_of_count(s: Seq<char>, n: nat)
    requires
        count_text(s, n),
    ensures
        token(s) == Some((n, n)),
{
    lemma_count_alphabet(s, n);
    lemma_count_grammar(s, n);
    assert forall|i: int| 0 <= i < s.len() implies sign_at(s, i) == 0 by {
        assert(in_count(s[i]));
    }
    lemma_first_sign_is(s, s.len() as int);
}

/// Two counts with a range sign between them are read as the token of the two counts,
/// if the first is not above the second, and not at all if it is.
pub proof fn lemma_token_of_parts(
    s: Seq<char>,
    from: Seq<char>,
    sign: Seq<char>,
    to: Seq<char>,
    first: nat,
    last: nat,
)
    requires
        range_parts(s, from, sign, to, first, last),
    ensures
        token(s) == if first <= last {
            Some((first, last))
        } else {
            None
        },
{
    lemma_count_alphabet(from, first);
    lemma_count_grammar(from, first);
    lemma_count_grammar(to, last);
    let at = from.len() as int;
    assert(s =~= from + sign + to);
    assert forall|i: int| 0 <= i < at implies sign_at(s, i) == 0 by {
        assert(s[i] == from[i]);
        assert(in_count(from[i]));
    }
    assert(s[at] == sign[0]);
    if sign.len() == 2 {
        assert(s[at + 1] == sign[1]);
    }
    assert(sign_at(s, at) == sign.len());
    lemma_first_sign_is(s, at);
    assert(s.subrange(0, at) =~= from);
    assert(s.subrange(at + sign.len(), s.len() as int) =~= to);
}

/// Every text that is read as a token has the shape of a token.
pub proof fn lemma_parts_of_token(s: Seq<char>, first: nat, last: nat)
    requires
        token(s) == Some((first, last)),
    ensures
        token_text(s, first, last),
{
    lemma_first_sign_found(s);
    let at = first_sign(s);
    if at < s.len() {
        let width = sign_at(s, at);
        let from = s.subrange(0, at);
        let sign = s.subrange(at, at + width);
        let to = s.subrange(at + width, s.len() as int);
        lemma_count_grammar(from, first);
        lemma_count_grammar(to, last);
        if width == 1 {
            assert(sign =~= seq!['-']);
        } else {
            assert(sign =~= seq!['.', '.']);
        }
        assert(s =~= from + sign + to);
        assert(range_parts(s, from, sign, to, first, last));
    } else {
        lemma_count_grammar(s, first);
    }
}

/// A text is a token that stands for the counts from `first` to `last` exactly if it is
/// read as that token.
pub proof fn lemma_token_grammar(s: Seq<char>, first: nat, last: nat)
    ensures
        token_text(s, first, last) <==> token(s) == Some((first, last)),
{
    if token_text(s, first, last) {
        if first <= last && exists|from: Seq<char>, sign: Seq<char>, to: Seq<char>|
            #[trigger] range_parts(s, from, sign, to, first, last) {
            let (from, sign, to) = choose|from: Seq<char>, sign: Seq<char>, to: Seq<char>|
                #[trigger] range_parts(s, from, sign, to, first, last);
            lemma_token_of_parts(s, from, sign, to, first, last);
        } else {
            lemma_token_of_count(s, first);
        }
    }
    if token(s) == Some((first, last)) {
        lemma_parts_of_token(s, first, last);
    }
}

/// The texts `list` in a row, with a comma between each two.
pub open spec fn joined(list: Seq<Seq<char>>) -> Seq<char>
    decreases list.len(),
{
    if list.len() == 0 {
        Seq::empty()
    } else if list.len() == 1 {
        list[0]
    } else {
        list[0] + seq![','] + joined(list.drop_first())
    }
}

/// The counts of all of `runs`, each of which gives its first and its last count.
pub open spec fn covered(runs: Seq<(nat, nat)>) -> Set<nat> {
    Set::new(|n: nat| exists|i: int| 0 <= i < runs.len() && (#[trigger] runs[i]).0 <= n <= runs[i].1)
}

/// Whether `list` holds as many tokens as there are `runs`, each of which stands for
/// the run at its place.
pub open spec fn token_list(list: Seq<Seq<char>>, runs: Seq<(nat, nat)>) -> bool {
    &&& list.len() == runs.len()
    &&& forall|i: int|
        0 <= i < list.len() ==> token_text(#[trigger] list[i], runs[i].0, runs[i].1)
}

/// Whether `s` is a text that stands for `set`: the empty text for the empty set, or one
/// token or more with a comma between each two, for the counts of all of them.
pub open spec fn text_of(s: Seq<char>, set: Set<nat>) -> bool {
    ||| s.len() == 0 && set == Set::<nat>::empty()
    ||| exists|list: Seq<Seq<char>>, runs: Seq<(nat, nat)>|
        #[trigger] token_list(list, runs) && list.len() > 0 && s == joined(list) && set == covered(
            runs,
        )
}

/// A token is not empty and holds no comma.
pub proof fn lemma_token_alphabet(s: Seq<char>, first: nat, last: nat)
    requires
        token_text(s, first, last),
    ensures
        s.len() > 0,
        forall|i: int| 0 <= i < s.len() ==> #[trigger] s[i] != ',',
{
    lemma_token_grammar(s, first, last);
    lemma_first_sign_found(s);
    let at = first_sign(s);
    if at < s.len() {
        let width = sign_at(s, at);
        let from = s.subrange(0, at);
        let to = s.subrange(at + width, s.len() as int);
        lemma_count_grammar(from, first);
        lemma_count_grammar(to, last);
        lemma_count_alphabet(from, first);
        lemma_count_alphabet(to, last);
        assert forall|i: int| 0 <= i < s.len() implies #[trigger] s[i] != ',' by {
            if i < at {
                assert(s[i] == from[i]);
                assert(in_count(from[i]));
            } else if i >= at + width {
                assert(s[i] == to[i - at - width]);
                assert(in_count(to[i - at - width]));
            }
        }
    } else {
        lemma_count_grammar(s, first);
        lemma_count_alphabet(s, first);
        assert forall|i: int| 0 <= i < s.len() implies #[trigger] s[i] != ',' by {
            assert(in_count(s[i]));
        }
        if s.len() == 0 {
            assert(trim_start(s) == s);
            assert(trim_end(s) == s);
            assert(!is_decimal(s));
        }
    }
}

/// The counts of a list of runs are those of its first run and those of the rest.
pub proof fn lemma_covered_split(runs: Seq<(nat, nat)>)
    requires
        runs.len() > 0,
    ensures
        covered(runs) == span(runs[0].0, runs[0].1) + covered(runs.drop_first()),
{
    let rest = runs.drop_first();
    let both = span(runs[0].0, runs[0].1) + covered(rest);
    assert forall|n: nat| covered(runs).contains(n) <==> both.contains(n) by {
        if covered(runs).contains(n) {
            let i = choose|i: int| 0 <= i < runs.len() && (#[trigger] runs[i]).0 <= n <= runs[i].1;
            if i > 0 {
                assert(rest[i - 1] == runs[i]);
                assert(covered(rest).contains(n));
            }
        }
        if covered(rest).contains(n) {
            let i = choose|i: int| 0 <= i < rest.len() && (#[trigger] rest[i]).0 <= n <= rest[i].1;
            assert(runs[i + 1] == rest[i]);
        }
        if span(runs[0].0, runs[0].1).contains(n) {
            assert(runs[0].0 <= n <= runs[0].1);
        }
    }
    assert(covered(runs) =~= both);
}

/// A token alone is read as a list of one token.
pub proof fn lemma_tokens_of_one(head: Seq<char>, run: (nat, nat))
    requires
        token(head) == Some(run),
        forall|i: int| 0 <= i < head.len() ==> #[trigger] head[i] != ',',
    ensures
        tokens(head) == Some(span(run.0, run.1)),
{
    lemma_first_index_is(head, ',', head.len() as int);
}

/// A token before a comma and a list of tokens is read as the counts of the token and
/// those of the list.
pub proof fn lemma_tokens_of_more(head: Seq<char>, tail: Seq<char>, run: (nat, nat), rest: Set<nat>)
    requires
        token(head) == Some(run),
        forall|i: int| 0 <= i < head.len() ==> #[trigger] head[i] != ',',
        tokens(tail) == Some(rest),
    ensures
        tokens(head + seq![','] + tail) == Some(span(run.0, run.1) + rest),
{
    let s = head + seq![','] + tail;
    assert forall|i: int| 0 <= i < head.len() implies s[i] != ',' by {
        assert(s[i] == head[i]);
    }
    assert(s[head.len() as int] == ',');
    lemma_first_index_is(s, ',', head.len() as int);
    assert(s.subrange(0, head.len() as int) =~= head);
    assert(s.subrange(head.len() as int + 1, s.len() as int) =~= tail);
}

/// A list of tokens with a comma between each two is read as the counts of all of them.
pub proof fn lemma_tokens_of_list(list: Seq<Seq<char>>, runs: Seq<(nat, nat)>)
    requires
        token_list(list, runs),
        list.len() > 0,
    ensures
        joined(list).len() > 0,
        tokens(joined(list)) == Some(covered(runs)),
    decreases list.len(),
{
    let head = list[0];
    assert(token_text(head, runs[0].0, runs[0].1));
    lemma_token_alphabet(head, runs[0].0, runs[0].1);
    lemma_token_grammar(head, runs[0].0, runs[0].1);
    lemma_covered_split(runs);
    if list.len() == 1 {
        lemma_tokens_of_one(head, runs[0]);
        assert(covered(runs.drop_first()) =~= Set::<nat>::empty());
        assert(covered(runs) =~= span(runs[0].0, runs[0].1));
    } else {
        let rest = list.drop_first();
        let rest_runs = runs.drop_first();
        assert(token_list(rest, rest_runs)) by {
            assert forall|i: int| 0 <= i < rest.len() implies token_text(
                #[trigger] rest[i],
                rest_runs[i].0,
                rest_runs[i].1,
            ) by {
                assert(rest[i] == list[i + 1]);
                assert(rest_runs[i] == runs[i + 1]);
            }
        }
        lemma_tokens_of_list(rest, rest_runs);
        lemma_tokens_of_more(head, joined(rest), runs[0], covered(rest_runs));
    }
}

/// The tokens of a text: what stands before, between and after its commas.
pub open spec fn pieces(s: Seq<char>) -> Seq<Seq<char>>
    decreases s.len(),
{
    let comma = first_index(s, ',');
    if comma < s.len() {
        proof {
            lemma_first_index_bounds(s, ',');
        }
        seq![s.subrange(0, comma)] + pieces(s.subrange(comma + 1, s.len() as int))
    } else {
        seq![s]
    }
}

/// The runs that the tokens of a text stand for, where each of them is well formed.
pub open spec fn runs_of(s: Seq<char>) -> Seq<(nat, nat)>
    decreases s.len(),
{
    let comma = first_index(s, ',');
    if comma < s.len() {
        proof {
            lemma_first_index_bounds(s, ',');
        }
        seq![token(s.subrange(0, comma))->0] + runs_of(s.subrange(comma + 1, s.len() as int))
    } else {
        seq![token(s)->0]
    }
}

/// Every text that is read as a list of tokens is a list of tokens with a comma between
/// each two, and is read as the counts of all of them.
pub proof fn lemma_list_of_tokens(s: Seq<char>, set: Set<nat>)
    requires
        tokens(s) == Some(set),
    ensures
        token_list(pieces(s), runs_of(s)),
        pieces(s).len() > 0,
        s == joined(pieces(s)),
        set == covered(runs_of(s)),
    decreases s.len(),
{
    lemma_first_index_bounds(s, ',');
    let comma = first_index(s, ',');
    let list = pieces(s);
    let runs = runs_of(s);
    if comma < s.len() {
        let head = s.subrange(0, comma);
        let tail = s.subrange(comma + 1, s.len() as int);
        let rest = tokens(tail)->0;
        lemma_list_of_tokens(tail, rest);
        let run = token(head)->0;
        lemma_token_grammar(head, run.0, run.1);
        assert(list.drop_first() =~= pieces(tail));
        assert(runs.drop_first() =~= runs_of(tail));
        assert forall|i: int| 0 <= i < list.len() implies token_text(
            #[trigger] list[i],
            runs[i].0,
            runs[i].1,
        ) by {
            if i > 0 {
                assert(list[i] == pieces(tail)[i - 1]);
                assert(runs[i] == runs_of(tail)[i - 1]);
            }
        }
        lemma_first_index_found(s, ',');
        assert(s =~= head + seq![','] + tail);
        lemma_covered_split(runs);
    } else {
        let run = token(s)->0;
        lemma_token_grammar(s, run.0, run.1);
        lemma_covered_split(runs);
        assert(covered(runs.drop_first()) =~= Set::<nat>::empty());
        assert(covered(runs) =~= span(runs[0].0, runs[0].1));
    }
}

/// The first `c` of a text is a `c`, if it is found within the text.
pub proof fn lemma_first_index_found(s: Seq<char>, c: char)
    ensures
        first_index(s, c) < s.len() ==> s[first_index(s, c)] == c,
    decreases s.len(),
{
    if s.len() > 0 && s.first() != c {
        lemma_first_index_found(s.drop_first(), c);
        lemma_first_index_bounds(s.drop_first(), c);
    }
}

/// The grammar is the grammar that reading follows: a text stands for a set exactly if
/// it is read as that set. So every text of the grammar is read, as the set that it
/// stands for, and no other text is read at all.
pub proof fn lemma_text_grammar(s: Seq<char>, set: Set<nat>)
    ensures
        text_of(s, set) <==> parse(s) == Some(set),
{
    if text_of(s, set) && s.len() > 0 {
        let (list, runs) = choose|list: Seq<Seq<char>>, runs: Seq<(nat, nat)>|
            #[trigger] token_list(list, runs) && list.len() > 0 && s == joined(list) && set
                == covered(runs);
        lemma_tokens_of_list(list, runs);
    }
    if text_of(s, set) && s.len() == 0 {
        if exists|list: Seq<Seq<char>>, runs: Seq<(nat, nat)>|
            #[trigger] token_list(list, runs) && list.len() > 0 && s == joined(list) && set
                == covered(runs) {
            let (list, runs) = choose|list: Seq<Seq<char>>, runs: Seq<(nat, nat)>|
                #[trigger] token_list(list, runs) && list.len() > 0 && s == joined(list) && set
                    == covered(runs);
            lemma_tokens_of_list(list, runs);
        }
    }
    if parse(s) == Some(set) && s.len() > 0 {
        lemma_list_of_tokens(s, set);
        assert(token_list(pieces(s), runs_of(s)));
    }
}

/// A text stands for one set at most.
pub proof fn lemma_text_unambiguous(s: Seq<char>, set: Set<nat>, other: Set<nat>)
    requires
        text_of(s, set),
        text_of(s, other),
    ensures
        set == other,
{
    lemma_text_grammar(s, set);
    lemma_text_grammar(s, other);
}

} // verus!
