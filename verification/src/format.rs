//! Writes a set of neighbour counts as text.

use vstd::prelude::*;
use crate::rule::Value;
use crate::rule_text::{decimal, digit_char, render, render_from, render_token, run_end};

verus! {

/// `String::push` appends one character to the end of the string.
pub assume_specification[ String::push ](s: &mut String, c: char)
    ensures
        final(s)@ == old(s)@.push(c),
;

/// The digit for `d`.
fn digit(d: usize) -> (c: char)
    requires
        d < 10,
    ensures
        c == digit_char(d as nat),
{
    (0x30u8 + d as u8) as char
}

/// Appends the digits of `n` to `text`.
fn push_decimal(text: &mut String, n: usize)
    requires
        n < 100,
    ensures
        final(text)@ == old(text)@ + decimal(n as nat),
{
    if n >= 10 {
        text.push(digit(n / 10));
        assert(decimal((n / 10) as nat) == seq![digit_char((n / 10) as nat)]);
    }
    text.push(digit(n % 10));
    assert(final(text)@ =~= old(text)@ + decimal(n as nat));
}

impl Value {
    /// The text of the set: its runs of consecutive counts in rising order, a run of one
    /// count as that count, a longer run as its first and its last count with `-`
    /// between them, and a comma between each two runs.
    pub fn to_string(&self) -> (text: String)
        ensures
            text@ == render(self.selected()),
    {
        let mut text = String::new();
        let mut lead = false;
        let mut from: usize = 0;
        proof {
            self.lemma_slots();
        }
        while from < 27
            invariant
                from <= 27,
                self@.len() == 27,
                render(self.selected()) == text@ + render_from(self.selected(), from as nat, lead),
            decreases 27 - from,
        {
            if *self.at(26 - from) {
                let mut last = from;
                while last < 26 && *self.at(26 - (last + 1))
                    invariant
                        from <= last <= 26,
                        self@.len() == 27,
                        run_end(self.selected(), from as nat) == run_end(self.selected(), last as nat),
                    decreases 26 - last,
                {
                    last += 1;
                }
                let ghost before = text@;
                let ghost comma = if lead {
                    seq![',']
                } else {
                    Seq::empty()
                };
                if lead {
                    text.push(',');
                }
                push_decimal(&mut text, from);
                if last != from {
                    text.push('-');
                    push_decimal(&mut text, last);
                }
                proof {
                    assert(self.selected().contains(from as nat));
                    assert(run_end(self.selected(), from as nat) == last);
                    assert(text@ =~= before + (comma + render_token(from as nat, last as nat)));
                    assert(before + render_from(self.selected(), from as nat, lead) =~= text@
                        + render_from(self.selected(), (last + 1) as nat, true));
                }
                lead = true;
                from = last + 1;
            } else {
                assert(!self.selected().contains(from as nat));
                from += 1;
            }
        }
        assert(text@ =~= text@ + Seq::<char>::empty());
        text
    }
}

} // verus!
