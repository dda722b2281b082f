//! Templates and the substitution of capture groups into them.
//!
//! A template is plain text in which the token `$(i)`, with `i` in decimal
//! notation, stands for capture group `i` of a match.

use vstd::prelude::*;
use crate::decimal::{
    decimal, is_digit, lemma_decimal_digits, lemma_decimal_injective, lemma_decimal_nonempty,
    push_decimal,
};
use crate::text::{append_chars, chars_of, string_of};
use crate::pattern::{CaptureSet, Pattern};

verus! {

/// The token that stands for capture group `index` in a template.
pub open spec fn placeholder(index: nat) -> Seq<char> {
    seq!['$', '('] + decimal(index) + seq![')']
}

/// `text` with every occurrence of `token` replaced by `with`, read from the
/// left; occurrences do not overlap, and what was put in is not read again.
/// An empty token occurs nowhere.
pub open spec fn replace_all(text: Seq<char>, token: Seq<char>, with: Seq<char>) -> Seq<char>
    decreases text.len(),
{
    if token.len() == 0 || text.len() < token.len() {
        text
    } else if text.subrange(0, token.len() as int) == token {
        with + replace_all(text.subrange(token.len() as int, text.len() as int), token, with)
    } else {
        seq![text[0]] + replace_all(text.subrange(1, text.len() as int), token, with)
    }
}

/// Whether `token` stands in `text` at position `at`.
pub open spec fn occurs_at(text: Seq<char>, token: Seq<char>, at: int) -> bool {
    &&& 0 <= at
    &&& at + token.len() <= text.len()
    &&& text.subrange(at, at + token.len()) == token
}

/// Whether `token` stands anywhere in `text`.
pub open spec fn occurs_in(text: Seq<char>, token: Seq<char>) -> bool {
    exists|at: int| occurs_at(text, token, at)
}

/// How often `token` stands in `text`, every position counted. An empty
/// token stands nowhere.
pub open spec fn occurrences(text: Seq<char>, token: Seq<char>) -> nat
    decreases text.len(),
{
    if token.len() == 0 || text.len() < token.len() {
        0
    } else if text.subrange(0, token.len() as int) == token {
        1 + occurrences(text.subrange(1, text.len() as int), token)
    } else {
        occurrences(text.subrange(1, text.len() as int), token)
    }
}

/// What one capture slot does to the text: a present slot replaces every
/// token of its index, an absent one leaves the text as it is.
pub open spec fn apply_slot(text: Seq<char>, index: nat, slot: Option<Seq<char>>) -> Seq<char> {
    match slot {
        Some(matched) => replace_all(text, placeholder(index), matched),
        None => text,
    }
}

/// `text` after the slots from index `from` on were applied in rising order.
pub open spec fn substitute_from(
    text: Seq<char>,
    slots: Seq<Option<Seq<char>>>,
    from: nat,
) -> Seq<char>
    decreases slots.len() - from,
{
    if from >= slots.len() {
        text
    } else {
        substitute_from(apply_slot(text, from, slots[from as int]), slots, from + 1)
    }
}

/// The name that `template` gives for the capture slots `slots`.
pub open spec fn substituted(template: Seq<char>, slots: Seq<Option<Seq<char>>>) -> Seq<char> {
    substitute_from(template, slots, 0)
}

/// A token that stands nowhere in the text is replaced nowhere: the text
/// stays as it is, whatever was to be put in.
pub proof fn lemma_replace_absent_token(text: Seq<char>, token: Seq<char>, with: Seq<char>)
    requires
        !occurs_in(text, token),
    ensures
        replace_all(text, token, with) == text,
    decreases text.len(),
{
    if token.len() == 0 || text.len() < token.len() {
    } else {
        let rest = text.subrange(1, text.len() as int);
        assert(!occurs_at(text, token, 0));
        assert(text.subrange(0, token.len() as int) != token);
        assert forall|at: int| !occurs_at(rest, token, at) by {
            if 0 <= at && at + token.len() <= rest.len() {
                assert(!occurs_at(text, token, at + 1));
                assert(rest.subrange(at, at + token.len()) =~= text.subrange(
                    at + 1,
                    at + 1 + token.len(),
                ));
            }
        }
        lemma_replace_absent_token(rest, token, with);
        assert(seq![text[0]] + rest =~= text);
    }
}

/// A capture set none of whose tokens stands in the template gives the
/// template itself.
pub proof fn lemma_template_without_tokens(
    template: Seq<char>,
    slots: Seq<Option<Seq<char>>>,
    from: nat,
)
    requires
        forall|i: nat| from <= i < slots.len() ==> !occurs_in(template, #[trigger] placeholder(i)),
    ensures
        substitute_from(template, slots, from) == template,
    decreases slots.len() - from,
{
    if from < slots.len() {
        assert(!occurs_in(template, placeholder(from)));
        if let Some(matched) = slots[from as int] {
            lemma_replace_absent_token(template, placeholder(from), matched);
        }
        lemma_template_without_tokens(template, slots, from + 1);
    }
}

/// A slot that is absent leaves the text as it is, tokens included; and
/// slots past the last one change nothing.
pub proof fn lemma_absent_slot_keeps_text(text: Seq<char>, slots: Seq<Option<Seq<char>>>, from: nat)
    ensures
        from < slots.len() && slots[from as int].is_none() ==> substitute_from(text, slots, from)
            == substitute_from(text, slots, from + 1),
        from >= slots.len() ==> substitute_from(text, slots, from) == text,
{
}

/// The tokens of two different indices differ, and neither stands inside
/// the other: `$(1)` is no part of `$(10)`.
pub proof fn lemma_placeholders_apart(i: nat, j: nat)
    requires
        i != j,
    ensures
        placeholder(i) != placeholder(j),
        !occurs_in(placeholder(j), placeholder(i)),
{
    let pi = placeholder(i);
    let pj = placeholder(j);
    lemma_decimal_nonempty(i);
    lemma_decimal_nonempty(j);
    lemma_decimal_digits(i);
    lemma_decimal_digits(j);
    assert(pi.len() == decimal(i).len() + 3);
    assert(pj.len() == decimal(j).len() + 3);
    assert(pi[0] == '$');
    assert(pi[pi.len() - 1] == ')');
    assert forall|k: int| 2 <= k < pj.len() - 1 implies is_digit(#[trigger] pj[k]) by {
        assert(pj[k] == decimal(j)[k - 2]);
    }
    assert(pj[1] == '(');
    assert(pj[pj.len() - 1] == ')');
    if pi == pj {
        assert(decimal(i) =~= pi.subrange(2, pi.len() - 1));
        assert(decimal(j) =~= pj.subrange(2, pj.len() - 1));
        lemma_decimal_injective(i, j);
    }
    assert forall|at: int| !occurs_at(pj, pi, at) by {
        if occurs_at(pj, pi, at) {
            let part = pj.subrange(at, at + pi.len());
            assert(part[0] == pj[at]);
            assert(part[pi.len() - 1] == pj[at + pi.len() - 1]);
            if at > 0 {
                assert(pj[at] == '$');
                if at >= 2 && at < pj.len() - 1 {
                    assert(is_digit(pj[at]));
                }
            } else if pi.len() == pj.len() {
                assert(part =~= pj);
            } else {
                assert(is_digit(pj[pi.len() - 1]));
            }
        }
    }
}

/// A token is at least four characters long and holds `$` at its start and
/// nowhere else.
pub proof fn lemma_placeholder_shape(i: nat)
    ensures
        placeholder(i).len() >= 4,
        placeholder(i)[0] == '$',
        forall|k: int| 1 <= k < placeholder(i).len() ==> #[trigger] placeholder(i)[k] != '$',
{
    let token = placeholder(i);
    lemma_decimal_nonempty(i);
    lemma_decimal_digits(i);
    assert(token.len() == decimal(i).len() + 3);
    assert forall|k: int| 1 <= k < token.len() implies #[trigger] token[k] != '$' by {
        if k == 1 {
            assert(token[k] == '(');
        } else if k < token.len() - 1 {
            assert(token[k] == decimal(i)[k - 2]);
            assert(is_digit(decimal(i)[k - 2]));
        } else {
            assert(token[k] == ')');
        }
    }
}

/// A text that begins with the end of one index's token still begins with
/// it after the tokens of another index were replaced.
proof fn lemma_replace_keeps_token_end(
    text: Seq<char>,
    skipped: int,
    i: nat,
    j: nat,
    with: Seq<char>,
)
    requires
        i != j,
        1 <= skipped <= placeholder(i).len(),
        text.len() >= placeholder(i).len() - skipped,
        text.subrange(0, placeholder(i).len() - skipped) == placeholder(i).subrange(
            skipped,
            placeholder(i).len() as int,
        ),
    ensures
        replace_all(text, placeholder(j), with).len() >= placeholder(i).len() - skipped,
        replace_all(text, placeholder(j), with).subrange(0, placeholder(i).len() - skipped)
            == placeholder(i).subrange(skipped, placeholder(i).len() as int),
    decreases placeholder(i).len() - skipped,
{
    let kept = placeholder(i);
    let token = placeholder(j);
    let width = kept.len() - skipped;
    lemma_placeholder_shape(i);
    lemma_placeholder_shape(j);
    if skipped < kept.len() && text.len() >= token.len() {
        assert(text[0] == text.subrange(0, width)[0]);
        assert(text[0] == kept[skipped]);
        assert(text.subrange(0, token.len() as int)[0] == text[0]);
        assert(text.subrange(0, token.len() as int) != token);
        let rest = text.subrange(1, text.len() as int);
        assert(rest.subrange(0, width - 1) =~= kept.subrange(skipped + 1, kept.len() as int)) by {
            assert forall|k: int| 0 <= k < width - 1 implies #[trigger] rest.subrange(
                0,
                width - 1,
            )[k] == kept.subrange(skipped + 1, kept.len() as int)[k] by {
                assert(text.subrange(0, width)[k + 1] == kept.subrange(
                    skipped,
                    kept.len() as int,
                )[k + 1]);
            }
        }
        lemma_replace_keeps_token_end(rest, skipped + 1, i, j, with);
        let tail = replace_all(rest, token, with);
        assert(replace_all(text, token, with) == seq![text[0]] + tail);
        assert((seq![text[0]] + tail).subrange(0, width) =~= kept.subrange(
            skipped,
            kept.len() as int,
        )) by {
            assert forall|k: int| 0 <= k < width implies #[trigger] (seq![text[0]] + tail).subrange(
                0,
                width,
            )[k] == kept.subrange(skipped, kept.len() as int)[k] by {
                if k > 0 {
                    assert(tail.subrange(0, width - 1)[k - 1] == kept.subrange(
                        skipped + 1,
                        kept.len() as int,
                    )[k - 1]);
                }
            }
        }
    }
}

/// Replacing the tokens of one index leaves a token of another index
/// standing.
pub proof fn lemma_replace_keeps_other_token(
    text: Seq<char>,
    at: int,
    i: nat,
    j: nat,
    with: Seq<char>,
)
    requires
        i != j,
        occurs_at(text, placeholder(i), at),
    ensures
        occurs_in(replace_all(text, placeholder(j), with), placeholder(i)),
    decreases text.len(),
{
    let kept = placeholder(i);
    let token = placeholder(j);
    let result = replace_all(text, token, with);
    lemma_placeholder_shape(i);
    lemma_placeholder_shape(j);
    let here = text.subrange(at, at + kept.len());
    assert(here[0] == text[at]);
    if text.len() < token.len() {
        assert(occurs_at(result, kept, at));
    } else if text.subrange(0, token.len() as int) == token {
        assert(occurs_at(text, token, 0));
        if at < token.len() {
            lemma_no_token_inside(text, i, j, at);
        }
        let rest = text.subrange(token.len() as int, text.len() as int);
        assert(rest.subrange(at - token.len(), at - token.len() + kept.len()) =~= here);
        lemma_replace_keeps_other_token(rest, at - token.len(), i, j, with);
        let tail = replace_all(rest, token, with);
        let found = choose|found: int| occurs_at(tail, kept, found);
        assert((with + tail).subrange(with.len() + found, with.len() + found + kept.len())
            =~= tail.subrange(found, found + kept.len()));
        assert(occurs_at(result, kept, with.len() + found));
    } else {
        let rest = text.subrange(1, text.len() as int);
        let tail = replace_all(rest, token, with);
        assert(result == seq![text[0]] + tail);
        if at > 0 {
            assert(rest.subrange(at - 1, at - 1 + kept.len()) =~= here);
            lemma_replace_keeps_other_token(rest, at - 1, i, j, with);
            let found = choose|found: int| occurs_at(tail, kept, found);
            assert((seq![text[0]] + tail).subrange(1 + found, 1 + found + kept.len())
                =~= tail.subrange(found, found + kept.len()));
            assert(occurs_at(result, kept, 1 + found));
        } else {
            assert(rest.subrange(0, kept.len() - 1) =~= kept.subrange(1, kept.len() as int)) by {
                assert forall|k: int| 0 <= k < kept.len() - 1 implies #[trigger] rest.subrange(
                    0,
                    kept.len() - 1,
                )[k] == kept.subrange(1, kept.len() as int)[k] by {
                    assert(here[k + 1] == text[k + 1]);
                }
            }
            lemma_replace_keeps_token_end(rest, 1, i, j, with);
            assert(result.subrange(0, kept.len() as int) =~= kept) by {
                assert forall|k: int| 0 <= k < kept.len() implies #[trigger] result.subrange(
                    0,
                    kept.len() as int,
                )[k] == kept[k] by {
                    if k > 0 {
                        assert(tail.subrange(0, kept.len() - 1)[k - 1] == kept.subrange(
                            1,
                            kept.len() as int,
                        )[k - 1]);
                    }
                }
            }
            assert(occurs_at(result, kept, 0));
        }
    }
}

/// Inside a token of one index, and at its start, no token of another index
/// begins.
proof fn lemma_no_token_inside(text: Seq<char>, i: nat, j: nat, at: int)
    requires
        i != j,
        occurs_at(text, placeholder(j), 0),
        0 <= at < placeholder(j).len(),
    ensures
        !occurs_at(text, placeholder(i), at),
{
    let kept = placeholder(i);
    let token = placeholder(j);
    lemma_placeholder_shape(i);
    lemma_placeholder_shape(j);
    if occurs_at(text, kept, at) {
        let head = text.subrange(0, token.len() as int);
        let here = text.subrange(at, at + kept.len());
        assert(here[0] == text[at]);
        if at > 0 {
            assert(head[at] == text[at]);
            assert(token[at] != '$');
        } else if kept.len() <= token.len() {
            lemma_placeholders_apart(i, j);
            assert(token.subrange(0, kept.len() as int) =~= here) by {
                assert forall|k: int| 0 <= k < kept.len() implies #[trigger] token.subrange(
                    0,
                    kept.len() as int,
                )[k] == here[k] by {
                    assert(head[k] == text[k]);
                    assert(here[k] == text[k]);
                }
            }
            assert(occurs_at(token, kept, 0));
        } else {
            lemma_placeholders_apart(j, i);
            assert(kept.subrange(0, token.len() as int) =~= head) by {
                assert forall|k: int| 0 <= k < token.len() implies #[trigger] kept.subrange(
                    0,
                    token.len() as int,
                )[k] == head[k] by {
                    assert(head[k] == text[k]);
                    assert(here[k] == text[k]);
                }
            }
            assert(occurs_at(kept, token, 0));
        }
    }
}

/// Text put in front takes no occurrence away.
pub proof fn lemma_occurrences_after_prefix(head: Seq<char>, text: Seq<char>, token: Seq<char>)
    ensures
        occurrences(head + text, token) >= occurrences(text, token),
    decreases head.len(),
{
    if head.len() == 0 {
        assert(head + text =~= text);
    } else {
        let whole = head + text;
        assert(whole.subrange(1, whole.len() as int) =~= head.subrange(1, head.len() as int)
            + text);
        lemma_occurrences_after_prefix(head.subrange(1, head.len() as int), text, token);
    }
}

/// A stretch at the start of the text in which the token begins nowhere
/// counts for nothing.
pub proof fn lemma_occurrences_skip(text: Seq<char>, token: Seq<char>, count: int)
    requires
        0 <= count <= text.len(),
        forall|at: int| 0 <= at < count ==> !occurs_at(text, token, at),
    ensures
        occurrences(text, token) == occurrences(text.subrange(count, text.len() as int), token),
    decreases count,
{
    if count == 0 {
        assert(text.subrange(0, text.len() as int) =~= text);
    } else {
        let rest = text.subrange(1, text.len() as int);
        assert(rest.subrange(count - 1, rest.len() as int) =~= text.subrange(
            count,
            text.len() as int,
        ));
        if token.len() > 0 && text.len() >= token.len() {
            assert(!occurs_at(text, token, 0));
            assert(text.subrange(0, token.len() as int) != token);
            assert forall|at: int| 0 <= at < count - 1 implies !occurs_at(rest, token, at) by {
                assert(!occurs_at(text, token, at + 1));
                if at + token.len() <= rest.len() {
                    assert(rest.subrange(at, at + token.len()) =~= text.subrange(
                        at + 1,
                        at + 1 + token.len(),
                    ));
                }
            }
            lemma_occurrences_skip(rest, token, count - 1);
        }
    }
}

/// Replacing the tokens of one index takes away no token of another index.
pub proof fn lemma_replace_keeps_count(text: Seq<char>, i: nat, j: nat, with: Seq<char>)
    requires
        i != j,
    ensures
        occurrences(replace_all(text, placeholder(j), with), placeholder(i)) >= occurrences(
            text,
            placeholder(i),
        ),
    decreases text.len(),
{
    let kept = placeholder(i);
    let token = placeholder(j);
    let result = replace_all(text, token, with);
    lemma_placeholder_shape(i);
    lemma_placeholder_shape(j);
    if text.len() < token.len() {
    } else if text.subrange(0, token.len() as int) == token {
        let rest = text.subrange(token.len() as int, text.len() as int);
        assert(occurs_at(text, token, 0));
        assert forall|at: int| 0 <= at < token.len() implies !occurs_at(text, kept, at) by {
            lemma_no_token_inside(text, i, j, at);
        }
        lemma_occurrences_skip(text, kept, token.len() as int);
        lemma_replace_keeps_count(rest, i, j, with);
        lemma_occurrences_after_prefix(with, replace_all(rest, token, with), kept);
    } else {
        let rest = text.subrange(1, text.len() as int);
        let tail = replace_all(rest, token, with);
        assert(result == seq![text[0]] + tail);
        lemma_replace_keeps_count(rest, i, j, with);
        if text.len() >= kept.len() && text.subrange(0, kept.len() as int) == kept {
            let here = text.subrange(0, kept.len() as int);
            assert(rest.subrange(0, kept.len() - 1) =~= kept.subrange(1, kept.len() as int)) by {
                assert forall|k: int| 0 <= k < kept.len() - 1 implies #[trigger] rest.subrange(
                    0,
                    kept.len() - 1,
                )[k] == kept.subrange(1, kept.len() as int)[k] by {
                    assert(here[k + 1] == text[k + 1]);
                }
            }
            lemma_replace_keeps_token_end(rest, 1, i, j, with);
            assert(here[0] == text[0]);
            assert(result.subrange(0, kept.len() as int) =~= kept) by {
                assert forall|k: int| 0 <= k < kept.len() implies #[trigger] result.subrange(
                    0,
                    kept.len() as int,
                )[k] == kept[k] by {
                    if k > 0 {
                        assert(tail.subrange(0, kept.len() - 1)[k - 1] == kept.subrange(
                            1,
                            kept.len() as int,
                        )[k - 1]);
                    }
                }
            }
            assert(result.subrange(1, result.len() as int) =~= tail);
        } else {
            lemma_occurrences_after_prefix(seq![text[0]], tail, kept);
        }
    }
}

/// Whether slot `i` of `slots` fills nothing: the group took no part in the
/// match, or there is no such group.
pub open spec fn unfilled(slots: Seq<Option<Seq<char>>>, i: nat) -> bool {
    i >= slots.len() || slots[i as int].is_none()
}

/// The token of a slot that fills nothing, where the text holds one, is
/// still there after the slots from `from` on were applied.
pub proof fn lemma_absent_token_survives(
    text: Seq<char>,
    slots: Seq<Option<Seq<char>>>,
    from: nat,
    i: nat,
)
    requires
        unfilled(slots, i),
        occurs_in(text, placeholder(i)),
    ensures
        occurs_in(substitute_from(text, slots, from), placeholder(i)),
    decreases slots.len() - from,
{
    if from < slots.len() {
        let next = apply_slot(text, from, slots[from as int]);
        if from != i {
            if let Some(matched) = slots[from as int] {
                let at = choose|at: int| occurs_at(text, placeholder(i), at);
                lemma_replace_keeps_other_token(text, at, i, from, matched);
            }
        }
        lemma_absent_token_survives(next, slots, from + 1, i);
    }
}

/// The tokens of a slot that fills nothing are no fewer after the slots from
/// `from` on were applied than before.
pub proof fn lemma_unfilled_tokens_stay(
    text: Seq<char>,
    slots: Seq<Option<Seq<char>>>,
    from: nat,
    i: nat,
)
    requires
        unfilled(slots, i),
    ensures
        occurrences(substitute_from(text, slots, from), placeholder(i)) >= occurrences(
            text,
            placeholder(i),
        ),
    decreases slots.len() - from,
{
    if from < slots.len() {
        let next = apply_slot(text, from, slots[from as int]);
        if from != i {
            if let Some(matched) = slots[from as int] {
                lemma_replace_keeps_count(text, i, from, matched);
            }
        }
        lemma_unfilled_tokens_stay(next, slots, from + 1, i);
    }
}

/// The tokens of a group that took no part in the match, or that the pattern
/// does not have, are left in the name as they stand in the template: the
/// name holds the token as often as the template does, or more often.
pub proof fn lemma_absent_group_left_literal(
    template: Seq<char>,
    slots: Seq<Option<Seq<char>>>,
    i: nat,
)
    requires
        unfilled(slots, i),
    ensures
        occurrences(substituted(template, slots), placeholder(i)) >= occurrences(
            template,
            placeholder(i),
        ),
        occurs_in(template, placeholder(i)) ==> occurs_in(
            substituted(template, slots),
            placeholder(i),
        ),
{
    lemma_unfilled_tokens_stay(template, slots, 0, i);
    if occurs_in(template, placeholder(i)) {
        lemma_absent_token_survives(template, slots, 0, i);
    }
}

/// Whether `text` holds no `$`.
pub open spec fn dollar_free(text: Seq<char>) -> bool {
    forall|k: int| 0 <= k < text.len() ==> text[k] != '$'
}

/// No token stands in a text without `$`.
pub proof fn lemma_no_token_without_dollar(text: Seq<char>, i: nat)
    requires
        dollar_free(text),
    ensures
        !occurs_in(text, placeholder(i)),
{
    lemma_placeholder_shape(i);
    assert forall|at: int| !occurs_at(text, placeholder(i), at) by {
        if occurs_at(text, placeholder(i), at) {
            assert(text.subrange(at, at + placeholder(i).len())[0] == text[at]);
        }
    }
}

/// The template that is one token, from slot `from` on, gives the text of
/// that token's slot, where the slot is present and its text holds no `$`.
proof fn lemma_token_gives_slot_from(slots: Seq<Option<Seq<char>>>, i: nat, from: nat)
    requires
        from <= i < slots.len(),
        slots[i as int].is_some(),
        dollar_free(slots[i as int].unwrap()),
    ensures
        substitute_from(placeholder(i), slots, from) == slots[i as int].unwrap(),
    decreases i - from,
{
    let token = placeholder(i);
    let matched = slots[i as int].unwrap();
    if from < i {
        lemma_placeholders_apart(from, i);
        if let Some(other) = slots[from as int] {
            lemma_replace_absent_token(token, placeholder(from), other);
        }
        lemma_token_gives_slot_from(slots, i, from + 1);
    } else {
        lemma_placeholder_shape(i);
        let rest = token.subrange(token.len() as int, token.len() as int);
        assert(token.subrange(0, token.len() as int) =~= token);
        assert(replace_all(rest, token, matched) == rest);
        assert(matched + rest =~= matched);
        assert(apply_slot(token, i, slots[i as int]) == matched);
        assert forall|j: nat| i + 1 <= j < slots.len() implies !occurs_in(
            matched,
            #[trigger] placeholder(j),
        ) by {
            lemma_no_token_without_dollar(matched, j);
        }
        lemma_template_without_tokens(matched, slots, i + 1);
    }
}

/// A template that is the token of one present slot gives that slot's text,
/// where the text holds no `$`.
pub proof fn lemma_token_gives_slot(slots: Seq<Option<Seq<char>>>, i: nat)
    requires
        i < slots.len(),
        slots[i as int].is_some(),
        dollar_free(slots[i as int].unwrap()),
    ensures
        substituted(placeholder(i), slots) == slots[i as int].unwrap(),
{
    lemma_token_gives_slot_from(slots, i, 0);
}

/// The token of capture group `index`.
pub fn placeholder_token(index: usize) -> (token: Vec<char>)
    ensures
        token@ == placeholder(index as nat),
{
    let mut token: Vec<char> = Vec::new();
    token.push('$');
    token.push('(');
    push_decimal(&mut token, index as u64);
    token.push(')');
    assert(token@ =~= placeholder(index as nat));
    token
}

/// Tells whether `token` stands in `text` at position `at`.
pub fn token_at(text: &Vec<char>, token: &Vec<char>, at: usize) -> (found: bool)
    requires
        at + token@.len() <= text@.len(),
    ensures
        found == occurs_at(text@, token@, at as int),
{
    let n: usize = text.len();
    let mut k: usize = 0;
    while k < token.len()
        invariant
            n == text@.len(),
            k <= token@.len(),
            at + token@.len() <= text@.len(),
            forall|j: int| 0 <= j < k ==> text@[at + j] == token@[j],
        decreases token@.len() - k,
    {
        if text[at + k] != token[k] {
            proof {
                let part = text@.subrange(at as int, at + token@.len());
                assert(part[k as int] == text@[at + k]);
            }
            return false;
        }
        k = k + 1;
    }
    assert(text@.subrange(at as int, at + token@.len()) =~= token@);
    true
}

/// Replaces every occurrence of `token` in `text` by `with`.
pub fn replace_token(text: &Vec<char>, token: &Vec<char>, with: &Vec<char>) -> (out: Vec<char>)
    ensures
        out@ == replace_all(text@, token@, with@),
{
    let n: usize = text.len();
    let width: usize = token.len();
    let mut out: Vec<char> = Vec::new();
    let mut i: usize = 0;
    if width == 0 {
        append_chars(&mut out, text);
        assert(out@ =~= text@);
        return out;
    }
    assert(text@.subrange(0, n as int) =~= text@);
    assert(out@ + replace_all(text@, token@, with@) =~= replace_all(text@, token@, with@));
    while n - i >= width
        invariant
            n == text@.len(),
            width == token@.len(),
            width > 0,
            i <= n,
            out@ + replace_all(text@.subrange(i as int, n as int), token@, with@) == replace_all(
                text@,
                token@,
                with@,
            ),
        decreases n - i,
    {
        let ghost rest = text@.subrange(i as int, n as int);
        let ghost before = out@;
        if token_at(text, token, i) {
            append_chars(&mut out, with);
            proof {
                assert(rest.subrange(0, width as int) =~= text@.subrange(i as int, i + width));
                assert(rest.subrange(width as int, rest.len() as int) =~= text@.subrange(
                    i + width,
                    n as int,
                ));
                let tail = replace_all(text@.subrange(i + width, n as int), token@, with@);
                assert(replace_all(rest, token@, with@) == with@ + tail);
                assert((before + with@) + tail =~= before + (with@ + tail));
            }
            i = i + width;
        } else {
            out.push(text[i]);
            proof {
                assert(rest.subrange(0, width as int) =~= text@.subrange(i as int, i + width));
                assert(rest.subrange(1, rest.len() as int) =~= text@.subrange(i + 1, n as int));
                let tail = replace_all(text@.subrange(i + 1, n as int), token@, with@);
                assert(replace_all(rest, token@, with@) == seq![rest[0]] + tail);
                assert(before.push(text@[i as int]) + tail =~= before + (seq![rest[0]] + tail));
            }
            i = i + 1;
        }
    }
    let ghost before = out@;
    let ghost start = i as int;
    assert(out@ =~= before + text@.subrange(start, i as int));
    while i < n
        invariant
            n == text@.len(),
            0 <= start <= i <= n,
            out@ == before + text@.subrange(start, i as int),
            before + text@.subrange(start, n as int) == replace_all(text@, token@, with@),
        decreases n - i,
    {
        out.push(text[i]);
        assert(before + text@.subrange(start, i + 1) =~= (before + text@.subrange(
            start,
            i as int,
        )).push(text@[i as int]));
        i = i + 1;
    }
    out
}

/// Fills `template` with `captures`: for each slot in rising order, a
/// present slot's text replaces every token of its index in the text so far,
/// and an absent slot leaves its tokens standing.
pub fn substitute(template: &str, captures: &CaptureSet) -> (name: String)
    ensures
        name@ == substituted(template@, captures@),
{
    let mut text: Vec<char> = chars_of(template);
    let count: usize = captures.len();
    let mut index: usize = 0;
    while index < count
        invariant
            count == captures@.len(),
            index <= count,
            substitute_from(text@, captures@, index as nat) == substituted(
                template@,
                captures@,
            ),
        decreases count - index,
    {
        match captures.get(index) {
            Some(matched) => {
                let token = placeholder_token(index);
                let with = chars_of(matched);
                text = replace_token(&text, &token, &with);
            },
            None => {},
        }
        index = index + 1;
    }
    string_of(&text)
}

/// The new name of `filename`, which the pattern must match: the template
/// filled with the capture slots of that match.
pub fn generate_new_name(pattern: &Pattern, template: &str, filename: &str) -> (name: String)
    requires
        pattern.matches(filename@),
    ensures
        name@ == substituted(template@, pattern.captures(filename@).unwrap()),
{
    let captures = pattern.find(filename).unwrap();
    substitute(template, &captures)
}

} // verus!
