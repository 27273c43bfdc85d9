//! Token counting, the measure of every context and output budget.
use crate::text;
use vstd::prelude::*;

verus! {

/// Counts the tokens of a text. The count depends on the text alone.
pub trait TokenCounter {
    /// The number of tokens of a text.
    spec fn tokens(&self, text: Seq<char>) -> nat;

    fn count_text(&self, text: &str) -> (count: usize)
        ensures
            count == self.tokens(text@),
    ;
}

/// The counter for models without a tokenizer of their own: four bytes make a token, and a
/// part of four bytes makes one too.
#[derive(Clone, Copy, Debug)]
pub struct HeuristicCounter;

impl TokenCounter for HeuristicCounter {
    open spec fn tokens(&self, text: Seq<char>) -> nat {
        (text::byte_len(text) + 3) / 4
    }

    fn count_text(&self, text: &str) -> (count: usize) {
        let bytes: usize = text::byte_len_of(text);
        bytes / 4 + if bytes % 4 == 0 { 0 } else { 1 }
    }
}

/// The sum of counts.
pub open spec fn total(counts: Seq<nat>) -> nat
    decreases counts.len(),
{
    if counts.len() == 0 {
        0
    } else {
        total(counts.drop_last()) + counts.last()
    }
}

/// A count, cut off at the largest machine word.
pub open spec fn capped_usize(count: nat) -> nat {
    if count <= usize::MAX {
        count
    } else {
        usize::MAX as nat
    }
}

/// A count, cut off at the largest count of tokens.
pub open spec fn capped_u32(count: nat) -> nat {
    if count <= u32::MAX {
        count
    } else {
        u32::MAX as nat
    }
}

/// A sum of tokens as a count of tokens.
pub fn to_u32(sum: usize) -> (count: u32)
    ensures
        count == capped_u32(sum as nat),
{
    if sum <= u32::MAX as usize {
        sum as u32
    } else {
        u32::MAX
    }
}

/// The heuristic counts every four bytes that were begun, and no more.
pub proof fn law_four_bytes_make_a_token(text: Seq<char>)
    ensures
        text::byte_len(text) <= 4 * HeuristicCounter.tokens(text) < text::byte_len(text) + 4,
{
}

/// Sums add up.
pub proof fn lemma_total_add(first: Seq<nat>, second: Seq<nat>)
    ensures
        total(first + second) == total(first) + total(second),
    decreases second.len(),
{
    if second.len() == 0 {
        assert(first + second =~= first);
    } else {
        lemma_total_add(first, second.drop_last());
        assert((first + second).drop_last() =~= first + second.drop_last());
    }
}

/// The sum of one count is that count.
pub proof fn lemma_total_one(count: nat)
    ensures
        total(seq![count]) == count,
{
    assert(seq![count].drop_last() =~= seq![]);
    assert(total(seq![count].drop_last()) == 0);
}

} // verus!
