//! What the client decides about the models on offer and about a prompt.

use crate::models::MistralModelCapabilities;
use crate::text::{unquoted, without_quotes};
use vstd::prelude::*;

verus! {

/// The positions up to `n`, in ascending order, of the models that offer
/// chat completion.
pub open spec fn chat_positions(models: Seq<MistralModelCapabilities>, n: int) -> Seq<int> {
    Seq::new(n as nat, |i: int| i).filter(|i: int| 0 <= i < models.len() && models[i].completion_chat)
}

/// The positions in `models` of those that offer chat completion, in
/// ascending order.
pub fn chat_models(models: &Vec<MistralModelCapabilities>) -> (r: Vec<usize>)
    ensures
        r@.map_values(|i: usize| i as int) == chat_positions(models@, models@.len() as int),
{
    let mut found: Vec<usize> = Vec::new();
    let mut i: usize = 0;
    let ghost keep = |k: int| 0 <= k < models@.len() && models@[k].completion_chat;
    proof {
        reveal(Seq::filter);
        assert(found@.map_values(|k: usize| k as int) =~= Seq::<int>::empty());
        assert(Seq::new(0nat, |k: int| k) =~= Seq::<int>::empty());
    }
    while i < models.len()
        invariant
            i <= models.len(),
            keep == |k: int| 0 <= k < models@.len() && models@[k].completion_chat,
            found@.map_values(|k: usize| k as int) == Seq::new(i as nat, |k: int| k).filter(keep),
        decreases models.len() - i,
    {
        let ghost before = found@.map_values(|k: usize| k as int);
        proof {
            let upto = Seq::new((i + 1) as nat, |k: int| k);
            assert(upto.drop_last() =~= Seq::new(i as nat, |k: int| k));
            assert(upto.last() == i);
            reveal(Seq::filter);
        }
        if models[i].completion_chat {
            found.push(i);
            assert(found@.map_values(|k: usize| k as int) =~= before.push(i as int));
        }
        i += 1;
    }
    found
}

/// The prompt as it is sent: without the characters `"`.
pub fn escaped_prompt(prompt: &str) -> (r: String)
    ensures
        r@ == unquoted(prompt@),
{
    without_quotes(prompt)
}

} // verus!
