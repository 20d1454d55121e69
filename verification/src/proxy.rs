//! How the proxy spreads client connections over the multiplexors of its
//! upstream servers: it takes them in turn.
use vstd::prelude::*;

verus! {

/// Where the turn starts from a selector: the selector itself, or the first
/// multiplexor once the selector has run past the end.
pub open spec fn turn(selector: nat, count: nat) -> nat {
    if selector >= count {
        0
    } else {
        selector
    }
}

/// Picks the multiplexor for the next client connection among `count`, by
/// turns. Hands back the index to use, or `None` when there is none, and
/// the selector for the connection after.
pub fn next_target(selector: usize, count: usize) -> (r: (Option<usize>, usize))
    ensures
        count == 0 ==> r == (None::<usize>, 0usize),
        count > 0 ==> r == (Some(turn(selector as nat, count as nat) as usize), (turn(
            selector as nat,
            count as nat,
        ) + 1) as usize),
{
    let selector = if selector >= count {
        0
    } else {
        selector
    };
    if selector < count {
        (Some(selector), selector + 1)
    } else {
        (None, selector)
    }
}

/// The selector after `k` connections, with `count` multiplexors all along.
pub open spec fn selector_after(selector: nat, count: nat, k: nat) -> nat
    decreases k,
{
    if k == 0 {
        selector
    } else {
        turn(selector_after(selector, count, (k - 1) as nat), count) + 1
    }
}

/// The multiplexor that connection `k` goes to, with `count` multiplexors
/// all along.
pub open spec fn target_at(selector: nat, count: nat, k: nat) -> nat {
    turn(selector_after(selector, count, k), count)
}

/// With a fixed number of multiplexors, connections go to them in turn:
/// connection `k` goes to the one `k` places after where the turn started,
/// around the circle. So any `count` consecutive connections reach every
/// multiplexor once.
pub proof fn lemma_round_robin(selector: nat, count: nat, k: nat)
    requires
        count > 0,
    ensures
        target_at(selector, count, k) == (turn(selector, count) + k) % count,
    decreases k,
{
    if k > 0 {
        lemma_round_robin(selector, count, (k - 1) as nat);
        let start = turn(selector, count);
        let a = start + k - 1;
        let prev = target_at(selector, count, (k - 1) as nat);
        assert(prev == a % (count as int));
        assert(selector_after(selector, count, k) == prev + 1);
        if count == 1 {
            vstd::arithmetic::div_mod::lemma_fundamental_div_mod_converse(a, 1, a, 0);
            vstd::arithmetic::div_mod::lemma_fundamental_div_mod_converse(a + 1, 1, a + 1, 0);
        } else {
            vstd::arithmetic::div_mod::lemma_small_mod(1, count);
            vstd::arithmetic::div_mod::lemma_add_mod_noop(a, 1, count as int);
            if prev + 1 >= count {
                vstd::arithmetic::div_mod::lemma_mod_self_0(count as int);
            } else {
                vstd::arithmetic::div_mod::lemma_small_mod((prev + 1) as nat, count);
            }
        }
    } else {
        vstd::arithmetic::div_mod::lemma_small_mod(turn(selector, count), count);
    }
}

} // verus!
