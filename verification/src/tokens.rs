use vstd::prelude::*;
use std::collections::HashSet;

verus! {

broadcast use vstd::std_specs::hash::group_hash_axioms;

/// The lowest identifier the allocator can hand out; `0` is reserved for the
/// listening socket and is never assigned to a connection.
pub open spec fn min_token() -> usize {
    1
}

/// The highest identifier the allocator can hand out; the probe wraps from
/// here back to the low end of the identifier space.
pub open spec fn max_token() -> usize {
    (usize::MAX - 2) as usize
}

/// The candidate probed directly after `last`: the successor, wrapping from
/// the top of the ring back to the low end.
pub open spec fn ring_next(last: usize) -> usize {
    if last == max_token() {
        2
    } else {
        (last + 1) as usize
    }
}

/// Linear probe along the ring starting at `cand`: the first candidate not in
/// `used` is the result; reaching `last_token` again (or exhausting the fuel,
/// which bounds a probe that can never return to `last_token`) reports that
/// every identifier on the path is in use.
pub open spec fn probe(used: Set<usize>, last_token: usize, cand: usize, fuel: nat) -> Option<usize>
    decreases fuel,
{
    if !used.contains(cand) {
        Some(cand)
    } else if cand == last_token || fuel == 0 {
        None
    } else {
        probe(used, last_token, ring_next(cand), (fuel - 1) as nat)
    }
}

/// Fuel that is larger than the ring itself, so it never cuts a probe short.
pub open spec fn probe_fuel() -> nat {
    usize::MAX as nat
}

/// The identifier the allocator hands out for a given used-set and the
/// identifier assigned most recently: the first free identifier after
/// `last_token` in ring order, or `None` when the space is exhausted.
pub open spec fn spec_next_token(used: Set<usize>, last_token: usize) -> Option<usize> {
    probe(used, last_token, ring_next(last_token), probe_fuel())
}

/// A probe never hands out an identifier that is in use.
pub proof fn lemma_probe_fresh(used: Set<usize>, last_token: usize, cand: usize, fuel: nat)
    ensures
        probe(used, last_token, cand, fuel) matches Some(t) ==> !used.contains(t),
    decreases fuel,
{
    if used.contains(cand) && cand != last_token && fuel != 0 {
        lemma_probe_fresh(used, last_token, ring_next(cand), (fuel - 1) as nat);
    }
}

/// Every identifier a probe hands out lies inside the ring.
pub proof fn lemma_probe_in_ring(used: Set<usize>, last_token: usize, cand: usize, fuel: nat)
    requires
        min_token() <= cand <= max_token(),
    ensures
        probe(used, last_token, cand, fuel) matches Some(t) ==> min_token() <= t <= max_token(),
    decreases fuel,
{
    if used.contains(cand) && cand != last_token && fuel != 0 {
        lemma_probe_in_ring(used, last_token, ring_next(cand), (fuel - 1) as nat);
    }
}

/// Issue the next connection identifier: starting just after `last_token`,
/// linearly probe increasing identifiers, skipping those in `used_tokens`,
/// wrapping from the top of the space back to the low end, and return the
/// first free one; report `None` when every identifier on the path is in use.
pub fn calc_next_token(used_tokens: &HashSet<usize>, last_token: usize) -> (r: Option<usize>)
    requires
        last_token <= max_token(),
    ensures
        r == spec_next_token(used_tokens@, last_token),
        r matches Some(t) ==> !used_tokens@.contains(t) && min_token() <= t <= max_token(),
{
    proof {
        lemma_probe_fresh(used_tokens@, last_token, ring_next(last_token), probe_fuel());
        lemma_probe_in_ring(used_tokens@, last_token, ring_next(last_token), probe_fuel());
    }
    let mut last: usize = last_token;
    let mut fuel: usize = usize::MAX;
    loop
        invariant
            last <= max_token(),
            spec_next_token(used_tokens@, last_token) == probe(
                used_tokens@,
                last_token,
                ring_next(last),
                fuel as nat,
            ),
            probe(used_tokens@, last_token, ring_next(last), fuel as nat) matches Some(t)
                ==> !used_tokens@.contains(t) && min_token() <= t <= max_token(),
        decreases fuel,
    {
        let next: usize = if last == usize::MAX - 2 {
            2
        } else {
            last + 1
        };
        assert(next == ring_next(last));
        if !used_tokens.contains(&next) {
            return Some(next);
        } else if next == last_token || fuel == 0 {
            return None;
        }
        last = next;
        fuel = fuel - 1;
    }
}

/// One step of the allocator's life: the dispatch loop either asks for a new
/// identifier (recording it as used) or releases one that a closed connection
/// held.
pub enum TokenOp {
    Allocate,
    Release(usize),
}

/// The identifiers outstanding (allocated, not yet released) and the most
/// recently assigned identifier after a sequence of allocator steps, starting
/// from an empty space with `0` (the listener) as the last identifier.
pub open spec fn run_token_ops(ops: Seq<TokenOp>) -> (Seq<usize>, usize)
    decreases ops.len(),
{
    if ops.len() == 0 {
        (Seq::empty(), 0)
    } else {
        let (live, last) = run_token_ops(ops.drop_last());
        match ops.last() {
            TokenOp::Allocate => match spec_next_token(live.to_set(), last) {
                Some(t) => (live.push(t), t),
                None => (live, last),
            },
            TokenOp::Release(t) => (live.remove_value(t), last),
        }
    }
}

/// Removing one element from a sequence without duplicates leaves a sequence
/// without duplicates.
proof fn lemma_remove_value_no_duplicates(s: Seq<usize>, val: usize)
    requires
        s.no_duplicates(),
    ensures
        s.remove_value(val).no_duplicates(),
{
    match s.index_of_first(val) {
        Some(i) => {
            s.index_of_first_ensures(val);
            s.remove_ensures(i);
        },
        None => {},
    }
}

/// The token allocator never reuses a live identifier: after any sequence of
/// allocate and release steps, no two outstanding identifiers are equal.
pub proof fn lemma_no_live_identifier_reused(ops: Seq<TokenOp>)
    ensures
        run_token_ops(ops).0.no_duplicates(),
    decreases ops.len(),
{
    if ops.len() != 0 {
        lemma_no_live_identifier_reused(ops.drop_last());
        let (live, last) = run_token_ops(ops.drop_last());
        match ops.last() {
            TokenOp::Allocate => {
                match spec_next_token(live.to_set(), last) {
                    Some(t) => {
                        lemma_probe_fresh(live.to_set(), last, ring_next(last), probe_fuel());
                        assert(!live.to_set().contains(t));
                        assert(!live.contains(t));
                    },
                    None => {},
                }
            },
            TokenOp::Release(t) => {
                lemma_remove_value_no_duplicates(live, t);
            },
        }
    }
}

/// Allocation wraps: when the most recent identifier sits at the top of the
/// space, the next one comes from the reserved low end rather than overflowing.
pub proof fn lemma_wraparound(used: Set<usize>)
    requires
        !used.contains(2),
    ensures
        spec_next_token(used, max_token()) == Some(2usize),
{
}

} // verus!
