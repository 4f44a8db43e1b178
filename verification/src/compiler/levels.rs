//! State transitions at which functions are invoked.

use crate::conntrack::conn_state::{StateTransition, NUM_STATE_TRANSITIONS};
use vstd::prelude::*;

verus! {

/// The transition with an index.
pub open spec fn at_index(i: int) -> StateTransition {
    if i == 0 {
        StateTransition::L4FirstPacket
    } else if i == 1 {
        StateTransition::L4EndHshk
    } else if i == 2 {
        StateTransition::InL4Conn
    } else if i == 3 {
        StateTransition::InL4Stream
    } else if i == 4 {
        StateTransition::L7OnDisc
    } else if i == 5 {
        StateTransition::L7EndHdrs
    } else if i == 6 {
        StateTransition::L4Terminated
    } else {
        StateTransition::Packet
    }
}

/// The transitions with an index below `n` that occur in a list, in order.
pub open spec fn sorted_below(levels: Seq<StateTransition>, n: int) -> Seq<StateTransition>
    decreases n,
{
    if n <= 0 {
        Seq::empty()
    } else {
        let before = sorted_below(levels, n - 1);
        if levels.contains(at_index(n - 1)) {
            before.push(at_index(n - 1))
        } else {
            before
        }
    }
}

/// The transitions that occur in a list, in order, each once.
pub open spec fn sorted_levels(levels: Seq<StateTransition>) -> Seq<StateTransition> {
    sorted_below(levels, NUM_STATE_TRANSITIONS + 1)
}

proof fn lemma_sorted_below(levels: Seq<StateTransition>, n: int, t: StateTransition)
    requires
        0 <= n <= NUM_STATE_TRANSITIONS + 1,
    ensures
        sorted_below(levels, n).contains(t) <==> levels.contains(t) && t.index() < n,
        forall|i: int, j: int|
            0 <= i < j < sorted_below(levels, n).len() ==> (#[trigger] sorted_below(
                levels,
                n,
            )[i]).index() < (#[trigger] sorted_below(levels, n)[j]).index(),
        forall|i: int|
            0 <= i < sorted_below(levels, n).len() ==> (#[trigger] sorted_below(
                levels,
                n,
            )[i]).index() < n,
    decreases n,
{
    if n > 0 {
        lemma_sorted_below(levels, n - 1, t);
        let before = sorted_below(levels, n - 1);
        let after = sorted_below(levels, n);
        assert(at_index(n - 1).index() == n - 1);
        if levels.contains(at_index(n - 1)) {
            assert(after[before.len() as int] == at_index(n - 1));
            if before.contains(t) {
                let k = choose|k: int| 0 <= k < before.len() && before[k] == t;
                assert(after[k] == t);
            }
            if t == at_index(n - 1) {
                assert(after.contains(t));
            }
            if after.contains(t) {
                let k = choose|k: int| 0 <= k < after.len() && after[k] == t;
                if k < before.len() {
                    assert(before[k] == t);
                }
            }
            assert forall|i: int, j: int| 0 <= i < j < after.len() implies (#[trigger]
            after[i]).index() < (#[trigger] after[j]).index() by {
                assert(after[i] == before[i]);
            }
        }
        assert(t.index() == n - 1 ==> t == at_index(n - 1));
    }
}

/// A sorted list holds the transitions that the list holds, each once, in order.
pub proof fn law_sorted_levels_are_the_levels(levels: Seq<StateTransition>, t: StateTransition)
    ensures
        sorted_levels(levels).contains(t) <==> levels.contains(t),
        forall|i: int, j: int|
            0 <= i < j < sorted_levels(levels).len() ==> (#[trigger] sorted_levels(
                levels,
            )[i]).index() < (#[trigger] sorted_levels(levels)[j]).index(),
{
    lemma_sorted_below(levels, NUM_STATE_TRANSITIONS + 1, t);
}

/// Returns `true` if the transition occurs in the list.
pub fn has_level(levels: &Vec<StateTransition>, t: StateTransition) -> (b: bool)
    ensures
        b == levels@.contains(t),
{
    let mut i: usize = 0;
    while i < levels.len()
        invariant
            i <= levels@.len(),
            forall|j: int| 0 <= j < i ==> levels@[j] != t,
        decreases levels@.len() - i,
    {
        if levels[i] == t {
            return true;
        }
        i = i + 1;
    }
    false
}

/// The transitions that occur in a list, in order, each once.
pub fn sort_levels(levels: &Vec<StateTransition>) -> (r: Vec<StateTransition>)
    ensures
        r@ == sorted_levels(levels@),
{
    let mut r: Vec<StateTransition> = Vec::new();
    let mut i: usize = 0;
    assert(r@ =~= Seq::empty());
    while i <= NUM_STATE_TRANSITIONS
        invariant
            i <= NUM_STATE_TRANSITIONS + 1,
            r@ == sorted_below(levels@, i as int),
        decreases NUM_STATE_TRANSITIONS + 1 - i,
    {
        let t = StateTransition::from_usize(i);
        assert(t == at_index(i as int));
        if has_level(levels, t) {
            r.push(t);
        }
        i = i + 1;
    }
    r
}

/// Some transition of the list recurs.
pub open spec fn any_streaming(levels: Seq<StateTransition>) -> bool {
    exists|i: int| 0 <= i < levels.len() && (#[trigger] levels[i]).streaming()
}

/// Returns `true` if some transition of the list recurs.
pub fn has_streaming(levels: &Vec<StateTransition>) -> (b: bool)
    ensures
        b == any_streaming(levels@),
{
    let mut i: usize = 0;
    while i < levels.len()
        invariant
            i <= levels@.len(),
            forall|j: int| 0 <= j < i ==> !(#[trigger] levels@[j]).streaming(),
        decreases levels@.len() - i,
    {
        if levels[i].is_streaming() {
            return true;
        }
        i = i + 1;
    }
    false
}

/// Appends transitions to a list.
pub fn append_levels(list: &mut Vec<StateTransition>, more: &Vec<StateTransition>)
    ensures
        final(list)@ == old(list)@ + more@,
{
    let ghost before = list@;
    list.extend_from_slice(more.as_slice());
    assert(list@ =~= before + more@);
}

} // verus!
