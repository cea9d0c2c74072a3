//! Playing a random move, with the generator of the `rand` crate.
use rand::rngs::StdRng;
use rand::seq::IndexedRandom;
use vstd::prelude::*;

use crate::state::{states_view, State, StateView};

verus! {

/// The standard generator of the `rand` crate, carried through as it is.
#[verifier::external_type_specification]
#[verifier::external_body]
pub struct ExStdRng(StdRng);

/// Picks one of `items` with `IndexedRandom::choose` of the `rand` crate:
/// `None` when `items` is empty, else a reference to one of its items. Which
/// item comes back rests on the generator and is not stated.
#[verifier::external_body]
fn choose_state<'a>(items: &'a Vec<State>, rng: &mut StdRng) -> (r: Option<&'a State>)
    ensures
        r is None <==> items@.len() == 0,
        r is Some ==> exists|k: int| 0 <= k < items@.len() && *r.unwrap() == #[trigger] items@[k],
{
    items.as_slice().choose(rng)
}

/// One of the successor positions of `state`, picked at random.
pub fn random_move(state: &State, rng: &mut StdRng) -> (r: State)
    requires
        state@.shape(),
        state@.children_fit(),
        state@.children().len() > 0,
    ensures
        exists|k: int| 0 <= k < state@.children().len() && r@ == #[trigger] state@.children()[k],
{
    let children = state.children();
    assert(states_view(children@).len() == children@.len());
    match choose_state(&children, rng) {
        Some(c) => {
            let ghost k = choose|k: int| 0 <= k < children@.len() && *c == #[trigger] children@[k];
            assert(states_view(children@)[k] == children@[k]@);
            c.clone()
        },
        None => {
            assert(false);
            state.clone()
        },
    }
}

} // verus!
