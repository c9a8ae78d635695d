//! A minimal execution runner.
//!
//! The runner dispatches one step by ordered trial: it walks the candidate
//! processing functions of the current state in list order and commits the
//! first whose guard passes. This is a distinct, more permissive dispatch
//! policy than the generators' single-candidate routed dispatch; the two are
//! deliberately kept separate.

use crate::traits::XMachine;
use vstd::prelude::*;

verus! {

/// No candidate among the first `k` of `phis` has a guard that accepts
/// `(m, i)`.
pub open spec fn no_phi_enabled_before<T: XMachine>(
    phis: Seq<T::Phi>,
    k: int,
    m: T::Store,
    i: T::Input,
) -> bool {
    forall|j: int| 0 <= j < k ==> !T::guard_spec(#[trigger] phis[j], m, i)
}

/// A live machine instance: a current state plus a current memory.
pub struct MachineRunner<M: XMachine> {
    pub state: M::State,
    pub store: M::Store,
}

impl<M: XMachine> MachineRunner<M> {
    /// A fresh instance, seeded from the machine's first initial state and
    /// its initial memory.
    pub fn new() -> (r: Self)
        requires
            M::initial_states_spec().len() > 0,
        ensures
            r.state == M::initial_states_spec()[0],
            r.store == M::initial_store_spec(),
    {
        let mut starts = M::initial_states();
        let state = starts.remove(0);
        Self { state, store: M::initial_store() }
    }

    /// Tries to step the machine: walks the candidate processing functions of
    /// the current state in list order and commits the first whose guard
    /// accepts the current memory and `input`. When every candidate rejects,
    /// the machine is left untouched and the step reports failure.
    pub fn step(&mut self, input: M::Input) -> (r: Result<Option<M::Output>, &'static str>)
        ensures
            ({
                let phis = M::available_phi_spec(old(self).state);
                match r {
                    Ok(out) => exists|k: int|
                        0 <= k < phis.len() && no_phi_enabled_before::<M>(
                            phis,
                            k,
                            old(self).store,
                            input,
                        ) && (#[trigger] M::guard_spec(phis[k], old(self).store, input)) && out
                            == M::step_output_spec(phis[k], old(self).store, input)
                            && final(self).store == M::step_store_spec(phis[k], old(self).store, input)
                            && final(self).state == (match M::transition_spec(old(self).state, phis[k]) {
                            Some(s2) => s2,
                            None => old(self).state,
                        }),
                    Err(_) => no_phi_enabled_before::<M>(phis, phis.len() as int, old(self).store, input)
                        && final(self).state == old(self).state
                        && final(self).store == old(self).store,
                }
            }),
    {
        let possible_phis = M::get_available_phi(&self.state);
        let ghost phis = M::available_phi_spec(self.state);
        let mut idx: usize = 0;
        while idx < possible_phis.len()
            invariant
                phis == M::available_phi_spec(old(self).state),
                possible_phis@ == phis,
                idx <= possible_phis.len(),
                no_phi_enabled_before::<M>(phis, idx as int, old(self).store, input),
                self.state == old(self).state,
                self.store == old(self).store,
            decreases possible_phis.len() - idx,
        {
            let phi = &possible_phis[idx];
            match M::execute_phi(phi, &mut self.store, &input) {
                Ok(output) => {
                    // Guard passed: commit the destination, staying put when
                    // the topology leaves it undefined.
                    match M::next_state(&self.state, phi) {
                        Some(next) => {
                            self.state = next;
                        },
                        None => {},
                    }
                    return Ok(output);
                },
                Err(_) => {
                    // Guard failed, continue to the next candidate.
                },
            }
            idx += 1;
        }
        Err("No valid transition found for input")
    }
}

} // verus!
