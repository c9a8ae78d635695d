//! The core X-machine contract.
//!
//! In theory, an X-machine is M = (Sigma, Gamma, Q, M, Phi, F, m0, q0): an
//! input alphabet, an output alphabet, a finite state set, a memory store, a
//! finite set of guarded processing functions, a transition relation, an
//! initial memory and initial states. The trait maps those parts to Rust
//! types, and pairs every executable method with a specification function so
//! that the test generators can be verified against the mathematical model of
//! the machine.

use vstd::prelude::*;

verus! {

/// The contract a model author implements.
///
/// Each executable method is pinned by its `ensures` clause to a
/// specification function of the same machine, so that generic code working
/// through this trait can reason about the model. The enumerations are
/// expected to be exhaustive and stable; omissions silently reduce the
/// coverage of the generated suites.
pub trait XMachine: Sized {
    /// Sigma: the input alphabet.
    type Input: core::fmt::Debug;

    /// Gamma: the output alphabet.
    type Output;

    /// Q: the state set, usually an enum.
    type State: core::fmt::Debug;

    /// M: the memory store holding the machine's internal variables.
    type Store;

    /// The identifier of a processing function (an element of Phi).
    type Phi: core::fmt::Debug;

    /// The seed states of every search.
    spec fn initial_states_spec() -> Seq<Self::State>;

    /// The nominal final-state set; recorded with the model but not consulted
    /// by the test generators.
    spec fn final_states_spec() -> Seq<Self::State>;

    /// Every state of the machine.
    spec fn all_states_spec() -> Seq<Self::State>;

    /// Every input symbol.
    spec fn all_inputs_spec() -> Seq<Self::Input>;

    /// Every output symbol.
    spec fn all_outputs_spec() -> Seq<Self::Output>;

    /// Every processing function.
    spec fn all_phis_spec() -> Seq<Self::Phi>;

    /// m0: the memory a fresh machine instance starts from.
    spec fn initial_store_spec() -> Self::Store;

    /// F: the transition relation. Memory-independent: answers "is this
    /// function's destination defined", not "will its guard pass".
    spec fn transition_spec(state: Self::State, phi: Self::Phi) -> Option<Self::State>;

    /// The routing function: at most one candidate processing function per
    /// (state, input) pair. Used by every test generator.
    spec fn routed_phi_spec(state: Self::State, input: Self::Input) -> Option<Self::Phi>;

    /// The candidate processing functions leaving a state, in trial order.
    /// Used only by the ordered-trial dispatch of the runner.
    spec fn available_phi_spec(state: Self::State) -> Seq<Self::Phi>;

    /// Whether the guard of `phi` accepts the given memory and input.
    spec fn guard_spec(phi: Self::Phi, store: Self::Store, input: Self::Input) -> bool;

    /// The memory after a successful execution of `phi`.
    spec fn step_store_spec(phi: Self::Phi, store: Self::Store, input: Self::Input) -> Self::Store;

    /// The output of a successful execution of `phi`; `None` when the step
    /// produces no observable output.
    spec fn step_output_spec(phi: Self::Phi, store: Self::Store, input: Self::Input) -> Option<
        Self::Output,
    >;

    /// q0: the seed states of every search.
    fn initial_states() -> (r: Vec<Self::State>)
        ensures
            r@ == Self::initial_states_spec(),
    ;

    /// The nominal final states.
    fn final_states() -> (r: Vec<Self::State>)
        ensures
            r@ == Self::final_states_spec(),
    ;

    /// All states, for complete test coverage.
    fn all_states() -> (r: Vec<Self::State>)
        ensures
            r@ == Self::all_states_spec(),
    ;

    /// All input symbols.
    fn all_inputs() -> (r: Vec<Self::Input>)
        ensures
            r@ == Self::all_inputs_spec(),
    ;

    /// All output symbols.
    fn all_outputs() -> (r: Vec<Self::Output>)
        ensures
            r@ == Self::all_outputs_spec(),
    ;

    /// All processing functions.
    fn all_phis() -> (r: Vec<Self::Phi>)
        ensures
            r@ == Self::all_phis_spec(),
    ;

    /// m0: a fresh memory.
    fn initial_store() -> (r: Self::Store)
        ensures
            r == Self::initial_store_spec(),
    ;

    /// "If I was in `state` and successfully executed `phi`, where am I now?"
    fn next_state(state: &Self::State, phi: &Self::Phi) -> (r: Option<Self::State>)
        ensures
            r == Self::transition_spec(*state, *phi),
    ;

    /// The single routed candidate for a (state, input) pair, if any.
    fn get_phi_for_input(state: &Self::State, input: &Self::Input) -> (r: Option<Self::Phi>)
        ensures
            r == Self::routed_phi_spec(*state, *input),
    ;

    /// The candidate processing functions leaving `state`, in trial order.
    fn get_available_phi(state: &Self::State) -> (r: Vec<Self::Phi>)
        ensures
            r@ == Self::available_phi_spec(*state),
    ;

    /// Attempts to execute `phi` against the current memory.
    ///
    /// Returns `Ok(Some(out))` or `Ok(None)` when the guard passes (the store
    /// is updated), and `Err(())` when the guard rejects the pair. Guard
    /// failure must be atomic: the store is unchanged on failure.
    fn execute_phi(phi: &Self::Phi, store: &mut Self::Store, input: &Self::Input) -> (r: Result<
        Option<Self::Output>,
        (),
    >)
        ensures
            Self::guard_spec(*phi, *old(store), *input) ==> r == Ok::<Option<Self::Output>, ()>(
                Self::step_output_spec(*phi, *old(store), *input),
            ) && *final(store) == Self::step_store_spec(*phi, *old(store), *input),
            !Self::guard_spec(*phi, *old(store), *input) ==> r == Err::<Option<Self::Output>, ()>(
                (),
            ) && *final(store) == *old(store),
    ;

    /// Decides equality of two states.
    fn state_eq(a: &Self::State, b: &Self::State) -> (r: bool)
        ensures
            r <==> (*a == *b),
    ;

    /// An independent copy of a state.
    fn clone_state(s: &Self::State) -> (r: Self::State)
        ensures
            r == *s,
    ;

    /// An independent copy of an input symbol.
    fn clone_input(i: &Self::Input) -> (r: Self::Input)
        ensures
            r == *i,
    ;

    /// An independent copy of a processing-function identifier.
    fn clone_phi(p: &Self::Phi) -> (r: Self::Phi)
        ensures
            r == *p,
    ;

    /// An independent copy of the memory, for speculative execution: every
    /// search branch owns its own snapshot, so a failed speculative branch
    /// can never corrupt the accepted search frontier.
    fn clone_store(m: &Self::Store) -> (r: Self::Store)
        ensures
            r == *m,
    ;
}

/// One step of the routed dispatch: the state reached from `s` on input `i`
/// when `i` is an enumerated input, a processing function is routed for
/// `(s, i)` and that function's destination is defined. Memory-independent.
pub open spec fn route_step<T: XMachine>(s: T::State, i: T::Input) -> Option<T::State> {
    if T::all_inputs_spec().contains(i) {
        match T::routed_phi_spec(s, i) {
            Some(phi) => T::transition_spec(s, phi),
            None => None,
        }
    } else {
        None
    }
}

/// Replays a whole input sequence under the routed dispatch, ignoring guards
/// and memory: the topology-only walk of the plain reachability search.
pub open spec fn replay_states<T: XMachine>(s: T::State, inputs: Seq<T::Input>) -> Option<T::State>
    decreases inputs.len(),
{
    if inputs.len() == 0 {
        Some(s)
    } else {
        match route_step::<T>(s, inputs[0]) {
            Some(s2) => replay_states::<T>(s2, inputs.drop_first()),
            None => None,
        }
    }
}

/// One guard-aware step: the configuration reached from `(s, m)` on input `i`
/// when a processing function is routed for `(s, i)`, its guard accepts
/// `(m, i)` and its destination is defined.
pub open spec fn guarded_step<T: XMachine>(s: T::State, m: T::Store, i: T::Input) -> Option<
    (T::State, T::Store),
> {
    if T::all_inputs_spec().contains(i) {
        match T::routed_phi_spec(s, i) {
            Some(phi) => if T::guard_spec(phi, m, i) {
                match T::transition_spec(s, phi) {
                    Some(s2) => Some((s2, T::step_store_spec(phi, m, i))),
                    None => None,
                }
            } else {
                None
            },
            None => None,
        }
    } else {
        None
    }
}

/// Replays a whole input sequence with the real guarded functions, tracking
/// the memory: the walk of the guard-aware reachability search.
pub open spec fn run_machine<T: XMachine>(s: T::State, m: T::Store, inputs: Seq<T::Input>) -> Option<
    (T::State, T::Store),
>
    decreases inputs.len(),
{
    if inputs.len() == 0 {
        Some((s, m))
    } else {
        match guarded_step::<T>(s, m, inputs[0]) {
            Some(sm) => run_machine::<T>(sm.0, sm.1, inputs.drop_first()),
            None => None,
        }
    }
}

/// The input sequence `path` leads from one of the machine's initial states
/// to `target` under the routed dispatch.
pub open spec fn reaches_target_via<T: XMachine>(path: Seq<T::Input>, target: T::State) -> bool {
    exists|j: int|
        0 <= j < T::initial_states_spec().len() && replay_states::<T>(
            T::initial_states_spec()[j],
            path,
        ) == Some(target)
}

/// Some input sequence of at most `k` symbols reaches `target`.
pub open spec fn reachable_within<T: XMachine>(target: T::State, k: int) -> bool {
    exists|p: Seq<T::Input>| p.len() <= k && reaches_target_via::<T>(p, target)
}

/// Some input sequence reaches `target`.
pub open spec fn reachable<T: XMachine>(target: T::State) -> bool {
    exists|p: Seq<T::Input>| reaches_target_via::<T>(p, target)
}

/// Replaying `path` from one of the machine's initial configurations, with
/// the real guarded functions, ends in state `target` with memory `m`.
pub open spec fn guarded_run_reaches<T: XMachine>(
    path: Seq<T::Input>,
    target: T::State,
    m: T::Store,
) -> bool {
    exists|j: int|
        0 <= j < T::initial_states_spec().len() && run_machine::<T>(
            T::initial_states_spec()[j],
            T::initial_store_spec(),
            path,
        ) == Some((target, m))
}

/// Some input sequence of at most `depth` symbols drives the machine from an
/// initial configuration into `target` with a memory accepted by the guard
/// of `phi` for `input`.
pub open spec fn phi_witness_within<T: XMachine>(
    target: T::State,
    phi: T::Phi,
    input: T::Input,
    depth: int,
) -> bool {
    exists|p: Seq<T::Input>, m: T::Store|
        p.len() <= depth && #[trigger] guarded_run_reaches::<T>(p, target, m) && T::guard_spec(
            phi,
            m,
            input,
        )
}

/// The model invariant that routing and topology never disagree: whenever a
/// processing function is routed for a (state, input) pair, its destination
/// is defined. A violation degrades generated coverage but never crashes the
/// engine, so the generators do not require it.
pub open spec fn routing_agrees<T: XMachine>() -> bool {
    forall|s: T::State, i: T::Input|
        (#[trigger] T::routed_phi_spec(s, i)) matches Some(phi) ==> T::transition_spec(
            s,
            phi,
        ) is Some
}

/// The state enumeration is closed under the routed dispatch: initial states
/// are enumerated, and a routed step from an enumerated state lands on an
/// enumerated state. This is the exhaustiveness obligation of the model
/// author, and it bounds every reachability search.
pub open spec fn state_enum_closed<T: XMachine>() -> bool {
    (forall|j: int|
        0 <= j < T::initial_states_spec().len() ==> T::all_states_spec().contains(
            #[trigger] T::initial_states_spec()[j],
        )) && (forall|s: T::State, i: T::Input|
        T::all_states_spec().contains(s) ==> ((#[trigger] route_step::<T>(s, i)) matches Some(s2)
            ==> T::all_states_spec().contains(s2)))
}

} // verus!
